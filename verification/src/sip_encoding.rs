//! How SIP messages are written, and the law that what was written is read back.
use vstd::prelude::*;
use crate::error::ImsError;
use crate::ims_sip;
use crate::ims_sms;
use crate::ipv6;
use crate::number;
use crate::sms_reception;
use crate::text;

verus! {

/// A text without line feeds.
pub open spec fn is_one_line(s: Seq<char>) -> bool {
    forall|i: int| 0 <= i < s.len() ==> #[trigger] s[i] != '\n'
}

/// A header with a name that can be told from its value.
pub open spec fn is_header(header: (Seq<char>, Seq<char>)) -> bool {
    is_one_line(header.0) && is_one_line(header.1) && !header.0.contains(':')
}

/// The line that writes a header.
pub open spec fn header_line(header: (Seq<char>, Seq<char>)) -> Seq<char> {
    header.0 + ": "@ + header.1
}

/// The lines that write a first line and headers, with line breaks between them.
pub open spec fn written_lines(first: Seq<char>, headers: Seq<(Seq<char>, Seq<char>)>) -> Seq<char>
    decreases headers.len(),
{
    if headers.len() == 0 {
        first
    } else {
        first + "\r\n"@ + written_lines(header_line(headers[0]), headers.skip(1))
    }
}

/// One more header is one more line.
pub proof fn lemma_written_lines_push(
    first: Seq<char>,
    headers: Seq<(Seq<char>, Seq<char>)>,
    header: (Seq<char>, Seq<char>),
)
    ensures
        written_lines(first, headers.push(header)) == written_lines(first, headers) + "\r\n"@
            + header_line(header),
    decreases headers.len(),
{
    let all = headers.push(header);
    if headers.len() == 0 {
        assert(all.skip(1) =~= Seq::empty());
        assert(written_lines(header_line(header), Seq::empty()) == header_line(header));
    } else {
        let line = header_line(headers[0]);
        lemma_written_lines_push(line, headers.skip(1), header);
        assert(all.skip(1) =~= headers.skip(1).push(header));
        let rest = written_lines(line, headers.skip(1));
        let last = header_line(header);
        assert(first + "\r\n"@ + (rest + "\r\n"@ + last) =~= (first + "\r\n"@ + rest) + "\r\n"@
            + last);
    }
}

/// A message with a first line, headers and a body.
pub open spec fn written_message(
    first: Seq<char>,
    headers: Seq<(Seq<char>, Seq<char>)>,
    body: Seq<u8>,
) -> Seq<u8> {
    vstd::utf8::encode_utf8(written_lines(first, headers) + "\r\n\r\n"@) + body
}

/// The values of headers by their names in small letters, a later one over an earlier one.
pub open spec fn header_values(headers: Seq<(Seq<char>, Seq<char>)>) -> Map<Seq<char>, Seq<char>>
    decreases headers.len(),
{
    if headers.len() == 0 {
        Map::empty()
    } else {
        header_values(headers.drop_last()).insert(
            text::lowercase(text::trim(headers.last().0)),
            text::trim(headers.last().1),
        )
    }
}

// ---------------------------------------------------------------------------------------------
// Bytes
// ---------------------------------------------------------------------------------------------
proof fn lemma_wide_bytes(c: u32)
    by (bit_vector)
    ensures
        (c & 0x7F) as u8 == c || c > 0x7F,
        0xC0 | ((c >> 6) & 0x1F) as u8 >= 0x80u8,
        0xE0 | ((c >> 12) & 0x0F) as u8 >= 0x80u8,
        0xF0 | ((c >> 18) & 0x7) as u8 >= 0x80u8,
        0x80 | (c & 0x3F) as u8 >= 0x80u8,
        0x80 | ((c >> 6) & 0x3F) as u8 >= 0x80u8,
        0x80 | ((c >> 12) & 0x3F) as u8 >= 0x80u8,
{
}

/// An ASCII character is one byte, and another character is two to four bytes that are no ASCII
/// characters.
proof fn lemma_character_bytes(c: char)
    ensures
        ({
            let bytes = vstd::utf8::encode_scalar(c as u32);
            if c <= '\u{7f}' {
                bytes == seq![c as u8]
            } else {
                &&& bytes.len() >= 2
                &&& forall|i: int| 0 <= i < bytes.len() ==> #[trigger] bytes[i] >= 0x80
            }
        }),
{
    let code = c as u32;
    lemma_wide_bytes(code);
}

/// Texts are encoded one after the other.
pub proof fn lemma_encode_concat(a: Seq<char>, b: Seq<char>)
    ensures
        vstd::utf8::encode_utf8(a + b) == vstd::utf8::encode_utf8(a) + vstd::utf8::encode_utf8(b),
    decreases a.len(),
{
    if a.len() == 0 {
        assert(a + b =~= b);
        assert(vstd::utf8::encode_utf8(a) + vstd::utf8::encode_utf8(b) =~= vstd::utf8::encode_utf8(
            b,
        ));
    } else {
        lemma_encode_concat(a.drop_first(), b);
        assert((a + b).drop_first() =~= a.drop_first() + b);
        assert((a + b)[0] == a[0]);
        let head = vstd::utf8::encode_scalar(a[0] as u32);
        assert(head + (vstd::utf8::encode_utf8(a.drop_first()) + vstd::utf8::encode_utf8(b)) =~= (
        head + vstd::utf8::encode_utf8(a.drop_first())) + vstd::utf8::encode_utf8(b));
    }
}

/// No line feeds with one character between them, and none at the end.
pub open spec fn has_no_blank_line(s: Seq<char>) -> bool {
    &&& s.len() > 0 ==> s.last() != '\n'
    &&& forall|i: int| 0 <= i < s.len() - 2 ==> !(#[trigger] s[i] == '\n' && s[i + 2] == '\n')
}

/// The same for bytes.
spec fn has_no_blank_bytes(s: Seq<u8>) -> bool {
    &&& s.len() > 0 ==> s.last() != 10
    &&& forall|i: int| 0 <= i < s.len() - 2 ==> !(#[trigger] s[i] == 10 && s[i + 2] == 10)
}

/// The second byte of a text is a line feed only if its second character is.
proof fn lemma_second_byte(s: Seq<char>)
    requires
        vstd::utf8::encode_utf8(s).len() >= 2,
        vstd::utf8::encode_utf8(s)[1] == 10,
    ensures
        s.len() >= 2,
        s[1] == '\n',
{
    let bytes = vstd::utf8::encode_utf8(s);
    let head = vstd::utf8::encode_scalar(s[0] as u32);
    let rest = s.drop_first();
    lemma_character_bytes(s[0]);
    assert(bytes == head + vstd::utf8::encode_utf8(rest));
    if head.len() >= 2 {
        assert(bytes[1] == head[1]);
    } else {
        assert(bytes[1] == vstd::utf8::encode_utf8(rest)[0]);
        lemma_first_byte(rest);
        assert(rest[0] == s[1]);
    }
}

/// The first byte of a text is a line feed only if its first character is.
proof fn lemma_first_byte(s: Seq<char>)
    requires
        vstd::utf8::encode_utf8(s).len() >= 1,
        vstd::utf8::encode_utf8(s)[0] == 10,
    ensures
        s.len() >= 1,
        s[0] == '\n',
{
    let bytes = vstd::utf8::encode_utf8(s);
    let head = vstd::utf8::encode_scalar(s[0] as u32);
    lemma_character_bytes(s[0]);
    assert(bytes == head + vstd::utf8::encode_utf8(s.drop_first()));
    assert(bytes[0] == head[0]);
    lemma_ascii_char(s[0], 10);
}

proof fn lemma_ascii_char(c: char, b: u8)
    requires
        c <= '\u{7f}',
        c as u8 == b,
        b == 10,
    ensures
        c == '\n',
{
}

proof fn lemma_no_blank_bytes(s: Seq<char>)
    requires
        has_no_blank_line(s),
    ensures
        has_no_blank_bytes(vstd::utf8::encode_utf8(s)),
    decreases s.len(),
{
    if s.len() > 0 {
        let bytes = vstd::utf8::encode_utf8(s);
        let head = vstd::utf8::encode_scalar(s[0] as u32);
        let rest = s.drop_first();
        let tail = vstd::utf8::encode_utf8(rest);
        assert(bytes == head + tail);
        lemma_character_bytes(s[0]);
        assert(has_no_blank_line(rest)) by {
            assert forall|i: int| 0 <= i < rest.len() - 2 implies !(#[trigger] rest[i] == '\n'
                && rest[i + 2] == '\n') by {
                assert(rest[i] == s[i + 1] && rest[i + 2] == s[i + 3]);
            }
            if rest.len() > 0 {
                assert(rest.last() == s.last());
            }
        }
        lemma_no_blank_bytes(rest);
        assert forall|i: int| 0 <= i < bytes.len() - 2 implies !(#[trigger] bytes[i] == 10
            && bytes[i + 2] == 10) by {
            if i >= head.len() {
                let j = i - head.len();
                assert(bytes[i] == tail[j] && bytes[i + 2] == tail[j + 2]);
            } else {
                assert(bytes[i] == head[i]);
                if bytes[i] == 10 && bytes[i + 2] == 10 {
                    assert(head.len() == 1 && i == 0);
                    lemma_ascii_char(s[0], 10);
                    assert(tail[1] == bytes[2]);
                    lemma_second_byte(rest);
                    assert(s[2] == rest[1]);
                    assert(s[0] == '\n' && s[0int + 2] == '\n');
                }
            }
        }
        if tail.len() > 0 {
            assert(bytes.last() == tail.last());
        } else {
            assert(bytes.last() == head.last());
            if bytes.last() == 10 {
                lemma_ascii_char(s[0], 10);
                if rest.len() > 0 {
                    lemma_character_bytes(rest[0]);
                    assert(tail.len() > 0);
                }
                assert(s.last() == s[0]);
            }
        }
    }
}

proof fn lemma_find_blank_line(head: Seq<u8>, body: Seq<u8>, i: int)
    requires
        has_no_blank_bytes(head),
        0 <= i <= head.len(),
    ensures
        ims_sms::find_bytes(head + ims_sms::blank_line() + body, ims_sms::blank_line(), i) == Some(
            head.len() as int,
        ),
    decreases head.len() - i,
{
    let s = head + ims_sms::blank_line() + body;
    let n = head.len() as int;
    let here = s.subrange(i, i + 4);
    if i == n {
        assert(here =~= ims_sms::blank_line());
    } else {
        assert(here != ims_sms::blank_line()) by {
            if here == ims_sms::blank_line() {
                assert(here[0] == 13 && here[1] == 10 && here[2] == 13 && here[3] == 10);
                assert(s[i + 1] == here[1] && s[i + 3] == here[3]);
                if i + 3 < n {
                    assert(head[i + 1] == 10 && head[i + 1 + 2] == 10);
                } else if i + 1 < n {
                    assert(head[i + 1] == 10);
                    assert(i + 3 == n || i + 3 == n + 1);
                    assert(s[n] == 13);
                    assert(i + 1 == n - 1);
                    assert(head.last() == 10);
                } else {
                    assert(i + 1 == n);
                    assert(s[n] == 13);
                }
            }
        }
        lemma_find_blank_line(head, body, i + 1);
    }
}

// ---------------------------------------------------------------------------------------------
// Lines
// ---------------------------------------------------------------------------------------------
/// A header is found again in its line.
pub proof fn lemma_header_line(header: (Seq<char>, Seq<char>))
    requires
        is_header(header),
    ensures
        is_one_line(header_line(header)),
        header_line(header).len() >= 2,
        text::split_once(header_line(header), ':') == Some((header.0, " "@ + header.1)),
        text::trim(" "@ + header.1) == text::trim(header.1),
{
    let (name, value) = header;
    let line = header_line(header);
    reveal_strlit(": ");
    reveal_strlit(" ");
    assert(line =~= name.push(':') + (" "@ + value));
    assert forall|i: int| 0 <= i < line.len() implies #[trigger] line[i] != '\n' by {
        if i < name.len() {
            assert(line[i] == name[i]);
        } else if i >= name.len() + 2 {
            assert(line[i] == value[i - name.len() - 2]);
        }
    }
    text::lemma_split_first(name, ':', " "@ + value);
    assert(line.take(name.len() as int) =~= name);
    assert(line.skip(name.len() as int + 1) =~= " "@ + value);
    assert(" "@ =~= seq![' ']);
    text::lemma_trim_by_start(' ', value, |c: char| text::is_white_space(c));
}

/// The lines of what was written are the first line and the lines of the headers.
pub proof fn lemma_written_lines(first: Seq<char>, headers: Seq<(Seq<char>, Seq<char>)>)
    requires
        is_one_line(first),
        forall|i: int| 0 <= i < headers.len() ==> is_header(#[trigger] headers[i]),
    ensures
        has_no_blank_line(written_lines(first, headers)),
        text::lines(written_lines(first, headers)) == if headers.len() == 0 && first.len() == 0 {
            Seq::empty()
        } else {
            seq![first] + headers.map_values(|h: (Seq<char>, Seq<char>)| header_line(h))
        },
        written_lines(first, headers).len() >= first.len(),
        first.len() >= 2 ==> written_lines(first, headers)[0] != '\n' && written_lines(
            first,
            headers,
        )[1] != '\n',
    decreases headers.len(),
{
    let t = written_lines(first, headers);
    let map = |h: (Seq<char>, Seq<char>)| header_line(h);
    if headers.len() == 0 {
        assert forall|i: int| 0 <= i < t.len() implies !text::is_char('\n')(#[trigger] t[i]) by {}
        text::lemma_first_index_unique(t, text::is_char('\n'), t.len() as int);
        if t.len() > 0 {
            assert(t.last() == t[t.len() - 1]);
            assert(seq![first] + headers.map_values(map) =~= seq![first]);
        }
    } else {
        let line = header_line(headers[0]);
        let rest = written_lines(line, headers.skip(1));
        assert(is_header(headers[0]));
        lemma_header_line(headers[0]);
        assert forall|i: int| 0 <= i < headers.skip(1).len() implies is_header(
            #[trigger] headers.skip(1)[i],
        ) by {
            assert(headers.skip(1)[i] == headers[i + 1]);
        }
        lemma_written_lines(line, headers.skip(1));
        reveal_strlit("\r\n");
        let n = first.len() as int;
        assert(t == first + "\r\n"@ + rest);
        assert(t[n] == '\r' && t[n + 1] == '\n');
        assert forall|i: int| 0 <= i < n + 1 implies !text::is_char('\n')(#[trigger] t[i]) by {
            if i < n {
                assert(t[i] == first[i]);
            }
        }
        text::lemma_first_index_unique(t, text::is_char('\n'), n + 1);
        assert(t.take(n + 1) =~= first.push('\r'));
        assert(text::strip_cr(first.push('\r')) =~= first);
        assert(t.skip(n + 2) =~= rest);
        assert(seq![line] + headers.skip(1).map_values(map) =~= headers.map_values(map));
        assert forall|i: int| 0 <= i < t.len() - 2 implies !(#[trigger] t[i] == '\n' && t[i + 2]
            == '\n') by {
            if i < n {
                assert(t[i] == first[i]);
            } else if i == n + 1 {
                assert(t[i + 2] == rest[1]);
            } else if i > n + 1 {
                assert(t[i] == rest[i - n - 2] && t[i + 2] == rest[i - n - 2 + 2]);
            }
        }
        assert(t.last() == rest.last());
        if n >= 2 {
            assert(t[0] == first[0] && t[1] == first[1]);
        }
    }
}

proof fn lemma_header_map(headers: Seq<(Seq<char>, Seq<char>)>)
    requires
        forall|i: int| 0 <= i < headers.len() ==> is_header(#[trigger] headers[i]),
    ensures
        ims_sms::header_map(
            headers.map_values(|h: (Seq<char>, Seq<char>)| header_line(h)),
        ) == Some(header_values(headers)),
    decreases headers.len(),
{
    let map = |h: (Seq<char>, Seq<char>)| header_line(h);
    let lines = headers.map_values(map);
    if headers.len() > 0 {
        assert forall|i: int| 0 <= i < headers.drop_last().len() implies is_header(
            #[trigger] headers.drop_last()[i],
        ) by {
            assert(headers.drop_last()[i] == headers[i]);
        }
        lemma_header_map(headers.drop_last());
        assert(lines.drop_last() =~= headers.drop_last().map_values(map));
        assert(lines.last() == header_line(headers.last()));
        assert(is_header(headers[headers.len() - 1]));
        lemma_header_line(headers.last());
    }
}

/// The headers of a packet end at the first blank line.
pub proof fn lemma_headers_end(head: Seq<char>, body: Seq<u8>)
    requires
        has_no_blank_line(head),
    ensures
        ims_sms::find_bytes(
            vstd::utf8::encode_utf8(head) + ims_sms::blank_line() + body,
            ims_sms::blank_line(),
            0,
        ) == Some(vstd::utf8::encode_utf8(head).len() as int),
{
    lemma_no_blank_bytes(head);
    lemma_find_blank_line(vstd::utf8::encode_utf8(head), body, 0);
}

/// A message that was written is read back: its headers and its body.
pub proof fn law_message_read_back(
    first: Seq<char>,
    headers: Seq<(Seq<char>, Seq<char>)>,
    body: Seq<u8>,
)
    requires
        is_one_line(first),
        forall|i: int| 0 <= i < headers.len() ==> is_header(#[trigger] headers[i]),
    ensures
        ims_sms::sip_message(written_message(first, headers, body)) == Ok::<
            (Map<Seq<char>, Seq<char>>, Seq<u8>),
            ImsError,
        >((header_values(headers), body)),
{
    let t = written_lines(first, headers);
    let head = vstd::utf8::encode_utf8(t);
    let packet = written_message(first, headers, body);
    reveal_strlit("\r\n\r\n");
    lemma_encode_concat(t, "\r\n\r\n"@);
    assert(vstd::utf8::encode_utf8("\r\n\r\n"@) =~= ims_sms::blank_line()) by {
        assert(vstd::utf8::is_ascii_chars("\r\n\r\n"@));
        vstd::utf8::is_ascii_chars_encode_utf8("\r\n\r\n"@);
    }
    assert(packet =~= head + ims_sms::blank_line() + body);
    lemma_written_lines(first, headers);
    lemma_no_blank_bytes(t);
    lemma_find_blank_line(head, body, 0);
    assert(packet.take(head.len() as int) =~= head);
    vstd::utf8::encode_utf8_valid_utf8(t);
    vstd::utf8::encode_utf8_decode_utf8(t);
    assert(packet.skip(head.len() as int + 4) =~= body);
    let lines = headers.map_values(|h: (Seq<char>, Seq<char>)| header_line(h));
    assert(ims_sms::header_lines(t) =~= lines) by {
        assert((seq![first] + lines).skip(1) =~= lines);
    }
    lemma_header_map(headers);
}

// ---------------------------------------------------------------------------------------------
// Acknowledgements
// ---------------------------------------------------------------------------------------------
/// Two texts without line feeds make one.
pub proof fn lemma_one_line_concat(a: Seq<char>, b: Seq<char>)
    requires
        is_one_line(a),
        is_one_line(b),
    ensures
        is_one_line(a + b),
{
    assert forall|i: int| 0 <= i < (a + b).len() implies #[trigger] (a + b)[i] != '\n' by {
        if i < a.len() {
            assert((a + b)[i] == a[i]);
        } else {
            assert((a + b)[i] == b[i - a.len()]);
        }
    }
}

/// A part of a text without line feeds has none.
pub proof fn lemma_one_line_part(s: Seq<char>, a: int, b: int)
    requires
        is_one_line(s),
        0 <= a <= b <= s.len(),
    ensures
        is_one_line(s.subrange(a, b)),
{
    assert forall|i: int| 0 <= i < b - a implies #[trigger] s.subrange(a, b)[i] != '\n' by {
        assert(s.subrange(a, b)[i] == s[a + i]);
    }
}

/// A number has no line feeds.
pub proof fn lemma_one_line_decimal(n: nat)
    ensures
        is_one_line(number::decimal(n)),
{
    number::lemma_decimal_digits(n);
    assert forall|i: int| 0 <= i < number::decimal(n).len() implies #[trigger] number::decimal(n)[i]
        != '\n' by {
        assert(text::is_digit(number::decimal(n)[i]));
    }
}

/// An address has no line feeds.
pub proof fn lemma_one_line_address(a: Seq<u16>)
    requires
        a.len() == 8,
    ensures
        is_one_line(ipv6::ipv6_text(a)),
{
    ipv6::law_ipv6_text_characters(a);
    let t = ipv6::ipv6_text(a);
    assert forall|i: int| 0 <= i < t.len() implies #[trigger] t[i] != '\n' by {
        assert(ipv6::is_address_char(t[i]));
    }
}

/// Trimming adds no line feeds.
pub proof fn lemma_one_line_trim(s: Seq<char>)
    requires
        is_one_line(s),
    ensures
        is_one_line(text::trim(s)),
{
    let p = |c: char| text::is_white_space(c);
    let q = |c: char| !p(c);
    text::lemma_first_index(s, q);
    let a = text::first_index(s, q);
    let t = s.skip(a);
    text::lemma_end_index(t, p);
    let b = text::end_index(t, p);
    assert(text::trim(s) =~= s.subrange(a, a + b));
    lemma_one_line_part(s, a, a + b);
}

/// A URI in a header has no line feeds.
pub proof fn lemma_one_line_uri(value: Seq<char>)
    requires
        is_one_line(value),
    ensures
        is_one_line(ims_sms::uri_of(value)),
{
    let k = text::find(value, '<');
    text::lemma_first_index(value, text::is_char('<'));
    if k < value.len() {
        let rest = value.skip(k + 1);
        assert(rest =~= value.subrange(k + 1, value.len() as int));
        lemma_one_line_part(value, k + 1, value.len() as int);
        let n = text::find(rest, '>');
        text::lemma_first_index(rest, text::is_char('>'));
        assert(rest.take(n) =~= rest.subrange(0, n));
        lemma_one_line_part(rest, 0, n);
    } else {
        let n = text::find(value, ';');
        text::lemma_first_index(value, text::is_char(';'));
        assert(value.take(n) =~= value.subrange(0, n));
        lemma_one_line_part(value, 0, n);
        lemma_one_line_trim(value.take(n));
    }
}

proof fn lemma_ack_lines(
    headers: Map<Seq<char>, Seq<char>>,
    local: Seq<u16>,
    port: nat,
)
    requires
        local.len() == 8,
        is_one_line(headers["from"@]),
    ensures
        is_one_line(ims_sms::ack_first_line(headers)),
        is_one_line(ims_sms::ack_via(headers, local, port)),
        is_one_line(number::decimal(ims_sms::next_cseq(headers)) + " MESSAGE"@),
{
    reveal_strlit("MESSAGE ");
    reveal_strlit(" SIP/2.0");
    reveal_strlit("SIP/2.0/UDP [");
    reveal_strlit("]:");
    reveal_strlit(";branch=z9hG4bK-simadmin-rp-ack-");
    reveal_strlit(";rport");
    reveal_strlit(" MESSAGE");
    let uri = ims_sms::uri_of(headers["from"@]);
    lemma_one_line_uri(headers["from"@]);
    lemma_one_line_concat("MESSAGE "@, uri);
    lemma_one_line_concat("MESSAGE "@ + uri, " SIP/2.0"@);
    let address = ipv6::ipv6_text(local);
    let cseq = number::decimal(ims_sms::next_cseq(headers));
    lemma_one_line_address(local);
    lemma_one_line_decimal(port);
    lemma_one_line_decimal(ims_sms::next_cseq(headers));
    let a = "SIP/2.0/UDP ["@ + address;
    lemma_one_line_concat("SIP/2.0/UDP ["@, address);
    lemma_one_line_concat(a, "]:"@);
    lemma_one_line_concat(a + "]:"@, number::decimal(port));
    let b = a + "]:"@ + number::decimal(port);
    lemma_one_line_concat(b, ";branch=z9hG4bK-simadmin-rp-ack-"@);
    lemma_one_line_concat(b + ";branch=z9hG4bK-simadmin-rp-ack-"@, cseq);
    lemma_one_line_concat(b + ";branch=z9hG4bK-simadmin-rp-ack-"@ + cseq, ";rport"@);
    lemma_one_line_concat(cseq, " MESSAGE"@);
}

/// The message that carries an acknowledgement is a SIP message like those that are received:
/// its headers and the acknowledgement are read back from it.
pub proof fn law_acknowledgement_read_back(
    headers: Map<Seq<char>, Seq<char>>,
    local: Seq<u16>,
    port: nat,
    ack: Seq<u8>,
)
    requires
        local.len() == 8,
        headers.contains_key("from"@),
        headers.contains_key("to"@),
        headers.contains_key("call-id"@),
        is_one_line(headers["from"@]),
        is_one_line(headers["to"@]),
        is_one_line(headers["call-id"@]),
    ensures
        ims_sms::ack_message(headers, local, port, ack) is Ok,
        ims_sms::sip_message(ims_sms::ack_message(headers, local, port, ack)->Ok_0) == Ok::<
            (Map<Seq<char>, Seq<char>>, Seq<u8>),
            ImsError,
        >((header_values(ims_sms::ack_headers(headers, local, port, ack.len())), ack)),
{
    let list = ims_sms::ack_headers(headers, local, port, ack.len());
    lemma_ack_lines(headers, local, port);
    lemma_one_line_decimal(ack.len());
    reveal_strlit("Via");
    reveal_strlit("From");
    reveal_strlit("To");
    reveal_strlit("Call-ID");
    reveal_strlit("CSeq");
    reveal_strlit("Content-Type");
    reveal_strlit("Content-Length");
    reveal_strlit("application/vnd.3gpp.sms");
    assert(is_header(list[0]));
    assert(is_header(list[1]));
    assert(is_header(list[2]));
    assert(is_header(list[3]));
    assert(is_header(list[4]));
    assert(is_header(list[5]));
    assert(is_header(list[6]));
    assert forall|i: int| 0 <= i < list.len() implies is_header(#[trigger] list[i]) by {
        assert(i == 0 || i == 1 || i == 2 || i == 3 || i == 4 || i == 5 || i == 6);
    }
    law_message_read_back(ims_sms::ack_first_line(headers), list, ack);
}

proof fn lemma_lines_are_lines(s: Seq<char>)
    ensures
        forall|i: int| 0 <= i < text::lines(s).len() ==> is_one_line(#[trigger] text::lines(s)[i]),
    decreases s.len(),
{
    let k = text::find(s, '\n');
    text::lemma_first_index(s, text::is_char('\n'));
    assert forall|i: int| 0 <= i < k implies #[trigger] s[i] != '\n' by {
        assert(!text::is_char('\n')(s[i]));
    }
    if s.len() == 0 {
    } else if k < s.len() {
        let first = text::strip_cr(s.take(k));
        assert(is_one_line(first)) by {
            assert forall|i: int| 0 <= i < first.len() implies #[trigger] first[i] != '\n' by {
                assert(first[i] == s[i]);
            }
        }
        lemma_lines_are_lines(s.skip(k + 1));
        let rest = text::lines(s.skip(k + 1));
        let all = text::lines(s);
        assert(all == seq![first] + rest);
        assert forall|i: int| 0 <= i < all.len() implies is_one_line(#[trigger] all[i]) by {
            if i > 0 {
                assert(all[i] == rest[i - 1]);
            }
        }
    } else {
        assert(text::lines(s) == seq![s]);
    }
}

proof fn lemma_values_are_lines(lines: Seq<Seq<char>>, name: Seq<char>)
    requires
        forall|i: int| 0 <= i < lines.len() ==> is_one_line(#[trigger] lines[i]),
        ims_sms::header_map(lines) is Some,
        (ims_sms::header_map(lines)->0).contains_key(name),
    ensures
        is_one_line((ims_sms::header_map(lines)->0)[name]),
    decreases lines.len(),
{
    if lines.len() > 0 {
        let before = lines.drop_last();
        assert forall|i: int| 0 <= i < before.len() implies is_one_line(#[trigger] before[i]) by {
            assert(before[i] == lines[i]);
        }
        let line = lines.last();
        assert(is_one_line(lines[lines.len() - 1]));
        let (key, value) = text::split_once(line, ':')->0;
        if name == text::lowercase(text::trim(key)) {
            let k = text::find(line, ':');
            text::lemma_first_index(line, text::is_char(':'));
            assert(value =~= line.subrange(k + 1, line.len() as int));
            lemma_one_line_part(line, k + 1, line.len() as int);
            lemma_one_line_trim(value);
        } else {
            lemma_values_are_lines(before, name);
        }
    }
}

/// The values of headers that were read have no line feeds.
pub proof fn lemma_read_values(packet: Seq<u8>, name: Seq<char>)
    requires
        ims_sms::sip_message(packet) is Ok,
        (ims_sms::sip_message(packet)->Ok_0).0.contains_key(name),
    ensures
        is_one_line((ims_sms::sip_message(packet)->Ok_0).0[name]),
{
    let end = ims_sms::find_bytes(packet, ims_sms::blank_line(), 0)->0;
    let message = vstd::utf8::decode_utf8(packet.take(end));
    let lines = ims_sms::header_lines(message);
    lemma_lines_are_lines(message);
    assert forall|i: int| 0 <= i < lines.len() implies is_one_line(#[trigger] lines[i]) by {
        assert(lines[i] == text::lines(message)[i + 1]);
    }
    lemma_values_are_lines(lines, name);
}

/// A short message that names its sender, its receiver and its dialog is acknowledged as soon as
/// its body can be: the acknowledgement is sent back in a SIP message that carries it.
pub proof fn law_short_message_acknowledged(packet: Seq<u8>, local: Seq<u16>, port: nat)
    requires
        local.len() == 8,
        sms_reception::carried_sms(packet) is Some,
        ({
            let (headers, body) = sms_reception::carried_sms(packet)->0;
            &&& headers.contains_key("from"@)
            &&& headers.contains_key("to"@)
            &&& headers.contains_key("call-id"@)
            &&& ims_sms::rp_ack(ims_sms::body_hex(body)) is Ok
        }),
    ensures
        ({
            let (headers, body) = sms_reception::carried_sms(packet)->0;
            let ack = ims_sms::rp_ack(ims_sms::body_hex(body))->Ok_0;
            let answer = sms_reception::acknowledgement(headers, local, port, body);
            &&& answer is Some
            &&& ims_sms::sip_message(answer->0) == Ok::<
                (Map<Seq<char>, Seq<char>>, Seq<u8>),
                ImsError,
            >((header_values(ims_sms::ack_headers(headers, local, port, ack.len())), ack))
        }),
{
    let (headers, body) = sms_reception::carried_sms(packet)->0;
    let ack = ims_sms::rp_ack(ims_sms::body_hex(body))->Ok_0;
    lemma_read_values(packet, "from"@);
    lemma_read_values(packet, "to"@);
    lemma_read_values(packet, "call-id"@);
    law_acknowledgement_read_back(headers, local, port, ack);
}

// ---------------------------------------------------------------------------------------------
// Short messages
// ---------------------------------------------------------------------------------------------
proof fn lemma_no_line_feed(s: Seq<char>)
    requires
        is_one_line(s),
    ensures
        forall|i: int|
            0 <= i < vstd::utf8::encode_utf8(s).len() ==> #[trigger] vstd::utf8::encode_utf8(s)[i]
                != 10,
    decreases s.len(),
{
    if s.len() > 0 {
        let bytes = vstd::utf8::encode_utf8(s);
        let head = vstd::utf8::encode_scalar(s[0] as u32);
        let rest = s.drop_first();
        let tail = vstd::utf8::encode_utf8(rest);
        assert(bytes == head + tail);
        lemma_character_bytes(s[0]);
        assert forall|i: int| 0 <= i < rest.len() implies #[trigger] rest[i] != '\n' by {
            assert(rest[i] == s[i + 1]);
        }
        lemma_no_line_feed(rest);
        assert forall|i: int| 0 <= i < bytes.len() implies #[trigger] bytes[i] != 10 by {
            if i < head.len() {
                assert(bytes[i] == head[i]);
                if bytes[i] == 10 {
                    lemma_ascii_char(s[0], 10);
                }
            } else {
                assert(bytes[i] == tail[i - head.len()]);
            }
        }
    }
}

proof fn lemma_find_line_end(head: Seq<u8>, rest: Seq<u8>, i: int)
    requires
        forall|j: int| 0 <= j < head.len() ==> #[trigger] head[j] != 10,
        0 <= i <= head.len(),
    ensures
        ims_sms::find_bytes(head + ims_sms::crlf() + rest, ims_sms::crlf(), i) == Some(
            head.len() as int,
        ),
    decreases head.len() - i,
{
    let s = head + ims_sms::crlf() + rest;
    let n = head.len() as int;
    let here = s.subrange(i, i + 2);
    if i == n {
        assert(here =~= ims_sms::crlf());
    } else {
        assert(here != ims_sms::crlf()) by {
            assert(here[1] == s[i + 1]);
            if i + 1 < n {
                assert(s[i + 1] == head[i + 1]);
            } else {
                assert(s[n] == 13);
            }
        }
        lemma_find_line_end(head, rest, i + 1);
    }
}

/// The first line of a message that was written is found.
pub proof fn lemma_first_line_found(
    first: Seq<char>,
    headers: Seq<(Seq<char>, Seq<char>)>,
    body: Seq<u8>,
)
    requires
        is_one_line(first),
    ensures
        sms_reception::is_message_request(written_message(first, headers, body))
            == "MESSAGE "@.is_prefix_of(first),
{
    let packet = written_message(first, headers, body);
    let head = vstd::utf8::encode_utf8(first);
    reveal_strlit("\r\n");
    reveal_strlit("\r\n\r\n");
    let after = if headers.len() == 0 {
        "\r\n"@
    } else {
        written_lines(header_line(headers[0]), headers.skip(1)) + "\r\n\r\n"@
    };
    assert(written_lines(first, headers) + "\r\n\r\n"@ =~= first + ("\r\n"@ + after));
    lemma_encode_concat(first, "\r\n"@ + after);
    lemma_encode_concat("\r\n"@, after);
    assert(vstd::utf8::encode_utf8("\r\n"@) =~= ims_sms::crlf()) by {
        assert(vstd::utf8::is_ascii_chars("\r\n"@));
        vstd::utf8::is_ascii_chars_encode_utf8("\r\n"@);
    }
    let rest = vstd::utf8::encode_utf8(after) + body;
    assert(packet =~= head + ims_sms::crlf() + rest);
    lemma_no_line_feed(first);
    lemma_find_line_end(head, rest, 0);
    assert(packet.take(head.len() as int) =~= head);
    vstd::utf8::encode_utf8_valid_utf8(first);
    vstd::utf8::encode_utf8_decode_utf8(first);
}

/// A request that delivers a 3GPP short message is taken for one: its headers and its body are
/// those that were written.
pub proof fn law_short_message_carried(
    first: Seq<char>,
    headers: Seq<(Seq<char>, Seq<char>)>,
    body: Seq<u8>,
)
    requires
        is_one_line(first),
        "MESSAGE "@.is_prefix_of(first),
        forall|i: int| 0 <= i < headers.len() ==> is_header(#[trigger] headers[i]),
        sms_reception::announces_sms(header_values(headers)),
    ensures
        sms_reception::carried_sms(written_message(first, headers, body)) == Some(
            (header_values(headers), body),
        ),
{
    law_message_read_back(first, headers, body);
    lemma_first_line_found(first, headers, body);
}

// ---------------------------------------------------------------------------------------------
// Challenges
// ---------------------------------------------------------------------------------------------
/// A text that can stand between quotes in a list.
pub open spec fn is_quotable(s: Seq<char>) -> bool {
    is_one_line(s) && !s.contains(',') && !s.contains('"')
}

/// The value of the header that challenges a user to authenticate.
pub open spec fn challenge_value(realm: Seq<char>, nonce: Seq<char>) -> Seq<char> {
    "Digest algorithm=AKAv1-MD5, realm=\""@ + realm + "\", nonce=\""@ + nonce + "\""@
}

/// Quotes around a text are lost.
pub proof fn lemma_unquote(s: Seq<char>)
    requires
        !s.contains('"'),
    ensures
        text::trim_set("\""@ + s + "\""@, "\""@) == s,
{
    reveal_strlit("\"");
    let quote = "\""@;
    assert(quote =~= seq!['"']);
    let p = |c: char| quote.contains(c);
    assert(quote[0] == '"');
    assert(p('"'));
    let rest = s + quote;
    assert(quote + s + quote =~= seq!['"'] + rest);
    text::lemma_trim_by_start('"', rest, p);
    let q = |c: char| !p(c);
    if s.len() == 0 {
        assert(rest =~= seq!['"'] + Seq::<char>::empty());
        text::lemma_trim_by_start('"', Seq::<char>::empty(), p);
        text::lemma_first_index(Seq::<char>::empty(), q);
        assert(Seq::<char>::empty().skip(0) =~= Seq::<char>::empty());
        text::lemma_end_index(Seq::<char>::empty(), p);
        assert(text::trim_by(Seq::<char>::empty(), p) =~= s);
    } else {
        assert forall|i: int| 0 <= i < s.len() implies !p(#[trigger] s[i]) by {
            assert(s.contains(s[i]));
        }
        assert(rest[0] == s[0]);
        text::lemma_first_index_unique(rest, q, 0);
        assert(rest.skip(0) =~= rest);
        let n = s.len() as int;
        assert(rest[n] == '"');
        assert(!p(rest[n - 1])) by {
            assert(rest[n - 1] == s[n - 1]);
        }
        text::lemma_end_index_unique(rest, p, n);
        assert(rest.take(n) =~= s);
    }
}

proof fn lemma_item(name: Seq<char>, value: Seq<char>, item: Seq<char>)
    requires
        name.len() > 0,
        !text::is_white_space(name[0]),
        !text::is_white_space(name.last()),
        !name.contains('='),
        !value.contains('"'),
        item == " "@ + (name.push('=') + ("\""@ + value + "\""@)),
    ensures
        text::split_once(text::trim(item), '=') == Some((name, "\""@ + value + "\""@)),
        text::trim(name) == name,
        text::trim_set(text::trim("\""@ + value + "\""@), "\""@) == value,
{
    reveal_strlit(" ");
    reveal_strlit("\"");
    let w = |c: char| text::is_white_space(c);
    let quoted = "\""@ + value + "\""@;
    let bare = name.push('=') + quoted;
    assert(" "@ =~= seq![' ']);
    text::lemma_trim_by_start(' ', bare, w);
    assert(bare[0] == name[0]);
    assert(bare.last() == '"');
    text::lemma_trim_by_same(bare, w);
    text::lemma_split_first(name, '=', quoted);
    assert(bare.take(name.len() as int) =~= name);
    assert(bare.skip(name.len() as int + 1) =~= quoted);
    text::lemma_trim_by_same(name, w);
    assert(quoted[0] == '"' && quoted.last() == '"');
    text::lemma_trim_by_same(quoted, w);
    lemma_unquote(value);
}

proof fn lemma_algorithm_item(name: Seq<char>)
    requires
        name.len() == 5,
    ensures
        ims_sip::item_value(" Digest algorithm=AKAv1-MD5"@, name) is None,
{
    reveal_strlit(" Digest algorithm=AKAv1-MD5");
    reveal_strlit("Digest algorithm=AKAv1-MD5");
    reveal_strlit("Digest algorithm");
    reveal_strlit("AKAv1-MD5");
    let w = |c: char| text::is_white_space(c);
    let item = " Digest algorithm=AKAv1-MD5"@;
    let bare = "Digest algorithm=AKAv1-MD5"@;
    assert(item =~= seq![' '] + bare);
    text::lemma_trim_by_start(' ', bare, w);
    text::lemma_trim_by_same(bare, w);
    let key = "Digest algorithm"@;
    assert(bare =~= key.push('=') + "AKAv1-MD5"@);
    assert(!key.contains('='));
    text::lemma_split_first(key, '=', "AKAv1-MD5"@);
    assert(bare.take(key.len() as int) =~= key);
    text::lemma_trim_by_same(key, w);
    assert(text::lowercase(key).len() == 16);
}

proof fn lemma_challenge_parameters(realm: Seq<char>, nonce: Seq<char>)
    requires
        is_quotable(realm),
        is_quotable(nonce),
    ensures
        ims_sip::list_parameter(" "@ + challenge_value(realm, nonce), "realm"@) == Some(realm),
        ims_sip::list_parameter(" "@ + challenge_value(realm, nonce), "nonce"@) == Some(nonce),
{
    reveal_strlit(" ");
    reveal_strlit("\"");
    reveal_strlit("realm");
    reveal_strlit("nonce");
    reveal_strlit("Digest algorithm=AKAv1-MD5, realm=\"");
    reveal_strlit("\", nonce=\"");
    reveal_strlit(" Digest algorithm=AKAv1-MD5");
    let list = " "@ + challenge_value(realm, nonce);
    let first = " Digest algorithm=AKAv1-MD5"@;
    let second = " "@ + ("realm"@.push('=') + ("\""@ + realm + "\""@));
    let third = " "@ + ("nonce"@.push('=') + ("\""@ + nonce + "\""@));
    assert(" "@ + "Digest algorithm=AKAv1-MD5, realm=\""@ =~= first.push(',') + (" "@
        + "realm"@.push('=') + "\""@));
    assert("\", nonce=\""@ =~= "\""@.push(',') + (" "@ + "nonce"@.push('=') + "\""@));
    assert(list =~= first.push(',') + (second.push(',') + third));
    assert(!first.contains(','));
    assert(!second.contains(',')) by {
        assert forall|i: int| 0 <= i < second.len() implies #[trigger] second[i] != ',' by {
            if 8 <= i < 8 + realm.len() {
                assert(second[i] == realm[i - 8]);
                assert(realm.contains(realm[i - 8]));
            }
        }
    }
    assert(!third.contains(',')) by {
        assert forall|i: int| 0 <= i < third.len() implies #[trigger] third[i] != ',' by {
            if 8 <= i < 8 + nonce.len() {
                assert(third[i] == nonce[i - 8]);
                assert(nonce.contains(nonce[i - 8]));
            }
        }
    }
    text::lemma_split_first(first, ',', second.push(',') + third);
    text::lemma_split_first(second, ',', third);
    text::lemma_split_none(third, ',');
    let items = text::split(list, ',');
    assert(items =~= seq![first, second, third]);
    assert(!"realm"@.contains('=') && !"nonce"@.contains('='));
    lemma_item("realm"@, realm, second);
    lemma_item("nonce"@, nonce, third);
    assert(text::lowercase("realm"@) =~= "realm"@);
    assert(text::lowercase("nonce"@) =~= "nonce"@);
    assert("realm"@ != "nonce"@) by {
        assert("realm"@[0] != "nonce"@[0]);
    }
    lemma_algorithm_item("realm"@);
    lemma_algorithm_item("nonce"@);
    let f = |item: Seq<char>| ims_sip::item_value(item, "realm"@);
    let g = |item: Seq<char>| ims_sip::item_value(item, "nonce"@);
    assert(items.skip(0) =~= items);
    text::lemma_find_map_step(items, f, 0);
    text::lemma_find_map_step(items, f, 1);
    text::lemma_find_map_step(items, g, 0);
    text::lemma_find_map_step(items, g, 1);
    text::lemma_find_map_step(items, g, 2);
}

/// The challenge that a response holds in its first header is read back, whatever headers follow.
pub proof fn law_challenge_read_back(
    first: Seq<char>,
    realm: Seq<char>,
    nonce: Seq<char>,
    others: Seq<(Seq<char>, Seq<char>)>,
)
    requires
        is_one_line(first),
        !ims_sip::is_aka_header(first),
        is_quotable(realm),
        is_quotable(nonce),
        forall|i: int| 0 <= i < others.len() ==> is_header(#[trigger] others[i]),
    ensures
        ims_sip::aka_challenge(
            written_lines(
                first,
                seq![("WWW-Authenticate"@, challenge_value(realm, nonce))] + others,
            ),
        ) == Some((realm, nonce)),
{
    let header = ("WWW-Authenticate"@, challenge_value(realm, nonce));
    let headers = seq![header] + others;
    reveal_strlit("WWW-Authenticate");
    reveal_strlit("www-authenticate:");
    reveal_strlit(": ");
    reveal_strlit("aka");
    reveal_strlit("Digest algorithm=AKAv1-MD5, realm=\"");
    reveal_strlit("\", nonce=\"");
    reveal_strlit("\"");
    let a = "Digest algorithm=AKAv1-MD5, realm=\""@;
    lemma_one_line_concat(a, realm);
    lemma_one_line_concat(a + realm, "\", nonce=\""@);
    lemma_one_line_concat(a + realm + "\", nonce=\""@, nonce);
    lemma_one_line_concat(a + realm + "\", nonce=\""@ + nonce, "\""@);
    assert(!"WWW-Authenticate"@.contains(':'));
    assert(is_header(header));
    assert forall|i: int| 0 <= i < headers.len() implies is_header(#[trigger] headers[i]) by {
        if i > 0 {
            assert(headers[i] == others[i - 1]);
        }
    }
    lemma_written_lines(first, headers);
    lemma_header_line(header);
    let line = header_line(header);
    let lines = text::lines(written_lines(first, headers));
    assert(headers[0] == header);
    assert(lines[0] == first && lines[1] == line);
    let small = text::lowercase(line);
    assert("www-authenticate:"@.is_prefix_of(small)) by {
        let n = 17;
        assert forall|i: int| 0 <= i < n implies small[i] == "www-authenticate:"@[i] by {
            if i < 16 {
                assert(line[i] == "WWW-Authenticate"@[i]);
            }
        }
        assert(small.subrange(0, n) =~= "www-authenticate:"@);
    }
    assert(text::occurs_in("aka"@, small)) by {
        assert(line[35] == a[17] && line[36] == a[18] && line[37] == a[19]);
        assert(small.subrange(35, 35int + "aka"@.len()) =~= "aka"@);
    }
    let f = |line: Seq<char>|
        if ims_sip::is_aka_header(line) {
            Some(line)
        } else {
            None
        };
    assert(lines.skip(0) =~= lines);
    text::lemma_find_map_step(lines, f, 0);
    text::lemma_find_map_step(lines, f, 1);
    lemma_challenge_parameters(realm, nonce);
}

} // verus!

//! Laws of what is answered to a short message: the response, the acknowledgement and which
//! requests get them.
use vstd::prelude::*;
use crate::error::ImsError;
use crate::externals;
use crate::ims_sip;
use crate::ims_sms;
use crate::ipv6;
use crate::number;
use crate::sip_encoding;
use crate::sip_laws;
use crate::sms_reception;
use crate::text;
use crate::text_laws;

verus! {

// ---------------------------------------------------------------------------------------------
// Status codes
// ---------------------------------------------------------------------------------------------
/// The status code of a response is the number after the version, whatever follows it; what does
/// not begin with the version has none.
pub proof fn law_status_read(version: Seq<char>, n: nat, tail: Seq<char>, rest: Seq<char>)
    requires
        n <= 65535,
        version.len() > 0,
        forall|i: int| 0 <= i < version.len() ==> !text::is_white_space(#[trigger] version[i]),
        sip_encoding::is_one_line(tail),
        tail.len() > 0 ==> text::is_white_space(tail[0]),
    ensures
        ims_sip::status_code(version + " "@ + number::decimal(n) + tail + "\r\n"@ + rest)
            == if version == "SIP/2.0"@ {
            Some(n)
        } else {
            None
        },
{
    reveal_strlit(" ");
    let d = number::decimal(n);
    let line = version + " "@ + d + tail;
    sip_encoding::lemma_one_line_decimal(n);
    assert(sip_encoding::is_one_line(version)) by {
        assert forall|i: int| 0 <= i < version.len() implies #[trigger] version[i] != '\n' by {
            assert(!text::is_white_space(version[i]));
        }
    }
    sip_laws::lemma_one_line_joined(version, " "@, d);
    sip_encoding::lemma_one_line_concat(version + " "@ + d, tail);
    sip_laws::lemma_line_cut(line, rest);
    number::lemma_decimal_digits(n);
    assert forall|i: int| 0 <= i < d.len() implies !text::is_white_space(#[trigger] d[i]) by {
        assert(text::is_digit(d[i]));
    }
    text_laws::law_words(Seq::empty(), version, " "@ + d + tail);
    assert(Seq::<char>::empty() + version + (" "@ + d + tail) =~= line);
    text_laws::law_words(" "@, d, tail);
    let words = text::words(line);
    assert(words == seq![version] + (seq![d] + text::words(tail)));
    assert(words[0] == version && words[1] == d && words.len() >= 2);
    number::law_decimal_round_trip(n, 65535);
}

/// White space before the version and more of it after the version make no difference, and neither
/// does the end of the line.
pub proof fn law_status_spaced(
    lead: Seq<char>,
    gap: Seq<char>,
    n: nat,
    tail: Seq<char>,
    rest: Seq<char>,
)
    requires
        n <= 65535,
        text_laws::is_white(lead),
        text_laws::is_white(gap),
        gap.len() > 0,
        !lead.contains('\n'),
        !gap.contains('\n'),
        !tail.contains('\n'),
        tail.len() > 0 ==> text::is_white_space(tail[0]),
    ensures
        ims_sip::status_code(lead + "SIP/2.0"@ + gap + number::decimal(n) + tail) == Some(n),
        ims_sip::status_code((lead + "SIP/2.0"@ + gap + number::decimal(n) + tail).push('\n') + rest)
            == Some(n),
{
    reveal_strlit("SIP/2.0");
    let version = "SIP/2.0"@;
    let d = number::decimal(n);
    let line = lead + version + gap + d + tail;
    number::lemma_decimal_digits(n);
    assert forall|i: int| 0 <= i < d.len() implies !text::is_white_space(#[trigger] d[i]) by {
        assert(text::is_digit(d[i]));
    }
    assert(!line.contains('\n')) by {
        assert forall|i: int| 0 <= i < line.len() implies line[i] != '\n' by {
            let a = lead.len() as int;
            let b = a + 7 + gap.len();
            if i < a {
                assert(line[i] == lead[i] && lead.contains(lead[i]));
            } else if i < a + 7 {
                assert(line[i] == version[i - a]);
            } else if i < b {
                assert(line[i] == gap[i - a - 7] && gap.contains(gap[i - a - 7]));
            } else if i < b + d.len() {
                assert(line[i] == d[i - b]);
                assert(!text::is_white_space(d[i - b]));
            } else {
                assert(line[i] == tail[i - b - d.len()]);
                assert(tail.contains(tail[i - b - d.len()]));
            }
        }
    }
    text_laws::law_lines(Seq::empty(), Seq::empty(), line);
    assert(text_laws::ended_lines(Seq::empty(), Seq::empty()) + line =~= line);
    text_laws::law_words(lead, version, gap + d + tail);
    assert(lead + version + (gap + d + tail) =~= line);
    text_laws::law_words(gap, d, tail);
    let words = text::words(line);
    assert(words[0] == version && words[1] == d);
    number::law_decimal_round_trip(n, 65535);
    let whole = line.push('\n') + rest;
    text::lemma_split_first(line, '\n', rest);
    assert(text::lines(whole).len() > 0 && text::lines(whole)[0] == text::strip_cr(line)) by {
        assert(whole.take(line.len() as int) =~= line);
    }
    if line.last() == '\r' {
        let cut = line.drop_last();
        assert(text::strip_cr(line) == cut);
        assert(tail.len() > 0) by {
            if tail.len() == 0 {
                assert(line.last() == d.last());
                assert(!text::is_white_space(d[d.len() - 1]));
            }
        }
        let short = tail.drop_last();
        assert(cut =~= lead + version + (gap + d + short));
        text_laws::law_words(lead, version, gap + d + short);
        text_laws::law_words(gap, d, short);
        let some = text::words(cut);
        assert(some[0] == version && some[1] == d);
    }
}

/// What stands after the version is the status only if it is a number that fits; a first line of one
/// word has no status, and no other line counts.
pub proof fn law_no_status(word: Seq<char>, tail: Seq<char>, rest: Seq<char>)
    requires
        word.len() > 0,
        forall|i: int| 0 <= i < word.len() ==> !text::is_white_space(#[trigger] word[i]),
        number::parse_unsigned(word, 65535) is None,
        sip_encoding::is_one_line(tail),
        tail.len() > 0 ==> text::is_white_space(tail[0]),
    ensures
        ims_sip::status_code("SIP/2.0 "@ + word + tail + "\r\n"@ + rest) is None,
        ims_sip::status_code("SIP/2.0"@ + "\r\n"@ + rest) is None,
        ims_sip::status_code("\r\n"@ + rest) is None,
        ims_sip::status_code(Seq::empty()) is None,
{
    reveal_strlit(" ");
    reveal_strlit("SIP/2.0");
    reveal_strlit("SIP/2.0 ");
    let version = "SIP/2.0"@;
    assert("SIP/2.0 "@ =~= version + " "@);
    let line = "SIP/2.0 "@ + word + tail;
    assert(sip_encoding::is_one_line(word)) by {
        assert forall|i: int| 0 <= i < word.len() implies #[trigger] word[i] != '\n' by {
            assert(!text::is_white_space(word[i]));
        }
    }
    sip_laws::lemma_one_line_joined("SIP/2.0 "@, word, tail);
    sip_laws::lemma_line_cut(line, rest);
    text_laws::law_words(Seq::empty(), version, " "@ + word + tail);
    assert(Seq::<char>::empty() + version + (" "@ + word + tail) =~= line);
    text_laws::law_words(" "@, word, tail);
    let words = text::words(line);
    assert(words == seq![version] + (seq![word] + text::words(tail)));
    assert(words[1] == word);
    let none = Seq::<char>::empty();
    sip_laws::lemma_line_cut(version, rest);
    text_laws::law_words(none, version, none);
    assert(none + version + none =~= version);
    sip_laws::lemma_line_cut(none, rest);
    assert(none + "\r\n"@ + rest =~= "\r\n"@ + rest);
    text_laws::law_lines(Seq::empty(), Seq::empty(), none);
    assert(text_laws::ended_lines(Seq::empty(), Seq::empty()) + none =~= none);
}

// ---------------------------------------------------------------------------------------------
// The response
// ---------------------------------------------------------------------------------------------
/// The names of the headers that identify a request.
pub open spec fn identifying_names() -> Seq<Seq<char>> {
    seq!["via"@, "from"@, "to"@, "call-id"@, "cseq"@]
}

/// Those of the named headers that are there.
spec fn echo_list(headers: Map<Seq<char>, Seq<char>>, names: Seq<Seq<char>>) -> Seq<
    (Seq<char>, Seq<char>),
>
    decreases names.len(),
{
    if names.len() == 0 {
        Seq::empty()
    } else {
        let before = echo_list(headers, names.drop_last());
        if headers.contains_key(names.last()) {
            before.push((names.last(), headers[names.last()]))
        } else {
            before
        }
    }
}

spec fn echoed_all(headers: Map<Seq<char>, Seq<char>>, names: Seq<Seq<char>>) -> Seq<char>
    decreases names.len(),
{
    if names.len() == 0 {
        "SIP/2.0 200 OK\r\n"@
    } else {
        echoed_all(headers, names.drop_last()) + ims_sms::echoed(headers, names.last())
    }
}

proof fn lemma_echoed_all(headers: Map<Seq<char>, Seq<char>>)
    ensures
        ims_sms::ok_response(headers) == echoed_all(headers, identifying_names())
            + "Content-Length: 0\r\n\r\n"@,
{
    reveal_with_fuel(echoed_all, 6);
    let n = identifying_names();
    let n4 = n.drop_last();
    let n3 = n4.drop_last();
    let n2 = n3.drop_last();
    let n1 = n2.drop_last();
    assert(n4 =~= seq!["via"@, "from"@, "to"@, "call-id"@]);
    assert(n3 =~= seq!["via"@, "from"@, "to"@]);
    assert(n2 =~= seq!["via"@, "from"@]);
    assert(n1 =~= seq!["via"@]);
    assert(n1.drop_last() =~= Seq::<Seq<char>>::empty());
}

proof fn lemma_echo_text(headers: Map<Seq<char>, Seq<char>>, names: Seq<Seq<char>>)
    ensures
        echoed_all(headers, names) == sip_encoding::written_lines(
            "SIP/2.0 200 OK"@,
            echo_list(headers, names),
        ) + "\r\n"@,
    decreases names.len(),
{
    let first = "SIP/2.0 200 OK"@;
    if names.len() == 0 {
        reveal_strlit("SIP/2.0 200 OK\r\n");
        reveal_strlit("SIP/2.0 200 OK");
        reveal_strlit("\r\n");
        assert("SIP/2.0 200 OK\r\n"@ =~= first + "\r\n"@);
    } else {
        let before = echo_list(headers, names.drop_last());
        lemma_echo_text(headers, names.drop_last());
        let t = sip_encoding::written_lines(first, before);
        let name = names.last();
        if headers.contains_key(name) {
            let value = headers[name];
            sip_encoding::lemma_written_lines_push(first, before, (name, value));
            assert(t + "\r\n"@ + (name + ": "@ + value + "\r\n"@) =~= t + "\r\n"@ + (name + ": "@
                + value) + "\r\n"@);
        } else {
            assert(t + "\r\n"@ + Seq::<char>::empty() =~= t + "\r\n"@);
        }
    }
}

proof fn lemma_echo_values(
    headers: Map<Seq<char>, Seq<char>>,
    names: Seq<Seq<char>>,
    name: Seq<char>,
)
    requires
        forall|i: int|
            0 <= i < names.len() ==> text::lowercase(text::trim(#[trigger] names[i])) == names[i],
    ensures
        ({
            let values = sip_encoding::header_values(echo_list(headers, names));
            &&& values.contains_key(name) <==> names.contains(name) && headers.contains_key(name)
            &&& values.contains_key(name) ==> values[name] == text::trim(headers[name])
        }),
    decreases names.len(),
{
    if names.len() > 0 {
        let d = names.drop_last();
        assert forall|i: int| 0 <= i < d.len() implies text::lowercase(text::trim(#[trigger] d[i]))
            == d[i] by {
            assert(d[i] == names[i]);
        }
        lemma_echo_values(headers, d, name);
        let last = names.last();
        assert(names[names.len() - 1] == last);
        assert(names.contains(name) <==> d.contains(name) || name == last) by {
            if d.contains(name) {
                let i = choose|i: int| 0 <= i < d.len() && d[i] == name;
                assert(names[i] == name);
            }
            if names.contains(name) && name != last {
                let i = choose|i: int| 0 <= i < names.len() && names[i] == name;
                assert(d[i] == name);
            }
        }
        let before = echo_list(headers, d);
        if headers.contains_key(last) {
            assert(before.push((last, headers[last])).drop_last() =~= before);
        }
    }
}

proof fn lemma_echo_headers(headers: Map<Seq<char>, Seq<char>>, names: Seq<Seq<char>>)
    requires
        forall|i: int|
            0 <= i < names.len() ==> sip_encoding::is_one_line(#[trigger] names[i])
                && !names[i].contains(':'),
        forall|i: int|
            0 <= i < names.len() && headers.contains_key(#[trigger] names[i])
                ==> sip_encoding::is_one_line(headers[names[i]]),
    ensures
        forall|i: int|
            0 <= i < echo_list(headers, names).len() ==> sip_encoding::is_header(
                #[trigger] echo_list(headers, names)[i],
            ),
    decreases names.len(),
{
    if names.len() > 0 {
        let d = names.drop_last();
        assert forall|i: int| 0 <= i < d.len() implies sip_encoding::is_one_line(#[trigger] d[i])
            && !d[i].contains(':') by {
            assert(d[i] == names[i]);
        }
        assert forall|i: int|
            0 <= i < d.len() && headers.contains_key(#[trigger] d[i]) implies sip_encoding::is_one_line(
            headers[d[i]],
        ) by {
            assert(d[i] == names[i]);
        }
        lemma_echo_headers(headers, d);
        assert(names[names.len() - 1] == names.last());
        let before = echo_list(headers, d);
        let list = echo_list(headers, names);
        assert forall|i: int| 0 <= i < list.len() implies sip_encoding::is_header(
            #[trigger] list[i],
        ) by {
            if i < before.len() {
                assert(list[i] == before[i]);
            } else {
                assert(list[i] == (names.last(), headers[names.last()]));
            }
        }
    }
}

proof fn lemma_identifying_names()
    ensures
        forall|i: int|
            0 <= i < 5 ==> text::lowercase(text::trim(#[trigger] identifying_names()[i]))
                == identifying_names()[i] && sip_encoding::is_one_line(identifying_names()[i])
                && !identifying_names()[i].contains(':'),
        !identifying_names().contains("content-length"@),
        identifying_names().contains("via"@),
        identifying_names().contains("from"@),
        identifying_names().contains("to"@),
        identifying_names().contains("call-id"@),
        identifying_names().contains("cseq"@),
{
    sip_laws::lemma_names();
    let n = identifying_names();
    reveal_strlit("via");
    reveal_strlit("from");
    reveal_strlit("to");
    reveal_strlit("call-id");
    reveal_strlit("cseq");
    reveal_strlit("content-length");
    assert(n[0] == "via"@ && n[1] == "from"@ && n[2] == "to"@ && n[3] == "call-id"@ && n[4]
        == "cseq"@);
    assert forall|i: int| 0 <= i < 5 implies text::lowercase(text::trim(#[trigger] n[i])) == n[i]
        && sip_encoding::is_one_line(n[i]) && !n[i].contains(':') && n[i].len() <= 7 by {
        assert(i == 0 || i == 1 || i == 2 || i == 3 || i == 4);
    }
    if n.contains("content-length"@) {
        let i = choose|i: int| 0 <= i < 5 && n[i] == "content-length"@;
        assert(n[i].len() <= 7);
    }
}

/// The response that accepts a request, read as a SIP message: each of the headers that identify
/// the request stands in it with the value that the request has, and only where the request has
/// it. The response has no body, says so, and its status is success.
pub proof fn law_response_read_back(headers: Map<Seq<char>, Seq<char>>)
    requires
        forall|i: int|
            0 <= i < 5 && headers.contains_key(#[trigger] identifying_names()[i])
                ==> sip_encoding::is_one_line(headers[identifying_names()[i]]),
    ensures
        ({
            let response = ims_sms::ok_response(headers);
            let read = ims_sms::sip_message(vstd::utf8::encode_utf8(response));
            &&& read is Ok
            &&& (read->Ok_0).1 == Seq::<u8>::empty()
            &&& echoes((read->Ok_0).0, headers, "via"@)
            &&& echoes((read->Ok_0).0, headers, "from"@)
            &&& echoes((read->Ok_0).0, headers, "to"@)
            &&& echoes((read->Ok_0).0, headers, "call-id"@)
            &&& echoes((read->Ok_0).0, headers, "cseq"@)
            &&& (read->Ok_0).0.contains_key("content-length"@)
            &&& (read->Ok_0).0["content-length"@] == "0"@
            &&& ims_sip::status_code(response) == Some(200nat)
        }),
{
    let names = identifying_names();
    let first = "SIP/2.0 200 OK"@;
    let length = ("Content-Length"@, "0"@);
    let echo = echo_list(headers, names);
    let list = echo.push(length);
    let response = ims_sms::ok_response(headers);
    lemma_identifying_names();
    lemma_echoed_all(headers);
    lemma_echo_text(headers, names);
    lemma_echo_headers(headers, names);
    sip_encoding::lemma_written_lines_push(first, echo, length);
    reveal_strlit("SIP/2.0 200 OK");
    reveal_strlit("Content-Length: 0\r\n\r\n");
    reveal_strlit("Content-Length");
    reveal_strlit(": ");
    reveal_strlit("0");
    reveal_strlit("\r\n\r\n");
    let t = sip_encoding::written_lines(first, echo);
    assert("Content-Length: 0\r\n\r\n"@ =~= "Content-Length"@ + ": "@ + "0"@ + "\r\n\r\n"@);
    assert(t + "\r\n"@ + "Content-Length: 0\r\n\r\n"@ =~= t + "\r\n"@ + ("Content-Length"@ + ": "@
        + "0"@) + "\r\n\r\n"@);
    assert(response == sip_encoding::written_lines(first, list) + "\r\n\r\n"@);
    assert forall|i: int| 0 <= i < list.len() implies sip_encoding::is_header(#[trigger] list[i]) by {
        if i < echo.len() {
            assert(list[i] == echo[i]);
        }
    }
    sip_encoding::law_message_read_back(first, list, Seq::empty());
    assert(vstd::utf8::encode_utf8(response) + Seq::<u8>::empty() =~= vstd::utf8::encode_utf8(
        response,
    ));
    sip_laws::lemma_names();
    assert(list.drop_last() =~= echo);
    text_laws::lemma_trim_bare("0"@);
    let values = sip_encoding::header_values(list);
    assert(values == sip_encoding::header_values(echo).insert("content-length"@, "0"@));
    lemma_echo_values(headers, names, "via"@);
    lemma_echo_values(headers, names, "from"@);
    lemma_echo_values(headers, names, "to"@);
    lemma_echo_values(headers, names, "call-id"@);
    lemma_echo_values(headers, names, "cseq"@);
    lemma_response_status(list);
}

proof fn lemma_response_status(list: Seq<(Seq<char>, Seq<char>)>)
    requires
        list.len() > 0,
    ensures
        ims_sip::status_code(
            sip_encoding::written_lines("SIP/2.0 200 OK"@, list) + "\r\n\r\n"@,
        ) == Some(200nat),
{
    reveal_strlit("SIP/2.0 200 OK");
    reveal_strlit("SIP/2.0");
    reveal_strlit(" ");
    reveal_strlit(" OK");
    let rest = sip_encoding::written_lines(sip_encoding::header_line(list[0]), list.skip(1))
        + "\r\n\r\n"@;
    assert(number::decimal(200) =~= seq!['2', '0', '0']) by {
        text_laws::law_decimal(20, 0);
        text_laws::law_decimal(2, 0);
        text_laws::law_decimal(0, 2);
    }
    law_status_read("SIP/2.0"@, 200, " OK"@, rest);
    assert("SIP/2.0 200 OK"@ =~= "SIP/2.0"@ + " "@ + number::decimal(200) + " OK"@);
    assert(sip_encoding::written_lines("SIP/2.0 200 OK"@, list) + "\r\n\r\n"@ =~= "SIP/2.0"@ + " "@
        + number::decimal(200) + " OK"@ + "\r\n"@ + rest);
}

/// A header stands in the answer as it stands in the request, white space around it aside.
pub open spec fn echoes(
    answer: Map<Seq<char>, Seq<char>>,
    request: Map<Seq<char>, Seq<char>>,
    name: Seq<char>,
) -> bool {
    &&& answer.contains_key(name) <==> request.contains_key(name)
    &&& request.contains_key(name) ==> answer[name] == text::trim(request[name])
}

proof fn lemma_values_bare(lines: Seq<Seq<char>>, name: Seq<char>)
    requires
        ims_sms::header_map(lines) is Some,
        (ims_sms::header_map(lines)->0).contains_key(name),
    ensures
        text::trim((ims_sms::header_map(lines)->0)[name]) == (ims_sms::header_map(lines)->0)[name],
    decreases lines.len(),
{
    if lines.len() > 0 {
        let (key, value) = text::split_once(lines.last(), ':')->0;
        if name == text::lowercase(text::trim(key)) {
            text_laws::law_trim_twice(value);
        } else {
            lemma_values_bare(lines.drop_last(), name);
        }
    }
}

/// A header stands in the answer exactly as it stands in the request.
pub open spec fn repeats(
    answer: Map<Seq<char>, Seq<char>>,
    request: Map<Seq<char>, Seq<char>>,
    name: Seq<char>,
) -> bool {
    &&& answer.contains_key(name) <==> request.contains_key(name)
    &&& request.contains_key(name) ==> answer[name] == request[name]
}

/// Every request that was read is answered with a response that repeats exactly the headers by
/// which the network matches the response to its request.
pub proof fn law_request_answered(packet: Seq<u8>)
    requires
        ims_sms::sip_message(packet) is Ok,
    ensures
        ({
            let request = (ims_sms::sip_message(packet)->Ok_0).0;
            let response = ims_sms::ok_response(request);
            let read = ims_sms::sip_message(vstd::utf8::encode_utf8(response));
            &&& read is Ok
            &&& repeats((read->Ok_0).0, request, "via"@)
            &&& repeats((read->Ok_0).0, request, "from"@)
            &&& repeats((read->Ok_0).0, request, "to"@)
            &&& repeats((read->Ok_0).0, request, "call-id"@)
            &&& repeats((read->Ok_0).0, request, "cseq"@)
            &&& ims_sip::status_code(response) == Some(200nat)
        }),
{
    let request = (ims_sms::sip_message(packet)->Ok_0).0;
    let names = identifying_names();
    let end = ims_sms::find_bytes(packet, ims_sms::blank_line(), 0)->0;
    let lines = ims_sms::header_lines(vstd::utf8::decode_utf8(packet.take(end)));
    assert forall|i: int| 0 <= i < 5 && request.contains_key(#[trigger] names[i]) implies
        sip_encoding::is_one_line(request[names[i]]) && text::trim(request[names[i]])
        == request[names[i]] by {
        sip_encoding::lemma_read_values(packet, names[i]);
        lemma_values_bare(lines, names[i]);
    }
    law_response_read_back(request);
    assert(names[0] == "via"@ && names[1] == "from"@ && names[2] == "to"@ && names[3]
        == "call-id"@ && names[4] == "cseq"@);
}

// ---------------------------------------------------------------------------------------------
// The acknowledgement
// ---------------------------------------------------------------------------------------------
/// The URI in a header stands between its angle brackets, or before its parameters where it has
/// no brackets; without the closing bracket it goes to the end.
pub proof fn law_header_uri(display: Seq<char>, uri: Seq<char>, parameters: Seq<char>)
    requires
        !display.contains('<'),
        !uri.contains('>'),
    ensures
        ims_sms::uri_of(display.push('<') + uri.push('>') + parameters) == uri,
        !uri.contains('<') && !uri.contains(';') && !parameters.contains('<')
            ==> ims_sms::uri_of(uri) == text::trim(uri) && ims_sms::uri_of(
            uri.push(';') + parameters,
        ) == text::trim(uri),
        ims_sms::uri_of(display.push('<') + uri) == uri,
{
    text_laws::law_split_once(display, '<', uri);
    text::lemma_split_none(uri, '>');
    assert(uri.take(uri.len() as int) =~= uri);
    let s = display.push('<') + uri.push('>') + parameters;
    assert(s =~= display.push('<') + (uri.push('>') + parameters));
    text_laws::law_split_once(display, '<', uri.push('>') + parameters);
    text::lemma_split_first(uri, '>', parameters);
    let rest = uri.push('>') + parameters;
    assert(rest.take(uri.len() as int) =~= uri);
    if !uri.contains('<') && !uri.contains(';') && !parameters.contains('<') {
        text_laws::law_split_once(uri, '<', Seq::empty());
        text::lemma_split_none(uri, ';');
        assert(uri.take(uri.len() as int) =~= uri);
        let t = uri.push(';') + parameters;
        assert(!t.contains('<')) by {
            assert forall|i: int| 0 <= i < t.len() implies t[i] != '<' by {
                if i < uri.len() {
                    assert(uri.contains(uri[i]));
                } else if i > uri.len() {
                    assert(parameters.contains(parameters[i - uri.len() - 1]));
                }
            }
        }
        text_laws::law_split_once(t, '<', Seq::empty());
        text::lemma_split_first(uri, ';', parameters);
        assert(t.take(uri.len() as int) =~= uri);
    }
}

/// The message that goes back counts on from the request: its number is the one after that of
/// the request, as far as there is one, and two for a request that does not tell its number.
pub proof fn law_next_number(
    headers: Map<Seq<char>, Seq<char>>,
    lead: Seq<char>,
    n: nat,
    rest: Seq<char>,
)
    requires
        n <= u32::MAX,
        text_laws::is_white(lead),
        rest.len() > 0 ==> text::is_white_space(rest[0]),
    ensures
        ims_sms::next_cseq(headers.insert("cseq"@, lead + number::decimal(n) + rest)) == if n
            < u32::MAX {
            n + 1
        } else {
            n
        },
        ims_sms::next_cseq(headers.remove("cseq"@)) == 2,
        ims_sms::next_cseq(headers.insert("cseq"@, lead)) == 2,
{
    let d = number::decimal(n);
    number::lemma_decimal_digits(n);
    assert forall|i: int| 0 <= i < d.len() implies !text::is_white_space(#[trigger] d[i]) by {
        assert(text::is_digit(d[i]));
    }
    text_laws::law_words(lead, d, rest);
    assert((seq![d] + text::words(rest))[0] == d);
    number::law_decimal_round_trip(n, u32::MAX as nat);
}

/// What the headers of the message say that carries an acknowledgement back: sender and receiver
/// of the request have changed places, and its dialog goes on.
pub open spec fn carries_acknowledgement(
    read: Map<Seq<char>, Seq<char>>,
    request: Map<Seq<char>, Seq<char>>,
    local: Seq<u16>,
    port: nat,
    number: nat,
    length: nat,
) -> bool {
    &&& read.contains_key("from"@)
    &&& read["from"@] == text::trim(request["to"@])
    &&& read.contains_key("to"@)
    &&& read["to"@] == text::trim(request["from"@])
    &&& read.contains_key("call-id"@)
    &&& read["call-id"@] == text::trim(request["call-id"@])
    &&& read.contains_key("cseq"@)
    &&& read["cseq"@] == number::decimal(number) + " MESSAGE"@
    &&& read.contains_key("via"@)
    &&& read["via"@] == "SIP/2.0/UDP ["@ + ipv6::ipv6_text(local) + "]:"@ + number::decimal(port)
        + ";branch=z9hG4bK-simadmin-rp-ack-"@ + number::decimal(number) + ";rport"@
    &&& read.contains_key("content-type"@)
    &&& read["content-type"@] == "application/vnd.3gpp.sms"@
    &&& read.contains_key("content-length"@)
    &&& read["content-length"@] == number::decimal(length)
}

proof fn lemma_acknowledgement_values(
    headers: Map<Seq<char>, Seq<char>>,
    local: Seq<u16>,
    port: nat,
    length: nat,
)
    ensures
        carries_acknowledgement(
            sip_encoding::header_values(ims_sms::ack_headers(headers, local, port, length)),
            headers,
            local,
            port,
            ims_sms::next_cseq(headers),
            length,
        ),
{
    let list = ims_sms::ack_headers(headers, local, port, length);
    sip_laws::lemma_names();
    sip_laws::lemma_distinct_names();
    let all = seq![
        "via"@,
        "from"@,
        "to"@,
        "call-id"@,
        "cseq"@,
        "contact"@,
        "max-forwards"@,
        "user-agent"@,
        "authorization"@,
        "content-length"@,
    ];
    assert(all[0] == "via"@ && all[1] == "from"@ && all[2] == "to"@ && all[3] == "call-id"@
        && all[4] == "cseq"@ && all[9] == "content-length"@);
    let names = seq![
        "via"@,
        "from"@,
        "to"@,
        "call-id"@,
        "cseq"@,
        "content-type"@,
        "content-length"@,
    ];
    assert forall|i: int| 0 <= i < 7 implies sip_laws::small_name(#[trigger] list[i]) == names[i] by {
        assert(i == 0 || i == 1 || i == 2 || i == 3 || i == 4 || i == 5 || i == 6);
    }
    assert forall|a: int, b: int| 0 <= a < b < 7 implies sip_laws::small_name(#[trigger] list[a])
        != sip_laws::small_name(#[trigger] list[b]) by {
        if a != 5 && b != 5 {
            let a0 = if a == 6 { 9int } else { a };
            let b0 = if b == 6 { 9int } else { b };
            assert(all[a0] == names[a] && all[b0] == names[b]);
            assert(all[a0] != all[b0]);
        }
    }
    sip_laws::lemma_value_at(list, 0, "via"@);
    sip_laws::lemma_value_at(list, 1, "from"@);
    sip_laws::lemma_value_at(list, 2, "to"@);
    sip_laws::lemma_value_at(list, 3, "call-id"@);
    sip_laws::lemma_value_at(list, 4, "cseq"@);
    sip_laws::lemma_value_at(list, 5, "content-type"@);
    sip_laws::lemma_value_at(list, 6, "content-length"@);
    lemma_acknowledgement_bare(headers, local, port, length);
}

proof fn lemma_acknowledgement_bare(
    headers: Map<Seq<char>, Seq<char>>,
    local: Seq<u16>,
    port: nat,
    length: nat,
)
    ensures
        ({
            let list = ims_sms::ack_headers(headers, local, port, length);
            &&& text::trim(list[0].1) == list[0].1
            &&& text::trim(list[4].1) == list[4].1
            &&& text::trim(list[5].1) == list[5].1
            &&& text::trim(list[6].1) == list[6].1
        }),
{
    reveal_strlit("SIP/2.0/UDP [");
    reveal_strlit(";rport");
    reveal_strlit(" MESSAGE");
    reveal_strlit("application/vnd.3gpp.sms");
    let list = ims_sms::ack_headers(headers, local, port, length);
    assert(list[0].1[0] == 'S' && list[0].1.last() == 't');
    text_laws::lemma_trim_bare(list[0].1);
    let n = number::decimal(ims_sms::next_cseq(headers));
    number::lemma_decimal_digits(ims_sms::next_cseq(headers));
    assert(text::is_digit(n[0]));
    assert(list[4].1[0] == n[0] && list[4].1.last() == 'E');
    text_laws::lemma_trim_bare(list[4].1);
    text_laws::lemma_trim_bare(list[5].1);
    let d = number::decimal(length);
    number::lemma_decimal_digits(length);
    assert(text::is_digit(d[0]) && text::is_digit(d[d.len() - 1]));
    text_laws::lemma_trim_bare(d);
}

/// The message that carries an acknowledgement, read as a SIP message: it goes to the sender of
/// the request and comes from its receiver, in the same dialog, with the next number, from the
/// local address; its body is the acknowledgement. It is refused only where the request does not
/// name sender, receiver or dialog.
pub proof fn law_acknowledgement_carried(
    headers: Map<Seq<char>, Seq<char>>,
    local: Seq<u16>,
    port: nat,
    ack: Seq<u8>,
)
    requires
        local.len() == 8,
        headers.contains_key("from"@) ==> sip_encoding::is_one_line(headers["from"@]),
        headers.contains_key("to"@) ==> sip_encoding::is_one_line(headers["to"@]),
        headers.contains_key("call-id"@) ==> sip_encoding::is_one_line(headers["call-id"@]),
    ensures
        ims_sms::ack_message(headers, local, port, ack) is Ok <==> headers.contains_key("from"@)
            && headers.contains_key("to"@) && headers.contains_key("call-id"@),
        ims_sms::ack_message(headers, local, port, ack) is Ok ==> ({
            let packet = ims_sms::ack_message(headers, local, port, ack)->Ok_0;
            let read = ims_sms::sip_message(packet);
            &&& read is Ok
            &&& carries_acknowledgement(
                (read->Ok_0).0,
                headers,
                local,
                port,
                ims_sms::next_cseq(headers),
                ack.len(),
            )
            &&& (read->Ok_0).1 == ack
            &&& vstd::utf8::encode_utf8(
                "MESSAGE "@ + ims_sms::uri_of(headers["from"@]) + " SIP/2.0\r\n"@,
            ).is_prefix_of(packet)
        }),
{
    if headers.contains_key("from"@) && headers.contains_key("to"@) && headers.contains_key(
        "call-id"@,
    ) {
        sip_encoding::law_acknowledgement_read_back(headers, local, port, ack);
        lemma_acknowledgement_values(headers, local, port, ack.len());
        let list = ims_sms::ack_headers(headers, local, port, ack.len());
        let first = ims_sms::ack_first_line(headers);
        let start = "MESSAGE "@ + ims_sms::uri_of(headers["from"@]) + " SIP/2.0\r\n"@;
        reveal_strlit(" SIP/2.0\r\n");
        reveal_strlit(" SIP/2.0");
        reveal_strlit("\r\n");
        assert(" SIP/2.0\r\n"@ =~= " SIP/2.0"@ + "\r\n"@);
        assert(start =~= first + "\r\n"@);
        let rest = sip_encoding::written_lines(sip_encoding::header_line(list[0]), list.skip(1))
            + "\r\n\r\n"@;
        let whole = sip_encoding::written_lines(first, list) + "\r\n\r\n"@;
        assert(whole =~= start + rest);
        sip_encoding::lemma_encode_concat(start, rest);
        let packet = ims_sms::ack_message(headers, local, port, ack)->Ok_0;
        let n = vstd::utf8::encode_utf8(start).len() as int;
        assert(packet.subrange(0, n) =~= vstd::utf8::encode_utf8(start));
    }
}

/// The acknowledgement of a message in a body: two bytes, the type of an acknowledgement and the
/// reference of the message, for the bytes of the message and for their hexadecimal form.
pub proof fn law_acknowledgement_of_body(rp: Seq<u8>)
    requires
        rp.len() >= 2,
        rp[0] == 0,
    ensures
        ims_sms::rp_ack(ims_sms::body_hex(rp)) == Ok::<Seq<u8>, ImsError>(seq![2u8, rp[1]]),
        ims_sms::rp_ack(ims_sms::body_hex(ims_sms::ascii_bytes(number::hex_upper(rp)))) == Ok::<
            Seq<u8>,
            ImsError,
        >(seq![2u8, rp[1]]),
        ims_sms::rp_ack(number::hex_lower(rp)) == Ok::<Seq<u8>, ImsError>(seq![2u8, rp[1]]),
{
    ims_sms::law_acknowledged_reference(rp);
    ims_sms::law_body_forms(rp);
    number::law_hex_round_trip(rp);
}

// ---------------------------------------------------------------------------------------------
// Which requests carry a short message
// ---------------------------------------------------------------------------------------------
/// A request whose type of content holds the name of 3GPP short messages, in small or capital
/// letters and with anything around it, carries one if its method is MESSAGE. Its headers and its
/// body are those that were written.
pub proof fn law_short_message_recognized(
    target: Seq<char>,
    headers: Seq<(Seq<char>, Seq<char>)>,
    k: int,
    before: Seq<char>,
    kind: Seq<char>,
    after: Seq<char>,
    body: Seq<u8>,
)
    requires
        sip_encoding::is_one_line(target),
        forall|i: int|
            0 <= i < headers.len() ==> sip_encoding::is_header(#[trigger] headers[i]),
        0 <= k < headers.len(),
        sip_laws::small_name(headers[k]) == "content-type"@,
        forall|i: int|
            k < i < headers.len() ==> sip_laws::small_name(#[trigger] headers[i])
                != "content-type"@,
        text::lowercase(kind) == "application/vnd.3gpp.sms"@,
        text::trim(headers[k].1) == before + kind + after,
    ensures
        sms_reception::carried_sms(
            sip_encoding::written_message("MESSAGE "@ + target, headers, body),
        ) == Some((sip_encoding::header_values(headers), body)),
{
    sip_laws::lemma_header_value(headers, k, "content-type"@);
    let value = before + kind + after;
    assert(text::lowercase(value) =~= text::lowercase(before) + text::lowercase(kind)
        + text::lowercase(after));
    text_laws::law_occurs(text::lowercase(before), text::lowercase(kind), text::lowercase(after));
    reveal_strlit("MESSAGE ");
    sip_encoding::lemma_one_line_concat("MESSAGE "@, target);
    let first = "MESSAGE "@ + target;
    assert(first.subrange(0, 8) =~= "MESSAGE "@);
    sip_encoding::law_short_message_carried(first, headers, body);
}

/// A request of another method carries no short message, and neither does one that does not tell
/// the type of its content or tells another one.
pub proof fn law_other_requests(
    first: Seq<char>,
    headers: Seq<(Seq<char>, Seq<char>)>,
    body: Seq<u8>,
)
    requires
        sip_encoding::is_one_line(first),
        forall|i: int|
            0 <= i < headers.len() ==> sip_encoding::is_header(#[trigger] headers[i]),
    ensures
        !"MESSAGE "@.is_prefix_of(first) ==> sms_reception::carried_sms(
            sip_encoding::written_message(first, headers, body),
        ) is None,
        (forall|i: int|
            0 <= i < headers.len() ==> sip_laws::small_name(#[trigger] headers[i])
                != "content-type"@) ==> sms_reception::carried_sms(
            sip_encoding::written_message(first, headers, body),
        ) is None,
        (forall|i: int|
            0 <= i < headers.len() && sip_laws::small_name(#[trigger] headers[i])
                == "content-type"@ ==> !text::occurs_in(
                "application/vnd.3gpp.sms"@,
                text::lowercase(text::trim(headers[i].1)),
            )) ==> sms_reception::carried_sms(sip_encoding::written_message(first, headers, body))
            is None,
{
    sip_encoding::law_message_read_back(first, headers, body);
    sip_encoding::lemma_first_line_found(first, headers, body);
    let values = sip_encoding::header_values(headers);
    if values.contains_key("content-type"@) {
        lemma_value_of_some_header(headers, "content-type"@);
    }
    if forall|i: int|
        0 <= i < headers.len() ==> sip_laws::small_name(#[trigger] headers[i])
            != "content-type"@ {
        sip_laws::lemma_header_absent(headers, "content-type"@);
    }
}

proof fn lemma_value_of_some_header(headers: Seq<(Seq<char>, Seq<char>)>, name: Seq<char>) -> (r:
    int)
    requires
        sip_encoding::header_values(headers).contains_key(name),
    ensures
        0 <= r < headers.len(),
        sip_laws::small_name(headers[r]) == name,
        sip_encoding::header_values(headers)[name] == text::trim(headers[r].1),
    decreases headers.len(),
{
    let n = headers.len() - 1;
    if headers.len() == 0 {
        0
    } else if sip_laws::small_name(headers[n]) == name {
        n
    } else {
        lemma_value_of_some_header(headers.drop_last(), name)
    }
}

/// A message without a blank line after its headers is incomplete, and one line without a colon,
/// after the first, spoils the headers, whatever the body is.
pub proof fn law_unreadable_messages(packet: Seq<u8>, head: Seq<char>, body: Seq<u8>, k: int)
    requires
        sip_encoding::has_no_blank_line(head),
        1 <= k < text::lines(head).len(),
        !text::lines(head)[k].contains(':'),
    ensures
        (forall|i: int|
            0 <= i && i + 4 <= packet.len() ==> #[trigger] packet.subrange(i, i + 4) != seq![
                13u8,
                10,
                13,
                10,
            ]) ==> ims_sms::sip_message(packet) == Err::<
            (Map<Seq<char>, Seq<char>>, Seq<u8>),
            ImsError,
        >(ImsError::IncompleteHeaders),
        ims_sms::sip_message(vstd::utf8::encode_utf8(head) + seq![13u8, 10, 13, 10] + body)
            == Err::<(Map<Seq<char>, Seq<char>>, Seq<u8>), ImsError>(ImsError::MalformedHeader),
{
    if forall|i: int|
        0 <= i && i + 4 <= packet.len() ==> #[trigger] packet.subrange(i, i + 4) != seq![
            13u8,
            10,
            13,
            10,
        ] {
        lemma_not_found(packet, ims_sms::blank_line(), 0);
    }
    let lines = ims_sms::header_lines(head);
    assert(lines[k - 1] == text::lines(head)[k]);
    lemma_spoilt(lines, k - 1);
    let bytes = vstd::utf8::encode_utf8(head);
    let whole = bytes + seq![13u8, 10, 13, 10] + body;
    sip_encoding::lemma_headers_end(head, body);
    assert(whole.take(bytes.len() as int) =~= bytes);
    vstd::utf8::encode_utf8_valid_utf8(head);
    vstd::utf8::encode_utf8_decode_utf8(head);
}

/// Headers that are not UTF-8 are refused, with the number of bytes up to which they are: so many
/// are valid, and no more.
pub proof fn law_headers_not_utf8(packet: Seq<u8>, n: int, m: int)
    requires
        ims_sms::find_bytes(packet, seq![13u8, 10, 13, 10], 0) == Some(n),
        0 <= n <= packet.len(),
        n <= usize::MAX,
        !vstd::utf8::valid_utf8(packet.take(n)),
    ensures
        ims_sms::sip_message(packet) is Err,
        ims_sms::sip_message(packet)->Err_0 is HeadersNotUtf8,
        ({
            let valid = ims_sms::sip_message(packet)->Err_0->HeadersNotUtf8_0;
            &&& valid < n
            &&& vstd::utf8::valid_utf8(packet.take(valid as int))
            &&& valid < m <= n ==> !vstd::utf8::valid_utf8(packet.take(m))
        }),
{
    let head = packet.take(n);
    lemma_valid_length(head, n as nat, m);
    let k = externals::valid_length(head, n as nat) as int;
    assert(head.take(k) =~= packet.take(k));
    if k < m <= n {
        assert(head.take(m) =~= packet.take(m));
    }
    assert(head.take(n) =~= head);
}

proof fn lemma_valid_length(bytes: Seq<u8>, n: nat, m: int)
    requires
        n <= bytes.len(),
    ensures
        externals::valid_length(bytes, n) <= n,
        vstd::utf8::valid_utf8(bytes.take(externals::valid_length(bytes, n) as int)),
        externals::valid_length(bytes, n) < m <= n ==> !vstd::utf8::valid_utf8(bytes.take(m)),
    decreases n,
{
    if n == 0 {
        assert(bytes.take(0) =~= Seq::<u8>::empty());
    } else if !vstd::utf8::valid_utf8(bytes.take(n as int)) {
        lemma_valid_length(bytes, (n - 1) as nat, m);
    }
}

/// A request without a sender, a receiver or a Call-ID is not acknowledged; what is missing first is
/// reported. With all three it is.
pub proof fn law_acknowledgement_refused(
    headers: Map<Seq<char>, Seq<char>>,
    local: Seq<u16>,
    port: nat,
    body: Seq<u8>,
)
    ensures
        ({
            let message = ims_sms::ack_message(headers, local, port, body);
            let from = headers.contains_key("from"@);
            let to = headers.contains_key("to"@);
            let call = headers.contains_key("call-id"@);
            &&& message is Ok <==> from && to && call
            &&& !from <==> message == Err::<Seq<u8>, ImsError>(ImsError::MissingFrom)
            &&& from && !to <==> message == Err::<Seq<u8>, ImsError>(ImsError::MissingTo)
            &&& from && to && !call <==> message == Err::<Seq<u8>, ImsError>(
                ImsError::MissingCallId,
            )
        }),
{
}

/// How a message is written: its first line, then each header on a line of its own with a colon and
/// a space between name and value, then a blank line and the body.
pub proof fn law_written_form(
    first: Seq<char>,
    headers: Seq<(Seq<char>, Seq<char>)>,
    name: Seq<char>,
    value: Seq<char>,
    body: Seq<u8>,
)
    ensures
        sip_encoding::written_lines(first, Seq::empty()) == first,
        sip_encoding::written_lines(first, headers.push((name, value)))
            == sip_encoding::written_lines(first, headers) + seq!['\r', '\n'] + name + seq![
            ':',
            ' ',
        ] + value,
        sip_encoding::written_message(first, headers, body) == vstd::utf8::encode_utf8(
            sip_encoding::written_lines(first, headers) + seq!['\r', '\n', '\r', '\n'],
        ) + body,
{
    reveal_strlit("\r\n");
    reveal_strlit("\r\n\r\n");
    reveal_strlit(": ");
    assert("\r\n"@ =~= seq!['\r', '\n']);
    assert("\r\n\r\n"@ =~= seq!['\r', '\n', '\r', '\n']);
    assert(": "@ =~= seq![':', ' ']);
    sip_encoding::lemma_written_lines_push(first, headers, (name, value));
    let t = sip_encoding::written_lines(first, headers);
    assert(t + "\r\n"@ + sip_encoding::header_line((name, value)) =~= t + seq!['\r', '\n'] + name
        + seq![':', ' '] + value);
}

proof fn lemma_not_found(s: Seq<u8>, pattern: Seq<u8>, i: int)
    requires
        0 <= i,
        forall|j: int|
            i <= j && j + pattern.len() <= s.len() ==> #[trigger] s.subrange(j, j + pattern.len())
                != pattern,
    ensures
        ims_sms::find_bytes(s, pattern, i) is None,
    decreases s.len() - i,
{
    if i + pattern.len() <= s.len() && i < s.len() {
        assert(s.subrange(i, i + pattern.len()) != pattern);
        lemma_not_found(s, pattern, i + 1);
    }
}

proof fn lemma_spoilt(lines: Seq<Seq<char>>, k: int)
    requires
        0 <= k < lines.len(),
        !lines[k].contains(':'),
    ensures
        ims_sms::header_map(lines) is None,
    decreases lines.len(),
{
    if k < lines.len() - 1 {
        assert(lines.drop_last()[k] == lines[k]);
        lemma_spoilt(lines.drop_last(), k);
    } else {
        text_laws::law_split_once(lines[k], ':', Seq::empty());
    }
}

} // verus!

//! Laws of the decoding of short messages: what a sender writes is what is read.
use vstd::prelude::*;
use crate::error::ImsError;
use crate::externals;
use crate::ims_sms;
use crate::ims_sms::ConcatInfo;
use crate::ims_uim;
use crate::number;
use crate::sms_encoding;
use crate::sms_reception;
use crate::text;
use crate::text_laws;

verus! {

// ---------------------------------------------------------------------------------------------
// The default alphabet
// ---------------------------------------------------------------------------------------------
/// What each value of the default alphabet stands for: from 0x20 to 0x7e the character with that
/// code, for 0x0a and 0x0d the ends of lines, for the other values below 0x20 a space, and for
/// what is left a question mark.
pub proof fn law_default_alphabet(value: u8)
    ensures
        0x20 <= value <= 0x7e ==> ims_sms::gsm7_text(value as int) as int == value,
        value == 0x0a ==> ims_sms::gsm7_text(value as int) as int == 10,
        value == 0x0d ==> ims_sms::gsm7_text(value as int) as int == 13,
        value < 0x20 && value != 0x0a && value != 0x0d ==> ims_sms::gsm7_text(value as int) as int
            == 0x20,
        value >= 0x7f ==> ims_sms::gsm7_text(value as int) as int == 0x3f,
{
}

/// The text has printable ASCII characters and ends of lines alone.
pub open spec fn is_plain(text: Seq<char>) -> bool {
    forall|i: int|
        0 <= i < text.len() ==> 0x20 <= (#[trigger] text[i]) as int <= 0x7e || text[i] as int == 10
            || text[i] as int == 13
}

/// The codes of the characters of a text.
pub open spec fn codes(text: Seq<char>) -> Seq<u8> {
    Seq::new(text.len(), |i: int| text[i] as u8)
}

/// The number of a sender: a plus sign if it is international, and its digits.
pub open spec fn number_written(kind: u8, digits: Seq<u8>) -> Seq<char> {
    (if (kind / 16) % 8 == 1 {
        seq!['+']
    } else {
        Seq::empty()
    }) + Seq::new(digits.len(), |i: int| (48 + digits[i]) as char)
}

proof fn lemma_number_written(kind: u8, digits: Seq<u8>)
    ensures
        sms_encoding::dialled(kind, digits) == number_written(kind, digits),
{
    reveal_strlit("+");
    assert(sms_encoding::dialled(kind, digits) =~= number_written(kind, digits));
}

proof fn lemma_bits_of_start(data: Seq<u8>, rest: Seq<u8>, m: int)
    requires
        0 <= m,
        m / 8 < data.len(),
    ensures
        ims_sms::data_bit(data + rest, m) == ims_sms::data_bit(data, m),
{
    assert((data + rest)[m / 8] == data[m / 8]);
}

proof fn lemma_group_of_start(values: Seq<u8>, rest: Seq<u8>, i: int)
    requires
        0 <= i < values.len(),
        values[i] < 128,
    ensures
        ims_sms::septet(sms_encoding::packed(values) + rest, i) == values[i],
{
    let data = sms_encoding::packed(values);
    let n = values.len() as int;
    assert((7 * i + 6) / 8 < data.len());
    lemma_bits_of_start(data, rest, 7 * i);
    lemma_bits_of_start(data, rest, 7 * i + 1);
    lemma_bits_of_start(data, rest, 7 * i + 2);
    lemma_bits_of_start(data, rest, 7 * i + 3);
    lemma_bits_of_start(data, rest, 7 * i + 4);
    lemma_bits_of_start(data, rest, 7 * i + 5);
    lemma_bits_of_start(data, rest, 7 * i + 6);
    sms_encoding::lemma_packed_group(values, i);
}

/// Every text of printable characters that was packed is read back unchanged, whatever follows
/// the packed groups.
pub proof fn law_plain_text_unpacked(text: Seq<char>, rest: Seq<u8>)
    requires
        is_plain(text),
    ensures
        ims_sms::packed_text(sms_encoding::packed(codes(text)) + rest, text.len()) == text,
{
    let values = codes(text);
    let data = sms_encoding::packed(values) + rest;
    assert forall|i: int| 0 <= i < text.len() implies ims_sms::packed_text(data, text.len())[i]
        == text[i] by {
        assert(0x20 <= text[i] as int <= 0x7e || text[i] as int == 10 || text[i] as int == 13);
        assert(values[i] == text[i] as int);
        lemma_group_of_start(values, rest, i);
        law_default_alphabet(values[i]);
    }
    assert(ims_sms::packed_text(data, text.len()) =~= text);
}

/// Bytes that are missing at the end of packed groups count as zero.
pub proof fn law_missing_bytes(data: Seq<u8>, septets: nat)
    ensures
        ims_sms::packed_text(data.push(0), septets) == ims_sms::packed_text(data, septets),
{
    let more = data.push(0);
    assert forall|m: int| 0 <= m implies #[trigger] ims_sms::data_bit(more, m) == ims_sms::data_bit(
        data,
        m,
    ) by {
        assert(ims_sms::byte_at(more, m / 8) == ims_sms::byte_at(data, m / 8));
    }
    assert forall|i: int| 0 <= i < septets implies ims_sms::septet(more, i) == ims_sms::septet(
        data,
        i,
    ) by {}
    assert(ims_sms::packed_text(more, septets) =~= ims_sms::packed_text(data, septets));
}

/// A message in the default alphabet: its sender and its text are read as they were written, for
/// every text of printable characters.
pub proof fn law_plain_text_read_back(
    first: u8,
    kind: u8,
    digits: Seq<u8>,
    protocol: u8,
    coding: u8,
    time: Seq<u8>,
    text: Seq<char>,
    rest: Seq<u8>,
)
    requires
        first % 4 == 0,
        sms_encoding::are_digits(digits),
        digits.len() <= 255,
        (coding / 4) % 4 == 0,
        time.len() == 7,
        text.len() <= 255,
        is_plain(text),
    ensures
        ims_sms::deliver(
            sms_encoding::sms_deliver(
                first,
                kind,
                digits,
                protocol,
                coding,
                time,
                text.len() as u8,
                sms_encoding::packed(codes(text)) + rest,
            ),
        ) == Ok::<ims_sms::Deliver, ImsError>((number_written(kind, digits), text, None)),
{
    let data = sms_encoding::packed(codes(text)) + rest;
    sms_encoding::law_deliver_parts(
        first,
        kind,
        digits,
        protocol,
        coding,
        time,
        text.len() as u8,
        data,
    );
    law_plain_text_unpacked(text, rest);
    lemma_number_written(kind, digits);
}

/// The same from the body of a request on: sender and text come out of the RP-DATA message that
/// carries the message, whether the body holds its bytes or writes them in hexadecimal.
pub proof fn law_plain_text_received(
    reference: u8,
    originator: Seq<u8>,
    destination: Seq<u8>,
    kind: u8,
    digits: Seq<u8>,
    time: Seq<u8>,
    text: Seq<char>,
)
    requires
        originator.len() <= 255,
        destination.len() <= 255,
        sms_encoding::are_digits(digits),
        digits.len() <= 20,
        time.len() == 7,
        text.len() <= 160,
        is_plain(text),
    ensures
        ({
            let tpdu = sms_encoding::sms_deliver(
                0,
                kind,
                digits,
                0,
                0,
                time,
                text.len() as u8,
                sms_encoding::packed(codes(text)),
            );
            let rp = ims_sms::rp_data(reference, originator, destination, tpdu);
            let plain = sms_reception::sms_in(rp);
            let written = sms_reception::sms_in(ims_sms::ascii_bytes(number::hex_upper(rp)));
            &&& plain is Some
            &&& written == plain
            &&& (plain->0).phone_number == number_written(kind, digits)
            &&& (plain->0).content == text
            &&& (plain->0).concat is None
        }),
{
    let data = sms_encoding::packed(codes(text));
    let tpdu = sms_encoding::sms_deliver(0, kind, digits, 0, 0, time, text.len() as u8, data);
    law_plain_text_read_back(0, kind, digits, 0, 0, time, text, Seq::empty());
    assert(data + Seq::<u8>::empty() =~= data);
    sms_encoding::law_short_message_taken(reference, originator, destination, tpdu);
}

// ---------------------------------------------------------------------------------------------
// Addresses
// ---------------------------------------------------------------------------------------------
/// The halves of the bytes of an address, the lower half of each first.
pub open spec fn halves(bytes: Seq<u8>) -> Seq<u8>
    decreases bytes.len(),
{
    if bytes.len() == 0 {
        Seq::empty()
    } else {
        seq![bytes[0] % 16, bytes[0] / 16] + halves(bytes.skip(1))
    }
}

proof fn lemma_halves(bytes: Seq<u8>)
    ensures
        ims_sms::swapped_nibbles(bytes) == halves(bytes),
    decreases bytes.len(),
{
    let n = ims_sms::swapped_nibbles(bytes);
    if bytes.len() > 0 {
        lemma_halves(bytes.skip(1));
        let rest = ims_sms::swapped_nibbles(bytes.skip(1));
        assert forall|i: int| 0 <= i < n.len() implies n[i] == (seq![bytes[0] % 16, bytes[0] / 16]
            + rest)[i] by {
            if i >= 2 {
                assert((i - 2) / 2 + 1 == i / 2 && (i - 2) % 2 == i % 2);
                assert(bytes.skip(1)[(i - 2) / 2] == bytes[i / 2]);
            }
        }
        assert(n =~= seq![bytes[0] % 16, bytes[0] / 16] + rest);
    } else {
        assert(n =~= Seq::empty());
    }
}

/// Whatever the bytes of an address hold: its number is made of the halves that are decimal
/// digits, in their order, as many of them as the address says, and of nothing else; an address
/// that is cut short is refused.
pub proof fn law_address_digits(bytes: Seq<u8>, digits: nat)
    ensures
        bytes.len() < (digits + 1) / 2 + 1 <==> ims_sms::address(bytes, digits) is None,
        bytes.len() >= (digits + 1) / 2 + 1 ==> ({
            let octets = (digits + 1) / 2;
            let found = halves(bytes.subrange(1, 1 + octets as int)).filter(|n: u8| n < 10);
            let count = if found.len() < digits {
                found.len()
            } else {
                digits
            };
            ims_sms::address(bytes, digits) == Some(
                (number_written(bytes[0], found.take(count as int)), octets + 1),
            )
        }),
{
    reveal_strlit("+");
    let octets = (digits + 1) / 2;
    if bytes.len() >= octets + 1 {
        let part = bytes.subrange(1, 1 + octets as int);
        lemma_halves(part);
        let p = |n: u8| n <= 9;
        let q = |n: u8| n < 10;
        assert forall|n: u8| #[trigger] p(n) == q(n) by {}
        lemma_same_filter(halves(part), p, q);
        let found = halves(part).filter(q);
        let count = if found.len() < digits {
            found.len()
        } else {
            digits
        };
        let number = ims_sms::dial_digits(ims_sms::swapped_nibbles(part), digits);
        assert(number =~= Seq::new(count, |i: int| (48 + found.take(count as int)[i]) as char));
        if (bytes[0] / 16) % 8 == 1 {
            assert("+"@ + number =~= number_written(bytes[0], found.take(count as int)));
        } else {
            assert(number =~= number_written(bytes[0], found.take(count as int)));
        }
    }
}

proof fn lemma_same_filter(s: Seq<u8>, p: spec_fn(u8) -> bool, q: spec_fn(u8) -> bool)
    requires
        forall|n: u8| #[trigger] p(n) == q(n),
    ensures
        s.filter(p) == s.filter(q),
    decreases s.len(),
{
    reveal(Seq::filter);
    if s.len() > 0 {
        lemma_same_filter(s.drop_last(), p, q);
    }
}

// ---------------------------------------------------------------------------------------------
// UCS-2
// ---------------------------------------------------------------------------------------------
/// A message in UCS-2: every text is read back, whatever follows the user data.
pub proof fn law_ucs2_text_read_back(
    first: u8,
    kind: u8,
    digits: Seq<u8>,
    protocol: u8,
    coding: u8,
    time: Seq<u8>,
    content: Seq<char>,
    rest: Seq<u8>,
)
    requires
        first % 4 == 0,
        (first / 64) % 2 == 0,
        sms_encoding::are_digits(digits),
        digits.len() <= 255,
        (coding / 4) % 4 == 2,
        time.len() == 7,
        2 * sms_encoding::encode_utf16(content).len() <= 255,
    ensures
        ({
            let data = sms_encoding::unit_bytes(sms_encoding::encode_utf16(content));
            ims_sms::deliver(
                sms_encoding::sms_deliver(
                    first,
                    kind,
                    digits,
                    protocol,
                    coding,
                    time,
                    data.len() as u8,
                    data + rest,
                ),
            ) == Ok::<ims_sms::Deliver, ImsError>((number_written(kind, digits), content, None))
        }),
{
    let data = sms_encoding::unit_bytes(sms_encoding::encode_utf16(content));
    let all = data + rest;
    sms_encoding::law_deliver_parts(
        first,
        kind,
        digits,
        protocol,
        coding,
        time,
        data.len() as u8,
        all,
    );
    sms_encoding::law_utf16_read_back(content);
    sms_encoding::lemma_units_read(sms_encoding::encode_utf16(content));
    assert(all.subrange(0, data.len() as int) =~= data);
    lemma_number_written(kind, digits);
}

/// An information element that tells the place of a part, with a reference of one byte or two.
pub open spec fn is_place(element: (u8, Seq<u8>)) -> bool {
    (element.0 == 0x00 && element.1.len() == 3) || (element.0 == 0x08 && element.1.len() == 4)
}

/// The element that tells a place.
pub open spec fn place_element(info: ConcatInfo, wide: bool) -> (u8, Seq<u8>) {
    if wide {
        (
            0x08,
            seq![
                (info.reference / 256) as u8,
                (info.reference % 256) as u8,
                info.total,
                info.sequence,
            ],
        )
    } else {
        (0x00, seq![info.reference as u8, info.total, info.sequence])
    }
}

/// A user data header with the given elements.
pub open spec fn data_header(elements: Seq<(u8, Seq<u8>)>) -> Seq<u8> {
    let e = ims_uim::encode_elements(elements);
    seq![e.len() as u8] + e
}

proof fn lemma_elements_passed(data: Seq<u8>, end: int, i: int, e: Seq<(u8, Seq<u8>)>)
    requires
        0 <= i,
        i + ims_uim::encode_elements(e).len() <= end <= data.len(),
        data.subrange(i, i + ims_uim::encode_elements(e).len()) == ims_uim::encode_elements(e),
        forall|k: int| 0 <= k < e.len() ==> (#[trigger] e[k]).1.len() <= 255 && !is_place(e[k]),
    ensures
        ims_sms::find_concat(data, end, i) == ims_sms::find_concat(
            data,
            end,
            i + ims_uim::encode_elements(e).len(),
        ),
    decreases e.len(),
{
    if e.len() > 0 {
        let bytes = ims_uim::encode_elements(e);
        let tail = e.skip(1);
        let after = ims_uim::encode_elements(tail);
        let n = e[0].1.len() as int;
        assert(bytes == seq![e[0].0, n as u8] + e[0].1 + after);
        let here = data.subrange(i, i + bytes.len());
        assert(here[0] == data[i] && here[1] == data[i + 1]);
        assert(data[i] == e[0].0 && data[i + 1] == n);
        assert(data.subrange(i + 2 + n, i + 2 + n + after.len()) =~= after) by {
            assert forall|k: int| 0 <= k < after.len() implies data[i + 2 + n + k] == after[k] by {
                assert(here[2 + n + k] == bytes[2 + n + k]);
            }
        }
        assert forall|k: int| 0 <= k < tail.len() implies (#[trigger] tail[k]).1.len() <= 255
            && !is_place(tail[k]) by {
            assert(tail[k] == e[k + 1]);
        }
        lemma_elements_passed(data, end, i + 2 + n, tail);
        assert(!is_place(e[0]));
        assert(ims_sms::find_concat(data, end, i) == ims_sms::find_concat(data, end, i + 2 + n));
    }
}

proof fn lemma_elements_concat(a: Seq<(u8, Seq<u8>)>, b: Seq<(u8, Seq<u8>)>)
    ensures
        ims_uim::encode_elements(a + b) == ims_uim::encode_elements(a) + ims_uim::encode_elements(
            b,
        ),
    decreases a.len(),
{
    if a.len() == 0 {
        assert(a + b =~= b);
        assert(ims_uim::encode_elements(a) + ims_uim::encode_elements(b)
            =~= ims_uim::encode_elements(b));
    } else {
        lemma_elements_concat(a.skip(1), b);
        assert((a + b).skip(1) =~= a.skip(1) + b);
        assert((a + b)[0] == a[0]);
        let head = seq![a[0].0, a[0].1.len() as u8] + a[0].1;
        assert(ims_uim::encode_elements(a + b) =~= head + (ims_uim::encode_elements(a.skip(1))
            + ims_uim::encode_elements(b)));
        assert(ims_uim::encode_elements(a) =~= head + ims_uim::encode_elements(a.skip(1)));
    }
}

/// The place of a part is found in its user data header among any other elements, with a
/// reference of one byte or of two; a header without a place has none.
pub proof fn law_place_found(
    before: Seq<(u8, Seq<u8>)>,
    info: ConcatInfo,
    wide: bool,
    after: Seq<(u8, Seq<u8>)>,
    rest: Seq<u8>,
)
    requires
        wide || info.reference <= 0xff,
        forall|k: int| 0 <= k < before.len() ==> (#[trigger] before[k]).1.len() <= 255
            && !is_place(before[k]),
        ims_uim::encode_elements(before + seq![place_element(info, wide)] + after).len() <= 255,
    ensures
        ({
            let header = data_header(before + seq![place_element(info, wide)] + after);
            ims_sms::concat_header(header + rest) == Some((info, header.len()))
        }),
        ims_sms::concat_header(data_header(before) + rest) is None,
{
    let place = place_element(info, wide);
    let all = before + seq![place] + after;
    let a = ims_uim::encode_elements(before);
    let p = ims_uim::encode_elements(seq![place]);
    let z = ims_uim::encode_elements(after);
    lemma_elements_concat(before + seq![place], after);
    lemma_elements_concat(before, seq![place]);
    assert(p == seq![place.0, place.1.len() as u8] + place.1 + ims_uim::encode_elements(
        seq![place].skip(1),
    ));
    assert(seq![place].skip(1) =~= Seq::<(u8, Seq<u8>)>::empty());
    let header = data_header(all);
    let data = header + rest;
    let end = header.len() as int;
    assert(data[0] == end - 1);
    assert(data.subrange(1, 1 + a.len() as int) =~= a);
    lemma_elements_passed(data, end, 1, before);
    let i = 1 + a.len() as int;
    assert forall|k: int| 0 <= k < p.len() implies data[i + k] == p[k] by {}
    assert(p.len() == 2 + place.1.len());
    assert(data[i] == p[0] && data[i + 1] == p[1] && data[i + 2] == p[2] && data[i + 3] == p[3]
        && data[i + 4] == p[4]);
    if wide {
        assert(data[i + 5] == p[5]);
    }
    let bare = data_header(before);
    let other = bare + rest;
    let stop = bare.len() as int;
    assert(other[0] == stop - 1);
    assert(other.subrange(1, stop) =~= a);
    lemma_elements_passed(other, stop, 1, before);
}

/// A part of a message in UCS-2: its text, its sender and its place are read back, among any other
/// elements of the header and whatever follows the user data.
pub proof fn law_part_read_back(
    first: u8,
    kind: u8,
    digits: Seq<u8>,
    protocol: u8,
    coding: u8,
    time: Seq<u8>,
    before: Seq<(u8, Seq<u8>)>,
    info: ConcatInfo,
    wide: bool,
    after: Seq<(u8, Seq<u8>)>,
    content: Seq<char>,
    rest: Seq<u8>,
)
    requires
        first % 4 == 0,
        (first / 64) % 2 == 1,
        sms_encoding::are_digits(digits),
        digits.len() <= 255,
        (coding / 4) % 4 == 2,
        time.len() == 7,
        wide || info.reference <= 0xff,
        forall|k: int| 0 <= k < before.len() ==> (#[trigger] before[k]).1.len() <= 255
            && !is_place(before[k]),
        ({
            let n = data_header(before + seq![place_element(info, wide)] + after).len() + 2
                * sms_encoding::encode_utf16(content).len();
            n <= 255 && n % 2 == 0
        }),
    ensures
        ({
            let data = data_header(before + seq![place_element(info, wide)] + after)
                + sms_encoding::unit_bytes(sms_encoding::encode_utf16(content));
            ims_sms::deliver(
                sms_encoding::sms_deliver(
                    first,
                    kind,
                    digits,
                    protocol,
                    coding,
                    time,
                    data.len() as u8,
                    data + rest,
                ),
            ) == Ok::<ims_sms::Deliver, ImsError>(
                (number_written(kind, digits), content, Some(info)),
            )
        }),
{
    let header = data_header(before + seq![place_element(info, wide)] + after);
    let written = sms_encoding::unit_bytes(sms_encoding::encode_utf16(content));
    let data = header + written;
    let all = data + rest;
    assert(ims_sms::concat_header(all) == Some((info, header.len()))) by {
        law_place_found(before, info, wide, after, written + rest);
        assert(header + (written + rest) =~= all);
    }
    assert(ims_sms::decode_utf16(ims_sms::code_units(written)) == Some(content)) by {
        sms_encoding::law_utf16_read_back(content);
        sms_encoding::lemma_units_read(sms_encoding::encode_utf16(content));
    }
    lemma_part_content(first, coding, header, info, written, content, rest);
    assert((data.len() as u8) as nat == header.len() + written.len());
    lemma_delivered(
        first,
        kind,
        digits,
        protocol,
        coding,
        time,
        data.len() as u8,
        all,
        content,
        Some(info),
    );
}

proof fn lemma_delivered(
    first: u8,
    kind: u8,
    digits: Seq<u8>,
    protocol: u8,
    coding: u8,
    time: Seq<u8>,
    length: u8,
    data: Seq<u8>,
    content: Seq<char>,
    concat: Option<ConcatInfo>,
)
    requires
        first % 4 == 0,
        sms_encoding::are_digits(digits),
        digits.len() <= 255,
        time.len() == 7,
        ims_sms::user_content(first, coding, data, length as nat) == Ok::<
            (Seq<char>, Option<ConcatInfo>),
            ImsError,
        >((content, concat)),
    ensures
        ims_sms::deliver(
            sms_encoding::sms_deliver(first, kind, digits, protocol, coding, time, length, data),
        ) == Ok::<ims_sms::Deliver, ImsError>((number_written(kind, digits), content, concat)),
{
    sms_encoding::law_deliver_parts(first, kind, digits, protocol, coding, time, length, data);
    lemma_number_written(kind, digits);
}

proof fn lemma_part_content(
    first: u8,
    coding: u8,
    header: Seq<u8>,
    info: ConcatInfo,
    written: Seq<u8>,
    content: Seq<char>,
    rest: Seq<u8>,
)
    requires
        (first / 64) % 2 == 1,
        (coding / 4) % 4 == 2,
        (header.len() + written.len()) % 2 == 0,
        ims_sms::concat_header(header + written + rest) == Some((info, header.len())),
        ims_sms::decode_utf16(ims_sms::code_units(written)) == Some(content),
    ensures
        ims_sms::user_content(
            first,
            coding,
            header + written + rest,
            header.len() + written.len(),
        ) == Ok::<(Seq<char>, Option<ConcatInfo>), ImsError>((content, Some(info))),
{
    let all = header + written + rest;
    let n = header.len() as int;
    assert(all.subrange(n, n + written.len()) =~= written);
}

/// Half of a surrogate pair that stands alone is no text: the whole message is refused.
pub proof fn law_lone_surrogate(before: Seq<char>, unit: u16, after: Seq<u16>)
    requires
        0xD800 <= unit <= 0xDFFF,
        unit < 0xDC00 && after.len() > 0 ==> !(0xDC00 <= after[0] <= 0xDFFF),
    ensures
        ims_sms::decode_utf16(sms_encoding::encode_utf16(before) + (seq![unit] + after)) is None,
    decreases before.len(),
{
    let tail = seq![unit] + after;
    let units = sms_encoding::encode_utf16(before) + tail;
    if before.len() == 0 {
        assert(units =~= tail);
        assert(units[0] == unit);
        if units.len() > 1 {
            assert(units[1] == after[0]);
        }
    } else {
        law_lone_surrogate(before.skip(1), unit, after);
        let rest = sms_encoding::encode_utf16(before.skip(1)) + tail;
        let code = before[0] as int;
        sms_encoding::lemma_code_point(before[0]);
        if code < 0x10000 {
            assert(units.skip(1) =~= rest);
            assert(units[0] == code);
        } else {
            assert(units.skip(2) =~= rest);
            assert(units[0] == 0xD800 + (code - 0x10000) / 0x400);
            assert(units[1] == 0xDC00 + (code - 0x10000) % 0x400);
        }
    }
}

/// User data in UCS-2 that is cut short or has an odd length is refused, and so are text that is
/// not UTF-16 and a header that tells the place of a part and is longer than the user data.
pub proof fn law_ucs2_refused(first: u8, coding: u8, data: Seq<u8>, length: nat)
    requires
        (coding / 4) % 4 == 2,
    ensures
        data.len() < length || length % 2 == 1 ==> ims_sms::user_content(
            first,
            coding,
            data,
            length,
        ) == Err::<(Seq<char>, Option<ConcatInfo>), ImsError>(ImsError::TruncatedUcs2),
        (first / 64) % 2 == 0 && length <= data.len() && length % 2 == 0 && ims_sms::decode_utf16(
            ims_sms::code_units(data.take(length as int)),
        ) is None ==> ims_sms::user_content(first, coding, data, length) == Err::<
            (Seq<char>, Option<ConcatInfo>),
            ImsError,
        >(ImsError::InvalidUtf16),
        (first / 64) % 2 == 1 && length <= data.len() && length % 2 == 0 && ims_sms::concat_header(
            data,
        ) is Some && (ims_sms::concat_header(data)->0).1 > length ==> ims_sms::user_content(
            first,
            coding,
            data,
            length,
        ) == Err::<(Seq<char>, Option<ConcatInfo>), ImsError>(ImsError::OversizedUdh),
{
    if length <= data.len() {
        assert(data.subrange(0, length as int) =~= data.take(length as int));
    }
}

// ---------------------------------------------------------------------------------------------
// Other messages
// ---------------------------------------------------------------------------------------------
/// A message of bytes: its text is what its bytes encode, as many as its length says or as there
/// are.
pub proof fn law_bytes_read_back(
    first: u8,
    kind: u8,
    digits: Seq<u8>,
    protocol: u8,
    coding: u8,
    time: Seq<u8>,
    data: Seq<u8>,
    rest: Seq<u8>,
    excess: u8,
)
    requires
        first % 4 == 0,
        sms_encoding::are_digits(digits),
        digits.len() <= 255,
        (coding / 4) % 4 == 1 || (coding / 4) % 4 == 3,
        time.len() == 7,
        data.len() + excess <= 255,
        excess > 0 ==> rest.len() == 0,
    ensures
        ims_sms::deliver(
            sms_encoding::sms_deliver(
                first,
                kind,
                digits,
                protocol,
                coding,
                time,
                (data.len() + excess) as u8,
                data + rest,
            ),
        ) == Ok::<ims_sms::Deliver, ImsError>(
            (number_written(kind, digits), externals::utf8_lossy(data), None),
        ),
{
    let all = data + rest;
    sms_encoding::law_deliver_parts(
        first,
        kind,
        digits,
        protocol,
        coding,
        time,
        (data.len() + excess) as u8,
        all,
    );
    if rest.len() == 0 {
        assert(all =~= data);
    } else {
        assert(all.take(data.len() as int) =~= data);
    }
    lemma_number_written(kind, digits);
}

/// A message of another type is refused, and so is one that ends before its user data: each cut has
/// its error.
pub proof fn law_deliver_refused(
    first: u8,
    kind: u8,
    digits: Seq<u8>,
    protocol: u8,
    coding: u8,
    time: Seq<u8>,
    length: u8,
    data: Seq<u8>,
    k: int,
)
    requires
        sms_encoding::are_digits(digits),
        digits.len() <= 255,
        time.len() == 7,
        0 <= k <= 4 + sms_encoding::address_field(kind, digits).len() + 7,
    ensures
        ({
            let tpdu = sms_encoding::sms_deliver(
                first,
                kind,
                digits,
                protocol,
                coding,
                time,
                length,
                data,
            );
            let n = sms_encoding::address_field(kind, digits).len();
            &&& first % 4 != 0 ==> ims_sms::deliver(tpdu) == Err::<ims_sms::Deliver, ImsError>(
                ImsError::NotSmsDeliver,
            )
            &&& ims_sms::deliver(tpdu.take(k)) == Err::<ims_sms::Deliver, ImsError>(
                if k < 2 || first % 4 != 0 {
                    ImsError::NotSmsDeliver
                } else if k < 2 + n {
                    ImsError::TruncatedAddress
                } else {
                    ImsError::MissingUserData
                },
            )
        }),
{
    let tpdu = sms_encoding::sms_deliver(first, kind, digits, protocol, coding, time, length, data);
    let field = sms_encoding::address_field(kind, digits);
    assert(tpdu[0] == first && tpdu[1] == digits.len());
    let cut = tpdu.take(k);
    if k >= 2 {
        assert(cut[0] == first && cut[1] == digits.len());
        assert(cut.skip(2).len() == k - 2);
    }
}

/// Only the user data of an RP-DATA message counts: what follows it is ignored. A message of
/// another type, or one that is cut short, is refused.
pub proof fn law_rp_data_bounds(
    reference: u8,
    originator: Seq<u8>,
    destination: Seq<u8>,
    user_data: Seq<u8>,
    rest: Seq<u8>,
    k: int,
)
    requires
        originator.len() <= 255,
        destination.len() <= 255,
        user_data.len() <= 255,
        0 <= k < ims_sms::rp_data(reference, originator, destination, user_data).len(),
    ensures
        ({
            let rp = ims_sms::rp_data(reference, originator, destination, user_data);
            &&& ims_sms::rp_user_data(rp + rest) == Ok::<Seq<u8>, ImsError>(user_data)
            &&& ims_sms::rp_user_data(rp.take(k)) == Err::<Seq<u8>, ImsError>(
                if k < 4 {
                    ImsError::NotRpData
                } else if k <= 3 + originator.len() {
                    ImsError::MissingRpDestination
                } else if k <= 4 + originator.len() + destination.len() {
                    ImsError::MissingRpUserData
                } else {
                    ImsError::TruncatedRpUserData
                },
            )
        }),
{
    let rp = ims_sms::rp_data(reference, originator, destination, user_data);
    let o = originator.len() as int;
    let d = destination.len() as int;
    let u = user_data.len() as int;
    assert(rp[0] == 0 && rp[2] == o);
    assert(rp[3 + o] == d);
    assert(rp[4 + o + d] == u);
    assert(rp.len() == 5 + o + d + u);
    let all = rp + rest;
    assert(all[0] == 0 && all[2] == o);
    assert(all[3 + o] == d);
    assert(all[4 + o + d] == u);
    assert(all.subrange(5 + o + d, 5 + o + d + u) =~= user_data);
    let cut = rp.take(k);
    if k >= 4 {
        assert(cut[0] == 0 && cut[2] == o);
        if k > 3 + o {
            assert(cut[3 + o] == d);
            if k > 4 + o + d {
                assert(cut[4 + o + d] == u);
            }
        }
    }
}

/// Only RP-DATA is decoded and acknowledged, and only from hexadecimal text.
pub proof fn law_other_rp_messages(rp: Seq<u8>, body: Seq<char>)
    requires
        rp.len() > 0 ==> rp[0] != 0,
        number::hex_bytes(body) is None,
    ensures
        ims_sms::rp_user_data(rp) == Err::<Seq<u8>, ImsError>(ImsError::NotRpData),
        ims_sms::rp_deliver(number::hex_upper(rp)) == Err::<ims_sms::Deliver, ImsError>(
            ImsError::NotRpData,
        ),
        ims_sms::rp_ack(number::hex_upper(rp)) == Err::<Seq<u8>, ImsError>(
            ImsError::CannotAcknowledge,
        ),
        ims_sms::rp_ack(number::hex_upper(seq![0u8])) == Err::<Seq<u8>, ImsError>(
            ImsError::CannotAcknowledge,
        ),
        ims_sms::rp_deliver(body) == Err::<ims_sms::Deliver, ImsError>(ImsError::BodyNotHex),
        ims_sms::rp_ack(body) == Err::<Seq<u8>, ImsError>(ImsError::BodyNotHex),
{
    number::law_hex_round_trip(rp);
    number::law_hex_round_trip(seq![0u8]);
}

/// What is refused in the parts of a message is refused with the same error in the whole.
pub proof fn law_refusals_passed_on(rp: Seq<u8>, tpdu: Seq<u8>, e: ImsError)
    ensures
        ims_sms::rp_user_data(rp) == Err::<Seq<u8>, ImsError>(e) ==> ims_sms::rp_deliver(
            number::hex_upper(rp),
        ) == Err::<ims_sms::Deliver, ImsError>(e),
        ims_sms::rp_user_data(rp) == Ok::<Seq<u8>, ImsError>(tpdu) ==> ims_sms::rp_deliver(
            number::hex_upper(rp),
        ) == ims_sms::deliver(tpdu),
{
    number::law_hex_round_trip(rp);
}

// ---------------------------------------------------------------------------------------------
// Bodies
// ---------------------------------------------------------------------------------------------
/// A body that writes a message in hexadecimal may use small letters and may hold white space
/// anywhere: what it writes is read.
pub proof fn law_written_body(rp: Seq<u8>, written: Seq<char>)
    requires
        forall|i: int|
            0 <= i < written.len() ==> text::is_hex_digit(#[trigger] written[i])
                || text::is_ascii_white_space(written[i]),
        text::uppercase(text::compact(written)) == number::hex_upper(rp),
    ensures
        ims_sms::body_hex(ims_sms::ascii_bytes(written)) == text::compact(written),
        number::hex_bytes(ims_sms::body_hex(ims_sms::ascii_bytes(written))) == Some(rp),
{
    let b = ims_sms::ascii_bytes(written);
    assert forall|i: int| 0 <= i < b.len() implies (#[trigger] b[i]) as char == written[i] by {
        assert(text::is_hex_digit(written[i]) || text::is_ascii_white_space(written[i]));
    }
    assert(ims_sms::latin_text(b) =~= written);
    assert forall|i: int| 0 <= i < b.len() implies text::is_hex_digit(#[trigger] b[i] as char)
        || text::is_ascii_white_space(b[i] as char) by {
        assert(text::is_hex_digit(written[i]) || text::is_ascii_white_space(written[i]));
    }
    text_laws::law_hex_read(text::compact(written));
    number::law_hex_round_trip(rp);
}

/// A body with a byte that is neither a hexadecimal digit nor white space is taken as bytes.
pub proof fn law_binary_body(body: Seq<u8>, i: int)
    requires
        0 <= i < body.len(),
        !(48 <= body[i] <= 57 || 65 <= body[i] <= 70 || 97 <= body[i] <= 102 || body[i] == 32
            || body[i] == 9 || body[i] == 10 || body[i] == 12 || body[i] == 13),
    ensures
        number::hex_bytes(ims_sms::body_hex(body)) == Some(body),
{
    assert(!text::is_hex_digit(body[i] as char) && !text::is_ascii_white_space(body[i] as char));
    number::law_hex_round_trip(body);
}

/// A marker tells by what it begins with and holds the digest of what it was made from, in
/// hexadecimal: the same source gives the same marker, and different digests give different ones.
pub proof fn law_marker(source: Seq<char>)
    ensures
        ({
            let marker = ims_sms::marker_of(source);
            let prefix = seq!['v', 'o', 'l', 't', 'e', '-', 'm', 't', ':'];
            &&& marker.len() >= 9
            &&& marker.take(9) == prefix
            &&& number::hex_bytes(marker.skip(9)) == Some(
                externals::md5_digest(vstd::utf8::encode_utf8(source)),
            )
            &&& text::lowercase(marker) == marker
        }),
{
    reveal_strlit("volte-mt:");
    let digest = externals::md5_digest(vstd::utf8::encode_utf8(source));
    let marker = ims_sms::marker_of(source);
    assert(marker.take(9) =~= seq!['v', 'o', 'l', 't', 'e', '-', 'm', 't', ':']);
    assert(marker.skip(9) =~= number::hex_lower(digest));
    number::law_hex_round_trip(digest);
    let h = number::hex_lower(digest);
    assert forall|i: int| 0 <= i < h.len() implies text::lower(#[trigger] h[i]) == h[i] by {
        let b = digest[i / 2] as int;
        assert(0 <= b / 16 < 16 && 0 <= b % 16 < 16);
    }
    assert forall|i: int| 0 <= i < marker.len() implies text::lower(#[trigger] marker[i])
        == marker[i] by {
        if i >= 9 {
            assert(marker[i] == h[i - 9]);
        }
    }
    assert(text::lowercase(marker) =~= marker);
}

/// A header without a place stays in the text: the message is read as if it had no header. A
/// header that is longer than the user data is refused.
pub proof fn law_header_without_place(
    first: u8,
    coding: u8,
    elements: Seq<(u8, Seq<u8>)>,
    rest: Seq<u8>,
    length: nat,
)
    requires
        (first / 64) % 2 == 1,
        (coding / 4) % 4 == 2,
        forall|k: int| 0 <= k < elements.len() ==> (#[trigger] elements[k]).1.len() <= 255
            && !is_place(elements[k]),
        ims_uim::encode_elements(elements).len() <= 255,
    ensures
        ({
            let data = data_header(elements) + rest;
            ims_sms::user_content(first, coding, data, length) == ims_sms::user_content(
                (first - 64) as u8,
                coding,
                data,
                length,
            )
        }),
{
    let data = data_header(elements) + rest;
    let bare = data_header(elements);
    let stop = bare.len() as int;
    assert(data[0] == stop - 1);
    assert(data.subrange(1, stop) =~= ims_uim::encode_elements(elements));
    lemma_elements_passed(data, stop, 1, elements);
    assert(ims_sms::concat_header(data) is None);
    let other = (first - 64) as u8;
    assert((other / 64) % 2 == 0);
}

// ---------------------------------------------------------------------------------------------
// Messages in several parts
// ---------------------------------------------------------------------------------------------
/// The contents of parts, in the order of their numbers.
pub open spec fn contents(parts: Seq<sms_reception::PartModel>) -> Seq<Seq<char>> {
    Seq::new(parts.len(), |i: int| parts[i].0)
}

/// The markers of parts, in the order of their numbers.
pub open spec fn markers(parts: Seq<sms_reception::PartModel>) -> Seq<Seq<char>> {
    Seq::new(parts.len(), |i: int| parts[i].1)
}

/// How many characters the first `k` of these texts have.
pub open spec fn total_length(texts: Seq<Seq<char>>, k: int) -> int
    decreases k,
{
    if k <= 0 {
        0
    } else {
        total_length(texts, k - 1) + texts[k - 1].len()
    }
}

proof fn lemma_joined(parts: Seq<sms_reception::PartModel>, n: int)
    requires
        0 <= n <= parts.len(),
    ensures
        ({
            let slots = parts.map_values(|p: sms_reception::PartModel| Some(p)).take(n);
            &&& sms_reception::joined_contents(slots) == contents(parts).take(n).flatten()
            &&& sms_reception::joined_markers(slots) == markers(parts).take(n).flatten()
        }),
    decreases n,
{
    let slots = parts.map_values(|p: sms_reception::PartModel| Some(p));
    if n > 0 {
        lemma_joined(parts, n - 1);
        assert(slots.take(n).drop_last() =~= slots.take(n - 1));
        assert(contents(parts).take(n) =~= contents(parts).take(n - 1).push(parts[n - 1].0));
        assert(markers(parts).take(n) =~= markers(parts).take(n - 1).push(parts[n - 1].1));
        contents(parts).take(n - 1).lemma_flatten_push(parts[n - 1].0);
        markers(parts).take(n - 1).lemma_flatten_push(parts[n - 1].1);
    } else {
        assert(contents(parts).take(0) =~= Seq::empty());
        assert(markers(parts).take(0) =~= Seq::empty());
    }
}

proof fn lemma_total_length(texts: Seq<Seq<char>>, k: int)
    ensures
        total_length(texts, k) >= 0,
    decreases k,
{
    if k > 0 {
        lemma_total_length(texts, k - 1);
    }
}

proof fn lemma_flat_piece(texts: Seq<Seq<char>>, k: int, n: int)
    requires
        0 <= k < n <= texts.len(),
    ensures
        texts.take(n).flatten().len() == total_length(texts, n),
        total_length(texts, k) + texts[k].len() <= total_length(texts, n),
        texts.take(n).flatten().subrange(
            total_length(texts, k),
            total_length(texts, k) + texts[k].len(),
        ) == texts[k],
    decreases n,
{
    let before = texts.take(n - 1);
    assert(texts.take(n) =~= before.push(texts[n - 1]));
    before.lemma_flatten_push(texts[n - 1]);
    let a = total_length(texts, k);
    let b = a + texts[k].len();
    lemma_total_length(texts, k);
    let flat = texts.take(n).flatten();
    if n == 1 {
        assert(before =~= Seq::empty());
        assert(before.flatten().len() == 0);
        assert(flat.subrange(a, b) =~= texts[k]);
    } else if k < n - 1 {
        lemma_flat_piece(texts, k, n - 1);
        assert(flat.subrange(a, b) =~= before.flatten().subrange(a, b));
    } else {
        lemma_flat_piece(texts, 0, n - 1);
        assert(flat.subrange(a, b) =~= texts[k]);
    }
}

/// The parts of a message, in whatever order they come in, make the message: its text is the
/// texts of the parts one after the other, nothing added and nothing lost, from the sender of the
/// parts. It comes with the last part, once, and nothing of it is kept.
pub proof fn law_parts_make_the_message(
    partials: sms_reception::PartialsModel,
    phone_number: Seq<char>,
    reference: u16,
    parts: Seq<sms_reception::PartModel>,
    order: Seq<int>,
)
    requires
        !partials.contains_key((phone_number, reference)),
        1 <= parts.len() <= 255,
        order.len() == parts.len(),
        order.no_duplicates(),
        forall|j: int| 0 <= j < order.len() ==> 0 <= #[trigger] order[j] < parts.len(),
    ensures
        ({
            let (kept, message) = sms_reception::absorb_parts(
                partials,
                phone_number,
                reference,
                parts,
                order,
            );
            &&& kept == partials
            &&& message is Some
            &&& (message->0).phone_number == phone_number
            &&& (message->0).content == contents(parts).flatten()
            &&& (message->0).marker == ims_sms::marker_of(markers(parts).flatten())
            &&& (message->0).concat is None
            &&& (message->0).content.len() == total_length(contents(parts), parts.len() as int)
            &&& forall|k: int|
                0 <= k < parts.len() ==> (message->0).content.subrange(
                    total_length(contents(parts), k),
                    total_length(contents(parts), k) + (#[trigger] parts[k]).0.len(),
                ) == parts[k].0
        }),
        forall|k: int|
            0 <= k < order.len() ==> (#[trigger] sms_reception::absorb_parts(
                partials,
                phone_number,
                reference,
                parts,
                order.take(k),
            )).1 is None,
{
    sms_reception::law_order_of_parts(partials, phone_number, reference, parts, order);
    let n = parts.len() as int;
    let slots = parts.map_values(|p: sms_reception::PartModel| Some(p));
    lemma_joined(parts, n);
    assert(slots.take(n) =~= slots);
    assert(contents(parts).take(n) =~= contents(parts));
    assert(markers(parts).take(n) =~= markers(parts));
    let content = contents(parts).flatten();
    lemma_flat_piece(contents(parts), 0, n);
    assert forall|k: int| 0 <= k < n implies content.subrange(
        total_length(contents(parts), k),
        total_length(contents(parts), k) + (#[trigger] parts[k]).0.len(),
    ) == parts[k].0 by {
        lemma_flat_piece(contents(parts), k, n);
    }
}

/// A message that is not a part of another one passes as it is.
pub proof fn law_whole_message_passes(
    partials: sms_reception::PartialsModel,
    sms: sms_reception::SmsModel,
)
    requires
        sms.concat is None,
    ensures
        sms_reception::absorb(partials, sms) == (partials, Some(sms)),
{
}

/// A part whose number its message cannot have is dropped.
pub proof fn law_impossible_part(
    partials: sms_reception::PartialsModel,
    sms: sms_reception::SmsModel,
)
    requires
        sms.concat is Some,
        (sms.concat->0).sequence == 0 || (sms.concat->0).sequence > (sms.concat->0).total,
    ensures
        sms_reception::absorb(partials, sms) == (partials, None::<sms_reception::SmsModel>),
{
}

/// A part that comes again replaces the earlier one: the earlier one might as well not have come.
pub proof fn law_newer_part_prevails(
    partials: sms_reception::PartialsModel,
    older: sms_reception::SmsModel,
    newer: sms_reception::SmsModel,
)
    requires
        older.concat is Some,
        newer.concat == older.concat,
        newer.phone_number == older.phone_number,
        sms_reception::absorb(partials, older).1 is None,
    ensures
        sms_reception::absorb(sms_reception::absorb(partials, older).0, newer)
            == sms_reception::absorb(partials, newer),
{
    let c = older.concat->0;
    if sms_reception::is_placeable(c) {
        let key = (older.phone_number, c.reference);
        let once = sms_reception::placed(partials, older, c);
        let kept = sms_reception::absorb(partials, older).0;
        assert(kept == partials.insert(key, once));
        assert(once.len() == c.total);
        let twice = sms_reception::placed(kept, newer, c);
        let direct = sms_reception::placed(partials, newer, c);
        assert(twice =~= direct);
        assert(kept.insert(key, twice) =~= partials.insert(key, direct));
        assert(kept.remove(key) =~= partials.remove(key));
    }
}

/// A part that says that its message has another number of parts than the ones before it begins
/// the message anew.
pub proof fn law_changed_total(
    partials: sms_reception::PartialsModel,
    sms: sms_reception::SmsModel,
)
    requires
        sms.concat is Some,
        sms_reception::is_placeable(sms.concat->0),
        ({
            let key = (sms.phone_number, (sms.concat->0).reference);
            partials.contains_key(key) && partials[key].len() != (sms.concat->0).total
        }),
    ensures
        sms_reception::absorb(partials, sms) == sms_reception::absorb(
            partials.remove((sms.phone_number, (sms.concat->0).reference)),
            sms,
        ),
{
    let c = sms.concat->0;
    let key = (sms.phone_number, c.reference);
    let fewer = partials.remove(key);
    let slots = sms_reception::placed(partials, sms, c);
    assert(sms_reception::placed(fewer, sms, c) == slots);
    assert(fewer.insert(key, slots) =~= partials.insert(key, slots));
    assert(fewer.remove(key) =~= partials.remove(key));
}

} // verus!

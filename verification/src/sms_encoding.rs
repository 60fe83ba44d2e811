//! How short messages are written, and the laws that what was written is read back.
use vstd::prelude::*;
use crate::error::ImsError;
use crate::ims_sms;
use crate::ims_sms::ConcatInfo;
use crate::number;
use crate::sms_reception;
use crate::sms_reception::SmsModel;

verus! {

// ---------------------------------------------------------------------------------------------
// Addresses
// ---------------------------------------------------------------------------------------------
/// Two digits in a byte, the first in its lower half; a missing second one is filled up.
pub open spec fn semi_octet(digits: Seq<u8>, i: int) -> u8 {
    if 2 * i + 1 < digits.len() {
        (digits[2 * i] + 16 * digits[2 * i + 1]) as u8
    } else {
        (digits[2 * i] + 0xf0) as u8
    }
}

/// An address with its type and its digits.
pub open spec fn address_field(kind: u8, digits: Seq<u8>) -> Seq<u8> {
    seq![kind] + Seq::new((digits.len() + 1) / 2, |i: int| semi_octet(digits, i))
}

/// The number that an address with the given type and digits stands for.
pub open spec fn dialled(kind: u8, digits: Seq<u8>) -> Seq<char> {
    let number = digits.map_values(|n: u8| number::digit(n as int));
    if (kind / 16) % 8 == 1 {
        "+"@ + number
    } else {
        number
    }
}

/// Decimal digits.
pub open spec fn are_digits(digits: Seq<u8>) -> bool {
    forall|i: int| 0 <= i < digits.len() ==> #[trigger] digits[i] <= 9
}

proof fn lemma_filter_digits(digits: Seq<u8>, filled: bool)
    requires
        are_digits(digits),
    ensures
        (if filled {
            digits.push(15)
        } else {
            digits
        }).filter(|n: u8| n <= 9) == digits,
    decreases digits.len(), (if filled { 1int } else { 0 }),
{
    reveal(Seq::filter);
    let p = |n: u8| n <= 9;
    if filled {
        lemma_filter_digits(digits, false);
        assert(digits.push(15).drop_last() =~= digits);
    } else if digits.len() > 0 {
        assert(digits.last() <= 9);
        assert forall|i: int| 0 <= i < digits.drop_last().len() implies #[trigger] digits.drop_last()[i]
            <= 9 by {
            assert(digits.drop_last()[i] == digits[i]);
        }
        lemma_filter_digits(digits.drop_last(), false);
        assert(digits.drop_last().push(digits.last()) =~= digits);
    }
}

/// An address that was written is read back, whatever follows it.
pub proof fn law_address_read_back(kind: u8, digits: Seq<u8>, rest: Seq<u8>)
    requires
        are_digits(digits),
    ensures
        ims_sms::address(address_field(kind, digits) + rest, digits.len()) == Some(
            (dialled(kind, digits), address_field(kind, digits).len()),
        ),
{
    let n = digits.len();
    let octets = (n + 1) / 2;
    let bytes = address_field(kind, digits) + rest;
    let part = bytes.subrange(1, 1 + octets as int);
    let nibbles = ims_sms::swapped_nibbles(part);
    let filled = n % 2 == 1;
    let expected = if filled {
        digits.push(15)
    } else {
        digits
    };
    assert forall|i: int| 0 <= i < expected.len() implies nibbles[i] == expected[i] by {
        let j = i / 2;
        assert(part[j] == semi_octet(digits, j));
        assert(digits[2 * j] <= 9);
        if 2 * j + 1 < n {
            assert(digits[2 * j + 1] <= 9);
        }
    }
    assert(nibbles =~= expected);
    lemma_filter_digits(digits, filled);
    assert(bytes[0] == kind);
}

// ---------------------------------------------------------------------------------------------
// UTF-16
// ---------------------------------------------------------------------------------------------
/// The code units of a text in UTF-16.
pub open spec fn encode_utf16(s: Seq<char>) -> Seq<u16>
    decreases s.len(),
{
    if s.len() == 0 {
        Seq::empty()
    } else {
        let code = s[0] as int;
        if code < 0x10000 {
            seq![code as u16] + encode_utf16(s.skip(1))
        } else {
            seq![
                (0xD800 + (code - 0x10000) / 0x400) as u16,
                (0xDC00 + (code - 0x10000) % 0x400) as u16,
            ] + encode_utf16(s.skip(1))
        }
    }
}

/// The bytes of code units, the higher byte of each first.
pub open spec fn unit_bytes(units: Seq<u16>) -> Seq<u8> {
    Seq::new(2 * units.len(), |i: int| unit_byte(units, i))
}

/// The `i`-th byte of code units.
pub open spec fn unit_byte(units: Seq<u16>, i: int) -> u8 {
    if i % 2 == 0 {
        (units[i / 2] / 256) as u8
    } else {
        (units[i / 2] % 256) as u8
    }
}

/// A character is a Unicode scalar value.
pub proof fn lemma_code_point(c: char)
    ensures
        0 <= c as int <= 0x10ffff,
        !(0xD800 <= c as int <= 0xDFFF),
        (c as int) as char == c,
{
}

/// A text that was written in UTF-16 is read back.
pub proof fn law_utf16_read_back(s: Seq<char>)
    ensures
        ims_sms::decode_utf16(encode_utf16(s)) == Some(s),
    decreases s.len(),
{
    if s.len() > 0 {
        let rest = encode_utf16(s.skip(1));
        let units = encode_utf16(s);
        law_utf16_read_back(s.skip(1));
        let c = s[0];
        let code = c as int;
        lemma_code_point(c);
        assert(seq![c] + s.skip(1) =~= s);
        if code < 0x10000 {
            assert(units.skip(1) =~= rest);
            assert(units[0] == code as u16);
            assert(units[0] as char == c);
        } else {
            assert(units.skip(2) =~= rest);
            let high = units[0];
            let low = units[1];
            assert(high == 0xD800 + (code - 0x10000) / 0x400);
            assert(low == 0xDC00 + (code - 0x10000) % 0x400);
            assert(0x10000 + (high - 0xD800) * 0x400 + (low - 0xDC00) == code);
        }
    }
}

/// Code units that were written as bytes are read back.
pub proof fn lemma_units_read(units: Seq<u16>)
    ensures
        ims_sms::code_units(unit_bytes(units)) == units,
{
    let bytes = unit_bytes(units);
    assert forall|i: int| 0 <= i < units.len() implies ims_sms::code_units(bytes)[i] == units[i] by {
        assert((2 * i) / 2 == i && (2 * i + 1) / 2 == i);
        assert(bytes[2 * i] == units[i] / 256);
        assert(bytes[2 * i + 1] == units[i] % 256);
    }
    assert(ims_sms::code_units(bytes) =~= units);
}

// ---------------------------------------------------------------------------------------------
// Packed groups of seven bits
// ---------------------------------------------------------------------------------------------
/// The `m`-th bit of groups of seven bits, the lowest bit of each first; zero behind the end.
pub open spec fn group_bit(values: Seq<u8>, m: int) -> u8 {
    if 0 <= m / 7 < values.len() {
        (values[m / 7] >> ((m % 7) as u8)) & 1
    } else {
        0
    }
}

/// The `j`-th byte of packed groups of seven bits.
pub open spec fn packed_byte(values: Seq<u8>, j: int) -> u8 {
    (group_bit(values, 8 * j) | (group_bit(values, 8 * j + 1) << 1) | (group_bit(values, 8 * j + 2)
        << 2) | (group_bit(values, 8 * j + 3) << 3) | (group_bit(values, 8 * j + 4) << 4) | (
    group_bit(values, 8 * j + 5) << 5) | (group_bit(values, 8 * j + 6) << 6) | (group_bit(
        values,
        8 * j + 7,
    ) << 7))
}

/// Groups of seven bits, packed.
pub open spec fn packed(values: Seq<u8>) -> Seq<u8> {
    Seq::new((7 * values.len() + 7) / 8, |j: int| packed_byte(values, j))
}

proof fn lemma_group_bit_small(values: Seq<u8>, m: int)
    ensures
        group_bit(values, m) <= 1,
{
    if 0 <= m / 7 < values.len() {
        let v = values[m / 7];
        let k = (m % 7) as u8;
        assert((v >> k) & 1 <= 1) by (bit_vector);
    }
}

proof fn lemma_bit_of_byte(
    a: u8,
    b: u8,
    c: u8,
    d: u8,
    e: u8,
    f: u8,
    g: u8,
    h: u8,
    k: u8,
)
    by (bit_vector)
    requires
        a <= 1,
        b <= 1,
        c <= 1,
        d <= 1,
        e <= 1,
        f <= 1,
        g <= 1,
        h <= 1,
        k < 8,
    ensures
        ((a | (b << 1) | (c << 2) | (d << 3) | (e << 4) | (f << 5) | (g << 6) | (h << 7)) >> k) & 1
            == (if k == 0 {
            a
        } else if k == 1 {
            b
        } else if k == 2 {
            c
        } else if k == 3 {
            d
        } else if k == 4 {
            e
        } else if k == 5 {
            f
        } else if k == 6 {
            g
        } else {
            h
        }),
{
}

proof fn lemma_packed_bit(values: Seq<u8>, m: int)
    requires
        0 <= m < 7 * values.len(),
    ensures
        ims_sms::data_bit(packed(values), m) == group_bit(values, m),
{
    let j = m / 8;
    let k = (m % 8) as u8;
    lemma_group_bit_small(values, 8 * j);
    lemma_group_bit_small(values, 8 * j + 1);
    lemma_group_bit_small(values, 8 * j + 2);
    lemma_group_bit_small(values, 8 * j + 3);
    lemma_group_bit_small(values, 8 * j + 4);
    lemma_group_bit_small(values, 8 * j + 5);
    lemma_group_bit_small(values, 8 * j + 6);
    lemma_group_bit_small(values, 8 * j + 7);
    lemma_bit_of_byte(
        group_bit(values, 8 * j),
        group_bit(values, 8 * j + 1),
        group_bit(values, 8 * j + 2),
        group_bit(values, 8 * j + 3),
        group_bit(values, 8 * j + 4),
        group_bit(values, 8 * j + 5),
        group_bit(values, 8 * j + 6),
        group_bit(values, 8 * j + 7),
        k,
    );
    assert(j < packed(values).len());
    assert(packed(values)[j] == packed_byte(values, j));
    assert(m == 8 * j + k);
}

proof fn lemma_own_bit(values: Seq<u8>, i: int, k: u8)
    requires
        0 <= i < values.len(),
        k < 7,
    ensures
        ims_sms::data_bit(packed(values), 7 * i + k) == (values[i] >> k) & 1,
{
    let m = 7 * i + k;
    assert(m / 7 == i && m % 7 == k);
    lemma_packed_bit(values, m);
}

/// Each group of seven bits is found again among the packed ones.
pub proof fn lemma_packed_group(values: Seq<u8>, i: int)
    requires
        0 <= i < values.len(),
        values[i] < 128,
    ensures
        ims_sms::septet(packed(values), i) == values[i],
{
    lemma_own_bit(values, i, 0);
    lemma_own_bit(values, i, 1);
    lemma_own_bit(values, i, 2);
    lemma_own_bit(values, i, 3);
    lemma_own_bit(values, i, 4);
    lemma_own_bit(values, i, 5);
    lemma_own_bit(values, i, 6);
    ims_sms::lemma_group_of_bits(values[i]);
}

/// Groups of seven bits that were packed are read back.
pub proof fn law_packed_read_back(values: Seq<u8>)
    requires
        forall|i: int| 0 <= i < values.len() ==> #[trigger] values[i] < 128,
    ensures
        ims_sms::packed_text(packed(values), values.len()) == values.map_values(
            |v: u8| ims_sms::gsm7_text(v as int),
        ),
{
    let text = ims_sms::packed_text(packed(values), values.len());
    let expected = values.map_values(|v: u8| ims_sms::gsm7_text(v as int));
    assert forall|i: int| 0 <= i < values.len() implies text[i] == expected[i] by {
        assert(values[i] < 128);
        lemma_packed_group(values, i);
    }
    assert(text =~= expected);
}

// ---------------------------------------------------------------------------------------------
// Messages
// ---------------------------------------------------------------------------------------------
/// An SMS-DELIVER with the given first byte, address, coding scheme, time stamp and user data.
pub open spec fn sms_deliver(
    first: u8,
    kind: u8,
    digits: Seq<u8>,
    protocol: u8,
    coding: u8,
    time: Seq<u8>,
    length: u8,
    data: Seq<u8>,
) -> Seq<u8> {
    seq![first, digits.len() as u8] + address_field(kind, digits) + seq![protocol, coding] + time
        + seq![length] + data
}

/// The parts of an SMS-DELIVER are found where they were written.
pub proof fn law_deliver_parts(
    first: u8,
    kind: u8,
    digits: Seq<u8>,
    protocol: u8,
    coding: u8,
    time: Seq<u8>,
    length: u8,
    data: Seq<u8>,
)
    requires
        first % 4 == 0,
        are_digits(digits),
        digits.len() <= 255,
        time.len() == 7,
    ensures
        ims_sms::deliver(
            sms_deliver(first, kind, digits, protocol, coding, time, length, data),
        ) == match ims_sms::user_content(first, coding, data, length as nat) {
            Ok((content, concat)) => Ok::<ims_sms::Deliver, ImsError>(
                (dialled(kind, digits), content, concat),
            ),
            Err(e) => Err(e),
        },
{
    let tpdu = sms_deliver(first, kind, digits, protocol, coding, time, length, data);
    let field = address_field(kind, digits);
    let rest = seq![protocol, coding] + time + seq![length] + data;
    assert(tpdu.skip(2) =~= field + rest);
    law_address_read_back(kind, digits, rest);
    let at = 2 + field.len() + 9;
    assert(tpdu[0] == first && tpdu[1] == digits.len());
    assert(tpdu[2 + field.len() as int + 1] == coding);
    assert(tpdu[at as int] == length);
    assert(tpdu.skip(at as int + 1) =~= data);
}

/// The text of a message in UCS-2 is read back.
pub proof fn law_ucs2_message_read_back(
    first: u8,
    kind: u8,
    digits: Seq<u8>,
    protocol: u8,
    coding: u8,
    time: Seq<u8>,
    content: Seq<char>,
)
    requires
        first % 4 == 0,
        (first / 64) % 2 == 0,
        are_digits(digits),
        digits.len() <= 255,
        (coding / 4) % 4 == 2,
        time.len() == 7,
        2 * encode_utf16(content).len() <= 255,
    ensures
        ({
            let data = unit_bytes(encode_utf16(content));
            ims_sms::deliver(
                sms_deliver(
                    first,
                    kind,
                    digits,
                    protocol,
                    coding,
                    time,
                    data.len() as u8,
                    data,
                ),
            ) == Ok::<ims_sms::Deliver, ImsError>((dialled(kind, digits), content, None))
        }),
{
    let data = unit_bytes(encode_utf16(content));
    law_deliver_parts(first, kind, digits, protocol, coding, time, data.len() as u8, data);
    law_utf16_read_back(content);
    lemma_units_read(encode_utf16(content));
    assert(data.subrange(0, data.len() as int) =~= data);
}

/// The text of a part of a message in UCS-2 and its place in the message are read back.
pub proof fn law_ucs2_part_read_back(
    first: u8,
    kind: u8,
    digits: Seq<u8>,
    protocol: u8,
    coding: u8,
    time: Seq<u8>,
    info: ConcatInfo,
    content: Seq<char>,
)
    requires
        first % 4 == 0,
        (first / 64) % 2 == 1,
        are_digits(digits),
        digits.len() <= 255,
        (coding / 4) % 4 == 2,
        time.len() == 7,
        info.reference <= 0xff,
        6 + 2 * encode_utf16(content).len() <= 255,
    ensures
        ({
            let data = seq![5u8, 0x00u8, 3u8, info.reference as u8, info.total, info.sequence]
                + unit_bytes(encode_utf16(content));
            ims_sms::deliver(
                sms_deliver(
                    first,
                    kind,
                    digits,
                    protocol,
                    coding,
                    time,
                    data.len() as u8,
                    data,
                ),
            ) == Ok::<ims_sms::Deliver, ImsError>((dialled(kind, digits), content, Some(info)))
        }),
{
    let text = unit_bytes(encode_utf16(content));
    let data = seq![5u8, 0x00u8, 3u8, info.reference as u8, info.total, info.sequence] + text;
    law_deliver_parts(first, kind, digits, protocol, coding, time, data.len() as u8, data);
    ims_sms::law_concat_header(info, text);
    law_utf16_read_back(content);
    lemma_units_read(encode_utf16(content));
    assert(data.subrange(6, data.len() as int) =~= text);
}

/// The text of a message in the default alphabet is read back.
pub proof fn law_packed_message_read_back(
    first: u8,
    kind: u8,
    digits: Seq<u8>,
    protocol: u8,
    coding: u8,
    time: Seq<u8>,
    values: Seq<u8>,
)
    requires
        first % 4 == 0,
        are_digits(digits),
        digits.len() <= 255,
        (coding / 4) % 4 == 0,
        time.len() == 7,
        values.len() <= 255,
        forall|i: int| 0 <= i < values.len() ==> #[trigger] values[i] < 128,
    ensures
        ims_sms::deliver(
            sms_deliver(
                first,
                kind,
                digits,
                protocol,
                coding,
                time,
                values.len() as u8,
                packed(values),
            ),
        ) == Ok::<ims_sms::Deliver, ImsError>(
            (
                dialled(kind, digits),
                values.map_values(|v: u8| ims_sms::gsm7_text(v as int)),
                None,
            ),
        ),
{
    law_deliver_parts(
        first,
        kind,
        digits,
        protocol,
        coding,
        time,
        values.len() as u8,
        packed(values),
    );
    law_packed_read_back(values);
}

/// What an RP-DATA message carries is read back from its body, in both forms of a body.
pub proof fn law_carried_message_read_back(
    reference: u8,
    originator: Seq<u8>,
    destination: Seq<u8>,
    tpdu: Seq<u8>,
)
    requires
        originator.len() <= 255,
        destination.len() <= 255,
        tpdu.len() <= 255,
    ensures
        ({
            let rp = ims_sms::rp_data(reference, originator, destination, tpdu);
            &&& ims_sms::rp_deliver(ims_sms::body_hex(rp)) == ims_sms::deliver(tpdu)
            &&& ims_sms::rp_deliver(
                ims_sms::body_hex(ims_sms::ascii_bytes(number::hex_upper(rp))),
            ) == ims_sms::deliver(tpdu)
        }),
{
    let rp = ims_sms::rp_data(reference, originator, destination, tpdu);
    assert(rp.len() > 0 && rp[0] == 0x00) by {
        let head = seq![0x00u8, reference, originator.len() as u8];
        assert(rp[0] == head[0]);
    }
    assert(number::hex_bytes(ims_sms::body_hex(rp)) == Some(rp) && ims_sms::body_hex(
        ims_sms::ascii_bytes(number::hex_upper(rp)),
    ) == ims_sms::body_hex(rp)) by {
        ims_sms::law_body_forms(rp);
        number::law_hex_round_trip(rp);
    }
    ims_sms::law_rp_user_data(reference, originator, destination, tpdu);
    lemma_carried(ims_sms::body_hex(rp), rp, tpdu);
}

proof fn lemma_carried(body: Seq<char>, rp: Seq<u8>, tpdu: Seq<u8>)
    requires
        number::hex_bytes(body) == Some(rp),
        ims_sms::rp_user_data(rp) == Ok::<Seq<u8>, ImsError>(tpdu),
    ensures
        ims_sms::rp_deliver(body) == ims_sms::deliver(tpdu),
{
}

/// What an RP-DATA message carries is taken for a short message, with a marker that depends on
/// the message alone and not on the form of its body.
pub proof fn law_short_message_taken(
    reference: u8,
    originator: Seq<u8>,
    destination: Seq<u8>,
    tpdu: Seq<u8>,
)
    requires
        originator.len() <= 255,
        destination.len() <= 255,
        tpdu.len() <= 255,
        ims_sms::deliver(tpdu) is Ok,
    ensures
        ({
            let rp = ims_sms::rp_data(reference, originator, destination, tpdu);
            let (phone_number, content, concat) = ims_sms::deliver(tpdu)->Ok_0;
            let sms = SmsModel {
                phone_number,
                content,
                marker: ims_sms::marker_of(number::hex_upper(rp)),
                concat,
            };
            &&& sms_reception::sms_in(rp) == Some(sms)
            &&& sms_reception::sms_in(ims_sms::ascii_bytes(number::hex_upper(rp))) == Some(sms)
        }),
{
    let rp = ims_sms::rp_data(reference, originator, destination, tpdu);
    law_carried_message_read_back(reference, originator, destination, tpdu);
    assert(rp.len() > 0 && rp[0] == 0x00) by {
        let head = seq![0x00u8, reference, originator.len() as u8];
        assert(rp[0] == head[0]);
    }
    ims_sms::law_body_forms(rp);
}

} // verus!

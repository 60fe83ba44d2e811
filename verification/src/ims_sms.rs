//! Decoding of MT SMS carried in 3GPP IMS SIP MESSAGE bodies.
use vstd::prelude::*;
use vstd::slice::{slice_subrange, slice_to_vec};
use crate::error::ImsError;
use crate::externals;
use crate::externals::{md5_compute, utf8_text, utf8_text_lossy};
use crate::ipv6;
use crate::ipv6::Ipv6Addr;
use crate::number;
use crate::number::{
    digit_char, push_decimal, read_hex, read_unsigned, to_hex_lower, to_hex_upper,
};
use crate::sip_encoding;
use crate::sip_headers::SipHeaders;
use crate::text;
use crate::text::{
    chars_of, find_char, lines_of, split_at_char, string_of, to_lowercase, trimmed,
    without_white_space, words_of,
};

verus! {

/// A short message that came in through IMS.
#[derive(Debug, Clone, PartialEq, Eq)]
pub struct IncomingImsSms {
    pub phone_number: String,
    pub content: String,
    pub marker: String,
    pub concat: Option<ConcatInfo>,
}

/// The place of a part in a message that was sent in several parts.
#[derive(Debug, Clone, Copy, PartialEq, Eq, Structural)]
pub struct ConcatInfo {
    pub reference: u16,
    pub total: u8,
    pub sequence: u8,
}

// ---------------------------------------------------------------------------------------------
// Hexadecimal bodies
// ---------------------------------------------------------------------------------------------
/// The bytes that `input` writes in hexadecimal.
pub fn decode_hex(input: &str) -> (r: Result<Vec<u8>, ImsError>)
    ensures
        match r {
            Ok(bytes) => number::hex_bytes(input@) == Some(bytes@),
            Err(e) => number::hex_bytes(input@) is None && e == ImsError::BodyNotHex,
        },
{
    let chars = chars_of(input);
    match read_hex(&chars) {
        Some(bytes) => Ok(bytes),
        None => Err(ImsError::BodyNotHex),
    }
}

/// Bytes as characters, each with the code of a byte.
pub open spec fn latin_text(bytes: Seq<u8>) -> Seq<char> {
    bytes.map_values(|b: u8| b as char)
}

/// A body that is hexadecimal text: nothing but hexadecimal digits and white space.
pub open spec fn is_hex_body(body: Seq<u8>) -> bool {
    forall|i: int|
        0 <= i < body.len() ==> text::is_hex_digit(#[trigger] body[i] as char)
            || text::is_ascii_white_space(body[i] as char)
}

/// The hexadecimal text of a body: its own text without white space, or else its bytes written
/// in hexadecimal.
pub open spec fn body_hex(body: Seq<u8>) -> Seq<char> {
    if is_hex_body(body) {
        text::compact(latin_text(body))
    } else {
        number::hex_upper(body)
    }
}

/// The hexadecimal text of a body.
pub fn body_hex_text(body: &[u8]) -> (s: String)
    ensures
        s@ == body_hex(body@),
{
    let mut chars: Vec<char> = Vec::new();
    let mut i: usize = 0;
    while i < body.len()
        invariant
            i <= body.len(),
            chars@ == latin_text(body@.take(i as int)),
            forall|j: int|
                0 <= j < i ==> text::is_hex_digit(#[trigger] body@[j] as char)
                    || text::is_ascii_white_space(body@[j] as char),
        decreases body.len() - i,
    {
        let c = body[i] as char;
        if !text::char_is_hex_digit(c) && !text::char_is_ascii_white_space(c) {
            assert(!is_hex_body(body@));
            return to_hex_upper(body);
        }
        chars.push(c);
        i += 1;
        assert(chars@ =~= latin_text(body@.take(i as int)));
    }
    assert(body@.take(i as int) =~= body@);
    string_of(&without_white_space(&chars))
}

// ---------------------------------------------------------------------------------------------
// Addresses
// ---------------------------------------------------------------------------------------------
/// The halves of bytes, the lower half of each byte first.
pub open spec fn swapped_nibbles(bytes: Seq<u8>) -> Seq<u8> {
    Seq::new(
        2 * bytes.len(),
        |i: int|
            if i % 2 == 0 {
                bytes[i / 2] % 16
            } else {
                bytes[i / 2] / 16
            },
    )
}

/// At most the first `limit` of the nibbles that are decimal digits, as text.
pub open spec fn dial_digits(nibbles: Seq<u8>, limit: nat) -> Seq<char> {
    let digits = nibbles.filter(|n: u8| n <= 9).map_values(|n: u8| number::digit(n as int));
    if digits.len() <= limit {
        digits
    } else {
        digits.take(limit as int)
    }
}

/// An address: its type, then `digits` digits, two in each byte. Gives the number, with a plus
/// sign if the type says that it is international, and the length of the address.
pub open spec fn address(bytes: Seq<u8>, digits: nat) -> Option<(Seq<char>, nat)> {
    let octets = (digits + 1) / 2;
    if bytes.len() < octets + 1 {
        None
    } else {
        let number = dial_digits(swapped_nibbles(bytes.subrange(1, 1 + octets as int)), digits);
        if (bytes[0] / 16) % 8 == 1 {
            Some(("+"@ + number, (octets + 1) as nat))
        } else {
            Some((number, (octets + 1) as nat))
        }
    }
}

proof fn lemma_dial_digits_step(nibbles: Seq<u8>, n: u8, limit: nat)
    ensures
        dial_digits(nibbles.push(n), limit) == if n <= 9 && dial_digits(nibbles, limit).len()
            < limit {
            dial_digits(nibbles, limit).push(number::digit(n as int))
        } else {
            dial_digits(nibbles, limit)
        },
{
    reveal(Seq::filter);
    let p = |n: u8| n <= 9;
    let f = |n: u8| number::digit(n as int);
    assert(nibbles.push(n).drop_last() =~= nibbles);
    let before = nibbles.filter(p).map_values(f);
    let after = nibbles.push(n).filter(p).map_values(f);
    if n <= 9 {
        assert(after =~= before.push(number::digit(n as int)));
        if before.len() >= limit {
            assert(after.take(limit as int) =~= before.take(limit as int));
            assert(before.take(before.len() as int) =~= before);
        }
    } else {
        assert(after =~= before);
    }
}

/// The number in an address of `digits` digits, and the length of the address.
pub fn decode_address(bytes: &[u8], digits: usize) -> (r: Result<(String, usize), ImsError>)
    ensures
        match r {
            Ok((number, length)) => address(bytes@, digits as nat) == Some(
                (number@, length as nat),
            ),
            Err(e) => address(bytes@, digits as nat) is None && e == ImsError::TruncatedAddress,
        },
{
    let octets: usize = digits / 2 + digits % 2;
    assert(octets == (digits + 1) / 2);
    if bytes.len() <= octets {
        return Err(ImsError::TruncatedAddress);
    }
    let toa = bytes[0];
    let packed = slice_subrange(bytes, 1, octets + 1);
    let ghost nibbles = swapped_nibbles(packed@);
    let mut number: Vec<char> = Vec::new();
    let mut i: usize = 0;
    assert(nibbles.take(0) =~= Seq::empty());
    proof {
        reveal(Seq::filter);
        assert(number@ =~= dial_digits(nibbles.take(0), digits as nat));
    }
    while i < packed.len()
        invariant
            i <= packed.len(),
            nibbles == swapped_nibbles(packed@),
            number@ == dial_digits(nibbles.take(2 * i), digits as nat),
        decreases packed.len() - i,
    {
        let byte = packed[i];
        let low = byte & 0x0f;
        let high = byte >> 4;
        assert(low == byte % 16 && high == byte / 16) by (bit_vector)
            requires
                low == byte & 0x0f,
                high == byte >> 4,
        ;
        proof {
            assert(nibbles.take(2 * i + 1) =~= nibbles.take(2 * i).push(low));
            assert(nibbles.take(2 * i + 2) =~= nibbles.take(2 * i + 1).push(high));
            lemma_dial_digits_step(nibbles.take(2 * i), low, digits as nat);
            lemma_dial_digits_step(nibbles.take(2 * i + 1), high, digits as nat);
        }
        if number.len() < digits && low <= 9 {
            number.push(digit_char(low));
        }
        if number.len() < digits && high <= 9 {
            number.push(digit_char(high));
        }
        i += 1;
    }
    assert(nibbles.take(2 * i) =~= nibbles);
    assert((toa & 0x70 == 0x10) == ((toa / 16) % 8 == 1)) by (bit_vector);
    let digits_text = string_of(&number);
    if toa & 0x70 == 0x10 {
        let mut s = "+".to_owned();
        s.append(&digits_text);
        Ok((s, octets + 1))
    } else {
        Ok((digits_text, octets + 1))
    }
}

// ---------------------------------------------------------------------------------------------
// User data
// ---------------------------------------------------------------------------------------------
/// The character for a value of the default alphabet. Letters, digits and the common signs have
/// their ASCII codes; other values have a stand-in.
pub open spec fn gsm7_text(value: int) -> char {
    if value == 0x0a {
        '\n'
    } else if value == 0x0d {
        '\r'
    } else if value < 0x20 {
        ' '
    } else if value < 0x7f {
        value as char
    } else {
        '?'
    }
}

/// The byte at an index; zero behind the end.
pub open spec fn byte_at(data: Seq<u8>, i: int) -> u8 {
    if 0 <= i < data.len() {
        data[i]
    } else {
        0
    }
}

/// The `n`-th bit of the data, the lowest bit of each byte first.
pub open spec fn data_bit(data: Seq<u8>, n: int) -> int {
    ((byte_at(data, n / 8) >> ((n % 8) as u8)) & 1) as int
}

/// The `i`-th group of seven bits.
pub open spec fn septet(data: Seq<u8>, i: int) -> int {
    data_bit(data, 7 * i) + 2 * data_bit(data, 7 * i + 1) + 4 * data_bit(data, 7 * i + 2) + 8
        * data_bit(data, 7 * i + 3) + 16 * data_bit(data, 7 * i + 4) + 32 * data_bit(
        data,
        7 * i + 5,
    ) + 64 * data_bit(data, 7 * i + 6)
}

/// The text of packed groups of seven bits.
pub open spec fn packed_text(data: Seq<u8>, septets: nat) -> Seq<char> {
    Seq::new(septets, |i: int| gsm7_text(septet(data, i)))
}

/// The character for a value of the default alphabet.
pub fn gsm7_char(value: u8) -> (c: char)
    ensures
        c == gsm7_text(value as int),
        0x20 <= value <= 0x7e ==> c as int == value,
        value < 0x20 && value != 0x0a && value != 0x0d ==> c == ' ',
        value >= 0x7f ==> c == '?',
{
    if value < 0x20 {
        if value == 0x0a {
            return '\n';
        }
        if value == 0x0d {
            return '\r';
        }
        return ' ';
    }
    if value < 0x7f {
        return value as char;
    }
    '?'
}

/// The seven bits from bit `shift` of `low` on, which may reach into `high`.
spec fn shifted(low: u8, high: u8, shift: u8) -> u8 {
    if shift <= 1 {
        (low >> shift) & 0x7f
    } else {
        ((low >> shift) & 0x7f | (high << ((8 - shift) as u8))) & 0x7f
    }
}

proof fn lemma_shifted_bit(low: u8, high: u8, shift: u8, k: u8)
    by (bit_vector)
    requires
        shift < 8,
        k < 7,
    ensures
        shifted(low, high, shift) < 128,
        (shifted(low, high, shift) >> k) & 1 == (if shift + k < 8 {
            (low >> ((shift + k) as u8)) & 1
        } else {
            (high >> ((shift + k - 8) as u8)) & 1
        }),
{
}

/// A group of seven bits is the sum of its bits.
pub proof fn lemma_group_of_bits(v: u8)
    by (bit_vector)
    requires
        v < 128,
    ensures
        ((v >> 0) & 1) + 2 * ((v >> 1) & 1) + 4 * ((v >> 2) & 1) + 8 * ((v >> 3) & 1) + 16 * ((v
            >> 4) & 1) + 32 * ((v >> 5) & 1) + 64 * ((v >> 6) & 1) == v,
{
}

proof fn lemma_septet_bit(data: Seq<u8>, i: int, shift: u8, k: u8)
    requires
        0 <= i,
        shift == (7 * i) % 8,
        k < 7,
    ensures
        ({
            let value = shifted(
                byte_at(data, (7 * i) / 8),
                byte_at(data, (7 * i) / 8 + 1),
                shift,
            );
            value < 128 && data_bit(data, 7 * i + k) == (value >> k) & 1
        }),
{
    let n = 7 * i;
    lemma_shifted_bit(byte_at(data, n / 8), byte_at(data, n / 8 + 1), shift, k);
    if shift + k < 8 {
        assert((n + k) / 8 == n / 8 && (n + k) % 8 == shift + k);
    } else {
        assert((n + k) / 8 == n / 8 + 1 && (n + k) % 8 == shift + k - 8);
    }
}

proof fn lemma_septet(data: Seq<u8>, i: int, shift: u8)
    requires
        0 <= i,
        shift == (7 * i) % 8,
    ensures
        septet(data, i) == shifted(
            byte_at(data, (7 * i) / 8),
            byte_at(data, (7 * i) / 8 + 1),
            shift,
        ),
{
    lemma_septet_bit(data, i, shift, 0);
    lemma_septet_bit(data, i, shift, 1);
    lemma_septet_bit(data, i, shift, 2);
    lemma_septet_bit(data, i, shift, 3);
    lemma_septet_bit(data, i, shift, 4);
    lemma_septet_bit(data, i, shift, 5);
    lemma_septet_bit(data, i, shift, 6);
    lemma_group_of_bits(
        shifted(byte_at(data, (7 * i) / 8), byte_at(data, (7 * i) / 8 + 1), shift),
    );
}

/// The text of `septets` packed groups of seven bits.
pub fn decode_gsm7(data: &[u8], septets: usize) -> (s: String)
    requires
        7 * septets <= usize::MAX,
    ensures
        s@ == packed_text(data@, septets as nat),
{
    let mut s = String::new();
    let mut i: usize = 0;
    while i < septets
        invariant
            i <= septets,
            7 * septets <= usize::MAX,
            s@ == packed_text(data@, i as nat),
        decreases septets - i,
    {
        let bit: usize = i * 7;
        let byte: usize = bit / 8;
        let shift: u8 = (bit % 8) as u8;
        let low: u8 = if byte < data.len() {
            data[byte]
        } else {
            0
        };
        let mut value: u8 = (low >> shift) & 0x7f;
        if shift > 1 {
            let high: u8 = if byte + 1 < data.len() {
                data[byte + 1]
            } else {
                0
            };
            value = (value | (high << (8 - shift))) & 0x7f;
        }
        proof {
            lemma_septet(data@, i as int, shift);
        }
        s.push(gsm7_char(value));
        i += 1;
        assert(s@ =~= packed_text(data@, i as nat));
    }
    s
}

/// The concatenation element among the information elements from index `i` to `end`. There is
/// none if an element before it is cut short.
pub open spec fn find_concat(data: Seq<u8>, end: int, i: int) -> Option<ConcatInfo>
    decreases end - i,
{
    if i + 2 > end || i + 2 + data[i + 1] > end {
        None
    } else if data[i] == 0x00 && data[i + 1] == 3 {
        Some(
            ConcatInfo {
                reference: data[i + 2] as u16,
                total: data[i + 3],
                sequence: data[i + 4],
            },
        )
    } else if data[i] == 0x08 && data[i + 1] == 4 {
        Some(
            ConcatInfo {
                reference: (256 * data[i + 2] + data[i + 3]) as u16,
                total: data[i + 4],
                sequence: data[i + 5],
            },
        )
    } else {
        find_concat(data, end, i + 2 + data[i + 1])
    }
}

/// The concatenation element of a user data header, and the length of the header with its length
/// byte.
pub open spec fn concat_header(data: Seq<u8>) -> Option<(ConcatInfo, nat)> {
    if data.len() == 0 || data.len() < data[0] + 1 {
        None
    } else {
        match find_concat(data, data[0] + 1, 1) {
            Some(info) => Some((info, (data[0] + 1) as nat)),
            None => None,
        }
    }
}

/// The concatenation element of the user data header, and the length of the header with its
/// length byte.
pub fn parse_concat_udh(data: &[u8]) -> (r: Option<(ConcatInfo, usize)>)
    ensures
        match r {
            Some((info, length)) => concat_header(data@) == Some((info, length as nat)),
            None => concat_header(data@) is None,
        },
{
    if data.len() == 0 {
        return None;
    }
    let end: usize = data[0] as usize + 1;
    if data.len() < end {
        return None;
    }
    let mut index: usize = 1;
    while index + 2 <= end
        invariant
            1 <= index <= end <= 256,
            end <= data@.len(),
            end == data@[0] + 1,
            concat_header(data@) == (match find_concat(data@, end as int, index as int) {
                Some(info) => Some((info, end as nat)),
                None => None,
            }),
        decreases end - index,
    {
        let identifier = data[index];
        let length = data[index + 1] as usize;
        index += 2;
        if index + length > end {
            return None;
        }
        if identifier == 0x00 && length == 3 {
            let info = ConcatInfo {
                reference: data[index] as u16,
                total: data[index + 1],
                sequence: data[index + 2],
            };
            return Some((info, end));
        }
        if identifier == 0x08 && length == 4 {
            let info = ConcatInfo {
                reference: 256 * (data[index] as u16) + data[index + 1] as u16,
                total: data[index + 2],
                sequence: data[index + 3],
            };
            return Some((info, end));
        }
        index += length;
    }
    None
}

/// The text that code units of sixteen bits write in UTF-16; none if a surrogate stands alone.
pub open spec fn decode_utf16(units: Seq<u16>) -> Option<Seq<char>>
    decreases units.len(),
{
    if units.len() == 0 {
        Some(Seq::empty())
    } else if units[0] < 0xD800 || units[0] > 0xDFFF {
        match decode_utf16(units.skip(1)) {
            Some(rest) => Some(seq![units[0] as char] + rest),
            None => None,
        }
    } else if units[0] < 0xDC00 && units.len() >= 2 && 0xDC00 <= units[1] <= 0xDFFF {
        match decode_utf16(units.skip(2)) {
            Some(rest) => Some(
                seq![(0x10000 + (units[0] - 0xD800) * 0x400 + (units[1] - 0xDC00)) as char] + rest,
            ),
            None => None,
        }
    } else {
        None
    }
}

/// The code units of bytes, the higher byte of each first; an odd byte at the end is left over.
pub open spec fn code_units(data: Seq<u8>) -> Seq<u16> {
    Seq::new(data.len() / 2, |i: int| (256 * data[2 * i] + data[2 * i + 1]) as u16)
}

/// The text that `data` holds as UTF-16 with the higher byte first.
pub fn utf16_text(data: &[u8]) -> (r: Option<String>)
    ensures
        match r {
            Some(s) => decode_utf16(code_units(data@)) == Some(s@),
            None => decode_utf16(code_units(data@)) is None,
        },
{
    let n: usize = data.len() / 2;
    let ghost units = code_units(data@);
    let mut s = String::new();
    let mut i: usize = 0;
    assert(units.skip(0) =~= units);
    proof {
        if let Some(rest) = decode_utf16(units) {
            assert(s@ + rest =~= rest);
        }
    }
    while i < n
        invariant
            i <= n,
            n == data.len() / 2,
            units == code_units(data@),
            match decode_utf16(units.skip(i as int)) {
                Some(rest) => decode_utf16(units) == Some(s@ + rest),
                None => decode_utf16(units) is None,
            },
        decreases n - i,
    {
        let ghost here = units.skip(i as int);
        let ghost before = s@;
        let unit: u32 = 256 * (data[2 * i] as u32) + data[2 * i + 1] as u32;
        assert(here[0] == unit);
        let mut code: u32 = unit;
        let mut step: usize = 1;
        if 0xD800 <= unit && unit <= 0xDFFF {
            if unit >= 0xDC00 || i + 1 >= n {
                return None;
            }
            let next: u32 = 256 * (data[2 * (i + 1)] as u32) + data[2 * (i + 1) + 1] as u32;
            assert(here[1] == next);
            if next < 0xDC00 || 0xDFFF < next {
                return None;
            }
            code = 0x10000 + (unit - 0xD800) * 0x400 + (next - 0xDC00);
            step = 2;
        }
        match char::from_u32(code) {
            Some(c) => {
                proof {
                    vstd::utf8::char_u32_cast(c, code);
                }
                s.push(c);
                proof {
                    assert(here.skip(step as int) =~= units.skip(i + step));
                    if let Some(rest) = decode_utf16(units.skip(i + step)) {
                        assert(before + (seq![c] + rest) =~= s@ + rest);
                    }
                }
            },
            None => {
                return None;
            },
        }
        i += step;
    }
    assert(units.skip(i as int) =~= Seq::empty());
    assert(s@ + Seq::<char>::empty() =~= s@);
    Some(s)
}

// ---------------------------------------------------------------------------------------------
// SMS-DELIVER
// ---------------------------------------------------------------------------------------------
/// The sender, the text and the place in a concatenated message that an SMS-DELIVER holds.
pub type Deliver = (Seq<char>, Seq<char>, Option<ConcatInfo>);

/// The concatenation element, if the message says that its user data has a header, and the
/// number of bytes to leave out before the text.
pub open spec fn ucs2_header(first: u8, data: Seq<u8>) -> (Option<ConcatInfo>, nat) {
    if (first / 64) % 2 == 1 {
        match concat_header(data) {
            Some((info, length)) => (Some(info), length),
            None => (None, 0),
        }
    } else {
        (None, 0)
    }
}

/// The text and the concatenation element of user data in UCS-2.
pub open spec fn ucs2_content(first: u8, data: Seq<u8>, length: nat) -> Result<
    (Seq<char>, Option<ConcatInfo>),
    ImsError,
> {
    if data.len() < length || length % 2 != 0 {
        Err(ImsError::TruncatedUcs2)
    } else {
        let (concat, skipped) = ucs2_header(first, data);
        if skipped > length {
            Err(ImsError::OversizedUdh)
        } else {
            match decode_utf16(code_units(data.subrange(skipped as int, length as int))) {
                Some(content) => Ok((content, concat)),
                None => Err(ImsError::InvalidUtf16),
            }
        }
    }
}

/// The text and the concatenation element of user data: UCS-2, packed groups of seven bits, or
/// bytes, as the coding scheme says.
pub open spec fn user_content(first: u8, dcs: u8, data: Seq<u8>, length: nat) -> Result<
    (Seq<char>, Option<ConcatInfo>),
    ImsError,
> {
    if (dcs / 4) % 4 == 2 {
        ucs2_content(first, data, length)
    } else if (dcs / 4) % 4 == 0 {
        Ok((packed_text(data, length), None))
    } else if data.len() <= length {
        Ok((externals::utf8_lossy(data), None))
    } else {
        Ok((externals::utf8_lossy(data.take(length as int)), None))
    }
}

/// What an SMS-DELIVER holds. After the address of the sender come the protocol identifier, the
/// coding scheme, a time stamp of seven bytes, and the user data with its length.
pub open spec fn deliver(tpdu: Seq<u8>) -> Result<Deliver, ImsError> {
    if tpdu.len() < 2 || tpdu[0] % 4 != 0 {
        Err(ImsError::NotSmsDeliver)
    } else {
        match address(tpdu.skip(2), tpdu[1] as nat) {
            None => Err(ImsError::TruncatedAddress),
            Some((number, length)) => {
                let at = 2 + length + 9;
                if tpdu.len() <= at {
                    Err(ImsError::MissingUserData)
                } else {
                    match user_content(
                        tpdu[0],
                        tpdu[2 + length as int + 1],
                        tpdu.skip(at as int + 1),
                        tpdu[at as int] as nat,
                    ) {
                        Ok((content, concat)) => Ok((number, content, concat)),
                        Err(e) => Err(e),
                    }
                }
            },
        }
    }
}

fn decode_user_content(first: u8, dcs: u8, data: &[u8], length: usize) -> (r: Result<
    (String, Option<ConcatInfo>),
    ImsError,
>)
    requires
        length <= 255,
    ensures
        match r {
            Ok((content, concat)) => user_content(first, dcs, data@, length as nat) == Ok::<
                (Seq<char>, Option<ConcatInfo>),
                ImsError,
            >((content@, concat)),
            Err(e) => user_content(first, dcs, data@, length as nat) == Err::<
                (Seq<char>, Option<ConcatInfo>),
                ImsError,
            >(e),
        },
{
    assert((dcs & 0x0c == 0x08) == ((dcs / 4) % 4 == 2)) by (bit_vector);
    assert((dcs & 0x0c == 0x00) == ((dcs / 4) % 4 == 0)) by (bit_vector);
    assert((first & 0x40 != 0) == ((first / 64) % 2 == 1)) by (bit_vector);
    if dcs & 0x0c == 0x08 {
        if data.len() < length || length % 2 != 0 {
            return Err(ImsError::TruncatedUcs2);
        }
        let (concat, skipped): (Option<ConcatInfo>, usize) = if first & 0x40 != 0 {
            match parse_concat_udh(data) {
                Some((info, header)) => (Some(info), header),
                None => (None, 0),
            }
        } else {
            (None, 0)
        };
        if skipped > length {
            return Err(ImsError::OversizedUdh);
        }
        match utf16_text(slice_subrange(data, skipped, length)) {
            Some(content) => Ok((content, concat)),
            None => Err(ImsError::InvalidUtf16),
        }
    } else if dcs & 0x0c == 0x00 {
        Ok((decode_gsm7(data, length), None))
    } else if data.len() <= length {
        Ok((utf8_text_lossy(data), None))
    } else {
        Ok((utf8_text_lossy(slice_subrange(data, 0, length)), None))
    }
}

/// The sender, the text and the place in a concatenated message that an SMS-DELIVER holds.
pub fn decode_sms_deliver(tpdu: &[u8]) -> (r: Result<
    (String, String, Option<ConcatInfo>),
    ImsError,
>)
    ensures
        match r {
            Ok((number, content, concat)) => deliver(tpdu@) == Ok::<Deliver, ImsError>(
                (number@, content@, concat),
            ),
            Err(e) => deliver(tpdu@) == Err::<Deliver, ImsError>(e),
        },
{
    if tpdu.len() < 2 {
        return Err(ImsError::NotSmsDeliver);
    }
    let first = tpdu[0];
    assert((first & 0x03 == 0x00) == (first % 4 == 0)) by (bit_vector);
    if first & 0x03 != 0x00 {
        return Err(ImsError::NotSmsDeliver);
    }
    let rest = slice_subrange(tpdu, 2, tpdu.len());
    assert(rest@ =~= tpdu@.skip(2));
    match decode_address(rest, tpdu[1] as usize) {
        Err(e) => Err(e),
        Ok((number, length)) => {
            let at: usize = 2 + length + 9;
            if tpdu.len() <= at {
                return Err(ImsError::MissingUserData);
            }
            let data = slice_subrange(tpdu, at + 1, tpdu.len());
            assert(data@ =~= tpdu@.skip(at as int + 1));
            match decode_user_content(first, tpdu[2 + length + 1], data, tpdu[at] as usize) {
                Ok((content, concat)) => Ok((number, content, concat)),
                Err(e) => Err(e),
            }
        },
    }
}

// ---------------------------------------------------------------------------------------------
// RP-DATA
// ---------------------------------------------------------------------------------------------
/// The user data of an RP-DATA message: after the type and the reference come the originator,
/// the destination and the user data, each with its length.
pub open spec fn rp_user_data(rp: Seq<u8>) -> Result<Seq<u8>, ImsError> {
    if rp.len() < 4 || rp[0] != 0x00 {
        Err(ImsError::NotRpData)
    } else {
        let destination = 3 + rp[2];
        if destination >= rp.len() {
            Err(ImsError::MissingRpDestination)
        } else {
            let data = destination + 1 + rp[destination];
            if data >= rp.len() {
                Err(ImsError::MissingRpUserData)
            } else if rp.len() < data + 1 + rp[data] {
                Err(ImsError::TruncatedRpUserData)
            } else {
                Ok(rp.subrange(data + 1, data + 1 + rp[data]))
            }
        }
    }
}

/// What the RP-DATA message in a hexadecimal body holds.
pub open spec fn rp_deliver(body: Seq<char>) -> Result<Deliver, ImsError> {
    match number::hex_bytes(body) {
        None => Err(ImsError::BodyNotHex),
        Some(rp) => match rp_user_data(rp) {
            Err(e) => Err(e),
            Ok(tpdu) => deliver(tpdu),
        },
    }
}

/// The marker that a digest gives to a message.
pub open spec fn marker_of_digest(digest: Seq<u8>) -> Seq<char> {
    "volte-mt:"@ + number::hex_lower(digest)
}

/// The marker by which a message is recognized when it comes again.
pub open spec fn marker_of(source: Seq<char>) -> Seq<char> {
    marker_of_digest(externals::md5_digest(vstd::utf8::encode_utf8(source)))
}

/// The sender, the text and the place in a concatenated message that the RP-DATA message in a
/// hexadecimal body holds.
pub fn decode_rp_deliver(body_hex: &str) -> (r: Result<
    (String, String, Option<ConcatInfo>),
    ImsError,
>)
    ensures
        match r {
            Ok((number, content, concat)) => rp_deliver(body_hex@) == Ok::<Deliver, ImsError>(
                (number@, content@, concat),
            ),
            Err(e) => rp_deliver(body_hex@) == Err::<Deliver, ImsError>(e),
        },
{
    let rp = match decode_hex(body_hex) {
        Ok(rp) => rp,
        Err(e) => {
            return Err(e);
        },
    };
    let n = rp.len();
    if n < 4 || rp[0] != 0x00 {
        return Err(ImsError::NotRpData);
    }
    let destination: usize = 3 + rp[2] as usize;
    if destination >= n {
        return Err(ImsError::MissingRpDestination);
    }
    let data: usize = destination + 1 + rp[destination] as usize;
    if data >= n {
        return Err(ImsError::MissingRpUserData);
    }
    let length: usize = rp[data] as usize;
    if length > n - data - 1 {
        return Err(ImsError::TruncatedRpUserData);
    }
    decode_sms_deliver(slice_subrange(&rp, data + 1, data + 1 + length))
}

/// The marker that a digest gives to a message.
pub fn digest_marker(digest: &[u8]) -> (s: String)
    ensures
        s@ == marker_of_digest(digest@),
{
    let mut s = "volte-mt:".to_owned();
    s.append(&to_hex_lower(digest));
    s
}

/// The marker by which a message is recognized when it comes again.
pub fn message_marker(source: &str) -> (s: String)
    ensures
        s@ == marker_of(source@),
{
    let digest = md5_compute(source.as_bytes());
    digest_marker(&digest)
}

/// What the decoding of a hexadecimal body gives.
pub open spec fn is_decoded(r: Result<IncomingImsSms, ImsError>, body: Seq<char>) -> bool {
    match r {
        Ok(sms) => rp_deliver(body) == Ok::<Deliver, ImsError>(
            (sms.phone_number@, sms.content@, sms.concat),
        ) && sms.marker@ == marker_of(body),
        Err(e) => rp_deliver(body) == Err::<Deliver, ImsError>(e),
    }
}

/// The short message in a hexadecimal body.
pub fn decode_ims_sms(body_hex: &str) -> (r: Result<IncomingImsSms, ImsError>)
    ensures
        is_decoded(r, body_hex@),
{
    match decode_rp_deliver(body_hex) {
        Ok((phone_number, content, concat)) => Ok(
            IncomingImsSms { phone_number, content, marker: message_marker(body_hex), concat },
        ),
        Err(e) => Err(e),
    }
}

/// The short message in a body of bytes, which may be hexadecimal text.
pub fn decode_ims_sms_body(body: &[u8]) -> (r: Result<IncomingImsSms, ImsError>)
    ensures
        is_decoded(r, body_hex(body@)),
{
    let text = body_hex_text(body);
    decode_ims_sms(&text)
}

/// The acknowledgement of an RP-DATA message: its type and the reference of the message.
pub open spec fn rp_ack(body: Seq<char>) -> Result<Seq<u8>, ImsError> {
    match number::hex_bytes(body) {
        None => Err(ImsError::BodyNotHex),
        Some(rp) => if rp.len() < 2 || rp[0] != 0x00 {
            Err(ImsError::CannotAcknowledge)
        } else {
            Ok(seq![0x02u8, rp[1]])
        },
    }
}

/// The acknowledgement of the RP-DATA message in a body.
pub fn build_rp_ack(body: &[u8]) -> (r: Result<Vec<u8>, ImsError>)
    ensures
        match r {
            Ok(ack) => rp_ack(body_hex(body@)) == Ok::<Seq<u8>, ImsError>(ack@),
            Err(e) => rp_ack(body_hex(body@)) == Err::<Seq<u8>, ImsError>(e),
        },
{
    let text = body_hex_text(body);
    match decode_hex(&text) {
        Err(e) => Err(e),
        Ok(rp) => {
            if rp.len() < 2 || rp[0] != 0x00 {
                return Err(ImsError::CannotAcknowledge);
            }
            let mut ack: Vec<u8> = Vec::new();
            ack.push(0x02);
            ack.push(rp[1]);
            assert(ack@ =~= seq![0x02u8, rp@[1]]);
            Ok(ack)
        },
    }
}

// ---------------------------------------------------------------------------------------------
// SIP messages
// ---------------------------------------------------------------------------------------------
/// The first place, at index `i` or later, where `pattern` occurs.
pub open spec fn find_bytes(s: Seq<u8>, pattern: Seq<u8>, i: int) -> Option<int>
    decreases s.len() - i,
{
    if i + pattern.len() > s.len() || i >= s.len() {
        None
    } else if s.subrange(i, i + pattern.len()) == pattern {
        Some(i)
    } else {
        find_bytes(s, pattern, i + 1)
    }
}

/// The end of a line.
pub open spec fn crlf() -> Seq<u8> {
    seq![13u8, 10u8]
}

/// The end of the headers.
pub open spec fn blank_line() -> Seq<u8> {
    seq![13u8, 10u8, 13u8, 10u8]
}

/// The headers that lines of the form `name: value` set, a later line for the same name over an
/// earlier one. Names are taken in small letters.
pub open spec fn header_map(lines: Seq<Seq<char>>) -> Option<Map<Seq<char>, Seq<char>>>
    decreases lines.len(),
{
    if lines.len() == 0 {
        Some(Map::empty())
    } else {
        match (header_map(lines.drop_last()), text::split_once(lines.last(), ':')) {
            (Some(map), Some((name, value))) => Some(
                map.insert(text::lowercase(text::trim(name)), text::trim(value)),
            ),
            _ => None,
        }
    }
}

/// The lines of a message after its first line.
pub open spec fn header_lines(message: Seq<char>) -> Seq<Seq<char>> {
    let all = text::lines(message);
    if all.len() == 0 {
        all
    } else {
        all.skip(1)
    }
}

/// The headers and the body of a SIP message.
pub open spec fn sip_message(packet: Seq<u8>) -> Result<
    (Map<Seq<char>, Seq<char>>, Seq<u8>),
    ImsError,
> {
    match find_bytes(packet, blank_line(), 0) {
        None => Err(ImsError::IncompleteHeaders),
        Some(end) => if !vstd::utf8::valid_utf8(packet.take(end)) {
            Err(
                ImsError::HeadersNotUtf8(
                    externals::valid_length(packet.take(end), packet.take(end).len()) as usize,
                    externals::utf8_error_length(packet.take(end)),
                ),
            )
        } else {
            match header_map(header_lines(vstd::utf8::decode_utf8(packet.take(end)))) {
                None => Err(ImsError::MalformedHeader),
                Some(map) => Ok((map, packet.skip(end + 4))),
            }
        },
    }
}

fn find_blank_line(s: &[u8]) -> (r: Option<usize>)
    ensures
        match r {
            Some(k) => find_bytes(s@, blank_line(), 0) == Some(k as int) && k + 4 <= s@.len(),
            None => find_bytes(s@, blank_line(), 0) is None,
        },
{
    let n = s.len();
    let mut i: usize = 0;
    while i < n && n - i >= 4
        invariant
            n == s@.len(),
            i <= n,
            find_bytes(s@, blank_line(), 0) == find_bytes(s@, blank_line(), i as int),
        decreases n - i,
    {
        let ghost here = s@.subrange(i as int, i + 4);
        if s[i] == 13 && s[i + 1] == 10 && s[i + 2] == 13 && s[i + 3] == 10 {
            assert(here =~= blank_line());
            return Some(i);
        }
        assert(here != blank_line()) by {
            assert(here[0] == s@[i as int] && here[1] == s@[i + 1] && here[2] == s@[i + 2]
                && here[3] == s@[i + 3]);
        }
        i += 1;
    }
    None
}

pub(crate) fn find_crlf(s: &[u8]) -> (r: Option<usize>)
    ensures
        match r {
            Some(k) => find_bytes(s@, crlf(), 0) == Some(k as int) && k + 2 <= s@.len(),
            None => find_bytes(s@, crlf(), 0) is None,
        },
{
    let n = s.len();
    let mut i: usize = 0;
    while i < n && n - i >= 2
        invariant
            n == s@.len(),
            i <= n,
            find_bytes(s@, crlf(), 0) == find_bytes(s@, crlf(), i as int),
        decreases n - i,
    {
        let ghost here = s@.subrange(i as int, i + 2);
        if s[i] == 13 && s[i + 1] == 10 {
            assert(here =~= crlf());
            return Some(i);
        }
        assert(here != crlf()) by {
            assert(here[0] == s@[i as int] && here[1] == s@[i + 1]);
        }
        i += 1;
    }
    None
}

proof fn lemma_header_map_fails(lines: Seq<Seq<char>>, i: int)
    requires
        0 <= i <= lines.len(),
        header_map(lines.take(i)) is None,
    ensures
        header_map(lines) is None,
    decreases lines.len() - i,
{
    if i < lines.len() {
        assert(lines.take(i + 1).drop_last() =~= lines.take(i));
        lemma_header_map_fails(lines, i + 1);
    } else {
        assert(lines.take(i) =~= lines);
    }
}

fn read_headers(message: &str) -> (r: Option<SipHeaders>)
    ensures
        match r {
            Some(headers) => header_map(header_lines(message@)) == Some(headers@),
            None => header_map(header_lines(message@)) is None,
        },
{
    let chars = chars_of(message);
    let lines = lines_of(&chars);
    let ghost all = header_lines(message@);
    let mut headers = SipHeaders::new();
    let mut i: usize = 1;
    assert(text::pieces(lines@).len() == lines@.len());
    assert(all.take(0) =~= Seq::empty());
    while i < lines.len()
        invariant
            1 <= i,
            i <= lines@.len() || i == 1,
            text::pieces(lines@) == text::lines(message@),
            all == header_lines(message@),
            lines@.len() >= 1 ==> all.len() == lines@.len() - 1,
            lines@.len() == 0 ==> all.len() == 0,
            header_map(all.take(i - 1)) == Some(headers@),
        decreases lines@.len() - i,
    {
        assert(all[i - 1] == text::pieces(lines@)[i as int]);
        assert(all.take(i as int).drop_last() =~= all.take(i - 1));
        assert(all.take(i as int).last() == lines@[i as int]@);
        match split_at_char(lines[i], ':') {
            None => {
                proof {
                    lemma_header_map_fails(all, i as int);
                }
                return None;
            },
            Some((name, value)) => {
                headers.insert(
                    string_of(&to_lowercase(trimmed(name))),
                    string_of(trimmed(value)),
                );
            },
        }
        i += 1;
    }
    assert(all.take(i - 1) =~= all);
    Some(headers)
}

/// The headers and the body of a SIP message.
pub fn parse_sip_message(packet: &[u8]) -> (r: Result<(SipHeaders, Vec<u8>), ImsError>)
    ensures
        match r {
            Ok((headers, body)) => sip_message(packet@) == Ok::<
                (Map<Seq<char>, Seq<char>>, Seq<u8>),
                ImsError,
            >((headers@, body@)),
            Err(e) => sip_message(packet@) == Err::<
                (Map<Seq<char>, Seq<char>>, Seq<u8>),
                ImsError,
            >(e),
        },
{
    match find_blank_line(packet) {
        None => Err(ImsError::IncompleteHeaders),
        Some(end) => {
            let head = slice_subrange(packet, 0, end);
            assert(head@ =~= packet@.take(end as int));
            match utf8_text(head) {
                Err((index, length)) => Err(ImsError::HeadersNotUtf8(index, length)),
                Ok(message) => match read_headers(message) {
                    None => Err(ImsError::MalformedHeader),
                    Some(headers) => {
                        let n = packet.len();
                        let body = slice_to_vec(slice_subrange(packet, end + 4, n));
                        assert(body@ =~= packet@.skip(end + 4));
                        Ok((headers, body))
                    },
                },
            }
        },
    }
}

/// The line that repeats a header, where it is there.
pub open spec fn echoed(headers: Map<Seq<char>, Seq<char>>, name: Seq<char>) -> Seq<char> {
    if headers.contains_key(name) {
        name + ": "@ + headers[name] + "\r\n"@
    } else {
        Seq::empty()
    }
}

/// The response that accepts a request: the headers that identify the request are repeated.
pub open spec fn ok_response(headers: Map<Seq<char>, Seq<char>>) -> Seq<char> {
    "SIP/2.0 200 OK\r\n"@ + echoed(headers, "via"@) + echoed(headers, "from"@) + echoed(
        headers,
        "to"@,
    ) + echoed(headers, "call-id"@) + echoed(headers, "cseq"@) + "Content-Length: 0\r\n\r\n"@
}

fn push_echoed(out: &mut String, headers: &SipHeaders, name: &str)
    ensures
        final(out)@ == old(out)@ + echoed(headers@, name@),
{
    match headers.get(name) {
        Some(value) => {
            out.append(name);
            out.append(": ");
            out.append(value);
            out.append("\r\n");
            assert(out@ =~= old(out)@ + echoed(headers@, name@));
        },
        None => {
            assert(out@ =~= old(out)@ + echoed(headers@, name@));
        },
    }
}

/// The response that accepts a request with the given headers.
pub fn sip_ok_response(headers: &SipHeaders) -> (s: String)
    ensures
        s@ == ok_response(headers@),
{
    let mut s = "SIP/2.0 200 OK\r\n".to_owned();
    push_echoed(&mut s, headers, "via");
    push_echoed(&mut s, headers, "from");
    push_echoed(&mut s, headers, "to");
    push_echoed(&mut s, headers, "call-id");
    push_echoed(&mut s, headers, "cseq");
    s.append("Content-Length: 0\r\n\r\n");
    s
}

/// The URI in the value of a header: what stands between angle brackets or else what stands
/// before the parameters.
pub open spec fn uri_of(value: Seq<char>) -> Seq<char> {
    match text::split_once(value, '<') {
        Some((_, rest)) => rest.take(text::find(rest, '>')),
        None => text::trim(value.take(text::find(value, ';'))),
    }
}

/// The URI in the value of a header.
pub fn header_uri(value: &str) -> (r: Option<String>)
    ensures
        r is Some,
        r->0@ == uri_of(value@),
{
    let chars = chars_of(value);
    match split_at_char(&chars, '<') {
        Some((_, rest)) => {
            let k = find_char(rest, '>');
            Some(string_of(slice_subrange(rest, 0, k)))
        },
        None => {
            let k = find_char(&chars, ';');
            Some(string_of(trimmed(slice_subrange(&chars, 0, k))))
        },
    }
}

/// The sequence number that follows that of the request with the given headers; a request
/// without one counts as the first.
pub open spec fn next_cseq(headers: Map<Seq<char>, Seq<char>>) -> nat {
    let current = if headers.contains_key("cseq"@) && text::words(headers["cseq"@]).len() > 0 {
        number::parse_unsigned(text::words(headers["cseq"@])[0], u32::MAX as nat)
    } else {
        None
    };
    match current {
        Some(n) => if n < u32::MAX {
            n + 1
        } else {
            n
        },
        None => 2,
    }
}

/// The first line of the message that carries an acknowledgement back to the sender.
pub open spec fn ack_first_line(headers: Map<Seq<char>, Seq<char>>) -> Seq<char> {
    "MESSAGE "@ + uri_of(headers["from"@]) + " SIP/2.0"@
}

/// Where the message that carries an acknowledgement comes from.
pub open spec fn ack_via(
    headers: Map<Seq<char>, Seq<char>>,
    local: Seq<u16>,
    port: nat,
) -> Seq<char> {
    "SIP/2.0/UDP ["@ + ipv6::ipv6_text(local) + "]:"@ + number::decimal(port)
        + ";branch=z9hG4bK-simadmin-rp-ack-"@ + number::decimal(next_cseq(headers)) + ";rport"@
}

/// The headers of the message that carries an acknowledgement of `length` bytes: sender and
/// receiver of the request change places, and its dialog goes on.
pub open spec fn ack_headers(
    headers: Map<Seq<char>, Seq<char>>,
    local: Seq<u16>,
    port: nat,
    length: nat,
) -> Seq<(Seq<char>, Seq<char>)> {
    seq![
        ("Via"@, ack_via(headers, local, port)),
        ("From"@, headers["to"@]),
        ("To"@, headers["from"@]),
        ("Call-ID"@, headers["call-id"@]),
        ("CSeq"@, number::decimal(next_cseq(headers)) + " MESSAGE"@),
        ("Content-Type"@, "application/vnd.3gpp.sms"@),
        ("Content-Length"@, number::decimal(length)),
    ]
}

/// The message that carries an acknowledgement back to the sender of the request with the given
/// headers.
pub open spec fn ack_message(
    headers: Map<Seq<char>, Seq<char>>,
    local: Seq<u16>,
    port: nat,
    body: Seq<u8>,
) -> Result<Seq<u8>, ImsError> {
    if !headers.contains_key("from"@) {
        Err(ImsError::MissingFrom)
    } else if !headers.contains_key("to"@) {
        Err(ImsError::MissingTo)
    } else if !headers.contains_key("call-id"@) {
        Err(ImsError::MissingCallId)
    } else {
        Ok(
            sip_encoding::written_message(
                ack_first_line(headers),
                ack_headers(headers, local, port, body.len()),
                body,
            ),
        )
    }
}

fn following_cseq(headers: &SipHeaders) -> (n: u32)
    ensures
        n == next_cseq(headers@),
{
    let mut current: u32 = 1;
    if let Some(value) = headers.get("cseq") {
        let chars = chars_of(value);
        let words = words_of(&chars);
        assert(text::pieces(words@).len() == words@.len());
        if words.len() > 0 {
            assert(text::pieces(words@)[0] == words@[0]@);
            if let Some(n) = read_unsigned(words[0], u32::MAX) {
                current = n;
            }
        }
    }
    if current < u32::MAX {
        current + 1
    } else {
        current
    }
}

/// Appends the line of the `i`-th header of a list to those before it.
fn push_header(
    out: &mut String,
    name: &str,
    value: &str,
    Ghost(first): Ghost<Seq<char>>,
    Ghost(list): Ghost<Seq<(Seq<char>, Seq<char>)>>,
    Ghost(i): Ghost<int>,
)
    requires
        0 <= i < list.len(),
        list[i] == (name@, value@),
        old(out)@ == sip_encoding::written_lines(first, list.take(i)),
    ensures
        final(out)@ == sip_encoding::written_lines(first, list.take(i + 1)),
{
    out.append("\r\n");
    out.append(name);
    out.append(": ");
    out.append(value);
    proof {
        sip_encoding::lemma_written_lines_push(first, list.take(i), list[i]);
        assert(list.take(i + 1) =~= list.take(i).push(list[i]));
        assert(out@ =~= old(out)@ + "\r\n"@ + sip_encoding::header_line(list[i]));
    }
}

/// The message that carries an acknowledgement back to the sender of the request with the given
/// headers.
pub fn build_rp_ack_message(
    headers: &SipHeaders,
    local: Ipv6Addr,
    local_port: u16,
    body: &[u8],
) -> (r: Result<Vec<u8>, ImsError>)
    ensures
        match r {
            Ok(packet) => ack_message(headers@, local@, local_port as nat, body@) == Ok::<
                Seq<u8>,
                ImsError,
            >(packet@),
            Err(e) => ack_message(headers@, local@, local_port as nat, body@) == Err::<
                Seq<u8>,
                ImsError,
            >(e),
        },
{
    let sender = match headers.get("from") {
        Some(value) => value,
        None => {
            return Err(ImsError::MissingFrom);
        },
    };
    let target = match header_uri(sender) {
        Some(uri) => uri,
        None => {
            return Err(ImsError::MissingFrom);
        },
    };
    let receiver = match headers.get("to") {
        Some(value) => value,
        None => {
            return Err(ImsError::MissingTo);
        },
    };
    let call_id = match headers.get("call-id") {
        Some(value) => value,
        None => {
            return Err(ImsError::MissingCallId);
        },
    };
    let cseq = following_cseq(headers);
    let mut via = "SIP/2.0/UDP [".to_owned();
    local.push_to(&mut via);
    via.append("]:");
    push_decimal(&mut via, local_port as u128);
    via.append(";branch=z9hG4bK-simadmin-rp-ack-");
    push_decimal(&mut via, cseq as u128);
    via.append(";rport");
    let mut order = String::new();
    push_decimal(&mut order, cseq as u128);
    order.append(" MESSAGE");
    let mut length = String::new();
    push_decimal(&mut length, body.len() as u128);
    let mut head = "MESSAGE ".to_owned();
    head.append(&target);
    head.append(" SIP/2.0");
    let ghost first = head@;
    let ghost list = ack_headers(headers@, local@, local_port as nat, body@.len());
    assert(order@ =~= list[4].1);
    assert(length@ =~= list[6].1);
    push_header(&mut head, "Via", &via, Ghost(first), Ghost(list), Ghost(0));
    push_header(&mut head, "From", receiver, Ghost(first), Ghost(list), Ghost(1));
    push_header(&mut head, "To", sender, Ghost(first), Ghost(list), Ghost(2));
    push_header(&mut head, "Call-ID", call_id, Ghost(first), Ghost(list), Ghost(3));
    push_header(&mut head, "CSeq", &order, Ghost(first), Ghost(list), Ghost(4));
    push_header(
        &mut head,
        "Content-Type",
        "application/vnd.3gpp.sms",
        Ghost(first),
        Ghost(list),
        Ghost(5),
    );
    push_header(&mut head, "Content-Length", &length, Ghost(first), Ghost(list), Ghost(6));
    assert(list.take(7) =~= list);
    head.append("\r\n\r\n");
    let mut packet = head.as_str().as_bytes_vec();
    let mut rest = slice_to_vec(body);
    packet.append(&mut rest);
    Ok(packet)
}

// ---------------------------------------------------------------------------------------------
// Laws
// ---------------------------------------------------------------------------------------------
/// A text of ASCII characters as bytes.
pub open spec fn ascii_bytes(s: Seq<char>) -> Seq<u8> {
    s.map_values(|c: char| c as u8)
}

/// It makes no difference whether an RP-DATA message comes as its bytes or as hexadecimal text:
/// the same message is read from both, and its marker is the same.
pub proof fn law_body_forms(rp: Seq<u8>)
    requires
        rp.len() > 0,
        rp[0] == 0x00,
    ensures
        body_hex(rp) == number::hex_upper(rp),
        body_hex(ascii_bytes(number::hex_upper(rp))) == body_hex(rp),
{
    assert(!is_hex_body(rp)) by {
        let c = rp[0] as char;
        assert(!text::is_hex_digit(c) && !text::is_ascii_white_space(c));
    }
    let t = number::hex_upper(rp);
    let b = ascii_bytes(t);
    number::law_hex_round_trip(rp);
    assert(number::is_hex_text(t));
    assert forall|i: int| 0 <= i < b.len() implies (#[trigger] b[i]) as char == t[i] by {
        assert(text::is_hex_digit(t[i]));
    }
    assert(latin_text(b) =~= t);
    assert forall|i: int| 0 <= i < b.len() implies text::is_hex_digit(#[trigger] b[i] as char) by {
        assert(text::is_hex_digit(t[i]));
    }
    text::lemma_compact_hex(t);
}

/// The acknowledgement of an RP-DATA message carries the reference of that message.
pub proof fn law_acknowledged_reference(rp: Seq<u8>)
    requires
        rp.len() >= 2,
        rp[0] == 0x00,
    ensures
        rp_ack(body_hex(rp)) == Ok::<Seq<u8>, ImsError>(seq![0x02u8, rp[1]]),
{
    assert(number::hex_bytes(body_hex(rp)) == Some(rp)) by {
        law_body_forms(rp);
        number::law_hex_round_trip(rp);
    }
    lemma_ack_of_bytes(body_hex(rp), rp);
}

proof fn lemma_ack_of_bytes(body: Seq<char>, rp: Seq<u8>)
    requires
        number::hex_bytes(body) == Some(rp),
        rp.len() >= 2,
        rp[0] == 0x00,
    ensures
        rp_ack(body) == Ok::<Seq<u8>, ImsError>(seq![0x02u8, rp[1]]),
{
}

/// Every message that can be decoded can be acknowledged.
pub proof fn law_decoded_is_acknowledged(body: Seq<char>)
    requires
        rp_deliver(body) is Ok,
    ensures
        rp_ack(body) is Ok,
{
    assert(number::hex_bytes(body) is Some);
    let rp = number::hex_bytes(body)->0;
    assert(rp_user_data(rp) is Ok);
    lemma_ack_of_bytes(body, rp);
}

/// An RP-DATA message with the given reference, addresses and user data.
pub open spec fn rp_data(
    reference: u8,
    originator: Seq<u8>,
    destination: Seq<u8>,
    user_data: Seq<u8>,
) -> Seq<u8> {
    seq![0x00u8, reference, originator.len() as u8] + originator + seq![destination.len() as u8]
        + destination + seq![user_data.len() as u8] + user_data
}

/// The user data of an RP-DATA message is read back, whatever the addresses are.
pub proof fn law_rp_user_data(
    reference: u8,
    originator: Seq<u8>,
    destination: Seq<u8>,
    user_data: Seq<u8>,
)
    requires
        originator.len() <= 255,
        destination.len() <= 255,
        user_data.len() <= 255,
    ensures
        rp_user_data(rp_data(reference, originator, destination, user_data)) == Ok::<
            Seq<u8>,
            ImsError,
        >(user_data),
{
    let rp = rp_data(reference, originator, destination, user_data);
    let o = originator.len() as int;
    let d = destination.len() as int;
    let u = user_data.len() as int;
    assert(rp[2] == o);
    assert(rp[3 + o] == d);
    assert(rp[4 + o + d] == u);
    assert(rp.subrange(5 + o + d, 5 + o + d + u) =~= user_data);
}

/// The place of a part is read back from a user data header that consists of it, with a reference
/// of one byte or of two.
pub proof fn law_concat_header(info: ConcatInfo, rest: Seq<u8>)
    ensures
        info.reference <= 0xff ==> concat_header(
            seq![5u8, 0x00u8, 3u8, info.reference as u8, info.total, info.sequence] + rest,
        ) == Some((info, 6nat)),
        concat_header(
            seq![
                6u8,
                0x08u8,
                4u8,
                (info.reference / 256) as u8,
                (info.reference % 256) as u8,
                info.total,
                info.sequence,
            ] + rest,
        ) == Some((info, 7nat)),
{
    let short = seq![5u8, 0x00u8, 3u8, info.reference as u8, info.total, info.sequence] + rest;
    let long = seq![
        6u8,
        0x08u8,
        4u8,
        (info.reference / 256) as u8,
        (info.reference % 256) as u8,
        info.total,
        info.sequence,
    ] + rest;
    assert(short[0] == 5 && short[1] == 0x00 && short[2] == 3);
    assert(short[4] == info.total && short[5] == info.sequence);
    assert(long[0] == 6 && long[1] == 0x08 && long[2] == 4);
    assert(long[5] == info.total && long[6] == info.sequence);
}

} // verus!

//! Numbers and bytes written as text.
use vstd::prelude::*;
use crate::text;
use crate::text::{char_hex_value, char_is_hex_digit};

verus! {

// ---------------------------------------------------------------------------------------------
// Digits
// ---------------------------------------------------------------------------------------------
/// The decimal digit with value `n`.
pub open spec fn digit(n: int) -> char {
    ('0' as int + n) as char
}

/// The hexadecimal digit with value `n`, in small letters.
pub open spec fn hex_digit(n: int) -> char {
    if n < 10 {
        ('0' as int + n) as char
    } else {
        ('a' as int + n - 10) as char
    }
}

/// The hexadecimal digit with value `n`, in capitals.
pub open spec fn hex_digit_upper(n: int) -> char {
    if n < 10 {
        ('0' as int + n) as char
    } else {
        ('A' as int + n - 10) as char
    }
}

/// The decimal digit with value `n`.
pub fn digit_char(n: u8) -> (c: char)
    requires
        n < 10,
    ensures
        c == digit(n as int),
{
    (48 + n) as char
}

/// The hexadecimal digit with value `n`, in small letters.
pub fn hex_digit_char(n: u8) -> (c: char)
    requires
        n < 16,
    ensures
        c == hex_digit(n as int),
{
    if n < 10 {
        (48 + n) as char
    } else {
        (97 + (n - 10)) as char
    }
}

/// The hexadecimal digit with value `n`, in capitals.
pub fn hex_digit_upper_char(n: u8) -> (c: char)
    requires
        n < 16,
    ensures
        c == hex_digit_upper(n as int),
{
    if n < 10 {
        (48 + n) as char
    } else {
        (65 + (n - 10)) as char
    }
}

// ---------------------------------------------------------------------------------------------
// Writing numbers
// ---------------------------------------------------------------------------------------------
/// `n` in decimal, without leading zeros.
pub open spec fn decimal(n: nat) -> Seq<char>
    decreases n,
{
    if n < 10 {
        seq![digit(n as int)]
    } else {
        decimal(n / 10).push(digit((n % 10) as int))
    }
}

/// `n` in hexadecimal, in small letters and without leading zeros.
pub open spec fn hex(n: nat) -> Seq<char>
    decreases n,
{
    if n < 16 {
        seq![hex_digit(n as int)]
    } else {
        hex(n / 16).push(hex_digit((n % 16) as int))
    }
}

/// The last `width` hexadecimal digits of `n`, in small letters and with leading zeros.
pub open spec fn hex_fixed(n: nat, width: nat) -> Seq<char>
    decreases width,
{
    if width == 0 {
        Seq::empty()
    } else {
        hex_fixed(n / 16, (width - 1) as nat).push(hex_digit((n % 16) as int))
    }
}

/// Appends `n` in decimal.
pub fn push_decimal(out: &mut String, n: u128)
    ensures
        final(out)@ == old(out)@ + decimal(n as nat),
    decreases n,
{
    if n < 10 {
        out.push(digit_char(n as u8));
        assert(old(out)@.push(digit(n as int)) =~= old(out)@ + seq![digit(n as int)]);
    } else {
        push_decimal(out, n / 10);
        out.push(digit_char((n % 10) as u8));
        assert((old(out)@ + decimal((n / 10) as nat)).push(digit((n % 10) as int)) =~= old(out)@
            + decimal((n / 10) as nat).push(digit((n % 10) as int)));
    }
}

/// Appends `n` in hexadecimal, in small letters and without leading zeros.
pub fn push_hex(out: &mut String, n: u32)
    ensures
        final(out)@ == old(out)@ + hex(n as nat),
    decreases n,
{
    if n < 16 {
        out.push(hex_digit_char(n as u8));
        assert(old(out)@.push(hex_digit(n as int)) =~= old(out)@ + seq![hex_digit(n as int)]);
    } else {
        push_hex(out, n / 16);
        out.push(hex_digit_char((n % 16) as u8));
        assert((old(out)@ + hex((n / 16) as nat)).push(hex_digit((n % 16) as int)) =~= old(out)@
            + hex((n / 16) as nat).push(hex_digit((n % 16) as int)));
    }
}

/// Appends the last `width` hexadecimal digits of `n`, in small letters.
pub fn push_hex_fixed(out: &mut String, n: u32, width: u8)
    ensures
        final(out)@ == old(out)@ + hex_fixed(n as nat, width as nat),
    decreases width,
{
    if width == 0 {
        assert(old(out)@ + Seq::<char>::empty() =~= old(out)@);
    } else {
        push_hex_fixed(out, n / 16, width - 1);
        out.push(hex_digit_char((n % 16) as u8));
        assert((old(out)@ + hex_fixed((n / 16) as nat, (width - 1) as nat)).push(
            hex_digit((n % 16) as int),
        ) =~= old(out)@ + hex_fixed((n / 16) as nat, (width - 1) as nat).push(
            hex_digit((n % 16) as int),
        ));
    }
}

// ---------------------------------------------------------------------------------------------
// Reading numbers
// ---------------------------------------------------------------------------------------------
/// The value of a sequence of decimal digits.
pub open spec fn digits_value(s: Seq<char>) -> nat
    decreases s.len(),
{
    if s.len() == 0 {
        0
    } else {
        digits_value(s.drop_last()) * 10 + (s.last() as int - '0' as int) as nat
    }
}

/// The text without a plus sign at its start.
pub open spec fn without_plus(s: Seq<char>) -> Seq<char> {
    if s.len() > 0 && s[0] == '+' {
        s.skip(1)
    } else {
        s
    }
}

/// The number that a text writes in decimal: digits alone, at least one of them, with at most
/// one plus sign before them. A number above `max` is none.
pub open spec fn parse_unsigned(s: Seq<char>, max: nat) -> Option<nat> {
    let digits = without_plus(s);
    if digits.len() > 0 && (forall|i: int|
        0 <= i < digits.len() ==> text::is_digit(#[trigger] digits[i]))
        && digits_value(digits) <= max {
        Some(digits_value(digits))
    } else {
        None
    }
}

proof fn lemma_digits_value_grows(s: Seq<char>, i: int)
    requires
        0 <= i <= s.len(),
    ensures
        digits_value(s.take(i)) <= digits_value(s),
    decreases s.len() - i,
{
    if i < s.len() {
        lemma_digits_value_grows(s, i + 1);
        assert(s.take(i + 1).drop_last() =~= s.take(i));
    } else {
        assert(s.take(i) =~= s);
    }
}

/// The number that `s` writes in decimal, if it is at most `max`.
pub fn read_unsigned(s: &[char], max: u32) -> (r: Option<u32>)
    ensures
        match r {
            Some(n) => parse_unsigned(s@, max as nat) == Some(n as nat),
            None => parse_unsigned(s@, max as nat) is None,
        },
{
    let start: usize = if s.len() > 0 && s[0] == '+' {
        1
    } else {
        0
    };
    let ghost digits = without_plus(s@);
    assert(digits =~= s@.skip(start as int));
    if start == s.len() {
        return None;
    }
    let mut value: u64 = 0;
    let mut i: usize = start;
    assert(digits.take(0) =~= Seq::empty());
    while i < s.len()
        invariant
            start <= i <= s.len(),
            digits == without_plus(s@),
            digits == s@.skip(start as int),
            value == digits_value(digits.take(i - start)),
            value <= max,
            forall|j: int| 0 <= j < i - start ==> text::is_digit(#[trigger] digits[j]),
        decreases s.len() - i,
    {
        let c = s[i];
        assert(c == digits[i - start]);
        if c < '0' || '9' < c {
            assert(!text::is_digit(digits[i - start]));
            return None;
        }
        value = value * 10 + (c as u8 - 48) as u64;
        i += 1;
        assert(digits.take(i - start).drop_last() =~= digits.take(i - start - 1));
        assert(digits.take(i - start).last() == c);
        if value > max as u64 {
            proof {
                lemma_digits_value_grows(digits, i - start);
            }
            return None;
        }
    }
    assert(digits.take(i - start) =~= digits);
    Some(value as u32)
}

/// What is written in decimal is made of digits, and they have the value that was written.
pub proof fn lemma_decimal_digits(n: nat)
    ensures
        decimal(n).len() >= 1,
        forall|i: int| 0 <= i < decimal(n).len() ==> text::is_digit(#[trigger] decimal(n)[i]),
        digits_value(decimal(n)) == n,
    decreases n,
{
    if n < 10 {
        assert(decimal(n).drop_last() =~= Seq::empty());
        assert(digits_value(Seq::<char>::empty()) == 0);
    } else {
        lemma_decimal_digits(n / 10);
        assert(decimal(n).drop_last() =~= decimal(n / 10));
    }
}

/// A number that was written in decimal is read back.
pub proof fn law_decimal_round_trip(n: nat, max: nat)
    requires
        n <= max,
    ensures
        parse_unsigned(decimal(n), max) == Some(n),
{
    lemma_decimal_digits(n);
    assert(text::is_digit(decimal(n)[0]));
}

// ---------------------------------------------------------------------------------------------
// Bytes in hexadecimal
// ---------------------------------------------------------------------------------------------
/// The `i`-th half of the bytes, the higher half of each byte first.
pub open spec fn nibble(bytes: Seq<u8>, i: int) -> int {
    if i % 2 == 0 {
        bytes[i / 2] as int / 16
    } else {
        bytes[i / 2] as int % 16
    }
}

/// Two hexadecimal digits for each byte, in capitals.
pub open spec fn hex_upper(bytes: Seq<u8>) -> Seq<char> {
    Seq::new(
        2 * bytes.len(),
        |i: int| hex_digit_upper(nibble(bytes, i)),
    )
}

/// Two hexadecimal digits for each byte, in small letters.
pub open spec fn hex_lower(bytes: Seq<u8>) -> Seq<char> {
    Seq::new(
        2 * bytes.len(),
        |i: int| hex_digit(nibble(bytes, i)),
    )
}

/// Nothing but hexadecimal digits, and an even number of them.
pub open spec fn is_hex_text(s: Seq<char>) -> bool {
    &&& s.len() % 2 == 0
    &&& forall|i: int| 0 <= i < s.len() ==> text::is_hex_digit(#[trigger] s[i])
}

/// The bytes that a text writes with two hexadecimal digits each.
pub open spec fn hex_bytes(s: Seq<char>) -> Option<Seq<u8>> {
    if is_hex_text(s) {
        Some(
            Seq::new(
                s.len() / 2,
                |i: int| (16 * text::hex_value(s[2 * i]) + text::hex_value(s[2 * i + 1])) as u8,
            ),
        )
    } else {
        None
    }
}

/// `bytes` in hexadecimal, in capitals.
pub fn to_hex_upper(bytes: &[u8]) -> (s: String)
    ensures
        s@ == hex_upper(bytes@),
{
    let mut s = String::new();
    let mut i: usize = 0;
    while i < bytes.len()
        invariant
            i <= bytes.len(),
            s@ == hex_upper(bytes@.take(i as int)),
        decreases bytes.len() - i,
    {
        let b = bytes[i];
        s.push(hex_digit_upper_char(b / 16));
        s.push(hex_digit_upper_char(b % 16));
        i += 1;
        assert(s@ =~= hex_upper(bytes@.take(i as int)));
    }
    assert(bytes@.take(i as int) =~= bytes@);
    s
}

/// `bytes` in hexadecimal, in small letters.
pub fn to_hex_lower(bytes: &[u8]) -> (s: String)
    ensures
        s@ == hex_lower(bytes@),
{
    let mut s = String::new();
    let mut i: usize = 0;
    while i < bytes.len()
        invariant
            i <= bytes.len(),
            s@ == hex_lower(bytes@.take(i as int)),
        decreases bytes.len() - i,
    {
        let b = bytes[i];
        s.push(hex_digit_char(b / 16));
        s.push(hex_digit_char(b % 16));
        i += 1;
        assert(s@ =~= hex_lower(bytes@.take(i as int)));
    }
    assert(bytes@.take(i as int) =~= bytes@);
    s
}

/// `s` holds nothing but hexadecimal digits, and an even number of them.
pub fn all_hex(s: &[char]) -> (r: bool)
    ensures
        r == is_hex_text(s@),
{
    if s.len() % 2 != 0 {
        return false;
    }
    let mut i: usize = 0;
    while i < s.len()
        invariant
            i <= s.len(),
            forall|j: int| 0 <= j < i ==> text::is_hex_digit(#[trigger] s@[j]),
        decreases s.len() - i,
    {
        if !char_is_hex_digit(s[i]) {
            return false;
        }
        i += 1;
    }
    true
}

/// The bytes that `s` writes in hexadecimal.
pub fn read_hex(s: &[char]) -> (r: Option<Vec<u8>>)
    ensures
        match r {
            Some(bytes) => hex_bytes(s@) == Some(bytes@),
            None => hex_bytes(s@) is None,
        },
{
    if !all_hex(s) {
        return None;
    }
    let mut bytes: Vec<u8> = Vec::new();
    let n: usize = s.len() / 2;
    let mut i: usize = 0;
    while i < n
        invariant
            n == s.len() / 2,
            i <= n,
            is_hex_text(s@),
            bytes@.len() == i,
            forall|j: int|
                0 <= j < i ==> #[trigger] bytes@[j] == (16 * text::hex_value(s@[2 * j]) + text::hex_value(
                    s@[2 * j + 1],
                )) as u8,
        decreases n - i,
    {
        assert(text::is_hex_digit(s@[2 * i as int]) && text::is_hex_digit(s@[2 * i + 1]));
        let high = char_hex_value(s[2 * i]);
        let low = char_hex_value(s[2 * i + 1]);
        bytes.push(16 * high + low);
        i += 1;
    }
    assert(bytes@ =~= hex_bytes(s@)->0);
    Some(bytes)
}

/// Bytes that were written in hexadecimal are read back.
pub proof fn law_hex_round_trip(bytes: Seq<u8>)
    ensures
        hex_bytes(hex_upper(bytes)) == Some(bytes),
        hex_bytes(hex_lower(bytes)) == Some(bytes),
{
    let u = hex_upper(bytes);
    let l = hex_lower(bytes);
    assert forall|i: int| 0 <= i < u.len() implies text::is_hex_digit(#[trigger] u[i]) && text::is_hex_digit(
        #[trigger] l[i],
    ) by {
        let b = bytes[i / 2] as int;
        assert(0 <= b / 16 < 16 && 0 <= b % 16 < 16);
    }
    assert forall|i: int| 0 <= i < bytes.len() implies (16 * text::hex_value(u[2 * i]) + text::hex_value(
        u[2 * i + 1],
    )) as u8 == bytes[i] && (16 * text::hex_value(l[2 * i]) + text::hex_value(l[2 * i + 1])) as u8
        == bytes[i] by {
        let b = bytes[i] as int;
        assert((2 * i) / 2 == i && (2 * i + 1) / 2 == i);
        assert(text::hex_value(u[2 * i]) == b / 16 && text::hex_value(u[2 * i + 1]) == b % 16);
        assert(text::hex_value(l[2 * i]) == b / 16 && text::hex_value(l[2 * i + 1]) == b % 16);
    }
    assert(hex_bytes(u)->0 =~= bytes);
    assert(hex_bytes(l)->0 =~= bytes);
}

} // verus!

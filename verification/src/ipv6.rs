//! IPv6 addresses and their text form.
use vstd::prelude::*;
use vstd::slice::slice_subrange;
use crate::number;
use crate::number::{push_decimal, push_hex, read_unsigned};
use crate::text;
use crate::text::{char_hex_value, char_is_hex_digit, chars_of, split_on};

verus! {

/// An IPv6 address: eight groups of sixteen bits, the most significant first.
#[derive(Clone, Copy, Debug, PartialEq, Eq, Hash)]
pub struct Ipv6Addr {
    pub segments: [u16; 8],
}

impl View for Ipv6Addr {
    type V = Seq<u16>;

    open spec fn view(&self) -> Seq<u16> {
        self.segments@
    }
}

// ---------------------------------------------------------------------------------------------
// Reading
// ---------------------------------------------------------------------------------------------
/// The value of a sequence of hexadecimal digits.
pub open spec fn hex_number(s: Seq<char>) -> nat
    decreases s.len(),
{
    if s.len() == 0 {
        0
    } else {
        hex_number(s.drop_last()) * 16 + text::hex_value(s.last()) as nat
    }
}

/// A group is written with one to four hexadecimal digits.
pub open spec fn parse_group(s: Seq<char>) -> Option<u16> {
    if 1 <= s.len() <= 4 && (forall|i: int|
        0 <= i < s.len() ==> text::is_hex_digit(#[trigger] s[i])) {
        Some(hex_number(s) as u16)
    } else {
        None
    }
}

/// A part of a dotted IPv4 address is a number up to 255, in decimal digits without leading
/// zeros.
pub open spec fn parse_octet(s: Seq<char>) -> Option<nat> {
    if s.len() > 0 && text::is_digit(s[0]) && (s[0] == '0' ==> s.len() == 1) {
        number::parse_unsigned(s, 255)
    } else {
        None
    }
}

/// A dotted IPv4 address stands for two groups.
pub open spec fn parse_dotted(s: Seq<char>) -> Option<Seq<u16>> {
    let p = text::split(s, '.');
    if p.len() == 4 {
        match (parse_octet(p[0]), parse_octet(p[1]), parse_octet(p[2]), parse_octet(p[3])) {
            (Some(a), Some(b), Some(c), Some(d)) => Some(
                seq![(a * 256 + b) as u16, (c * 256 + d) as u16],
            ),
            _ => None,
        }
    } else {
        None
    }
}

/// One piece between colons: a group or, where `dotted` allows it, a dotted IPv4 address.
pub open spec fn parse_piece(s: Seq<char>, dotted: bool) -> Option<Seq<u16>> {
    match parse_group(s) {
        Some(g) => Some(seq![g]),
        None => if dotted {
            parse_dotted(s)
        } else {
            None
        },
    }
}

/// The groups of a list of pieces. Only the last may be a dotted IPv4 address, and only where
/// `dotted` allows it.
pub open spec fn parse_pieces(p: Seq<Seq<char>>, dotted: bool) -> Option<Seq<u16>>
    decreases p.len(),
{
    if p.len() == 0 {
        Some(Seq::empty())
    } else {
        match (parse_piece(p[0], dotted && p.len() == 1), parse_pieces(p.skip(1), dotted)) {
            (Some(a), Some(b)) => Some(a + b),
            _ => None,
        }
    }
}

/// The groups of a text in which colons separate them; an empty text has none.
pub open spec fn parse_groups(s: Seq<char>, dotted: bool) -> Option<Seq<u16>> {
    if s.len() == 0 {
        Some(Seq::empty())
    } else {
        parse_pieces(text::split(s, ':'), dotted)
    }
}

/// The position of the first `::`; the length if there is none.
pub open spec fn find_gap(s: Seq<char>) -> int
    decreases s.len(),
{
    if s.len() == 0 || (s.len() > 1 && s[0] == ':' && s[1] == ':') {
        0
    } else {
        1 + find_gap(s.skip(1))
    }
}

/// `n` groups that are zero.
pub open spec fn zeros(n: nat) -> Seq<u16> {
    Seq::new(n, |i: int| 0u16)
}

/// The address that a text writes: eight groups, or fewer with one `::` in place of the zero
/// groups that are left out, at least one of them. The last two groups may be written as a
/// dotted IPv4 address.
pub open spec fn parse_ipv6(s: Seq<char>) -> Option<Seq<u16>> {
    let k = find_gap(s);
    if k < s.len() {
        match (parse_groups(s.take(k), false), parse_groups(s.skip(k + 2), true)) {
            (Some(a), Some(b)) => if a.len() + b.len() <= 7 {
                Some(a + zeros((8 - a.len() - b.len()) as nat) + b)
            } else {
                None
            },
            _ => None,
        }
    } else {
        match parse_groups(s, true) {
            Some(a) => if a.len() == 8 {
                Some(a)
            } else {
                None
            },
            None => None,
        }
    }
}

proof fn lemma_hex_number_bound(s: Seq<char>)
    requires
        s.len() <= 4,
        forall|i: int| 0 <= i < s.len() ==> text::is_hex_digit(#[trigger] s[i]),
    ensures
        s.len() <= 0 ==> hex_number(s) < 1,
        s.len() <= 1 ==> hex_number(s) < 16,
        s.len() <= 2 ==> hex_number(s) < 256,
        s.len() <= 3 ==> hex_number(s) < 4096,
        hex_number(s) < 65536,
    decreases s.len(),
{
    if s.len() > 0 {
        lemma_hex_number_bound(s.drop_last());
        assert(text::is_hex_digit(s.last()));
    }
}

fn read_group(s: &[char]) -> (r: Option<u16>)
    ensures
        r == parse_group(s@),
{
    if s.len() == 0 || s.len() > 4 {
        return None;
    }
    let mut value: u32 = 0;
    let mut i: usize = 0;
    while i < s.len()
        invariant
            i <= s.len() <= 4,
            value == hex_number(s@.take(i as int)),
            forall|j: int| 0 <= j < i ==> text::is_hex_digit(#[trigger] s@[j]),
        decreases s.len() - i,
    {
        if !char_is_hex_digit(s[i]) {
            return None;
        }
        proof {
            lemma_hex_number_bound(s@.take(i as int));
            assert(s@.take(i + 1).drop_last() =~= s@.take(i as int));
        }
        value = value * 16 + char_hex_value(s[i]) as u32;
        i += 1;
    }
    assert(s@.take(i as int) =~= s@);
    proof {
        lemma_hex_number_bound(s@);
    }
    Some(value as u16)
}

fn read_octet(s: &[char]) -> (r: Option<u16>)
    ensures
        match r {
            Some(n) => parse_octet(s@) == Some(n as nat) && n <= 255,
            None => parse_octet(s@) is None,
        },
{
    if s.len() == 0 || s[0] < '0' || '9' < s[0] {
        return None;
    }
    if s[0] == '0' && s.len() > 1 {
        return None;
    }
    match read_unsigned(s, 255) {
        Some(n) => Some(n as u16),
        None => None,
    }
}

fn read_dotted(s: &[char]) -> (r: Option<Vec<u16>>)
    ensures
        match r {
            Some(v) => parse_dotted(s@) == Some(v@),
            None => parse_dotted(s@) is None,
        },
{
    let p = split_on(s, '.');
    assert(text::pieces(p@).len() == p@.len());
    if p.len() != 4 {
        return None;
    }
    assert(text::pieces(p@)[0] == p@[0]@ && text::pieces(p@)[1] == p@[1]@ && text::pieces(p@)[2] == p@[2]@ && text::pieces(
        p@,
    )[3] == p@[3]@);
    match (read_octet(p[0]), read_octet(p[1]), read_octet(p[2]), read_octet(p[3])) {
        (Some(a), Some(b), Some(c), Some(d)) => {
            let mut v: Vec<u16> = Vec::new();
            v.push(a * 256 + b);
            v.push(c * 256 + d);
            assert(v@ =~= parse_dotted(s@)->0);
            Some(v)
        },
        _ => None,
    }
}

fn read_groups(s: &[char], dotted: bool) -> (r: Option<Vec<u16>>)
    ensures
        match r {
            Some(v) => parse_groups(s@, dotted) == Some(v@),
            None => parse_groups(s@, dotted) is None,
        },
{
    let mut v: Vec<u16> = Vec::new();
    if s.len() == 0 {
        assert(v@ =~= Seq::empty());
        return Some(v);
    }
    let p = split_on(s, ':');
    let ghost all = text::pieces(p@);
    let mut i: usize = 0;
    assert(all.skip(0) =~= all);
    while i < p.len()
        invariant
            i <= p.len(),
            all == text::pieces(p@),
            s@.len() > 0,
            all == text::split(s@, ':'),
            match parse_pieces(all.skip(i as int), dotted) {
                Some(rest) => parse_pieces(all, dotted) == Some(v@ + rest),
                None => parse_pieces(all, dotted) is None,
            },
        decreases p.len() - i,
    {
        let ghost rest = all.skip(i as int);
        assert(rest[0] == p@[i as int]@);
        assert(rest.skip(1) =~= all.skip(i + 1));
        let last = i + 1 == p.len();
        let ghost before = v@;
        match read_group(p[i]) {
            Some(g) => {
                v.push(g);
                assert(v@ =~= before + seq![g]);
            },
            None => {
                if !(dotted && last) {
                    return None;
                }
                match read_dotted(p[i]) {
                    Some(mut two) => {
                        let ghost pair = two@;
                        v.append(&mut two);
                        assert(v@ =~= before + pair);
                    },
                    None => {
                        return None;
                    },
                }
            },
        }
        proof {
            let one = parse_piece(rest[0], dotted && last)->0;
            assert(v@ =~= before + one);
            if let Some(tail) = parse_pieces(rest.skip(1), dotted) {
                assert(before + (one + tail) =~= v@ + tail);
            }
        }
        i += 1;
    }
    assert(all.skip(i as int) =~= Seq::empty());
    assert(v@ + Seq::<u16>::empty() =~= v@);
    Some(v)
}

/// The first `::` is where none stands before it.
pub proof fn lemma_find_gap(s: Seq<char>, k: int)
    requires
        0 <= k <= s.len(),
        forall|i: int| 0 <= i < k && i + 1 < s.len() ==> !(#[trigger] s[i] == ':' && s[i + 1] == ':'),
        k < s.len() ==> k + 1 < s.len() && s[k] == ':' && s[k + 1] == ':',
    ensures
        find_gap(s) == k,
    decreases s.len(),
{
    if k > 0 {
        assert(!(s.len() > 1 && s[0] == ':' && s[1] == ':'));
        let t = s.skip(1);
        assert forall|i: int| 0 <= i < k - 1 && i + 1 < t.len() implies !(#[trigger] t[i] == ':'
            && t[i + 1] == ':') by {
            assert(t[i] == s[i + 1]);
        }
        lemma_find_gap(t, k - 1);
    }
}

/// The address that `s` writes.
pub fn read_ipv6(s: &[char]) -> (r: Option<Ipv6Addr>)
    ensures
        match r {
            Some(a) => parse_ipv6(s@) == Some(a@),
            None => parse_ipv6(s@) is None,
        },
{
    let n = s.len();
    let mut k: usize = 0;
    while k < n && !(n - k > 1 && s[k] == ':' && s[k + 1] == ':')
        invariant
            n == s.len(),
            k <= n,
            forall|i: int|
                0 <= i < k && i + 1 < s@.len() ==> !(#[trigger] s@[i] == ':' && s@[i + 1] == ':'),
        decreases n - k,
    {
        k += 1;
    }
    proof {
        lemma_find_gap(s@, k as int);
    }
    if k < n {
        let head = read_groups(slice_subrange(s, 0, k), false);
        let tail = read_groups(slice_subrange(s, k + 2, n), true);
        match (head, tail) {
            (Some(a), Some(b)) => {
                if a.len() > 7 || b.len() > 7 || a.len() + b.len() > 7 {
                    return None;
                }
                let mut segments: [u16; 8] = [0; 8];
                let mut i: usize = 0;
                while i < a.len()
                    invariant
                        i <= a.len(),
                        a@.len() + b@.len() <= 7,
                        segments@ =~= a@.take(i as int) + zeros((8 - i) as nat),
                    decreases a.len() - i,
                {
                    segments[i] = a[i];
                    i += 1;
                }
                let mut j: usize = 0;
                let gap: usize = 8 - b.len();
                while j < b.len()
                    invariant
                        j <= b.len(),
                        a@.len() + b@.len() <= 7,
                        gap == 8 - b@.len(),
                        segments@ =~= a@ + zeros((8 - a@.len() - b@.len()) as nat) + b@.take(
                            j as int,
                        ) + zeros((b@.len() - j) as nat),
                    decreases b.len() - j,
                {
                    segments[gap + j] = b[j];
                    j += 1;
                }
                assert(segments@ =~= a@ + zeros((8 - a@.len() - b@.len()) as nat) + b@);
                Some(Ipv6Addr { segments })
            },
            _ => None,
        }
    } else {
        match read_groups(s, true) {
            Some(a) => {
                if a.len() != 8 {
                    return None;
                }
                let segments: [u16; 8] = [a[0], a[1], a[2], a[3], a[4], a[5], a[6], a[7]];
                assert(segments@ =~= a@);
                Some(Ipv6Addr { segments })
            },
            None => None,
        }
    }
}

// ---------------------------------------------------------------------------------------------
// Writing
// ---------------------------------------------------------------------------------------------
/// Groups in hexadecimal with colons between them.
pub open spec fn groups_text(g: Seq<u16>) -> Seq<char>
    decreases g.len(),
{
    if g.len() == 0 {
        Seq::empty()
    } else if g.len() == 1 {
        number::hex(g[0] as nat)
    } else {
        groups_text(g.drop_last()).push(':') + number::hex(g.last() as nat)
    }
}

/// Two groups as a dotted IPv4 address.
pub open spec fn dotted_text(a: u16, b: u16) -> Seq<char> {
    number::decimal((a / 256) as nat).push('.') + number::decimal((a % 256) as nat).push('.')
        + number::decimal((b / 256) as nat).push('.') + number::decimal((b % 256) as nat)
}

/// The number of zero groups in a row from index `i` on.
pub open spec fn zero_run(g: Seq<u16>, i: int) -> nat
    decreases g.len() - i,
{
    if 0 <= i < g.len() && g[i] == 0 {
        1 + zero_run(g, i + 1)
    } else {
        0
    }
}

/// Where the longest run of zero groups begins that begins at `i` or later; the first such run
/// if there are several.
pub open spec fn longest_run(g: Seq<u16>, i: int) -> int
    decreases g.len() - i,
{
    if i >= g.len() {
        i
    } else {
        let later = longest_run(g, i + 1);
        if zero_run(g, i) >= zero_run(g, later) {
            i
        } else {
            later
        }
    }
}

/// An IPv4-mapped address: five zero groups and a group of ones before the IPv4 address.
pub open spec fn is_mapped(g: Seq<u16>) -> bool {
    g[0] == 0 && g[1] == 0 && g[2] == 0 && g[3] == 0 && g[4] == 0 && g[5] == 0xffff
}

/// The canonical text of an address: groups in hexadecimal without leading zeros, `::` in place
/// of the first longest run of at least two zero groups; an IPv4-mapped address is written with
/// its IPv4 address dotted.
pub open spec fn ipv6_text(g: Seq<u16>) -> Seq<char> {
    let start = longest_run(g, 0);
    let len = zero_run(g, start);
    if is_mapped(g) {
        "::ffff:"@ + dotted_text(g[6], g[7])
    } else if len > 1 {
        groups_text(g.take(start)) + "::"@ + groups_text(g.skip(start + len))
    } else {
        groups_text(g)
    }
}

fn push_groups(out: &mut String, g: &[u16])
    ensures
        final(out)@ == old(out)@ + groups_text(g@),
{
    let mut i: usize = 0;
    assert(out@ + groups_text(g@.take(0)) =~= out@);
    while i < g.len()
        invariant
            i <= g.len(),
            out@ == old(out)@ + groups_text(g@.take(i as int)),
        decreases g.len() - i,
    {
        proof {
            assert(g@.take(i + 1).drop_last() =~= g@.take(i as int));
        }
        let ghost before = out@;
        if i > 0 {
            out.push(':');
        }
        push_hex(out, g[i] as u32);
        i += 1;
        proof {
            if i > 1 {
                assert(out@ =~= old(out)@ + (groups_text(g@.take(i - 1)).push(':') + number::hex(
                    g@[i - 1] as nat,
                )));
            } else {
                assert(out@ =~= old(out)@ + number::hex(g@[0] as nat));
            }
        }
    }
    assert(g@.take(i as int) =~= g@);
}

fn push_dotted(out: &mut String, a: u16, b: u16)
    ensures
        final(out)@ == old(out)@ + dotted_text(a, b),
{
    push_decimal(out, (a / 256) as u128);
    out.push('.');
    push_decimal(out, (a % 256) as u128);
    out.push('.');
    push_decimal(out, (b / 256) as u128);
    out.push('.');
    push_decimal(out, (b % 256) as u128);
    assert(out@ =~= old(out)@ + dotted_text(a, b));
}

fn count_zeros(g: &[u16], i: usize) -> (n: usize)
    requires
        i <= g@.len(),
    ensures
        n == zero_run(g@, i as int),
        i + n <= g@.len(),
    decreases g@.len() - i,
{
    if i < g.len() && g[i] == 0 {
        1 + count_zeros(g, i + 1)
    } else {
        0
    }
}

fn find_longest_run(g: &[u16], i: usize) -> (k: usize)
    requires
        i <= g@.len(),
    ensures
        k == longest_run(g@, i as int),
        i <= k <= g@.len(),
    decreases g@.len() - i,
{
    if i >= g.len() {
        i
    } else {
        let later = find_longest_run(g, i + 1);
        if count_zeros(g, i) >= count_zeros(g, later) {
            i
        } else {
            later
        }
    }
}

impl Ipv6Addr {
    /// The address with the given groups.
    pub fn new(a: u16, b: u16, c: u16, d: u16, e: u16, f: u16, g: u16, h: u16) -> (r: Ipv6Addr)
        ensures
            r@ == seq![a, b, c, d, e, f, g, h],
    {
        let r = Ipv6Addr { segments: [a, b, c, d, e, f, g, h] };
        assert(r@ =~= seq![a, b, c, d, e, f, g, h]);
        r
    }

    /// The address that `s` writes.
    pub fn parse(s: &str) -> (r: Option<Ipv6Addr>)
        ensures
            match r {
                Some(a) => parse_ipv6(s@) == Some(a@),
                None => parse_ipv6(s@) is None,
            },
    {
        let chars = chars_of(s);
        read_ipv6(&chars)
    }

    /// Appends the canonical text of the address.
    pub fn push_to(&self, out: &mut String)
        ensures
            final(out)@ == old(out)@ + ipv6_text(self@),
    {
        let g: &[u16] = &self.segments;
        assert(g@ =~= self@);
        let start = find_longest_run(g, 0);
        let len = count_zeros(g, start);
        if g[0] == 0 && g[1] == 0 && g[2] == 0 && g[3] == 0 && g[4] == 0 && g[5] == 0xffff {
            out.append("::ffff:");
            push_dotted(out, g[6], g[7]);
            assert(out@ =~= old(out)@ + ipv6_text(self@));
        } else if len > 1 {
            push_groups(out, slice_subrange(g, 0, start));
            out.append("::");
            push_groups(out, slice_subrange(g, start + len, g.len()));
            assert(out@ =~= old(out)@ + ipv6_text(self@));
        } else {
            push_groups(out, g);
        }
    }

    /// The canonical text of the address.
    pub fn to_text(&self) -> (s: String)
        ensures
            s@ == ipv6_text(self@),
    {
        let mut s = String::new();
        self.push_to(&mut s);
        assert(s@ =~= ipv6_text(self@));
        s
    }
}

/// A text does not write an address.
#[derive(Debug, Clone, Copy, PartialEq, Eq)]
pub struct InvalidAddress;

impl core::str::FromStr for Ipv6Addr {
    type Err = InvalidAddress;

    fn from_str(s: &str) -> (r: Result<Ipv6Addr, InvalidAddress>)
        ensures
            match r {
                Ok(a) => parse_ipv6(s@) == Some(a@),
                Err(_) => parse_ipv6(s@) is None,
            },
    {
        match Ipv6Addr::parse(s) {
            Some(a) => Ok(a),
            None => Err(InvalidAddress),
        }
    }
}

// ---------------------------------------------------------------------------------------------
// Reading back what was written
// ---------------------------------------------------------------------------------------------
proof fn lemma_hex_read(n: nat, width: nat)
    requires
        width >= 1,
        n < vstd::arithmetic::power::pow(16, width),
    ensures
        1 <= number::hex(n).len() <= width,
        forall|i: int| 0 <= i < number::hex(n).len() ==> text::is_hex_digit(
            #[trigger] number::hex(n)[i],
        ),
        hex_number(number::hex(n)) == n,
    decreases width,
{
    let t = number::hex(n);
    vstd::arithmetic::power::lemma_pow1(16);
    if n < 16 {
        assert(t.drop_last() =~= Seq::empty());
        assert(t.last() == number::hex_digit(n as int));
        assert(hex_number(Seq::<char>::empty()) == 0);
    } else {
        if width == 1 {
            assert(false);
        }
        let m = n / 16;
        vstd::arithmetic::power::lemma_pow_adds(16, 1, (width - 1) as nat);
        assert(m < vstd::arithmetic::power::pow(16, (width - 1) as nat));
        lemma_hex_read(m, (width - 1) as nat);
        assert(t == number::hex(m).push(number::hex_digit((n % 16) as int)));
        assert(t.drop_last() =~= number::hex(m));
        assert forall|i: int| 0 <= i < t.len() implies text::is_hex_digit(#[trigger] t[i]) by {
            if i < t.len() - 1 {
                assert(t[i] == number::hex(m)[i]);
            }
        }
    }
}

/// A group that was written is read back.
proof fn lemma_group_read(g: u16)
    ensures
        parse_group(number::hex(g as nat)) == Some(g),
        !number::hex(g as nat).contains(':'),
        number::hex(g as nat).len() >= 1,
{
    assert(vstd::arithmetic::power::pow(16, 4) == 65536) by {
        reveal(vstd::arithmetic::power::pow);
        reveal_with_fuel(vstd::arithmetic::power::pow, 5);
    }
    lemma_hex_read(g as nat, 4);
    let t = number::hex(g as nat);
    if t.contains(':') {
        let i = choose|i: int| 0 <= i < t.len() && t[i] == ':';
        assert(text::is_hex_digit(t[i]));
    }
}

/// Groups are written one after the other.
pub proof fn lemma_groups_text_first(g: Seq<u16>)
    requires
        g.len() >= 2,
    ensures
        groups_text(g) == number::hex(g[0] as nat).push(':') + groups_text(g.skip(1)),
    decreases g.len(),
{
    let first = number::hex(g[0] as nat).push(':');
    if g.len() == 2 {
        assert(g.drop_last() =~= seq![g[0]]);
        assert(g.skip(1) =~= seq![g[1]]);
        assert(groups_text(seq![g[0]]) == number::hex(g[0] as nat));
        assert(groups_text(seq![g[1]]) == number::hex(g[1] as nat));
    } else {
        lemma_groups_text_first(g.drop_last());
        assert(g.drop_last().skip(1) =~= g.skip(1).drop_last());
        let rest = groups_text(g.skip(1).drop_last());
        let last = number::hex(g.last() as nat);
        assert((first + rest).push(':') + last =~= first + (rest.push(':') + last));
        assert(g.skip(1).last() == g.last());
    }
}

proof fn lemma_groups_read(g: Seq<u16>, dotted: bool)
    ensures
        parse_groups(groups_text(g), dotted) == Some(g),
        g.len() > 0 ==> groups_text(g).len() > 0 && parse_pieces(
            text::split(groups_text(g), ':'),
            dotted,
        ) == Some(g),
    decreases g.len(),
{
    assert(parse_pieces(Seq::<Seq<char>>::empty(), dotted) == Some(Seq::<u16>::empty()));
    if g.len() > 0 {
        lemma_group_read(g[0]);
        let h = number::hex(g[0] as nat);
        if g.len() == 1 {
            text::lemma_split_none(h, ':');
            let p = seq![h];
            assert(p.skip(1) =~= Seq::empty());
            assert(seq![g[0]] + Seq::<u16>::empty() =~= g);
        } else {
            lemma_groups_text_first(g);
            lemma_groups_read(g.skip(1), dotted);
            let rest = text::split(groups_text(g.skip(1)), ':');
            text::lemma_split_first(h, ':', groups_text(g.skip(1)));
            let p = seq![h] + rest;
            assert(p.skip(1) =~= rest);
            assert(p[0] == h);
            assert(seq![g[0]] + g.skip(1) =~= g);
        }
    }
}

/// No colon stands at the start or at the end, and no two stand side by side.
spec fn is_spaced(t: Seq<char>) -> bool {
    &&& t.len() > 0
    &&& t[0] != ':'
    &&& t.last() != ':'
    &&& forall|i: int| 0 <= i < t.len() - 1 ==> !(#[trigger] t[i] == ':' && t[i + 1] == ':')
}

proof fn lemma_groups_spaced(g: Seq<u16>)
    requires
        g.len() > 0,
    ensures
        is_spaced(groups_text(g)),
    decreases g.len(),
{
    let h = number::hex(g.last() as nat);
    lemma_group_read(g.last());
    assert forall|i: int| 0 <= i < h.len() implies #[trigger] h[i] != ':' by {
        assert(h.contains(h[i]));
    }
    if g.len() > 1 {
        let before = groups_text(g.drop_last());
        lemma_groups_spaced(g.drop_last());
        let t = groups_text(g);
        assert(t == before.push(':') + h);
        assert forall|i: int| 0 <= i < t.len() - 1 implies !(#[trigger] t[i] == ':' && t[i + 1]
            == ':') by {
            if i < before.len() - 1 {
                assert(t[i] == before[i] && t[i + 1] == before[i + 1]);
            } else if i == before.len() - 1 {
                assert(t[i] == before.last());
            } else {
                assert(t[i + 1] == h[i - before.len()]);
            }
        }
        assert(t[0] == before[0]);
        assert(t.last() == h.last());
    }
}

proof fn lemma_zero_run(g: Seq<u16>, i: int)
    requires
        0 <= i <= g.len(),
    ensures
        i + zero_run(g, i) <= g.len(),
        forall|j: int| i <= j < i + zero_run(g, i) ==> #[trigger] g[j] == 0,
    decreases g.len() - i,
{
    if i < g.len() && g[i] == 0 {
        lemma_zero_run(g, i + 1);
    }
}

proof fn lemma_longest_run(g: Seq<u16>, i: int)
    requires
        0 <= i <= g.len(),
    ensures
        i <= longest_run(g, i) <= g.len(),
    decreases g.len() - i,
{
    if i < g.len() {
        lemma_longest_run(g, i + 1);
    }
}

proof fn lemma_octet_read(n: nat)
    requires
        n <= 255,
    ensures
        parse_octet(number::decimal(n)) == Some(n),
        !number::decimal(n).contains('.'),
        !number::decimal(n).contains(':'),
        number::decimal(n).len() > 0,
{
    number::lemma_decimal_digits(n);
    number::law_decimal_round_trip(n, 255);
    let t = number::decimal(n);
    assert forall|i: int| 0 <= i < t.len() implies #[trigger] t[i] != '.' && t[i] != ':' by {
        assert(text::is_digit(t[i]));
    }
    lemma_leading_digit(n);
}

/// A number other than zero does not begin with a zero.
proof fn lemma_leading_digit(n: nat)
    ensures
        number::decimal(n).len() > 0,
        number::decimal(n)[0] == '0' ==> n == 0,
        n == 0 ==> number::decimal(n).len() == 1,
    decreases n,
{
    if n >= 10 {
        lemma_leading_digit(n / 10);
        assert(number::decimal(n)[0] == number::decimal(n / 10)[0]);
    }
}

/// A dotted IPv4 address that was written is read back, and it is no group.
pub proof fn lemma_dotted_read(a: u16, b: u16)
    ensures
        parse_dotted(dotted_text(a, b)) == Some(seq![a, b]),
        parse_group(dotted_text(a, b)) is None,
        !dotted_text(a, b).contains(':'),
        dotted_text(a, b).len() > 0,
{
    let w = number::decimal((a / 256) as nat);
    let x = number::decimal((a % 256) as nat);
    let y = number::decimal((b / 256) as nat);
    let z = number::decimal((b % 256) as nat);
    lemma_octet_read((a / 256) as nat);
    lemma_octet_read((a % 256) as nat);
    lemma_octet_read((b / 256) as nat);
    lemma_octet_read((b % 256) as nat);
    let t = dotted_text(a, b);
    assert(t =~= w.push('.') + (x.push('.') + (y.push('.') + z)));
    text::lemma_split_first(w, '.', x.push('.') + (y.push('.') + z));
    text::lemma_split_first(x, '.', y.push('.') + z);
    text::lemma_split_first(y, '.', z);
    text::lemma_split_none(z, '.');
    let p = text::split(t, '.');
    assert(p =~= seq![w, x, y, z]);
    assert(((a / 256) as nat * 256 + (a % 256) as nat) as u16 == a);
    assert(((b / 256) as nat * 256 + (b % 256) as nat) as u16 == b);
    assert(t[w.len() as int] == '.');
    assert(!text::is_hex_digit(t[w.len() as int]));
    if t.contains(':') {
        let i = choose|i: int| 0 <= i < t.len() && t[i] == ':';
        let m = w.len() as int;
        let n = m + 1 + x.len() as int;
        let o = n + 1 + y.len() as int;
        if i < m {
            assert(w[i] == ':');
            assert(w.contains(':'));
        } else if i > m && i < n {
            assert(x[i - m - 1] == ':');
            assert(x.contains(':'));
        } else if i > n && i < o {
            assert(y[i - n - 1] == ':');
            assert(y.contains(':'));
        } else if i > o {
            assert(z[i - o - 1] == ':');
            assert(z.contains(':'));
        }
    }
}

proof fn lemma_mapped_read(g: Seq<u16>)
    requires
        g.len() == 8,
        is_mapped(g),
    ensures
        parse_ipv6(ipv6_text(g)) == Some(g),
{
    let d = dotted_text(g[6], g[7]);
    let s = "::ffff:"@ + d;
    reveal_strlit("::ffff:");
    let f = seq!['f', 'f', 'f', 'f'];
    assert(s[0] == ':' && s[1] == ':');
    assert(find_gap(s) == 0);
    assert(s.take(0) =~= Seq::empty());
    let rest = s.skip(2);
    assert(rest =~= f.push(':') + d);
    lemma_dotted_read(g[6], g[7]);
    assert(!f.contains(':'));
    text::lemma_split_first(f, ':', d);
    text::lemma_split_none(d, ':');
    let p = text::split(rest, ':');
    assert(p =~= seq![f, d]);
    assert(parse_group(f) == Some(0xffffu16)) by {
        reveal_with_fuel(hex_number, 5);
        assert(f.drop_last() =~= seq!['f', 'f', 'f']);
        assert(seq!['f', 'f', 'f'].drop_last() =~= seq!['f', 'f']);
        assert(seq!['f', 'f'].drop_last() =~= seq!['f']);
        assert(seq!['f'].drop_last() =~= Seq::<char>::empty());
    }
    assert(p.skip(1) =~= seq![d]);
    assert(seq![d].skip(1) =~= Seq::<Seq<char>>::empty());
    assert(parse_pieces(seq![d], true) == Some(seq![g[6], g[7]])) by {
        assert(parse_pieces(Seq::<Seq<char>>::empty(), true) == Some(Seq::<u16>::empty()));
        assert(seq![g[6], g[7]] + Seq::<u16>::empty() =~= seq![g[6], g[7]]);
    }
    let b = seq![0xffffu16] + seq![g[6], g[7]];
    assert(parse_pieces(p, true) == Some(b));
    assert(Seq::<u16>::empty() + zeros(5) + b =~= g);
}

/// An address that was written is read back.
pub proof fn law_ipv6_round_trip(a: Seq<u16>)
    requires
        a.len() == 8,
    ensures
        parse_ipv6(ipv6_text(a)) == Some(a),
{
    let start = longest_run(a, 0);
    let len = zero_run(a, start);
    lemma_longest_run(a, 0);
    lemma_zero_run(a, start);
    if is_mapped(a) {
        lemma_mapped_read(a);
    } else if len > 1 {
        let before = a.take(start);
        let after = a.skip(start + len);
        let t = groups_text(before);
        let u = groups_text(after);
        let s = t + "::"@ + u;
        reveal_strlit("::");
        lemma_groups_read(before, false);
        lemma_groups_read(after, true);
        if before.len() > 0 {
            lemma_groups_spaced(before);
        }
        let k = t.len() as int;
        assert(s[k] == ':' && s[k + 1] == ':');
        assert forall|i: int| 0 <= i < k implies !(#[trigger] s[i] == ':' && s[i + 1] == ':') by {
            assert(s[i] == t[i]);
            if i == k - 1 {
                assert(t[i] == t.last());
            } else {
                assert(s[i + 1] == t[i + 1]);
            }
        }
        lemma_find_gap(s, k);
        assert(s.take(k) =~= t);
        assert(s.skip(k + 2) =~= u);
        assert(before + zeros((8 - before.len() - after.len()) as nat) + after =~= a);
    } else {
        let t = groups_text(a);
        lemma_groups_read(a, true);
        lemma_groups_spaced(a);
        assert forall|i: int| 0 <= i < t.len() implies !(#[trigger] t[i] == ':' && i + 1 < t.len()
            && t[i + 1] == ':') by {}
        lemma_find_gap(t, t.len() as int);
    }
}

/// A character of the text of an address.
pub open spec fn is_address_char(c: char) -> bool {
    text::is_hex_digit(c) || c == ':' || c == '.'
}

proof fn lemma_groups_chars(g: Seq<u16>)
    ensures
        forall|i: int| 0 <= i < groups_text(g).len() ==> is_address_char(
            #[trigger] groups_text(g)[i],
        ),
    decreases g.len(),
{
    if g.len() > 0 {
        let h = number::hex(g.last() as nat);
        lemma_group_read(g.last());
        let t = groups_text(g);
        if g.len() > 1 {
            let before = groups_text(g.drop_last());
            lemma_groups_chars(g.drop_last());
            assert forall|i: int| 0 <= i < t.len() implies is_address_char(#[trigger] t[i]) by {
                if i < before.len() {
                    assert(t[i] == before[i]);
                } else if i > before.len() {
                    assert(t[i] == h[i - before.len() - 1]);
                }
            }
        } else {
            assert(t == h);
        }
    }
}

proof fn lemma_decimal_chars(n: nat)
    ensures
        forall|i: int| 0 <= i < number::decimal(n).len() ==> is_address_char(
            #[trigger] number::decimal(n)[i],
        ),
{
    number::lemma_decimal_digits(n);
    assert forall|i: int| 0 <= i < number::decimal(n).len() implies is_address_char(
        #[trigger] number::decimal(n)[i],
    ) by {
        assert(text::is_digit(number::decimal(n)[i]));
    }
}

/// The text of an address holds hexadecimal digits, colons and dots alone.
pub proof fn law_ipv6_text_characters(a: Seq<u16>)
    requires
        a.len() == 8,
    ensures
        forall|i: int| 0 <= i < ipv6_text(a).len() ==> is_address_char(#[trigger] ipv6_text(a)[i]),
{
    let t = ipv6_text(a);
    let start = longest_run(a, 0);
    let len = zero_run(a, start);
    if is_mapped(a) {
        reveal_strlit("::ffff:");
        let w = number::decimal((a[6] / 256) as nat);
        let x = number::decimal((a[6] % 256) as nat);
        let y = number::decimal((a[7] / 256) as nat);
        let z = number::decimal((a[7] % 256) as nat);
        lemma_decimal_chars((a[6] / 256) as nat);
        lemma_decimal_chars((a[6] % 256) as nat);
        lemma_decimal_chars((a[7] / 256) as nat);
        lemma_decimal_chars((a[7] % 256) as nat);
        assert forall|i: int| 0 <= i < t.len() implies is_address_char(#[trigger] t[i]) by {
            let m = 7 + w.len() as int;
            let n = m + 1 + x.len() as int;
            let o = n + 1 + y.len() as int;
            if i < 7 {
                assert(t[i] == "::ffff:"@[i]);
            } else if i < m {
                assert(t[i] == w[i - 7]);
            } else if i > m && i < n {
                assert(t[i] == x[i - m - 1]);
            } else if i > n && i < o {
                assert(t[i] == y[i - n - 1]);
            } else if i > o {
                assert(t[i] == z[i - o - 1]);
            }
        }
    } else if len > 1 {
        reveal_strlit("::");
        let before = groups_text(a.take(start));
        let after = groups_text(a.skip(start + len));
        lemma_groups_chars(a.take(start));
        lemma_groups_chars(a.skip(start + len));
        assert forall|i: int| 0 <= i < t.len() implies is_address_char(#[trigger] t[i]) by {
            if i < before.len() {
                assert(t[i] == before[i]);
            } else if i >= before.len() + 2 {
                assert(t[i] == after[i - before.len() - 2]);
            }
        }
    } else {
        lemma_groups_chars(a);
    }
}

} // verus!

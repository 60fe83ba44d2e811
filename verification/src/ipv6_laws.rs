//! Laws of IPv6 addresses: which texts are read and how an address is written.
use vstd::prelude::*;
use crate::ipv6;
use crate::number;
use crate::text;
use crate::text_laws;

verus! {

// ---------------------------------------------------------------------------------------------
// Groups
// ---------------------------------------------------------------------------------------------
/// A group has one to four hexadecimal digits and nothing else. Each digit counts sixteen times
/// the one after it, and small and capital letters count alike.
pub proof fn law_group(s: Seq<char>, c: char)
    ensures
        ipv6::parse_group(s) is Some <==> 1 <= s.len() <= 4 && forall|i: int|
            0 <= i < s.len() ==> text::is_hex_digit(#[trigger] s[i]),
        text::is_hex_digit(c) ==> ipv6::parse_group(seq![c]) == Some(text::hex_value(c) as u16),
        ipv6::parse_group(s) is Some && s.len() < 4 && text::is_hex_digit(c) ==> ipv6::parse_group(
            s.push(c),
        ) == Some((16 * (ipv6::parse_group(s)->0) + text::hex_value(c)) as u16),
{
    let one = seq![c];
    assert(one.drop_last() =~= Seq::<char>::empty());
    reveal_with_fuel(ipv6::hex_number, 2);
    let t = s.push(c);
    assert(t.drop_last() =~= s);
    if ipv6::parse_group(s) is Some && s.len() < 4 && text::is_hex_digit(c) {
        lemma_number_bound(s);
        assert forall|i: int| 0 <= i < t.len() implies text::is_hex_digit(#[trigger] t[i]) by {
            if i < s.len() {
                assert(t[i] == s[i]);
            }
        }
    }
}

proof fn lemma_number_bound(s: Seq<char>)
    requires
        forall|i: int| 0 <= i < s.len() ==> text::is_hex_digit(#[trigger] s[i]),
    ensures
        s.len() <= 0 ==> ipv6::hex_number(s) < 1,
        s.len() <= 1 ==> ipv6::hex_number(s) < 16,
        s.len() <= 2 ==> ipv6::hex_number(s) < 256,
        s.len() <= 3 ==> ipv6::hex_number(s) < 4096,
    decreases s.len(),
{
    if s.len() > 0 && s.len() <= 3 {
        lemma_number_bound(s.drop_last());
        assert(text::is_hex_digit(s.last()));
    }
}

/// Pieces that are groups, and the groups that they write.
pub open spec fn are_groups(pieces: Seq<Seq<char>>, groups: Seq<u16>) -> bool {
    &&& pieces.len() == groups.len()
    &&& forall|i: int|
        0 <= i < pieces.len() ==> ipv6::parse_group(#[trigger] pieces[i]) == Some(groups[i])
}

proof fn lemma_group_piece(s: Seq<char>)
    requires
        ipv6::parse_group(s) is Some,
    ensures
        s.len() > 0,
        !s.contains(':'),
        !s.contains('.'),
{
    assert forall|i: int| 0 <= i < s.len() implies s[i] != ':' && s[i] != '.' by {
        assert(text::is_hex_digit(s[i]));
    }
}

proof fn lemma_pieces_read(pieces: Seq<Seq<char>>, groups: Seq<u16>, dotted: bool)
    requires
        are_groups(pieces, groups),
    ensures
        ipv6::parse_pieces(pieces, dotted) == Some(groups),
    decreases pieces.len(),
{
    if pieces.len() == 0 {
        assert(groups =~= Seq::<u16>::empty());
    } else {
        let p = pieces.skip(1);
        let g = groups.skip(1);
        assert forall|i: int| 0 <= i < p.len() implies ipv6::parse_group(#[trigger] p[i]) == Some(
            g[i],
        ) by {
            assert(p[i] == pieces[i + 1]);
        }
        lemma_pieces_read(p, g, dotted);
        assert(seq![groups[0]] + g =~= groups);
    }
}

proof fn lemma_groups_joined(pieces: Seq<Seq<char>>, groups: Seq<u16>, dotted: bool)
    requires
        are_groups(pieces, groups),
    ensures
        ipv6::parse_groups(text_laws::joined(pieces, ':'), dotted) == Some(groups),
{
    let s = text_laws::joined(pieces, ':');
    if pieces.len() == 0 {
        assert(groups =~= Seq::<u16>::empty());
    } else {
        assert forall|i: int| 0 <= i < pieces.len() implies !(#[trigger] pieces[i]).contains(':') by {
            lemma_group_piece(pieces[i]);
        }
        text_laws::law_split(pieces, ':');
        lemma_pieces_read(pieces, groups, dotted);
        lemma_spaced(pieces, groups);
    }
}

/// No colon stands at the start or at the end, and no two stand side by side.
spec fn is_spaced(t: Seq<char>) -> bool {
    &&& t.len() > 0
    &&& t[0] != ':'
    &&& t.last() != ':'
    &&& forall|i: int| 0 <= i < t.len() - 1 ==> !(#[trigger] t[i] == ':' && t[i + 1] == ':')
}

proof fn lemma_spaced(pieces: Seq<Seq<char>>, groups: Seq<u16>)
    requires
        are_groups(pieces, groups),
        pieces.len() > 0,
    ensures
        is_spaced(text_laws::joined(pieces, ':')),
    decreases pieces.len(),
{
    let h = pieces[0];
    assert(ipv6::parse_group(pieces[0]) == Some(groups[0]));
    lemma_group_piece(h);
    assert forall|i: int| 0 <= i < h.len() implies #[trigger] h[i] != ':' by {
        assert(h.contains(h[i]));
    }
    if pieces.len() > 1 {
        let p = pieces.skip(1);
        let g = groups.skip(1);
        assert forall|i: int| 0 <= i < p.len() implies ipv6::parse_group(#[trigger] p[i]) == Some(
            g[i],
        ) by {
            assert(p[i] == pieces[i + 1]);
        }
        lemma_spaced(p, g);
        let rest = text_laws::joined(p, ':');
        let t = h.push(':') + rest;
        assert forall|i: int| 0 <= i < t.len() - 1 implies !(#[trigger] t[i] == ':' && t[i + 1]
            == ':') by {
            if i < h.len() {
                assert(t[i] == h[i]);
            } else if i == h.len() {
                assert(t[i + 1] == rest[0]);
            } else {
                assert(t[i] == rest[i - h.len() - 1]);
                assert(t[i + 1] == rest[i - h.len()]);
            }
        }
        assert(t[0] == h[0]);
        assert(t.last() == rest.last());
    }
}

// ---------------------------------------------------------------------------------------------
// Reading
// ---------------------------------------------------------------------------------------------
/// Groups with colons between them are an address exactly if there are eight.
pub proof fn law_all_groups_read(pieces: Seq<Seq<char>>, groups: Seq<u16>)
    requires
        are_groups(pieces, groups),
    ensures
        ipv6::parse_ipv6(text_laws::joined(pieces, ':')) == if groups.len() == 8 {
            Some(groups)
        } else {
            None
        },
{
    let s = text_laws::joined(pieces, ':');
    lemma_groups_joined(pieces, groups, true);
    if pieces.len() > 0 {
        lemma_spaced(pieces, groups);
    }
    ipv6::lemma_find_gap(s, s.len() as int);
}

/// Two colons stand for the zero groups that are left out, at least one of them, wherever they
/// stand.
pub proof fn law_gap_read(
    before: Seq<Seq<char>>,
    first: Seq<u16>,
    after: Seq<Seq<char>>,
    second: Seq<u16>,
)
    requires
        are_groups(before, first),
        are_groups(after, second),
    ensures
        ipv6::parse_ipv6(
            text_laws::joined(before, ':') + seq![':', ':'] + text_laws::joined(after, ':'),
        ) == if first.len() + second.len() <= 7 {
            Some(first + Seq::new((8 - first.len() - second.len()) as nat, |i: int| 0u16) + second)
        } else {
            None
        },
{
    let t = text_laws::joined(before, ':');
    let u = text_laws::joined(after, ':');
    let s = t + seq![':', ':'] + u;
    lemma_groups_joined(before, first, false);
    lemma_groups_joined(after, second, true);
    if before.len() > 0 {
        lemma_spaced(before, first);
    }
    let k = t.len() as int;
    assert(s[k] == ':' && s[k + 1] == ':');
    assert forall|i: int| 0 <= i < k && i + 1 < s.len() implies !(#[trigger] s[i] == ':' && s[i + 1]
        == ':') by {
        assert(s[i] == t[i]);
        if i == k - 1 {
            assert(t[i] == t.last());
        } else {
            assert(s[i + 1] == t[i + 1]);
        }
    }
    ipv6::lemma_find_gap(s, k);
    assert(s.take(k) =~= t);
    assert(s.skip(k + 2) =~= u);
    if first.len() + second.len() <= 7 {
        let n = (8 - first.len() - second.len()) as nat;
        assert(ipv6::zeros(n) =~= Seq::new(n, |i: int| 0u16));
    }
}

/// Nothing but hexadecimal digits, colons and dots stands in the text of an address.
pub proof fn law_other_characters(s: Seq<char>, i: int)
    requires
        0 <= i < s.len(),
        !text::is_hex_digit(s[i]),
        s[i] != ':',
        s[i] != '.',
    ensures
        ipv6::parse_ipv6(s) is None,
{
    let k = ipv6::find_gap(s);
    lemma_gap_bounds(s);
    if k < s.len() {
        if i < k {
            assert(s.take(k)[i] == s[i]);
            lemma_groups_characters(s.take(k), false, i);
        } else {
            assert(s.skip(k + 2)[i - k - 2] == s[i]);
            lemma_groups_characters(s.skip(k + 2), true, i - k - 2);
        }
    } else {
        lemma_groups_characters(s, true, i);
    }
}

proof fn lemma_gap_bounds(s: Seq<char>)
    ensures
        0 <= ipv6::find_gap(s) <= s.len(),
        ipv6::find_gap(s) < s.len() ==> ipv6::find_gap(s) + 1 < s.len() && s[ipv6::find_gap(s)]
            == ':' && s[ipv6::find_gap(s) + 1] == ':',
    decreases s.len(),
{
    if s.len() == 0 || (s.len() > 1 && s[0] == ':' && s[1] == ':') {
    } else {
        lemma_gap_bounds(s.skip(1));
    }
}

proof fn lemma_groups_characters(s: Seq<char>, dotted: bool, i: int)
    requires
        0 <= i < s.len(),
        !text::is_hex_digit(s[i]),
        s[i] != ':',
        s[i] != '.',
    ensures
        ipv6::parse_groups(s, dotted) is None,
{
    text_laws::law_split_parts(s, ':');
    let p = text::split(s, ':');
    lemma_pieces_characters(p, dotted, i);
}

proof fn lemma_pieces_characters(p: Seq<Seq<char>>, dotted: bool, i: int)
    requires
        0 <= i < text_laws::joined(p, ':').len(),
        ({
            let c = text_laws::joined(p, ':')[i];
            !text::is_hex_digit(c) && c != ':' && c != '.'
        }),
    ensures
        ipv6::parse_pieces(p, dotted) is None,
    decreases p.len(),
{
    if p.len() > 0 {
        let a = p[0];
        if i < a.len() {
            assert(text_laws::joined(p, ':')[i] == a[i]);
            lemma_dotted_characters(a, i);
        } else if p.len() > 1 {
            let rest = text_laws::joined(p.skip(1), ':');
            assert(text_laws::joined(p, ':') == a.push(':') + rest);
            if i == a.len() {
                assert(text_laws::joined(p, ':')[i] == ':');
            } else {
                assert(text_laws::joined(p, ':')[i] == rest[i - a.len() - 1]);
                lemma_pieces_characters(p.skip(1), dotted, i - a.len() - 1);
            }
        }
    }
}

proof fn lemma_dotted_characters(s: Seq<char>, i: int)
    requires
        0 <= i < s.len(),
        !text::is_hex_digit(s[i]),
        s[i] != '.',
    ensures
        ipv6::parse_dotted(s) is None,
{
    text_laws::law_split_parts(s, '.');
    let p = text::split(s, '.');
    if p.len() == 4 {
        let q = p.skip(1);
        let r = q.skip(1);
        let t = r.skip(1);
        reveal_with_fuel(text_laws::joined, 5);
        let a = p[0].len() as int;
        let b = p[1].len() as int;
        let c = p[2].len() as int;
        assert(s == p[0].push('.') + (p[1].push('.') + (p[2].push('.') + p[3])));
        if i < a {
            lemma_octet_characters(p[0], i);
        } else if i == a {
        } else if i < a + 1 + b {
            lemma_octet_characters(p[1], i - a - 1);
        } else if i == a + 1 + b {
        } else if i < a + b + c + 2 {
            lemma_octet_characters(p[2], i - a - b - 2);
        } else if i == a + b + c + 2 {
        } else {
            lemma_octet_characters(p[3], i - a - b - c - 3);
        }
    }
}

proof fn lemma_octet_characters(s: Seq<char>, i: int)
    requires
        0 <= i < s.len(),
        !text::is_hex_digit(s[i]),
    ensures
        ipv6::parse_octet(s) is None,
{
    if s.len() > 0 && text::is_digit(s[0]) {
        assert(number::without_plus(s) == s);
        assert(!text::is_digit(s[i]));
    }
}

/// Every piece that is read has characters, and only the last may be something else than a group.
proof fn lemma_pieces_are_groups(p: Seq<Seq<char>>, dotted: bool, k: int)
    requires
        ipv6::parse_pieces(p, dotted) is Some,
        0 <= k < p.len(),
    ensures
        p[k].len() > 0,
        k < p.len() - 1 || !dotted ==> ipv6::parse_group(p[k]) is Some,
    decreases p.len(),
{
    if k == 0 {
        if p[0].len() == 0 {
            text::lemma_split_none(p[0], '.');
        }
    } else {
        lemma_pieces_are_groups(p.skip(1), dotted, k - 1);
        assert(p.skip(1)[k - 1] == p[k]);
    }
}

/// What is read has no colon at its ends and no two side by side.
proof fn lemma_read_is_spaced(p: Seq<Seq<char>>)
    requires
        p.len() > 0,
        forall|i: int| 0 <= i < p.len() ==> (#[trigger] p[i]).len() > 0 && !p[i].contains(':'),
    ensures
        is_spaced(text_laws::joined(p, ':')),
    decreases p.len(),
{
    let h = p[0];
    assert(h.len() > 0 && !h.contains(':'));
    assert forall|i: int| 0 <= i < h.len() implies #[trigger] h[i] != ':' by {
        assert(h.contains(h[i]));
    }
    if p.len() > 1 {
        let q = p.skip(1);
        assert forall|i: int| 0 <= i < q.len() implies (#[trigger] q[i]).len() > 0
            && !q[i].contains(':') by {
            assert(q[i] == p[i + 1]);
        }
        lemma_read_is_spaced(q);
        let rest = text_laws::joined(q, ':');
        let t = h.push(':') + rest;
        assert forall|i: int| 0 <= i < t.len() - 1 implies !(#[trigger] t[i] == ':' && t[i + 1]
            == ':') by {
            if i < h.len() {
                assert(t[i] == h[i]);
            } else if i == h.len() {
                assert(t[i + 1] == rest[0]);
            } else {
                assert(t[i] == rest[i - h.len() - 1]);
                assert(t[i + 1] == rest[i - h.len()]);
            }
        }
        assert(t[0] == h[0]);
        assert(t.last() == rest.last());
    }
}

proof fn lemma_groups_spaced(s: Seq<char>, dotted: bool)
    requires
        ipv6::parse_groups(s, dotted) is Some,
        s.len() > 0,
    ensures
        is_spaced(s),
{
    let p = text::split(s, ':');
    text_laws::law_split_parts(s, ':');
    assert forall|i: int| 0 <= i < p.len() implies (#[trigger] p[i]).len() > 0
        && !p[i].contains(':') by {
        lemma_pieces_are_groups(p, dotted, i);
    }
    lemma_read_is_spaced(p);
}

/// There is at most one gap.
pub proof fn law_one_gap(a: Seq<char>, b: Seq<char>, c: Seq<char>)
    ensures
        ipv6::parse_ipv6(a + seq![':', ':'] + b + seq![':', ':'] + c) is None,
{
    let s = a + seq![':', ':'] + b + seq![':', ':'] + c;
    let k = ipv6::find_gap(s);
    lemma_gap_bounds(s);
    let n = a.len() as int;
    assert(s[n] == ':' && s[n + 1] == ':');
    lemma_first_gap(s, n);
    let rest = s.skip(k + 2);
    let m = n + 2 + b.len() - k - 2;
    assert(rest[m] == s[m + k + 2] && rest[m + 1] == s[m + k + 3]);
    assert(rest[m] == ':' && rest[m + 1] == ':');
    if ipv6::parse_groups(rest, true) is Some {
        lemma_groups_spaced(rest, true);
        assert(!(rest[m] == ':' && rest[m + 1] == ':'));
    }
}

proof fn lemma_first_gap(s: Seq<char>, n: int)
    requires
        0 <= n,
        n + 1 < s.len(),
        s[n] == ':' && s[n + 1] == ':',
    ensures
        ipv6::find_gap(s) <= n,
    decreases n,
{
    if n > 0 && !(s[0] == ':' && s[1] == ':') {
        lemma_first_gap(s.skip(1), n - 1);
    }
}

/// A single colon stands between groups, not at an end.
pub proof fn law_no_colon_at_an_end(s: Seq<char>)
    requires
        s.len() > 0,
        ipv6::parse_ipv6(s) is Some,
    ensures
        s[0] == ':' ==> s.len() > 1 && s[1] == ':',
        s.last() == ':' ==> s.len() > 1 && s[s.len() - 2] == ':',
{
    let k = ipv6::find_gap(s);
    lemma_gap_bounds(s);
    if k < s.len() {
        let t = s.take(k);
        let u = s.skip(k + 2);
        if t.len() > 0 {
            lemma_groups_spaced(t, false);
            assert(t[0] == s[0]);
        }
        if u.len() > 0 {
            lemma_groups_spaced(u, true);
            assert(u.last() == s.last());
        }
    } else {
        lemma_groups_spaced(s, true);
    }
}

/// A piece that is not a group spoils the text, unless it is the last one.
pub proof fn law_other_pieces(pieces: Seq<Seq<char>>, k: int)
    requires
        forall|i: int|
            0 <= i < pieces.len() ==> (#[trigger] pieces[i]).len() > 0 && !pieces[i].contains(':'),
        0 <= k < pieces.len() - 1,
        ipv6::parse_group(pieces[k]) is None,
    ensures
        ipv6::parse_ipv6(text_laws::joined(pieces, ':')) is None,
{
    let s = text_laws::joined(pieces, ':');
    text_laws::law_split(pieces, ':');
    lemma_read_is_spaced(pieces);
    ipv6::lemma_find_gap(s, s.len() as int);
    if ipv6::parse_pieces(pieces, true) is Some {
        lemma_pieces_are_groups(pieces, true, k);
    }
}

/// A part of a dotted IPv4 address is a number up to 255 as it is written, without zeros before it
/// and without a sign.
pub proof fn law_octet(s: Seq<char>, n: nat)
    ensures
        ipv6::parse_octet(number::decimal(n)) == if n <= 255 {
            Some(n)
        } else {
            None
        },
        s.len() > 1 && s[0] == '0' ==> ipv6::parse_octet(s) is None,
        s.len() > 0 && s[0] == '+' ==> ipv6::parse_octet(s) is None,
        s.len() == 0 ==> ipv6::parse_octet(s) is None,
{
    text_laws::law_number_read(0, false, n, 255);
    assert(Seq::<char>::empty() + Seq::new(0, |i: int| '0') + number::decimal(n)
        =~= number::decimal(n));
    text_laws::law_decimal(n, 0);
    text_laws::law_decimal(0, 0);
    let d = number::decimal(n);
    assert(48 <= d[0] as int <= 57);
}

/// The last two groups may be written as a dotted IPv4 address, after six groups or after a gap.
pub proof fn law_dotted_read(
    before: Seq<Seq<char>>,
    first: Seq<u16>,
    after: Seq<Seq<char>>,
    second: Seq<u16>,
    octets: Seq<nat>,
)
    requires
        are_groups(before, first),
        are_groups(after, second),
        octets.len() == 4,
        forall|i: int| 0 <= i < 4 ==> #[trigger] octets[i] <= 255,
    ensures
        ({
            let dotted = number::decimal(octets[0]) + seq!['.'] + number::decimal(octets[1]) + seq![
                '.',
            ] + number::decimal(octets[2]) + seq!['.'] + number::decimal(octets[3]);
            let pair = seq![
                (256 * octets[0] + octets[1]) as u16,
                (256 * octets[2] + octets[3]) as u16,
            ];
            &&& first.len() == 6 ==> ipv6::parse_ipv6(
                text_laws::joined(before.push(dotted), ':'),
            ) == Some(first + pair)
            &&& first.len() + second.len() <= 5 ==> ipv6::parse_ipv6(
                text_laws::joined(before, ':') + seq![':', ':'] + text_laws::joined(
                    after.push(dotted),
                    ':',
                ),
            ) == Some(
                first + Seq::new((6 - first.len() - second.len()) as nat, |i: int| 0u16) + second
                    + pair,
            )
        }),
{
    let dotted = number::decimal(octets[0]) + seq!['.'] + number::decimal(octets[1]) + seq!['.']
        + number::decimal(octets[2]) + seq!['.'] + number::decimal(octets[3]);
    assert(octets[0] <= 255 && octets[1] <= 255 && octets[2] <= 255 && octets[3] <= 255);
    let a = (256 * octets[0] + octets[1]) as u16;
    let b = (256 * octets[2] + octets[3]) as u16;
    assert(a / 256 == octets[0] && a % 256 == octets[1]);
    assert(b / 256 == octets[2] && b % 256 == octets[3]);
    assert(dotted =~= ipv6::dotted_text(a, b));
    ipv6::lemma_dotted_read(a, b);
    let pair = seq![a, b];
    if first.len() == 6 {
        let s = text_laws::joined(before.push(dotted), ':');
        lemma_ending_read(before, first, dotted, pair);
        lemma_ending_spaced(before, first, dotted);
        ipv6::lemma_find_gap(s, s.len() as int);
    }
    if first.len() + second.len() <= 5 {
        let t = text_laws::joined(before, ':');
        let u = text_laws::joined(after.push(dotted), ':');
        let s = t + seq![':', ':'] + u;
        lemma_groups_joined(before, first, false);
        lemma_ending_read(after, second, dotted, pair);
        if before.len() > 0 {
            lemma_spaced(before, first);
        }
        let k = t.len() as int;
        assert(s[k] == ':' && s[k + 1] == ':');
        assert forall|i: int| 0 <= i < k && i + 1 < s.len() implies !(#[trigger] s[i] == ':' && s[i
            + 1] == ':') by {
            assert(s[i] == t[i]);
            if i == k - 1 {
                assert(t[i] == t.last());
            } else {
                assert(s[i + 1] == t[i + 1]);
            }
        }
        ipv6::lemma_find_gap(s, k);
        assert(s.take(k) =~= t);
        assert(s.skip(k + 2) =~= u);
        let n = (6 - first.len() - second.len()) as nat;
        assert(first + ipv6::zeros(n) + (second + pair) =~= first + Seq::new(n, |i: int| 0u16)
            + second + pair);
    }
}

proof fn lemma_ending_read(
    pieces: Seq<Seq<char>>,
    groups: Seq<u16>,
    dotted: Seq<char>,
    pair: Seq<u16>,
)
    requires
        are_groups(pieces, groups),
        ipv6::parse_dotted(dotted) == Some(pair),
        ipv6::parse_group(dotted) is None,
        !dotted.contains(':'),
        dotted.len() > 0,
    ensures
        ipv6::parse_groups(text_laws::joined(pieces.push(dotted), ':'), true) == Some(
            groups + pair,
        ),
{
    let p = pieces.push(dotted);
    assert forall|i: int| 0 <= i < p.len() implies !(#[trigger] p[i]).contains(':') by {
        if i < pieces.len() {
            assert(p[i] == pieces[i]);
            lemma_group_piece(pieces[i]);
        }
    }
    text_laws::law_split(p, ':');
    lemma_ending_pieces(pieces, groups, dotted, pair);
    lemma_ending_spaced(pieces, groups, dotted);
}

proof fn lemma_ending_pieces(
    pieces: Seq<Seq<char>>,
    groups: Seq<u16>,
    dotted: Seq<char>,
    pair: Seq<u16>,
)
    requires
        are_groups(pieces, groups),
        ipv6::parse_dotted(dotted) == Some(pair),
        ipv6::parse_group(dotted) is None,
    ensures
        ipv6::parse_pieces(pieces.push(dotted), true) == Some(groups + pair),
    decreases pieces.len(),
{
    let p = pieces.push(dotted);
    if pieces.len() == 0 {
        assert(p.skip(1) =~= Seq::<Seq<char>>::empty());
        assert(ipv6::parse_pieces(Seq::<Seq<char>>::empty(), true) == Some(Seq::<u16>::empty()));
        assert(pair + Seq::<u16>::empty() =~= groups + pair);
    } else {
        let q = pieces.skip(1);
        let g = groups.skip(1);
        assert forall|i: int| 0 <= i < q.len() implies ipv6::parse_group(#[trigger] q[i]) == Some(
            g[i],
        ) by {
            assert(q[i] == pieces[i + 1]);
        }
        lemma_ending_pieces(q, g, dotted, pair);
        assert(p.skip(1) =~= q.push(dotted));
        assert(p[0] == pieces[0]);
        assert(seq![groups[0]] + (g + pair) =~= groups + pair);
    }
}

proof fn lemma_ending_spaced(pieces: Seq<Seq<char>>, groups: Seq<u16>, dotted: Seq<char>)
    requires
        are_groups(pieces, groups),
        !dotted.contains(':'),
        dotted.len() > 0,
    ensures
        is_spaced(text_laws::joined(pieces.push(dotted), ':')),
    decreases pieces.len(),
{
    let p = pieces.push(dotted);
    if pieces.len() == 0 {
        assert forall|i: int| 0 <= i < dotted.len() implies #[trigger] dotted[i] != ':' by {
            assert(dotted.contains(dotted[i]));
        }
        assert(text_laws::joined(p, ':') == dotted);
    } else {
        let h = pieces[0];
        assert(ipv6::parse_group(pieces[0]) == Some(groups[0]));
        lemma_group_piece(h);
        assert forall|i: int| 0 <= i < h.len() implies #[trigger] h[i] != ':' by {
            assert(h.contains(h[i]));
        }
        let q = pieces.skip(1);
        let g = groups.skip(1);
        assert forall|i: int| 0 <= i < q.len() implies ipv6::parse_group(#[trigger] q[i]) == Some(
            g[i],
        ) by {
            assert(q[i] == pieces[i + 1]);
        }
        lemma_ending_spaced(q, g, dotted);
        assert(p.skip(1) =~= q.push(dotted));
        assert(p[0] == h);
        let rest = text_laws::joined(q.push(dotted), ':');
        let t = h.push(':') + rest;
        assert(text_laws::joined(p, ':') == t);
        assert forall|i: int| 0 <= i < t.len() - 1 implies !(#[trigger] t[i] == ':' && t[i + 1]
            == ':') by {
            if i < h.len() {
                assert(t[i] == h[i]);
            } else if i == h.len() {
                assert(t[i + 1] == rest[0]);
            } else {
                assert(t[i] == rest[i - h.len() - 1]);
                assert(t[i + 1] == rest[i - h.len()]);
            }
        }
        assert(t[0] == h[0]);
        assert(t.last() == rest.last());
    }
}

// ---------------------------------------------------------------------------------------------
// Writing
// ---------------------------------------------------------------------------------------------
/// Groups in hexadecimal.
pub open spec fn written(groups: Seq<u16>) -> Seq<Seq<char>> {
    groups.map_values(|g: u16| number::hex(g as nat))
}

proof fn lemma_groups_written(groups: Seq<u16>)
    ensures
        ipv6::groups_text(groups) == text_laws::joined(written(groups), ':'),
    decreases groups.len(),
{
    let p = written(groups);
    if groups.len() > 1 {
        ipv6::lemma_groups_text_first(groups);
        lemma_groups_written(groups.skip(1));
        assert(p.skip(1) =~= written(groups.skip(1)));
    }
}

/// The zero groups from `start` on, so many as `n`: neither the group before them nor the one
/// after them is zero.
pub open spec fn is_run(groups: Seq<u16>, start: int, n: int) -> bool {
    &&& 0 <= start
    &&& 0 < n
    &&& start + n <= groups.len()
    &&& forall|i: int| start <= i < start + n ==> #[trigger] groups[i] == 0
    &&& start > 0 ==> groups[start - 1] != 0
    &&& start + n < groups.len() ==> groups[start + n] != 0
}

proof fn lemma_run_length(groups: Seq<u16>, i: int) -> (r: int)
    requires
        0 <= i < groups.len(),
        groups[i] == 0,
    ensures
        0 <= r <= i,
        is_run(groups, r, i - r + ipv6::zero_run(groups, i)),
        ipv6::zero_run(groups, r) == i - r + ipv6::zero_run(groups, i),
    decreases i,
{
    lemma_zeros(groups, i);
    if i == 0 || groups[i - 1] != 0 {
        i
    } else {
        assert(ipv6::zero_run(groups, i - 1) == 1 + ipv6::zero_run(groups, i));
        lemma_run_length(groups, i - 1)
    }
}

proof fn lemma_zeros(groups: Seq<u16>, i: int)
    requires
        0 <= i <= groups.len(),
    ensures
        i + ipv6::zero_run(groups, i) <= groups.len(),
        forall|j: int| i <= j < i + ipv6::zero_run(groups, i) ==> #[trigger] groups[j] == 0,
        i + ipv6::zero_run(groups, i) < groups.len() ==> groups[i + ipv6::zero_run(groups, i)] != 0,
        i < groups.len() && groups[i] == 0 ==> ipv6::zero_run(groups, i) > 0,
    decreases groups.len() - i,
{
    if i < groups.len() && groups[i] == 0 {
        lemma_zeros(groups, i + 1);
    }
}

proof fn lemma_run_counted(groups: Seq<u16>, start: int, n: int)
    requires
        is_run(groups, start, n),
    ensures
        ipv6::zero_run(groups, start) == n,
{
    lemma_zeros(groups, start);
    let m = ipv6::zero_run(groups, start);
    if m < n {
        assert(groups[start + m] == 0);
    } else if m > n {
        assert(groups[start + n] == 0);
    }
}

proof fn lemma_longest(groups: Seq<u16>, i: int)
    requires
        0 <= i <= groups.len(),
    ensures
        i <= ipv6::longest_run(groups, i) <= groups.len(),
        forall|j: int|
            i <= j < groups.len() ==> #[trigger] ipv6::zero_run(groups, j) <= ipv6::zero_run(
                groups,
                ipv6::longest_run(groups, i),
            ),
        forall|j: int|
            i <= j < ipv6::longest_run(groups, i) ==> #[trigger] ipv6::zero_run(groups, j)
                < ipv6::zero_run(groups, ipv6::longest_run(groups, i)),
    decreases groups.len() - i,
{
    if i < groups.len() {
        lemma_longest(groups, i + 1);
    }
}

/// An address without two zero groups side by side is written with all its groups.
pub proof fn law_all_groups_written(groups: Seq<u16>)
    requires
        groups.len() == 8,
        forall|i: int| 0 <= i < 7 ==> !(#[trigger] groups[i] == 0 && groups[i + 1] == 0),
    ensures
        ipv6::ipv6_text(groups) == text_laws::joined(written(groups), ':'),
{
    lemma_longest(groups, 0);
    let start = ipv6::longest_run(groups, 0);
    lemma_zeros(groups, start);
    if ipv6::zero_run(groups, start) > 1 {
        assert(groups[start] == 0 && groups[start + 1] == 0);
    }
    let first: int = 0;
    assert(!(groups[first] == 0 && groups[first + 1] == 0));
    lemma_groups_written(groups);
}

/// The longest run of zero groups, the first of several, is left out and two colons stand for it;
/// a single zero group is written. An IPv4-mapped address is written otherwise.
pub proof fn law_gap_written(groups: Seq<u16>, start: int, n: int)
    requires
        groups.len() == 8,
        is_run(groups, start, n),
        n >= 2,
        forall|a: int, m: int| #[trigger] is_run(groups, a, m) ==> m < n || (m == n && a >= start),
        !(start == 0 && n == 5 && groups[5] == 0xffff),
    ensures
        ipv6::ipv6_text(groups) == text_laws::joined(written(groups.take(start)), ':') + seq![
            ':',
            ':',
        ] + text_laws::joined(written(groups.skip(start + n)), ':'),
{
    reveal_strlit("::");
    assert("::"@ =~= seq![':', ':']);
    lemma_run_counted(groups, start, n);
    lemma_longest(groups, 0);
    let best = ipv6::longest_run(groups, 0);
    assert(ipv6::zero_run(groups, start) <= ipv6::zero_run(groups, best));
    lemma_zeros(groups, best);
    assert(best < groups.len()) by {
        if best >= groups.len() {
            assert(ipv6::zero_run(groups, best) == 0);
        }
    }
    let r = lemma_run_length(groups, best);
    assert(is_run(groups, r, best - r + ipv6::zero_run(groups, best)));
    if r < best {
        assert(ipv6::zero_run(groups, r) < ipv6::zero_run(groups, best));
    }
    assert(best == start) by {
        if start < best {
            assert(ipv6::zero_run(groups, start) < ipv6::zero_run(groups, best));
        }
    }
    if ipv6::is_mapped(groups) {
        assert(groups[0] == 0);
        assert(is_run(groups, 0, 5));
        if start == 0 {
            lemma_run_counted(groups, 0, 5);
        } else if start <= 5 {
            assert(groups[start - 1] != 0);
        }
    }
    lemma_groups_written(groups.take(start));
    lemma_groups_written(groups.skip(start + n));
}

/// An IPv4-mapped address is written with its IPv4 address dotted.
pub proof fn law_mapped_written(octets: Seq<nat>)
    requires
        octets.len() == 4,
        forall|i: int| 0 <= i < 4 ==> #[trigger] octets[i] <= 255,
    ensures
        ipv6::ipv6_text(
            seq![
                0u16,
                0u16,
                0u16,
                0u16,
                0u16,
                0xffffu16,
                (256 * octets[0] + octets[1]) as u16,
                (256 * octets[2] + octets[3]) as u16,
            ],
        ) == seq![':', ':', 'f', 'f', 'f', 'f', ':'] + number::decimal(octets[0]) + seq!['.']
            + number::decimal(octets[1]) + seq!['.'] + number::decimal(octets[2]) + seq!['.']
            + number::decimal(octets[3]),
{
    reveal_strlit("::ffff:");
    assert("::ffff:"@ =~= seq![':', ':', 'f', 'f', 'f', 'f', ':']);
    assert(octets[0] <= 255 && octets[1] <= 255 && octets[2] <= 255 && octets[3] <= 255);
    let a = (256 * octets[0] + octets[1]) as u16;
    let b = (256 * octets[2] + octets[3]) as u16;
    assert(a / 256 == octets[0] && a % 256 == octets[1]);
    assert(b / 256 == octets[2] && b % 256 == octets[3]);
    assert("::ffff:"@ + ipv6::dotted_text(a, b) =~= "::ffff:"@ + number::decimal(octets[0]) + seq![
        '.',
    ] + number::decimal(octets[1]) + seq!['.'] + number::decimal(octets[2]) + seq!['.']
        + number::decimal(octets[3]));
}

} // verus!

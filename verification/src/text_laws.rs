//! Laws of the operations on text and of numbers written as text.
use vstd::prelude::*;
use crate::number;
use crate::text;

verus! {

// ---------------------------------------------------------------------------------------------
// Characters
// ---------------------------------------------------------------------------------------------
/// White space is told by the code of a character.
pub proof fn law_white_space(c: char)
    ensures
        text::is_white_space(c) <==> ({
            let code = c as int;
            9 <= code <= 13 || code == 0x20 || code == 0x85 || code == 0xa0 || code == 0x1680
                || 0x2000 <= code <= 0x200a || code == 0x2028 || code == 0x2029 || code == 0x202f
                || code == 0x205f || code == 0x3000
        }),
        text::is_ascii_white_space(c) <==> ({
            let code = c as int;
            code == 0x20 || code == 9 || code == 10 || code == 12 || code == 13
        }),
{
}

/// Small and capital letters are thirty-two codes apart; no other character is changed.
pub proof fn law_letters(c: char)
    ensures
        ({
            let code = c as int;
            &&& text::lower(c) as int == if 65 <= code <= 90 {
                code + 32
            } else {
                code
            }
            &&& text::upper(c) as int == if 97 <= code <= 122 {
                code - 32
            } else {
                code
            }
        }),
{
}

/// A text keeps its length when its letters are made small or capital, and each character is
/// changed on its own.
pub proof fn law_letters_of_text(s: Seq<char>, i: int)
    requires
        0 <= i < s.len(),
    ensures
        text::lowercase(s).len() == s.len(),
        text::uppercase(s).len() == s.len(),
        ({
            let code = s[i] as int;
            &&& text::lowercase(s)[i] as int == if 65 <= code <= 90 {
                code + 32
            } else {
                code
            }
            &&& text::uppercase(s)[i] as int == if 97 <= code <= 122 {
                code - 32
            } else {
                code
            }
        }),
{
}

/// The hexadecimal digits and their values.
pub proof fn law_hex_digits(c: char)
    ensures
        text::is_hex_digit(c) <==> 48 <= c as int <= 57 || 65 <= c as int <= 70 || 97 <= c as int
            <= 102,
        48 <= c as int <= 57 ==> text::hex_value(c) == c as int - 48,
        65 <= c as int <= 70 ==> text::hex_value(c) == c as int - 55,
        97 <= c as int <= 102 ==> text::hex_value(c) == c as int - 87,
        text::is_digit(c) <==> 48 <= c as int <= 57,
{
}

// ---------------------------------------------------------------------------------------------
// Trimming
// ---------------------------------------------------------------------------------------------
/// All characters of the text are white space.
pub open spec fn is_white(s: Seq<char>) -> bool {
    forall|i: int| 0 <= i < s.len() ==> text::is_white_space(#[trigger] s[i])
}

/// The text has no white space at its ends.
pub open spec fn is_bare(s: Seq<char>) -> bool {
    s.len() == 0 || (!text::is_white_space(s[0]) && !text::is_white_space(s.last()))
}

/// What stands between characters that are lost, and has none of them at its ends, is kept.
pub proof fn lemma_trim_by(
    lead: Seq<char>,
    core: Seq<char>,
    trail: Seq<char>,
    p: spec_fn(char) -> bool,
)
    requires
        forall|i: int| 0 <= i < lead.len() ==> p(#[trigger] lead[i]),
        forall|i: int| 0 <= i < trail.len() ==> p(#[trigger] trail[i]),
        core.len() > 0 ==> !p(core[0]) && !p(core.last()),
    ensures
        text::trim_by(lead + core + trail, p) == core,
    decreases lead.len(),
{
    let q = |c: char| !p(c);
    if lead.len() > 0 {
        let rest = lead.skip(1);
        assert forall|i: int| 0 <= i < rest.len() implies p(#[trigger] rest[i]) by {
            assert(rest[i] == lead[i + 1]);
        }
        lemma_trim_by(rest, core, trail, p);
        assert(p(lead[0]));
        assert(lead + core + trail =~= seq![lead[0]] + (rest + core + trail));
        text::lemma_trim_by_start(lead[0], rest + core + trail, p);
    } else {
        let s = lead + core + trail;
        if core.len() > 0 {
            assert(s[0] == core[0]);
            text::lemma_first_index_unique(s, q, 0);
            assert(s.skip(0) =~= s);
            let n = core.len() as int;
            assert forall|i: int| n <= i < s.len() implies p(#[trigger] s[i]) by {
                assert(s[i] == trail[i - n]);
            }
            assert(s[n - 1] == core.last());
            text::lemma_end_index_unique(s, p, n);
            assert(s.take(n) =~= core);
        } else {
            assert(s =~= trail);
            assert forall|i: int| 0 <= i < s.len() implies !q(#[trigger] s[i]) by {
                assert(p(trail[i]));
            }
            text::lemma_first_index_unique(s, q, s.len() as int);
            let t = s.skip(s.len() as int);
            assert(t =~= Seq::empty());
            text::lemma_end_index(t, p);
            assert(t.take(text::end_index(t, p)) =~= core);
        }
    }
}

/// White space around a text is lost, and nothing else.
pub proof fn law_trim(lead: Seq<char>, core: Seq<char>, trail: Seq<char>)
    requires
        is_white(lead),
        is_white(trail),
        is_bare(core),
    ensures
        text::trim(lead + core + trail) == core,
{
    lemma_trim_by(lead, core, trail, |c: char| text::is_white_space(c));
}

/// Every text is white space, what trimming leaves of it, and white space.
pub proof fn law_trim_parts(s: Seq<char>) -> (r: (Seq<char>, Seq<char>))
    ensures
        is_white(r.0),
        is_white(r.1),
        is_bare(text::trim(s)),
        s == r.0 + text::trim(s) + r.1,
{
    let p = |c: char| text::is_white_space(c);
    let q = |c: char| !p(c);
    text::lemma_first_index(s, q);
    let a = text::first_index(s, q);
    let t = s.skip(a);
    text::lemma_end_index(t, p);
    let b = text::end_index(t, p);
    let lead = s.take(a);
    let trail = t.skip(b);
    assert forall|i: int| 0 <= i < lead.len() implies text::is_white_space(#[trigger] lead[i]) by {
        assert(lead[i] == s[i]);
        assert(!q(s[i]));
    }
    assert forall|i: int| 0 <= i < trail.len() implies text::is_white_space(#[trigger] trail[i]) by {
        assert(trail[i] == t[b + i]);
        assert(p(t[b + i]));
    }
    let core = text::trim(s);
    assert(core =~= t.take(b));
    if b > 0 {
        assert(core[0] == t[0] && t[0] == s[a]);
        assert(core.last() == t[b - 1]);
        assert(q(s[a]));
    }
    assert(s =~= lead + core + trail);
    (lead, trail)
}

/// What has been trimmed is trimmed.
pub proof fn law_trim_twice(s: Seq<char>)
    ensures
        text::trim(text::trim(s)) == text::trim(s),
{
    let r = law_trim_parts(s);
    let core = text::trim(s);
    law_trim(Seq::empty(), core, Seq::empty());
    assert(Seq::<char>::empty() + core + Seq::<char>::empty() =~= core);
}

/// A text without white space at its ends is left as it is.
pub proof fn lemma_trim_bare(s: Seq<char>)
    requires
        is_bare(s),
    ensures
        text::trim(s) == s,
{
    law_trim(Seq::empty(), s, Seq::empty());
    assert(Seq::<char>::empty() + s + Seq::<char>::empty() =~= s);
}

/// A text whose ends are not in the set is found between characters of the set.
pub proof fn law_trim_set(
    lead: Seq<char>,
    core: Seq<char>,
    trail: Seq<char>,
    set: Seq<char>,
)
    requires
        forall|i: int| 0 <= i < lead.len() ==> set.contains(#[trigger] lead[i]),
        forall|i: int| 0 <= i < trail.len() ==> set.contains(#[trigger] trail[i]),
        core.len() > 0 ==> !set.contains(core[0]) && !set.contains(core.last()),
    ensures
        text::trim_set(lead + core + trail, set) == core,
{
    lemma_trim_by(lead, core, trail, |c: char| set.contains(c));
}

/// ASCII white space is left out wherever it stands, and nothing else.
pub proof fn law_compact(a: Seq<char>, c: char, b: Seq<char>)
    ensures
        text::compact(Seq::<char>::empty()) == Seq::<char>::empty(),
        text::compact(a + seq![c] + b) == text::compact(a) + (if c as int == 0x20 || c as int == 9
            || c as int == 10 || c as int == 12 || c as int == 13 {
            Seq::empty()
        } else {
            seq![c]
        }) + text::compact(b),
{
    let p = |c: char| !text::is_ascii_white_space(c);
    reveal(Seq::filter);
    Seq::filter_distributes_over_add(a, seq![c], p);
    Seq::filter_distributes_over_add(a + seq![c], b, p);
    assert(seq![c].drop_last() =~= Seq::empty());
    assert(seq![c].last() == c);
    assert(Seq::<char>::empty().filter(p) =~= Seq::empty());
    if p(c) {
        assert(seq![c].filter(p) =~= seq![c]);
    } else {
        assert(seq![c].filter(p) =~= Seq::empty());
    }
}

// ---------------------------------------------------------------------------------------------
// Splitting
// ---------------------------------------------------------------------------------------------
/// Pieces with a separator between them.
pub open spec fn joined(pieces: Seq<Seq<char>>, c: char) -> Seq<char>
    decreases pieces.len(),
{
    if pieces.len() == 0 {
        Seq::empty()
    } else if pieces.len() == 1 {
        pieces[0]
    } else {
        pieces[0].push(c) + joined(pieces.skip(1), c)
    }
}

/// Pieces that were joined are found again.
pub proof fn law_split(pieces: Seq<Seq<char>>, c: char)
    requires
        pieces.len() > 0,
        forall|i: int| 0 <= i < pieces.len() ==> !(#[trigger] pieces[i]).contains(c),
    ensures
        text::split(joined(pieces, c), c) == pieces,
    decreases pieces.len(),
{
    assert(!pieces[0].contains(c));
    if pieces.len() == 1 {
        text::lemma_split_none(pieces[0], c);
        assert(pieces =~= seq![pieces[0]]);
    } else {
        let rest = pieces.skip(1);
        assert forall|i: int| 0 <= i < rest.len() implies !(#[trigger] rest[i]).contains(c) by {
            assert(rest[i] == pieces[i + 1]);
        }
        law_split(rest, c);
        text::lemma_split_first(pieces[0], c, joined(rest, c));
        assert(seq![pieces[0]] + rest =~= pieces);
    }
}

/// The pieces of a text hold no separator, there is at least one, and they make the text.
pub proof fn law_split_parts(s: Seq<char>, c: char)
    ensures
        text::split(s, c).len() > 0,
        joined(text::split(s, c), c) == s,
        forall|i: int|
            0 <= i < text::split(s, c).len() ==> !(#[trigger] text::split(s, c)[i]).contains(c),
    decreases s.len(),
{
    let k = text::find(s, c);
    text::lemma_first_index(s, text::is_char(c));
    let p = text::split(s, c);
    if k < s.len() {
        let a = s.take(k);
        let rest = text::split(s.skip(k + 1), c);
        law_split_parts(s.skip(k + 1), c);
        assert(p == seq![a] + rest);
        assert(p.skip(1) =~= rest);
        assert(text::is_char(c)(s[k]));
        assert(a.push(c) + s.skip(k + 1) =~= s);
        assert(!a.contains(c)) by {
            assert forall|i: int| 0 <= i < a.len() implies a[i] != c by {
                assert(a[i] == s[i]);
                assert(!text::is_char(c)(s[i]));
            }
        }
        assert forall|i: int| 0 <= i < p.len() implies !(#[trigger] p[i]).contains(c) by {
            if i > 0 {
                assert(p[i] == rest[i - 1]);
            }
        }
    } else {
        assert(!s.contains(c)) by {
            assert forall|i: int| 0 <= i < s.len() implies s[i] != c by {
                assert(!text::is_char(c)(s[i]));
            }
        }
    }
}

/// A text is cut at the first separator, and there is no cut without one.
pub proof fn law_split_once(a: Seq<char>, c: char, b: Seq<char>)
    requires
        !a.contains(c),
    ensures
        text::split_once(a.push(c) + b, c) == Some((a, b)),
        text::split_once(a, c) is None,
{
    text::lemma_split_first(a, c, b);
    text::lemma_split_none(a, c);
    let s = a.push(c) + b;
    assert(s.take(a.len() as int) =~= a);
    assert(s.skip(a.len() as int + 1) =~= b);
}

/// Lines, each with its end: a line feed, or a carriage return and a line feed.
pub open spec fn ended_lines(lines: Seq<Seq<char>>, wide: Seq<bool>) -> Seq<char>
    decreases lines.len(),
{
    if lines.len() == 0 {
        Seq::empty()
    } else {
        lines[0] + (if wide[0] {
            seq!['\r', '\n']
        } else {
            seq!['\n']
        }) + ended_lines(lines.skip(1), wide.skip(1))
    }
}

/// Lines are found again, with both ends that a line can have; what follows the last end is a
/// line of its own unless it is empty.
pub proof fn law_lines(lines: Seq<Seq<char>>, wide: Seq<bool>, last: Seq<char>)
    requires
        lines.len() == wide.len(),
        forall|i: int| 0 <= i < lines.len() ==> !(#[trigger] lines[i]).contains('\n'),
        forall|i: int|
            0 <= i < lines.len() && !wide[i] && (#[trigger] lines[i]).len() > 0
                ==> lines[i].last() != '\r',
        !last.contains('\n'),
    ensures
        text::lines(ended_lines(lines, wide) + last) == if last.len() == 0 {
            lines
        } else {
            lines.push(last)
        },
    decreases lines.len(),
{
    let s = ended_lines(lines, wide) + last;
    if lines.len() == 0 {
        assert(s =~= last);
        text::lemma_split_none(last, '\n');
        assert(lines =~= Seq::empty());
        assert(lines.push(last) =~= seq![last]);
    } else {
        let rest = lines.skip(1);
        let ends = wide.skip(1);
        assert forall|i: int| 0 <= i < rest.len() implies !(#[trigger] rest[i]).contains('\n') by {
            assert(rest[i] == lines[i + 1]);
        }
        assert forall|i: int|
            0 <= i < rest.len() && !ends[i] && (#[trigger] rest[i]).len() > 0 implies rest[i].last()
            != '\r' by {
            assert(rest[i] == lines[i + 1] && ends[i] == wide[i + 1]);
        }
        law_lines(rest, ends, last);
        let tail = ended_lines(rest, ends) + last;
        let first = lines[0];
        let raw = if wide[0] {
            first.push('\r')
        } else {
            first
        };
        assert(s =~= raw.push('\n') + tail);
        assert(!raw.contains('\n')) by {
            assert(!first.contains('\n'));
            assert forall|i: int| 0 <= i < raw.len() implies raw[i] != '\n' by {
                if i < first.len() {
                    assert(first.contains(first[i]));
                }
            }
        }
        text::lemma_split_first(raw, '\n', tail);
        assert(s.take(raw.len() as int) =~= raw);
        assert(s.skip(raw.len() as int + 1) =~= tail);
        assert(text::strip_cr(raw) =~= first);
        assert(seq![first] + rest =~= lines);
        assert(seq![first] + rest.push(last) =~= lines.push(last));
    }
}

/// The first word of a text is what stands between its leading white space and the next; the
/// other words are those of the rest.
pub proof fn law_words(lead: Seq<char>, word: Seq<char>, rest: Seq<char>)
    requires
        is_white(lead),
        word.len() > 0,
        forall|i: int| 0 <= i < word.len() ==> !text::is_white_space(#[trigger] word[i]),
        rest.len() > 0 ==> text::is_white_space(rest[0]),
    ensures
        text::words(lead + word + rest) == seq![word] + text::words(rest),
        text::words(lead) == Seq::<Seq<char>>::empty(),
{
    let p = |c: char| text::is_white_space(c);
    let q = |c: char| !p(c);
    let s = lead + word + rest;
    let n = lead.len() as int;
    assert forall|i: int| 0 <= i < n implies !q(#[trigger] s[i]) by {
        assert(s[i] == lead[i]);
    }
    assert(s[n] == word[0]);
    assert(!text::is_white_space(word[0]));
    text::lemma_first_index_unique(s, q, n);
    let t = s.skip(n);
    assert(t =~= word + rest);
    assert(text::trim_start(s) == t);
    let m = word.len() as int;
    assert forall|i: int| 0 <= i < m implies !p(#[trigger] t[i]) by {
        assert(t[i] == word[i]);
    }
    if rest.len() > 0 {
        assert(t[m] == rest[0]);
    }
    text::lemma_first_index_unique(t, p, m);
    assert(t.take(m) =~= word);
    assert(t.skip(m) =~= rest);
    assert forall|i: int| 0 <= i < n implies !q(#[trigger] lead[i]) by {}
    text::lemma_first_index_unique(lead, q, n);
    assert(text::trim_start(lead) =~= Seq::empty());
}

/// A text occurs in every text that holds it.
pub proof fn law_occurs(a: Seq<char>, needle: Seq<char>, b: Seq<char>)
    ensures
        text::occurs_in(needle, a + needle + b),
        text::occurs_in(needle, b) ==> exists|i: int|
            0 <= i <= b.len() - needle.len() && #[trigger] b.skip(i).take(needle.len() as int)
                == needle,
{
    if text::occurs_in(needle, b) {
        let i = choose|i: int|
            0 <= i <= b.len() - needle.len() && #[trigger] b.subrange(i, i + needle.len())
                == needle;
        assert(b.skip(i).take(needle.len() as int) =~= b.subrange(i, i + needle.len()));
        assert(b.skip(i).take(needle.len() as int) == needle);
    }
    let s = a + needle + b;
    let n = a.len() as int;
    assert(s.subrange(n, n + needle.len()) =~= needle);
}

/// The first piece that gives a result decides; there is no result if no piece gives one.
pub proof fn law_find_map<B>(s: Seq<Seq<char>>, f: spec_fn(Seq<char>) -> Option<B>, k: int)
    requires
        0 <= k <= s.len(),
        forall|i: int| 0 <= i < k ==> f(#[trigger] s[i]) is None,
        k < s.len() ==> f(s[k]) is Some,
    ensures
        text::find_map(s, f) == if k < s.len() {
            f(s[k])
        } else {
            None
        },
    decreases s.len(),
{
    if k > 0 {
        let t = s.skip(1);
        assert(f(s[0]) is None);
        assert forall|i: int| 0 <= i < k - 1 implies f(#[trigger] t[i]) is None by {
            assert(t[i] == s[i + 1]);
        }
        if k < s.len() {
            assert(t[k - 1] == s[k]);
        }
        law_find_map(t, f, k - 1);
    }
}

// ---------------------------------------------------------------------------------------------
// Numbers
// ---------------------------------------------------------------------------------------------
/// The digits of a number: those of its tenth, and one for the rest. No number but zero begins
/// with a zero.
pub proof fn law_decimal(n: nat, d: nat)
    requires
        d < 10,
    ensures
        n > 0 ==> number::decimal(10 * n + d) == number::decimal(n).push((48 + d) as char),
        number::decimal(d) == seq![(48 + d) as char],
        number::decimal(n).len() > 0,
        n > 0 ==> number::decimal(n)[0] != '0',
        forall|i: int|
            0 <= i < number::decimal(n).len() ==> 48 <= (#[trigger] number::decimal(n)[i]) as int
                <= 57,
    decreases n,
{
    assert((10 * n + d) / 10 == n && (10 * n + d) % 10 == d);
    number::lemma_decimal_digits(n);
    assert forall|i: int| 0 <= i < number::decimal(n).len() implies 48 <= (#[trigger] number::decimal(
        n,
    )[i]) as int <= 57 by {
        assert(text::is_digit(number::decimal(n)[i]));
    }
    if n >= 10 {
        law_decimal(n / 10, d);
        assert(number::decimal(n)[0] == number::decimal(n / 10)[0]);
    }
}

/// Two numbers that are written alike are the same.
pub proof fn law_decimal_distinct(m: nat, n: nat)
    ensures
        number::decimal(m) == number::decimal(n) ==> m == n,
{
    number::lemma_decimal_digits(m);
    number::lemma_decimal_digits(n);
}

/// A number is read with zeros and a plus sign before it; it is not read where it is too large.
pub proof fn law_number_read(zeros: nat, plus: bool, n: nat, max: nat)
    ensures
        number::parse_unsigned(
            (if plus {
                seq!['+']
            } else {
                Seq::empty()
            }) + Seq::new(zeros, |i: int| '0') + number::decimal(n),
            max,
        ) == if n <= max {
            Some(n)
        } else {
            None
        },
{
    let digits = Seq::new(zeros, |i: int| '0') + number::decimal(n);
    let s = (if plus {
        seq!['+']
    } else {
        Seq::empty()
    }) + Seq::new(zeros, |i: int| '0') + number::decimal(n);
    lemma_leading_zeros(zeros, number::decimal(n));
    number::lemma_decimal_digits(n);
    assert forall|i: int| 0 <= i < digits.len() implies text::is_digit(#[trigger] digits[i]) by {
        if i >= zeros {
            assert(text::is_digit(number::decimal(n)[i - zeros]));
        }
    }
    if plus {
        assert(s[0] == '+');
        assert(s.skip(1) =~= digits);
    } else {
        assert(s =~= digits);
        assert(text::is_digit(digits[0]));
    }
    assert(number::without_plus(s) == digits);
}

proof fn lemma_leading_zeros(zeros: nat, s: Seq<char>)
    ensures
        number::digits_value(Seq::new(zeros, |i: int| '0') + s) == number::digits_value(s),
    decreases zeros + s.len(),
{
    let z = Seq::new(zeros, |i: int| '0');
    let t = z + s;
    if s.len() > 0 {
        lemma_leading_zeros(zeros, s.drop_last());
        assert(t.drop_last() =~= z + s.drop_last());
    } else if zeros > 0 {
        lemma_leading_zeros((zeros - 1) as nat, s);
        assert(t.drop_last() =~= Seq::new((zeros - 1) as nat, |i: int| '0') + s);
    } else {
        assert(t =~= s);
    }
}

/// A text that holds anything but digits is no number, but for one plus sign at its start.
pub proof fn law_no_number(s: Seq<char>, i: int, max: nat)
    requires
        0 <= i < s.len(),
        !(48 <= s[i] as int <= 57),
        i > 0 || s[i] != '+',
    ensures
        number::parse_unsigned(s, max) is None,
        number::parse_unsigned(Seq::<char>::empty(), max) is None,
        number::parse_unsigned(seq!['+'], max) is None,
{
    let digits = number::without_plus(s);
    if s[0] == '+' {
        assert(digits[i - 1] == s[i]);
    }
    assert(seq!['+'].skip(1) =~= Seq::<char>::empty());
}

/// A number in hexadecimal has small letters and no zeros before it.
pub proof fn law_hex(n: nat, d: nat)
    requires
        d < 16,
    ensures
        n > 0 ==> number::hex(16 * n + d) == number::hex(n) + number::hex(d),
        d < 10 ==> number::hex(d) == seq![(48 + d) as char],
        d >= 10 ==> number::hex(d) == seq![(87 + d) as char],
        number::hex(n).len() > 0,
        n > 0 ==> number::hex(n)[0] != '0',
    decreases n,
{
    assert((16 * n + d) / 16 == n && (16 * n + d) % 16 == d);
    if n > 0 {
        assert(number::hex(16 * n + d) =~= number::hex(n) + number::hex(d));
    }
    if n >= 16 {
        law_hex(n / 16, d);
        assert(number::hex(n)[0] == number::hex(n / 16)[0]);
    }
}

/// Eight hexadecimal digits hold a number of thirty-two bits: the digit at index `i` is the
/// `i`-th group of four bits, the highest first.
pub proof fn law_hex_fixed(n: nat, width: nat, i: int)
    requires
        0 <= i < width,
    ensures
        number::hex_fixed(n, width).len() == width,
        text::is_hex_digit(number::hex_fixed(n, width)[i]),
        text::hex_value(number::hex_fixed(n, width)[i]) == (n / vstd::arithmetic::power::pow(
            16,
            (width - 1 - i) as nat,
        ) as nat) % 16,
    decreases width,
{
    let t = number::hex_fixed(n, width);
    vstd::arithmetic::power::lemma_pow0(16);
    lemma_hex_fixed_length(n / 16, (width - 1) as nat);
    if i < width - 1 {
        law_hex_fixed(n / 16, (width - 1) as nat, i);
        let m = (width - 2 - i) as nat;
        vstd::arithmetic::power::lemma_pow_positive(16, m);
        vstd::arithmetic::power::lemma_pow_adds(16, 1, m);
        vstd::arithmetic::power::lemma_pow1(16);
        vstd::arithmetic::div_mod::lemma_div_denominator(
            n as int,
            16,
            vstd::arithmetic::power::pow(16, m),
        );
        assert(t[i] == number::hex_fixed(n / 16, (width - 1) as nat)[i]);
        assert((width - 1 - i) as nat == 1 + m);
        let p = vstd::arithmetic::power::pow(16, m);
        assert(vstd::arithmetic::power::pow(16, (width - 1 - i) as nat) == 16 * p);
        assert((n as int / 16) / p == n as int / (16 * p));
    } else {
        assert((width - 1 - i) as nat == 0);
        assert(n / 1 == n);
    }
}

proof fn lemma_hex_fixed_length(n: nat, width: nat)
    ensures
        number::hex_fixed(n, width).len() == width,
    decreases width,
{
    if width > 0 {
        lemma_hex_fixed_length(n / 16, (width - 1) as nat);
    }
}

/// Bytes are written with two digits each: capitals stand where small letters can stand too, and
/// the higher half of a byte comes first.
pub proof fn law_hex_of_bytes(bytes: Seq<u8>, i: int)
    requires
        0 <= i < bytes.len(),
    ensures
        number::hex_upper(bytes).len() == 2 * bytes.len(),
        number::hex_lower(bytes) == text::lowercase(number::hex_upper(bytes)),
        number::hex_upper(bytes) == text::uppercase(number::hex_lower(bytes)),
        text::hex_value(number::hex_upper(bytes)[2 * i]) == bytes[i] / 16,
        text::hex_value(number::hex_upper(bytes)[2 * i + 1]) == bytes[i] % 16,
{
    let u = number::hex_upper(bytes);
    let l = number::hex_lower(bytes);
    assert forall|k: int| 0 <= k < u.len() implies text::lower(u[k]) == l[k] && text::upper(l[k])
        == u[k] by {
        let b = bytes[k / 2] as int;
        assert(0 <= b / 16 < 16 && 0 <= b % 16 < 16);
    }
    assert(text::lowercase(u) =~= l);
    assert(text::uppercase(l) =~= u);
    assert((2 * i) / 2 == i && (2 * i + 1) / 2 == i);
}

/// Hexadecimal text is read whether its letters are small or capital; it is not read where it
/// holds anything else or has an odd length.
pub proof fn law_hex_read(s: Seq<char>)
    ensures
        number::hex_bytes(text::lowercase(s)) == number::hex_bytes(s),
        number::hex_bytes(text::uppercase(s)) == number::hex_bytes(s),
        s.len() % 2 == 1 ==> number::hex_bytes(s) is None,
        forall|i: int|
            0 <= i < s.len() && !text::is_hex_digit(#[trigger] s[i]) ==> number::hex_bytes(s)
                is None,
{
    let l = text::lowercase(s);
    let u = text::uppercase(s);
    assert forall|i: int| 0 <= i < s.len() implies text::is_hex_digit(#[trigger] s[i])
        == text::is_hex_digit(l[i]) && text::is_hex_digit(s[i]) == text::is_hex_digit(u[i]) && (
    text::is_hex_digit(s[i]) ==> text::hex_value(l[i]) == text::hex_value(s[i]) && text::hex_value(
        u[i],
    ) == text::hex_value(s[i])) by {}
    assert(forall|i: int| 0 <= i < l.len() ==> text::is_hex_digit(#[trigger] l[i])
        == text::is_hex_digit(s[i]));
    assert(forall|i: int| 0 <= i < u.len() ==> text::is_hex_digit(#[trigger] u[i])
        == text::is_hex_digit(s[i]));
    if number::is_hex_text(s) {
        let a = number::hex_bytes(s)->0;
        let b = number::hex_bytes(l)->0;
        let c = number::hex_bytes(u)->0;
        assert forall|i: int| 0 <= i < a.len() implies a[i] == b[i] && a[i] == c[i] by {
            assert(text::is_hex_digit(s[2 * i]) && text::is_hex_digit(s[2 * i + 1]));
        }
        assert(a =~= b && a =~= c);
    }
}

} // verus!

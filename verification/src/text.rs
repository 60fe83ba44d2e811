//! Text as sequences of characters.
//!
//! The specification functions describe the usual operations on text; each has an executable
//! counterpart on slices of characters that is proved to compute it.
use vstd::prelude::*;
use vstd::slice::slice_subrange;

verus! {

// ---------------------------------------------------------------------------------------------
// Strings and slices of characters
// ---------------------------------------------------------------------------------------------
/// The characters of a string.
pub fn chars_of(s: &str) -> (v: Vec<char>)
    ensures
        v@ == s@,
{
    let mut v: Vec<char> = Vec::new();
    for c in it: s.chars()
        invariant
            it.seq() == s@,
            v@ == s@.take(it.index() as int),
    {
        v.push(c);
    }
    v
}

/// The string with the given characters.
pub fn string_of(chars: &[char]) -> (s: String)
    ensures
        s@ == chars@,
{
    let mut s = String::new();
    let mut i: usize = 0;
    while i < chars.len()
        invariant
            i <= chars.len(),
            s@ == chars@.take(i as int),
        decreases chars.len() - i,
    {
        s.push(chars[i]);
        i += 1;
        assert(chars@.take(i as int) =~= chars@.take(i - 1).push(chars@[i - 1]));
    }
    assert(chars@.take(i as int) =~= chars@);
    s
}

/// The texts that a list of character slices stands for.
pub open spec fn pieces(v: Seq<&[char]>) -> Seq<Seq<char>> {
    Seq::new(v.len(), |i: int| v[i]@)
}

/// The texts of a list of strings.
pub open spec fn texts(v: Seq<String>) -> Seq<Seq<char>> {
    Seq::new(v.len(), |i: int| v[i]@)
}

// ---------------------------------------------------------------------------------------------
// Character classes
// ---------------------------------------------------------------------------------------------
/// The characters with the Unicode property `White_Space`.
pub open spec fn is_white_space(c: char) -> bool {
    ||| '\u{9}' <= c <= '\u{d}'
    ||| c == ' '
    ||| c == '\u{85}'
    ||| c == '\u{a0}'
    ||| c == '\u{1680}'
    ||| '\u{2000}' <= c <= '\u{200a}'
    ||| c == '\u{2028}'
    ||| c == '\u{2029}'
    ||| c == '\u{202f}'
    ||| c == '\u{205f}'
    ||| c == '\u{3000}'
}

/// The ASCII white space of HTML: space, tab, line feed, form feed and carriage return.
pub open spec fn is_ascii_white_space(c: char) -> bool {
    c == ' ' || c == '\t' || c == '\n' || c == '\u{c}' || c == '\r'
}

/// `0` to `9`.
pub open spec fn is_digit(c: char) -> bool {
    '0' <= c <= '9'
}

/// `0` to `9`, `a` to `f` and `A` to `F`.
pub open spec fn is_hex_digit(c: char) -> bool {
    '0' <= c <= '9' || 'a' <= c <= 'f' || 'A' <= c <= 'F'
}

/// The value of a hexadecimal digit.
pub open spec fn hex_value(c: char) -> int {
    if '0' <= c <= '9' {
        c as int - '0' as int
    } else if 'a' <= c <= 'f' {
        c as int - 'a' as int + 10
    } else {
        c as int - 'A' as int + 10
    }
}

/// The character with ASCII capitals made small.
pub open spec fn lower(c: char) -> char {
    if 'A' <= c <= 'Z' {
        (c as u32 + 32) as char
    } else {
        c
    }
}

/// The character with small ASCII letters made capital.
pub open spec fn upper(c: char) -> char {
    if 'a' <= c <= 'z' {
        (c as u32 - 32) as char
    } else {
        c
    }
}

/// `c` has the Unicode property `White_Space`.
pub fn char_is_white_space(c: char) -> (b: bool)
    ensures
        b == is_white_space(c),
{
    ('\u{9}' <= c && c <= '\u{d}') || c == ' ' || c == '\u{85}' || c == '\u{a0}' || c == '\u{1680}'
        || ('\u{2000}' <= c && c <= '\u{200a}') || c == '\u{2028}' || c == '\u{2029}' || c
        == '\u{202f}' || c == '\u{205f}' || c == '\u{3000}'
}

/// `c` is ASCII white space.
pub fn char_is_ascii_white_space(c: char) -> (b: bool)
    ensures
        b == is_ascii_white_space(c),
{
    c == ' ' || c == '\t' || c == '\n' || c == '\u{c}' || c == '\r'
}

/// `c` is a hexadecimal digit.
pub fn char_is_hex_digit(c: char) -> (b: bool)
    ensures
        b == is_hex_digit(c),
{
    ('0' <= c && c <= '9') || ('a' <= c && c <= 'f') || ('A' <= c && c <= 'F')
}

/// The value of the hexadecimal digit `c`.
pub fn char_hex_value(c: char) -> (v: u8)
    requires
        is_hex_digit(c),
    ensures
        v == hex_value(c),
        v < 16,
{
    if '0' <= c && c <= '9' {
        c as u8 - 48
    } else if 'a' <= c && c <= 'f' {
        c as u8 - 97 + 10
    } else {
        c as u8 - 65 + 10
    }
}

/// `c` with ASCII capitals made small.
pub fn char_lower(c: char) -> (r: char)
    ensures
        r == lower(c),
{
    if 'A' <= c && c <= 'Z' {
        (c as u8 + 32) as char
    } else {
        c
    }
}

/// `c` with small ASCII letters made capital.
pub fn char_upper(c: char) -> (r: char)
    ensures
        r == upper(c),
{
    if 'a' <= c && c <= 'z' {
        (c as u8 - 32) as char
    } else {
        c
    }
}

/// The text with ASCII capitals made small.
pub open spec fn lowercase(s: Seq<char>) -> Seq<char> {
    s.map_values(|c: char| lower(c))
}

/// The text with small ASCII letters made capital.
pub open spec fn uppercase(s: Seq<char>) -> Seq<char> {
    s.map_values(|c: char| upper(c))
}

/// `s` with ASCII capitals made small.
pub fn to_lowercase(s: &[char]) -> (r: Vec<char>)
    ensures
        r@ == lowercase(s@),
{
    let mut r: Vec<char> = Vec::new();
    let mut i: usize = 0;
    while i < s.len()
        invariant
            i <= s.len(),
            r@ == lowercase(s@.take(i as int)),
        decreases s.len() - i,
    {
        r.push(char_lower(s[i]));
        i += 1;
        assert(r@ =~= lowercase(s@.take(i as int)));
    }
    assert(s@.take(i as int) =~= s@);
    r
}

/// `s` with small ASCII letters made capital.
pub fn to_uppercase(s: &[char]) -> (r: Vec<char>)
    ensures
        r@ == uppercase(s@),
{
    let mut r: Vec<char> = Vec::new();
    let mut i: usize = 0;
    while i < s.len()
        invariant
            i <= s.len(),
            r@ == uppercase(s@.take(i as int)),
        decreases s.len() - i,
    {
        r.push(char_upper(s[i]));
        i += 1;
        assert(r@ =~= uppercase(s@.take(i as int)));
    }
    assert(s@.take(i as int) =~= s@);
    r
}

// ---------------------------------------------------------------------------------------------
// Comparing
// ---------------------------------------------------------------------------------------------
/// `a` and `b` are the same text.
pub fn same(a: &[char], b: &[char]) -> (r: bool)
    ensures
        r == (a@ == b@),
{
    if a.len() != b.len() {
        return false;
    }
    let mut i: usize = 0;
    while i < a.len()
        invariant
            i <= a.len(),
            a.len() == b.len(),
            a@.take(i as int) == b@.take(i as int),
        decreases a.len() - i,
    {
        if a[i] != b[i] {
            return false;
        }
        i += 1;
        assert(a@.take(i as int) =~= a@.take(i - 1).push(a@[i - 1]));
        assert(b@.take(i as int) =~= b@.take(i - 1).push(b@[i - 1]));
    }
    assert(a@.take(i as int) =~= a@);
    assert(b@.take(i as int) =~= b@);
    true
}

/// `s` is the text of `literal`.
pub fn is_text(s: &[char], literal: &str) -> (r: bool)
    ensures
        r == (s@ == literal@),
{
    let l = chars_of(literal);
    same(s, &l)
}

/// `a` and `b` are the same text.
pub fn same_str(a: &str, b: &str) -> (r: bool)
    ensures
        r == (a@ == b@),
{
    let l = chars_of(a);
    let m = chars_of(b);
    same(&l, &m)
}

/// The order of texts: by the first character that differs, and a text comes after its own
/// beginnings.
pub open spec fn precedes(a: Seq<char>, b: Seq<char>) -> bool
    decreases a.len(),
{
    if b.len() == 0 {
        false
    } else if a.len() == 0 {
        true
    } else if a[0] != b[0] {
        (a[0] as int) < (b[0] as int)
    } else {
        precedes(a.skip(1), b.skip(1))
    }
}

/// No text comes before itself, of two texts one comes first, and the order is transitive.
pub proof fn lemma_precedes(a: Seq<char>, b: Seq<char>, c: Seq<char>)
    ensures
        !precedes(a, a),
        a != b ==> precedes(a, b) || precedes(b, a),
        precedes(a, b) && precedes(b, c) ==> precedes(a, c),
    decreases a.len(), b.len(), c.len(),
{
    if a.len() > 0 && b.len() > 0 && c.len() > 0 {
        lemma_precedes(a.skip(1), b.skip(1), c.skip(1));
        if a[0] == b[0] && a.skip(1) == b.skip(1) {
            assert(a =~= seq![a[0]] + a.skip(1));
            assert(b =~= seq![b[0]] + b.skip(1));
        }
    } else if a.len() > 0 && b.len() > 0 {
        lemma_precedes(a.skip(1), b.skip(1), c);
        if a[0] == b[0] && a.skip(1) == b.skip(1) {
            assert(a =~= seq![a[0]] + a.skip(1));
            assert(b =~= seq![b[0]] + b.skip(1));
        }
    } else if a.len() > 0 {
        lemma_precedes(a.skip(1), b, c);
    } else if b.len() == 0 {
        assert(a =~= b);
    }
}

/// `a` comes before `b`.
pub fn comes_before(a: &str, b: &str) -> (r: bool)
    ensures
        r == precedes(a@, b@),
{
    let s = chars_of(a);
    let t = chars_of(b);
    let mut i: usize = 0;
    assert(s@.skip(0) =~= s@ && t@.skip(0) =~= t@);
    while i < s.len() && i < t.len()
        invariant
            i <= s.len(),
            i <= t.len(),
            s@ == a@,
            t@ == b@,
            precedes(a@, b@) == precedes(s@.skip(i as int), t@.skip(i as int)),
        decreases s.len() - i,
    {
        if s[i] != t[i] {
            return s[i] < t[i];
        }
        assert(s@.skip(i as int).skip(1) =~= s@.skip(i + 1));
        assert(t@.skip(i as int).skip(1) =~= t@.skip(i + 1));
        i += 1;
    }
    i < t.len()
}

/// `s` begins with the text of `prefix`.
pub fn starts_with(s: &[char], prefix: &str) -> (r: bool)
    ensures
        r == prefix@.is_prefix_of(s@),
{
    let p = chars_of(prefix);
    if s.len() < p.len() {
        return false;
    }
    let head = slice_subrange(s, 0, p.len());
    let r = same(head, &p);
    assert(prefix@.is_prefix_of(s@) ==> head@ =~= p@);
    r
}

/// `needle` occurs somewhere in `s`.
pub open spec fn occurs_in(needle: Seq<char>, s: Seq<char>) -> bool {
    exists|i: int|
        0 <= i <= s.len() - needle.len() && #[trigger] s.subrange(i, i + needle.len()) == needle
}

/// The text of `needle` occurs somewhere in `s`.
pub fn contains(s: &[char], needle: &str) -> (r: bool)
    ensures
        r == occurs_in(needle@, s@),
{
    let n = chars_of(needle);
    if s.len() < n.len() {
        return false;
    }
    let last = s.len() - n.len();
    let mut i: usize = 0;
    while i <= last
        invariant
            n@ == needle@,
            last == s.len() - n.len(),
            i <= last + 1,
            forall|j: int| 0 <= j < i ==> #[trigger] s@.subrange(j, j + needle@.len()) != needle@,
        decreases last + 1 - i,
    {
        if same(slice_subrange(s, i, i + n.len()), &n) {
            assert(s@.subrange(i as int, i + needle@.len()) == needle@);
            return true;
        }
        if i == last {
            return false;
        }
        i += 1;
    }
    false
}

// ---------------------------------------------------------------------------------------------
// Searching
// ---------------------------------------------------------------------------------------------
/// The index of the first character that satisfies `p`; the length if there is none.
pub open spec fn first_index(s: Seq<char>, p: spec_fn(char) -> bool) -> int
    decreases s.len(),
{
    if s.len() == 0 || p(s[0]) {
        0
    } else {
        1 + first_index(s.skip(1), p)
    }
}

/// The number of characters that remain when the characters that satisfy `p` are taken from the
/// end.
pub open spec fn end_index(s: Seq<char>, p: spec_fn(char) -> bool) -> int
    decreases s.len(),
{
    if s.len() == 0 || !p(s.last()) {
        s.len() as int
    } else {
        end_index(s.drop_last(), p)
    }
}

/// Being the character `c`.
pub open spec fn is_char(c: char) -> spec_fn(char) -> bool {
    |x: char| x == c
}

/// The position of the first `c`; the length if there is none.
pub open spec fn find(s: Seq<char>, c: char) -> int {
    first_index(s, is_char(c))
}

/// Nothing before [`first_index`] satisfies `p`, and what stands there, if anything, does.
pub proof fn lemma_first_index(s: Seq<char>, p: spec_fn(char) -> bool)
    ensures
        0 <= first_index(s, p) <= s.len(),
        forall|i: int| 0 <= i < first_index(s, p) ==> !p(#[trigger] s[i]),
        first_index(s, p) < s.len() ==> p(s[first_index(s, p)]),
    decreases s.len(),
{
    if s.len() == 0 || p(s[0]) {
    } else {
        lemma_first_index(s.skip(1), p);
        let f = first_index(s.skip(1), p);
        assert forall|i: int| 0 <= i < 1 + f implies !p(#[trigger] s[i]) by {
            if i > 0 {
                assert(s[i] == s.skip(1)[i - 1]);
            }
        }
    }
}

/// An index with the properties of [`first_index`] is [`first_index`].
pub proof fn lemma_first_index_unique(s: Seq<char>, p: spec_fn(char) -> bool, k: int)
    requires
        0 <= k <= s.len(),
        forall|i: int| 0 <= i < k ==> !p(#[trigger] s[i]),
        k < s.len() ==> p(s[k]),
    ensures
        first_index(s, p) == k,
{
    lemma_first_index(s, p);
    let f = first_index(s, p);
    if f < k {
        assert(!p(s[f]));
    } else if k < f {
        assert(!p(s[k]));
    }
}

/// From [`end_index`] on everything satisfies `p`, and what stands before it, if anything, does
/// not.
pub proof fn lemma_end_index(s: Seq<char>, p: spec_fn(char) -> bool)
    ensures
        0 <= end_index(s, p) <= s.len(),
        forall|i: int| end_index(s, p) <= i < s.len() ==> p(#[trigger] s[i]),
        end_index(s, p) > 0 ==> !p(s[end_index(s, p) - 1]),
    decreases s.len(),
{
    if s.len() == 0 || !p(s.last()) {
    } else {
        lemma_end_index(s.drop_last(), p);
        let e = end_index(s.drop_last(), p);
        assert forall|i: int| e <= i < s.len() implies p(#[trigger] s[i]) by {
            if i < s.len() - 1 {
                assert(s[i] == s.drop_last()[i]);
            }
        }
    }
}

/// An index with the properties of [`end_index`] is [`end_index`].
pub proof fn lemma_end_index_unique(s: Seq<char>, p: spec_fn(char) -> bool, k: int)
    requires
        0 <= k <= s.len(),
        forall|i: int| k <= i < s.len() ==> p(#[trigger] s[i]),
        k > 0 ==> !p(s[k - 1]),
    ensures
        end_index(s, p) == k,
{
    lemma_end_index(s, p);
    let e = end_index(s, p);
    if e < k {
        assert(p(s[k - 1]));
    } else if k < e {
        assert(p(s[e - 1]));
    }
}

/// The position of the first `c` in `s`; the length of `s` if there is none.
pub fn find_char(s: &[char], c: char) -> (k: usize)
    ensures
        k == find(s@, c),
        k <= s@.len(),
        k < s@.len() ==> s@[k as int] == c,
{
    let ghost p = is_char(c);
    let mut i: usize = 0;
    while i < s.len() && s[i] != c
        invariant
            p == is_char(c),
            i <= s.len(),
            forall|j: int| 0 <= j < i ==> !p(#[trigger] s@[j]),
        decreases s.len() - i,
    {
        i += 1;
    }
    proof {
        lemma_first_index_unique(s@, p, i as int);
    }
    i
}

// ---------------------------------------------------------------------------------------------
// Trimming
// ---------------------------------------------------------------------------------------------
/// The text without the characters at its start that satisfy `p`.
pub open spec fn trim_start_by(s: Seq<char>, p: spec_fn(char) -> bool) -> Seq<char> {
    s.skip(first_index(s, |c: char| !p(c)))
}

/// The text without the characters at its start and at its end that satisfy `p`.
pub open spec fn trim_by(s: Seq<char>, p: spec_fn(char) -> bool) -> Seq<char> {
    let t = trim_start_by(s, p);
    t.take(end_index(t, p))
}

/// The text without white space at its start.
pub open spec fn trim_start(s: Seq<char>) -> Seq<char> {
    trim_start_by(s, |c: char| is_white_space(c))
}

/// The text without white space at its start and at its end.
pub open spec fn trim(s: Seq<char>) -> Seq<char> {
    trim_by(s, |c: char| is_white_space(c))
}

/// The text without the characters of `set` at its start and at its end.
pub open spec fn trim_set(s: Seq<char>, set: Seq<char>) -> Seq<char> {
    trim_by(s, |c: char| set.contains(c))
}

/// A text with nothing to lose at its ends is left as it is.
pub proof fn lemma_trim_by_same(s: Seq<char>, p: spec_fn(char) -> bool)
    requires
        s.len() > 0,
        !p(s[0]),
        !p(s.last()),
    ensures
        trim_by(s, p) == s,
{
    let q = |c: char| !p(c);
    lemma_first_index_unique(s, q, 0);
    assert(s.skip(0) =~= s);
    lemma_end_index_unique(s, p, s.len() as int);
    assert(s.take(s.len() as int) =~= s);
}

/// What is lost at the start makes no difference.
pub proof fn lemma_trim_by_start(c: char, s: Seq<char>, p: spec_fn(char) -> bool)
    requires
        p(c),
    ensures
        trim_by(seq![c] + s, p) == trim_by(s, p),
{
    let q = |c: char| !p(c);
    let t = seq![c] + s;
    assert(t.skip(1) =~= s);
    lemma_first_index(s, q);
    assert(first_index(t, q) == 1 + first_index(s, q));
    assert(t.skip(first_index(t, q)) =~= s.skip(first_index(s, q)));
}

/// `c` is one of the characters of `set`.
pub fn in_set(set: &[char], c: char) -> (r: bool)
    ensures
        r == set@.contains(c),
{
    let mut i: usize = 0;
    while i < set.len()
        invariant
            i <= set.len(),
            forall|j: int| 0 <= j < i ==> set@[j] != c,
        decreases set.len() - i,
    {
        if set[i] == c {
            assert(set@[i as int] == c);
            return true;
        }
        i += 1;
    }
    false
}

/// `s` without white space at its start.
pub fn trimmed_start(s: &[char]) -> (r: &[char])
    ensures
        r@ == trim_start(s@),
{
    let ghost p = |c: char| is_white_space(c);
    let ghost q = |c: char| !p(c);
    let mut i: usize = 0;
    while i < s.len() && char_is_white_space(s[i])
        invariant
            p == (|c: char| is_white_space(c)),
            q == (|c: char| !p(c)),
            i <= s.len(),
            forall|j: int| 0 <= j < i ==> !q(#[trigger] s@[j]),
        decreases s.len() - i,
    {
        i += 1;
    }
    proof {
        lemma_first_index_unique(s@, q, i as int);
    }
    slice_subrange(s, i, s.len())
}

/// `s` without white space at its start and at its end.
pub fn trimmed(s: &[char]) -> (r: &[char])
    ensures
        r@ == trim(s@),
{
    let ghost p = |c: char| is_white_space(c);
    let t = trimmed_start(s);
    let mut n: usize = t.len();
    while n > 0 && char_is_white_space(t[n - 1])
        invariant
            p == (|c: char| is_white_space(c)),
            n <= t.len(),
            forall|j: int| n <= j < t.len() ==> p(#[trigger] t@[j]),
        decreases n,
    {
        n -= 1;
    }
    proof {
        lemma_end_index_unique(t@, p, n as int);
    }
    slice_subrange(t, 0, n)
}

/// `s` without the characters of `set` at its start and at its end.
pub fn trimmed_set<'a>(s: &'a [char], set: &str) -> (r: &'a [char])
    ensures
        r@ == trim_set(s@, set@),
{
    let members = chars_of(set);
    let ghost p = |c: char| set@.contains(c);
    let ghost q = |c: char| !p(c);
    let mut i: usize = 0;
    while i < s.len() && in_set(&members, s[i])
        invariant
            members@ == set@,
            p == (|c: char| set@.contains(c)),
            q == (|c: char| !p(c)),
            i <= s.len(),
            forall|j: int| 0 <= j < i ==> !q(#[trigger] s@[j]),
        decreases s.len() - i,
    {
        i += 1;
    }
    proof {
        lemma_first_index_unique(s@, q, i as int);
    }
    let t = slice_subrange(s, i, s.len());
    let mut n: usize = t.len();
    while n > 0 && in_set(&members, t[n - 1])
        invariant
            members@ == set@,
            p == (|c: char| set@.contains(c)),
            n <= t.len(),
            forall|j: int| n <= j < t.len() ==> p(#[trigger] t@[j]),
        decreases n,
    {
        n -= 1;
    }
    proof {
        lemma_end_index_unique(t@, p, n as int);
    }
    slice_subrange(t, 0, n)
}

// ---------------------------------------------------------------------------------------------
// Leaving out white space
// ---------------------------------------------------------------------------------------------
/// The text without ASCII white space.
pub open spec fn compact(s: Seq<char>) -> Seq<char> {
    s.filter(|c: char| !is_ascii_white_space(c))
}

/// `s` without ASCII white space.
pub fn without_white_space(s: &[char]) -> (r: Vec<char>)
    ensures
        r@ == compact(s@),
{
    let ghost p = |c: char| !is_ascii_white_space(c);
    let mut r: Vec<char> = Vec::new();
    let mut i: usize = 0;
    assert(s@.take(0) =~= Seq::empty());
    reveal(Seq::filter);
    while i < s.len()
        invariant
            i <= s.len(),
            p == (|c: char| !is_ascii_white_space(c)),
            r@ == s@.take(i as int).filter(p),
        decreases s.len() - i,
    {
        reveal(Seq::filter);
        assert(s@.take(i + 1).drop_last() =~= s@.take(i as int));
        if !char_is_ascii_white_space(s[i]) {
            r.push(s[i]);
        }
        i += 1;
    }
    assert(s@.take(i as int) =~= s@);
    r
}

/// A text of hexadecimal digits has no white space to lose.
pub proof fn lemma_compact_hex(s: Seq<char>)
    requires
        forall|i: int| 0 <= i < s.len() ==> is_hex_digit(#[trigger] s[i]),
    ensures
        compact(s) == s,
    decreases s.len(),
{
    reveal(Seq::filter);
    if s.len() > 0 {
        assert(is_hex_digit(s.last()));
        assert forall|i: int| 0 <= i < s.drop_last().len() implies is_hex_digit(
            #[trigger] s.drop_last()[i],
        ) by {
            assert(s[i] == s.drop_last()[i]);
        }
        lemma_compact_hex(s.drop_last());
        assert(s.drop_last().push(s.last()) =~= s);
    }
}

// ---------------------------------------------------------------------------------------------
// Splitting
// ---------------------------------------------------------------------------------------------
/// What stands before and after the first `c`, if there is one.
pub open spec fn split_once(s: Seq<char>, c: char) -> Option<(Seq<char>, Seq<char>)> {
    let k = find(s, c);
    if k < s.len() {
        Some((s.take(k), s.skip(k + 1)))
    } else {
        None
    }
}

/// What stands between the occurrences of `c`: one piece more than there are occurrences.
pub open spec fn split(s: Seq<char>, c: char) -> Seq<Seq<char>>
    decreases s.len(),
    via split_decreases
{
    let k = find(s, c);
    if k < s.len() {
        seq![s.take(k)] + split(s.skip(k + 1), c)
    } else {
        seq![s]
    }
}

#[via_fn]
proof fn split_decreases(s: Seq<char>, c: char) {
    lemma_first_index(s, is_char(c));
}

/// What stands before and after the first `c` of `s`, if there is one.
pub fn split_at_char(s: &[char], c: char) -> (r: Option<(&[char], &[char])>)
    ensures
        match r {
            Some((a, b)) => split_once(s@, c) == Some((a@, b@)),
            None => split_once(s@, c) is None,
        },
{
    let k = find_char(s, c);
    if k < s.len() {
        Some((slice_subrange(s, 0, k), slice_subrange(s, k + 1, s.len())))
    } else {
        None
    }
}

/// What stands between the occurrences of `c` in `s`.
pub fn split_on(s: &[char], c: char) -> (r: Vec<&[char]>)
    ensures
        pieces(r@) == split(s@, c),
        r@.len() >= 1,
{
    let mut r: Vec<&[char]> = Vec::new();
    let mut start: usize = 0;
    assert(s@.skip(0) =~= s@);
    assert(pieces(r@) + split(s@, c) =~= split(s@, c));
    loop
        invariant
            start <= s.len(),
            pieces(r@) + split(s@.skip(start as int), c) == split(s@, c),
        decreases s.len() - start,
    {
        let rest = slice_subrange(s, start, s.len());
        assert(rest@ =~= s@.skip(start as int));
        let k = find_char(rest, c);
        let ghost before = pieces(r@);
        if k < rest.len() {
            let piece = slice_subrange(rest, 0, k);
            r.push(piece);
            assert(pieces(r@) =~= before.push(piece@));
            assert(s@.skip(start as int).skip(k + 1) =~= s@.skip(start + k + 1));
            assert(piece@ =~= rest@.take(k as int));
            assert(before + (seq![piece@] + split(s@.skip(start + k + 1), c)) =~= before.push(
                piece@,
            ) + split(s@.skip(start + k + 1), c));
            start = start + k + 1;
        } else {
            r.push(rest);
            assert(pieces(r@) =~= before + seq![rest@]);
            return r;
        }
    }
}

/// What stands before the first separator is the first piece.
pub proof fn lemma_split_first(a: Seq<char>, c: char, b: Seq<char>)
    requires
        !a.contains(c),
    ensures
        find(a.push(c) + b, c) == a.len(),
        split(a.push(c) + b, c) == seq![a] + split(b, c),
{
    let s = a.push(c) + b;
    assert forall|i: int| 0 <= i < a.len() implies !is_char(c)(#[trigger] s[i]) by {
        assert(s[i] == a[i]);
    }
    lemma_first_index_unique(s, is_char(c), a.len() as int);
    assert(s.take(a.len() as int) =~= a);
    assert(s.skip(a.len() as int + 1) =~= b);
}

/// A text without separators is one piece.
pub proof fn lemma_split_none(a: Seq<char>, c: char)
    requires
        !a.contains(c),
    ensures
        find(a, c) == a.len(),
        split(a, c) == seq![a],
{
    assert forall|i: int| 0 <= i < a.len() implies !is_char(c)(#[trigger] a[i]) by {
        assert(a.contains(a[i]));
    }
    lemma_first_index_unique(a, is_char(c), a.len() as int);
}

/// A line without the carriage return that stood before its line feed.
pub open spec fn strip_cr(s: Seq<char>) -> Seq<char> {
    if s.len() > 0 && s.last() == '\r' {
        s.drop_last()
    } else {
        s
    }
}

/// The lines of a text. A line ends with a line feed, or with a carriage return and a line feed;
/// what follows the last line feed is a line if it is not empty.
pub open spec fn lines(s: Seq<char>) -> Seq<Seq<char>>
    decreases s.len(),
    via lines_decreases
{
    let k = find(s, '\n');
    if s.len() == 0 {
        Seq::empty()
    } else if k < s.len() {
        seq![strip_cr(s.take(k))] + lines(s.skip(k + 1))
    } else {
        seq![s]
    }
}

#[via_fn]
proof fn lines_decreases(s: Seq<char>) {
    lemma_first_index(s, is_char('\n'));
}

/// The lines of `s`.
pub fn lines_of(s: &[char]) -> (r: Vec<&[char]>)
    ensures
        pieces(r@) == lines(s@),
{
    let mut r: Vec<&[char]> = Vec::new();
    let mut start: usize = 0;
    assert(s@.skip(0) =~= s@);
    assert(pieces(r@) + lines(s@) =~= lines(s@));
    while start < s.len()
        invariant
            start <= s.len(),
            pieces(r@) + lines(s@.skip(start as int)) == lines(s@),
        decreases s.len() - start,
    {
        let rest = slice_subrange(s, start, s.len());
        assert(rest@ =~= s@.skip(start as int));
        let k = find_char(rest, '\n');
        let ghost before = pieces(r@);
        if k < rest.len() {
            let end: usize = if k > 0 && rest[k - 1] == '\r' {
                k - 1
            } else {
                k
            };
            let piece = slice_subrange(rest, 0, end);
            assert(piece@ =~= strip_cr(rest@.take(k as int)));
            r.push(piece);
            assert(pieces(r@) =~= before.push(piece@));
            assert(s@.skip(start as int).skip(k + 1) =~= s@.skip(start + k + 1));
            assert(before + (seq![piece@] + lines(s@.skip(start + k + 1))) =~= before.push(piece@)
                + lines(s@.skip(start + k + 1)));
            start = start + k + 1;
        } else {
            r.push(rest);
            assert(pieces(r@) =~= before + seq![rest@]);
            return r;
        }
    }
    assert(lines(s@.skip(start as int)) =~= Seq::empty());
    assert(pieces(r@) + lines(s@.skip(start as int)) =~= pieces(r@));
    r
}

/// The words of a text: its longest runs of characters other than white space.
pub open spec fn words(s: Seq<char>) -> Seq<Seq<char>>
    decreases s.len(),
    via words_decreases
{
    let t = trim_start(s);
    let k = first_index(t, |c: char| is_white_space(c));
    if t.len() == 0 {
        Seq::empty()
    } else {
        seq![t.take(k)] + words(t.skip(k))
    }
}

#[via_fn]
proof fn words_decreases(s: Seq<char>) {
    let p = |c: char| is_white_space(c);
    let q = |c: char| !p(c);
    lemma_first_index(s, q);
    let t = trim_start(s);
    lemma_first_index(t, p);
    if t.len() > 0 {
        assert(t[0] == s[first_index(s, q)]);
        assert(q(s[first_index(s, q)]));
    }
}

/// The words of `s`.
pub fn words_of(s: &[char]) -> (r: Vec<&[char]>)
    ensures
        pieces(r@) == words(s@),
{
    let ghost p = |c: char| is_white_space(c);
    let ghost q = |c: char| !p(c);
    let mut r: Vec<&[char]> = Vec::new();
    let mut rest: &[char] = s;
    assert(pieces(r@) + words(s@) =~= words(s@));
    loop
        invariant
            p == (|c: char| is_white_space(c)),
            q == (|c: char| !p(c)),
            pieces(r@) + words(rest@) == words(s@),
        decreases rest@.len(),
    {
        let t = trimmed_start(rest);
        let ghost before = pieces(r@);
        proof {
            lemma_first_index(rest@, q);
        }
        if t.len() == 0 {
            assert(before + words(rest@) =~= before);
            return r;
        }
        let mut k: usize = 0;
        while k < t.len() && !char_is_white_space(t[k])
            invariant
                p == (|c: char| is_white_space(c)),
                k <= t.len(),
                forall|j: int| 0 <= j < k ==> !p(#[trigger] t@[j]),
            decreases t.len() - k,
        {
            k += 1;
        }
        proof {
            lemma_first_index_unique(t@, p, k as int);
            assert(t@[0] == rest@[first_index(rest@, q)]);
            assert(q(rest@[first_index(rest@, q)]));
        }
        let piece = slice_subrange(t, 0, k);
        r.push(piece);
        assert(pieces(r@) =~= before.push(piece@));
        let next = slice_subrange(t, k, t.len());
        assert(next@ =~= t@.skip(k as int));
        assert(before + (seq![piece@] + words(next@)) =~= before.push(piece@) + words(next@));
        rest = next;
    }
}

// ---------------------------------------------------------------------------------------------
// Taking the first piece that gives a result
// ---------------------------------------------------------------------------------------------
/// The first result that `f` gives on the pieces, in their order.
pub open spec fn find_map<B>(s: Seq<Seq<char>>, f: spec_fn(Seq<char>) -> Option<B>) -> Option<B>
    decreases s.len(),
{
    if s.len() == 0 {
        None
    } else {
        match f(s[0]) {
            Some(b) => Some(b),
            None => find_map(s.skip(1), f),
        }
    }
}

/// The first piece decides if `f` gives a result on it; otherwise the others do.
pub proof fn lemma_find_map_step<B>(
    s: Seq<Seq<char>>,
    f: spec_fn(Seq<char>) -> Option<B>,
    i: int,
)
    requires
        0 <= i < s.len(),
    ensures
        f(s[i]) is Some ==> find_map(s.skip(i), f) == f(s[i]),
        f(s[i]) is None ==> find_map(s.skip(i), f) == find_map(s.skip(i + 1), f),
{
    assert(s.skip(i).skip(1) =~= s.skip(i + 1));
}

} // verus!

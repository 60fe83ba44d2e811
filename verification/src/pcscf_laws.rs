//! Laws of the discovery of the P-CSCF.
use vstd::prelude::*;
use crate::ims_sip;
use crate::ipv6;
use crate::text;
use crate::text_laws;

verus! {

/// Every character of the text is a quote or a bracket.
pub open spec fn is_wrapping(s: Seq<char>) -> bool {
    forall|i: int|
        0 <= i < s.len() ==> (#[trigger] s[i]) == '\'' || s[i] == '"' || s[i] == '[' || s[i] == ']'
}

/// The field holds the address, with quotes or brackets and white space around it or not.
pub open spec fn holds_address(
    field: Seq<char>,
    lead: Seq<char>,
    open: Seq<char>,
    address: Seq<u16>,
    close: Seq<char>,
    trail: Seq<char>,
) -> bool {
    &&& address.len() == 8
    &&& text_laws::is_white(lead)
    &&& is_wrapping(open)
    &&& is_wrapping(close)
    &&& text_laws::is_white(trail)
    &&& field == lead + (open + ipv6::ipv6_text(address) + close) + trail
}

proof fn lemma_address_ends(address: Seq<u16>)
    requires
        address.len() == 8,
    ensures
        ipv6::ipv6_text(address).len() > 0,
        ({
            let t = ipv6::ipv6_text(address);
            ipv6::is_address_char(t[0]) && ipv6::is_address_char(t.last())
        }),
{
    let t = ipv6::ipv6_text(address);
    ipv6::law_ipv6_text_characters(address);
    ipv6::law_ipv6_round_trip(address);
    if t.len() == 0 {
        assert(ipv6::find_gap(t) == 0);
        assert(ipv6::parse_groups(t, true) == Some(Seq::<u16>::empty()));
    }
    assert(ipv6::is_address_char(t[0]) && ipv6::is_address_char(t[t.len() - 1]));
}

/// An address is read from its field, whatever quotes and brackets are around it.
pub proof fn law_address_of_field(
    field: Seq<char>,
    lead: Seq<char>,
    open: Seq<char>,
    address: Seq<u16>,
    close: Seq<char>,
    trail: Seq<char>,
)
    requires
        holds_address(field, lead, open, address, close, trail),
    ensures
        ims_sip::quoted_address(field) == Some(address),
        ims_sip::quoted_address(Seq::<char>::empty()) is None,
{
    reveal_strlit("'\"[]");
    let set = "'\"[]"@;
    let t = ipv6::ipv6_text(address);
    let core = open + t + close;
    lemma_address_ends(address);
    assert(set[0] == '\'' && set[1] == '"' && set[2] == '[' && set[3] == ']');
    assert forall|i: int| 0 <= i < open.len() implies set.contains(#[trigger] open[i]) by {}
    assert forall|i: int| 0 <= i < close.len() implies set.contains(#[trigger] close[i]) by {}
    assert(!set.contains(t[0]) && !set.contains(t.last()));
    assert(text_laws::is_bare(core)) by {
        if open.len() > 0 {
            assert(core[0] == open[0]);
        } else {
            assert(core[0] == t[0]);
        }
        if close.len() > 0 {
            assert(core.last() == close[close.len() - 1]);
        } else {
            assert(core.last() == t.last());
        }
    }
    text_laws::law_trim(lead, core, trail);
    text_laws::law_trim_set(open, t, close, set);
    ipv6::law_ipv6_round_trip(address);
    let empty = Seq::<char>::empty();
    text_laws::lemma_trim_bare(empty);
    text_laws::law_trim_set(empty, empty, empty, set);
    assert(empty + empty + empty =~= empty);
    assert(ipv6::find_gap(empty) == 0);
    assert(ipv6::parse_groups(empty, true) == Some(Seq::<u16>::empty()));
}

/// A line of the answer to `AT+CGCONTRDP`: white space, the name of the answer in small or capital
/// letters, the fields with commas between them, and white space.
pub open spec fn is_answer_line(
    line: Seq<char>,
    lead: Seq<char>,
    name: Seq<char>,
    fields: Seq<Seq<char>>,
    trail: Seq<char>,
) -> bool {
    &&& text_laws::is_white(lead)
    &&& text::uppercase(name) == "+CGCONTRDP"@
    &&& fields.len() > 0
    &&& forall|i: int| 0 <= i < fields.len() ==> !(#[trigger] fields[i]).contains(',')
    &&& text_laws::is_white(trail)
    &&& fields.last().len() > 0 ==> !text::is_white_space(fields.last().last())
    &&& line == lead + (name.push(':') + text_laws::joined(fields, ',')) + trail
}

proof fn lemma_joined_end(fields: Seq<Seq<char>>)
    requires
        fields.len() > 0,
        fields.last().len() > 0 ==> !text::is_white_space(fields.last().last()),
    ensures
        ({
            let value = text_laws::joined(fields, ',');
            value.len() > 0 ==> !text::is_white_space(value.last())
        }),
    decreases fields.len(),
{
    if fields.len() > 1 {
        assert(fields.skip(1).last() == fields.last());
        lemma_joined_end(fields.skip(1));
        let rest = text_laws::joined(fields.skip(1), ',');
        let value = fields[0].push(',') + rest;
        if rest.len() > 0 {
            assert(value.last() == rest.last());
        } else {
            assert(value.last() == ',');
        }
    }
}

proof fn lemma_answer_fields(
    line: Seq<char>,
    lead: Seq<char>,
    name: Seq<char>,
    fields: Seq<Seq<char>>,
    trail: Seq<char>,
)
    requires
        is_answer_line(line, lead, name, fields, trail),
    ensures
        ims_sip::pcscf_of_contrdp(line) == text::find_map(
            ims_sip::pcscf_fields(fields),
            |field: Seq<char>| ims_sip::quoted_address(field),
        ),
{
    reveal_strlit("+CGCONTRDP");
    reveal_strlit("+CGCONTRDP:");
    let value = text_laws::joined(fields, ',');
    let core = name.push(':') + value;
    assert(text::uppercase(name).len() == name.len());
    assert(name.len() == 10);
    assert forall|i: int| 0 <= i < name.len() implies #[trigger] name[i] != ':' && text::upper(
        name[i],
    ) == "+CGCONTRDP"@[i] by {
        assert(text::uppercase(name)[i] == "+CGCONTRDP"@[i]);
    }
    lemma_joined_end(fields);
    assert(core[0] == name[0]);
    assert(text::upper(name[0]) == '+');
    if value.len() > 0 {
        assert(core.last() == value.last());
    } else {
        assert(core.last() == ':');
    }
    text_laws::law_trim(lead, core, trail);
    let capitals = text::uppercase(core);
    assert(capitals.subrange(0, 11) =~= "+CGCONTRDP:"@) by {
        assert forall|i: int| 0 <= i < 11 implies capitals[i] == "+CGCONTRDP:"@[i] by {
            if i < 10 {
                assert(core[i] == name[i]);
            } else {
                assert(core[10] == ':');
            }
        }
    }
    assert(!name.contains(':'));
    text_laws::law_split_once(name, ':', value);
    text_laws::law_split(fields, ',');
}

/// The P-CSCF is in the ninth field of the answer, whatever the other fields hold and however many
/// follow it.
pub proof fn law_ninth_field(
    line: Seq<char>,
    lead: Seq<char>,
    name: Seq<char>,
    fields: Seq<Seq<char>>,
    trail: Seq<char>,
    a: Seq<char>,
    open: Seq<char>,
    address: Seq<u16>,
    close: Seq<char>,
    z: Seq<char>,
)
    requires
        is_answer_line(line, lead, name, fields, trail),
        fields.len() >= 9,
        holds_address(fields[8], a, open, address, close, z),
    ensures
        ims_sip::pcscf_of_contrdp(line) == Some(address),
{
    lemma_answer_fields(line, lead, name, fields, trail);
    law_address_of_field(fields[8], a, open, address, close, z);
    let f = |field: Seq<char>| ims_sip::quoted_address(field);
    let two = ims_sip::pcscf_fields(fields);
    assert(two.len() > 0 && two[0] == fields[8]);
    text_laws::law_find_map(two, f, 0);
}

/// The tenth field counts where the ninth holds no address.
pub proof fn law_tenth_field(
    line: Seq<char>,
    lead: Seq<char>,
    name: Seq<char>,
    fields: Seq<Seq<char>>,
    trail: Seq<char>,
    a: Seq<char>,
    open: Seq<char>,
    address: Seq<u16>,
    close: Seq<char>,
    z: Seq<char>,
)
    requires
        is_answer_line(line, lead, name, fields, trail),
        fields.len() >= 10,
        ims_sip::quoted_address(fields[8]) is None,
        holds_address(fields[9], a, open, address, close, z),
    ensures
        ims_sip::pcscf_of_contrdp(line) == Some(address),
{
    lemma_answer_fields(line, lead, name, fields, trail);
    law_address_of_field(fields[9], a, open, address, close, z);
    let f = |field: Seq<char>| ims_sip::quoted_address(field);
    let two = ims_sip::pcscf_fields(fields);
    assert(two.len() == 2 && two[0] == fields[8] && two[1] == fields[9]);
    text_laws::law_find_map(two, f, 1);
}

/// No other field counts.
pub proof fn law_no_other_field(
    line: Seq<char>,
    lead: Seq<char>,
    name: Seq<char>,
    fields: Seq<Seq<char>>,
    trail: Seq<char>,
)
    requires
        is_answer_line(line, lead, name, fields, trail),
        fields.len() >= 9 ==> ims_sip::quoted_address(fields[8]) is None,
        fields.len() >= 10 ==> ims_sip::quoted_address(fields[9]) is None,
    ensures
        ims_sip::pcscf_of_contrdp(line) is None,
{
    lemma_answer_fields(line, lead, name, fields, trail);
    let f = |field: Seq<char>| ims_sip::quoted_address(field);
    let two = ims_sip::pcscf_fields(fields);
    assert forall|i: int| 0 <= i < two.len() implies f(#[trigger] two[i]) is None by {
        assert(two[i] == fields[8 + i]);
        assert(i == 0 || i == 1);
    }
    text_laws::law_find_map(two, f, two.len() as int);
}

/// A line of another answer tells nothing, and neither does a line without a colon.
pub proof fn law_other_lines(line: Seq<char>, lead: Seq<char>, name: Seq<char>, rest: Seq<char>)
    requires
        text_laws::is_white(lead),
        name.len() > 0,
        !text::is_white_space(name[0]),
        !name.contains(':'),
        text::uppercase(name) != "+CGCONTRDP"@,
        !line.contains(':'),
    ensures
        ims_sip::pcscf_of_contrdp(lead + name.push(':') + rest) is None,
        ims_sip::pcscf_of_contrdp(line) is None,
{
    let s = lead + name.push(':') + rest;
    let (a, b) = text_laws::law_trim_parts(s);
    let t = text::trim(s);
    let n = name.len() as int;
    let l = lead.len() as int;
    assert(s[l] == name[0]);
    assert(s[l + n] == ':');
    assert(a.len() <= l) by {
        if a.len() > l {
            assert(text::is_white_space(a[l]));
        }
    }
    assert(t.len() > l + n - a.len()) by {
        if t.len() + a.len() <= l + n {
            assert(text::is_white_space(b[l + n - a.len() - t.len()]));
        }
    }
    assert(a.len() >= l) by {
        if a.len() < l {
            assert(s[a.len() as int] == t[0]);
            assert(text::is_white_space(lead[a.len() as int]));
        }
    }
    reveal_strlit("+CGCONTRDP:");
    reveal_strlit("+CGCONTRDP");
    let p = "+CGCONTRDP:"@;
    let capitals = text::uppercase(t);
    if p.is_prefix_of(capitals) {
        let head = capitals.subrange(0, 11);
        assert forall|i: int| 0 <= i < 11 implies text::upper(#[trigger] t[i]) == p[i] by {
            assert(capitals[i] == head[i]);
        }
        assert(text::upper(t[10]) == ':');
        assert(t[n] == s[l + n]);
        if n < 10 {
            assert(text::upper(t[n]) == p[n]);
        } else if n > 10 {
            assert(t[10] == s[l + 10]);
            assert(name[10] == ':');
            assert(name.contains(':'));
        }
        assert forall|i: int| 0 <= i < 10 implies text::uppercase(name)[i] == "+CGCONTRDP"@[i] by {
            assert(t[i] == s[l + i]);
            assert(text::upper(t[i]) == p[i]);
        }
        assert(text::uppercase(name) =~= "+CGCONTRDP"@);
    }
    let (x, y) = text_laws::law_trim_parts(line);
    let u = text::trim(line);
    if p.is_prefix_of(text::uppercase(u)) {
        assert(text::uppercase(u).subrange(0, 11)[10] == ':');
        assert(text::upper(u[10]) == ':');
        let at = x.len() as int;
        assert(line[at + 10] == u[10]);
        assert(line.contains(':'));
    }
}

/// The answer is searched line by line: lines that tell nothing are passed over, and the first
/// line that tells an address decides.
pub proof fn law_answer_searched(
    before: Seq<Seq<char>>,
    wide: Seq<bool>,
    line: Seq<char>,
    after: Seq<Seq<char>>,
    ends: Seq<bool>,
    address: Seq<u16>,
)
    requires
        before.len() == wide.len(),
        after.len() == ends.len(),
        forall|i: int| 0 <= i < before.len() ==> !(#[trigger] before[i]).contains('\n'),
        forall|i: int|
            0 <= i < before.len() && !wide[i] && (#[trigger] before[i]).len() > 0
                ==> before[i].last() != '\r',
        forall|i: int| 0 <= i < before.len() ==> ims_sip::pcscf_of_contrdp(#[trigger] before[i])
            is None,
        !line.contains('\n'),
        ims_sip::pcscf_of_contrdp(line) == Some(address),
        forall|i: int| 0 <= i < after.len() ==> !(#[trigger] after[i]).contains('\n'),
        forall|i: int|
            0 <= i < after.len() && !ends[i] && (#[trigger] after[i]).len() > 0
                ==> after[i].last() != '\r',
    ensures
        text::find_map(
            text::lines(
                text_laws::ended_lines(before + seq![line] + after, wide + seq![true] + ends),
            ),
            |line: Seq<char>| ims_sip::pcscf_of_contrdp(line),
        ) == Some(address),
{
    let all = before + seq![line] + after;
    let marks = wide + seq![true] + ends;
    let n = before.len() as int;
    assert forall|i: int| 0 <= i < all.len() implies !(#[trigger] all[i]).contains('\n') by {
        if i < n {
            assert(all[i] == before[i]);
        } else if i > n {
            assert(all[i] == after[i - n - 1]);
        }
    }
    assert forall|i: int|
        0 <= i < all.len() && !marks[i] && (#[trigger] all[i]).len() > 0 implies all[i].last()
        != '\r' by {
        if i < n {
            assert(all[i] == before[i] && marks[i] == wide[i]);
        } else if i > n {
            assert(all[i] == after[i - n - 1] && marks[i] == ends[i - n - 1]);
        }
    }
    let text = text_laws::ended_lines(all, marks);
    text_laws::law_lines(all, marks, Seq::empty());
    assert(text + Seq::<char>::empty() =~= text);
    let f = |line: Seq<char>| ims_sip::pcscf_of_contrdp(line);
    assert forall|i: int| 0 <= i < n implies f(#[trigger] all[i]) is None by {
        assert(all[i] == before[i]);
    }
    assert(all[n] == line);
    text_laws::law_find_map(all, f, n);
}

// ---------------------------------------------------------------------------------------------
// The output of `qmicli`
// ---------------------------------------------------------------------------------------------
/// A line with a label that names the P-CSCF, in small or capital letters and with a hyphen or
/// without, tells the address after its colon.
pub proof fn law_labelled_address(
    a: Seq<char>,
    x: Seq<char>,
    b: Seq<char>,
    field: Seq<char>,
    lead: Seq<char>,
    open: Seq<char>,
    address: Seq<u16>,
    close: Seq<char>,
    trail: Seq<char>,
)
    requires
        text::lowercase(x) == "p-cscf"@ || text::lowercase(x) == "pcscf"@,
        !(a + x + b).contains(':'),
        holds_address(field, lead, open, address, close, trail),
    ensures
        ims_sip::pcscf_of_line((a + x + b).push(':') + field) == Some(address),
{
    let label = a + x + b;
    text_laws::law_split_once(label, ':', field);
    law_address_of_field(field, lead, open, address, close, trail);
    reveal_strlit("p-cscf");
    reveal_strlit("pcscf");
    let small = text::lowercase(x);
    assert(small.len() == x.len());
    let ends = text_laws::law_trim_parts(label);
    let core = text::trim(label);
    let i = a.len() as int;
    let n = x.len() as int;
    let w = ends.0.len() as int;
    assert forall|j: int| 0 <= j < n implies !text::is_white_space(#[trigger] x[j]) by {
        assert(small[j] == text::lower(x[j]));
    }
    assert(w <= i) by {
        if w > i {
            assert(label[i] == x[0] && label[i] == ends.0[i]);
        }
    }
    assert(i + n <= w + core.len()) by {
        if i + n > w + core.len() {
            let j = i + n - 1;
            assert(label[j] == x[n - 1] && label[j] == ends.1[j - w - core.len()]);
        }
    }
    let p = core.take(i - w);
    let q = core.skip(i - w + n);
    assert(core =~= p + x + q) by {
        assert forall|j: int| 0 <= j < core.len() implies core[j] == (p + x + q)[j] by {
            assert(label[w + j] == core[j]);
        }
    }
    assert(text::lowercase(core) =~= text::lowercase(p) + small + text::lowercase(q));
    text_laws::law_occurs(text::lowercase(p), small, text::lowercase(q));
}

/// A line without a colon tells nothing, and neither does one whose label does not name the
/// P-CSCF.
pub proof fn law_unlabelled_line(label: Seq<char>, rest: Seq<char>)
    requires
        !label.contains(':'),
    ensures
        ims_sip::pcscf_of_line(label) is None,
        !text::occurs_in("p-cscf"@, text::lowercase(label)) && !text::occurs_in(
            "pcscf"@,
            text::lowercase(label),
        ) ==> ims_sip::pcscf_of_line(label.push(':') + rest) is None,
{
    text_laws::law_split_once(label, ':', rest);
    let ends = text_laws::law_trim_parts(label);
    lemma_occurs_in_label(label, ends.0, text::trim(label), ends.1, "p-cscf"@);
    lemma_occurs_in_label(label, ends.0, text::trim(label), ends.1, "pcscf"@);
}

proof fn lemma_occurs_in_label(
    label: Seq<char>,
    lead: Seq<char>,
    core: Seq<char>,
    trail: Seq<char>,
    needle: Seq<char>,
)
    requires
        label == lead + core + trail,
    ensures
        text::occurs_in(needle, text::lowercase(core)) ==> text::occurs_in(
            needle,
            text::lowercase(label),
        ),
{
    let small = text::lowercase(core);
    if text::occurs_in(needle, small) {
        let i = choose|i: int|
            0 <= i <= small.len() - needle.len() && #[trigger] small.subrange(
                i,
                i + needle.len(),
            ) == needle;
        let p = small.take(i);
        let q = small.skip(i + needle.len());
        assert(small =~= p + needle + q) by {
            assert forall|j: int| 0 <= j < small.len() implies small[j] == (p + needle + q)[j] by {
                if i <= j < i + needle.len() {
                    assert(small.subrange(i, i + needle.len())[j - i] == small[j]);
                }
            }
        }
        assert(text::lowercase(label) =~= (text::lowercase(lead) + p) + needle + (q
            + text::lowercase(trail)));
        text_laws::law_occurs(text::lowercase(lead) + p, needle, q + text::lowercase(trail));
    }
}

/// The output is searched line by line: the first line that tells an address decides.
pub proof fn law_output_searched(lines: Seq<Seq<char>>, wide: Seq<bool>, k: int)
    requires
        lines.len() == wide.len(),
        forall|i: int| 0 <= i < lines.len() ==> !(#[trigger] lines[i]).contains('\n'),
        forall|i: int|
            0 <= i < lines.len() && !wide[i] && (#[trigger] lines[i]).len() > 0
                ==> lines[i].last() != '\r',
        0 <= k < lines.len(),
        forall|i: int| 0 <= i < k ==> ims_sip::pcscf_of_line(#[trigger] lines[i]) is None,
        ims_sip::pcscf_of_line(lines[k]) is Some,
    ensures
        text::find_map(
            text::lines(text_laws::ended_lines(lines, wide)),
            |line: Seq<char>| ims_sip::pcscf_of_line(line),
        ) == ims_sip::pcscf_of_line(lines[k]),
{
    let text = text_laws::ended_lines(lines, wide);
    text_laws::law_lines(lines, wide, Seq::empty());
    assert(text + Seq::<char>::empty() =~= text);
    let f = |line: Seq<char>| ims_sip::pcscf_of_line(line);
    assert forall|i: int| 0 <= i < k implies f(#[trigger] lines[i]) is None by {}
    text_laws::law_find_map(lines, f, k);
}

} // verus!

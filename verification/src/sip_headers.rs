//! The headers of a SIP message.
use vstd::prelude::*;
use crate::text::same_str;

verus! {

/// Header values by header name. No name occurs twice.
#[derive(Debug)]
pub struct SipHeaders {
    entries: Vec<(String, String)>,
}

/// No name occurs twice.
spec fn distinct(entries: Seq<(String, String)>) -> bool {
    forall|i: int, j: int|
        0 <= i < j < entries.len() ==> (#[trigger] entries[i]).0@ != (#[trigger] entries[j]).0@
}

/// There is an entry with the name.
spec fn has_name(entries: Seq<(String, String)>, name: Seq<char>) -> bool {
    exists|i: int| 0 <= i < entries.len() && (#[trigger] entries[i]).0@ == name
}

/// Where the entry with the name stands.
spec fn place(entries: Seq<(String, String)>, name: Seq<char>) -> int {
    choose|i: int| 0 <= i < entries.len() && (#[trigger] entries[i]).0@ == name
}

impl View for SipHeaders {
    type V = Map<Seq<char>, Seq<char>>;

    closed spec fn view(&self) -> Map<Seq<char>, Seq<char>> {
        Map::new(
            |name: Seq<char>| has_name(self.entries@, name),
            |name: Seq<char>| self.entries@[place(self.entries@, name)].1@,
        )
    }
}

impl SipHeaders {
    #[verifier::type_invariant]
    spec fn well_formed(self) -> bool {
        distinct(self.entries@)
    }

    /// No headers.
    pub fn new() -> (h: SipHeaders)
        ensures
            h@ == Map::<Seq<char>, Seq<char>>::empty(),
    {
        let h = SipHeaders { entries: Vec::new() };
        assert(h@ =~= Map::empty());
        h
    }

    fn position(entries: &Vec<(String, String)>, name: &str) -> (r: usize)
        ensures
            r <= entries@.len(),
            r < entries@.len() ==> entries@[r as int].0@ == name@,
            r == entries@.len() ==> !has_name(entries@, name@),
    {
        let mut i: usize = 0;
        while i < entries.len()
            invariant
                i <= entries@.len(),
                forall|j: int| 0 <= j < i ==> (#[trigger] entries@[j]).0@ != name@,
            decreases entries@.len() - i,
        {
            if same_str(&entries[i].0, name) {
                return i;
            }
            i += 1;
        }
        i
    }

    /// Sets the value of the header.
    pub fn insert(&mut self, name: String, value: String)
        ensures
            final(self)@ == old(self)@.insert(name@, value@),
    {
        proof {
            use_type_invariant(&*self);
        }
        let mut entries: Vec<(String, String)> = Vec::new();
        std::mem::swap(&mut entries, &mut self.entries);
        let ghost before = entries@;
        let ghost old_view = old(self)@;
        let ghost key = name@;
        let at = Self::position(&entries, &name);
        let ghost entry = (name, value);
        if at < entries.len() {
            entries.set(at, (name, value));
        } else {
            entries.push((name, value));
        }
        proof {
            assert(entries@[at as int] == entry);
            assert forall|k: Seq<char>| has_name(entries@, k) <==> has_name(before, k) || k == key by {
                if has_name(before, k) {
                    let i = place(before, k);
                    assert(entries@[i].0@ == k);
                }
                if has_name(entries@, k) {
                    let i = place(entries@, k);
                    if i != at {
                        assert(before[i].0@ == k);
                    }
                }
            }
            assert forall|k: Seq<char>| has_name(entries@, k) implies entries@[place(
                entries@,
                k,
            )].1@ == (if k == key {
                value@
            } else {
                before[place(before, k)].1@
            }) by {
                let i = place(entries@, k);
                if k == key {
                    assert(entries@[at as int].0@ == k);
                    assert(i == at);
                } else {
                    assert(i != at);
                    assert(before[i].0@ == k);
                    let j = place(before, k);
                    assert(before[j].0@ == k);
                    assert(i == j);
                }
            }
        }
        self.entries = entries;
        assert(self@ =~= old_view.insert(key, value@));
    }

    /// The value of the header.
    pub fn get(&self, name: &str) -> (r: Option<&String>)
        ensures
            match r {
                Some(value) => self@.contains_key(name@) && self@[name@] == value@,
                None => !self@.contains_key(name@),
            },
    {
        proof {
            use_type_invariant(self);
        }
        let at = Self::position(&self.entries, name);
        if at < self.entries.len() {
            proof {
                let i = place(self.entries@, name@);
                assert(self.entries@[at as int].0@ == name@);
                assert(self.entries@[i].0@ == name@);
                assert(i == at);
            }
            Some(&self.entries[at].1)
        } else {
            None
        }
    }
}

} // verus!

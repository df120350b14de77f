//! Solutions: the value of each decision variable.
use crate::expression::{Literal, LiteralView};
use crate::name::{Name, NameView};
use vstd::prelude::*;

verus! {

/// The values that a solution gives to names. Each name has at most one value.
#[derive(Debug)]
pub struct Solution {
    entries: Vec<(Name, Literal)>,
}

/// The position of a name among some entries, if it is there.
spec fn position(entries: Seq<(Name, Literal)>, name: NameView, i: int) -> bool {
    0 <= i < entries.len() && entries[i].0@ == name
}

impl Solution {
    /// The value of each name that has one.
    pub closed spec fn view(&self) -> Map<NameView, LiteralView> {
        Map::new(
            |name: NameView| exists|i: int| position(self.entries@, name, i),
            |name: NameView| self.entries@[choose|i: int| position(self.entries@, name, i)].1@,
        )
    }

    /// No name is listed twice.
    pub closed spec fn wf(&self) -> bool {
        forall|i: int, j: int|
            0 <= i < self.entries@.len() && 0 <= j < self.entries@.len() && i != j
                ==> #[trigger] self.entries@[i].0@ != #[trigger] self.entries@[j].0@
    }

    proof fn lemma_entry(&self, i: int)
        requires
            self.wf(),
            0 <= i < self.entries@.len(),
        ensures
            self@.dom().contains(self.entries@[i].0@),
            self@[self.entries@[i].0@] == self.entries@[i].1@,
    {
        let name = self.entries@[i].0@;
        assert(position(self.entries@, name, i));
        let k = choose|k: int| position(self.entries@, name, k);
        assert(position(self.entries@, name, k));
        if k != i {
            assert(self.entries@[i].0@ != self.entries@[k].0@);
        }
    }

    /// The solution that gives no values.
    pub fn new() -> (solution: Solution)
        ensures
            solution.wf(),
            solution@ == Map::<NameView, LiteralView>::empty(),
    {
        let solution = Solution { entries: Vec::new() };
        assert(solution@.dom() =~= Map::<NameView, LiteralView>::empty().dom());
        solution
    }

    /// Where the value of a name is listed.
    fn find(&self, name: &Name) -> (place: Option<usize>)
        ensures
            match place {
                Some(i) => position(self.entries@, name@, i as int),
                None => !self@.dom().contains(name@),
            },
    {
        for i in 0..self.entries.len()
            invariant
                forall|k: int| 0 <= k < i ==> !position(self.entries@, name@, k),
        {
            if self.entries[i].0.same(name) {
                return Some(i);
            }
        }
        None
    }

    /// The value of a name, if it has one.
    pub fn get(&self, name: &Name) -> (value: Option<&Literal>)
        requires
            self.wf(),
        ensures
            match value {
                Some(value) => self@.dom().contains(name@) && self@[name@] == value@,
                None => !self@.dom().contains(name@),
            },
    {
        match self.find(name) {
            Some(i) => {
                proof {
                    self.lemma_entry(i as int);
                }
                Some(&self.entries[i].1)
            },
            None => None,
        }
    }

    /// Gives a name a value, in place of the one it had.
    pub fn insert(&mut self, name: Name, value: Literal)
        requires
            old(self).wf(),
        ensures
            final(self).wf(),
            final(self)@ == old(self)@.insert(name@, value@),
    {
        let ghost before = *self;
        let ghost entry = (name, value);
        match self.find(&name) {
            Some(i) => {
                self.entries.set(i, (name, value));
                assert(self.entries@ == before.entries@.update(i as int, entry));
                proof {
                    before.lemma_same_names(self, i as int);
                }
            },
            None => {
                proof {
                    assert forall|k: int| 0 <= k < before.entries@.len() implies (
                    #[trigger] before.entries@[k]).0@ != entry.0@ by {
                        if before.entries@[k].0@ == entry.0@ {
                            assert(position(before.entries@, entry.0@, k));
                        }
                    }
                }
                self.entries.push((name, value));
                assert(self.entries@ == before.entries@.push(entry));
                assert(self.wf());
                proof {
                    self.lemma_pushed(&before, entry);
                }
            },
        }
    }

    proof fn lemma_same_names(&self, after: &Solution, i: int)
        requires
            self.wf(),
            0 <= i < self.entries@.len(),
            after.entries@.len() == self.entries@.len(),
            after.entries@[i].0@ == self.entries@[i].0@,
            after.entries@ == self.entries@.update(i, after.entries@[i]),
        ensures
            after.wf(),
            after@ == self@.insert(after.entries@[i].0@, after.entries@[i].1@),
    {
        assert(after.wf()) by {
            assert forall|k: int| 0 <= k < after.entries@.len() implies (
            #[trigger] after.entries@[k]).0@ == self.entries@[k].0@ by {}
        }
        let expected = self@.insert(after.entries@[i].0@, after.entries@[i].1@);
        assert forall|name: NameView| after@.dom().contains(name) == expected.dom().contains(
            name,
        ) by {
            if after@.dom().contains(name) {
                let k = choose|k: int| position(after.entries@, name, k);
                assert(position(self.entries@, name, k));
            }
            if self@.dom().contains(name) {
                let k = choose|k: int| position(self.entries@, name, k);
                assert(position(after.entries@, name, k));
            }
            assert(position(after.entries@, after.entries@[i].0@, i));
        }
        assert forall|name: NameView| after@.dom().contains(name) implies #[trigger] after@[name]
            == expected[name] by {
            let k = choose|k: int| position(after.entries@, name, k);
            after.lemma_entry(k);
            if k != i {
                assert(self.entries@[k] == after.entries@[k]);
                self.lemma_entry(k);
                assert(after.entries@[k].0@ != after.entries@[i].0@);
            }
        }
        assert(after@ =~= expected);
    }

    proof fn lemma_pushed(&self, before: &Solution, entry: (Name, Literal))
        requires
            self.wf(),
            before.wf(),
            self.entries@ == before.entries@.push(entry),
        ensures
            self@ == before@.insert(entry.0@, entry.1@),
    {
        let expected = before@.insert(entry.0@, entry.1@);
        let last = before.entries@.len() as int;
        assert(position(self.entries@, entry.0@, last));
        assert forall|name: NameView| self@.dom().contains(name) == expected.dom().contains(
            name,
        ) by {
            if self@.dom().contains(name) {
                let k = choose|k: int| position(self.entries@, name, k);
                if k != last {
                    assert(position(before.entries@, name, k));
                }
            }
            if before@.dom().contains(name) {
                let k = choose|k: int| position(before.entries@, name, k);
                assert(position(self.entries@, name, k));
            }
        }
        assert forall|name: NameView| self@.dom().contains(name) implies #[trigger] self@[name]
            == expected[name] by {
            let k = choose|k: int| position(self.entries@, name, k);
            self.lemma_entry(k);
            if k != last {
                assert(self.entries@[k] == before.entries@[k]);
                before.lemma_entry(k);
                assert(self.entries@[k].0@ != self.entries@[last].0@);
            }
        }
        assert(self@ =~= expected);
    }

    proof fn lemma_copied(&self, copy: &Solution)
        requires
            self.wf(),
            copy.wf(),
            copy.entries@.len() == self.entries@.len(),
            forall|k: int|
                0 <= k < self.entries@.len() ==> (#[trigger] copy.entries@[k]).0@
                    == self.entries@[k].0@ && copy.entries@[k].1@ == self.entries@[k].1@,
        ensures
            copy@ == self@,
    {
        assert forall|name: NameView| copy@.dom().contains(name) == self@.dom().contains(name) by {
            if self@.dom().contains(name) {
                let k = choose|k: int| position(self.entries@, name, k);
                assert(position(copy.entries@, name, k));
            }
            if copy@.dom().contains(name) {
                let k = choose|k: int| position(copy.entries@, name, k);
                assert(position(self.entries@, name, k));
            }
        }
        assert forall|name: NameView| copy@.dom().contains(name) implies #[trigger] copy@[name]
            == self@[name] by {
            let k = choose|k: int| position(copy.entries@, name, k);
            copy.lemma_entry(k);
            self.lemma_entry(k);
        }
        assert(copy@ =~= self@);
    }

    /// All names that have a value, each once, with their values.
    pub fn entries(&self) -> (entries: &Vec<(Name, Literal)>)
        requires
            self.wf(),
        ensures
            forall|i: int|
                0 <= i < entries@.len() ==> self@.dom().contains((#[trigger] entries@[i]).0@)
                    && self@[entries@[i].0@] == entries@[i].1@,
            forall|name: NameView| #[trigger]
                self@.dom().contains(name) ==> exists|i: int|
                    0 <= i < entries@.len() && (#[trigger] entries@[i]).0@ == name,
            forall|i: int, j: int|
                0 <= i < entries@.len() && 0 <= j < entries@.len() && i != j
                    ==> (#[trigger] entries@[i]).0@ != (#[trigger] entries@[j]).0@,
    {
        proof {
            assert forall|i: int| 0 <= i < self.entries@.len() implies self@.dom().contains(
                (#[trigger] self.entries@[i]).0@,
            ) && self@[self.entries@[i].0@] == self.entries@[i].1@ by {
                self.lemma_entry(i);
            }
            assert forall|name: NameView| #[trigger] self@.dom().contains(name) implies exists|
                i: int,
            | 0 <= i < self.entries@.len() && (#[trigger] self.entries@[i]).0@ == name by {
                let i = choose|i: int| position(self.entries@, name, i);
                assert(self.entries@[i].0@ == name);
            }
        }
        &self.entries
    }
}

impl Clone for Solution {
    fn clone(&self) -> (copy: Self)
        ensures
            self.wf() ==> copy.wf() && copy@ == self@,
    {
        let mut entries: Vec<(Name, Literal)> = Vec::new();
        for i in 0..self.entries.len()
            invariant
                entries@.len() == i,
                forall|k: int|
                    0 <= k < i ==> (#[trigger] entries@[k]).0@ == self.entries@[k].0@
                        && entries@[k].1@ == self.entries@[k].1@,
        {
            entries.push((self.entries[i].0.clone(), self.entries[i].1.clone()));
        }
        let copy = Solution { entries };
        proof {
            if self.wf() {
                assert(copy.wf());
                self.lemma_copied(&copy);
            }
        }
        copy
    }
}

} // verus!

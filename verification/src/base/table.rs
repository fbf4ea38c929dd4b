//! A table from names to values.

use vstd::prelude::*;

verus! {

/// A table in which each name is bound to at most one value. Binding a name
/// that is already bound replaces its value and keeps its place.
pub struct Table<V> {
    entries: Vec<(String, V)>,
}

impl<V> Table<V> {
    /// The names and their values, in the order in which the names were first
    /// bound.
    pub closed spec fn entries(&self) -> Seq<(String, V)> {
        self.entries@
    }

    /// No name is bound twice.
    pub open spec fn wf(&self) -> bool {
        forall|i: int, j: int|
            0 <= i < self.entries().len() && 0 <= j < self.entries().len() && i != j ==> (
            #[trigger] self.entries()[i]).0@ != (#[trigger] self.entries()[j]).0@
    }

    /// Whether `name` is bound.
    pub open spec fn has(&self, name: Seq<char>) -> bool {
        exists|i: int| 0 <= i < self.entries().len() && (#[trigger] self.entries()[i]).0@ == name
    }

    /// The place at which `name` is bound.
    pub open spec fn place(&self, name: Seq<char>) -> int {
        choose|i: int| 0 <= i < self.entries().len() && (#[trigger] self.entries()[i]).0@ == name
    }

    /// The value that `name` is bound to.
    pub open spec fn value(&self, name: Seq<char>) -> V {
        self.entries()[self.place(name)].1
    }

    /// In a table without a name bound twice, a name is bound at one place
    /// only.
    pub proof fn lemma_place(&self, name: Seq<char>, i: int)
        requires
            self.wf(),
            0 <= i < self.entries().len(),
            self.entries()[i].0@ == name,
        ensures
            self.has(name),
            self.place(name) == i,
            self.value(name) == self.entries()[i].1,
    {
    }

    /// A table in which no name is bound.
    pub fn new() -> (r: Table<V>)
        ensures
            r.wf(),
            r.entries() == Seq::<(String, V)>::empty(),
            forall|name: Seq<char>| !r.has(name),
    {
        Table { entries: Vec::new() }
    }

    /// The number of names that are bound.
    pub fn len(&self) -> (r: usize)
        ensures
            r == self.entries().len(),
    {
        self.entries.len()
    }

    /// The place at which `name` is bound, if it is.
    pub fn index_of(&self, name: &String) -> (r: Option<usize>)
        requires
            self.wf(),
        ensures
            r is Some == self.has(name@),
            r matches Some(i) ==> i == self.place(name@),
    {
        let mut i: usize = 0;
        while i < self.entries.len()
            invariant
                self.wf(),
                i <= self.entries@.len(),
                forall|j: int| 0 <= j < i ==> (#[trigger] self.entries@[j]).0@ != name@,
            decreases self.entries@.len() - i,
        {
            if self.entries[i].0 == *name {
                proof {
                    self.lemma_place(name@, i as int);
                }
                return Some(i);
            }
            i += 1;
        }
        None
    }

    /// The value that `name` is bound to, if it is bound.
    pub fn get(&self, name: &String) -> (r: Option<&V>)
        requires
            self.wf(),
        ensures
            r is Some == self.has(name@),
            r matches Some(value) ==> *value == self.value(name@),
    {
        match self.index_of(name) {
            Some(i) => Some(&self.entries[i].1),
            None => None,
        }
    }

    /// The name and the value at place `i`.
    pub fn entry(&self, i: usize) -> (r: Option<&(String, V)>)
        ensures
            r is Some == (i < self.entries().len()),
            r matches Some(entry) ==> *entry == self.entries()[i as int],
    {
        if i < self.entries.len() {
            Some(&self.entries[i])
        } else {
            None
        }
    }

    /// Binds `name` to `value`. A name that was bound keeps its place and
    /// hands its old value out; a name that was not is added at the end.
    pub fn insert(&mut self, name: String, value: V) -> (r: Option<V>)
        requires
            old(self).wf(),
        ensures
            final(self).wf(),
            final(self).has(name@),
            final(self).value(name@) == value,
            forall|other: Seq<char>|
                other != name@ ==> final(self).has(other) == old(self).has(other) && (old(self).has(
                    other,
                ) ==> final(self).value(other) == old(self).value(other) && final(self).place(other)
                    == old(self).place(other)),
            r is Some == old(self).has(name@),
            r matches Some(replaced) ==> replaced == old(self).value(name@),
            old(self).has(name@) ==> final(self).place(name@) == old(self).place(name@)
                && final(self).entries().len() == old(self).entries().len(),
            !old(self).has(name@) ==> final(self).entries() == old(self).entries().push((name, value)),
    {
        let ghost before = self.entries@;
        match self.index_of(&name) {
            Some(i) => {
                let mut held = value;
                core::mem::swap(&mut self.entries[i].1, &mut held);
                proof {
                    let after = self.entries@;
                    assert(after.len() == before.len());
                    assert forall|j: int| 0 <= j < after.len() implies (#[trigger] after[j]).0@
                        == before[j].0@ by {}
                    assert forall|j: int| 0 <= j < after.len() && j != i implies (#[trigger] after[j])
                        == before[j] by {}
                    self.lemma_place(name@, i as int);
                    assert forall|other: Seq<char>| other != name@ implies self.has(other) == old(
                        self,
                    ).has(other) && (old(self).has(other) ==> self.value(other) == old(self).value(
                        other,
                    ) && self.place(other) == old(self).place(other)) by {
                        if old(self).has(other) {
                            let j = old(self).place(other);
                            assert(after[j].0@ == other);
                            self.lemma_place(other, j);
                        }
                        if self.has(other) {
                            let j = self.place(other);
                            assert(before[j].0@ == other);
                        }
                    }
                }
                Some(held)
            },
            None => {
                self.entries.push((name, value));
                proof {
                    let after = self.entries@;
                    let last = after.len() - 1;
                    assert forall|a: int, b: int|
                        0 <= a < self.entries().len() && 0 <= b < self.entries().len() && a != b implies (
                    #[trigger] self.entries()[a]).0@ != (#[trigger] self.entries()[b]).0@ by {
                        if a < last {
                            assert(old(self).entries()[a] == after[a]);
                            if before[a].0@ == name@ {
                                assert(old(self).has(name@));
                            }
                        }
                        if b < last {
                            assert(old(self).entries()[b] == after[b]);
                            if before[b].0@ == name@ {
                                assert(old(self).has(name@));
                            }
                        }
                    }
                    self.lemma_place(name@, last);
                    assert forall|other: Seq<char>| other != name@ implies self.has(other) == old(
                        self,
                    ).has(other) && (old(self).has(other) ==> self.value(other) == old(self).value(
                        other,
                    ) && self.place(other) == old(self).place(other)) by {
                        if old(self).has(other) {
                            let j = old(self).place(other);
                            assert(after[j].0@ == other);
                            self.lemma_place(other, j);
                        }
                        if self.has(other) {
                            let j = self.place(other);
                            assert(before[j].0@ == other);
                        }
                    }
                }
                None
            },
        }
    }
}

} // verus!

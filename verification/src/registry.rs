//! Values kept by name, each name once.

use vstd::prelude::*;

use crate::text;

verus! {

/// A registry of values by name.
pub struct Registry<V> {
    entries: Vec<(String, V)>,
}

/// Whether the entry at `i` has this name.
spec fn named<V>(entries: Seq<(String, V)>, i: int, name: Seq<char>) -> bool {
    0 <= i < entries.len() && entries[i].0@ == name
}

impl<V> View for Registry<V> {
    type V = Map<Seq<char>, V>;

    closed spec fn view(&self) -> Map<Seq<char>, V> {
        Map::new(
            |name: Seq<char>| exists|i: int| named(self.entries@, i, name),
            |name: Seq<char>| self.entries@[choose|i: int| named(self.entries@, i, name)].1,
        )
    }
}

impl<V> Registry<V> {
    /// Whether every name occurs once.
    pub closed spec fn wf(&self) -> bool {
        forall|i: int, j: int|
            0 <= i < j < self.entries@.len() ==> (#[trigger] self.entries@[i]).0@ != (
            #[trigger] self.entries@[j]).0@
    }

    /// The entry at a position, where the names of all entries are different.
    proof fn lemma_entry(&self, i: int)
        requires
            self.wf(),
            0 <= i < self.entries@.len(),
        ensures
            self@.contains_key(self.entries@[i].0@),
            self@[self.entries@[i].0@] == self.entries@[i].1,
    {
        let name = self.entries@[i].0@;
        assert(named(self.entries@, i, name));
        let k = choose|k: int| named(self.entries@, k, name);
        assert(k == i);
    }

    /// A name that no entry has is not in the registry.
    proof fn lemma_absent(&self, name: Seq<char>)
        requires
            forall|i: int| 0 <= i < self.entries@.len() ==> (#[trigger] self.entries@[i]).0@ != name,
        ensures
            !self@.contains_key(name),
    {
    }

    /// Every name of the registry is that of an entry.
    proof fn lemma_present(&self, name: Seq<char>) -> (i: int)
        requires
            self.wf(),
            self@.contains_key(name),
        ensures
            0 <= i < self.entries@.len(),
            self.entries@[i].0@ == name,
            self@[name] == self.entries@[i].1,
    {
        let i = choose|i: int| named(self.entries@, i, name);
        self.lemma_entry(i);
        i
    }

    /// A registry has as many names as entries.
    proof fn lemma_len(&self)
        requires
            self.wf(),
        ensures
            self@.dom().finite(),
            self@.dom().len() == self.entries@.len(),
    {
        let names = Seq::new(self.entries@.len(), |i: int| self.entries@[i].0@);
        assert(names.no_duplicates()) by {
            assert forall|i: int, j: int|
                0 <= i < names.len() && 0 <= j < names.len() && i != j implies names[i]
                != names[j] by {
                if i < j {
                    assert(self.entries@[i].0@ != self.entries@[j].0@);
                } else {
                    assert(self.entries@[j].0@ != self.entries@[i].0@);
                }
            }
        }
        names.unique_seq_to_set();
        assert(names.to_set() =~= self@.dom()) by {
            assert forall|name: Seq<char>| names.to_set().contains(name) == self@.dom().contains(
                name,
            ) by {
                if names.contains(name) {
                    let i = choose|i: int| 0 <= i < names.len() && names[i] == name;
                    self.lemma_entry(i);
                }
                if self@.contains_key(name) {
                    let i = self.lemma_present(name);
                    assert(names[i] == name);
                }
            }
        }
    }

    /// An empty registry.
    pub fn new() -> (r: Self)
        ensures
            r.wf(),
            r@ == Map::<Seq<char>, V>::empty(),
    {
        let r = Registry { entries: Vec::new() };
        assert(r@ =~= Map::<Seq<char>, V>::empty());
        r
    }

    /// How many names there are.
    pub fn len(&self) -> (n: usize)
        requires
            self.wf(),
        ensures
            self@.dom().finite(),
            n == self@.dom().len(),
    {
        proof {
            self.lemma_len();
        }
        self.entries.len()
    }

    /// Whether the registry is empty.
    pub fn is_empty(&self) -> (res: bool)
        requires
            self.wf(),
        ensures
            res == (self@ == Map::<Seq<char>, V>::empty()),
    {
        proof {
            if self.entries@.len() > 0 {
                self.lemma_entry(0);
            } else {
                assert(self@ =~= Map::<Seq<char>, V>::empty());
            }
        }
        self.entries.len() == 0
    }

    /// The position of a name.
    fn position(&self, name: &str) -> (res: Option<usize>)
        requires
            self.wf(),
        ensures
            match res {
                Some(i) => {
                    &&& i < self.entries@.len()
                    &&& self.entries@[i as int].0@ == name@
                    &&& self@.contains_key(name@)
                    &&& self@[name@] == self.entries@[i as int].1
                },
                None => {
                    &&& !self@.contains_key(name@)
                    &&& forall|i: int|
                        0 <= i < self.entries@.len() ==> (#[trigger] self.entries@[i]).0@ != name@
                },
            },
    {
        let mut i: usize = 0;
        while i < self.entries.len()
            invariant
                self.wf(),
                i <= self.entries@.len(),
                forall|j: int| 0 <= j < i ==> (#[trigger] self.entries@[j]).0@ != name@,
            decreases self.entries@.len() - i,
        {
            if text::same_text(self.entries[i].0.as_str(), name) {
                proof {
                    self.lemma_entry(i as int);
                }
                return Some(i);
            }
            i += 1;
        }
        proof {
            self.lemma_absent(name@);
        }
        None
    }

    /// Whether the name is in the registry.
    pub fn contains(&self, name: &str) -> (res: bool)
        requires
            self.wf(),
        ensures
            res == self@.contains_key(name@),
    {
        self.position(name).is_some()
    }

    /// The value of a name.
    pub fn get(&self, name: &str) -> (res: Option<&V>)
        requires
            self.wf(),
        ensures
            match res {
                Some(v) => self@.contains_key(name@) && *v == self@[name@],
                None => !self@.contains_key(name@),
            },
    {
        match self.position(name) {
            Some(i) => Some(&self.entries[i].1),
            None => None,
        }
    }

    /// Takes a name and its value out.
    pub fn remove(&mut self, name: &str) -> (res: Option<V>)
        requires
            old(self).wf(),
        ensures
            final(self).wf(),
            final(self)@ == old(self)@.remove(name@),
            match res {
                Some(v) => old(self)@.contains_key(name@) && v == old(self)@[name@],
                None => !old(self)@.contains_key(name@),
            },
    {
        match self.position(name) {
            Some(i) => {
                let ghost before = *self;
                let (_, value) = self.entries.remove(i);
                proof {
                    assert(self.entries@ =~= before.entries@.remove(i as int));
                    assert forall|a: int, b: int| 0 <= a < b < self.entries@.len() implies (
                    #[trigger] self.entries@[a]).0@ != (#[trigger] self.entries@[b]).0@ by {
                        let a0 = if a < i {
                            a
                        } else {
                            a + 1
                        };
                        let b0 = if b < i {
                            b
                        } else {
                            b + 1
                        };
                        assert(before.entries@[a0].0@ != before.entries@[b0].0@);
                    }
                    assert forall|n: Seq<char>| self@.contains_key(n) == before@.remove(
                        name@,
                    ).contains_key(n) by {
                        if self@.contains_key(n) {
                            let k = self.lemma_present(n);
                            let k0 = if k < i {
                                k
                            } else {
                                k + 1
                            };
                            before.lemma_entry(k0);
                            if k0 < i {
                                assert(before.entries@[k0].0@ != before.entries@[i as int].0@);
                            } else {
                                assert(before.entries@[i as int].0@ != before.entries@[k0].0@);
                            }
                        }
                        if before@.contains_key(n) && n != name@ {
                            let k0 = before.lemma_present(n);
                            let k = if k0 < i {
                                k0
                            } else {
                                k0 - 1
                            };
                            assert(self.entries@[k] == before.entries@[k0]);
                            self.lemma_entry(k);
                        }
                    }
                    assert forall|n: Seq<char>| self@.contains_key(n) implies self@[n]
                        == before@.remove(name@)[n] by {
                        let k = self.lemma_present(n);
                        let k0 = if k < i {
                            k
                        } else {
                            k + 1
                        };
                        before.lemma_entry(k0);
                    }
                    assert(self@ =~= before@.remove(name@));
                }
                Some(value)
            },
            None => {
                assert(self@ =~= old(self)@.remove(name@));
                None
            },
        }
    }

    /// Gives a name a value, in place of the one it had.
    pub fn insert(&mut self, name: &str, value: V)
        requires
            old(self).wf(),
        ensures
            final(self).wf(),
            final(self)@ == old(self)@.insert(name@, value),
    {
        let _ = self.remove(name);
        let ghost before = *self;
        self.entries.push((name.to_owned(), value));
        proof {
            let n = before.entries@.len() as int;
            assert forall|a: int, b: int| 0 <= a < b < self.entries@.len() implies (
            #[trigger] self.entries@[a]).0@ != (#[trigger] self.entries@[b]).0@ by {
                assert(self.entries@[a] == before.entries@[a]);
                before.lemma_entry(a);
                if b < n {
                    assert(self.entries@[b] == before.entries@[b]);
                    assert(before.entries@[a].0@ != before.entries@[b].0@);
                }
            }
            self.lemma_entry(n);
            assert forall|k: Seq<char>| #![auto]
                self@.contains_key(k) == old(self)@.insert(name@, value).contains_key(k) by {
                if self@.contains_key(k) {
                    let i = self.lemma_present(k);
                    if i < n {
                        assert(self.entries@[i] == before.entries@[i]);
                        before.lemma_entry(i);
                    }
                }
                if before@.contains_key(k) {
                    let i = before.lemma_present(k);
                    assert(self.entries@[i] == before.entries@[i]);
                    self.lemma_entry(i);
                }
            }
            assert forall|k: Seq<char>| self@.contains_key(k) implies #[trigger] self@[k]
                == old(self)@.insert(name@, value)[k] by {
                let i = self.lemma_present(k);
                if i < n {
                    assert(self.entries@[i] == before.entries@[i]);
                    before.lemma_entry(i);
                }
            }
            assert(self@ =~= old(self)@.insert(name@, value));
        }
    }

    /// The entry at a position; the positions below `len` give every name once.
    pub fn at(&self, i: usize) -> (res: (&str, &V))
        requires
            self.wf(),
            i < self@.dom().len(),
        ensures
            res.0@ == self.names()[i as int],
            self@.contains_key(res.0@),
            self@[res.0@] == *res.1,
    {
        proof {
            self.lemma_len();
            self.lemma_entry(i as int);
        }
        (self.entries[i].0.as_str(), &self.entries[i].1)
    }

    /// The names, in the order of their positions.
    pub closed spec fn names(&self) -> Seq<Seq<char>> {
        Seq::new(self.entries@.len(), |i: int| self.entries@[i].0@)
    }

    /// Every name has one position.
    pub proof fn lemma_names(&self)
        requires
            self.wf(),
        ensures
            self.names().len() == self@.dom().len(),
            self.names().no_duplicates(),
            forall|name: Seq<char>| self.names().contains(name) <==> #[trigger] self@.contains_key(name),
    {
        self.lemma_len();
        let names = self.names();
        assert forall|i: int, j: int|
            0 <= i < names.len() && 0 <= j < names.len() && i != j implies names[i] != names[j] by {
            if i < j {
                assert(self.entries@[i].0@ != self.entries@[j].0@);
            } else {
                assert(self.entries@[j].0@ != self.entries@[i].0@);
            }
        }
        assert forall|name: Seq<char>| names.contains(name) <==> #[trigger] self@.contains_key(
            name,
        ) by {
            if names.contains(name) {
                let i = choose|i: int| 0 <= i < names.len() && names[i] == name;
                self.lemma_entry(i);
            }
            if self@.contains_key(name) {
                let i = self.lemma_present(name);
                assert(names[i] == name);
            }
        }
    }
}

} // verus!

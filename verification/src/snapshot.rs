//! An environment snapshot: an immutable mapping from variable name to
//! variable value, both byte strings that are not guaranteed to be valid
//! text.
//!
//! The snapshot is stored as a list of entries with pairwise distinct names;
//! its abstract value is the finite map from names to values.

use vstd::prelude::*;
use vstd::pervasive::VecAdditionalExecFns;

use crate::bytes::copy_bytes;
use crate::bytes::bytes_eq;

verus! {

#[derive(Debug, PartialEq)]
pub struct Snapshot {
    entries: Vec<(Vec<u8>, Vec<u8>)>,
}

/// True when some entry of `es` has name `k`.
pub open spec fn entries_contain(es: Seq<(Vec<u8>, Vec<u8>)>, k: Seq<u8>) -> bool {
    exists|i: int| 0 <= i < es.len() && es[i].0@ == k
}

/// The value of the entry of `es` named `k`.
pub open spec fn entries_value(es: Seq<(Vec<u8>, Vec<u8>)>, k: Seq<u8>) -> Seq<u8> {
    let i = choose|i: int| 0 <= i < es.len() && es[i].0@ == k;
    es[i].1@
}

impl Snapshot {
    /// The names of the entries, in storage order.
    pub closed spec fn keys_in_order(&self) -> Seq<Seq<u8>> {
        self.entries@.map_values(|e: (Vec<u8>, Vec<u8>)| e.0@)
    }

    /// Entry names are pairwise distinct.
    pub closed spec fn wf(&self) -> bool {
        forall|i: int, j: int|
            0 <= i < self.entries@.len() && 0 <= j < self.entries@.len() && i != j
                ==> self.entries@[i].0@ != self.entries@[j].0@
    }

    pub fn new() -> (r: Snapshot)
        ensures
            r.wf(),
            r@ == Map::<Seq<u8>, Seq<u8>>::empty(),
            r.keys_in_order() == Seq::<Seq<u8>>::empty(),
    {
        let r = Snapshot { entries: Vec::new() };
        proof {
            assert(r@ =~= Map::<Seq<u8>, Seq<u8>>::empty());
            assert(r.keys_in_order() =~= Seq::<Seq<u8>>::empty());
        }
        r
    }

    /// Abstract names are exactly the stored names.
    pub proof fn lemma_dom_is_keys(&self)
        ensures
            forall|k: Seq<u8>| self@.dom().contains(k) <==> self.keys_in_order().contains(
                k,
            ),
    {
        assert forall|k: Seq<u8>| self@.dom().contains(k)
            <==> self.keys_in_order().contains(k) by {
            if self@.dom().contains(k) {
                let i = choose|i: int|
                    0 <= i < self.entries@.len() && self.entries@[i].0@ == k;
                assert(self.keys_in_order()[i] == k);
            }
            if self.keys_in_order().contains(k) {
                let i = choose|i: int|
                    0 <= i < self.keys_in_order().len() && self.keys_in_order()[i] == k;
                assert(self.entries@[i].0@ == k);
            }
        }
    }

    /// Relates an entry index to the abstract map.
    proof fn lemma_entry_in_view(&self, j: int)
        requires
            self.wf(),
            0 <= j < self.entries@.len(),
        ensures
            self@.dom().contains(self.entries@[j].0@),
            self@[self.entries@[j].0@] == self.entries@[j].1@,
    {
        let k = self.entries@[j].0@;
        assert(entries_contain(self.entries@, k));
        let i = choose|i: int| 0 <= i < self.entries@.len() && self.entries@[i].0@ == k;
        assert(i == j);
    }

    /// Inserts or replaces the entry named `name`.
    pub fn insert(&mut self, name: Vec<u8>, value: Vec<u8>)
        requires
            old(self).wf(),
        ensures
            final(self).wf(),
            final(self)@ == old(self)@.insert(name@, value@),
            old(self)@.dom().contains(name@) ==> final(self).keys_in_order()
                == old(self).keys_in_order(),
            !old(self)@.dom().contains(name@) ==> final(self).keys_in_order()
                == old(self).keys_in_order().push(name@),
    {
        let n = self.entries.len();
        let mut i: usize = 0;
        while i < n
            invariant
                n == self.entries@.len(),
                i <= n,
                forall|j: int| 0 <= j < i ==> self.entries@[j].0@ != name@,
                self.wf(),
                self.entries@ == old(self).entries@,
            decreases n - i,
        {
            if bytes_eq(&self.entries[i].0, &name) {
                proof {
                    self.lemma_entry_in_view(i as int);
                }
                self.entries.set(i, (name, value));
                proof {
                    let es_old = old(self).entries@;
                    let es = self.entries@;
                    assert forall|k: Seq<u8>| entries_contain(es, k)
                        == entries_contain(es_old, k) by {
                        if entries_contain(es_old, k) {
                            let j = choose|j: int|
                                0 <= j < es_old.len() && es_old[j].0@ == k;
                            if j == i {
                                assert(es[i as int].0@ == k);
                            } else {
                                assert(es[j].0@ == k);
                            }
                        }
                        if entries_contain(es, k) {
                            let j = choose|j: int| 0 <= j < es.len() && es[j].0@ == k;
                            if j == i {
                                assert(es_old[i as int].0@ == name@);
                                assert(es_old[i as int].0@ == k);
                            } else {
                                assert(es_old[j].0@ == k);
                            }
                        }
                    }
                    assert forall|j: int, l: int|
                        0 <= j < es.len() && 0 <= l < es.len() && j != l implies es[j].0@
                        != es[l].0@ by {
                        assert(es_old[i as int].0@ == name@);
                    }
                    assert(self.wf());
                    assert forall|k: Seq<u8>| self@.dom().contains(k) implies self@[k]
                        == old(self)@.insert(name@, value@)[k] by {
                        let j = choose|j: int| 0 <= j < es.len() && es[j].0@ == k;
                        self.lemma_entry_in_view(j);
                        if j == i {
                        } else {
                            old(self).lemma_entry_in_view(j);
                        }
                    }
                    assert(self@ =~= old(self)@.insert(name@, value@));
                    assert(self.keys_in_order() =~= old(self).keys_in_order());
                }
                return ;
            }
            i = i + 1;
        }
        proof {
            assert(!entries_contain(self.entries@, name@));
        }
        self.entries.push((name, value));
        proof {
            let es_old = old(self).entries@;
            let es = self.entries@;
            let n = es_old.len() as int;
            assert forall|j: int, l: int|
                0 <= j < es.len() && 0 <= l < es.len() && j != l implies es[j].0@
                != es[l].0@ by {
                if j < n && l < n {
                    assert(es_old[j].0@ != es_old[l].0@);
                }
            }
            assert(self.wf());
            assert forall|k: Seq<u8>| self@.dom().contains(k) implies old(self)@.insert(
                name@,
                value@,
            ).dom().contains(k) && self@[k] == old(self)@.insert(name@, value@)[k] by {
                let j = choose|j: int| 0 <= j < es.len() && es[j].0@ == k;
                self.lemma_entry_in_view(j);
                if j < n {
                    old(self).lemma_entry_in_view(j);
                }
            }
            assert forall|k: Seq<u8>| old(self)@.insert(name@, value@).dom().contains(
                k,
            ) implies self@.dom().contains(k) by {
                if k == name@ {
                    assert(es[n].0@ == k);
                } else {
                    let j = choose|j: int| 0 <= j < es_old.len() && es_old[j].0@ == k;
                    assert(es[j].0@ == k);
                }
            }
            assert(self@ =~= old(self)@.insert(name@, value@));
            assert(self.keys_in_order() =~= old(self).keys_in_order().push(name@));
        }
    }

    /// True when the snapshot holds a variable named `name`.
    pub fn contains_key(&self, name: &Vec<u8>) -> (r: bool)
        requires
            self.wf(),
        ensures
            r == self@.dom().contains(name@),
    {
        let n = self.entries.len();
        let mut i: usize = 0;
        while i < n
            invariant
                self.wf(),
                n == self.entries@.len(),
                i <= n,
                forall|j: int| 0 <= j < i ==> self.entries@[j].0@ != name@,
            decreases n - i,
        {
            if bytes_eq(&self.entries[i].0, &name) {
                proof {
                    self.lemma_entry_in_view(i as int);
                }
                return true;
            }
            i = i + 1;
        }
        proof {
            assert(!entries_contain(self.entries@, name@));
        }
        false
    }

    /// The value of the variable named `name`, if any.
    pub fn get(&self, name: &Vec<u8>) -> (r: Option<&Vec<u8>>)
        requires
            self.wf(),
        ensures
            match r {
                Option::Some(v) => self@.dom().contains(name@) && self@[name@] == v@,
                Option::None => !self@.dom().contains(name@),
            },
    {
        let n = self.entries.len();
        let mut i: usize = 0;
        while i < n
            invariant
                self.wf(),
                n == self.entries@.len(),
                i <= n,
                forall|j: int| 0 <= j < i ==> self.entries@[j].0@ != name@,
            decreases n - i,
        {
            if bytes_eq(&self.entries[i].0, &name) {
                proof {
                    self.lemma_entry_in_view(i as int);
                }
                return Option::Some(&self.entries[i].1);
            }
            i = i + 1;
        }
        proof {
            assert(!entries_contain(self.entries@, name@));
        }
        Option::None
    }

    /// The number of variables in the snapshot.
    pub fn num_entries(&self) -> (r: usize)
        ensures
            r == self.keys_in_order().len(),
    {
        self.entries.len()
    }

    /// The name of the `i`-th entry.
    pub fn key_at(&self, i: usize) -> (r: &Vec<u8>)
        requires
            self.wf(),
            i < self.keys_in_order().len(),
        ensures
            r@ == self.keys_in_order()[i as int],
            self@.dom().contains(r@),
            self@[r@] == self.entries_seq()[i as int].1@,
    {
        proof {
            self.lemma_entry_in_view(i as int);
        }
        &self.entries[i].0
    }

    /// The entries as a sequence (spec only).
    pub closed spec fn entries_seq(&self) -> Seq<(Vec<u8>, Vec<u8>)> {
        self.entries@
    }

    /// An owned copy with the same abstract value.
    pub fn duplicate(&self) -> (r: Snapshot)
        requires
            self.wf(),
        ensures
            r.wf(),
            r@ == self@,
            r.keys_in_order() == self.keys_in_order(),
    {
        let n = self.entries.len();
        let mut entries: Vec<(Vec<u8>, Vec<u8>)> = Vec::new();
        let mut i: usize = 0;
        while i < n
            invariant
                self.wf(),
                n == self.entries@.len(),
                i <= n,
                entries@.len() == i,
                forall|j: int| 0 <= j < i ==> entries@[j].0@ == self.entries@[j].0@
                    && entries@[j].1@ == self.entries@[j].1@,
            decreases n - i,
        {
            let name = copy_bytes(&self.entries[i].0);
            let value = copy_bytes(&self.entries[i].1);
            entries.push((name, value));
            i = i + 1;
        }
        let r = Snapshot { entries };
        proof {
            assert(r.wf());
            assert(r.keys_in_order() =~= self.keys_in_order());
            assert forall|k: Seq<u8>| r@.dom().contains(k) implies self@.dom().contains(k)
                && r@[k] == self@[k] by {
                let j = choose|j: int| 0 <= j < r.entries@.len() && r.entries@[j].0@ == k;
                r.lemma_entry_in_view(j);
                assert(self.entries@[j].0@ == k);
                self.lemma_entry_in_view(j);
            }
            assert forall|k: Seq<u8>| self@.dom().contains(k) implies r@.dom().contains(
                k,
            ) by {
                let j = choose|j: int|
                    0 <= j < self.entries@.len() && self.entries@[j].0@ == k;
                assert(r.entries@[j].0@ == k);
            }
            assert(r@ =~= self@);
        }
        r
    }
}

impl View for Snapshot {
    type V = Map<Seq<u8>, Seq<u8>>;

    closed spec fn view(&self) -> Map<Seq<u8>, Seq<u8>> {
        Map::new(
            |k: Seq<u8>| entries_contain(self.entries@, k),
            |k: Seq<u8>| entries_value(self.entries@, k),
        )
    }
}

} // verus!

//! The consolidated per-name records and the change list computed from them.

use vstd::prelude::*;

use crate::bytes::bytes_eq;
use crate::bytes::opt_view;
use crate::variable::spec_required_change;
use crate::variable::Variable;
use crate::variable::VariableView;

verus! {

/// True when some entry of `es` has name `k`.
pub open spec fn var_entries_contain(es: Seq<(Vec<u8>, Variable)>, k: Seq<u8>) -> bool {
    exists|i: int| 0 <= i < es.len() && es[i].0@ == k
}

/// The record of the entry of `es` named `k`.
pub open spec fn var_entries_value(es: Seq<(Vec<u8>, Variable)>, k: Seq<u8>) -> VariableView {
    let i = choose|i: int| 0 <= i < es.len() && es[i].0@ == k;
    es[i].1@
}

/// A mapping from variable name to the [`Variable`] record for that name,
/// stored as a list of entries with pairwise distinct names.
#[derive(Debug, PartialEq)]
pub struct VarMap {
    entries: Vec<(Vec<u8>, Variable)>,
}

impl View for VarMap {
    type V = Map<Seq<u8>, VariableView>;

    closed spec fn view(&self) -> Map<Seq<u8>, VariableView> {
        Map::new(
            |k: Seq<u8>| var_entries_contain(self.entries@, k),
            |k: Seq<u8>| var_entries_value(self.entries@, k),
        )
    }
}

impl VarMap {
    /// The names of the entries, in storage order.
    pub closed spec fn keys_in_order(&self) -> Seq<Seq<u8>> {
        self.entries@.map_values(|e: (Vec<u8>, Variable)| e.0@)
    }

    /// Entry names are pairwise distinct.
    pub closed spec fn wf(&self) -> bool {
        forall|i: int, j: int|
            0 <= i < self.entries@.len() && 0 <= j < self.entries@.len() && i != j
                ==> self.entries@[i].0@ != self.entries@[j].0@
    }

    pub fn new() -> (r: VarMap)
        ensures
            r.wf(),
            r@ == Map::<Seq<u8>, VariableView>::empty(),
            r.keys_in_order() == Seq::<Seq<u8>>::empty(),
    {
        let r = VarMap { entries: Vec::new() };
        proof {
            assert(r@ =~= Map::<Seq<u8>, VariableView>::empty());
            assert(r.keys_in_order() =~= Seq::<Seq<u8>>::empty());
        }
        r
    }

    /// Relates an entry index to the abstract map.
    proof fn lemma_entry_in_view(&self, j: int)
        requires
            self.wf(),
            0 <= j < self.entries@.len(),
        ensures
            self@.dom().contains(self.entries@[j].0@),
            self@[self.entries@[j].0@] == self.entries@[j].1@,
    {
        let k = self.entries@[j].0@;
        assert(var_entries_contain(self.entries@, k));
        let i = choose|i: int| 0 <= i < self.entries@.len() && self.entries@[i].0@ == k;
        assert(i == j);
    }

    /// Appends a record for a name not yet present.
    pub fn push_new(&mut self, name: Vec<u8>, var: Variable)
        requires
            old(self).wf(),
            !old(self)@.dom().contains(name@),
        ensures
            final(self).wf(),
            final(self)@ == old(self)@.insert(name@, var@),
            final(self).keys_in_order() == old(self).keys_in_order().push(name@),
    {
        proof {
            assert(!var_entries_contain(self.entries@, name@));
        }
        self.entries.push((name, var));
        proof {
            let es_old = old(self).entries@;
            let es = self.entries@;
            let n = es_old.len() as int;
            assert forall|j: int, l: int|
                0 <= j < es.len() && 0 <= l < es.len() && j != l implies es[j].0@
                != es[l].0@ by {
                if j < n && l < n {
                    assert(es_old[j].0@ != es_old[l].0@);
                }
            }
            assert(self.wf());
            assert forall|k: Seq<u8>| self@.dom().contains(k) implies old(self)@.insert(
                name@,
                var@,
            ).dom().contains(k) && self@[k] == old(self)@.insert(name@, var@)[k] by {
                let j = choose|j: int| 0 <= j < es.len() && es[j].0@ == k;
                self.lemma_entry_in_view(j);
                if j < n {
                    old(self).lemma_entry_in_view(j);
                }
            }
            assert forall|k: Seq<u8>| old(self)@.insert(name@, var@).dom().contains(
                k,
            ) implies self@.dom().contains(k) by {
                if k == name@ {
                    assert(es[n].0@ == k);
                } else {
                    let j = choose|j: int| 0 <= j < es_old.len() && es_old[j].0@ == k;
                    assert(es[j].0@ == k);
                }
            }
            assert(self@ =~= old(self)@.insert(name@, var@));
            assert(self.keys_in_order() =~= old(self).keys_in_order().push(name@));
        }
    }

    /// True when a record named `name` is present.
    pub fn contains_key(&self, name: &Vec<u8>) -> (r: bool)
        requires
            self.wf(),
        ensures
            r == self@.dom().contains(name@),
    {
        let n = self.entries.len();
        let mut i: usize = 0;
        while i < n
            invariant
                self.wf(),
                n == self.entries@.len(),
                i <= n,
                forall|j: int| 0 <= j < i ==> self.entries@[j].0@ != name@,
            decreases n - i,
        {
            if bytes_eq(&self.entries[i].0, &name) {
                proof {
                    self.lemma_entry_in_view(i as int);
                }
                return true;
            }
            i = i + 1;
        }
        proof {
            assert(!var_entries_contain(self.entries@, name@));
        }
        false
    }

    /// The record for `name`, if any.
    pub fn get(&self, name: &Vec<u8>) -> (r: Option<&Variable>)
        requires
            self.wf(),
        ensures
            match r {
                Option::Some(v) => self@.dom().contains(name@) && self@[name@] == v@,
                Option::None => !self@.dom().contains(name@),
            },
    {
        let n = self.entries.len();
        let mut i: usize = 0;
        while i < n
            invariant
                self.wf(),
                n == self.entries@.len(),
                i <= n,
                forall|j: int| 0 <= j < i ==> self.entries@[j].0@ != name@,
            decreases n - i,
        {
            if bytes_eq(&self.entries[i].0, &name) {
                proof {
                    self.lemma_entry_in_view(i as int);
                }
                return Option::Some(&self.entries[i].1);
            }
            i = i + 1;
        }
        proof {
            assert(!var_entries_contain(self.entries@, name@));
        }
        Option::None
    }

    /// The number of records.
    pub fn num_entries(&self) -> (r: usize)
        ensures
            r == self.keys_in_order().len(),
    {
        self.entries.len()
    }

    /// Computes the change list: for every record whose reconciliation needs
    /// an edit, the name with the required edit.
    pub fn required_changes(&self) -> (r: Vec<(Vec<u8>, Option<Vec<u8>>)>)
        requires
            self.wf(),
        ensures
            change_list_wf(r@),
            change_list_map(r@) == changes_of(self@),
    {
        let n = self.entries.len();
        let mut r: Vec<(Vec<u8>, Option<Vec<u8>>)> = Vec::new();
        let mut i: usize = 0;
        while i < n
            invariant
                self.wf(),
                n == self.entries@.len(),
                i <= n,
                change_list_wf(r@),
                forall|k: Seq<u8>| #[trigger] change_entries_contain(r@, k) <==> exists|j: int|
                    0 <= j < i && (#[trigger] self.entries@[j]).0@ == k
                        && spec_required_change(self.entries@[j].1@) is Some,
                forall|k: Seq<u8>| #[trigger] change_entries_contain(r@, k)
                    ==> Option::Some(change_entries_value(r@, k)) == spec_required_change(
                        var_entries_value(self.entries@, k),
                    ),
            decreases n - i,
        {
            let ghost r_old = r@;
            let name = &self.entries[i].0;
            proof {
                self.lemma_entry_in_view(i as int);
            }
            match self.entries[i].1.get_required_change() {
                Option::Some(change) => {
                    let name_copy = crate::bytes::copy_bytes(name);
                    proof {
                        if change_entries_contain(r@, name_copy@) {
                            let j = choose|j: int|
                                0 <= j < i && (#[trigger] self.entries@[j]).0@ == name_copy@
                                    && spec_required_change(self.entries@[j].1@) is Some;
                            assert(self.entries@[j].0@ == self.entries@[i as int].0@);
                            assert(false);
                        }
                    }
                    r.push((name_copy, change));
                    proof {
                        lemma_change_push(r_old, (name_copy, change));
                        assert(r@ == r_old.push((name_copy, change)));
                        assert forall|k: Seq<u8>| #[trigger] change_entries_contain(r@, k)
                            implies Option::Some(change_entries_value(r@, k))
                            == spec_required_change(var_entries_value(self.entries@, k)) by {
                            if k == name_copy@ {
                                assert(change_entries_value(r@, k) == opt_view(change));
                                assert(var_entries_value(self.entries@, k)
                                    == self.entries@[i as int].1@);
                            } else {
                                assert(change_entries_contain(r_old, k));
                            }
                        }
                        assert forall|k: Seq<u8>| #[trigger] change_entries_contain(r@, k)
                            implies exists|j: int|
                            0 <= j < i + 1 && (#[trigger] self.entries@[j]).0@ == k
                                && spec_required_change(self.entries@[j].1@) is Some by {
                            if k == name_copy@ {
                                assert(0 <= i < i + 1 && self.entries@[i as int].0@ == k
                                    && spec_required_change(
                                    self.entries@[i as int].1@,
                                ) is Some);
                            }
                        }
                    }
                },
                Option::None => {},
            }
            i = i + 1;
        }
        proof {
            assert forall|k: Seq<u8>| change_list_map(r@).dom().contains(k)
                <==> changes_of(self@).dom().contains(k) by {
                if change_entries_contain(r@, k) {
                    let j = choose|j: int|
                        0 <= j < i && (#[trigger] self.entries@[j]).0@ == k
                            && spec_required_change(self.entries@[j].1@) is Some;
                    self.lemma_entry_in_view(j);
                }
                if self@.dom().contains(k) && spec_required_change(self@[k]) is Some {
                    let j = choose|j: int|
                        0 <= j < self.entries@.len() && (#[trigger] self.entries@[j]).0@
                            == k;
                    self.lemma_entry_in_view(j);
                    assert(self.entries@[j].0@ == k && spec_required_change(
                        self.entries@[j].1@,
                    ) is Some);
                }
            }
            assert forall|k: Seq<u8>| change_list_map(r@).dom().contains(k) implies
                change_list_map(r@)[k] == changes_of(self@)[k] by {
                let j = choose|j: int|
                    0 <= j < self.entries@.len() && (#[trigger] self.entries@[j]).0@ == k;
                self.lemma_entry_in_view(j);
            }
            assert(change_list_map(r@) =~= changes_of(self@));
        }
        r
    }
}

/// Appending an entry with a fresh name to a change list adds exactly that
/// name to the mapping it denotes.
proof fn lemma_change_push(es: Seq<(Vec<u8>, Option<Vec<u8>>)>, e: (Vec<u8>, Option<Vec<u8>>))
    requires
        change_list_wf(es),
        !change_entries_contain(es, e.0@),
    ensures
        change_list_wf(es.push(e)),
        forall|k: Seq<u8>| #[trigger] change_entries_contain(es.push(e), k)
            <==> change_entries_contain(es, k) || k == e.0@,
        forall|k: Seq<u8>| #[trigger] change_entries_contain(es, k)
            ==> change_entries_value(es.push(e), k) == change_entries_value(es, k),
        change_entries_value(es.push(e), e.0@) == opt_view(e.1),
{
    let es2 = es.push(e);
    let n = es.len() as int;
    assert forall|a: int, b: int|
        0 <= a < es2.len() && 0 <= b < es2.len() && a != b implies es2[a].0@
        != es2[b].0@ by {
        if a < n && b < n {
            assert(es[a].0@ != es[b].0@);
        } else if a == n && b < n {
            assert(es2[b].0@ == es[b].0@);
            if es2[a].0@ == es2[b].0@ {
                assert(change_entries_contain(es, e.0@));
            }
        } else if b == n && a < n {
            assert(es2[a].0@ == es[a].0@);
            if es2[a].0@ == es2[b].0@ {
                assert(change_entries_contain(es, e.0@));
            }
        }
    }
    assert forall|k: Seq<u8>| #[trigger] change_entries_contain(es2, k)
        <==> change_entries_contain(es, k) || k == e.0@ by {
        if change_entries_contain(es2, k) {
            let l = choose|l: int| 0 <= l < es2.len() && es2[l].0@ == k;
            if l < n {
                assert(es[l].0@ == k);
            }
        }
        if change_entries_contain(es, k) {
            let l = choose|l: int| 0 <= l < es.len() && es[l].0@ == k;
            assert(es2[l].0@ == k);
        }
        if k == e.0@ {
            assert(es2[n].0@ == k);
        }
    }
    assert forall|k: Seq<u8>| #[trigger] change_entries_contain(es, k) implies
        change_entries_value(es2, k) == change_entries_value(es, k) by {
        let l = choose|l: int| 0 <= l < es.len() && es[l].0@ == k;
        assert(es2[l].0@ == k);
        let l2 = choose|l2: int| 0 <= l2 < es2.len() && es2[l2].0@ == k;
        if l2 == n {
            assert(change_entries_contain(es, e.0@));
        }
        assert(es2[l2].0@ == es2[l].0@);
        assert(l2 == l);
        let l3 = choose|l3: int| 0 <= l3 < es.len() && es[l3].0@ == k;
        assert(l3 == l);
    }
    assert(change_entries_value(es2, e.0@) == opt_view(e.1)) by {
        assert(es2[n].0@ == e.0@);
        let l = choose|l: int| 0 <= l < es2.len() && es2[l].0@ == e.0@;
        if l < n {
            assert(es[l].0@ == e.0@);
            assert(change_entries_contain(es, e.0@));
        }
        assert(l == n);
    }
}

/// True when some entry of the change list `es` has name `k`.
pub open spec fn change_entries_contain(
    es: Seq<(Vec<u8>, Option<Vec<u8>>)>,
    k: Seq<u8>,
) -> bool {
    exists|i: int| 0 <= i < es.len() && es[i].0@ == k
}

/// The edit of the entry of the change list `es` named `k`.
pub open spec fn change_entries_value(
    es: Seq<(Vec<u8>, Option<Vec<u8>>)>,
    k: Seq<u8>,
) -> Option<Seq<u8>> {
    let i = choose|i: int| 0 <= i < es.len() && es[i].0@ == k;
    opt_view(es[i].1)
}

/// Entry names of a change list are pairwise distinct.
pub open spec fn change_list_wf(es: Seq<(Vec<u8>, Option<Vec<u8>>)>) -> bool {
    forall|i: int, j: int|
        0 <= i < es.len() && 0 <= j < es.len() && i != j ==> es[i].0@ != es[j].0@
}

/// A change list as a mapping from name to edit.
pub open spec fn change_list_map(es: Seq<(Vec<u8>, Option<Vec<u8>>)>) -> Map<
    Seq<u8>,
    Option<Seq<u8>>,
> {
    Map::new(
        |k: Seq<u8>| change_entries_contain(es, k),
        |k: Seq<u8>| change_entries_value(es, k),
    )
}

/// The change set determined by a mapping of per-name records: exactly the
/// names whose reconciliation needs an edit, each mapped to that edit.
pub open spec fn changes_of(m: Map<Seq<u8>, VariableView>) -> Map<Seq<u8>, Option<Seq<u8>>> {
    Map::new(
        |k: Seq<u8>| m.dom().contains(k) && spec_required_change(m[k]) is Some,
        |k: Seq<u8>| spec_required_change(m[k])->Some_0,
    )
}

} // verus!

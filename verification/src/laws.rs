//! Properties of the reconciliation pipeline, stated and proved for every
//! bundle.

use vstd::prelude::*;

use crate::environments::boundary_at;
use crate::environments::consolidated;
use crate::environments::detect_post;
use crate::environments::names_union;
use crate::environments::record_of;
use crate::environments::All;
use crate::environments::AllView;
use crate::environments::DetectError;
use crate::variable::spec_required_change;
use crate::varmap::changes_of;

verus! {

/// Law: the chain of environments has at most one boundary index.
pub proof fn lemma_boundary_unique(ce: Seq<Map<Seq<u8>, Seq<u8>>>, k1: int, k2: int)
    requires
        boundary_at(ce, k1),
        boundary_at(ce, k2),
    ensures
        k1 == k2,
{
    if k1 < k2 {
        assert(ce[k1] == ce[k1]);
    } else if k2 < k1 {
        assert(ce[k2] == ce[k2]);
    }
}

/// Law: a successful detection is determined by the ancestor chain alone:
/// any two bundles that satisfy the detection guarantee for the same chain
/// hold the same three environments.
pub proof fn lemma_detect_deterministic(
    ce: Seq<Map<Seq<u8>, Seq<u8>>>,
    cp: Seq<i32>,
    reliable: bool,
    r1: Result<All, DetectError>,
    r2: Result<All, DetectError>,
)
    requires
        detect_post(ce, cp, reliable, r1),
        detect_post(ce, cp, reliable, r2),
        r1 is Ok,
        r2 is Ok,
    ensures
        (r1->Ok_0)@.external == (r2->Ok_0)@.external,
        (r1->Ok_0)@.snap == (r2->Ok_0)@.snap,
        (r1->Ok_0)@.myself == (r2->Ok_0)@.myself,
{
    let a1 = r1->Ok_0;
    let a2 = r2->Ok_0;
    let k1 = choose|k: int|
        #[trigger] boundary_at(ce, k) && a1@.myself == ce[0] && a1@.snap == ce[k - 1]
            && a1@.external == ce[k];
    let k2 = choose|k: int|
        #[trigger] boundary_at(ce, k) && a2@.myself == ce[0] && a2@.snap == ce[k - 1]
            && a2@.external == ce[k];
    lemma_boundary_unique(ce, k1, k2);
}

/// Law: a name appears in the consolidated change set of a bundle only when
/// it occurs in one of the three environments, and a name whose value (or
/// absence) is identical in all three environments never appears in it.
pub proof fn lemma_change_set_names(v: AllView, k: Seq<u8>)
    ensures
        changes_of(consolidated(v)).dom().contains(k) ==> names_union(v).contains(k),
        record_of(v, k).external == record_of(v, k).snap && record_of(v, k).snap
            == record_of(v, k).myself ==> !changes_of(consolidated(v)).dom().contains(k),
{
    let rec = record_of(v, k);
    if rec.external == rec.snap && rec.snap == rec.myself {
        assert(spec_required_change(rec) is None);
    }
}

/// Law: the set of names in the consolidated change set of a bundle is a
/// subset of the union of the names across the three environments.
pub proof fn lemma_change_set_subset(v: AllView)
    ensures
        changes_of(consolidated(v)).dom() <= names_union(v),
{
    assert forall|k: Seq<u8>| changes_of(consolidated(v)).dom().contains(k)
        implies names_union(v).contains(k) by {
        lemma_change_set_names(v, k);
    }
}

/// Law (idempotence): reconciling a bundle in which the three environments
/// are equal as mappings yields an empty change set.
pub proof fn lemma_reconcile_idempotent(v: AllView)
    requires
        v.external == v.snap,
        v.snap == v.myself,
    ensures
        changes_of(consolidated(v)) == Map::<Seq<u8>, Option<Seq<u8>>>::empty(),
{
    assert forall|k: Seq<u8>| !changes_of(consolidated(v)).dom().contains(k) by {
        lemma_change_set_names(v, k);
    }
    assert(changes_of(consolidated(v)) =~= Map::<Seq<u8>, Option<Seq<u8>>>::empty());
}

} // verus!

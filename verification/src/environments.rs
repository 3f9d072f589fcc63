//! Locating the three environment snapshots that bracket the sandbox
//! boundary.
//!
//! Starting at the current process, the walker collects ancestor snapshots
//! until it finds one that lacks the sandbox sentinel variable. The last
//! collected snapshot is the *external* environment, the one before it the
//! *edge* environment (the first process inside the sandbox), and the first
//! collected snapshot is the *self* environment.

use vstd::prelude::*;

use crate::bytes::copy_bytes;
use crate::bytes::copy_opt_ref;
use crate::process::Process;
use crate::snapshot::Snapshot;
use crate::variable::Variable;
use crate::variable::VariableView;
use crate::varmap::VarMap;

verus! {

/// The name of the sentinel variable, `SNAP`, whose presence in a snapshot
/// signals "this process is inside the sandbox".
pub open spec fn sentinel_name() -> Seq<u8> {
    seq![83u8, 78u8, 65u8, 80u8]
}

/// The sentinel variable name as an owned byte string.
pub fn sentinel_name_bytes() -> (r: Vec<u8>)
    ensures
        r@ == sentinel_name(),
{
    let mut v: Vec<u8> = Vec::new();
    v.push(83);
    v.push(78);
    v.push(65);
    v.push(80);
    proof {
        assert(v@ =~= sentinel_name());
    }
    v
}

/// True when the environment contains the sandbox sentinel variable.
pub open spec fn has_sentinel(env: Map<Seq<u8>, Seq<u8>>) -> bool {
    env.dom().contains(sentinel_name())
}

/// Why no bundle of the three environments could be produced.
#[derive(Debug, PartialEq)]
pub enum DetectError {
    /// A process or environment read failed while walking the ancestor
    /// chain.
    ProcessUnavailable(String),
    /// The walk reached the root of the visible process tree without leaving
    /// the sandbox; carries the identifiers of the visited processes.
    BoundaryNotFound(Vec<i32>),
    /// The starting process already lacks the sentinel: there is nothing to
    /// reconcile.
    NotInsideSandbox,
}

/// The environments of all relevant processes:
/// - the process that launched the sandbox (no sandbox variables),
/// - the first process inside the sandbox (has sandbox variables), and
/// - the current process (sandbox variables plus later modifications).
#[derive(Debug, PartialEq)]
pub struct All {
    external: Snapshot,
    snap: Snapshot,
    myself: Snapshot,
}

/// Abstract value of [`All`]: the three environments as maps.
pub struct AllView {
    pub external: Map<Seq<u8>, Seq<u8>>,
    pub snap: Map<Seq<u8>, Seq<u8>>,
    pub myself: Map<Seq<u8>, Seq<u8>>,
}

impl View for All {
    type V = AllView;

    closed spec fn view(&self) -> AllView {
        AllView { external: self.external@, snap: self.snap@, myself: self.myself@ }
    }
}

impl All {
    /// The three snapshots are well-formed.
    pub closed spec fn snapshots_wf(&self) -> bool {
        self.external.wf() && self.snap.wf() && self.myself.wf()
    }

    /// The bundle invariant: well-formed snapshots, the edge and self
    /// environments inside the sandbox, the external environment outside.
    pub closed spec fn wf(&self) -> bool {
        &&& self.snapshots_wf()
        &&& has_sentinel(self.snap@)
        &&& has_sentinel(self.myself@)
        &&& !has_sentinel(self.external@)
    }

    /// Assembles a bundle from three snapshots.
    pub fn from_snapshots(external: Snapshot, snap: Snapshot, myself: Snapshot) -> (r:
        All)
        requires
            external.wf(),
            snap.wf(),
            myself.wf(),
        ensures
            r.snapshots_wf(),
            r@.external == external@,
            r@.snap == snap@,
            r@.myself == myself@,
            r.wf() == (has_sentinel(snap@) && has_sentinel(myself@) && !has_sentinel(
                external@,
            )),
    {
        All { external, snap, myself }
    }

    /// The bundle invariant, stated of the abstract value.
    pub open spec fn view_wf(v: AllView) -> bool {
        has_sentinel(v.snap) && has_sentinel(v.myself) && !has_sentinel(v.external)
    }

    /// The invariant holds of well-formed bundles.
    pub proof fn lemma_wf_view(&self)
        requires
            self.wf(),
        ensures
            self.snapshots_wf(),
            All::view_wf(self@),
    {
    }

    /// The environment of the nearest ancestor outside the sandbox.
    pub fn external(&self) -> (r: &Snapshot)
        ensures
            r@ == self@.external,
            self.snapshots_wf() ==> r.wf(),
    {
        &self.external
    }

    /// The environment of the first process inside the sandbox.
    pub fn snap(&self) -> (r: &Snapshot)
        ensures
            r@ == self@.snap,
            self.snapshots_wf() ==> r.wf(),
    {
        &self.snap
    }

    /// The environment of the current process.
    pub fn myself(&self) -> (r: &Snapshot)
        ensures
            r@ == self@.myself,
            self.snapshots_wf() ==> r.wf(),
    {
        &self.myself
    }
}

/// True when index `k` of the root-ward chain of environments is the first
/// one outside the sandbox, and it is not the starting environment itself.
pub open spec fn boundary_at(ce: Seq<Map<Seq<u8>, Seq<u8>>>, k: int) -> bool {
    &&& 1 <= k < ce.len()
    &&& !has_sentinel(ce[k])
    &&& forall|i: int| 0 <= i < k ==> has_sentinel(#[trigger] ce[i])
}

/// What detection guarantees, given the ancestor chain of environments `ce`
/// and identifiers `cp` of the starting process, and whether every parent
/// lookup along the chain succeeds (`reliable`):
/// - a bundle is produced exactly from the snapshots around the first
///   non-sentinel ancestor;
/// - `NotInsideSandbox` only when the starting environment lacks the
///   sentinel;
/// - `BoundaryNotFound` only when every environment up to the root has the
///   sentinel, with the full list of visited identifiers;
/// - `ProcessUnavailable` only when some parent lookup can fail.
pub open spec fn detect_post(
    ce: Seq<Map<Seq<u8>, Seq<u8>>>,
    cp: Seq<i32>,
    reliable: bool,
    r: Result<All, DetectError>,
) -> bool {
    match r {
        Result::Ok(all) => {
            &&& all.wf()
            &&& exists|k: int|
                #[trigger] boundary_at(ce, k) && all@.myself == ce[0] && all@.snap == ce[k - 1]
                    && all@.external == ce[k]
        },
        Result::Err(e) => match e {
            DetectError::NotInsideSandbox => ce.len() >= 1 && !has_sentinel(ce[0]),
            DetectError::BoundaryNotFound(pids) => (forall|i: int|
                0 <= i < ce.len() ==> has_sentinel(#[trigger] ce[i])) && pids@ == cp,
            DetectError::ProcessUnavailable(_) => !reliable,
        },
    }
}

/// The state of a boundary walk: the snapshots and process identifiers
/// collected so far, starting with the current process.
///
/// The walk is driven step by step so that a caller can fetch each parent
/// from whatever process source it has: collect the starting snapshot with
/// [`Walk::start`], and while [`Walk::needs_parent`] holds, look the parent
/// up and either hand its snapshot to [`Walk::push_parent`] or give up with
/// [`Walk::boundary_not_found`]. Once no parent is needed, [`Walk::finish`]
/// produces the bundle.
pub struct Walk {
    envs: Vec<Snapshot>,
    pids: Vec<i32>,
}

impl Walk {
    /// The collected environments, in walk order.
    pub closed spec fn env_views(&self) -> Seq<Map<Seq<u8>, Seq<u8>>> {
        self.envs@.map_values(|s: Snapshot| s@)
    }

    /// The collected process identifiers, in walk order.
    pub closed spec fn pid_seq(&self) -> Seq<i32> {
        self.pids@
    }

    pub closed spec fn wf(&self) -> bool {
        &&& self.envs@.len() == self.pids@.len()
        &&& self.envs@.len() >= 1
        &&& forall|i: int| 0 <= i < self.envs@.len() ==> (#[trigger] self.envs@[i]).wf()
        &&& forall|i: int|
            0 <= i < self.envs@.len() - 1 ==> has_sentinel((#[trigger] self.envs@[i])@)
    }

    /// Begins a walk at the current process's snapshot.
    pub fn start(env: Snapshot, pid: i32) -> (w: Walk)
        requires
            env.wf(),
        ensures
            w.wf(),
            w.env_views() =~= seq![env@],
            w.pid_seq() =~= seq![pid],
    {
        let mut envs: Vec<Snapshot> = Vec::new();
        let mut pids: Vec<i32> = Vec::new();
        envs.push(env);
        pids.push(pid);
        let w = Walk { envs, pids };
        proof {
            assert(w.env_views() =~= seq![env@]);
        }
        w
    }

    /// True when the walk must fetch another parent: the most recently
    /// collected snapshot is still inside the sandbox.
    pub fn needs_parent(&self) -> (r: bool)
        requires
            self.wf(),
        ensures
            r == has_sentinel(self.env_views().last()),
    {
        let sentinel = sentinel_name_bytes();
        let last = self.envs.len() - 1;
        self.envs[last].contains_key(&sentinel)
    }

    /// Appends the snapshot and identifier of the next ancestor.
    pub fn push_parent(&mut self, env: Snapshot, pid: i32)
        requires
            old(self).wf(),
            has_sentinel(old(self).env_views().last()),
            env.wf(),
        ensures
            final(self).wf(),
            final(self).env_views() =~= old(self).env_views().push(env@),
            final(self).pid_seq() =~= old(self).pid_seq().push(pid),
    {
        self.envs.push(env);
        self.pids.push(pid);
        proof {
            assert(final(self).env_views() =~= old(self).env_views().push(env@));
            let n = self.envs@.len();
            assert forall|i: int| 0 <= i < n - 1 implies has_sentinel(
                (#[trigger] self.envs@[i])@,
            ) by {
                if i == n - 2 {
                    assert(old(self).env_views().last() == old(self).envs@[n - 2]@);
                }
            }
        }
    }

    /// Ends a walk whose last snapshot is outside the sandbox, producing the
    /// bundle, or reporting that the starting process was never inside the
    /// sandbox.
    pub fn finish(self) -> (r: Result<All, DetectError>)
        requires
            self.wf(),
            !has_sentinel(self.env_views().last()),
        ensures
            match r {
                Result::Ok(all) => {
                    &&& self.env_views().len() >= 2
                    &&& all.wf()
                    &&& all@.myself == self.env_views()[0]
                    &&& all@.snap == self.env_views()[self.env_views().len() - 2]
                    &&& all@.external == self.env_views().last()
                },
                Result::Err(e) => e == DetectError::NotInsideSandbox
                    && self.env_views().len() == 1,
            },
    {
        let mut envs = self.envs;
        if envs.len() < 2 {
            return Result::Err(DetectError::NotInsideSandbox);
        }
        let external = match envs.pop() {
            Option::Some(s) => s,
            Option::None => unreached(),
        };
        let snap = match envs.pop() {
            Option::Some(s) => s,
            Option::None => unreached(),
        };
        let myself = if envs.len() == 0 {
            snap.duplicate()
        } else {
            envs.remove(0)
        };
        Result::Ok(All { external, snap, myself })
    }

    /// Ends a walk that ran out of ancestors while still inside the sandbox.
    pub fn boundary_not_found(self) -> (r: DetectError)
        requires
            self.wf(),
        ensures
            r matches DetectError::BoundaryNotFound(pids) && pids@ == self.pid_seq(),
    {
        DetectError::BoundaryNotFound(self.pids)
    }
}

/// Taking one element more of a sequence adds exactly that element to its
/// membership.
proof fn lemma_take_one_more(keys: Seq<Seq<u8>>, i: int, k: Seq<u8>)
    requires
        0 <= i < keys.len(),
    ensures
        keys.take(i + 1).contains(k) <==> keys.take(i).contains(k) || k == keys[i],
{
    let t1 = keys.take(i + 1);
    let t0 = keys.take(i);
    if t1.contains(k) {
        let j = choose|j: int| 0 <= j < t1.len() && #[trigger] t1[j] == k;
        if j < i {
            assert(t0[j] == k);
        }
    }
    if t0.contains(k) {
        let j = choose|j: int| 0 <= j < t0.len() && #[trigger] t0[j] == k;
        assert(t1[j] == k);
    }
    if k == keys[i] {
        assert(t1[i] == k);
    }
}

/// The value bound to `k` in the environment `m`, or `None` when `k` is
/// absent.
pub open spec fn opt_value(m: Map<Seq<u8>, Seq<u8>>, k: Seq<u8>) -> Option<Seq<u8>> {
    if m.dom().contains(k) {
        Option::Some(m[k])
    } else {
        Option::None
    }
}

/// The per-name record of a bundle: the value (or absence) of `k` in each of
/// the three environments.
pub open spec fn record_of(v: AllView, k: Seq<u8>) -> VariableView {
    VariableView {
        external: opt_value(v.external, k),
        snap: opt_value(v.snap, k),
        myself: opt_value(v.myself, k),
    }
}

/// The union of the variable names appearing in any of the three
/// environments.
pub open spec fn names_union(v: AllView) -> Set<Seq<u8>> {
    v.external.dom() + v.snap.dom() + v.myself.dom()
}

/// The consolidated mapping of a bundle: every name of the union, mapped to
/// its per-name record.
pub open spec fn consolidated(v: AllView) -> Map<Seq<u8>, VariableView> {
    Map::new(|k: Seq<u8>| names_union(v).contains(k), |k: Seq<u8>| record_of(v, k))
}

impl All {
    /// Adds to `result` a record for every name of `source` not yet present.
    fn add_names_from(&self, source: &Snapshot, result: &mut VarMap)
        requires
            self.snapshots_wf(),
            source.wf(),
            old(result).wf(),
            forall|k: Seq<u8>| source@.dom().contains(k) ==> names_union(self@).contains(k),
            forall|k: Seq<u8>| old(result)@.dom().contains(k) ==> names_union(
                self@,
            ).contains(k) && old(result)@[k] == record_of(self@, k),
        ensures
            final(result).wf(),
            forall|k: Seq<u8>| #[trigger] final(result)@.dom().contains(k) <==> old(
                result,
            )@.dom().contains(k) || source@.dom().contains(k),
            forall|k: Seq<u8>| old(result)@.dom().contains(k)
                || #[trigger] source@.dom().contains(k) ==> final(result)@.dom().contains(
                k,
            ),
            forall|k: Seq<u8>| #[trigger] final(result)@.dom().contains(k) ==> names_union(
                self@,
            ).contains(k) && final(result)@[k] == record_of(self@, k),
    {
        let n = source.num_entries();
        let mut i: usize = 0;
        proof {
            source.lemma_dom_is_keys();
        }
        while i < n
            invariant
                self.snapshots_wf(),
                source.wf(),
                result.wf(),
                n == source.keys_in_order().len(),
                i <= n,
                forall|k: Seq<u8>| source@.dom().contains(k) <==> source.keys_in_order()
                    .contains(k),
                forall|k: Seq<u8>| source@.dom().contains(k) ==> names_union(
                    self@,
                ).contains(k),
                forall|k: Seq<u8>| result@.dom().contains(k) <==> old(
                    result,
                )@.dom().contains(k) || source.keys_in_order().take(i as int).contains(k),
                forall|k: Seq<u8>| result@.dom().contains(k) ==> names_union(
                    self@,
                ).contains(k) && result@[k] == record_of(self@, k),
            decreases n - i,
        {
            let name = source.key_at(i);
            proof {
                assert(source.keys_in_order().contains(name@)) by {
                    assert(source.keys_in_order()[i as int] == name@);
                }
            }
            if !result.contains_key(name) {
                let ext = copy_opt_ref(self.external.get(name));
                let snp = copy_opt_ref(self.snap.get(name));
                let slf = copy_opt_ref(self.myself.get(name));
                let var = Variable::new(ext, snp, slf);
                proof {
                    assert(var@ == record_of(self@, name@));
                }
                let name_copy = copy_bytes(name);
                result.push_new(name_copy, var);
            }
            proof {
                let keys = source.keys_in_order();
                assert forall|k: Seq<u8>| keys.take(i as int + 1).contains(k)
                    <==> keys.take(i as int).contains(k) || k == keys[i as int] by {
                    lemma_take_one_more(keys, i as int, k);
                }
            }
            i = i + 1;
        }
        proof {
            assert(source.keys_in_order().take(n as int) =~= source.keys_in_order());
        }
    }

    /// Builds a record for every variable name appearing in any of the three
    /// environments, pairing the value (or absence) of the name in each.
    pub fn consolidate(&self) -> (r: VarMap)
        requires
            self.snapshots_wf(),
        ensures
            r.wf(),
            r@ == consolidated(self@),
    {
        let mut result = VarMap::new();
        let ghost r0 = result@;
        self.add_names_from(&self.external, &mut result);
        let ghost r1 = result@;
        self.add_names_from(&self.snap, &mut result);
        let ghost r2 = result@;
        self.add_names_from(&self.myself, &mut result);
        proof {
            assert forall|k: Seq<u8>| result@.dom().contains(k)
                <==> consolidated(self@).dom().contains(k) by {
                assert(result@.dom().contains(k) <==> r2.dom().contains(k)
                    || self.myself@.dom().contains(k));
                assert(r2.dom().contains(k) <==> r1.dom().contains(k)
                    || self.snap@.dom().contains(k));
                assert(r1.dom().contains(k) <==> r0.dom().contains(k)
                    || self.external@.dom().contains(k));
                assert(!r0.dom().contains(k));
                assert(self@.external == self.external@ && self@.snap == self.snap@
                    && self@.myself == self.myself@);
            }
            assert(result@ =~= consolidated(self@));
        }
        result
    }

    /// Walks the ancestor chain of `process` and produces the bundle of the
    /// three environments around the sandbox boundary.
    #[verifier::loop_isolation(false)]
    pub fn detect<P: Process>(process: P) -> (r: Result<All, DetectError>)
        requires
            process.inv(),
        ensures
            detect_post(
                process.chain_envs(),
                process.chain_pids(),
                process.reliable(),
                r,
            ),
    {
        let ghost ce = process.chain_envs();
        let ghost cp = process.chain_pids();
        let ghost rel = process.reliable();
        let env0 = process.get_env();
        let pid0 = process.get_pid();
        let mut walk = Walk::start(env0, pid0);
        let mut cur = process;
        proof {
            assert(walk.env_views() =~= ce.take(1));
            assert(walk.pid_seq() =~= cp.take(1));
        }
        loop
            invariant
                walk.wf(),
                ce.len() == cp.len(),
                1 <= walk.env_views().len() <= ce.len(),
                walk.env_views() == ce.take(walk.env_views().len() as int),
                walk.pid_seq() == cp.take(walk.env_views().len() as int),
                walk.pid_seq().len() == walk.env_views().len(),
                cur.inv(),
                cur.chain_envs() == ce.skip(walk.env_views().len() - 1),
                cur.chain_pids() == cp.skip(walk.env_views().len() - 1),
                rel ==> cur.reliable(),
            decreases cur.chain_envs().len(),
        {
            let ghost n = walk.env_views().len() as int;
            proof {
                assert(forall|i: int| 0 <= i < n ==> walk.env_views()[i] == ce[i]);
            }
            if !walk.needs_parent() {
                proof {
                    assert(walk.env_views().last() == ce[n - 1]);
                }
                let r = walk.finish();
                proof {
                    match &r {
                        Result::Ok(all) => {
                            assert(boundary_at(ce, n - 1));
                            assert(all@.myself == ce[0] && all@.snap == ce[n - 2]
                                && all@.external == ce[n - 1]);
                        },
                        Result::Err(_) => {
                            assert(!has_sentinel(ce[0]));
                        },
                    }
                }
                return r;
            }
            proof {
                assert(has_sentinel(ce[n - 1]));
            }
            match cur.get_parent() {
                Result::Ok(p_opt) => match p_opt {
                    Option::Some(p) => {
                        proof {
                            assert(ce.skip(n - 1).len() >= 2);
                            assert(ce.skip(n - 1).skip(1) =~= ce.skip(n));
                            assert(cp.skip(n - 1).skip(1) =~= cp.skip(n));
                        }
                        let env = p.get_env();
                        let pid = p.get_pid();
                        proof {
                            assert(env@ == ce.skip(n)[0]);
                            assert(env@ == ce[n]);
                            assert(pid == cp[n]);
                        }
                        walk.push_parent(env, pid);
                        proof {
                            assert(walk.env_views() =~= ce.take(n + 1));
                            assert(walk.pid_seq() =~= cp.take(n + 1));
                        }
                        cur = p;
                    },
                    Option::None => {
                        proof {
                            assert(ce.skip(n - 1).len() == 1);
                            assert(n == ce.len());
                            assert forall|i: int| 0 <= i < ce.len() implies has_sentinel(
                                #[trigger] ce[i],
                            ) by {
                                if i < n - 1 {
                                    assert(walk.env_views()[i] == ce[i]);
                                }
                            }
                            assert(walk.pid_seq() =~= cp);
                        }
                        return Result::Err(walk.boundary_not_found());
                    },
                },
                Result::Err(e) => {
                    return Result::Err(DetectError::ProcessUnavailable(e));
                },
            }
        }
    }
}

} // verus!

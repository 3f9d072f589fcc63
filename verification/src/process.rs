//! The process capability interface consumed by the boundary walker, and an
//! in-memory implementation backed by a fixed chain of snapshots.
//!
//! A live, operating-system-backed process source implements the same
//! step-by-step walking protocol through [`crate::environments::Walk`];
//! everything this interface models is a point-in-time snapshot, not live
//! data.

use vstd::prelude::*;

use crate::snapshot::Snapshot;

verus! {

/// A capability for reading one process's environment snapshot, its numeric
/// identifier, and a handle to its parent (or "no parent").
///
/// Its abstract value is the whole ancestor chain: the environments and
/// identifiers of this process and of every ancestor up to the root of the
/// visible process tree, this process first.
pub trait Process: Sized {
    /// Validity of the handle; established by constructors of implementing
    /// types and preserved by parent lookups.
    spec fn inv(&self) -> bool;

    /// The environments of this process and of all its ancestors, this
    /// process first, the root of the visible process tree last.
    spec fn chain_envs(&self) -> Seq<Map<Seq<u8>, Seq<u8>>>;

    /// The identifiers of this process and of all its ancestors.
    spec fn chain_pids(&self) -> Seq<i32>;

    /// True when every parent lookup along the chain succeeds.
    spec fn reliable(&self) -> bool;

    /// Reads this process's environment snapshot; never fails, absence of
    /// data is an empty snapshot.
    fn get_env(&self) -> (r: Snapshot)
        requires
            self.inv(),
        ensures
            self.chain_envs().len() >= 1,
            self.chain_pids().len() == self.chain_envs().len(),
            r.wf(),
            r@ == self.chain_envs()[0],
    ;

    /// Reads this process's identifier; used only for diagnostics.
    fn get_pid(&self) -> (r: i32)
        requires
            self.inv(),
        ensures
            self.chain_pids().len() == self.chain_envs().len(),
            self.chain_pids().len() >= 1,
            r == self.chain_pids()[0],
    ;

    /// Looks the parent process up. `Ok(None)` means this is the root of the
    /// visible process tree; an error means the parent could not be
    /// inspected.
    fn get_parent(self) -> (r: Result<Option<Self>, String>)
        requires
            self.inv(),
        ensures
            self.chain_pids().len() == self.chain_envs().len(),
            self.chain_envs().len() >= 1,
            match r {
                Result::Ok(p_opt) => match p_opt {
                    Option::Some(p) => self.chain_envs().len() >= 2 && p.inv()
                        && p.chain_envs() == self.chain_envs().skip(1)
                        && p.chain_pids() == self.chain_pids().skip(1)
                        && (self.reliable() ==> p.reliable()),
                    Option::None => self.chain_envs().len() == 1,
                },
                Result::Err(_) => !self.reliable(),
            },
    ;
}

/// An in-memory process chain with no operating-system access: each node
/// holds its snapshot and its parent, and parent lookups always succeed.
pub struct MockProcess {
    env: Snapshot,
    pid: i32,
    parent: Option<Box<MockProcess>>,
}

impl MockProcess {
    /// Builds a chain from the given snapshots, ordered root first; the last
    /// snapshot becomes the returned (innermost) process. Every process in
    /// the chain reports identifier 1.
    pub fn new(envs: Vec<Snapshot>) -> (r: MockProcess)
        requires
            envs@.len() >= 1,
            forall|i: int| 0 <= i < envs@.len() ==> (#[trigger] envs@[i]).wf(),
        ensures
            r.inv(),
            r.reliable(),
            r.chain_envs().len() == envs@.len(),
            r.chain_pids().len() == envs@.len(),
            forall|i: int| 0 <= i < envs@.len() ==> r.chain_envs()[i]
                == envs@[envs@.len() - 1 - i]@,
            forall|i: int| 0 <= i < envs@.len() ==> r.chain_pids()[i] == 1i32,
    {
        let ghost orig = envs@;
        let mut envs = envs;
        let mut cur: Option<MockProcess> = Option::None;
        let ghost mut k: int = 0;
        while envs.len() > 0
            invariant
                0 <= k <= orig.len(),
                envs@ == orig.skip(k),
                forall|i: int| 0 <= i < orig.len() ==> (#[trigger] orig[i]).wf(),
                k == 0 ==> cur is None,
                k >= 1 ==> match cur {
                    Option::Some(c) => c.inv() && c.reliable()
                        && c.chain_envs().len() == k && c.chain_pids().len() == k
                        && (forall|i: int| 0 <= i < k ==> c.chain_envs()[i]
                            == orig[k - 1 - i]@)
                        && (forall|i: int| 0 <= i < k ==> c.chain_pids()[i] == 1i32),
                    Option::None => false,
                },
            decreases envs@.len(),
        {
            let env = envs.remove(0);
            proof {
                assert(env == orig[k]);
                assert(orig.skip(k).skip(1) =~= orig.skip(k + 1));
            }
            let next = MockProcess {
                env,
                pid: 1,
                parent: match cur {
                    Option::Some(c) => Option::Some(Box::new(c)),
                    Option::None => Option::None,
                },
            };
            proof {
                if k >= 1 {
                    let c = next.parent->Some_0;
                    assert(next.chain_envs() == seq![next.env@] + c.chain_envs());
                    assert(next.chain_pids() == seq![next.pid] + c.chain_pids());
                } else {
                    assert(next.chain_envs() == seq![next.env@]);
                    assert(next.chain_pids() == seq![next.pid]);
                }
                k = k + 1;
            }
            cur = Option::Some(next);
        }
        proof {
            assert(k == orig.len());
        }
        match cur {
            Option::Some(c) => c,
            Option::None => {
                proof {
                    assert(false);
                }
                unreached()
            },
        }
    }
}

impl Process for MockProcess {
    closed spec fn inv(&self) -> bool
        decreases self,
    {
        self.env.wf() && match self.parent {
            Option::Some(p) => p.inv(),
            Option::None => true,
        }
    }

    closed spec fn chain_envs(&self) -> Seq<Map<Seq<u8>, Seq<u8>>>
        decreases self,
    {
        match self.parent {
            Option::Some(p) => seq![self.env@] + p.chain_envs(),
            Option::None => seq![self.env@],
        }
    }

    closed spec fn chain_pids(&self) -> Seq<i32>
        decreases self,
    {
        match self.parent {
            Option::Some(p) => seq![self.pid] + p.chain_pids(),
            Option::None => seq![self.pid],
        }
    }

    closed spec fn reliable(&self) -> bool {
        true
    }

    fn get_env(&self) -> (r: Snapshot)
        ensures
            self.chain_envs().len() >= 1,
            self.chain_pids().len() == self.chain_envs().len(),
            r.wf(),
            r@ == self.chain_envs()[0],
    {
        proof {
            self.lemma_chain_lens();
        }
        self.env.duplicate()
    }

    fn get_pid(&self) -> (r: i32)
        ensures
            self.chain_pids().len() == self.chain_envs().len(),
            self.chain_pids().len() >= 1,
            r == self.chain_pids()[0],
    {
        proof {
            self.lemma_chain_lens();
        }
        self.pid
    }

    fn get_parent(self) -> (r: Result<Option<MockProcess>, String>)
        ensures
            self.chain_pids().len() == self.chain_envs().len(),
            self.chain_envs().len() >= 1,
            match r {
                Result::Ok(p_opt) => match p_opt {
                    Option::Some(p) => self.chain_envs().len() >= 2 && p.inv()
                        && p.chain_envs() == self.chain_envs().skip(1)
                        && p.chain_pids() == self.chain_pids().skip(1)
                        && (self.reliable() ==> p.reliable()),
                    Option::None => self.chain_envs().len() == 1,
                },
                Result::Err(_) => !self.reliable(),
            },
    {
        proof {
            self.lemma_chain_lens();
        }
        match self.parent {
            Option::Some(p) => {
                proof {
                    p.lemma_chain_lens();
                    assert((seq![self.env@] + p.chain_envs()).skip(1)
                        =~= p.chain_envs());
                    assert((seq![self.pid] + p.chain_pids()).skip(1)
                        =~= p.chain_pids());
                }
                Result::Ok(Option::Some(*p))
            },
            Option::None => Result::Ok(Option::None),
        }
    }
}

impl MockProcess {
    /// The environment and identifier chains have the same, positive length.
    proof fn lemma_chain_lens(&self)
        ensures
            self.chain_envs().len() == self.chain_pids().len(),
            self.chain_envs().len() >= 1,
            self.chain_envs()[0] == self.env@,
            self.chain_pids()[0] == self.pid,
        decreases self,
    {
        match self.parent {
            Option::Some(p) => {
                p.lemma_chain_lens();
                assert(self.chain_envs() == seq![self.env@] + p.chain_envs());
                assert(self.chain_pids() == seq![self.pid] + p.chain_pids());
            },
            Option::None => {
                assert(self.chain_envs() == seq![self.env@]);
                assert(self.chain_pids() == seq![self.pid]);
            },
        }
    }
}

} // verus!

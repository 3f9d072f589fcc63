//! Lazy, cached access to everything one invocation needs: the parsed
//! options, the detected environment bundle, the consolidated records, the
//! change list, and the rendered setup script.
//!
//! Each piece is computed at most once, on first request, and the detection
//! failure (if any) is reported by every later stage.

use vstd::prelude::*;

use crate::environments::consolidated;
use crate::environments::detect_post;
use crate::environments::All;
use crate::environments::DetectError;
use crate::options::Parsed;
use crate::process::Process;
use crate::script::render_setup_script;
use crate::script::script_text;
use crate::script::skipped_names;
use crate::script::Script;
use crate::varmap::change_list_map;
use crate::varmap::change_list_wf;
use crate::varmap::changes_of;
use crate::varmap::VarMap;

verus! {

pub struct Manager<P: Process> {
    options: Parsed,
    process: Option<P>,
    chain_envs: Ghost<Seq<Map<Seq<u8>, Seq<u8>>>>,
    chain_pids: Ghost<Seq<i32>>,
    chain_reliable: Ghost<bool>,
    environments: Option<Result<All, DetectError>>,
    variables: Option<VarMap>,
    variables_to_change: Option<Vec<(Vec<u8>, Option<Vec<u8>>)>>,
    setup_script: Option<Script>,
}

impl<P: Process> Manager<P> {
    /// The ancestor chain of environments of the process handed to
    /// [`Manager::new`].
    pub closed spec fn chain(&self) -> Seq<Map<Seq<u8>, Seq<u8>>> {
        self.chain_envs@
    }

    /// The ancestor chain of process identifiers.
    pub closed spec fn pids(&self) -> Seq<i32> {
        self.chain_pids@
    }

    /// Whether every parent lookup along the chain succeeds.
    pub closed spec fn reliable(&self) -> bool {
        self.chain_reliable@
    }

    /// The options handed to [`Manager::new`].
    pub closed spec fn opts(&self) -> Parsed {
        self.options
    }

    /// The cached detection result, if detection ran already.
    pub closed spec fn cached_environments(&self) -> Option<Result<All, DetectError>> {
        self.environments
    }

    /// The cached change list, if it was computed already.
    pub closed spec fn cached_changes(&self) -> Option<Seq<(Vec<u8>, Option<Vec<u8>>)>> {
        match self.variables_to_change {
            Option::Some(cl) => Option::Some(cl@),
            Option::None => Option::None,
        }
    }

    pub closed spec fn wf(&self) -> bool {
        &&& match self.process {
            Option::Some(p) => p.inv() && p.chain_envs() == self.chain_envs@
                && p.chain_pids() == self.chain_pids@ && p.reliable()
                == self.chain_reliable@,
            Option::None => true,
        }
        &&& self.environments is None ==> self.process is Some
        &&& match self.environments {
            Option::Some(r) => detect_post(
                self.chain_envs@,
                self.chain_pids@,
                self.chain_reliable@,
                r,
            ),
            Option::None => true,
        }
        &&& match self.variables {
            Option::Some(vm) => self.environments matches Option::Some(Result::Ok(all))
                && vm.wf() && vm@ == consolidated(all@),
            Option::None => true,
        }
        &&& match self.variables_to_change {
            Option::Some(cl) => self.variables matches Option::Some(vm)
                && change_list_wf(cl@) && change_list_map(cl@) == changes_of(vm@),
            Option::None => true,
        }
        &&& match self.setup_script {
            Option::Some(s) => self.variables_to_change matches Option::Some(cl)
                && s.text@ == script_text(cl@) && s.skipped@.map_values(|b: Vec<u8>| b@)
                == skipped_names(cl@),
            Option::None => true,
        }
    }

    pub fn new(options: Parsed, process: P) -> (m: Manager<P>)
        requires
            process.inv(),
        ensures
            m.wf(),
            m.opts() == options,
            m.chain() == process.chain_envs(),
            m.pids() == process.chain_pids(),
            m.reliable() == process.reliable(),
            m.cached_environments() is None,
    {
        Manager {
            options,
            chain_envs: Ghost(process.chain_envs()),
            chain_pids: Ghost(process.chain_pids()),
            chain_reliable: Ghost(process.reliable()),
            process: Option::Some(process),
            environments: Option::None,
            variables: Option::None,
            variables_to_change: Option::None,
            setup_script: Option::None,
        }
    }

    pub fn get_options(&self) -> (r: &Parsed)
        ensures
            *r == self.opts(),
    {
        &self.options
    }

    /// Runs detection once and caches its result.
    fn ensure_environments(&mut self)
        requires
            old(self).wf(),
        ensures
            final(self).wf(),
            final(self).chain() == old(self).chain(),
            final(self).pids() == old(self).pids(),
            final(self).reliable() == old(self).reliable(),
            final(self).opts() == old(self).opts(),
            final(self).cached_environments() is Some,
            old(self).cached_environments() is Some ==> final(self).cached_environments()
                == old(self).cached_environments(),
            final(self).cached_changes() == old(self).cached_changes(),
    {
        if self.environments.is_none() {
            let p = match self.process.take() {
                Option::Some(p) => p,
                Option::None => unreached(),
            };
            let result = All::detect(p);
            self.environments = Option::Some(result);
        }
    }

    /// Detects the environment bundle on first call; later calls return the
    /// cached result.
    pub fn get_environments_lazy(&mut self) -> (r: &Result<All, DetectError>)
        requires
            old(self).wf(),
        ensures
            final(self).wf(),
            final(self).chain() == old(self).chain(),
            final(self).pids() == old(self).pids(),
            final(self).reliable() == old(self).reliable(),
            final(self).opts() == old(self).opts(),
            final(self).cached_environments() == Option::Some(*r),
            detect_post(old(self).chain(), old(self).pids(), old(self).reliable(), *r),
    {
        self.ensure_environments();
        match &self.environments {
            Option::Some(r) => r,
            Option::None => unreached(),
        }
    }

    /// Consolidates the bundle once and caches the records.
    fn ensure_variables(&mut self)
        requires
            old(self).wf(),
        ensures
            final(self).wf(),
            final(self).chain() == old(self).chain(),
            final(self).pids() == old(self).pids(),
            final(self).reliable() == old(self).reliable(),
            final(self).opts() == old(self).opts(),
            final(self).cached_environments() is Some,
            old(self).cached_environments() is Some ==> final(self).cached_environments()
                == old(self).cached_environments(),
            final(self).cached_environments() matches Option::Some(Result::Ok(_))
                ==> final(self).variables_cached() is Some,
            final(self).cached_changes() == old(self).cached_changes(),
    {
        self.ensure_environments();
        if self.variables.is_none() {
            let vm = match &self.environments {
                Option::Some(Result::Ok(all)) => {
                    proof {
                        all.lemma_wf_view();
                    }
                    Option::Some(all.consolidate())
                },
                _ => Option::None,
            };
            match vm {
                Option::Some(vm) => {
                    self.variables = Option::Some(vm);
                },
                Option::None => {},
            }
        }
    }

    /// Whether the consolidated records are cached.
    pub closed spec fn variables_cached(&self) -> Option<VarMap> {
        self.variables
    }

    /// Consolidates the detected bundle into one record per variable name on
    /// first call; later calls return the cached records. Reports the
    /// detection failure if the bundle could not be formed.
    pub fn get_variables_lazy(&mut self) -> (r: Result<&VarMap, &DetectError>)
        requires
            old(self).wf(),
        ensures
            final(self).wf(),
            final(self).chain() == old(self).chain(),
            final(self).pids() == old(self).pids(),
            final(self).reliable() == old(self).reliable(),
            final(self).opts() == old(self).opts(),
            final(self).cached_environments() is Some,
            match r {
                Result::Ok(vm) => final(self).cached_environments() matches Option::Some(
                    Result::Ok(all),
                ) && vm.wf() && vm@ == consolidated(all@) && detect_post(
                    old(self).chain(),
                    old(self).pids(),
                    old(self).reliable(),
                    Result::Ok(all),
                ),
                Result::Err(e) => final(self).cached_environments() == Option::Some(
                    Result::Err::<All, DetectError>(*e),
                ) && detect_post(
                    old(self).chain(),
                    old(self).pids(),
                    old(self).reliable(),
                    Result::Err(*e),
                ),
            },
    {
        self.ensure_variables();
        match (&self.variables, &self.environments) {
            (Option::Some(vm), Option::Some(Result::Ok(_))) => Result::Ok(vm),
            (_, Option::Some(Result::Err(e))) => Result::Err(e),
            _ => unreached(),
        }
    }

    /// Computes the change list once and caches it.
    fn ensure_variables_to_change(&mut self)
        requires
            old(self).wf(),
        ensures
            final(self).wf(),
            final(self).chain() == old(self).chain(),
            final(self).pids() == old(self).pids(),
            final(self).reliable() == old(self).reliable(),
            final(self).opts() == old(self).opts(),
            final(self).cached_environments() is Some,
            old(self).cached_environments() is Some ==> final(self).cached_environments()
                == old(self).cached_environments(),
            final(self).cached_environments() matches Option::Some(Result::Ok(_))
                ==> final(self).variables_to_change is Some,
    {
        self.ensure_variables();
        if self.variables_to_change.is_none() {
            let cl = match &self.variables {
                Option::Some(vm) => Option::Some(vm.required_changes()),
                Option::None => Option::None,
            };
            match cl {
                Option::Some(cl) => {
                    self.variables_to_change = Option::Some(cl);
                },
                Option::None => {},
            }
        }
    }

    /// Computes, on first call, the minimal edits needed so a spawned child
    /// sees the environment it would have had outside the sandbox; later
    /// calls return the cached list. Reports the detection failure if the
    /// bundle could not be formed.
    pub fn get_variables_to_change_lazy(&mut self) -> (r: Result<
        &Vec<(Vec<u8>, Option<Vec<u8>>)>,
        &DetectError,
    >)
        requires
            old(self).wf(),
        ensures
            final(self).wf(),
            final(self).chain() == old(self).chain(),
            final(self).pids() == old(self).pids(),
            final(self).reliable() == old(self).reliable(),
            final(self).opts() == old(self).opts(),
            match r {
                Result::Ok(cl) => final(self).cached_environments() matches Option::Some(
                    Result::Ok(all),
                ) && change_list_wf(cl@) && change_list_map(cl@) == changes_of(
                    consolidated(all@),
                ) && detect_post(
                    old(self).chain(),
                    old(self).pids(),
                    old(self).reliable(),
                    Result::Ok(all),
                ) && final(self).cached_changes() == Option::Some(cl@),
                Result::Err(e) => final(self).cached_environments() == Option::Some(
                    Result::Err::<All, DetectError>(*e),
                ) && detect_post(
                    old(self).chain(),
                    old(self).pids(),
                    old(self).reliable(),
                    Result::Err(*e),
                ),
            },
    {
        self.ensure_variables_to_change();
        match (&self.variables_to_change, &self.environments) {
            (Option::Some(cl), Option::Some(Result::Ok(_))) => Result::Ok(cl),
            (_, Option::Some(Result::Err(e))) => Result::Err(e),
            _ => unreached(),
        }
    }

    /// Renders the setup script once and caches it.
    fn ensure_setup_script(&mut self)
        requires
            old(self).wf(),
        ensures
            final(self).wf(),
            final(self).chain() == old(self).chain(),
            final(self).pids() == old(self).pids(),
            final(self).reliable() == old(self).reliable(),
            final(self).opts() == old(self).opts(),
            final(self).cached_environments() is Some,
            old(self).cached_environments() is Some ==> final(self).cached_environments()
                == old(self).cached_environments(),
            final(self).cached_environments() matches Option::Some(Result::Ok(_))
                ==> final(self).setup_script is Some,
    {
        self.ensure_variables_to_change();
        if self.setup_script.is_none() {
            let s = match &self.variables_to_change {
                Option::Some(cl) => Option::Some(render_setup_script(cl)),
                Option::None => Option::None,
            };
            match s {
                Option::Some(s) => {
                    self.setup_script = Option::Some(s);
                },
                Option::None => {},
            }
        }
    }

    /// Renders, on first call, the setup script for the computed change
    /// list; later calls return the cached script. Reports the detection
    /// failure if the bundle could not be formed.
    pub fn get_setup_script_lazy(&mut self) -> (r: Result<&Script, &DetectError>)
        requires
            old(self).wf(),
        ensures
            final(self).wf(),
            final(self).chain() == old(self).chain(),
            final(self).pids() == old(self).pids(),
            final(self).reliable() == old(self).reliable(),
            final(self).opts() == old(self).opts(),
            match r {
                Result::Ok(s) => final(self).cached_environments() matches Option::Some(
                    Result::Ok(all),
                ) && final(self).cached_changes() matches Option::Some(cl)
                    && change_list_wf(cl) && change_list_map(cl) == changes_of(
                    consolidated(all@),
                ) && s.text@ == script_text(cl) && s.skipped@.map_values(
                    |b: Vec<u8>| b@,
                ) == skipped_names(cl) && detect_post(
                    old(self).chain(),
                    old(self).pids(),
                    old(self).reliable(),
                    Result::Ok(all),
                ),
                Result::Err(e) => final(self).cached_environments() == Option::Some(
                    Result::Err::<All, DetectError>(*e),
                ) && detect_post(
                    old(self).chain(),
                    old(self).pids(),
                    old(self).reliable(),
                    Result::Err(*e),
                ),
            },
    {
        self.ensure_setup_script();
        match (&self.setup_script, &self.environments) {
            (Option::Some(s), Option::Some(Result::Ok(_))) => Result::Ok(s),
            (_, Option::Some(Result::Err(e))) => Result::Err(e),
            _ => unreached(),
        }
    }
}

} // verus!

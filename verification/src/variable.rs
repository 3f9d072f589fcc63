//! The per-variable three-way reconciler.
//!
//! For one variable name, [`Variable`] records the value observed in each of
//! the three environment snapshots (external / edge / self) and decides what
//! value a child process should receive and what edit reaches it from the
//! current environment.

use vstd::prelude::*;

use crate::bytes::copy_opt_bytes;
use crate::bytes::opt_bytes_eq;
use crate::bytes::opt_view;

verus! {

/// The values a single environment variable held in the three snapshots.
///
/// `external` is the value outside the sandbox, `snap` the value in the first
/// process inside the sandbox, and `myself` the value in the current process.
#[derive(Debug, PartialEq)]
pub struct Variable {
    external: Option<Vec<u8>>,
    snap: Option<Vec<u8>>,
    myself: Option<Vec<u8>>,
}

/// Abstract value of a [`Variable`]: the three optional values as sequences.
pub struct VariableView {
    pub external: Option<Seq<u8>>,
    pub snap: Option<Seq<u8>>,
    pub myself: Option<Seq<u8>>,
}

impl View for Variable {
    type V = VariableView;

    closed spec fn view(&self) -> VariableView {
        VariableView {
            external: opt_view(self.external),
            snap: opt_view(self.snap),
            myself: opt_view(self.myself),
        }
    }
}

/// The value the child process should receive for this variable.
///
/// If the value in the current process differs from the value at the sandbox
/// edge, something other than the sandbox changed it after entry, so that
/// later change is kept. Otherwise the value is attributed to the sandbox and
/// the external value is restored.
pub open spec fn spec_child_value(v: VariableView) -> Option<Seq<u8>> {
    if v.myself != v.snap {
        v.myself
    } else {
        v.external
    }
}

/// The edit needed to reach `value` starting from the current environment:
/// `None` when no edit is needed, `Some(None)` to clear the variable, and
/// `Some(Some(v))` to set it to `v`.
pub open spec fn spec_change_to(v: VariableView, value: Option<Seq<u8>>) -> Option<
    Option<Seq<u8>>,
> {
    if value == v.myself {
        Option::None
    } else {
        Option::Some(value)
    }
}

/// The edit this variable needs so that a spawned child sees the value it
/// would have had outside the sandbox, modifications made after entering the
/// sandbox preserved.
pub open spec fn spec_required_change(v: VariableView) -> Option<Option<Seq<u8>>> {
    spec_change_to(v, spec_child_value(v))
}

impl Variable {
    pub fn new(
        external: Option<Vec<u8>>,
        snap: Option<Vec<u8>>,
        myself: Option<Vec<u8>>,
    ) -> (r: Variable)
        ensures
            r@.external == opt_view(external),
            r@.snap == opt_view(snap),
            r@.myself == opt_view(myself),
    {
        Variable { external, snap, myself }
    }

    /// Returns the value the child process should have.
    pub fn get_child_value(&self) -> (r: Option<Vec<u8>>)
        ensures
            opt_view(r) == spec_child_value(self@),
    {
        if !opt_bytes_eq(&self.myself, &self.snap) {
            copy_opt_bytes(&self.myself)
        } else {
            copy_opt_bytes(&self.external)
        }
    }

    /// Returns the edit needed to reach `value` from the current environment.
    pub fn get_change_to(&self, value: Option<Vec<u8>>) -> (r: Option<Option<Vec<u8>>>)
        ensures
            match r {
                Option::None => spec_change_to(self@, opt_view(value)) is None,
                Option::Some(c) => spec_change_to(self@, opt_view(value))
                    == Option::Some(opt_view(c)),
            },
    {
        if opt_bytes_eq(&value, &self.myself) {
            Option::None
        } else {
            Option::Some(value)
        }
    }

    /// Gets the change that must be made to the current environment so a
    /// child escapes the sandbox's modifications.
    ///
    /// Returns `None` if the variable can be left as-is, `Some(None)` if it
    /// must be cleared, and `Some(Some(v))` if it must be set to `v`.
    pub fn get_required_change(&self) -> (r: Option<Option<Vec<u8>>>)
        ensures
            match r {
                Option::None => spec_required_change(self@) is None,
                Option::Some(c) => spec_required_change(self@)
                    == Option::Some(opt_view(c)),
            },
    {
        self.get_change_to(self.get_child_value())
    }
}

} // verus!

//! Environment reconciliation for processes launched inside a confined
//! application sandbox.
//!
//! The library walks the ancestor-process chain to find the three environment
//! snapshots that bracket the sandbox boundary (external / edge / self),
//! computes for every variable name the value a child process should see, and
//! renders the resulting change set as a shell setup script.

pub mod bytes;
pub mod environments;
pub mod laws;
pub mod manager;
pub mod options;
pub mod process;
pub mod script;
pub mod snapshot;
pub mod variable;
pub mod varmap;

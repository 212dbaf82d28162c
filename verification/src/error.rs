//! The ways in which the library's part of a reconciliation run can fail.

use vstd::prelude::*;

verus! {

/// Every failure is fatal for the run; nothing is retried.
#[derive(Clone, Copy, Debug, PartialEq, Eq, Structural)]
pub enum ReconcileError {
    /// A page request against a backend failed.
    TransportError,
    /// A cutoff or an object's last-modified time could not be parsed.
    MalformedTimestamp,
    /// What was to be written to a report or status file cannot be written.
    PersistenceError,
}

} // verus!

//! The error kinds the core can report.

use vstd::prelude::*;

verus! {

/// An operation's failure. `NotFound` names the missing issue, `CycleDetected`
/// carries a path hint for the rejected edge, `InvalidValue` reports a
/// malformed enumeration field before any mutation happens, and `NoDatabase`
/// stands for a store that could not be located.
#[derive(Debug)]
pub enum NitError {
    NotFound(i64),
    CycleDetected(String),
    InvalidValue { field: String, value: String, valid: String },
    NoDatabase,
}

impl NitError {
    /// Process exit code for this error.
    pub fn exit_code(&self) -> (r: i32)
        ensures
            r == 1,
    {
        match self {
            NitError::NotFound(_) => 1,
            NitError::CycleDetected(_) => 1,
            NitError::InvalidValue { .. } => 1,
            NitError::NoDatabase => 1,
        }
    }

    /// Stable machine-readable code for this error.
    pub fn error_code(&self) -> (r: &'static str)
        ensures
            self matches NitError::NotFound(_) ==> r@ == "NOT_FOUND"@,
            self matches NitError::CycleDetected(_) ==> r@ == "CYCLE_DETECTED"@,
            self matches NitError::InvalidValue { .. } ==> r@ == "INVALID_VALUE"@,
            self matches NitError::NoDatabase ==> r@ == "NO_DATABASE"@,
    {
        match self {
            NitError::NotFound(_) => "NOT_FOUND",
            NitError::CycleDetected(_) => "CYCLE_DETECTED",
            NitError::InvalidValue { .. } => "INVALID_VALUE",
            NitError::NoDatabase => "NO_DATABASE",
        }
    }
}

} // verus!

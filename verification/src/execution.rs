//! How a pushed-down execution fails, and what the user is told.

use vstd::prelude::*;
use vstd::string::*;
use crate::text::{decimal, decimal_of, string_of};

verus! {

/// The reason why a pushed-down execution gives up. Each of them ends the
/// whole query: nothing is retried, and nothing is returned from the parts
/// that did succeed.
#[derive(Debug, Clone, Copy, PartialEq, Eq, Structural)]
pub enum ExecutionError {
    /// The index could not open a cursor for the query.
    CursorOpenFailed,
    /// The index failed while the cursor was read.
    ScanInterrupted,
    /// The worker with this index ended before it reported.
    WorkerFailed { worker: usize },
    /// The report of the worker with this index breaks the rules for
    /// reports.
    MalformedPartial { worker: usize },
}

/// The diagnostic of a failure: the stage that failed and, for a worker,
/// its index.
pub open spec fn diagnostic_text(error: ExecutionError) -> Seq<char> {
    match error {
        ExecutionError::CursorOpenFailed => "pushdown failed: could not open the index cursor"@,
        ExecutionError::ScanInterrupted => "pushdown failed: the index scan was interrupted"@,
        ExecutionError::WorkerFailed { worker } => "pushdown failed: no report from worker "@
            + decimal(worker as int),
        ExecutionError::MalformedPartial { worker } =>
            "pushdown failed: malformed report from worker "@ + decimal(worker as int),
    }
}

/// Writes the diagnostic of a failure.
pub fn diagnostic(error: &ExecutionError) -> (message: String)
    ensures
        message@ == diagnostic_text(*error),
{
    match error {
        ExecutionError::CursorOpenFailed => String::from_str(
            "pushdown failed: could not open the index cursor",
        ),
        ExecutionError::ScanInterrupted => String::from_str(
            "pushdown failed: the index scan was interrupted",
        ),
        ExecutionError::WorkerFailed { worker } => {
            let mut message = String::from_str("pushdown failed: no report from worker ");
            let digits = string_of(&decimal_of(*worker as i128));
            message.append(digits.as_str());
            message
        },
        ExecutionError::MalformedPartial { worker } => {
            let mut message = String::from_str("pushdown failed: malformed report from worker ");
            let digits = string_of(&decimal_of(*worker as i128));
            message.append(digits.as_str());
            message
        },
    }
}

} // verus!

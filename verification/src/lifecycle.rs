//! Invocation-level decisions: which failures end a run and which are
//! absorbed, expressed as typed results handed back to a single top-level
//! dispatcher that alone decides exit codes.

use crate::store::StoreError;
use vstd::prelude::*;

verus! {

/// The fate of one whole invocation. Failures that threaten the integrity
/// of the invocation (schema creation, the report's read) are fatal; work
/// local to one scan tick never is.
pub enum RunOutcome {
    Success,
    Fatal,
}

/// What an install attempt leaves the run in. Install unconditionally
/// destroys any prior table and then creates it fresh; a destroy failure is
/// tolerated (the table may legitimately not exist yet), while a create
/// failure leaves nothing for the scanner or reporter to work on.
pub fn install_outcome(
    destroy: &Result<u64, StoreError>,
    create: &Result<u64, StoreError>,
) -> (o: RunOutcome)
    ensures
        (o matches RunOutcome::Success) <==> (create matches Ok(_)),
{
    match create {
        Ok(_) => RunOutcome::Success,
        Err(_) => RunOutcome::Fatal,
    }
}

/// The exit code of the process: zero exactly on success.
pub fn exit_code(o: &RunOutcome) -> (c: i32)
    ensures
        (o matches RunOutcome::Success) <==> c == 0,
        (o matches RunOutcome::Fatal) <==> c == 1,
{
    match o {
        RunOutcome::Success => 0,
        RunOutcome::Fatal => 1,
    }
}

} // verus!

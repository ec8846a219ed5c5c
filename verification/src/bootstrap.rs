//! Decision logic of the directory-bootstrap helper.
//!
//! The helper itself ("create this directory and every missing ancestor") is
//! storage work and lives with the caller; what the core owns is the rule
//! that turns the probe-and-create outcome into the reported value: creation
//! reports `true`, a directory that already existed is a success reporting
//! `false`, and any other failure is fatal.
use vstd::prelude::*;

use crate::errors::RenderError;

verus! {

/// What the caller's probe-and-create step observed for one directory path.
#[derive(Clone, Copy, Debug, PartialEq, Eq, Structural)]
pub enum DirectoryOutcome {
    /// The directory was missing and has been created.
    Created,
    /// The directory was already present.
    AlreadyExists,
    /// Creation failed for any other reason (a path component is a file,
    /// permission was denied, the storage is full).
    Failed,
}

/// Turns the outcome of one probe-and-create step into the reported value:
/// `Ok(true)` for a fresh creation, `Ok(false)` for a directory that was
/// already there, and a fatal error for everything else. Calling the helper
/// twice on the same missing path thus reports `true` then `false`, and the
/// second call is never an error.
pub fn ensure_directory_report(outcome: DirectoryOutcome) -> (r: Result<bool, RenderError>)
    ensures
        outcome == DirectoryOutcome::Created ==> r == Ok::<bool, RenderError>(true),
        outcome == DirectoryOutcome::AlreadyExists ==> r == Ok::<bool, RenderError>(false),
        outcome == DirectoryOutcome::Failed ==> r == Err::<bool, RenderError>(RenderError::Io),
{
    match outcome {
        DirectoryOutcome::Created => Ok(true),
        DirectoryOutcome::AlreadyExists => Ok(false),
        DirectoryOutcome::Failed => Err(RenderError::Io),
    }
}

} // verus!

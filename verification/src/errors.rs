//! The error taxonomy of the library.
use vstd::prelude::*;

verus! {

/// Everything that can go wrong while resolving, walking, deleting or
/// confirming.
///
/// - `DirectoryNotFound`: the named path does not exist, or is not a
///   directory.  Fatal only when it concerns the starting directory; during a
///   walk it merely means "no match here".
/// - `DirectoryReadError`: the entries of the named directory could not be
///   enumerated.  Scoped to that subtree: siblings are unaffected.
/// - `DeletionError`: recursive removal of the named path failed; `detail`
///   carries the underlying description.  Reported per path, never aborts
///   other deletions.
/// - `InvalidConfirmationInput`: a line of console input did not parse as a
///   recognised action.
#[derive(Debug, Clone, PartialEq, Eq)]
pub enum Error {
    DirectoryNotFound { path: String },
    DirectoryReadError { path: String },
    DeletionError { path: String, detail: String },
    InvalidConfirmationInput,
}

} // verus!

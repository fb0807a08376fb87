//! The engine's failures.
use vstd::prelude::*;

verus! {

/// Why an operation on one item, or on a whole scope, did not go through.
#[derive(Debug, Clone)]
pub enum SyncError {
    /// A path that had to exist does not: a source at backup time, a
    /// snapshot at restore time.
    NotFound { path: String },
    /// The storage layer failed to copy, remove or create; the two paths
    /// are those of the step that failed.
    IoFailure { source: String, destination: String },
    /// An index or a name given by the caller names nothing.
    InvalidSelection,
    /// A destructive bulk operation was asked for without confirmation.
    Unconfirmed,
    /// A record of this name is already registered.
    AlreadyExists { name: String },
}

/// The path that a `NotFound` error names.
pub open spec fn not_found_at<T>(r: Result<T, SyncError>, path: Seq<char>) -> bool {
    match r {
        Err(SyncError::NotFound { path: p }) => p@ == path,
        _ => false,
    }
}

} // verus!

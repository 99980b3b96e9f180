//! The failures a reconciliation can meet at its boundaries, and the
//! policy of how far each one reaches.

use vstd::prelude::*;
use vstd::string::StringExecFns;

verus! {

/// What went wrong at a boundary while synchronizing the index.
#[derive(Debug, Clone, Copy, PartialEq, Eq, Structural)]
pub enum SyncError {
    /// A commit hash of the revision pair names no commit.
    RevisionNotFound,
    /// A path the push reported is absent from the expected tree.
    PathNotFoundInTree,
    /// The repository could not be cloned or fetched.
    RepositoryUnavailable,
    /// The embedding provider failed for one entry.
    EmbeddingUnavailable,
    /// A delete or upsert against the vector store failed.
    IndexOperationFailed,
}

impl SyncError {
    /// Whether the failure aborts the whole reconciliation.  The revision
    /// errors come before anything is mutated, and a failed index
    /// operation leaves the index inconsistent, so both are fatal; a
    /// failed embedding skips only the entry being processed.
    pub fn is_fatal(&self) -> (r: bool)
        ensures
            r == (*self != SyncError::EmbeddingUnavailable),
    {
        match self {
            SyncError::EmbeddingUnavailable => false,
            _ => true,
        }
    }

    /// A human-readable description.
    pub fn message(&self) -> (r: String)
        ensures
            *self == SyncError::RevisionNotFound ==> r@ == "a commit of the revision pair was not found"@,
            *self == SyncError::PathNotFoundInTree ==> r@ == "a reported path is absent from the revision's tree"@,
            *self == SyncError::RepositoryUnavailable ==> r@ == "the repository could not be cloned"@,
            *self == SyncError::EmbeddingUnavailable ==> r@ == "the embedding provider was unavailable"@,
            *self == SyncError::IndexOperationFailed ==> r@ == "a vector-store operation failed"@,
    {
        match self {
            SyncError::RevisionNotFound => String::from_str(
                "a commit of the revision pair was not found",
            ),
            SyncError::PathNotFoundInTree => String::from_str(
                "a reported path is absent from the revision's tree",
            ),
            SyncError::RepositoryUnavailable => String::from_str(
                "the repository could not be cloned",
            ),
            SyncError::EmbeddingUnavailable => String::from_str(
                "the embedding provider was unavailable",
            ),
            SyncError::IndexOperationFailed => String::from_str("a vector-store operation failed"),
        }
    }
}

} // verus!

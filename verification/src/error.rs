//! The failures that the library reports.

use vstd::prelude::*;

verus! {

/// Everything that can go wrong in the checkpoint store. Each operation states in its
/// contract exactly which of these it reports, and when.
#[derive(Clone, Copy, Debug, PartialEq, Eq, Structural)]
pub enum GiniError {
    /// A string that should name an object is not forty hexadecimal digits.
    InvalidDigest,
    /// No object is stored under the digest.
    ObjectNotFound,
    /// The commit to restore is not in the store.
    CommitNotFound,
    /// The commit to restore is not named by a well-formed digest.
    InvalidCommit,
    /// Stored bytes cannot be read as the kind of object they should be.
    MalformedObject,
    /// An object is larger than the store accepts.
    ObjectTooLarge,
    /// A file of the working directory is larger than a snapshot may hold.
    FileTooLarge,
    /// `HEAD`, or the ref it names, holds neither a ref line nor a digest.
    CorruptRepository,
    /// `HEAD` does not name a ref, so there is nothing to advance.
    DetachedHeadUnsupported,
    /// No directory within reach of the starting point holds a repository.
    NotARepository,
    /// The directory already holds a repository.
    AlreadyInitialized,
    /// The safety copy taken before a restore could not be made.
    BackupFailed,
    /// No backup of the given name exists.
    BackupNotFound,
    /// A file stands where a directory is needed, or a directory where a file is.
    PathConflict,
    /// A checkpoint message is empty.
    EmptyMessage,
    /// A checkpoint message is longer than allowed.
    MessageTooLong,
    /// A menu choice is not a number within the offered range.
    InvalidSelection,
}

/// Whether `got` and `owed` are both a success, or both the same failure.
pub open spec fn same_outcome(got: Result<(), GiniError>, owed: Result<(), GiniError>) -> bool {
    match got {
        Ok(_) => owed is Ok,
        Err(e) => owed == Err::<(), GiniError>(e),
    }
}

} // verus!

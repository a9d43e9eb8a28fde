//! A checkpoint store for a project directory: a content-addressed object store, the
//! snapshots of a working directory that it keeps as trees of blobs, a linear history of
//! commits, and the restore of a commit after a backup of what is there. The library
//! works on values: a `Repository` holds the objects, the refs, the working directory
//! and the backups, and every operation is specified over the mathematical view of it.

pub mod codec;
pub mod codec_proofs;
pub mod digest;
pub mod engine;
pub mod engine_proofs;
pub mod error;
pub mod history;
pub mod prompt;
pub mod refs;
pub mod snapshot;
pub mod snapshot_proofs;
pub mod store;
pub mod text;
pub mod worktree;

pub use crate::engine::{
    checkpoint, ensure_initialized, get_commit_history, init, log, restore, restore_from_backup,
    Repository,
};
pub use crate::error::GiniError;

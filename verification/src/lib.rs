//! The rules of an incremental backup to a remote object store: which local
//! files are new or changed against a snapshot of the store, which remote
//! objects have lost their local file, how a task is retried, how a cap on
//! the bandwidth is shared among workers, how progress is counted, and the
//! phases that a session passes through. Every function is verified against
//! its contract; reading files, talking to the store and running threads is
//! left to the caller.

mod clock;
pub mod commands;
pub mod differ;
pub mod formatting;
pub mod index;
pub mod keys;
pub mod progress;
pub mod records;
pub mod retry;
pub mod session;
pub mod storage;
pub mod tasks;
pub mod text;
pub mod transfer;

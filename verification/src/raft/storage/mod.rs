//! Formats of the persistent Raft state: the log, the snapshots and the vote.

pub mod log;
pub mod meta;
pub mod snapshot;
pub mod store;

use vstd::prelude::*;

pub use log::{LogEntry, LogStore};
pub use meta::{Vote, VoteStore};
pub use snapshot::SnapshotMeta;
pub use store::SnapshotStore;

verus! {

/// Subdirectory of a disk root that holds all Raft persistence files.
pub const RAFT_DIR: &'static str = ".abixio.sys/raft";

} // verus!

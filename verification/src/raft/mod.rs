//! Durable storage for a Raft log: frames, snapshots and the replayed log state.

pub mod completion;
pub mod frame;
pub mod snapshot;
pub mod types;
pub mod wal_storage;

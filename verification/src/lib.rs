//! Building blocks of a small cluster transport: hybrid timestamps, SWIM-style
//! membership, a deterministic network simulator, write-ahead-log framing for a
//! Raft log, and chunked file transfer.
//!
//! Every item here is pure computation over plain values and carries a contract.
//! Sockets, files and clocks live with the caller, which hands in what it read and
//! performs the actions it is given back.

pub mod backend;
pub mod bytes;
pub mod clock;
pub mod config;
pub mod error;
pub mod gossip;
pub mod mock;
pub mod node;
pub mod ordered;
pub mod paths;
pub mod raft;
pub mod text;
pub mod time;
pub mod transfer;

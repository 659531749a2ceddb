//! Chunked file transfer: what is sent in which order, what is checked on arrival, and
//! what becomes of a transfer when something goes wrong.
//!
//! Files, sockets and clocks are the caller's: it hands in what it read and what time it
//! is, and performs the actions it is given back.

pub mod bandwidth;
pub mod broadcast;
pub mod chunk;
pub mod compression;
pub mod config;
pub mod control;
pub mod error;
pub mod file_ops;
pub mod integrity;
pub mod listing;
pub mod manifest;
pub mod messages;
pub mod metrics;
pub mod options;
pub mod path;
pub mod persistence;
pub mod progress;
pub mod receive;
pub mod receive_hash;
pub mod send;
pub mod send_loop;
pub mod service;
pub mod session;
pub mod stream;
pub mod sync;

//! Simulated networks for reproducible tests.

pub mod backend;
pub mod memory;
pub mod minimize;
pub mod network;
pub mod schedule;
pub mod trace;

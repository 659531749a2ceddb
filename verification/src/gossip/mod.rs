//! SWIM-style membership with hybrid logical timestamps.

pub mod engine;
pub mod hlc;
pub mod types;
pub mod util;

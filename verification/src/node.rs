//! Identifiers and addresses of nodes.

use vstd::prelude::*;

verus! {

/// Identifies a node: sixteen bytes, read as a big-endian number.
#[derive(Debug, Clone, Copy, PartialEq, Eq, PartialOrd, Ord, Hash, Structural)]
pub struct NodeId {
    pub id: u128,
}

/// The network address of a node. An IPv4 address stands in its IPv6-mapped form.
#[derive(Debug, Clone, Copy, PartialEq, Eq, Hash, Structural)]
pub struct NodeAddr {
    pub ip: u128,
    pub port: u16,
}

} // verus!

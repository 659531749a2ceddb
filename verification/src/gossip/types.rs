//! Peers and what is known of them.

use std::collections::BTreeMap;
use vstd::prelude::*;

use crate::clock::Instant;
use crate::node::{NodeAddr, NodeId};
use crate::time::HybridTimestamp;

verus! {

/// The status of a peer.
#[derive(Debug, Clone, Copy, PartialEq, Eq, Structural)]
pub enum Status {
    Alive,
    Suspect,
    Dead,
}

/// Identifies an event of a node's gossip.
#[derive(Debug, Clone, Copy, PartialEq, Eq, Hash, Structural)]
pub struct HlcEventId {
    pub source: NodeId,
    pub sequence: u64,
}

/// What is known of a peer's liveness.
#[derive(Debug, Clone, Copy, PartialEq, Eq, Structural)]
pub struct PeerState {
    pub incarnation: u64,
    pub status: Status,
    pub last_seen: Instant,
    pub suspect_since: Option<Instant>,
    /// The last membership event applied for this peer.
    pub event_id: Option<HlcEventId>,
    /// The timestamp of that event.
    pub timestamp: Option<HybridTimestamp>,
}

/// The state of a peer first heard of at `now`.
pub open spec fn fresh_state(incarnation: u64, status: Status, now: Instant) -> PeerState {
    PeerState {
        incarnation,
        status,
        last_seen: now,
        suspect_since: None,
        event_id: None,
        timestamp: None,
    }
}

impl PeerState {
    /// The state of a peer first heard of at `now`.
    pub fn new(incarnation: u64, status: Status, now: Instant) -> (state: Self)
        ensures
            state == fresh_state(incarnation, status, now),
    {
        PeerState {
            incarnation,
            status,
            last_seen: now,
            suspect_since: None,
            event_id: None,
            timestamp: None,
        }
    }
}

/// A peer of the cluster.
#[derive(Debug, Clone, Copy, PartialEq, Eq, Structural)]
pub struct Peer {
    pub node_id: NodeId,
    pub addr: NodeAddr,
    pub state: PeerState,
}

/// The membership of the cluster, by the number of the node's identifier.
#[derive(Debug)]
pub struct MembershipView {
    pub peers: BTreeMap<u128, Peer>,
}

impl View for MembershipView {
    type V = Map<u128, Peer>;

    open spec fn view(&self) -> Map<u128, Peer> {
        self.peers@
    }
}

/// Whether every peer is kept under its own identifier.
pub open spec fn keyed_by_node(peers: Map<u128, Peer>) -> bool {
    forall|k: u128| #[trigger] peers.contains_key(k) ==> peers[k].node_id.id == k
}

impl MembershipView {
    /// Every peer is kept under its own identifier.
    pub open spec fn wf(&self) -> bool {
        keyed_by_node(self@)
    }

    /// No peers.
    pub fn new() -> (view: Self)
        ensures
            view@ == Map::<u128, Peer>::empty(),
            view.wf(),
    {
        MembershipView { peers: BTreeMap::new() }
    }

    /// Adds or replaces a peer.
    pub fn insert(&mut self, peer: Peer)
        ensures
            old(self).wf() ==> final(self).wf(),
            final(self)@ == old(self)@.insert(peer.node_id.id, peer),
    {
        self.peers.insert(peer.node_id.id, peer);
    }

    /// The peer of a node.
    pub fn get(&self, node_id: NodeId) -> (peer: Option<Peer>)
        ensures
            peer == (if self@.contains_key(node_id.id) {
                Some(self@[node_id.id])
            } else {
                None
            }),
    {
        match self.peers.get(&node_id.id) {
            Some(peer) => Some(*peer),
            None => None,
        }
    }
}

impl Default for MembershipView {
    fn default() -> (view: Self)
        ensures
            view@ == Map::<u128, Peer>::empty(),
            view.wf(),
    {
        MembershipView::new()
    }
}

impl Clone for MembershipView {
    fn clone(&self) -> (copy: Self)
        ensures
            copy@ == self@,
    {
        MembershipView { peers: self.peers.clone() }
    }
}

/// What gossip says of a peer.
#[derive(Debug, Clone, Copy, PartialEq, Eq, Structural)]
pub struct MembershipUpdate {
    pub node_id: NodeId,
    pub incarnation: u64,
    pub addr: NodeAddr,
    pub status: Status,
}

/// What gossip says of a peer, with the event it comes from.
#[derive(Debug, Clone, Copy, PartialEq, Eq, Structural)]
pub struct StampedMembershipUpdate {
    pub event_id: HlcEventId,
    pub timestamp: HybridTimestamp,
    pub update: MembershipUpdate,
}

/// A gossip message.
#[derive(Debug, PartialEq, Eq)]
pub struct HlcGossipMessage {
    pub event_id: HlcEventId,
    pub timestamp: HybridTimestamp,
    pub updates: Vec<StampedMembershipUpdate>,
}

} // verus!

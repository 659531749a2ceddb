//! A network inside one process: every frame goes straight to its target's inbox.
//!
//! The inboxes are the caller's. The network says whose inbox a frame goes to, and what
//! a sender is told of how that went.

use std::collections::BTreeMap;
use vstd::prelude::*;

use crate::error::TransportError;
use crate::node::{NodeAddr, NodeId};
use crate::ordered::{ascending_is_u128, ascending_u128, sorted_keys_u128};

verus! {

/// The nodes of a network inside one process, with their addresses.
#[derive(Debug)]
pub struct MockNetwork {
    peers: BTreeMap<u128, NodeAddr>,
}

impl View for MockNetwork {
    type V = Map<u128, NodeAddr>;

    closed spec fn view(&self) -> Map<u128, NodeAddr> {
        self.peers@
    }
}

impl MockNetwork {
    /// A network without nodes.
    pub fn new() -> (network: Self)
        ensures
            network@ == Map::<u128, NodeAddr>::empty(),
    {
        MockNetwork { peers: BTreeMap::new() }
    }

    /// Adds a node, in place of one with the same identifier.
    pub fn add_node(&mut self, node_id: NodeId, addr: NodeAddr) -> (backend: MockBackend)
        ensures
            final(self)@ == old(self)@.insert(node_id.id, addr),
            backend@ == (MockView { node_id, closed: false, subscribed: false }),
    {
        self.peers.insert(node_id.id, addr);
        MockBackend { node_id, closed: false, subscribed: false }
    }
}

impl Default for MockNetwork {
    fn default() -> (network: Self)
        ensures
            network@ == Map::<u128, NodeAddr>::empty(),
    {
        MockNetwork::new()
    }
}

/// A node's access to a network inside one process.
#[derive(Debug)]
pub struct MockBackend {
    node_id: NodeId,
    closed: bool,
    subscribed: bool,
}

/// A node's access to a network inside one process, seen as plain values.
pub struct MockView {
    pub node_id: NodeId,
    pub closed: bool,
    pub subscribed: bool,
}

impl View for MockBackend {
    type V = MockView;

    closed spec fn view(&self) -> MockView {
        MockView { node_id: self.node_id, closed: self.closed, subscribed: self.subscribed }
    }
}

/// The nodes of a network but for one, in increasing order.
pub open spec fn all_but(peers: Map<u128, NodeAddr>, node: NodeId) -> Seq<u128> {
    ascending_u128(peers.dom()).filter(|n: u128| n != node.id)
}

/// How many of the outcomes are good.
pub open spec fn good_outcomes(outcomes: Seq<bool>) -> nat
    decreases outcomes.len(),
{
    if outcomes.len() == 0 {
        0
    } else {
        good_outcomes(outcomes.drop_last()) + (if outcomes.last() {
            1nat
        } else {
            0
        })
    }
}

fn closed_error() -> (error: TransportError)
    ensures
        error matches TransportError::Connection(text) && text@
            == "モックバックエンドはクローズ済みです"@,
{
    TransportError::Connection(String::from_str("モックバックエンドはクローズ済みです"))
}

impl MockBackend {
    /// Whose inbox a frame for `target` goes to.
    pub fn route(&self, network: &MockNetwork, target: NodeId) -> (r: Result<NodeId, TransportError>)
        ensures
            match r {
                Ok(node) => !self@.closed && network@.contains_key(target.id) && node == target,
                Err(TransportError::Connection(text)) => if self@.closed {
                    text@ == "モックバックエンドはクローズ済みです"@
                } else {
                    &&& !network@.contains_key(target.id)
                    &&& text@ == "ターゲットに接続されていません"@
                },
                Err(_) => false,
            },
    {
        if self.closed {
            return Err(closed_error());
        }
        match network.peers.get(&target.id) {
            Some(_) => Ok(target),
            None => Err(
                TransportError::Connection(String::from_str("ターゲットに接続されていません")),
            ),
        }
    }

    /// What a sender is told once the inbox took the frame or was found closed.
    pub fn send_outcome(taken: bool) -> (r: Result<(), TransportError>)
        ensures
            match r {
                Ok(()) => taken,
                Err(TransportError::Send(text)) => !taken && text@ == "送信先が閉じています"@,
                Err(_) => false,
            },
    {
        if taken {
            Ok(())
        } else {
            Err(TransportError::Send(String::from_str("送信先が閉じています")))
        }
    }

    fn others(&self, network: &MockNetwork) -> (nodes: Vec<u128>)
        ensures
            nodes@ == all_but(network@, self@.node_id),
            forall|i: int| 0 <= i < nodes@.len() ==> network@.contains_key(#[trigger] nodes@[i]),
    {
        let all = sorted_keys_u128(&network.peers);
        let ghost keep = |n: u128| n != self.node_id.id;
        proof {
            ascending_is_u128(network@.dom(), all@);
            reveal(Seq::filter);
            assert(all@.take(0).filter(keep) =~= Seq::<u128>::empty());
        }
        let mut nodes: Vec<u128> = Vec::new();
        let mut i: usize = 0;
        while i < all.len()
            invariant
                i <= all@.len(),
                keep == (|n: u128| n != self.node_id.id),
                nodes@ == all@.take(i as int).filter(keep),
                forall|j: int| 0 <= j < nodes@.len() ==> all@.contains(#[trigger] nodes@[j]),
            decreases all@.len() - i,
        {
            proof {
                reveal(Seq::filter);
                assert(all@.take(i + 1).drop_last() =~= all@.take(i as int));
                assert(all@.take(i + 1).last() == all@[i as int]);
            }
            if all[i] != self.node_id.id {
                nodes.push(all[i]);
            }
            i = i + 1;
        }
        assert(all@.take(all@.len() as int) =~= all@);
        nodes
    }

    /// Whose inboxes a frame for everyone goes to.
    pub fn broadcast_targets(&self, network: &MockNetwork) -> (r: Result<Vec<u128>, TransportError>)
        ensures
            match r {
                Ok(nodes) => !self@.closed && nodes@ == all_but(network@, self@.node_id),
                Err(TransportError::Connection(text)) => self@.closed && text@
                    == "モックバックエンドはクローズ済みです"@,
                Err(_) => false,
            },
    {
        if self.closed {
            return Err(closed_error());
        }
        Ok(self.others(network))
    }

    /// How many inboxes took a frame.
    pub fn count_taken(outcomes: &[bool]) -> (taken: usize)
        ensures
            taken == good_outcomes(outcomes@),
    {
        let n: usize = outcomes.len();
        let mut taken: usize = 0;
        let mut i: usize = 0;
        while i < n
            invariant
                i <= n,
                n == outcomes@.len(),
                taken <= i,
                taken == good_outcomes(outcomes@.take(i as int)),
            decreases n - i,
        {
            assert(outcomes@.take(i + 1).drop_last() =~= outcomes@.take(i as int));
            assert(outcomes@.take(i + 1).last() == outcomes@[i as int]);
            if outcomes[i] {
                taken = taken + 1;
            }
            i = i + 1;
        }
        assert(outcomes@.take(n as int) =~= outcomes@);
        taken
    }

    /// Takes the node's inbox. It can be taken once.
    pub fn subscribe(&mut self) -> (r: Result<(), TransportError>)
        ensures
            final(self)@ == (MockView { subscribed: true, ..old(self)@ }),
            match r {
                Ok(()) => !old(self)@.subscribed,
                Err(TransportError::Subscribe(text)) => old(self)@.subscribed && text@
                    == "すでに購読済みです"@,
                Err(_) => false,
            },
    {
        if self.subscribed {
            Err(TransportError::Subscribe(String::from_str("すでに購読済みです")))
        } else {
            self.subscribed = true;
            Ok(())
        }
    }

    /// Takes the node off the network.
    pub fn close(&mut self, network: &mut MockNetwork)
        ensures
            final(self)@ == (MockView { closed: true, ..old(self)@ }),
            final(network)@ == old(network)@.remove(old(self)@.node_id.id),
    {
        self.closed = true;
        network.peers.remove(&self.node_id.id);
    }

    /// The other nodes, with their addresses.
    pub fn connected_peers(&self, network: &MockNetwork) -> (peers: Vec<(NodeId, NodeAddr)>)
        ensures
            peers@.len() == all_but(network@, self@.node_id).len(),
            forall|i: int|
                0 <= i < peers@.len() ==> #[trigger] peers@[i] == (
                    NodeId { id: all_but(network@, self@.node_id)[i] },
                    network@[all_but(network@, self@.node_id)[i]],
                ),
    {
        let nodes = self.others(network);
        let mut peers: Vec<(NodeId, NodeAddr)> = Vec::new();
        let mut i: usize = 0;
        while i < nodes.len()
            invariant
                i <= nodes@.len(),
                peers@.len() == i,
                nodes@ == all_but(network@, self@.node_id),
                forall|j: int| 0 <= j < nodes@.len() ==> network@.contains_key(#[trigger] nodes@[j]),
                forall|j: int|
                    0 <= j < i ==> #[trigger] peers@[j] == (
                        NodeId { id: nodes@[j] },
                        network@[nodes@[j]],
                    ),
            decreases nodes@.len() - i,
        {
            let id: u128 = nodes[i];
            assert(network@.contains_key(nodes@[i as int]));
            if let Some(addr) = network.peers.get(&id) {
                peers.push((NodeId { id }, *addr));
            }
            i = i + 1;
        }
        peers
    }

    /// The loopback address with no port.
    pub fn ephemeral_addr() -> (addr: NodeAddr)
        ensures
            addr == (NodeAddr { ip: 0xffff_7f00_0001, port: 0 }),
    {
        NodeAddr { ip: 0xffff_7f00_0001, port: 0 }
    }
}

proof fn outcomes_are_counted(outcomes: Seq<bool>)
    ensures
        good_outcomes(outcomes) == outcomes.filter(|taken: bool| taken).len(),
    decreases outcomes.len(),
{
    reveal(Seq::filter);
    if outcomes.len() > 0 {
        outcomes_are_counted(outcomes.drop_last());
    }
}

/// A broadcast goes to each node but its sender, and reached as many as took it.
pub proof fn broadcast_goes_to_all_others(
    backend: &MockBackend,
    network: MockNetwork,
    nodes: Vec<u128>,
    outcomes: &[bool],
    taken: usize,
    id: u128,
)
    requires
        call_ensures(MockBackend::broadcast_targets, (backend, &network), Ok(nodes)),
        call_ensures(MockBackend::count_taken, (outcomes,), taken),
        network@.dom().finite(),
    ensures
        nodes@.contains(id) <==> network@.contains_key(id) && id != backend@.node_id.id,
        crate::ordered::increasing_u128(nodes@),
        taken == outcomes@.filter(|taken: bool| taken).len(),
{
    let all = ascending_u128(network@.dom());
    let other = |n: u128| n != backend@.node_id.id;
    crate::ordered::ascending_lists_u128(network@.dom());
    crate::ordered::filter_increases_u128(all, other);
    crate::ordered::filter_holds_u128(all, other, id);
    outcomes_are_counted(outcomes@);
}

/// A frame goes to its target and to no other node, and only while the sender is open and the
/// target is there; what a sender is told is what became of the frame.
pub proof fn frame_goes_to_its_target(
    backend: &MockBackend,
    network: MockNetwork,
    target: NodeId,
    r: Result<NodeId, TransportError>,
    taken: bool,
    told: Result<(), TransportError>,
)
    requires
        call_ensures(MockBackend::route, (backend, &network, target), r),
        call_ensures(MockBackend::send_outcome, (taken,), told),
    ensures
        r is Ok <==> !backend@.closed && network@.contains_key(target.id),
        r matches Ok(node) ==> node == target,
        told is Ok <==> taken,
{
}

/// A node is there from when it is added until it is closed, and other nodes stay as they are.
pub proof fn nodes_come_and_go(
    adding: &mut MockNetwork,
    node: NodeId,
    addr: NodeAddr,
    added: MockBackend,
    backend: &mut MockBackend,
    closing: &mut MockNetwork,
    other: u128,
)
    requires
        call_ensures(MockNetwork::add_node, (adding, node, addr), added),
        call_ensures(MockBackend::close, (backend, closing), ()),
    ensures
        final(adding)@.contains_key(node.id) && final(adding)@[node.id] == addr,
        other != node.id ==> final(adding)@.contains_key(other) == old(adding)@.contains_key(other),
        other != node.id && old(adding)@.contains_key(other) ==> final(adding)@[other]
            == old(adding)@[other],
        added@.node_id == node && !added@.closed && !added@.subscribed,
        final(backend)@.closed,
        final(backend)@.node_id == old(backend)@.node_id,
        !final(closing)@.contains_key(old(backend)@.node_id.id),
        other != old(backend)@.node_id.id ==> final(closing)@.contains_key(other)
            == old(closing)@.contains_key(other),
{
}

/// Messages can be taken in by one only.
pub proof fn only_one_subscribes(backend: &mut MockBackend, r: Result<(), TransportError>)
    requires
        call_ensures(MockBackend::subscribe, (backend,), r),
    ensures
        r is Ok <==> !old(backend)@.subscribed,
        final(backend)@.subscribed,
        final(backend)@.node_id == old(backend)@.node_id,
        final(backend)@.closed == old(backend)@.closed,
{
}

} // verus!

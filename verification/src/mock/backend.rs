//! A node's access to a simulated network.

use vstd::prelude::*;

use crate::error::TransportError;
use crate::mock::network::{
    disconnected, is_current, others, peer_addr, sending_keeps_peers, sent, sent_to_each,
    DeterministicNetwork, LAST_PACKET,
};
use crate::mock::schedule::DirectedLink;
use crate::node::{NodeAddr, NodeId};

verus! {

/// A node's access to a network, as of one of its generations.
#[derive(Debug)]
pub struct DeterministicBackend {
    node_id: NodeId,
    generation: u64,
    closed: bool,
    subscribed: bool,
}

/// A node's access to a network, seen as plain values.
pub struct BackendView {
    pub node_id: NodeId,
    pub generation: u64,
    pub closed: bool,
    pub subscribed: bool,
}

impl View for DeterministicBackend {
    type V = BackendView;

    closed spec fn view(&self) -> BackendView {
        BackendView {
            node_id: self.node_id,
            generation: self.generation,
            closed: self.closed,
            subscribed: self.subscribed,
        }
    }
}

impl DeterministicBackend {
    /// The access of a node that has just connected.
    pub fn new(node_id: NodeId, generation: u64) -> (backend: Self)
        ensures
            backend@ == (BackendView { node_id, generation, closed: false, subscribed: false }),
    {
        DeterministicBackend { node_id, generation, closed: false, subscribed: false }
    }

    /// The generation of the node.
    pub fn generation(&self) -> (generation: u64)
        ensures
            generation == self@.generation,
    {
        self.generation
    }

    /// Sends a frame to a node.
    pub fn send(&self, network: &mut DeterministicNetwork, target: NodeId, frame: &[u8]) -> (r: Result<
        (),
        TransportError,
    >)
        requires
            old(network).wf(),
            old(network)@.next_packet_id <= LAST_PACKET,
        ensures
            final(network).wf(),
            match r {
                Ok(()) => {
                    &&& !self@.closed
                    &&& is_current(old(network)@, self@.node_id, self@.generation)
                    &&& old(network)@.peers.contains_key(target.id)
                    &&& final(network)@ == sent(
                        old(network)@,
                        (DirectedLink { source: self@.node_id, target }),
                        frame@,
                    )
                },
                Err(TransportError::Connection(text)) => {
                    &&& final(network)@ == old(network)@
                    &&& if self@.closed {
                        text@ == "deterministic backend is closed"@
                    } else if !is_current(old(network)@, self@.node_id, self@.generation) {
                        text@ == "deterministic backend registration is stale"@
                    } else {
                        &&& !old(network)@.peers.contains_key(target.id)
                        &&& text@ == "target is not connected"@
                    }
                },
                Err(_) => false,
            },
    {
        if self.closed {
            return Err(
                TransportError::Connection(String::from_str("deterministic backend is closed")),
            );
        }
        network.enqueue(self.node_id, self.generation, target, frame)
    }

    /// Sends a frame to every other node, in the order of their identifiers, and counts
    /// them.
    pub fn broadcast(&self, network: &mut DeterministicNetwork, frame: &[u8]) -> (r: Result<
        usize,
        TransportError,
    >)
        requires
            old(network).wf(),
            old(network)@.next_packet_id + old(network)@.peers.len() <= LAST_PACKET + 1,
        ensures
            final(network).wf(),
            match r {
                Ok(n) => {
                    &&& n == others(old(network)@, self@.node_id).len()
                    &&& n > 0 ==> !self@.closed && is_current(
                        old(network)@,
                        self@.node_id,
                        self@.generation,
                    )
                    &&& final(network)@ == sent_to_each(
                        old(network)@,
                        self@.node_id,
                        others(old(network)@, self@.node_id),
                        frame@,
                    )
                },
                Err(TransportError::Connection(text)) => {
                    &&& others(old(network)@, self@.node_id).len() > 0
                    &&& final(network)@ == old(network)@
                    &&& if self@.closed {
                        text@ == "deterministic backend is closed"@
                    } else {
                        &&& !is_current(old(network)@, self@.node_id, self@.generation)
                        &&& text@ == "deterministic backend registration is stale"@
                    }
                },
                Err(_) => false,
            },
    {
        let targets = network.other_nodes(self.node_id);
        let ghost start = network@;
        let mut i: usize = 0;
        while i < targets.len()
            invariant
                i <= targets@.len(),
                targets@ == others(start, self@.node_id),
                targets@.len() <= start.peers.len(),
                start == old(network)@,
                start.next_packet_id + start.peers.len() <= LAST_PACKET + 1,
                forall|j: int| 0 <= j < targets@.len() ==> start.peers.contains_key(#[trigger] targets@[j]),
                network.wf(),
                network@ == sent_to_each(start, self@.node_id, targets@.take(i as int), frame@),
                network@.next_packet_id == start.next_packet_id + i,
                network@.peers == start.peers,
                i > 0 ==> !self@.closed && is_current(start, self@.node_id, self@.generation),
            decreases targets@.len() - i,
        {
            let ghost before = network@;
            proof {
                assert(targets@.take(i + 1).drop_last() =~= targets@.take(i as int));
                assert(targets@.take(i + 1).last() == targets@[i as int]);
                assert(start.peers.contains_key(targets@[i as int]));
                if i == 0 {
                    assert(before == start);
                }
            }
            match self.send(network, NodeId { id: targets[i] }, frame) {
                Ok(()) => {},
                Err(error) => {
                    return Err(error);
                },
            }
            proof {
                sending_keeps_peers(
                    before,
                    (DirectedLink { source: self.node_id, target: NodeId { id: targets@[i as int] } }),
                    frame@,
                );
            }
            i = i + 1;
        }
        assert(targets@.take(targets@.len() as int) =~= targets@);
        Ok(targets.len())
    }

    /// Takes the node's inbox. It can be taken once.
    pub fn subscribe(&mut self) -> (r: Result<(), TransportError>)
        ensures
            final(self)@ == (BackendView { subscribed: true, ..old(self)@ }),
            match r {
                Ok(()) => !old(self)@.subscribed,
                Err(TransportError::Subscribe(text)) => old(self)@.subscribed && text@
                    == "already subscribed"@,
                Err(_) => false,
            },
    {
        if self.subscribed {
            Err(TransportError::Subscribe(String::from_str("already subscribed")))
        } else {
            self.subscribed = true;
            Ok(())
        }
    }

    /// Disconnects the node, unless it has connected anew since.
    pub fn close(&mut self, network: &mut DeterministicNetwork)
        requires
            old(network).wf(),
        ensures
            final(network).wf(),
            final(self)@ == (BackendView { closed: true, ..old(self)@ }),
            final(network)@ == disconnected(old(network)@, old(self)@.node_id, old(self)@.generation),
    {
        self.closed = true;
        network.remove_node(self.node_id, self.generation);
    }

    /// The other nodes that are connected, with their addresses.
    pub fn connected_peers(&self, network: &DeterministicNetwork) -> (peers: Vec<(NodeId, NodeAddr)>)
        ensures
            peers@.len() == others(network@, self@.node_id).len(),
            forall|i: int|
                0 <= i < peers@.len() ==> #[trigger] peers@[i] == (
                    NodeId { id: others(network@, self@.node_id)[i] },
                    peer_addr(network@.peers[others(network@, self@.node_id)[i]]),
                ),
    {
        network.peers_of(self.node_id)
    }
}

/// A frame is sent exactly while its sender is open, registered and current, and its target is
/// there; else nothing happens in the network.
pub proof fn frame_is_sent_while_both_ends_are_there(
    backend: &DeterministicBackend,
    network: &mut DeterministicNetwork,
    target: NodeId,
    frame: &[u8],
    r: Result<(), TransportError>,
)
    requires
        old(network).wf(),
        old(network)@.next_packet_id <= LAST_PACKET,
        call_ensures(DeterministicBackend::send, (backend, network, target, frame), r),
    ensures
        r is Ok <==> !backend@.closed && is_current(
            old(network)@,
            backend@.node_id,
            backend@.generation,
        ) && old(network)@.peers.contains_key(target.id),
        r is Ok ==> final(network)@ == sent(
            old(network)@,
            (DirectedLink { source: backend@.node_id, target }),
            frame@,
        ),
        r is Err ==> final(network)@ == old(network)@,
{
}

/// A node that closes is closed for good, and leaves the network under its own registration; a
/// new one is open, and messages can be taken in by one only.
pub proof fn closing_leaves_the_network(
    node: NodeId,
    generation: u64,
    fresh: DeterministicBackend,
    backend: &mut DeterministicBackend,
    network: &mut DeterministicNetwork,
    subscriber: &mut DeterministicBackend,
    r: Result<(), TransportError>,
)
    requires
        call_ensures(DeterministicBackend::new, (node, generation), fresh),
        old(network).wf(),
        call_ensures(DeterministicBackend::close, (backend, network), ()),
        call_ensures(DeterministicBackend::subscribe, (subscriber,), r),
    ensures
        fresh@.node_id == node,
        fresh@.generation == generation,
        !fresh@.closed,
        !fresh@.subscribed,
        final(backend)@.closed,
        final(backend)@.node_id == old(backend)@.node_id,
        final(backend)@.generation == old(backend)@.generation,
        final(network)@ == disconnected(
            old(network)@,
            old(backend)@.node_id,
            old(backend)@.generation,
        ),
        r is Ok <==> !old(subscriber)@.subscribed,
        final(subscriber)@.subscribed,
        final(subscriber)@.closed == old(subscriber)@.closed,
{
}

/// A broadcast counts the other nodes, reaches each of them, and is refused only where there are
/// any; the peers that are told of are just those nodes.
pub proof fn broadcast_counts_the_others(
    backend: &DeterministicBackend,
    network: &mut DeterministicNetwork,
    frame: &[u8],
    r: Result<usize, TransportError>,
    shown: DeterministicNetwork,
    peers: Vec<(NodeId, NodeAddr)>,
    i: int,
)
    requires
        old(network).wf(),
        old(network)@.next_packet_id + old(network)@.peers.len() <= LAST_PACKET + 1,
        call_ensures(DeterministicBackend::broadcast, (backend, network, frame), r),
        call_ensures(DeterministicBackend::connected_peers, (backend, &shown), peers),
    ensures
        r matches Ok(n) ==> n == others(old(network)@, backend@.node_id).len(),
        others(old(network)@, backend@.node_id).len() == 0 ==> r == Ok::<usize, TransportError>(0),
        others(old(network)@, backend@.node_id).len() > 0 ==> (r is Ok <==> !backend@.closed
            && is_current(old(network)@, backend@.node_id, backend@.generation)),
        r is Err ==> final(network)@ == old(network)@,
        peers@.len() == others(shown@, backend@.node_id).len(),
        0 <= i < peers@.len() ==> peers@[i].0.id == others(shown@, backend@.node_id)[i],
{
}

} // verus!

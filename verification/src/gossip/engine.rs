//! The membership protocol of one node.
//!
//! The engine keeps the state and says what to send; the caller sends it and reports
//! back. Every operation takes the readings of the clocks: `now` of the monotonic
//! clock, `wall` of the wall clock in milliseconds.

use std::collections::{BTreeMap, BTreeSet};
use vstd::prelude::*;

use crate::clock::{Duration, Instant};
use crate::gossip::hlc::{merged, skew_limit, skew_millis, ticked, HlcError, LocalHlc};
use crate::gossip::types::{fresh_state, keyed_by_node, HlcEventId, HlcGossipMessage, MembershipUpdate, MembershipView,
    Peer, PeerState, StampedMembershipUpdate, Status};
use crate::gossip::util::{all_timed_out, calculate_fanout, check_timeouts, fanout, is_ceil_sqrt, lists_changes,
    StatusChange};
use crate::node::{NodeAddr, NodeId};
use crate::ordered::{ascending_is_u128, ascending_is_u64, ascending_u128, ascending_u64, increasing_u128,
    increasing_u64, sorted_keys_u128, sorted_keys_u64};
use crate::time::HybridTimestamp;

verus! {

/// Settings of the protocol.
#[derive(Debug, Clone, Copy)]
pub struct GossipConfig {
    pub ping_timeout: Duration,
    pub indirect_ping_timeout: Duration,
    pub suspect_to_dead_timeout: Duration,
    pub gossip_interval: Duration,
    pub fanout: Option<usize>,
}

/// Counters of the protocol. They wrap around.
#[derive(Debug, Clone, Copy, PartialEq, Eq, Structural)]
pub struct GossipMetricsSnapshot {
    pub sent: u64,
    pub received: u64,
    pub status_events: u64,
}

impl Default for GossipMetricsSnapshot {
    fn default() -> (m: Self)
        ensures
            m == (GossipMetricsSnapshot { sent: 0, received: 0, status_events: 0 }),
    {
        GossipMetricsSnapshot { sent: 0, received: 0, status_events: 0 }
    }
}

/// Why sending failed.
#[derive(Debug, PartialEq, Eq)]
pub enum TransportError {
    Connection(String),
    Send(String),
    Subscribe(String),
    Io(String),
}

/// Why an operation of the protocol failed.
#[derive(Debug, PartialEq, Eq)]
pub enum GossipError {
    Transport(TransportError),
    Hlc(HlcError),
    InvalidHlcEnvelope(String),
}

impl TransportError {
    /// The text of this error.
    pub open spec fn message_text(self) -> Seq<char> {
        match self {
            TransportError::Connection(why) => "connection: "@ + why@,
            TransportError::Send(why) => "send: "@ + why@,
            TransportError::Subscribe(why) => "subscribe: "@ + why@,
            TransportError::Io(why) => "io: "@ + why@,
        }
    }

    /// The text of this error.
    pub fn message(&self) -> (text: String)
        ensures
            text@ == self.message_text(),
    {
        match self {
            TransportError::Connection(why) => String::from_str("connection: ").concat(
                why.as_str(),
            ),
            TransportError::Send(why) => String::from_str("send: ").concat(why.as_str()),
            TransportError::Subscribe(why) => String::from_str("subscribe: ").concat(why.as_str()),
            TransportError::Io(why) => String::from_str("io: ").concat(why.as_str()),
        }
    }
}

impl GossipError {
    /// The text of this error.
    pub open spec fn message_text(self) -> Seq<char> {
        match self {
            GossipError::Transport(error) => "transport: "@ + error.message_text(),
            GossipError::Hlc(error) => "hlc: "@ + error.message_text(),
            GossipError::InvalidHlcEnvelope(why) => "invalid HLC gossip envelope: "@ + why@,
        }
    }

    /// The text of this error.
    pub fn message(&self) -> (text: String)
        ensures
            text@ == self.message_text(),
    {
        match self {
            GossipError::Transport(error) => String::from_str("transport: ").concat(
                error.message().as_str(),
            ),
            GossipError::Hlc(error) => String::from_str("hlc: ").concat(error.message().as_str()),
            GossipError::InvalidHlcEnvelope(why) => String::from_str(
                "invalid HLC gossip envelope: ",
            ).concat(why.as_str()),
        }
    }
}

/// How far a ping has got.
#[derive(Debug, Clone, Copy, PartialEq, Eq, Structural)]
pub enum PingStage {
    Direct { sent_at: Instant },
    Indirect { requested_at: Instant },
}

/// A ping that was not answered yet.
#[derive(Debug, Clone, Copy, PartialEq, Eq, Structural)]
pub struct PendingPing {
    pub target: NodeId,
    pub stage: PingStage,
}

/// A message of the protocol.
#[derive(Debug, PartialEq, Eq)]
pub enum Frame {
    Ping { seq: u64, from: NodeId },
    Ack { seq: u64, from: NodeId },
    PingReq { seq: u64, from: NodeId, target: NodeId },
    HlcGossip(HlcGossipMessage),
}

/// A message and its addressee.
#[derive(Debug, PartialEq, Eq)]
pub struct Outgoing {
    pub target: NodeId,
    pub frame: Frame,
}

/// The state of the protocol.
#[verifier::ext_equal]
pub struct EngineModel {
    pub node_id: NodeId,
    pub config: GossipConfig,
    pub peers: Map<u128, Peer>,
    pub pending: Map<u64, PendingPing>,
    pub seq: u64,
    pub metrics: GossipMetricsSnapshot,
    pub clock: HybridTimestamp,
    pub skew: Duration,
    pub event_sequence: u64,
    /// The messages that were taken in, by source and sequence.
    pub seen_messages: Set<(u128, u64)>,
    /// The membership events that were taken in, by source and sequence.
    pub seen_events: Set<(u128, u64)>,
    /// The latest timestamp seen for each node.
    pub latest: Map<u128, HybridTimestamp>,
}

/// The next value of a counter that wraps around.
pub open spec fn wrap_inc(x: u64) -> u64 {
    if x == u64::MAX {
        0
    } else {
        (x + 1) as u64
    }
}

/// The next sequence number of an event, which is never zero.
pub open spec fn next_sequence(x: u64) -> u64 {
    if x == u64::MAX {
        1
    } else {
        (x + 1) as u64
    }
}

/// How much a status outweighs another at the same incarnation.
pub open spec fn rank(status: Status) -> nat {
    match status {
        Status::Alive => 0,
        Status::Suspect => 1,
        Status::Dead => 2,
    }
}

/// The state with one more event: the clock moves, and where `id` is a peer it gets the
/// new event as its own.
pub open spec fn stamped(m: EngineModel, id: u128, wall: u64) -> EngineModel {
    let t = ticked(m.clock, wall);
    let sequence = next_sequence(m.event_sequence);
    let m1 = EngineModel { clock: t, event_sequence: sequence, ..m };
    if m.peers.contains_key(id) {
        let peer = m.peers[id];
        let event_id = HlcEventId { source: m.node_id, sequence };
        EngineModel {
            peers: m.peers.insert(
                id,
                Peer {
                    state: PeerState {
                        timestamp: Some(t),
                        event_id: Some(event_id),
                        ..peer.state
                    },
                    ..peer
                },
            ),
            latest: m.latest.insert(id, t),
            ..m1
        }
    } else {
        m1
    }
}

/// The state with an event for each of `ids`, one after the other.
pub open spec fn all_stamped(m: EngineModel, ids: Seq<u128>, wall: u64) -> EngineModel
    decreases ids.len(),
{
    if ids.len() == 0 {
        m
    } else {
        stamped(all_stamped(m, ids.drop_last(), wall), ids.last(), wall)
    }
}

/// The state after hearing from `node` directly.
pub open spec fn touched(
    m: EngineModel,
    node: NodeId,
    addr: NodeAddr,
    status: Status,
    now: Instant,
    wall: u64,
) -> EngineModel {
    let known = m.peers.contains_key(node.id);
    let state = if known {
        m.peers[node.id].state
    } else {
        fresh_state(0, status, now)
    };
    let peer = Peer {
        node_id: if known {
            m.peers[node.id].node_id
        } else {
            node
        },
        addr,
        state: PeerState { status, last_seen: now, ..state },
    };
    let m1 = EngineModel { peers: m.peers.insert(node.id, peer), ..m };
    if known && m.peers[node.id].state.status == status {
        m1
    } else {
        stamped(m1, node.id, wall)
    }
}

/// The state with one more received message.
pub open spec fn received(m: EngineModel) -> EngineModel {
    EngineModel {
        metrics: GossipMetricsSnapshot { received: wrap_inc(m.metrics.received), ..m.metrics },
        ..m
    }
}

/// The state with one more change of status.
pub open spec fn status_event(m: EngineModel) -> EngineModel {
    EngineModel {
        metrics: GossipMetricsSnapshot {
            status_events: wrap_inc(m.metrics.status_events),
            ..m.metrics
        },
        ..m
    }
}

/// The state with `n` more changes of status.
pub open spec fn status_events(m: EngineModel, n: nat) -> EngineModel
    decreases n,
{
    if n == 0 {
        m
    } else {
        status_event(status_events(m, (n - 1) as nat))
    }
}

/// The state after an acknowledgement. One from a dead peer is ignored.
pub open spec fn acknowledged(
    m: EngineModel,
    from: NodeId,
    seq: u64,
    addr: NodeAddr,
    now: Instant,
    wall: u64,
) -> EngineModel {
    let m0 = received(m);
    if m.peers.contains_key(from.id) && m.peers[from.id].state.status == Status::Dead {
        m0
    } else {
        let m1 = if m.peers.contains_key(from.id) {
            let peer = m.peers[from.id];
            let alive = EngineModel {
                peers: m0.peers.insert(
                    from.id,
                    Peer {
                        state: PeerState {
                            status: Status::Alive,
                            last_seen: now,
                            suspect_since: None,
                            ..peer.state
                        },
                        ..peer
                    },
                ),
                ..m0
            };
            if peer.state.status != Status::Alive {
                stamped(alive, from.id, wall)
            } else {
                alive
            }
        } else {
            touched(m0, from, addr, Status::Alive, now, wall)
        };
        EngineModel { pending: m1.pending.remove(seq), ..m1 }
    }
}

/// Whether an update of a known peer counts: a newer incarnation does, and at the same
/// incarnation only a stronger status does.
pub open spec fn supersedes(update: MembershipUpdate, state: PeerState) -> bool {
    update.incarnation > state.incarnation || (update.incarnation == state.incarnation && rank(
        update.status,
    ) > rank(state.status))
}

/// Whether an update changes the state.
pub open spec fn update_counts(m: EngineModel, update: MembershipUpdate) -> bool {
    !m.peers.contains_key(update.node_id.id) || supersedes(
        update,
        m.peers[update.node_id.id].state,
    )
}

/// When a peer of the given status came under suspicion.
pub open spec fn suspicion(status: Status, now: Instant) -> Option<Instant> {
    if status == Status::Suspect {
        Some(now)
    } else {
        None
    }
}

/// The state after an update, before it is stamped.
pub open spec fn updated(m: EngineModel, update: MembershipUpdate, now: Instant) -> EngineModel {
    let id = update.node_id.id;
    if !update_counts(m, update) {
        m
    } else if !m.peers.contains_key(id) {
        let state = PeerState {
            suspect_since: suspicion(update.status, now),
            ..fresh_state(update.incarnation, update.status, now)
        };
        EngineModel {
            peers: m.peers.insert(
                id,
                Peer { node_id: update.node_id, addr: update.addr, state },
            ),
            ..m
        }
    } else {
        let peer = m.peers[id];
        let newer = update.incarnation > peer.state.incarnation;
        let state = PeerState {
            incarnation: update.incarnation,
            last_seen: if newer {
                now
            } else {
                peer.state.last_seen
            },
            status: update.status,
            suspect_since: suspicion(update.status, now),
            ..peer.state
        };
        let m1 = EngineModel {
            peers: m.peers.insert(id, Peer { addr: update.addr, state, ..peer }),
            ..m
        };
        if peer.state.status != update.status {
            status_event(m1)
        } else {
            m1
        }
    }
}

/// The state after unstamped updates, each of which gets an event of this node where it
/// counts.
pub open spec fn all_updated(m: EngineModel, updates: Seq<MembershipUpdate>, now: Instant, wall: u64) -> EngineModel
    decreases updates.len(),
{
    if updates.len() == 0 {
        m
    } else {
        let before = all_updated(m, updates.drop_last(), now, wall);
        let update = updates.last();
        let after = updated(before, update, now);
        if update_counts(before, update) {
            stamped(after, update.node_id.id, wall)
        } else {
            after
        }
    }
}

/// The key under which an event is remembered.
pub open spec fn event_key(id: HlcEventId) -> (u128, u64) {
    (id.source.id, id.sequence)
}

/// Whether a stamped update is news: its event was not seen, and it is later than all
/// that was seen of its node.
pub open spec fn is_news(m: EngineModel, event: StampedMembershipUpdate) -> bool {
    !m.seen_events.contains(event_key(event.event_id)) && !(m.latest.contains_key(
        event.update.node_id.id,
    ) && !m.latest[event.update.node_id.id].before(event.timestamp))
}

/// The state after one stamped update, and whether the update was applied.
pub open spec fn event_applied(m: EngineModel, event: StampedMembershipUpdate, now: Instant) -> (
    EngineModel,
    bool,
) {
    let id = event.update.node_id.id;
    let m1 = EngineModel { seen_events: m.seen_events.insert(event_key(event.event_id)), ..m };
    if !is_news(m, event) {
        (m1, false)
    } else {
        let m2 = EngineModel { latest: m1.latest.insert(id, event.timestamp), ..m1 };
        if !update_counts(m2, event.update) {
            (m2, false)
        } else {
            let m3 = updated(m2, event.update, now);
            let peer = m3.peers[id];
            let state = PeerState {
                event_id: Some(event.event_id),
                timestamp: Some(event.timestamp),
                ..peer.state
            };
            (EngineModel { peers: m3.peers.insert(id, Peer { state, ..peer }), ..m3 }, true)
        }
    }
}

/// The state after stamped updates, and how many were applied.
pub open spec fn events_applied(
    m: EngineModel,
    events: Seq<StampedMembershipUpdate>,
    now: Instant,
) -> (EngineModel, nat)
    decreases events.len(),
{
    if events.len() == 0 {
        (m, 0)
    } else {
        let (before, count) = events_applied(m, events.drop_last(), now);
        let (after, applied) = event_applied(before, events.last(), now);
        (
            after,
            if applied {
                count + 1
            } else {
                count
            },
        )
    }
}

/// Whether no update of a message is later than the message itself.
pub open spec fn envelope_is_sound(message: HlcGossipMessage) -> bool {
    forall|i: int|
        0 <= i < message.updates@.len() ==> !message.timestamp.before(
            (#[trigger] message.updates@[i]).timestamp,
        )
}

/// The text with which an unsound message is refused.
pub open spec fn unsound_envelope() -> Seq<char> {
    "membership timestamp exceeds envelope timestamp"@
}

/// The state after a message of stamped updates, and how many were applied. A message
/// that was seen before moves the clock and nothing else.
pub open spec fn gossip_applied(m: EngineModel, message: HlcGossipMessage, now: Instant, wall: u64) -> (
    EngineModel,
    nat,
) {
    let m1 = EngineModel { clock: merged(m.clock, message.timestamp, wall), ..m };
    let m2 = EngineModel {
        seen_messages: m.seen_messages.insert(event_key(message.event_id)),
        ..m1
    };
    if m.seen_messages.contains(event_key(message.event_id)) {
        (m2, 0)
    } else {
        events_applied(m2, message.updates@, now)
    }
}

/// Whether a direct ping has waited its time.
pub open spec fn overdue(ping: PendingPing, config: GossipConfig, now: Instant) -> bool {
    ping.stage matches PingStage::Direct { sent_at } && now.since(sent_at)
        >= config.ping_timeout.nanos
}

/// Whether an indirect ping has waited its time.
pub open spec fn lapsed(ping: PendingPing, config: GossipConfig, now: Instant) -> bool {
    ping.stage matches PingStage::Indirect { requested_at } && now.since(requested_at)
        >= config.indirect_ping_timeout.nanos
}

/// The pings that are overdue, by increasing sequence number.
pub open spec fn overdue_pings(m: EngineModel, now: Instant) -> Seq<u64> {
    ascending_u64(
        Set::new(|k: u64| m.pending.contains_key(k) && overdue(m.pending[k], m.config, now)),
    )
}

/// The pings that lapsed, by increasing sequence number.
pub open spec fn lapsed_pings(m: EngineModel, now: Instant) -> Seq<u64> {
    ascending_u64(
        Set::new(|k: u64| m.pending.contains_key(k) && lapsed(m.pending[k], m.config, now)),
    )
}

/// The pings after the overdue ones became indirect and the lapsed ones were given up.
pub open spec fn pending_after(m: EngineModel, now: Instant) -> Map<u64, PendingPing> {
    Map::new(
        |k: u64| m.pending.contains_key(k) && !lapsed(m.pending[k], m.config, now),
        |k: u64|
            if overdue(m.pending[k], m.config, now) {
                PendingPing {
                    target: m.pending[k].target,
                    stage: PingStage::Indirect { requested_at: now },
                }
            } else {
                m.pending[k]
            },
    )
}

/// The state after `target` did not answer, and the change of status, where there is
/// one: a live peer is suspected.
pub open spec fn suspected(m: EngineModel, target: NodeId, now: Instant, wall: u64) -> (
    EngineModel,
    Seq<StatusChange>,
) {
    if m.peers.contains_key(target.id) && m.peers[target.id].state.status == Status::Alive {
        let peer = m.peers[target.id];
        let state = PeerState { status: Status::Suspect, suspect_since: Some(now), ..peer.state };
        (
            stamped(
                EngineModel { peers: m.peers.insert(target.id, Peer { state, ..peer }), ..m },
                target.id,
                wall,
            ),
            seq![
                StatusChange {
                    node_id: target,
                    from: Status::Alive,
                    to: Status::Suspect,
                    incarnation: peer.state.incarnation,
                },
            ],
        )
    } else {
        (m, Seq::empty())
    }
}

/// The state after the targets of `pings` did not answer, one after the other, and the
/// changes of status.
pub open spec fn all_suspected(
    m: EngineModel,
    pings: Seq<u64>,
    pending: Map<u64, PendingPing>,
    now: Instant,
    wall: u64,
) -> (EngineModel, Seq<StatusChange>)
    decreases pings.len(),
{
    if pings.len() == 0 {
        (m, Seq::empty())
    } else {
        let (before, changes) = all_suspected(m, pings.drop_last(), pending, now, wall);
        let (after, change) = suspected(before, pending[pings.last()].target, now, wall);
        (after, changes + change)
    }
}

/// The nodes whose status changed.
pub open spec fn changed_nodes(changes: Seq<StatusChange>) -> Seq<u128> {
    changes.map_values(|c: StatusChange| c.node_id.id)
}

/// The peers that may be asked something: those that are not dead, without `except`.
pub open spec fn live_peers(peers: Map<u128, Peer>, except: Option<NodeId>) -> Set<u128> {
    Set::new(
        |k: u128|
            peers.contains_key(k) && peers[k].state.status != Status::Dead && except != Some(
                NodeId { id: k },
            ),
    )
}

/// Whether some ping to `target` is not answered yet.
pub open spec fn awaits(m: EngineModel, target: NodeId) -> bool {
    exists|k: u64| #[trigger] m.pending.contains_key(k) && m.pending[k].target == target
}

/// The peers without an event of their own.
pub open spec fn unstamped(peers: Map<u128, Peer>) -> Seq<u128> {
    ascending_u128(
        Set::new(|k: u128| peers.contains_key(k) && peers[k].state.timestamp is None),
    )
}

/// What gossip says of a peer that has an event.
pub open spec fn stamped_update(peer: Peer) -> StampedMembershipUpdate {
    StampedMembershipUpdate {
        event_id: peer.state.event_id->0,
        timestamp: peer.state.timestamp->0,
        update: MembershipUpdate {
            node_id: peer.node_id,
            incarnation: peer.state.incarnation,
            addr: peer.addr,
            status: peer.state.status,
        },
    }
}

/// What gossip says of all peers, by increasing node.
pub open spec fn gossip_updates(peers: Map<u128, Peer>) -> Seq<StampedMembershipUpdate> {
    ascending_u128(peers.dom()).map_values(|k: u128| stamped_update(peers[k]))
}

/// The state after a ping went out: it is pending, and every peer has an event.
pub open spec fn pinged(m: EngineModel, seq: u64, target: NodeId, now: Instant, wall: u64) -> EngineModel {
    let m1 = EngineModel {
        pending: m.pending.insert(
            seq,
            PendingPing { target, stage: PingStage::Direct { sent_at: now } },
        ),
        ..m
    };
    all_stamped(m1, unstamped(m1.peers), wall)
}

/// Whether every peer with a timestamp has the event it belongs to.
pub open spec fn stamps_have_events(peers: Map<u128, Peer>) -> bool {
    forall|k: u128| #[trigger]
        peers.contains_key(k) && peers[k].state.timestamp is Some ==> peers[k].state.event_id is Some
}

proof fn grow_selection(keys: Seq<u64>, i: int, before: Seq<u64>, after: Seq<u64>, picks: spec_fn(u64) -> bool)
    requires
        0 <= i < keys.len(),
        increasing_u64(keys),
        increasing_u64(before),
        forall|k: u64| #[trigger] before.contains(k) <==> keys.take(i).contains(k) && picks(k),
        after == (if picks(keys[i]) {
            before.push(keys[i])
        } else {
            before
        }),
    ensures
        increasing_u64(after),
        forall|k: u64| #[trigger] after.contains(k) <==> keys.take(i + 1).contains(k) && picks(k),
{
    let shorter = keys.take(i);
    let longer = keys.take(i + 1);
    assert forall|k: u64| #[trigger] longer.contains(k) <==> (shorter.contains(k) || k == keys[i]) by {
        if longer.contains(k) {
            let j = choose|j: int| 0 <= j < longer.len() && longer[j] == k;
            if j < i {
                assert(shorter[j] == k);
            }
        }
        if shorter.contains(k) {
            let j = choose|j: int| 0 <= j < shorter.len() && shorter[j] == k;
            assert(longer[j] == k);
        }
        if k == keys[i] {
            assert(longer[i] == k);
        }
    }
    assert forall|a: int| 0 <= a < before.len() implies before[a] < keys[i] by {
        assert(before.contains(before[a]));
        let j = choose|j: int| 0 <= j < shorter.len() && shorter[j] == before[a];
        assert(shorter.contains(before[a]));
        assert(keys[j] == before[a]);
    }
    assert forall|k: u64| #[trigger] after.contains(k) <==> longer.contains(k) && picks(k) by {
        if after.contains(k) {
            let a = choose|a: int| 0 <= a < after.len() && after[a] == k;
            if a < before.len() {
                assert(before[a] == k);
                assert(before.contains(k));
            }
        }
        if before.contains(k) {
            let a = choose|a: int| 0 <= a < before.len() && before[a] == k;
            assert(after[a] == k);
        }
        if k == keys[i] && picks(k) {
            assert(after[after.len() - 1] == k);
        }
    }
}

proof fn grow_selection_u128(
    keys: Seq<u128>,
    i: int,
    before: Seq<u128>,
    after: Seq<u128>,
    picks: spec_fn(u128) -> bool,
)
    requires
        0 <= i < keys.len(),
        increasing_u128(keys),
        increasing_u128(before),
        forall|k: u128| #[trigger] before.contains(k) <==> keys.take(i).contains(k) && picks(k),
        after == (if picks(keys[i]) {
            before.push(keys[i])
        } else {
            before
        }),
    ensures
        increasing_u128(after),
        forall|k: u128| #[trigger] after.contains(k) <==> keys.take(i + 1).contains(k) && picks(k),
{
    let shorter = keys.take(i);
    let longer = keys.take(i + 1);
    assert forall|k: u128| #[trigger] longer.contains(k) <==> (shorter.contains(k) || k == keys[i]) by {
        if longer.contains(k) {
            let j = choose|j: int| 0 <= j < longer.len() && longer[j] == k;
            if j < i {
                assert(shorter[j] == k);
            }
        }
        if shorter.contains(k) {
            let j = choose|j: int| 0 <= j < shorter.len() && shorter[j] == k;
            assert(longer[j] == k);
        }
        if k == keys[i] {
            assert(longer[i] == k);
        }
    }
    assert forall|a: int| 0 <= a < before.len() implies before[a] < keys[i] by {
        assert(before.contains(before[a]));
        let j = choose|j: int| 0 <= j < shorter.len() && shorter[j] == before[a];
        assert(shorter.contains(before[a]));
        assert(keys[j] == before[a]);
    }
    assert forall|k: u128| #[trigger] after.contains(k) <==> longer.contains(k) && picks(k) by {
        if after.contains(k) {
            let a = choose|a: int| 0 <= a < after.len() && after[a] == k;
            if a < before.len() {
                assert(before[a] == k);
                assert(before.contains(k));
            }
        }
        if before.contains(k) {
            let a = choose|a: int| 0 <= a < before.len() && before[a] == k;
            assert(after[a] == k);
        }
        if k == keys[i] && picks(k) {
            assert(after[after.len() - 1] == k);
        }
    }
}

/// Whether `ids` is a choice among `candidates` for the configured fan-out: members of
/// `candidates`, none twice, as many as the fan-out of that many nodes and this one.
pub open spec fn chosen(ids: Seq<u128>, candidates: Set<u128>, configured: Option<usize>) -> bool {
    &&& ids.no_duplicates()
    &&& forall|i: int| 0 <= i < ids.len() ==> candidates.contains(#[trigger] ids[i])
    &&& forall|root: nat|
        is_ceil_sqrt(candidates.len() + 1, root) && candidates.len() < usize::MAX ==> ids.len()
            == #[trigger] fanout(candidates.len() + 1, configured, root)
}

/// Calls `choose_multiple` of `rand::seq::IteratorRandom` with the generator of
/// `rand::thread_rng`. The claim is that `amount` of the candidates come back, each no
/// more often than it was handed in; which ones is left to chance.
#[verifier::external_body]
fn choose_multiple(candidates: Vec<u128>, amount: usize) -> (ids: Vec<u128>)
    requires
        amount <= candidates@.len(),
    ensures
        ids@.len() == amount,
        ids@.to_multiset().subset_of(candidates@.to_multiset()),
{
    rand::seq::IteratorRandom::choose_multiple(
        candidates.into_iter(),
        &mut rand::thread_rng(),
        amount,
    )
}

proof fn picked_are_chosen(
    all: Seq<u128>,
    ids: Seq<u128>,
    candidates: Set<u128>,
    configured: Option<usize>,
    amount: nat,
)
    requires
        increasing_u128(all),
        forall|k: u128| #[trigger] all.contains(k) <==> candidates.contains(k),
        ids.len() == amount,
        ids.to_multiset().subset_of(all.to_multiset()),
        forall|root: nat|
            is_ceil_sqrt(all.len() + 1, root) ==> amount == #[trigger] fanout(
                all.len() + 1,
                configured,
                root,
            ),
    ensures
        chosen(ids, candidates, configured),
{
    broadcast use vstd::seq_lib::group_to_multiset_ensures;

    assert(all.no_duplicates());
    all.lemma_multiset_has_no_duplicates();
    assert forall|i: int| 0 <= i < ids.len() implies candidates.contains(#[trigger] ids[i]) by {
        assert(ids.contains(ids[i]));
        assert(ids.to_multiset().count(ids[i]) > 0);
        assert(all.to_multiset().count(ids[i]) > 0);
        assert(all.contains(ids[i]));
    }
    assert forall|k: u128| ids.to_multiset().contains(k) implies ids.to_multiset().count(k) == 1 by {
        assert(ids.to_multiset().count(k) <= all.to_multiset().count(k));
        assert(all.to_multiset().contains(k));
    }
    ids.lemma_multiset_has_no_duplicates_conv();
    members_count(all, candidates);
}

proof fn members_count(all: Seq<u128>, members: Set<u128>)
    requires
        increasing_u128(all),
        forall|k: u128| #[trigger] all.contains(k) <==> members.contains(k),
    ensures
        members.len() == all.len(),
{
    assert(all.to_set() =~= members) by {
        assert forall|k: u128| all.to_set().contains(k) <==> members.contains(k) by {
            assert(all.contains(k) <==> members.contains(k));
        }
    }
    all.unique_seq_to_set();
}

/// Whether no event of a peer is later than the clock.
pub open spec fn covered(peers: Map<u128, Peer>, clock: HybridTimestamp) -> bool {
    forall|k: u128| #[trigger]
        peers.contains_key(k) ==> (peers[k].state.timestamp matches Some(t) ==> !clock.before(t))
}

/// What every operation keeps where it held before: every peer is kept under its own
/// identifier, a timestamp comes with its event, and no event is later than the clock.
pub open spec fn keeps_order(before: EngineModel, after: EngineModel) -> bool {
    &&& keyed_by_node(before.peers) ==> keyed_by_node(after.peers)
    &&& stamps_have_events(before.peers) ==> stamps_have_events(after.peers)
    &&& covered(before.peers, before.clock) ==> covered(after.peers, after.clock)
}

/// The membership protocol of one node.
#[derive(Debug)]
pub struct GossipEngine {
    node_id: NodeId,
    config: GossipConfig,
    membership: MembershipView,
    pending: BTreeMap<u64, PendingPing>,
    seq: u64,
    metrics: GossipMetricsSnapshot,
    hlc: LocalHlc,
    event_sequence: u64,
    seen_messages: BTreeSet<(u128, u64)>,
    seen_events: BTreeSet<(u128, u64)>,
    latest: BTreeMap<u128, HybridTimestamp>,
}

impl View for GossipEngine {
    type V = EngineModel;

    closed spec fn view(&self) -> EngineModel {
        EngineModel {
            node_id: self.node_id,
            config: self.config,
            peers: self.membership@,
            pending: self.pending@,
            seq: self.seq,
            metrics: self.metrics,
            clock: self.hlc.now(),
            skew: self.hlc.skew(),
            event_sequence: self.event_sequence,
            seen_messages: self.seen_messages@,
            seen_events: self.seen_events@,
            latest: self.latest@,
        }
    }
}

fn increment(x: u64) -> (y: u64)
    ensures
        y == wrap_inc(x),
{
    if x == u64::MAX {
        0
    } else {
        x + 1
    }
}

/// How much a status outweighs another at the same incarnation.
pub fn status_rank(status: &Status) -> (r: u8)
    ensures
        r == rank(*status),
{
    match status {
        Status::Alive => 0,
        Status::Suspect => 1,
        Status::Dead => 2,
    }
}

impl GossipEngine {
    /// A node with the given peers and clock.
    pub fn new_with_hlc(
        node_id: NodeId,
        config: GossipConfig,
        membership: MembershipView,
        hlc: LocalHlc,
    ) -> (engine: Self)
        ensures
            engine@ == (EngineModel {
                node_id,
                config,
                peers: membership@,
                pending: Map::empty(),
                seq: 0,
                metrics: GossipMetricsSnapshot { sent: 0, received: 0, status_events: 0 },
                clock: hlc.now(),
                skew: hlc.skew(),
                event_sequence: 0,
                seen_messages: Set::empty(),
                seen_events: Set::empty(),
                latest: Map::empty(),
            }),
    {
        GossipEngine {
            node_id,
            config,
            membership,
            pending: BTreeMap::new(),
            seq: 0,
            metrics: GossipMetricsSnapshot::default(),
            hlc,
            event_sequence: 0,
            seen_messages: BTreeSet::new(),
            seen_events: BTreeSet::new(),
            latest: BTreeMap::new(),
        }
    }

    /// A node with the given peers, whose clock starts at `wall` and accepts remote
    /// clocks up to a second ahead.
    pub fn new(node_id: NodeId, config: GossipConfig, membership: MembershipView, wall: u64) -> (engine:
        Self)
        ensures
            engine@ == (EngineModel {
                node_id,
                config,
                peers: membership@,
                pending: Map::empty(),
                seq: 0,
                metrics: GossipMetricsSnapshot { sent: 0, received: 0, status_events: 0 },
                clock: HybridTimestamp { physical: wall, logical: 0 },
                skew: Duration { nanos: 1_000_000_000 },
                event_sequence: 0,
                seen_messages: Set::empty(),
                seen_events: Set::empty(),
                latest: Map::empty(),
            }),
    {
        GossipEngine::new_with_hlc(
            node_id,
            config,
            membership,
            LocalHlc::new(Duration::from_secs(1), wall),
        )
    }

    fn next_event_id(&mut self) -> (id: HlcEventId)
        ensures
            keeps_order(old(self)@, final(self)@),
            id == (HlcEventId {
                source: old(self)@.node_id,
                sequence: next_sequence(old(self)@.event_sequence),
            }),
            final(self)@ == (EngineModel {
                event_sequence: next_sequence(old(self)@.event_sequence),
                ..old(self)@
            }),
    {
        self.event_sequence = if self.event_sequence == u64::MAX {
            1
        } else {
            self.event_sequence + 1
        };
        HlcEventId { source: self.node_id, sequence: self.event_sequence }
    }

    fn stamp_membership_event(&mut self, id: u128, wall: u64)
        ensures
            keeps_order(old(self)@, final(self)@),
            final(self)@ == stamped(old(self)@, id, wall),
    {
        let timestamp = self.hlc.tick(wall);
        let event_id = self.next_event_id();
        if let Some(peer) = self.membership.get(NodeId { id }) {
            let state = PeerState {
                timestamp: Some(timestamp),
                event_id: Some(event_id),
                ..peer.state
            };
            self.membership.peers.insert(id, Peer { state, ..peer });
            self.latest.insert(id, timestamp);
        }
    }

    fn touch_peer(&mut self, node: NodeId, addr: NodeAddr, status: Status, now: Instant, wall: u64)
        ensures
            keeps_order(old(self)@, final(self)@),
            final(self)@ == touched(old(self)@, node, addr, status, now, wall),
    {
        match self.membership.get(node) {
            Some(peer) => {
                let state = PeerState { status, last_seen: now, ..peer.state };
                self.membership.peers.insert(node.id, Peer { addr, state, ..peer });
                if peer.state.status != status {
                    self.stamp_membership_event(node.id, wall);
                }
            },
            None => {
                let state = PeerState::new(0, status, now);
                self.membership.insert(Peer { node_id: node, addr, state });
                self.stamp_membership_event(node.id, wall);
            },
        }
    }

    /// Takes in a ping. The answer is to be sent; [`Self::note_sent`] tells that it was.
    pub fn handle_ping(&mut self, from: NodeId, seq: u64, addr: NodeAddr, now: Instant, wall: u64) -> (out:
        Outgoing)
        ensures
            keeps_order(old(self)@, final(self)@),
            final(self)@ == touched(received(old(self)@), from, addr, Status::Alive, now, wall),
            out == (Outgoing {
                target: from,
                frame: Frame::Ack { seq, from: old(self)@.node_id },
            }),
    {
        self.metrics.received = increment(self.metrics.received);
        self.touch_peer(from, addr, Status::Alive, now, wall);
        Outgoing { target: from, frame: Frame::Ack { seq, from: self.node_id } }
    }

    /// Takes in an acknowledgement.
    pub fn handle_ack(&mut self, from: NodeId, seq: u64, addr: NodeAddr, now: Instant, wall: u64)
        ensures
            keeps_order(old(self)@, final(self)@),
            final(self)@ == acknowledged(old(self)@, from, seq, addr, now, wall),
    {
        self.metrics.received = increment(self.metrics.received);
        match self.membership.get(from) {
            Some(peer) => {
                if peer.state.status == Status::Dead {
                    return ;
                }
                let state = PeerState {
                    status: Status::Alive,
                    last_seen: now,
                    suspect_since: None,
                    ..peer.state
                };
                self.membership.peers.insert(from.id, Peer { state, ..peer });
                if peer.state.status != Status::Alive {
                    self.stamp_membership_event(from.id, wall);
                }
            },
            None => {
                self.touch_peer(from, addr, Status::Alive, now, wall);
            },
        }
        self.pending.remove(&seq);
    }

    /// Takes in a request to ping `target` for `from`. The ping is to be sent in the
    /// name of `from`; [`Self::note_sent`] tells that it was.
    pub fn handle_ping_req(
        &mut self,
        from: NodeId,
        seq: u64,
        target: NodeId,
        addr: NodeAddr,
        now: Instant,
        wall: u64,
    ) -> (out: Outgoing)
        ensures
            keeps_order(old(self)@, final(self)@),
            final(self)@ == touched(received(old(self)@), from, addr, Status::Alive, now, wall),
            out == (Outgoing { target, frame: Frame::Ping { seq, from } }),
    {
        self.metrics.received = increment(self.metrics.received);
        self.touch_peer(from, addr, Status::Alive, now, wall);
        Outgoing { target, frame: Frame::Ping { seq, from } }
    }

    /// Counts a message that was sent.
    pub fn note_sent(&mut self)
        ensures
            keeps_order(old(self)@, final(self)@),
            final(self)@ == (EngineModel {
                metrics: GossipMetricsSnapshot {
                    sent: wrap_inc(old(self)@.metrics.sent),
                    ..old(self)@.metrics
                },
                ..old(self)@
            }),
    {
        self.metrics.sent = increment(self.metrics.sent);
    }

    fn apply_one_membership_update(&mut self, update: &MembershipUpdate, now: Instant) -> (counts: bool)
        ensures
            keeps_order(old(self)@, final(self)@),
            counts == update_counts(old(self)@, *update),
            final(self)@ == updated(old(self)@, *update, now),
    {
        let suspect_since = if update.status == Status::Suspect {
            Some(now)
        } else {
            None
        };
        match self.membership.get(update.node_id) {
            None => {
                let fresh = PeerState::new(update.incarnation, update.status, now);
                let state = PeerState { suspect_since, ..fresh };
                self.membership.insert(
                    Peer { node_id: update.node_id, addr: update.addr, state },
                );
                true
            },
            Some(peer) => {
                let newer = update.incarnation > peer.state.incarnation;
                let stronger = update.incarnation == peer.state.incarnation && status_rank(
                    &update.status,
                ) > status_rank(&peer.state.status);
                if !newer && !stronger {
                    return false;
                }
                let last_seen = if newer {
                    now
                } else {
                    peer.state.last_seen
                };
                let state = PeerState {
                    incarnation: update.incarnation,
                    last_seen,
                    status: update.status,
                    suspect_since,
                    ..peer.state
                };
                self.membership.peers.insert(
                    update.node_id.id,
                    Peer { addr: update.addr, state, ..peer },
                );
                if peer.state.status != update.status {
                    self.metrics.status_events = increment(self.metrics.status_events);
                }
                true
            },
        }
    }

    /// Takes in membership updates that carry no events of their own.
    pub fn apply_membership_update(&mut self, updates: &[MembershipUpdate], now: Instant, wall: u64)
        ensures
            keeps_order(old(self)@, final(self)@),
            final(self)@ == all_updated(old(self)@, updates@, now, wall),
    {
        let ghost start = self@;
        let mut i: usize = 0;
        assert(updates@.take(0) =~= Seq::<MembershipUpdate>::empty());
        while i < updates.len()
            invariant
                i <= updates@.len(),
                keeps_order(old(self)@, self@),
                self@ == all_updated(start, updates@.take(i as int), now, wall),
            decreases updates@.len() - i,
        {
            proof {
                assert(updates@.take(i + 1).drop_last() =~= updates@.take(i as int));
                assert(updates@.take(i + 1).last() == updates@[i as int]);
            }
            let update = updates[i];
            if self.apply_one_membership_update(&update, now) {
                self.stamp_membership_event(update.node_id.id, wall);
            }
            i = i + 1;
        }
        assert(updates@.take(updates@.len() as int) =~= updates@);
    }

    /// Takes in a gossip message. The answer is how many updates were applied. A message
    /// with an update later than itself, or from a clock too far ahead, is refused and
    /// changes nothing.
    pub fn apply_hlc_gossip(&mut self, message: &HlcGossipMessage, now: Instant, wall: u64) -> (r: Result<
        usize,
        GossipError,
    >)
        ensures
            keeps_order(old(self)@, final(self)@),
            match r {
                Ok(count) => envelope_is_sound(*message) && message.timestamp.physical
                    <= skew_limit(wall, skew_millis(old(self)@.skew)) && (final(self)@, count as nat)
                    == gossip_applied(old(self)@, *message, now, wall),
                Err(GossipError::InvalidHlcEnvelope(text)) => !envelope_is_sound(*message) && text@
                    == unsound_envelope() && final(self)@ == old(self)@,
                Err(GossipError::Hlc(e)) => envelope_is_sound(*message)
                    && message.timestamp.physical > skew_limit(
                    wall,
                    skew_millis(old(self)@.skew),
                ) && e == (HlcError::ClockSkewTooLarge {
                    remote_physical: message.timestamp.physical,
                    wall_physical: wall,
                    max_skew_millis: skew_millis(old(self)@.skew),
                }) && final(self)@ == old(self)@,
                Err(GossipError::Transport(_)) => false,
            },
    {
        let mut i: usize = 0;
        while i < message.updates.len()
            invariant
                i <= message.updates@.len(),
                forall|j: int|
                    0 <= j < i ==> !message.timestamp.before(
                        (#[trigger] message.updates@[j]).timestamp,
                    ),
                keeps_order(old(self)@, self@),
                self@ == old(self)@,
            decreases message.updates@.len() - i,
        {
            if message.timestamp.is_before(&message.updates[i].timestamp) {
                return Err(
                    GossipError::InvalidHlcEnvelope(
                        String::from_str("membership timestamp exceeds envelope timestamp"),
                    ),
                );
            }
            i = i + 1;
        }
        match self.hlc.receive(message.timestamp, wall) {
            Err(e) => {
                return Err(GossipError::Hlc(e));
            },
            Ok(_) => {},
        }
        let ghost m1 = self@;
        let key = (message.event_id.source.id, message.event_id.sequence);
        let seen = self.seen_messages.contains(&key);
        self.seen_messages.insert(key);
        if seen {
            return Ok(0);
        }
        let ghost m2 = self@;
        let ghost events = message.updates@;
        let mut applied: usize = 0;
        let mut k: usize = 0;
        assert(events.take(0) =~= Seq::<StampedMembershipUpdate>::empty());
        while k < message.updates.len()
            invariant
                k <= message.updates@.len(),
                events == message.updates@,
                keeps_order(old(self)@, self@),
                envelope_is_sound(*message),
                !self@.clock.before(message.timestamp),
                applied <= k,
                (self@, applied as nat) == events_applied(m2, events.take(k as int), now),
            decreases message.updates@.len() - k,
        {
            proof {
                assert(events.take(k + 1).drop_last() =~= events.take(k as int));
                assert(events.take(k + 1).last() == events[k as int]);
            }
            let event = message.updates[k];
            if self.apply_event(&event, now) {
                applied = applied + 1;
            }
            k = k + 1;
        }
        assert(events.take(events.len() as int) =~= events);
        Ok(applied)
    }

    fn apply_event(&mut self, event: &StampedMembershipUpdate, now: Instant) -> (applied: bool)
        requires
            !old(self)@.clock.before(event.timestamp),
        ensures
            keeps_order(old(self)@, final(self)@),
            final(self)@.clock == old(self)@.clock,
            (final(self)@, applied) == event_applied(old(self)@, *event, now),
    {
        let key = (event.event_id.source.id, event.event_id.sequence);
        let id: u128 = event.update.node_id.id;
        let seen = self.seen_events.contains(&key);
        self.seen_events.insert(key);
        if seen {
            return false;
        }
        if let Some(latest) = self.latest.get(&id) {
            if !latest.is_before(&event.timestamp) {
                return false;
            }
        }
        self.latest.insert(id, event.timestamp);
        if !self.apply_one_membership_update(&event.update, now) {
            return false;
        }
        if let Some(peer) = self.membership.get(event.update.node_id) {
            let state = PeerState {
                event_id: Some(event.event_id),
                timestamp: Some(event.timestamp),
                ..peer.state
            };
            self.membership.peers.insert(id, Peer { state, ..peer });
        }
        true
    }

    /// A copy of the membership.
    pub fn membership(&self) -> (view: MembershipView)
        ensures
            view@ == self@.peers,
    {
        self.membership.clone()
    }

    /// The latest timestamp of the clock.
    pub fn hlc_current(&self) -> (t: HybridTimestamp)
        ensures
            t == self@.clock,
    {
        self.hlc.current()
    }

    /// The counters.
    pub fn metrics(&self) -> (m: GossipMetricsSnapshot)
        ensures
            m == self@.metrics,
    {
        self.metrics
    }

    /// Looks at the timeouts of all peers and lists the changes of status, by increasing
    /// node.
    pub fn apply_timeouts(&mut self, now: Instant, wall: u64) -> (changes: Vec<StatusChange>)
        ensures
            keeps_order(old(self)@, final(self)@),
            ({
                let m = old(self)@;
                let peers = all_timed_out(
                    m.peers,
                    now,
                    m.config.indirect_ping_timeout,
                    m.config.suspect_to_dead_timeout,
                );
                &&& lists_changes(changes@, m.peers, peers)
                &&& final(self)@ == all_stamped(
                    status_events((EngineModel { peers, ..m }), changes@.len()),
                    changed_nodes(changes@),
                    wall,
                )
            }),
    {
        let changes = check_timeouts(
            &mut self.membership.peers,
            now,
            self.config.indirect_ping_timeout,
            self.config.suspect_to_dead_timeout,
        );
        let ghost m1 = self@;
        let ghost nodes = changed_nodes(changes@);
        let mut i: usize = 0;
        while i < changes.len()
            invariant
                i <= changes@.len(),
                keeps_order(old(self)@, self@),
                self@ == status_events(m1, i as nat),
            decreases changes@.len() - i,
        {
            self.metrics.status_events = increment(self.metrics.status_events);
            i = i + 1;
        }
        let ghost m2 = self@;
        let mut k: usize = 0;
        assert(nodes.take(0) =~= Seq::<u128>::empty());
        while k < changes.len()
            invariant
                k <= changes@.len(),
                nodes == changed_nodes(changes@),
                keeps_order(old(self)@, self@),
                self@ == all_stamped(m2, nodes.take(k as int), wall),
            decreases changes@.len() - k,
        {
            proof {
                assert(nodes.take(k + 1).drop_last() =~= nodes.take(k as int));
                assert(nodes.take(k + 1).last() == changes@[k as int].node_id.id);
            }
            self.stamp_membership_event(changes[k].node_id.id, wall);
            k = k + 1;
        }
        assert(nodes.take(nodes.len() as int) =~= nodes);
        changes
    }

    /// Moves the pending pings on: those that are overdue become indirect and are
    /// listed with their targets; those that lapsed are given up and their targets
    /// suspected.
    pub fn expire_pings(&mut self, now: Instant, wall: u64) -> (r: (
        Vec<(u64, NodeId)>,
        Vec<StatusChange>,
    ))
        ensures
            keeps_order(old(self)@, final(self)@),
            ({
                let m = old(self)@;
                let m1 = EngineModel { pending: pending_after(m, now), ..m };
                &&& r.0@ == overdue_pings(m, now).map_values(|k: u64| (k, m.pending[k].target))
                &&& (final(self)@, r.1@) == all_suspected(
                    m1,
                    lapsed_pings(m, now),
                    m.pending,
                    now,
                    wall,
                )
            }),
    {
        let ghost m = self@;
        let keys = sorted_keys_u64(&self.pending);
        let mut requests: Vec<(u64, NodeId)> = Vec::new();
        let mut gone: Vec<(u64, NodeId)> = Vec::new();
        let ghost mut first: Seq<u64> = Seq::empty();
        let ghost mut second: Seq<u64> = Seq::empty();
        let mut i: usize = 0;
        assert(self@.pending =~= m.pending);
        while i < keys.len()
            invariant
                i <= keys@.len(),
                increasing_u64(keys@),
                forall|k: u64| #[trigger] m.pending.contains_key(k) <==> keys@.contains(k),
                keeps_order(old(self)@, self@),
                self@ == (EngineModel { pending: self@.pending, ..m }),
                self@.config == m.config,
                forall|j: int|
                    0 <= j < i ==> ({
                        let k = #[trigger] keys@[j];
                        &&& self@.pending.contains_key(k) <==> !lapsed(m.pending[k], m.config, now)
                        &&& self@.pending.contains_key(k) ==> self@.pending[k] == pending_after(
                            m,
                            now,
                        )[k]
                    }),
                forall|j: int|
                    i <= j < keys@.len() ==> self@.pending.contains_key(#[trigger] keys@[j])
                        && self@.pending[keys@[j]] == m.pending[keys@[j]],
                forall|k: u64| #[trigger] self@.pending.contains_key(k) ==> m.pending.contains_key(k),
                increasing_u64(first),
                increasing_u64(second),
                forall|k: u64| #[trigger]
                    first.contains(k) <==> keys@.take(i as int).contains(k) && overdue(
                        m.pending[k],
                        m.config,
                        now,
                    ),
                forall|k: u64| #[trigger]
                    second.contains(k) <==> keys@.take(i as int).contains(k) && lapsed(
                        m.pending[k],
                        m.config,
                        now,
                    ),
                requests@ == first.map_values(|k: u64| (k, m.pending[k].target)),
                gone@ == second.map_values(|k: u64| (k, m.pending[k].target)),
            decreases keys@.len() - i,
        {
            let key: u64 = keys[i];
            let ghost before = self@.pending;
            let ghost first_before = first;
            let ghost second_before = second;
            assert(keys@.contains(key));
            assert(m.pending.contains_key(key));
            if let Some(found) = self.pending.get(&key) {
                let ping: PendingPing = *found;
                match ping.stage {
                    PingStage::Direct { sent_at } => {
                        if now.saturating_duration_since(sent_at).nanos
                            >= self.config.ping_timeout.nanos {
                            requests.push((key, ping.target));
                            self.pending.insert(
                                key,
                                PendingPing {
                                    target: ping.target,
                                    stage: PingStage::Indirect { requested_at: now },
                                },
                            );
                            proof {
                                first = first.push(key);
                            }
                        }
                    },
                    PingStage::Indirect { requested_at } => {
                        if now.saturating_duration_since(requested_at).nanos
                            >= self.config.indirect_ping_timeout.nanos {
                            gone.push((key, ping.target));
                            self.pending.remove(&key);
                            proof {
                                second = second.push(key);
                            }
                        }
                    },
                }
            }
            proof {
                grow_selection(
                    keys@,
                    i as int,
                    first_before,
                    first,
                    |k: u64| overdue(m.pending[k], m.config, now),
                );
                grow_selection(
                    keys@,
                    i as int,
                    second_before,
                    second,
                    |k: u64| lapsed(m.pending[k], m.config, now),
                );
                assert(requests@ =~= first.map_values(|k: u64| (k, m.pending[k].target)));
                assert(gone@ =~= second.map_values(|k: u64| (k, m.pending[k].target)));
            }
            i = i + 1;
        }
        proof {
            assert(keys@.take(keys@.len() as int) =~= keys@);
            ascending_is_u64(
                Set::new(
                    |k: u64| m.pending.contains_key(k) && overdue(m.pending[k], m.config, now),
                ),
                first,
            );
            ascending_is_u64(
                Set::new(|k: u64| m.pending.contains_key(k) && lapsed(m.pending[k], m.config, now)),
                second,
            );
            assert forall|k: u64| #[trigger] m.pending.contains_key(k) implies (
            self@.pending.contains_key(k) <==> !lapsed(m.pending[k], m.config, now)) && (
            self@.pending.contains_key(k) ==> self@.pending[k] == pending_after(m, now)[k]) by {
                let j = choose|j: int| 0 <= j < keys@.len() && keys@[j] == k;
                assert(keys@.contains(k));
                assert(keys@[j] == k);
            }
            assert(self@.pending =~= pending_after(m, now));
        }
        let ghost m1 = self@;
        let mut changes: Vec<StatusChange> = Vec::new();
        let mut n: usize = 0;
        assert(second.take(0) =~= Seq::<u64>::empty());
        assert(changes@ =~= Seq::<StatusChange>::empty());
        while n < gone.len()
            invariant
                n <= gone@.len(),
                gone@ == second.map_values(|k: u64| (k, m.pending[k].target)),
                keeps_order(old(self)@, self@),
                (self@, changes@) == all_suspected(m1, second.take(n as int), m.pending, now, wall),
            decreases gone@.len() - n,
        {
            proof {
                assert(second.take(n + 1).drop_last() =~= second.take(n as int));
                assert(second.take(n + 1).last() == second[n as int]);
            }
            let target = gone[n].1;
            let ghost listed = changes@;
            if let Some(peer) = self.membership.get(target) {
                if peer.state.status == Status::Alive {
                    let state = PeerState {
                        status: Status::Suspect,
                        suspect_since: Some(now),
                        ..peer.state
                    };
                    self.membership.peers.insert(target.id, Peer { state, ..peer });
                    let change = StatusChange::new(
                        target,
                        Status::Alive,
                        Status::Suspect,
                        peer.state.incarnation,
                    );
                    changes.push(change);
                    assert(changes@ =~= listed + seq![change]);
                    self.stamp_membership_event(target.id, wall);
                } else {
                    assert(changes@ =~= listed + Seq::<StatusChange>::empty());
                }
            } else {
                assert(changes@ =~= listed + Seq::<StatusChange>::empty());
            }
            n = n + 1;
        }
        assert(second.take(second.len() as int) =~= second);
        (requests, changes)
    }

    /// The peers that may be asked something, by increasing node.
    fn live_nodes(&self, except: Option<NodeId>) -> (ids: Vec<u128>)
        ensures
            ids@ == ascending_u128(live_peers(self@.peers, except)),
            increasing_u128(ids@),
            forall|k: u128| #[trigger]
                ids@.contains(k) <==> live_peers(self@.peers, except).contains(k),
            ids@.len() == live_peers(self@.peers, except).len(),
    {
        let ghost peers = self@.peers;
        let keys = sorted_keys_u128(&self.membership.peers);
        let mut ids: Vec<u128> = Vec::new();
        let mut i: usize = 0;
        while i < keys.len()
            invariant
                i <= keys@.len(),
                increasing_u128(keys@),
                peers == self@.peers,
                forall|k: u128| #[trigger] peers.contains_key(k) <==> keys@.contains(k),
                increasing_u128(ids@),
                forall|k: u128| #[trigger]
                    ids@.contains(k) <==> keys@.take(i as int).contains(k) && live_peers(
                        peers,
                        except,
                    ).contains(k),
            decreases keys@.len() - i,
        {
            let key: u128 = keys[i];
            let ghost before = ids@;
            assert(keys@.contains(key));
            assert(peers.contains_key(key));
            if let Some(peer) = self.membership.peers.get(&key) {
                let excluded = match except {
                    Some(node) => node.id == key,
                    None => false,
                };
                if !excluded && peer.state.status != Status::Dead {
                    ids.push(key);
                }
            }
            proof {
                grow_selection_u128(
                    keys@,
                    i as int,
                    before,
                    ids@,
                    |k: u128| live_peers(peers, except).contains(k),
                );
            }
            i = i + 1;
        }
        proof {
            assert(keys@.take(keys@.len() as int) =~= keys@);
            ascending_is_u128(live_peers(peers, except), ids@);
            members_count(ids@, live_peers(peers, except));
        }
        ids
    }

    /// Some of the peers that may be asked something, as many as the fan-out says, each
    /// at most once. Which of them is left to chance.
    fn choose_live(&self, except: Option<NodeId>) -> (ids: Vec<u128>)
        ensures
            chosen(ids@, live_peers(self@.peers, except), self@.config.fanout),
    {
        let candidates = self.live_nodes(except);
        let ghost all = candidates@;
        let total: usize = candidates.len();
        if total == usize::MAX {
            let none: Vec<u128> = Vec::new();
            assert(none@.no_duplicates());
            return none;
        }
        let amount: usize = calculate_fanout(total + 1, self.config.fanout);
        let ids = choose_multiple(candidates, amount);
        proof {
            picked_are_chosen(
                all,
                ids@,
                live_peers(self@.peers, except),
                self@.config.fanout,
                amount as nat,
            );
        }
        ids
    }

    /// The peers to ping next.
    pub fn select_targets(&self) -> (targets: Vec<u128>)
        ensures
            chosen(targets@, live_peers(self@.peers, None), self@.config.fanout),
    {
        self.choose_live(None)
    }

    /// The peers to ask for a ping of `target`.
    pub fn select_indirect_targets(&self, target: NodeId) -> (helpers: Vec<u128>)
        ensures
            chosen(helpers@, live_peers(self@.peers, Some(target)), self@.config.fanout),
    {
        self.choose_live(Some(target))
    }

    /// The requests to `helpers` to ping `target` under the number `seq`.
    pub fn ping_requests(&self, seq: u64, target: NodeId, helpers: &[u128]) -> (out: Vec<Outgoing>)
        ensures
            out@.len() == helpers@.len(),
            forall|i: int|
                0 <= i < helpers@.len() ==> #[trigger] out@[i] == (Outgoing {
                    target: NodeId { id: helpers@[i] },
                    frame: Frame::PingReq { seq, from: self@.node_id, target },
                }),
    {
        let mut out: Vec<Outgoing> = Vec::new();
        let mut i: usize = 0;
        while i < helpers.len()
            invariant
                i <= helpers@.len(),
                out@.len() == i,
                forall|j: int|
                    0 <= j < i ==> #[trigger] out@[j] == (Outgoing {
                        target: NodeId { id: helpers@[j] },
                        frame: Frame::PingReq { seq, from: self@.node_id, target },
                    }),
            decreases helpers@.len() - i,
        {
            out.push(
                Outgoing {
                    target: NodeId { id: helpers[i] },
                    frame: Frame::PingReq { seq, from: self.node_id, target },
                },
            );
            i = i + 1;
        }
        out
    }

    /// The ping to send to `target` next, unless one is not answered yet.
    /// [`Self::ping_sent`] tells that it was sent.
    pub fn begin_ping(&mut self, target: NodeId) -> (out: Option<Outgoing>)
        ensures
            keeps_order(old(self)@, final(self)@),
            match out {
                Some(out) => {
                    &&& !awaits(old(self)@, target)
                    &&& final(self)@ == (EngineModel { seq: wrap_inc(old(self)@.seq), ..old(self)@ })
                    &&& out == (Outgoing {
                        target,
                        frame: Frame::Ping {
                            seq: wrap_inc(old(self)@.seq),
                            from: old(self)@.node_id,
                        },
                    })
                },
                None => awaits(old(self)@, target) && final(self)@ == old(self)@,
            },
    {
        let keys = sorted_keys_u64(&self.pending);
        let mut i: usize = 0;
        while i < keys.len()
            invariant
                i <= keys@.len(),
                forall|k: u64| #[trigger] self@.pending.contains_key(k) <==> keys@.contains(k),
                forall|j: int|
                    0 <= j < i ==> self@.pending[#[trigger] keys@[j]].target != target,
                keeps_order(old(self)@, self@),
                self@ == old(self)@,
            decreases keys@.len() - i,
        {
            assert(keys@.contains(keys@[i as int]));
            if let Some(ping) = self.pending.get(&keys[i]) {
                if ping.target == target {
                    assert(self@.pending.contains_key(keys@[i as int]));
                    return None;
                }
            }
            i = i + 1;
        }
        proof {
            assert forall|k: u64| #[trigger]
                self@.pending.contains_key(k) implies self@.pending[k].target != target by {
                let j = choose|j: int| 0 <= j < keys@.len() && keys@[j] == k;
                assert(keys@.contains(k));
                assert(self@.pending[keys@[j]].target != target);
            }
        }
        self.seq = increment(self.seq);
        Some(Outgoing { target, frame: Frame::Ping { seq: self.seq, from: self.node_id } })
    }

    fn ensure_membership_stamps(&mut self, wall: u64)
        ensures
            keeps_order(old(self)@, final(self)@),
            final(self)@ == all_stamped(old(self)@, unstamped(old(self)@.peers), wall),
            forall|k: u128| #[trigger]
                unstamped(old(self)@.peers).contains(k) <==> old(self)@.peers.contains_key(k)
                    && old(self)@.peers[k].state.timestamp is None,
    {
        let ghost m = self@;
        let ghost goal = Set::new(
            |k: u128| m.peers.contains_key(k) && m.peers[k].state.timestamp is None,
        );
        let keys = sorted_keys_u128(&self.membership.peers);
        let mut ids: Vec<u128> = Vec::new();
        let mut i: usize = 0;
        while i < keys.len()
            invariant
                i <= keys@.len(),
                increasing_u128(keys@),
                keeps_order(old(self)@, self@),
                self@ == m,
                goal == Set::new(
                    |k: u128| m.peers.contains_key(k) && m.peers[k].state.timestamp is None,
                ),
                forall|k: u128| #[trigger] m.peers.contains_key(k) <==> keys@.contains(k),
                increasing_u128(ids@),
                forall|k: u128| #[trigger]
                    ids@.contains(k) <==> keys@.take(i as int).contains(k) && goal.contains(k),
            decreases keys@.len() - i,
        {
            let key: u128 = keys[i];
            let ghost before = ids@;
            assert(keys@.contains(key));
            assert(m.peers.contains_key(key));
            if let Some(peer) = self.membership.peers.get(&key) {
                if peer.state.timestamp.is_none() {
                    ids.push(key);
                }
            }
            proof {
                grow_selection_u128(keys@, i as int, before, ids@, |k: u128| goal.contains(k));
            }
            i = i + 1;
        }
        proof {
            assert(keys@.take(keys@.len() as int) =~= keys@);
            ascending_is_u128(goal, ids@);
        }
        let mut k: usize = 0;
        assert(ids@.take(0) =~= Seq::<u128>::empty());
        while k < ids.len()
            invariant
                k <= ids@.len(),
                keeps_order(old(self)@, self@),
                self@ == all_stamped(m, ids@.take(k as int), wall),
            decreases ids@.len() - k,
        {
            proof {
                assert(ids@.take(k + 1).drop_last() =~= ids@.take(k as int));
                assert(ids@.take(k + 1).last() == ids@[k as int]);
            }
            self.stamp_membership_event(ids[k], wall);
            k = k + 1;
        }
        assert(ids@.take(ids@.len() as int) =~= ids@);
    }

    /// Notes that the ping numbered `seq` went out to `target`. The answer is the gossip
    /// to send to the same node: all peers with their events, in a message stamped after
    /// all of them.
    pub fn ping_sent(&mut self, seq: u64, target: NodeId, now: Instant, wall: u64) -> (out: Option<
        Outgoing,
    >)
        requires
            stamps_have_events(old(self)@.peers),
        ensures
            keeps_order(old(self)@, final(self)@),
            ({
                let m = pinged(old(self)@, seq, target, now, wall);
                match out {
                    None => m.peers.dom().len() == 0 && final(self)@ == m,
                    Some(out) => {
                        let t = ticked(m.clock, wall);
                        let sequence = next_sequence(m.event_sequence);
                        &&& m.peers.dom().len() > 0
                        &&& final(self)@ == (EngineModel { clock: t, event_sequence: sequence, ..m })
                        &&& out.target == target
                        &&& out.frame matches Frame::HlcGossip(message)
                        &&& message.event_id == (HlcEventId { source: m.node_id, sequence })
                        &&& message.timestamp == t
                        &&& message.updates@ == gossip_updates(m.peers)
                        &&& covered(old(self)@.peers, old(self)@.clock) ==> envelope_is_sound(message)
                    },
                }
            }),
    {
        let ghost start = self@;
        self.pending.insert(seq, PendingPing { target, stage: PingStage::Direct { sent_at: now } });
        let ghost m1 = self@;
        self.ensure_membership_stamps(wall);
        let ghost m = self@;
        proof {
            all_are_stamped(m1, wall);
        }
        let keys = sorted_keys_u128(&self.membership.peers);
        proof {
            assert forall|k: u128| #[trigger] keys@.contains(k) <==> m.peers.dom().contains(k) by {
                assert(m.peers.contains_key(k) <==> keys@.contains(k));
            }
            ascending_is_u128(m.peers.dom(), keys@);
        }
        let mut updates: Vec<StampedMembershipUpdate> = Vec::new();
        let mut i: usize = 0;
        while i < keys.len()
            invariant
                i <= keys@.len(),
                self@ == m,
                keeps_order(old(self)@, self@),
                forall|k: u128| #[trigger] m.peers.contains_key(k) <==> keys@.contains(k),
                forall|k: u128| #[trigger]
                    m.peers.contains_key(k) ==> m.peers[k].state.timestamp is Some
                        && m.peers[k].state.event_id is Some,
                updates@.len() == i,
                forall|j: int|
                    0 <= j < i ==> #[trigger] updates@[j] == stamped_update(m.peers[keys@[j]]),
            decreases keys@.len() - i,
        {
            let key: u128 = keys[i];
            assert(keys@.contains(key));
            assert(m.peers.contains_key(key));
            let found = self.membership.get(NodeId { id: key });
            let peer = found.unwrap();
            let event_id = peer.state.event_id.unwrap();
            let timestamp = peer.state.timestamp.unwrap();
            updates.push(
                StampedMembershipUpdate {
                    event_id,
                    timestamp,
                    update: MembershipUpdate {
                        node_id: peer.node_id,
                        incarnation: peer.state.incarnation,
                        addr: peer.addr,
                        status: peer.state.status,
                    },
                },
            );
            i = i + 1;
        }
        assert(updates@ =~= gossip_updates(m.peers));
        if updates.len() == 0 {
            return None;
        }
        let timestamp = self.hlc.tick(wall);
        proof {
            assert forall|j: int|
                covered(start.peers, start.clock) && 0 <= j < updates@.len() implies !timestamp.before(
                (#[trigger] updates@[j]).timestamp,
            ) by {
                assert(keys@.contains(keys@[j]));
                assert(m.peers.contains_key(keys@[j]));
                assert(updates@[j] == stamped_update(m.peers[keys@[j]]));
            }
        }
        let event_id = self.next_event_id();
        Some(
            Outgoing {
                target,
                frame: Frame::HlcGossip(HlcGossipMessage { event_id, timestamp, updates }),
            },
        )
    }
}

/// Stamping keeps the peers and gives each of the listed ones an event; others keep
/// theirs.
proof fn stamping_gives_events(m: EngineModel, ids: Seq<u128>, wall: u64)
    ensures
        ({
            let after = all_stamped(m, ids, wall);
            &&& after.peers.dom() == m.peers.dom()
            &&& after.node_id == m.node_id
            &&& forall|k: u128| #[trigger]
                m.peers.contains_key(k) ==> (ids.contains(k) ==> after.peers[k].state.timestamp is Some
                    && after.peers[k].state.event_id is Some) && (!ids.contains(k)
                    ==> after.peers[k] == m.peers[k])
        }),
    decreases ids.len(),
{
    if ids.len() > 0 {
        let shorter = ids.drop_last();
        stamping_gives_events(m, shorter, wall);
        let mid = all_stamped(m, shorter, wall);
        let after = stamped(mid, ids.last(), wall);
        assert(after.peers.dom() =~= m.peers.dom());
        assert forall|k: u128| #[trigger] m.peers.contains_key(k) implies (ids.contains(k)
            ==> after.peers[k].state.timestamp is Some && after.peers[k].state.event_id is Some) && (
        !ids.contains(k) ==> after.peers[k] == m.peers[k]) by {
            if k == ids.last() {
                assert(ids[ids.len() - 1] == k);
                assert(mid.peers.contains_key(k));
            } else {
                if ids.contains(k) {
                    let j = choose|j: int| 0 <= j < ids.len() && ids[j] == k;
                    assert(shorter[j] == k);
                }
                if shorter.contains(k) {
                    let j = choose|j: int| 0 <= j < shorter.len() && shorter[j] == k;
                    assert(ids[j] == k);
                }
            }
        }
    }
}

/// After the peers without an event were stamped, every peer has one.
proof fn all_are_stamped(m: EngineModel, wall: u64)
    requires
        stamps_have_events(m.peers),
        forall|k: u128| #[trigger]
            unstamped(m.peers).contains(k) <==> m.peers.contains_key(k)
                && m.peers[k].state.timestamp is None,
    ensures
        ({
            let after = all_stamped(m, unstamped(m.peers), wall);
            &&& after.peers.dom() == m.peers.dom()
            &&& forall|k: u128| #[trigger]
                after.peers.contains_key(k) ==> after.peers[k].state.timestamp is Some
                    && after.peers[k].state.event_id is Some
        }),
{
    stamping_gives_events(m, unstamped(m.peers), wall);
    let after = all_stamped(m, unstamped(m.peers), wall);
    assert forall|k: u128| #[trigger] after.peers.contains_key(k) implies after.peers[k].state.timestamp is Some
        && after.peers[k].state.event_id is Some by {
        assert(after.peers.dom().contains(k));
        assert(m.peers.contains_key(k));
        assert(unstamped(m.peers).contains(k) <==> m.peers[k].state.timestamp is None);
    }
}

/// Gossip never takes a peer back: the incarnation does not fall, and at the same
/// incarnation the status does not weaken.
pub proof fn gossip_never_goes_back(m: EngineModel, update: MembershipUpdate, now: Instant, id: u128)
    requires
        m.peers.contains_key(id),
    ensures
        ({
            let before = m.peers[id].state;
            let after = updated(m, update, now).peers[id].state;
            &&& updated(m, update, now).peers.contains_key(id)
            &&& after.incarnation >= before.incarnation
            &&& after.incarnation == before.incarnation ==> rank(after.status) >= rank(
                before.status,
            )
        }),
{
}

/// An update that is not newer and not stronger changes nothing.
pub proof fn stale_update_is_ignored(m: EngineModel, update: MembershipUpdate, now: Instant)
    requires
        m.peers.contains_key(update.node_id.id),
        !supersedes(update, m.peers[update.node_id.id].state),
    ensures
        updated(m, update, now) == m,
        !update_counts(m, update),
{
}

/// Taking in the same update again changes nothing more.
pub proof fn repeated_update_is_ignored(m: EngineModel, update: MembershipUpdate, now: Instant, later: Instant)
    ensures
        updated(updated(m, update, now), update, later) == updated(m, update, now),
{
}

/// Only a higher incarnation refutes a suspicion: an update that calls a peer alive at
/// its present incarnation never counts, and so never refreshes when it was last seen.
pub proof fn only_a_higher_incarnation_refutes(m: EngineModel, update: MembershipUpdate)
    requires
        m.peers.contains_key(update.node_id.id),
        update.status == Status::Alive,
        update.incarnation <= m.peers[update.node_id.id].state.incarnation,
    ensures
        !update_counts(m, update),
{
}

/// A message that arrives again moves the clock and changes nothing else, and a message
/// never leaves the sender's timestamp ahead of the clock.
pub proof fn repeated_message_changes_only_the_clock(
    m: EngineModel,
    message: HlcGossipMessage,
    now: Instant,
    wall: u64,
)
    requires
        m.seen_messages.contains(event_key(message.event_id)),
    ensures
        gossip_applied(m, message, now, wall) == (
            EngineModel { clock: merged(m.clock, message.timestamp, wall), ..m },
            0nat,
        ),
{
    assert(m.seen_messages.insert(event_key(message.event_id)) =~= m.seen_messages);
}

/// After a message was taken in, it is known.
pub proof fn message_is_remembered(m: EngineModel, message: HlcGossipMessage, now: Instant, wall: u64)
    ensures
        gossip_applied(m, message, now, wall).0.seen_messages.contains(event_key(message.event_id)),
{
    let m2 = EngineModel {
        clock: merged(m.clock, message.timestamp, wall),
        seen_messages: m.seen_messages.insert(event_key(message.event_id)),
        ..m
    };
    events_keep_messages(m2, message.updates@, now);
}

proof fn events_keep_messages(m: EngineModel, events: Seq<StampedMembershipUpdate>, now: Instant)
    ensures
        events_applied(m, events, now).0.seen_messages == m.seen_messages,
    decreases events.len(),
{
    if events.len() > 0 {
        events_keep_messages(m, events.drop_last(), now);
    }
}

/// An event that is not later than what is known of its node is not applied, in
/// whatever order messages arrive: no peer changes.
pub proof fn late_event_is_not_applied(m: EngineModel, event: StampedMembershipUpdate, now: Instant)
    requires
        m.latest.contains_key(event.update.node_id.id),
        !m.latest[event.update.node_id.id].before(event.timestamp),
    ensures
        !event_applied(m, event, now).1,
        event_applied(m, event, now).0.peers == m.peers,
{
}

/// A late acknowledgement does not bring a dead peer back: it is counted, and nothing else
/// happens.
pub proof fn late_ack_is_only_counted(
    m: EngineModel,
    from: NodeId,
    seq: u64,
    addr: NodeAddr,
    now: Instant,
    wall: u64,
)
    requires
        m.peers.contains_key(from.id),
        m.peers[from.id].state.status == Status::Dead,
    ensures
        acknowledged(m, from, seq, addr, now, wall) == received(m),
{
}

/// A peer that answers its ping in time is alive, and that ping no longer counts against it.
pub proof fn answered_ping_is_settled(
    m: EngineModel,
    from: NodeId,
    seq: u64,
    addr: NodeAddr,
    now: Instant,
    wall: u64,
)
    requires
        m.peers.contains_key(from.id) ==> m.peers[from.id].state.status != Status::Dead,
    ensures
        acknowledged(m, from, seq, addr, now, wall).peers.contains_key(from.id),
        acknowledged(m, from, seq, addr, now, wall).peers[from.id].state.status == Status::Alive,
        acknowledged(m, from, seq, addr, now, wall).peers[from.id].state.last_seen == now,
        !acknowledged(m, from, seq, addr, now, wall).pending.contains_key(seq),
{
}

proof fn stamping_keeps_the_clock(m: EngineModel, ids: Seq<u128>, wall: u64)
    ensures
        !all_stamped(m, ids, wall).clock.before(m.clock),
    decreases ids.len(),
{
    if ids.len() > 0 {
        stamping_keeps_the_clock(m, ids.drop_last(), wall);
    }
}

proof fn updates_keep_the_clock(
    m: EngineModel,
    updates: Seq<MembershipUpdate>,
    now: Instant,
    wall: u64,
)
    ensures
        !all_updated(m, updates, now, wall).clock.before(m.clock),
    decreases updates.len(),
{
    if updates.len() > 0 {
        updates_keep_the_clock(m, updates.drop_last(), now, wall);
    }
}

proof fn events_leave_the_clock(m: EngineModel, events: Seq<StampedMembershipUpdate>, now: Instant)
    ensures
        events_applied(m, events, now).0.clock == m.clock,
    decreases events.len(),
{
    if events.len() > 0 {
        events_leave_the_clock(m, events.drop_last(), now);
    }
}

proof fn suspicions_keep_the_clock(
    m: EngineModel,
    pings: Seq<u64>,
    pending: Map<u64, PendingPing>,
    now: Instant,
    wall: u64,
)
    ensures
        !all_suspected(m, pings, pending, now, wall).0.clock.before(m.clock),
    decreases pings.len(),
{
    if pings.len() > 0 {
        suspicions_keep_the_clock(m, pings.drop_last(), pending, now, wall);
    }
}

/// Whatever a node hears, finds out or sends, its logical clock does not go back.
pub proof fn clock_never_goes_back(
    m: EngineModel,
    node: NodeId,
    seq: u64,
    addr: NodeAddr,
    updates: Seq<MembershipUpdate>,
    message: HlcGossipMessage,
    pings: Seq<u64>,
    pending: Map<u64, PendingPing>,
    now: Instant,
    wall: u64,
)
    ensures
        !touched(m, node, addr, Status::Alive, now, wall).clock.before(m.clock),
        !acknowledged(m, node, seq, addr, now, wall).clock.before(m.clock),
        !all_updated(m, updates, now, wall).clock.before(m.clock),
        !gossip_applied(m, message, now, wall).0.clock.before(m.clock),
        !all_suspected(m, pings, pending, now, wall).0.clock.before(m.clock),
        !pinged(m, seq, node, now, wall).clock.before(m.clock),
{
    updates_keep_the_clock(m, updates, now, wall);
    suspicions_keep_the_clock(m, pings, pending, now, wall);
    let heard = EngineModel {
        clock: merged(m.clock, message.timestamp, wall),
        seen_messages: m.seen_messages.insert(event_key(message.event_id)),
        ..m
    };
    events_leave_the_clock(heard, message.updates@, now);
    let sent = EngineModel {
        pending: m.pending.insert(
            seq,
            PendingPing { target: node, stage: PingStage::Direct { sent_at: now } },
        ),
        ..m
    };
    stamping_keeps_the_clock(sent, unstamped(sent.peers), wall);
}

/// How much is said of a peer: a higher incarnation outweighs any status, and at the same
/// incarnation a stronger status outweighs a weaker one.
pub open spec fn weight(incarnation: u64, status: Status) -> int {
    3 * incarnation + rank(status)
}

/// What gossip has said of a peer in the end is the weightiest of what was known and what was
/// heard.
pub open spec fn is_weightiest(
    m: EngineModel,
    updates: Seq<MembershipUpdate>,
    id: u128,
    after: EngineModel,
) -> bool {
    let state = after.peers[id].state;
    let w = weight(state.incarnation, state.status);
    &&& after.peers.contains_key(id) <==> (m.peers.contains_key(id) || exists|i: int|
        0 <= i < updates.len() && (#[trigger] updates[i]).node_id.id == id)
    &&& m.peers.contains_key(id) ==> w >= weight(
        m.peers[id].state.incarnation,
        m.peers[id].state.status,
    )
    &&& forall|i: int|
        0 <= i < updates.len() && (#[trigger] updates[i]).node_id.id == id ==> w >= weight(
            updates[i].incarnation,
            updates[i].status,
        )
    &&& after.peers.contains_key(id) ==> ((m.peers.contains_key(id) && w == weight(
        m.peers[id].state.incarnation,
        m.peers[id].state.status,
    )) || exists|i: int|
        0 <= i < updates.len() && (#[trigger] updates[i]).node_id.id == id && w == weight(
            updates[i].incarnation,
            updates[i].status,
        ))
}

/// Whatever the order in which updates arrive, what is known of a peer in the end is the
/// weightiest of what was known and what was heard.
pub proof fn weightiest_update_stands(
    m: EngineModel,
    updates: Seq<MembershipUpdate>,
    now: Instant,
    wall: u64,
    id: u128,
)
    ensures
        is_weightiest(m, updates, id, all_updated(m, updates, now, wall)),
    decreases updates.len(),
{
    if updates.len() > 0 {
        let fewer = updates.drop_last();
        let last = updates.last();
        let before = all_updated(m, fewer, now, wall);
        let after = all_updated(m, updates, now, wall);
        weightiest_update_stands(m, fewer, now, wall, id);
        assert(updates[updates.len() - 1] == last);
        assert forall|i: int| 0 <= i < fewer.len() implies fewer[i] == #[trigger] updates[i] by {}
        if before.peers.contains_key(id) {
            if !(m.peers.contains_key(id)) {
                let i = choose|i: int| 0 <= i < fewer.len() && (#[trigger] fewer[i]).node_id.id == id;
                assert(updates[i].node_id.id == id);
            }
            let state = before.peers[id].state;
            let w = weight(state.incarnation, state.status);
            if !(m.peers.contains_key(id) && w == weight(
                m.peers[id].state.incarnation,
                m.peers[id].state.status,
            )) {
                let i = choose|i: int|
                    0 <= i < fewer.len() && (#[trigger] fewer[i]).node_id.id == id && w == weight(
                        fewer[i].incarnation,
                        fewer[i].status,
                    );
                assert(updates[i].node_id.id == id);
            }
        }
    }
}

/// Gossip converges: two nodes that know the same and hear the same updates, in whatever order
/// and however often, agree on who is a member, at which incarnation and in which status.
pub proof fn gossip_converges(
    m: EngineModel,
    a: Seq<MembershipUpdate>,
    b: Seq<MembershipUpdate>,
    now: Instant,
    wall: u64,
    id: u128,
)
    requires
        forall|u: MembershipUpdate| #[trigger] a.contains(u) <==> b.contains(u),
    ensures
        all_updated(m, a, now, wall).peers.contains_key(id) == all_updated(
            m,
            b,
            now,
            wall,
        ).peers.contains_key(id),
        all_updated(m, a, now, wall).peers.contains_key(id) ==> all_updated(
            m,
            a,
            now,
            wall,
        ).peers[id].state.incarnation == all_updated(m, b, now, wall).peers[id].state.incarnation
            && all_updated(m, a, now, wall).peers[id].state.status == all_updated(
            m,
            b,
            now,
            wall,
        ).peers[id].state.status,
{
    weightiest_update_stands(m, a, now, wall, id);
    weightiest_update_stands(m, b, now, wall, id);
    let after_a = all_updated(m, a, now, wall);
    let after_b = all_updated(m, b, now, wall);
    outweighs(m, a, b, id, after_a, after_b);
    outweighs(m, b, a, id, after_b, after_a);
}

proof fn outweighs(
    m: EngineModel,
    a: Seq<MembershipUpdate>,
    b: Seq<MembershipUpdate>,
    id: u128,
    after_a: EngineModel,
    after_b: EngineModel,
)
    requires
        forall|u: MembershipUpdate| #[trigger] a.contains(u) ==> b.contains(u),
        is_weightiest(m, a, id, after_a),
        is_weightiest(m, b, id, after_b),
    ensures
        after_a.peers.contains_key(id) ==> after_b.peers.contains_key(id),
        after_a.peers.contains_key(id) ==> weight(
            after_b.peers[id].state.incarnation,
            after_b.peers[id].state.status,
        ) >= weight(after_a.peers[id].state.incarnation, after_a.peers[id].state.status),
{
    if after_a.peers.contains_key(id) {
        let state = after_a.peers[id].state;
        let w = weight(state.incarnation, state.status);
        if !(m.peers.contains_key(id) && w == weight(
            m.peers[id].state.incarnation,
            m.peers[id].state.status,
        )) {
            let i = choose|i: int|
                0 <= i < a.len() && (#[trigger] a[i]).node_id.id == id && w == weight(
                    a[i].incarnation,
                    a[i].status,
                );
            assert(a.contains(a[i]));
            assert(b.contains(a[i]));
            let j = choose|j: int| 0 <= j < b.len() && b[j] == a[i];
            assert(b[j].node_id.id == id);
        }
    }
}

/// A counter goes up by one, and starts again where it can go no further. The number of an event
/// is never zero.
pub proof fn counters_go_up_by_one(x: u64)
    ensures
        x < u64::MAX ==> wrap_inc(x) == x + 1 && next_sequence(x) == x + 1,
        wrap_inc(u64::MAX) == 0,
        next_sequence(u64::MAX) == 1,
        next_sequence(x) != 0,
        next_sequence(x) != x,
{
}

/// At the same incarnation dead outweighs suspect, and suspect outweighs alive; a higher
/// incarnation outweighs everything at a lower one.
pub proof fn what_outweighs_what(update: MembershipUpdate, state: PeerState)
    ensures
        update.incarnation > state.incarnation ==> supersedes(update, state),
        update.incarnation < state.incarnation ==> !supersedes(update, state),
        update.incarnation == state.incarnation ==> {
            &&& update.status == Status::Alive ==> !supersedes(update, state)
            &&& update.status == Status::Suspect ==> (supersedes(update, state) <==> state.status
                == Status::Alive)
            &&& update.status == Status::Dead ==> (supersedes(update, state) <==> state.status
                != Status::Dead)
        },
{
}

/// An event of this node is later than all that its clock has shown, carries the next number, and
/// is the event of the peer that it is about: nothing else is changed by it, and no other peer.
pub proof fn event_is_the_next_of_this_node(m: EngineModel, id: u128, wall: u64, other: u128)
    requires
        m.clock != crate::gossip::hlc::greatest(),
    ensures
        ({
            let after = stamped(m, id, wall);
            &&& m.clock.before(after.clock)
            &&& after.clock.physical >= wall
            &&& after.event_sequence != m.event_sequence
            &&& m.event_sequence < u64::MAX ==> after.event_sequence == m.event_sequence + 1
            &&& after.peers.contains_key(other) <==> m.peers.contains_key(other)
            &&& m.peers.contains_key(id) ==> {
                let peer = after.peers[id];
                &&& peer.state.timestamp == Some(after.clock)
                &&& peer.state.event_id == Some(
                    HlcEventId { source: m.node_id, sequence: after.event_sequence },
                )
                &&& after.latest.contains_key(id) && after.latest[id] == after.clock
            }
            &&& m.peers.contains_key(other) ==> same_standing(after.peers[other], m.peers[other])
            &&& other != id && m.peers.contains_key(other) ==> after.peers[other]
                == m.peers[other]
            &&& other != id || !m.peers.contains_key(id) ==> {
                &&& after.latest.contains_key(other) == m.latest.contains_key(other)
                &&& m.latest.contains_key(other) ==> after.latest[other] == m.latest[other]
            }
            &&& same_but_events(after, m)
        }),
{
    crate::gossip::hlc::tick_moves_forward(m.clock, wall);
}

/// Whether two states of a peer differ at most in the event that is known of it.
pub open spec fn same_standing(a: Peer, b: Peer) -> bool {
    &&& a.node_id == b.node_id
    &&& a.addr == b.addr
    &&& a.state.incarnation == b.state.incarnation
    &&& a.state.status == b.state.status
    &&& a.state.last_seen == b.state.last_seen
    &&& a.state.suspect_since == b.state.suspect_since
}

/// Whether two states of a node differ at most in the peers, the clock and the events.
pub open spec fn same_but_events(a: EngineModel, b: EngineModel) -> bool {
    &&& a.node_id == b.node_id
    &&& a.config == b.config
    &&& a.pending == b.pending
    &&& a.seq == b.seq
    &&& a.metrics == b.metrics
    &&& a.skew == b.skew
    &&& a.seen_messages == b.seen_messages
    &&& a.seen_events == b.seen_events
}

proof fn stamping_keeps_the_standing(m: EngineModel, ids: Seq<u128>, wall: u64, id: u128)
    ensures
        ({
            let after = all_stamped(m, ids, wall);
            &&& after.peers.contains_key(id) <==> m.peers.contains_key(id)
            &&& m.peers.contains_key(id) ==> same_standing(after.peers[id], m.peers[id])
            &&& same_but_events(after, m)
        }),
    decreases ids.len(),
{
    if ids.len() > 0 {
        stamping_keeps_the_standing(m, ids.drop_last(), wall, id);
    }
}

/// A ping that goes out is waited for, and the gossip that goes with it says of every peer
/// exactly once what this node holds of it: its address, its incarnation and its status. Nothing
/// but events, and the ping that is waited for, changes by sending.
pub proof fn every_peer_is_told_of_once(
    m: EngineModel,
    seq: u64,
    target: NodeId,
    now: Instant,
    wall: u64,
    id: u128,
)
    requires
        m.peers.dom().finite(),
        keyed_by_node(m.peers),
    ensures
        ({
            let after = pinged(m, seq, target, now, wall);
            let updates = gossip_updates(after.peers);
            &&& updates.len() == m.peers.dom().len()
            &&& forall|i: int, j: int|
                0 <= i < j < updates.len() ==> (#[trigger] updates[i]).update.node_id.id < (
                #[trigger] updates[j]).update.node_id.id
            &&& forall|i: int|
                0 <= i < updates.len() ==> m.peers.contains_key(
                    (#[trigger] updates[i]).update.node_id.id,
                )
            &&& m.peers.contains_key(id) ==> exists|i: int|
                0 <= i < updates.len() && tells_of(#[trigger] updates[i], m.peers[id])
            &&& after.pending.contains_key(seq)
            &&& after.pending[seq].target == target
            &&& after.pending[seq].stage == (PingStage::Direct { sent_at: now })
            &&& forall|k: u64|
                k != seq ==> (#[trigger] after.pending.contains_key(k) == m.pending.contains_key(
                    k,
                ) && (m.pending.contains_key(k) ==> after.pending[k] == m.pending[k]))
            &&& after.peers.contains_key(id) <==> m.peers.contains_key(id)
            &&& m.peers.contains_key(id) ==> same_standing(after.peers[id], m.peers[id])
            &&& after.metrics == m.metrics
            &&& after.seq == m.seq
            &&& after.config == m.config
        }),
{
    let m1 = EngineModel {
        pending: m.pending.insert(
            seq,
            PendingPing { target, stage: PingStage::Direct { sent_at: now } },
        ),
        ..m
    };
    let after = pinged(m, seq, target, now, wall);
    let ids = unstamped(m1.peers);
    let updates = gossip_updates(after.peers);
    let keys = ascending_u128(after.peers.dom());
    stamping_keeps_the_standing(m1, ids, wall, id);
    stamping_gives_events(m1, ids, wall);
    assert(after.peers.dom() =~= m.peers.dom());
    crate::ordered::ascending_lists_u128(after.peers.dom());
    members_count(keys, m.peers.dom());
    assert forall|i: int| 0 <= i < updates.len() implies (#[trigger] updates[i]).update.node_id.id
        == keys[i] && m.peers.contains_key(keys[i]) by {
        stamping_keeps_the_standing(m1, ids, wall, keys[i]);
        assert(keys.contains(keys[i]));
        assert(m.peers.contains_key(keys[i]));
    }
    if m.peers.contains_key(id) {
        assert(keys.contains(id));
        let i = choose|i: int| 0 <= i < keys.len() && keys[i] == id;
        assert(tells_of(updates[i], m.peers[id]));
    }
}

/// Whether gossip says of a peer what is held of it: its address, its incarnation and its
/// status.
pub open spec fn tells_of(told: StampedMembershipUpdate, peer: Peer) -> bool {
    &&& told.update.node_id == peer.node_id
    &&& told.update.addr == peer.addr
    &&& told.update.incarnation == peer.state.incarnation
    &&& told.update.status == peer.state.status
}

proof fn events_about_others(m: EngineModel, events: Seq<StampedMembershipUpdate>, now: Instant, id: u128)
    requires
        forall|i: int| 0 <= i < events.len() ==> (#[trigger] events[i]).update.node_id.id != id,
    ensures
        ({
            let after = events_applied(m, events, now).0;
            &&& after.peers.contains_key(id) == m.peers.contains_key(id)
            &&& after.peers[id] == m.peers[id]
            &&& after.latest.contains_key(id) == m.latest.contains_key(id)
            &&& after.latest[id] == m.latest[id]
        }),
    decreases events.len(),
{
    if events.len() > 0 {
        let fewer = events.drop_last();
        assert forall|i: int| 0 <= i < fewer.len() implies (#[trigger] fewer[i]).update.node_id.id
            != id by {
            assert(fewer[i] == events[i]);
        }
        events_about_others(m, fewer, now, id);
        assert(events[events.len() - 1].update.node_id.id != id);
    }
}

proof fn other_events_are_seen(
    m: EngineModel,
    events: Seq<StampedMembershipUpdate>,
    now: Instant,
    key: (u128, u64),
)
    requires
        forall|i: int| 0 <= i < events.len() ==> event_key((#[trigger] events[i]).event_id) != key,
    ensures
        events_applied(m, events, now).0.seen_events.contains(key) == m.seen_events.contains(key),
    decreases events.len(),
{
    if events.len() > 0 {
        let fewer = events.drop_last();
        assert forall|i: int| 0 <= i < fewer.len() implies event_key(
            (#[trigger] fewer[i]).event_id,
        ) != key by {
            assert(fewer[i] == events[i]);
        }
        other_events_are_seen(m, fewer, now, key);
        assert(event_key(events[events.len() - 1].event_id) != key);
    }
}

proof fn unknown_peer_is_learned(
    m: EngineModel,
    events: Seq<StampedMembershipUpdate>,
    now: Instant,
    i: int,
)
    requires
        0 <= i < events.len(),
        !m.peers.contains_key(events[i].update.node_id.id),
        !m.latest.contains_key(events[i].update.node_id.id),
        !m.seen_events.contains(event_key(events[i].event_id)),
        forall|j: int|
            0 <= j < events.len() && j != i ==> (#[trigger] events[j]).update.node_id.id
                != events[i].update.node_id.id && event_key(events[j].event_id) != event_key(
                events[i].event_id,
            ),
    ensures
        ({
            let id = events[i].update.node_id.id;
            let after = events_applied(m, events, now).0;
            &&& after.peers.contains_key(id)
            &&& tells_of(events[i], after.peers[id])
            &&& after.peers[id].state.event_id == Some(events[i].event_id)
            &&& after.peers[id].state.timestamp == Some(events[i].timestamp)
            &&& after.peers[id].state.last_seen == now
        }),
    decreases events.len(),
{
    let id = events[i].update.node_id.id;
    let key = event_key(events[i].event_id);
    let fewer = events.drop_last();
    assert forall|j: int| 0 <= j < fewer.len() implies #[trigger] fewer[j] == events[j] by {}
    if i == events.len() - 1 {
        assert forall|j: int| 0 <= j < fewer.len() implies (#[trigger] fewer[j]).update.node_id.id
            != id && event_key(fewer[j].event_id) != key by {
            assert(fewer[j] == events[j]);
        }
        events_about_others(m, fewer, now, id);
        other_events_are_seen(m, fewer, now, key);
    } else {
        unknown_peer_is_learned(m, fewer, now, i);
        assert(events[events.len() - 1].update.node_id.id != id);
    }
}

/// A node that takes in the gossip of another learns of each peer of which it knew nothing what
/// the other holds of it: its address, its incarnation and its status.
pub proof fn gossip_tells_of_unknown_peers(
    m: EngineModel,
    seq: u64,
    target: NodeId,
    sent: Instant,
    wall: u64,
    message: HlcGossipMessage,
    hearer: EngineModel,
    now: Instant,
    heard: u64,
    id: u128,
)
    requires
        m.peers.dom().finite(),
        keyed_by_node(m.peers),
        m.peers.contains_key(id),
        message.updates@ == gossip_updates(pinged(m, seq, target, sent, wall).peers),
        forall|i: int, j: int|
            0 <= i < j < message.updates@.len() ==> event_key(
                (#[trigger] message.updates@[i]).event_id,
            ) != event_key((#[trigger] message.updates@[j]).event_id),
        !hearer.seen_messages.contains(event_key(message.event_id)),
        forall|i: int|
            0 <= i < message.updates@.len() && (#[trigger] message.updates@[i]).update.node_id.id
                == id ==> !hearer.seen_events.contains(event_key(message.updates@[i].event_id)),
        !hearer.peers.contains_key(id),
        !hearer.latest.contains_key(id),
    ensures
        ({
            let after = gossip_applied(hearer, message, now, heard).0;
            &&& after.peers.contains_key(id)
            &&& after.peers[id].node_id == m.peers[id].node_id
            &&& after.peers[id].addr == m.peers[id].addr
            &&& after.peers[id].state.incarnation == m.peers[id].state.incarnation
            &&& after.peers[id].state.status == m.peers[id].state.status
            &&& after.peers[id].state.last_seen == now
        }),
{
    let updates = message.updates@;
    every_peer_is_told_of_once(m, seq, target, sent, wall, id);
    let i = choose|i: int| 0 <= i < updates.len() && tells_of(#[trigger] updates[i], m.peers[id]);
    assert(updates[i].update.node_id.id == id);
    let opened = EngineModel {
        clock: merged(hearer.clock, message.timestamp, heard),
        seen_messages: hearer.seen_messages.insert(event_key(message.event_id)),
        ..hearer
    };
    assert forall|j: int| 0 <= j < updates.len() && j != i implies (
    #[trigger] updates[j]).update.node_id.id != id && event_key(updates[j].event_id) != event_key(
        updates[i].event_id,
    ) by {
        if j < i {
            assert(updates[j].update.node_id.id < updates[i].update.node_id.id);
        } else {
            assert(updates[i].update.node_id.id < updates[j].update.node_id.id);
        }
    }
    unknown_peer_is_learned(opened, updates, now, i);
}

/// A node that is heard from directly is a peer with the status it shows, was seen now, and is
/// found where it was heard from; its incarnation stays. It gets a new event exactly where its
/// status is new. No other peer changes, and nothing that is waited for or counted.
pub proof fn hearing_from_a_node(
    m: EngineModel,
    node: NodeId,
    addr: NodeAddr,
    status: Status,
    now: Instant,
    wall: u64,
    other: u128,
)
    ensures
        ({
            let after = touched(m, node, addr, status, now, wall);
            let known = m.peers.contains_key(node.id);
            let peer = after.peers[node.id];
            let news = !known || m.peers[node.id].state.status != status;
            &&& after.peers.contains_key(node.id)
            &&& peer.state.status == status
            &&& peer.state.last_seen == now
            &&& peer.addr == addr
            &&& !known ==> peer.node_id == node && peer.state.incarnation == 0
                && peer.state.suspect_since is None
            &&& known ==> peer.node_id == m.peers[node.id].node_id && peer.state.incarnation
                == m.peers[node.id].state.incarnation && peer.state.suspect_since
                == m.peers[node.id].state.suspect_since
            &&& news ==> peer.state.timestamp == Some(after.clock) && peer.state.event_id == Some(
                HlcEventId { source: m.node_id, sequence: after.event_sequence },
            ) && after.latest.contains_key(node.id) && after.latest[node.id] == after.clock
            &&& !news ==> peer.state.timestamp == m.peers[node.id].state.timestamp
                && peer.state.event_id == m.peers[node.id].state.event_id && after.clock == m.clock
                && after.event_sequence == m.event_sequence && after.latest == m.latest
            &&& other != node.id ==> {
                &&& after.peers.contains_key(other) == m.peers.contains_key(other)
                &&& m.peers.contains_key(other) ==> after.peers[other] == m.peers[other]
            }
            &&& same_but_events(after, m)
        }),
{
}

/// An answer counts, unless its sender is dead: the sender is then alive and under no suspicion,
/// was seen now, keeps its incarnation, and gets a new event exactly where it was not alive
/// before. The ping that it answers is settled, other pings are still waited for, and no other
/// peer changes.
pub proof fn answer_clears_its_sender(
    m: EngineModel,
    from: NodeId,
    seq: u64,
    addr: NodeAddr,
    now: Instant,
    wall: u64,
    other: u128,
    ping: u64,
)
    requires
        m.peers.contains_key(from.id) ==> m.peers[from.id].state.status != Status::Dead,
    ensures
        ({
            let after = acknowledged(m, from, seq, addr, now, wall);
            let known = m.peers.contains_key(from.id);
            let peer = after.peers[from.id];
            let was_alive = known && m.peers[from.id].state.status == Status::Alive;
            &&& peer.state.status == Status::Alive
            &&& peer.state.suspect_since is None
            &&& peer.state.last_seen == now
            &&& known ==> peer.addr == m.peers[from.id].addr && peer.node_id
                == m.peers[from.id].node_id && peer.state.incarnation
                == m.peers[from.id].state.incarnation
            &&& !known ==> peer.addr == addr && peer.node_id == from && peer.state.incarnation == 0
            &&& was_alive ==> peer.state.event_id == m.peers[from.id].state.event_id
                && peer.state.timestamp == m.peers[from.id].state.timestamp && after.clock
                == m.clock && after.event_sequence == m.event_sequence
            &&& !was_alive ==> peer.state.timestamp == Some(after.clock) && peer.state.event_id
                == Some(HlcEventId { source: m.node_id, sequence: after.event_sequence })
            &&& !after.pending.contains_key(seq)
            &&& ping != seq ==> after.pending.contains_key(ping) == m.pending.contains_key(ping)
            &&& ping != seq && m.pending.contains_key(ping) ==> after.pending[ping]
                == m.pending[ping]
            &&& other != from.id ==> after.peers.contains_key(other) == m.peers.contains_key(other)
            &&& other != from.id && m.peers.contains_key(other) ==> after.peers[other]
                == m.peers[other]
            &&& m.metrics.received < u64::MAX ==> after.metrics.received == m.metrics.received + 1
            &&& after.metrics.sent == m.metrics.sent
            &&& after.metrics.status_events == m.metrics.status_events
        }),
{
}

proof fn changes_are_counted(m: EngineModel, n: nat)
    ensures
        ({
            let after = status_events(m, n);
            &&& m.metrics.status_events + n <= u64::MAX ==> after.metrics.status_events
                == m.metrics.status_events + n
            &&& after.metrics.sent == m.metrics.sent
            &&& after.metrics.received == m.metrics.received
            &&& after == (EngineModel { metrics: after.metrics, ..m })
        }),
    decreases n,
{
    if n > 0 {
        changes_are_counted(m, (n - 1) as nat);
    }
}

/// Messages that come in and changes of status are counted one by one, each by its own counter,
/// and counting changes nothing else.
pub proof fn what_happens_is_counted(m: EngineModel, n: nat)
    ensures
        m.metrics.received < u64::MAX ==> received(m).metrics.received == m.metrics.received + 1,
        received(m).metrics.sent == m.metrics.sent,
        received(m).metrics.status_events == m.metrics.status_events,
        received(m) == (EngineModel { metrics: received(m).metrics, ..m }),
        m.metrics.status_events + n <= u64::MAX ==> status_events(m, n).metrics.status_events
            == m.metrics.status_events + n,
        status_events(m, n).metrics.sent == m.metrics.sent,
        status_events(m, n).metrics.received == m.metrics.received,
        status_events(m, n) == (EngineModel { metrics: status_events(m, n).metrics, ..m }),
{
    changes_are_counted(m, n);
}

/// An update that counts is what is held of its peer from then on: its incarnation, status and
/// address. The peer was seen now where the update brings a new peer or a new incarnation, and is
/// under suspicion from now on exactly where the update suspects it. A known peer whose status
/// differs is counted as changed. No other peer changes, and no clock, ping or memory of events.
pub proof fn update_is_taken_over(m: EngineModel, update: MembershipUpdate, now: Instant, other: u128)
    requires
        update_counts(m, update),
    ensures
        ({
            let id = update.node_id.id;
            let after = updated(m, update, now);
            let known = m.peers.contains_key(id);
            let peer = after.peers[id];
            &&& after.peers.contains_key(id)
            &&& peer.state.incarnation == update.incarnation
            &&& peer.state.status == update.status
            &&& peer.addr == update.addr
            &&& update.status == Status::Suspect ==> peer.state.suspect_since == Some(now)
            &&& update.status != Status::Suspect ==> peer.state.suspect_since is None
            &&& !known ==> peer.node_id == update.node_id && peer.state.last_seen == now
                && peer.state.event_id is None && peer.state.timestamp is None
            &&& known ==> peer.node_id == m.peers[id].node_id && peer.state.event_id
                == m.peers[id].state.event_id && peer.state.timestamp
                == m.peers[id].state.timestamp
            &&& known && update.incarnation > m.peers[id].state.incarnation
                ==> peer.state.last_seen == now
            &&& known && update.incarnation == m.peers[id].state.incarnation
                ==> peer.state.last_seen == m.peers[id].state.last_seen
            &&& other != id ==> after.peers.contains_key(other) == m.peers.contains_key(other)
            &&& other != id && m.peers.contains_key(other) ==> after.peers[other]
                == m.peers[other]
            &&& known && m.peers[id].state.status != update.status
                && m.metrics.status_events < u64::MAX ==> after.metrics.status_events
                == m.metrics.status_events + 1
            &&& !known || m.peers[id].state.status == update.status ==> after.metrics == m.metrics
            &&& after.metrics.sent == m.metrics.sent
            &&& after.metrics.received == m.metrics.received
            &&& after == (EngineModel { peers: after.peers, metrics: after.metrics, ..m })
        }),
{
}

/// An event is remembered whether or not it is news. It is news exactly where it was not seen and
/// is later than all that was seen of its node; its time is then the latest seen of the node, and
/// it is applied exactly where its update counts, and becomes the event of its peer.
pub proof fn event_is_applied_where_it_is_news(m: EngineModel, event: StampedMembershipUpdate, now: Instant)
    ensures
        ({
            let id = event.update.node_id.id;
            let (after, applied) = event_applied(m, event, now);
            let known_key = (event.event_id.source.id, event.event_id.sequence);
            let outdated = m.latest.contains_key(id) && (m.latest[id] == event.timestamp
                || event.timestamp.before(m.latest[id]));
            let news = !m.seen_events.contains(known_key) && !outdated;
            &&& after.seen_events.contains(known_key)
            &&& !news ==> !applied && after.peers == m.peers && after.latest == m.latest
                && after.metrics == m.metrics
            &&& news ==> after.latest.contains_key(id) && after.latest[id] == event.timestamp
            &&& news ==> (applied <==> update_counts(m, event.update))
            &&& !applied ==> after.peers == m.peers
            &&& applied ==> {
                &&& after.peers.contains_key(id)
                &&& after.peers[id].state.event_id == Some(event.event_id)
                &&& after.peers[id].state.timestamp == Some(event.timestamp)
                &&& after.peers[id].state.incarnation == event.update.incarnation
                &&& after.peers[id].state.status == event.update.status
                &&& after.peers[id].addr == event.update.addr
            }
            &&& after.clock == m.clock
            &&& after.event_sequence == m.event_sequence
            &&& after.pending == m.pending
            &&& after.seen_messages == m.seen_messages
        }),
{
}

/// A ping is overdue, or lapses, from the moment on at which its time is up; one that is overdue
/// is asked for indirectly from now on, for the same node, one that lapsed is given up, and all
/// others are waited for as before.
pub proof fn pings_are_judged_by_time(m: EngineModel, now: Instant, k: u64)
    requires
        m.pending.contains_key(k),
    ensures
        ({
            let ping = m.pending[k];
            let after = pending_after(m, now);
            let direct = m.config.ping_timeout.nanos;
            let indirect = m.config.indirect_ping_timeout.nanos;
            &&& ping.stage matches PingStage::Direct { sent_at } ==> {
                &&& !lapsed(ping, m.config, now)
                &&& overdue(ping, m.config, now) <==> direct == 0 || sent_at.nanos + direct
                    <= now.nanos
            }
            &&& ping.stage matches PingStage::Indirect { requested_at } ==> {
                &&& !overdue(ping, m.config, now)
                &&& lapsed(ping, m.config, now) <==> indirect == 0 || requested_at.nanos + indirect
                    <= now.nanos
            }
            &&& after.contains_key(k) <==> !lapsed(ping, m.config, now)
            &&& overdue(ping, m.config, now) ==> after[k].target == ping.target && after[k].stage
                == (PingStage::Indirect { requested_at: now })
            &&& after.contains_key(k) && !overdue(ping, m.config, now) ==> after[k] == ping
        }),
{
}

/// No ping is waited for that was not waited for before, and the overdue and the lapsed ones are
/// listed by increasing number.
pub proof fn pings_are_listed_in_order(m: EngineModel, now: Instant, k: u64)
    requires
        m.pending.dom().finite(),
    ensures
        pending_after(m, now).contains_key(k) ==> m.pending.contains_key(k),
        overdue_pings(m, now).contains(k) <==> m.pending.contains_key(k) && overdue(
            m.pending[k],
            m.config,
            now,
        ),
        lapsed_pings(m, now).contains(k) <==> m.pending.contains_key(k) && lapsed(
            m.pending[k],
            m.config,
            now,
        ),
        increasing_u64(overdue_pings(m, now)),
        increasing_u64(lapsed_pings(m, now)),
{
    let due = Set::new(|k: u64| m.pending.contains_key(k) && overdue(m.pending[k], m.config, now));
    let gone = Set::new(|k: u64| m.pending.contains_key(k) && lapsed(m.pending[k], m.config, now));
    assert(due =~= m.pending.dom().intersect(due));
    assert(gone =~= m.pending.dom().intersect(gone));
    assert(due.finite());
    assert(gone.finite());
    crate::ordered::ascending_lists_u64(due);
    crate::ordered::ascending_lists_u64(gone);
}

/// A peer that did not answer is suspected from now on where it was alive, and this is a change
/// from alive to suspect at its own incarnation; any other is left as it is.
pub proof fn silent_peer_is_suspected(m: EngineModel, target: NodeId, now: Instant, wall: u64, other: u128)
    ensures
        ({
            let (after, changes) = suspected(m, target, now, wall);
            let was_alive = m.peers.contains_key(target.id) && m.peers[target.id].state.status
                == Status::Alive;
            &&& was_alive ==> {
                let peer = after.peers[target.id];
                &&& peer.state.status == Status::Suspect
                &&& peer.state.suspect_since == Some(now)
                &&& peer.state.incarnation == m.peers[target.id].state.incarnation
                &&& peer.state.last_seen == m.peers[target.id].state.last_seen
                &&& peer.addr == m.peers[target.id].addr
                &&& peer.state.timestamp == Some(after.clock)
                &&& changes.len() == 1
                &&& changes[0].node_id == target
                &&& changes[0].from == Status::Alive
                &&& changes[0].to == Status::Suspect
                &&& changes[0].incarnation == m.peers[target.id].state.incarnation
            }
            &&& !was_alive ==> after == m && changes.len() == 0
            &&& other != target.id ==> after.peers.contains_key(other) == m.peers.contains_key(
                other,
            )
            &&& other != target.id && m.peers.contains_key(other) ==> after.peers[other]
                == m.peers[other]
            &&& same_but_events(after, m)
        }),
{
}

/// Of all the peers that did not answer, exactly those that were alive are suspected in the end,
/// and there is one change for each of them.
pub proof fn silent_peers_are_suspected(
    m: EngineModel,
    pings: Seq<u64>,
    pending: Map<u64, PendingPing>,
    now: Instant,
    wall: u64,
    id: u128,
)
    requires
        m.peers.contains_key(id),
    ensures
        ({
            let (after, changes) = all_suspected(m, pings, pending, now, wall);
            let silent = exists|i: int| #![trigger pings[i]]
                0 <= i < pings.len() && pending[pings[i]].target.id == id;
            let before = m.peers[id].state;
            let state = after.peers[id].state;
            &&& after.peers.contains_key(id)
            &&& silent && before.status == Status::Alive ==> state.status == Status::Suspect
                && state.suspect_since == Some(now) && changed_nodes(changes).contains(id)
            &&& !(silent && before.status == Status::Alive) ==> after.peers[id] == m.peers[id]
                && !changed_nodes(changes).contains(id)
            &&& state.incarnation == before.incarnation
            &&& state.last_seen == before.last_seen
            &&& after.pending == m.pending
            &&& after.metrics == m.metrics
        }),
    decreases pings.len(),
{
    if pings.len() > 0 {
        let fewer = pings.drop_last();
        silent_peers_are_suspected(m, fewer, pending, now, wall, id);
        let (before, old_changes) = all_suspected(m, fewer, pending, now, wall);
        let target = pending[pings.last()].target;
        let (after, change) = suspected(before, target, now, wall);
        let changes = old_changes + change;
        assert(pings[pings.len() - 1] == pings.last());
        assert forall|i: int| 0 <= i < fewer.len() implies #[trigger] fewer[i] == pings[i] by {}
        let was_silent = exists|i: int| #![trigger fewer[i]]
            0 <= i < fewer.len() && pending[fewer[i]].target.id == id;
        if was_silent {
            let i = choose|i: int| #![trigger fewer[i]]
                0 <= i < fewer.len() && pending[fewer[i]].target.id == id;
            assert(pending[pings[i]].target.id == id);
        }
        if exists|i: int| #![trigger pings[i]] 0 <= i < pings.len() && pending[pings[i]].target.id == id {
            let i = choose|i: int| #![trigger pings[i]]
                0 <= i < pings.len() && pending[pings[i]].target.id == id;
            if i < fewer.len() {
                assert(pending[fewer[i]].target.id == id);
            }
        }
        let nodes = changed_nodes(changes);
        let old_nodes = changed_nodes(old_changes);
        let new_nodes = changed_nodes(change);
        assert(nodes =~= old_nodes + new_nodes);
        if old_nodes.contains(id) {
            let i = choose|i: int| 0 <= i < old_nodes.len() && old_nodes[i] == id;
            assert(nodes[i] == id);
        }
        if target.id == id && change.len() > 0 {
            assert(new_nodes[0] == id);
            assert(nodes[old_nodes.len() as int] == id);
        }
        if nodes.contains(id) {
            let i = choose|i: int| 0 <= i < nodes.len() && nodes[i] == id;
            if i < old_nodes.len() {
                assert(old_nodes[i] == id);
            } else {
                assert(new_nodes[i - old_nodes.len()] == id);
                assert(target.id == id);
            }
        }
    }
}

/// Only peers that are not dead are asked, each of them may be, and the one that is asked about
/// is not asked itself.
pub proof fn dead_peers_are_not_asked(peers: Map<u128, Peer>, about: NodeId, id: u128)
    ensures
        live_peers(peers, None).contains(id) <==> peers.contains_key(id) && (peers[id].state.status
            == Status::Alive || peers[id].state.status == Status::Suspect),
        live_peers(peers, Some(about)).contains(id) <==> live_peers(peers, None).contains(id) && id
            != about.id,
{
}

/// A node is waited for from the moment a ping to it went out until its answer came, where no
/// other ping to it is open.
pub proof fn node_is_waited_for(m: EngineModel, seq: u64, target: NodeId, now: Instant, wall: u64)
    ensures
        awaits(pinged(m, seq, target, now, wall), target),
        awaits((EngineModel { pending: m.pending.remove(seq), ..m }), target) ==> awaits(m, target),
        (forall|k: u64| #[trigger]
            m.pending.contains_key(k) && m.pending[k].target == target ==> k == seq) ==> !awaits(
            (EngineModel { pending: m.pending.remove(seq), ..m }),
            target,
        ),
{
    let m1 = EngineModel {
        pending: m.pending.insert(
            seq,
            PendingPing { target, stage: PingStage::Direct { sent_at: now } },
        ),
        ..m
    };
    stamping_keeps_the_standing(m1, unstamped(m1.peers), wall, 0);
    assert(pinged(m, seq, target, now, wall).pending.contains_key(seq));
    let removed = EngineModel { pending: m.pending.remove(seq), ..m };
    if awaits(removed, target) {
        let k = choose|k: u64| #[trigger]
            removed.pending.contains_key(k) && removed.pending[k].target == target;
        assert(m.pending.contains_key(k));
    }
}

/// A message is sound exactly where it is not earlier than any of its updates.
pub proof fn sound_message_is_the_latest(message: HlcGossipMessage, i: int)
    requires
        0 <= i < message.updates@.len(),
    ensures
        envelope_is_sound(message) ==> message.updates@[i].timestamp == message.timestamp
            || message.updates@[i].timestamp.before(message.timestamp),
        message.timestamp.before(message.updates@[i].timestamp) ==> !envelope_is_sound(message),
{
}

/// A ping is answered to its sender, under its number and in this node's name, and its sender is
/// alive; a request to ping on behalf of another is passed on to its target, in the name of who
/// asked.
pub proof fn pings_are_answered(
    engine: &mut GossipEngine,
    helper: &mut GossipEngine,
    from: NodeId,
    seq: u64,
    target: NodeId,
    addr: NodeAddr,
    now: Instant,
    wall: u64,
    answer: Outgoing,
    passed: Outgoing,
)
    requires
        call_ensures(GossipEngine::handle_ping, (engine, from, seq, addr, now, wall), answer),
        call_ensures(
            GossipEngine::handle_ping_req,
            (helper, from, seq, target, addr, now, wall),
            passed,
        ),
    ensures
        answer.target == from,
        answer.frame == (Frame::Ack { seq, from: old(engine)@.node_id }),
        final(engine)@.peers.contains_key(from.id),
        final(engine)@.peers[from.id].state.status == Status::Alive,
        final(engine)@.peers[from.id].state.last_seen == now,
        final(engine)@.peers[from.id].addr == addr,
        old(engine)@.metrics.received < u64::MAX ==> final(engine)@.metrics.received
            == old(engine)@.metrics.received + 1,
        final(engine)@.pending == old(engine)@.pending,
        passed.target == target,
        passed.frame == (Frame::Ping { seq, from }),
        final(helper)@.peers.contains_key(from.id),
        final(helper)@.peers[from.id].state.status == Status::Alive,
        final(helper)@.pending == old(helper)@.pending,
{
}

/// A node is pinged only where no ping to it is open, under a number of its own; helpers are asked
/// to ping the same target under the same number.
pub proof fn pings_have_their_own_number(
    engine: &mut GossipEngine,
    target: NodeId,
    out: Option<Outgoing>,
    asking: &GossipEngine,
    seq: u64,
    helpers: &[u128],
    asked: Vec<Outgoing>,
    i: int,
)
    requires
        call_ensures(GossipEngine::begin_ping, (engine, target), out),
        call_ensures(GossipEngine::ping_requests, (asking, seq, target, helpers), asked),
    ensures
        out is None <==> exists|k: u64| #[trigger]
            old(engine)@.pending.contains_key(k) && old(engine)@.pending[k].target == target,
        out is None ==> final(engine)@ == old(engine)@,
        out matches Some(ping) ==> {
            &&& ping.target == target
            &&& ping.frame == (Frame::Ping {
                seq: final(engine)@.seq,
                from: old(engine)@.node_id,
            })
            &&& final(engine)@.seq != old(engine)@.seq
            &&& old(engine)@.seq < u64::MAX ==> final(engine)@.seq == old(engine)@.seq + 1
            &&& final(engine)@.peers == old(engine)@.peers
            &&& final(engine)@.pending == old(engine)@.pending
        },
        asked@.len() == helpers@.len(),
        0 <= i < helpers@.len() ==> asked@[i].target.id == helpers@[i] && asked@[i].frame
            == (Frame::PingReq { seq, from: asking@.node_id, target }),
{
}

/// For every peer there is exactly one update in the gossip that goes with a ping, with the
/// peer's own address, incarnation and status; the message goes to the node that was pinged, is an
/// event of this node, and there is none exactly where there are no peers.
pub proof fn gossip_goes_with_the_ping(
    engine: &mut GossipEngine,
    seq: u64,
    target: NodeId,
    now: Instant,
    wall: u64,
    out: Option<Outgoing>,
    id: u128,
)
    requires
        stamps_have_events(old(engine)@.peers),
        old(engine)@.peers.dom().finite(),
        keyed_by_node(old(engine)@.peers),
        call_ensures(GossipEngine::ping_sent, (engine, seq, target, now, wall), out),
    ensures
        out is None <==> old(engine)@.peers.dom().len() == 0,
        out matches Some(sent) ==> {
            &&& sent.target == target
            &&& sent.frame matches Frame::HlcGossip(message)
            &&& message.event_id == (HlcEventId {
                source: old(engine)@.node_id,
                sequence: final(engine)@.event_sequence,
            })
            &&& message.timestamp == final(engine)@.clock
            &&& message.updates@.len() == old(engine)@.peers.dom().len()
            &&& forall|i: int, j: int|
                0 <= i < j < message.updates@.len() ==> (
                #[trigger] message.updates@[i]).update.node_id.id < (
                #[trigger] message.updates@[j]).update.node_id.id
            &&& old(engine)@.peers.contains_key(id) ==> exists|i: int|
                0 <= i < message.updates@.len() && tells_of(
                    #[trigger] message.updates@[i],
                    old(engine)@.peers[id],
                )
        },
        final(engine)@.pending.contains_key(seq),
        final(engine)@.pending[seq].target == target,
        final(engine)@.pending[seq].stage == (PingStage::Direct { sent_at: now }),
{
    let m = old(engine)@;
    every_peer_is_told_of_once(m, seq, target, now, wall, id);
    let m1 = EngineModel {
        pending: m.pending.insert(
            seq,
            PendingPing { target, stage: PingStage::Direct { sent_at: now } },
        ),
        ..m
    };
    stamping_keeps_the_standing(m1, unstamped(m1.peers), wall, id);
    stamping_gives_events(m1, unstamped(m1.peers), wall);
    assert(pinged(m, seq, target, now, wall).peers.dom() =~= m.peers.dom());
}

/// What has waited too long for an answer is asked for through others, each ping once and for its
/// own target.
pub proof fn overdue_pings_are_asked_for(
    engine: &mut GossipEngine,
    now: Instant,
    wall: u64,
    due: Vec<(u64, NodeId)>,
    changes: Vec<StatusChange>,
    i: int,
)
    requires
        old(engine)@.pending.dom().finite(),
        call_ensures(GossipEngine::expire_pings, (engine, now, wall), (due, changes)),
        0 <= i < due@.len(),
    ensures
        old(engine)@.pending.contains_key(due@[i].0),
        due@[i].1 == old(engine)@.pending[due@[i].0].target,
        overdue(old(engine)@.pending[due@[i].0], old(engine)@.config, now),
        i > 0 ==> due@[i - 1].0 < due@[i].0,
{
    let m = old(engine)@;
    let list = overdue_pings(m, now);
    assert(list.contains(list[i]));
    pings_are_listed_in_order(m, now, list[i]);
}

/// Gossip is taken in exactly where it is sound and not too far ahead of the wall clock; else
/// nothing changes. The clock is then later than the message, unless time is at its end.
pub proof fn sound_gossip_is_taken_in(
    engine: &mut GossipEngine,
    message: HlcGossipMessage,
    now: Instant,
    wall: u64,
    r: Result<usize, GossipError>,
)
    requires
        call_ensures(GossipEngine::apply_hlc_gossip, (engine, &message, now, wall), r),
        old(engine)@.clock != crate::gossip::hlc::greatest(),
        message.timestamp != crate::gossip::hlc::greatest(),
    ensures
        r is Ok <==> envelope_is_sound(message) && message.timestamp.physical <= skew_limit(
            wall,
            skew_millis(old(engine)@.skew),
        ),
        r is Err ==> final(engine)@ == old(engine)@,
        r is Err && !envelope_is_sound(message) ==> r->Err_0 is InvalidHlcEnvelope,
        r is Err && envelope_is_sound(message) ==> r->Err_0 is Hlc,
        r is Ok ==> {
            &&& message.timestamp.before(final(engine)@.clock)
            &&& old(engine)@.clock.before(final(engine)@.clock)
            &&& final(engine)@.seen_messages.contains(
                (message.event_id.source.id, message.event_id.sequence),
            )
        },
{
    if r is Ok {
        crate::gossip::hlc::receive_moves_forward(old(engine)@.clock, message.timestamp, wall);
        message_is_remembered(old(engine)@, message, now, wall);
        let heard = EngineModel {
            clock: merged(old(engine)@.clock, message.timestamp, wall),
            seen_messages: old(engine)@.seen_messages.insert(event_key(message.event_id)),
            ..old(engine)@
        };
        events_leave_the_clock(heard, message.updates@, now);
    }
}

/// A message that was sent is counted as sent, and an answer counts as it should.
pub proof fn sending_is_counted(engine: &mut GossipEngine)
    requires
        call_ensures(GossipEngine::note_sent, (engine,), ()),
    ensures
        old(engine)@.metrics.sent < u64::MAX ==> final(engine)@.metrics.sent
            == old(engine)@.metrics.sent + 1,
        final(engine)@.metrics.received == old(engine)@.metrics.received,
        final(engine)@.metrics.status_events == old(engine)@.metrics.status_events,
        final(engine)@.peers == old(engine)@.peers,
        final(engine)@.pending == old(engine)@.pending,
{
}

/// A node begins with the membership that it is given and nothing else: no ping is open, nothing
/// was counted or heard, and its clock shows the wall time.
pub proof fn node_begins_with_its_membership(
    node_id: NodeId,
    config: GossipConfig,
    membership: MembershipView,
    wall: u64,
    engine: GossipEngine,
)
    requires
        call_ensures(GossipEngine::new, (node_id, config, membership, wall), engine),
    ensures
        engine@.node_id == node_id,
        engine@.config == config,
        engine@.peers == membership@,
        engine@.clock.physical == wall && engine@.clock.logical == 0,
        engine@.skew.nanos == 1_000_000_000,
        engine@.metrics.sent == 0 && engine@.metrics.received == 0 && engine@.metrics.status_events
            == 0,
        engine@.seq == 0 && engine@.event_sequence == 0,
        forall|k: u64| !#[trigger] engine@.pending.contains_key(k),
        forall|k: u128| !#[trigger] engine@.latest.contains_key(k),
{
}

/// Time alone changes the status of each peer as its silence says, tells of each change, counts
/// it, and gives the peer an event for it.
pub proof fn silence_changes_the_status(
    engine: &mut GossipEngine,
    now: Instant,
    wall: u64,
    changes: Vec<StatusChange>,
    id: u128,
)
    requires
        call_ensures(GossipEngine::apply_timeouts, (engine, now, wall), changes),
        old(engine)@.peers.contains_key(id),
    ensures
        ({
            let m = old(engine)@;
            let before = m.peers[id].state;
            let judged = crate::gossip::util::timed_out(
                before,
                now,
                m.config.indirect_ping_timeout,
                m.config.suspect_to_dead_timeout,
            );
            let after = final(engine)@.peers[id];
            &&& final(engine)@.peers.contains_key(id)
            &&& after.state.status == judged.status
            &&& after.state.suspect_since == judged.suspect_since
            &&& after.state.incarnation == before.incarnation
            &&& after.state.last_seen == before.last_seen
            &&& after.addr == m.peers[id].addr
            &&& before.status != judged.status ==> changed_nodes(changes@).contains(id)
            &&& final(engine)@.pending == m.pending
            &&& m.metrics.status_events + changes@.len() <= u64::MAX
                ==> final(engine)@.metrics.status_events == m.metrics.status_events + changes@.len()
        }),
{
    let m = old(engine)@;
    let peers = all_timed_out(
        m.peers,
        now,
        m.config.indirect_ping_timeout,
        m.config.suspect_to_dead_timeout,
    );
    let m1 = EngineModel { peers, ..m };
    changes_are_counted(m1, changes@.len());
    stamping_keeps_the_standing(
        status_events(m1, changes@.len()),
        changed_nodes(changes@),
        wall,
        id,
    );
    if m.peers[id].state.status != peers[id].state.status {
        crate::gossip::util::changes_are_those_that_happened(changes@, m.peers, peers, 0, id);
        let j = choose|j: int| 0 <= j < changes@.len() && (#[trigger] changes@[j]).node_id.id == id;
        assert(changed_nodes(changes@)[j] == id);
    }
}

} // verus!

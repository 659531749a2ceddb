//! A seeded network that a simulation drives one packet at a time.
//!
//! The network decides when each packet is due, how often it arrives and whether it
//! arrives at all. It hands a packet that is to arrive back to its caller, which puts it
//! in the target's inbox and confirms it.

use std::collections::{BTreeMap, BTreeSet};
use vstd::prelude::*;

use crate::bytes::copy_range;
use crate::error::TransportError;
use crate::mock::backend::{BackendView, DeterministicBackend};
use crate::mock::schedule::{
    effects_at, in_order, DirectedLink, FaultEffect, FaultSchedule, ScheduleView,
};
use crate::mock::trace::{
    event_text, fingerprint, frame_fingerprint, stable_event, EventKind, EventRecord,
    EventView,
};
use crate::node::{NodeAddr, NodeId};
use crate::ordered::{ascending_is_u128, ascending_u128, sorted_keys_u128};

verus! {

/// The number of the last packet whose copies can be told apart.
pub const LAST_PACKET: u64 = 0x0001_0001_0001_0000;

/// The place of a packet's copy among those under way: when it is due decides, then the
/// order in which it was sent.
#[derive(Debug, Clone, Copy, PartialEq, Eq, Structural)]
pub struct QueueKey {
    pub due: u64,
    pub ordinal: u64,
    pub packet_id: u64,
    pub copy: u16,
}

/// Whether `a` comes before `b`.
pub open spec fn key_before(a: QueueKey, b: QueueKey) -> bool {
    a.due < b.due || (a.due == b.due && a.ordinal < b.ordinal)
}

/// A copy of a packet under way.
#[derive(Debug)]
pub struct QueuedPacket {
    pub key: QueueKey,
    pub link: DirectedLink,
    pub source_generation: u64,
    pub target_generation: u64,
    pub frame: Vec<u8>,
    pub frame_fingerprint: String,
}

/// A copy of a packet under way, seen as plain values.
pub struct PacketView {
    pub key: QueueKey,
    pub link: DirectedLink,
    pub source_generation: u64,
    pub target_generation: u64,
    pub frame: Seq<u8>,
    pub frame_fingerprint: Seq<char>,
}

impl View for QueuedPacket {
    type V = PacketView;

    open spec fn view(&self) -> PacketView {
        PacketView {
            key: self.key,
            link: self.link,
            source_generation: self.source_generation,
            target_generation: self.target_generation,
            frame: self.frame@,
            frame_fingerprint: self.frame_fingerprint@,
        }
    }
}

/// The state of a network.
#[verifier::ext_equal]
pub struct NetworkView {
    pub schedule: ScheduleView,
    pub now: u64,
    /// The generation of each node that is connected.
    pub peers: Map<u128, u64>,
    /// The last generation of each node that ever was.
    pub generations: Map<u128, u64>,
    /// How many packets each link has been given.
    pub occurrences: Map<(u128, u128), u64>,
    pub partitions: Set<(u128, u128)>,
    pub queue: Seq<PacketView>,
    pub events: Seq<EventView>,
    pub next_packet_id: u64,
}

/// The link as a key.
pub open spec fn link_key(link: DirectedLink) -> (u128, u128) {
    (link.source.id, link.target.id)
}

/// The number that orders the copies of packets.
pub open spec fn ordinal_of(packet_id: u64, copy: u16) -> int {
    packet_id * 65535 + copy
}

/// Whether packets stand in strictly increasing order.
pub open spec fn queue_in_order(queue: Seq<PacketView>) -> bool {
    forall|i: int, j: int|
        0 <= i < j < queue.len() ==> key_before((#[trigger] queue[i]).key, (#[trigger] queue[j]).key)
}

/// Whether a packet's numbers are those of a packet sent before `next_packet_id`, between
/// generations no later than the last.
pub open spec fn packet_is_sound(p: PacketView, next_packet_id: u64, generations: Map<u128, u64>) -> bool {
    &&& p.key.packet_id < next_packet_id
    &&& p.key.copy < 65535
    &&& p.key.ordinal == ordinal_of(p.key.packet_id, p.key.copy)
    &&& generations.contains_key(p.link.source.id)
    &&& p.source_generation <= generations[p.link.source.id]
    &&& generations.contains_key(p.link.target.id)
    &&& p.target_generation <= generations[p.link.target.id]
}

/// The invariant of a network.
pub open spec fn network_is_sound(s: NetworkView) -> bool {
    &&& in_order(s.schedule.rules)
    &&& s.next_packet_id <= LAST_PACKET + 1
    &&& forall|l: (u128, u128)| #[trigger]
        s.occurrences.contains_key(l) ==> s.occurrences[l] <= s.next_packet_id
    &&& forall|n: u128| #[trigger]
        s.peers.contains_key(n) ==> s.generations.contains_key(n) && s.generations[n] == s.peers[n]
    &&& queue_in_order(s.queue)
    &&& forall|i: int| 0 <= i < s.queue.len() ==> packet_is_sound(
        #[trigger] s.queue[i],
        s.next_packet_id,
        s.generations,
    )
    &&& forall|i: int| 0 <= i < s.events.len() ==> (#[trigger] s.events[i]).sequence == i
}

/// The network before anything happened.
pub open spec fn quiet(schedule: ScheduleView) -> NetworkView {
    NetworkView {
        schedule,
        now: 0,
        peers: Map::empty(),
        generations: Map::empty(),
        occurrences: Map::empty(),
        partitions: Set::empty(),
        queue: Seq::empty(),
        events: Seq::empty(),
        next_packet_id: 0,
    }
}

/// An event of a kind that comes next, with nothing more to say.
pub open spec fn next_event(s: NetworkView, kind: EventKind) -> EventView {
    EventView {
        sequence: s.events.len() as u64,
        time: s.now,
        kind,
        packet_id: None,
        parent_packet_id: None,
        copy: None,
        link: None,
        node: None,
        generation: None,
        frame_fingerprint: None,
    }
}

/// The network after an event was noted.
pub open spec fn recorded(s: NetworkView, event: EventView) -> NetworkView {
    NetworkView { events: s.events.push(event), ..s }
}

/// The generation that a node gets when it connects.
pub open spec fn new_generation(s: NetworkView, node: NodeId) -> u64 {
    if s.generations.contains_key(node.id) {
        (s.generations[node.id] + 1) as u64
    } else {
        0
    }
}

/// The network after a node connected. A node that was there before is noted.
pub open spec fn connected(s: NetworkView, node: NodeId) -> NetworkView {
    let generation = new_generation(s, node);
    let joined = NetworkView {
        peers: s.peers.insert(node.id, generation),
        generations: s.generations.insert(node.id, generation),
        ..s
    };
    if s.generations.contains_key(node.id) {
        recorded(
            joined,
            EventView {
                node: Some(node),
                generation: Some(generation),
                ..next_event(s, EventKind::Reconnected)
            },
        )
    } else {
        joined
    }
}

/// The network after a node's generation left. A later generation stays.
pub open spec fn disconnected(s: NetworkView, node: NodeId, generation: u64) -> NetworkView {
    if s.peers.contains_key(node.id) && s.peers[node.id] == generation {
        NetworkView { peers: s.peers.remove(node.id), ..s }
    } else {
        s
    }
}

/// The network after a link was cut.
pub open spec fn cut(s: NetworkView, link: DirectedLink) -> NetworkView {
    if s.partitions.contains(link_key(link)) {
        s
    } else {
        recorded(
            NetworkView { partitions: s.partitions.insert(link_key(link)), ..s },
            EventView { link: Some(link), ..next_event(s, EventKind::Partitioned) },
        )
    }
}

/// The network after a link was restored.
pub open spec fn restored(s: NetworkView, link: DirectedLink) -> NetworkView {
    if s.partitions.contains(link_key(link)) {
        recorded(
            NetworkView { partitions: s.partitions.remove(link_key(link)), ..s },
            EventView { link: Some(link), ..next_event(s, EventKind::Healed) },
        )
    } else {
        s
    }
}

/// What becomes of a packet.
pub struct Fate {
    pub due: u64,
    pub copies: u16,
    pub dropped: bool,
}

/// Addition that stops at the greatest number.
pub open spec fn saturated(a: u64, b: u64) -> u64 {
    if a + b > u64::MAX {
        u64::MAX
    } else {
        (a + b) as u64
    }
}

/// What one effect makes of a packet's fate.
pub open spec fn after_effect(fate: Fate, effect: FaultEffect) -> Fate {
    match effect {
        FaultEffect::Delay { ticks } => Fate { due: saturated(fate.due, ticks), ..fate },
        FaultEffect::Drop => Fate { dropped: true, ..fate },
        FaultEffect::Duplicate { copies } => Fate {
            copies: if copies == 0 {
                1
            } else {
                copies
            },
            ..fate
        },
        FaultEffect::Reorder { extra_ticks } => Fate { due: saturated(fate.due, extra_ticks), ..fate },
    }
}

/// What effects, one after another, make of a packet's fate.
pub open spec fn after_effects(fate: Fate, effects: Seq<FaultEffect>) -> Fate
    decreases effects.len(),
{
    if effects.len() == 0 {
        fate
    } else {
        after_effect(after_effects(fate, effects.drop_last()), effects.last())
    }
}

/// How many packets a link has been given.
pub open spec fn packets_given(s: NetworkView, link: DirectedLink) -> u64 {
    if s.occurrences.contains_key(link_key(link)) {
        s.occurrences[link_key(link)]
    } else {
        0
    }
}

/// What becomes of the next packet of a link. A link that is cut drops it.
pub open spec fn fate_of_next(s: NetworkView, link: DirectedLink) -> Fate {
    after_effects(
        Fate { due: s.now, copies: 1, dropped: s.partitions.contains(link_key(link)) },
        effects_at(s.schedule.rules, link, packets_given(s, link)),
    )
}

/// The packets under way with one more, put where it belongs.
pub open spec fn enqueued(queue: Seq<PacketView>, p: PacketView) -> Seq<PacketView>
    decreases queue.len(),
{
    if queue.len() == 0 || key_before(queue.last().key, p.key) {
        queue.push(p)
    } else {
        enqueued(queue.drop_last(), p).push(queue.last())
    }
}

/// The packet that a copy descends from: none for the original.
pub open spec fn parent_of(packet_id: u64, copy: u16) -> Option<u64> {
    if copy > 0 {
        Some(packet_id)
    } else {
        None
    }
}

/// A packet's copy with the number `copy`.
pub open spec fn copy_of(p: PacketView, copy: u16) -> PacketView {
    PacketView {
        key: QueueKey { ordinal: ordinal_of(p.key.packet_id, copy) as u64, copy, ..p.key },
        ..p
    }
}

/// An event about a packet's copy.
pub open spec fn copy_event(s: NetworkView, kind: EventKind, p: PacketView) -> EventView {
    EventView {
        packet_id: Some(p.key.packet_id),
        parent_packet_id: parent_of(p.key.packet_id, p.key.copy),
        copy: Some(p.key.copy),
        link: Some(p.link),
        frame_fingerprint: Some(p.frame_fingerprint),
        ..next_event(s, kind)
    }
}

/// The network after the first `n` copies of a packet were put under way.
pub open spec fn with_copies(s: NetworkView, p: PacketView, n: nat) -> NetworkView
    decreases n,
{
    if n == 0 {
        s
    } else {
        let before = with_copies(s, p, (n - 1) as nat);
        let copy = copy_of(p, (n - 1) as u16);
        recorded(
            NetworkView { queue: enqueued(before.queue, copy), ..before },
            copy_event(before, EventKind::Scheduled, copy),
        )
    }
}

/// The network after a link was given one more packet.
pub open spec fn counted(s: NetworkView, link: DirectedLink) -> NetworkView {
    NetworkView {
        occurrences: s.occurrences.insert(link_key(link), (packets_given(s, link) + 1) as u64),
        next_packet_id: (s.next_packet_id + 1) as u64,
        ..s
    }
}

/// The network after a packet was sent over a link between two connected nodes.
pub open spec fn sent(s: NetworkView, link: DirectedLink, frame: Seq<u8>) -> NetworkView {
    let fate = fate_of_next(s, link);
    if fate.dropped {
        recorded(
            counted(s, link),
            EventView {
                packet_id: Some(s.next_packet_id),
                link: Some(link),
                frame_fingerprint: Some(fingerprint(frame)),
                ..next_event(s, EventKind::Dropped)
            },
        )
    } else {
        with_copies(
            counted(s, link),
            PacketView {
                key: QueueKey { due: fate.due, ordinal: 0, packet_id: s.next_packet_id, copy: 0 },
                link,
                source_generation: s.peers[link.source.id],
                target_generation: s.peers[link.target.id],
                frame,
                frame_fingerprint: fingerprint(frame),
            },
            fate.copies as nat,
        )
    }
}

/// Whether the node is connected with this generation.
pub open spec fn is_current(s: NetworkView, node: NodeId, generation: u64) -> bool {
    s.peers.contains_key(node.id) && s.peers[node.id] == generation
}

/// What is found out about a packet when it is due.
pub enum Resolution {
    /// The link is cut: the packet waits.
    Blocked,
    /// The target is gone.
    TargetGone,
    /// One end has connected anew, or the source has left.
    Stale,
    /// The packet arrives.
    Arrives,
}

/// What is found out about a packet.
pub open spec fn resolution(s: NetworkView, p: PacketView) -> Resolution {
    if s.partitions.contains(link_key(p.link)) {
        Resolution::Blocked
    } else if !s.peers.contains_key(p.link.target.id) {
        Resolution::TargetGone
    } else if !is_current(s, p.link.source, p.source_generation) || !is_current(
        s,
        p.link.target,
        p.target_generation,
    ) {
        Resolution::Stale
    } else {
        Resolution::Arrives
    }
}

/// The network after the packet at `i` was looked at.
pub open spec fn resolved(s: NetworkView, i: int) -> NetworkView {
    let p = s.queue[i];
    let gone = NetworkView { queue: s.queue.remove(i), ..s };
    match resolution(s, p) {
        Resolution::Blocked => s,
        Resolution::TargetGone => recorded(gone, copy_event(gone, EventKind::Dropped, p)),
        Resolution::Stale => recorded(gone, copy_event(gone, EventKind::StaleGeneration, p)),
        Resolution::Arrives => gone,
    }
}

/// The network after the arrival of a packet was confirmed.
pub open spec fn arrived(s: NetworkView, p: PacketView) -> NetworkView {
    recorded(s, copy_event(s, EventKind::Delivered, p))
}

/// Whether the packet at `i` is the first whose link is not cut.
pub open spec fn is_first_open(s: NetworkView, i: int) -> bool {
    &&& 0 <= i < s.queue.len()
    &&& !s.partitions.contains(link_key(s.queue[i].link))
    &&& forall|j: int| 0 <= j < i ==> s.partitions.contains(link_key((#[trigger] s.queue[j]).link))
}

/// Whether every packet under way waits for its link.
pub open spec fn all_blocked(s: NetworkView) -> bool {
    forall|j: int|
        0 <= j < s.queue.len() ==> s.partitions.contains(link_key((#[trigger] s.queue[j]).link))
}

/// The network at a time no earlier than `due`.
pub open spec fn not_before(s: NetworkView, due: u64) -> NetworkView {
    NetworkView {
        now: if due > s.now {
            due
        } else {
            s.now
        },
        ..s
    }
}

/// What one step of a simulation did.
#[derive(Debug)]
pub enum Step {
    /// Nothing is under way, or only packets whose link is cut.
    Idle,
    /// A packet was lost.
    Settled,
    /// A packet arrives: the caller hands it over and confirms it.
    Arrives(QueuedPacket),
}

/// The nodes that are connected, but for one, in increasing order.
pub open spec fn others(s: NetworkView, node: NodeId) -> Seq<u128> {
    ascending_u128(s.peers.dom()).filter(|n: u128| n != node.id)
}

/// The network after a frame was sent to each of `targets` in turn.
pub open spec fn sent_to_each(s: NetworkView, source: NodeId, targets: Seq<u128>, frame: Seq<u8>) -> NetworkView
    decreases targets.len(),
{
    if targets.len() == 0 {
        s
    } else {
        sent(
            sent_to_each(s, source, targets.drop_last(), frame),
            DirectedLink { source, target: NodeId { id: targets.last() } },
            frame,
        )
    }
}

/// The address of a node: the loopback address and a port made of its generation.
pub open spec fn peer_addr(generation: u64) -> NodeAddr {
    NodeAddr { ip: 0xffff_7f00_0001, port: (generation % 65536) as u16 }
}

/// A seeded network.
#[derive(Debug)]
pub struct DeterministicNetwork {
    schedule: FaultSchedule,
    now: u64,
    peers: BTreeMap<u128, u64>,
    generations: BTreeMap<u128, u64>,
    occurrences: BTreeMap<(u128, u128), u64>,
    partitions: BTreeSet<(u128, u128)>,
    queue: Vec<QueuedPacket>,
    events: Vec<EventRecord>,
    next_packet_id: u64,
}

/// The views of packets under way.
pub open spec fn packet_views(queue: Seq<QueuedPacket>) -> Seq<PacketView> {
    queue.map_values(|p: QueuedPacket| p@)
}

/// The views of events.
pub open spec fn event_views(events: Seq<EventRecord>) -> Seq<EventView> {
    events.map_values(|e: EventRecord| e@)
}

impl View for DeterministicNetwork {
    type V = NetworkView;

    closed spec fn view(&self) -> NetworkView {
        NetworkView {
            schedule: self.schedule@,
            now: self.now,
            peers: self.peers@,
            generations: self.generations@,
            occurrences: self.occurrences@,
            partitions: self.partitions@,
            queue: packet_views(self.queue@),
            events: event_views(self.events@),
            next_packet_id: self.next_packet_id,
        }
    }
}

proof fn enqueued_is_insertion(queue: Seq<PacketView>, p: PacketView, place: int)
    requires
        0 <= place <= queue.len(),
        queue_in_order(queue),
        forall|i: int| 0 <= i < place ==> key_before((#[trigger] queue[i]).key, p.key),
        place < queue.len() ==> !key_before(queue[place].key, p.key),
    ensures
        enqueued(queue, p) == queue.insert(place, p),
    decreases queue.len(),
{
    if queue.len() == 0 {
        assert(enqueued(queue, p) =~= queue.insert(place, p));
    } else if key_before(queue.last().key, p.key) {
        if place < queue.len() {
            if place < queue.len() - 1 {
                assert(key_before(queue[place].key, queue[queue.len() - 1].key));
            }
            assert(false);
        }
        assert(enqueued(queue, p) =~= queue.insert(place, p));
    } else {
        assert(place < queue.len());
        enqueued_is_insertion(queue.drop_last(), p, place);
        assert(queue.drop_last().insert(place, p).push(queue.last()) =~= queue.insert(place, p));
    }
}

/// A packet that is put where it belongs keeps the packets in order, takes away none and
/// adds none but itself.
pub proof fn enqueued_stays_in_order(queue: Seq<PacketView>, p: PacketView)
    requires
        queue_in_order(queue),
        forall|i: int| 0 <= i < queue.len() ==> (#[trigger] queue[i]).key.ordinal != p.key.ordinal,
    ensures
        queue_in_order(enqueued(queue, p)),
        enqueued(queue, p).to_multiset() == queue.to_multiset().insert(p),
        forall|q: PacketView| #[trigger]
            enqueued(queue, p).contains(q) <==> queue.contains(q) || q == p,
    decreases queue.len(),
{
    broadcast use vstd::seq_lib::group_to_multiset_ensures;

    if queue.len() == 0 || key_before(queue.last().key, p.key) {
        let after = queue.push(p);
        assert forall|i: int, j: int| 0 <= i < j < after.len() implies key_before(
            (#[trigger] after[i]).key,
            (#[trigger] after[j]).key,
        ) by {
            if j == queue.len() && i < queue.len() - 1 {
                assert(key_before(queue[i].key, queue[queue.len() - 1].key));
            }
        }
        assert forall|q: PacketView| #[trigger]
            after.contains(q) <==> queue.contains(q) || q == p by {
            if queue.contains(q) {
                let k = choose|k: int| 0 <= k < queue.len() && queue[k] == q;
                assert(after[k] == q);
            }
            assert(after[queue.len() as int] == p);
        }
    } else {
        let shorter = queue.drop_last();
        let last = queue.last();
        assert(queue =~= shorter.push(last));
        enqueued_stays_in_order(shorter, p);
        let inner = enqueued(shorter, p);
        let after = inner.push(last);
        assert(key_before(p.key, last.key));
        assert forall|i: int, j: int| 0 <= i < j < after.len() implies key_before(
            (#[trigger] after[i]).key,
            (#[trigger] after[j]).key,
        ) by {
            if j == inner.len() {
                assert(inner.contains(inner[i]));
                if shorter.contains(inner[i]) {
                    let k = choose|k: int| 0 <= k < shorter.len() && shorter[k] == inner[i];
                    assert(key_before(queue[k].key, queue[queue.len() - 1].key));
                }
            }
        }
        assert forall|q: PacketView| #[trigger]
            after.contains(q) <==> queue.contains(q) || q == p by {
            if after.contains(q) {
                let k = choose|k: int| 0 <= k < after.len() && after[k] == q;
                if k < inner.len() {
                    assert(inner.contains(q));
                    if shorter.contains(q) {
                        let m = choose|m: int| 0 <= m < shorter.len() && shorter[m] == q;
                        assert(queue[m] == q);
                    }
                } else {
                    assert(queue[queue.len() - 1] == q);
                }
            }
            if queue.contains(q) {
                let k = choose|k: int| 0 <= k < queue.len() && queue[k] == q;
                if k < shorter.len() {
                    assert(shorter[k] == q);
                    assert(inner.contains(q));
                    let m = choose|m: int| 0 <= m < inner.len() && inner[m] == q;
                    assert(after[m] == q);
                } else {
                    assert(after[inner.len() as int] == q);
                }
            }
            if q == p {
                assert(inner.contains(q));
                let m = choose|m: int| 0 <= m < inner.len() && inner[m] == q;
                assert(after[m] == q);
            }
        }
        assert(after.to_multiset() == inner.to_multiset().insert(last));
        assert(queue.to_multiset() == shorter.to_multiset().insert(last));
        assert(inner.to_multiset().insert(last) =~= shorter.to_multiset().insert(last).insert(p));
    }
}

/// Whether a packet with the number `next` may still get `n` copies.
spec fn takes_copies(s: NetworkView, p: PacketView, n: nat) -> bool {
    &&& network_is_sound(s)
    &&& p.key.packet_id + 1 == s.next_packet_id
    &&& n <= 65535
    &&& s.generations.contains_key(p.link.source.id)
    &&& p.source_generation <= s.generations[p.link.source.id]
    &&& s.generations.contains_key(p.link.target.id)
    &&& p.target_generation <= s.generations[p.link.target.id]
    &&& forall|i: int| 0 <= i < s.queue.len() ==> (#[trigger] s.queue[i]).key.packet_id < p.key.packet_id
}

proof fn copies_stay_sound(s: NetworkView, p: PacketView, n: nat)
    requires
        takes_copies(s, p, n),
        s.events.len() + n <= u64::MAX,
    ensures
        network_is_sound(with_copies(s, p, n)),
        with_copies(s, p, n).events.len() == s.events.len() + n,
        with_copies(s, p, n) == (NetworkView {
            queue: with_copies(s, p, n).queue,
            events: with_copies(s, p, n).events,
            ..s
        }),
        forall|i: int|
            0 <= i < with_copies(s, p, n).queue.len() ==> (#[trigger] with_copies(
                s,
                p,
                n,
            ).queue[i]).key.packet_id < p.key.packet_id || (with_copies(s, p, n).queue[i].key.packet_id
                == p.key.packet_id && with_copies(s, p, n).queue[i].key.copy < n),
    decreases n,
{
    if n > 0 {
        let m = (n - 1) as nat;
        copies_stay_sound(s, p, m);
        let before = with_copies(s, p, m);
        let copy = copy_of(p, m as u16);
        let after = with_copies(s, p, n);
        let ordinal = ordinal_of(p.key.packet_id, m as u16);
        assert(0 <= ordinal <= u64::MAX);
        assert(packet_is_sound(copy, s.next_packet_id, s.generations));
        assert forall|i: int| 0 <= i < before.queue.len() implies (#[trigger] before.queue[i]).key.ordinal
            != copy.key.ordinal by {
            let q = before.queue[i];
            assert(packet_is_sound(q, s.next_packet_id, s.generations));
            assert(q.key.ordinal == q.key.packet_id * 65535 + q.key.copy);
        }
        enqueued_stays_in_order(before.queue, copy);
        assert forall|i: int| 0 <= i < after.queue.len() implies packet_is_sound(
            #[trigger] after.queue[i],
            s.next_packet_id,
            s.generations,
        ) && (after.queue[i].key.packet_id < p.key.packet_id || (after.queue[i].key.packet_id
            == p.key.packet_id && after.queue[i].key.copy < n)) by {
            assert(after.queue.contains(after.queue[i]));
            if before.queue.contains(after.queue[i]) {
                let k = choose|k: int| 0 <= k < before.queue.len() && before.queue[k] == after.queue[i];
                assert(packet_is_sound(before.queue[k], s.next_packet_id, s.generations));
            }
        }
    }
}

impl DeterministicNetwork {
    /// The invariant of a network.
    pub closed spec fn wf(&self) -> bool {
        network_is_sound(self@)
    }

    /// A network before anything happened.
    pub fn new(schedule: FaultSchedule) -> (network: Self)
        requires
            schedule.wf(),
        ensures
            network.wf(),
            network@ == quiet(schedule@),
    {
        let network = DeterministicNetwork {
            schedule,
            now: 0,
            peers: BTreeMap::new(),
            generations: BTreeMap::new(),
            occurrences: BTreeMap::new(),
            partitions: BTreeSet::new(),
            queue: Vec::new(),
            events: Vec::new(),
            next_packet_id: 0,
        };
        assert(network@ =~= quiet(schedule@));
        network
    }

    fn record(&mut self, event: EventRecord)
        requires
            event.sequence == old(self)@.events.len(),
        ensures
            old(self).wf() ==> final(self).wf(),
            final(self)@ == recorded(old(self)@, event@),
            final(self)@.events.len() <= u64::MAX,
    {
        let ghost before = self@;
        self.events.push(event);
        assert(self.events.len() <= u64::MAX);
        assert(self@ =~= recorded(before, event@));
    }

    /// The next event of a kind, with nothing more to say.
    fn blank_event(&self, kind: EventKind) -> (event: EventRecord)
        ensures
            event@ == next_event(self@, kind),
            event.sequence == self@.events.len(),
    {
        EventRecord {
            sequence: self.events.len() as u64,
            time: self.now,
            kind,
            packet_id: None,
            parent_packet_id: None,
            copy: None,
            link: None,
            node: None,
            generation: None,
            frame_fingerprint: None,
        }
    }

    /// Connects a node.
    pub fn add_node(&mut self, node: NodeId) -> (backend: DeterministicBackend)
        requires
            old(self).wf(),
            old(self)@.generations.contains_key(node.id) ==> old(self)@.generations[node.id]
                < u64::MAX,
        ensures
            final(self).wf(),
            final(self)@ == connected(old(self)@, node),
            backend@ == (BackendView {
                node_id: node,
                generation: new_generation(old(self)@, node),
                closed: false,
                subscribed: false,
            }),
    {
        let ghost before = self@;
        let mut event = self.blank_event(EventKind::Reconnected);
        let known = match self.generations.get(&node.id) {
            Some(last) => Some(*last),
            None => None,
        };
        let generation: u64 = match known {
            Some(last) => last + 1,
            None => 0,
        };
        self.generations.insert(node.id, generation);
        self.peers.insert(node.id, generation);
        assert(self@ =~= (NetworkView {
            peers: before.peers.insert(node.id, generation),
            generations: before.generations.insert(node.id, generation),
            ..before
        }));
        if known.is_some() {
            event.node = Some(node);
            event.generation = Some(generation);
            self.record(event);
        }
        DeterministicBackend::new(node, generation)
    }

    /// Cuts a link.
    pub fn partition(&mut self, link: DirectedLink)
        requires
            old(self).wf(),
        ensures
            final(self).wf(),
            final(self)@ == cut(old(self)@, link),
    {
        let ghost before = self@;
        if self.partitions.insert((link.source.id, link.target.id)) {
            let mut event = self.blank_event(EventKind::Partitioned);
            event.link = Some(link);
            self.record(event);
        }
        assert(self@ =~= cut(before, link));
    }

    /// Restores a link.
    pub fn heal(&mut self, link: DirectedLink)
        requires
            old(self).wf(),
        ensures
            final(self).wf(),
            final(self)@ == restored(old(self)@, link),
    {
        let ghost before = self@;
        if self.partitions.remove(&(link.source.id, link.target.id)) {
            let mut event = self.blank_event(EventKind::Healed);
            event.link = Some(link);
            self.record(event);
        }
        assert(self@ =~= restored(before, link));
    }

    /// Whether a link is cut.
    pub fn is_partitioned(&self, link: DirectedLink) -> (cut: bool)
        ensures
            cut == self@.partitions.contains(link_key(link)),
    {
        self.partitions.contains(&(link.source.id, link.target.id))
    }

    /// The time of the simulation.
    pub fn now(&self) -> (now: u64)
        ensures
            now == self@.now,
    {
        self.now
    }

    /// The nodes that are connected, but for one, in increasing order.
    pub fn other_nodes(&self, node: NodeId) -> (nodes: Vec<u128>)
        ensures
            nodes@ == others(self@, node),
            forall|i: int| 0 <= i < nodes@.len() ==> self@.peers.contains_key(#[trigger] nodes@[i]),
            nodes@.len() <= self@.peers.len(),
    {
        let all = sorted_keys_u128(&self.peers);
        let ghost keep = |n: u128| n != node.id;
        proof {
            ascending_is_u128(self@.peers.dom(), all@);
        }
        let mut nodes: Vec<u128> = Vec::new();
        let mut i: usize = 0;
        proof {
            reveal(Seq::filter);
            assert(all@.take(0).filter(keep) =~= Seq::<u128>::empty());
        }
        while i < all.len()
            invariant
                i <= all@.len(),
                keep == (|n: u128| n != node.id),
                nodes@ == all@.take(i as int).filter(keep),
                nodes@.len() <= i,
                forall|j: int| 0 <= j < nodes@.len() ==> all@.contains(#[trigger] nodes@[j]),
            decreases all@.len() - i,
        {
            proof {
                reveal(Seq::filter);
                assert(all@.take(i + 1).drop_last() =~= all@.take(i as int));
                assert(all@.take(i + 1).last() == all@[i as int]);
            }
            if all[i] != node.id {
                nodes.push(all[i]);
            }
            i = i + 1;
        }
        assert(all@.take(all@.len() as int) =~= all@);
        nodes
    }

    /// The nodes that are connected, but for one, with their addresses.
    pub fn peers_of(&self, node: NodeId) -> (peers: Vec<(NodeId, NodeAddr)>)
        ensures
            peers@.len() == others(self@, node).len(),
            forall|i: int|
                0 <= i < peers@.len() ==> #[trigger] peers@[i] == (
                    NodeId { id: others(self@, node)[i] },
                    peer_addr(self@.peers[others(self@, node)[i]]),
                ),
    {
        let nodes = self.other_nodes(node);
        let mut peers: Vec<(NodeId, NodeAddr)> = Vec::new();
        let mut i: usize = 0;
        while i < nodes.len()
            invariant
                i <= nodes@.len(),
                peers@.len() == i,
                nodes@ == others(self@, node),
                forall|j: int| 0 <= j < nodes@.len() ==> self@.peers.contains_key(#[trigger] nodes@[j]),
                forall|j: int|
                    0 <= j < i ==> #[trigger] peers@[j] == (
                        NodeId { id: nodes@[j] },
                        peer_addr(self@.peers[nodes@[j]]),
                    ),
            decreases nodes@.len() - i,
        {
            let id: u128 = nodes[i];
            assert(self@.peers.contains_key(nodes@[i as int]));
            if let Some(generation) = self.peers.get(&id) {
                let port: u64 = *generation % 65536;
                peers.push((NodeId { id }, NodeAddr { ip: 0xffff_7f00_0001, port: port as u16 }));
            }
            i = i + 1;
        }
        peers
    }

    /// How many copies of packets are under way.
    pub fn pending_count(&self) -> (n: usize)
        ensures
            n == self@.queue.len(),
    {
        self.queue.len()
    }

    /// The next event of a kind about a packet's copy.
    fn packet_event(&self, kind: EventKind, packet: &QueuedPacket) -> (event: EventRecord)
        ensures
            event@ == copy_event(self@, kind, packet@),
            event.sequence == self@.events.len(),
    {
        let mut event = self.blank_event(kind);
        event.packet_id = Some(packet.key.packet_id);
        event.parent_packet_id = if packet.key.copy > 0 {
            Some(packet.key.packet_id)
        } else {
            None
        };
        event.copy = Some(packet.key.copy);
        event.link = Some(packet.link);
        event.frame_fingerprint = Some(packet.frame_fingerprint.clone());
        event
    }

    /// Puts a packet's copy where it belongs.
    fn insert(&mut self, packet: QueuedPacket)
        requires
            queue_in_order(old(self)@.queue),
        ensures
            final(self)@ == (NetworkView {
                queue: enqueued(old(self)@.queue, packet@),
                ..old(self)@
            }),
    {
        let ghost before = self@;
        let ghost all = self.queue@;
        let mut place: usize = 0;
        while place < self.queue.len() && (self.queue[place].key.due < packet.key.due || (
        self.queue[place].key.due == packet.key.due && self.queue[place].key.ordinal
            < packet.key.ordinal))
            invariant
                place <= self.queue@.len(),
                *self == *old(self),
                forall|i: int| 0 <= i < place ==> key_before((#[trigger] self.queue@[i]).key, packet.key),
            decreases self.queue@.len() - place,
        {
            place = place + 1;
        }
        self.queue.insert(place, packet);
        proof {
            assert forall|i: int| 0 <= i < place implies key_before(
                (#[trigger] before.queue[i]).key,
                packet.key,
            ) by {
                assert(before.queue[i] == all[i]@);
            }
            assert(place < all.len() ==> before.queue[place as int] == all[place as int]@);
            enqueued_is_insertion(before.queue, packet@, place as int);
            assert(packet_views(self.queue@) =~= before.queue.insert(place as int, packet@));
            assert(self@ =~= (NetworkView { queue: enqueued(before.queue, packet@), ..before }));
        }
    }

    /// Whether a node is connected with this generation.
    pub fn is_registered(&self, node: NodeId, generation: u64) -> (current: bool)
        ensures
            current == is_current(self@, node, generation),
    {
        match self.peers.get(&node.id) {
            Some(held) => *held == generation,
            None => false,
        }
    }

    /// What becomes of the next packet of a link.
    fn next_fate(&self, link: DirectedLink, occurrence: u64) -> (fate: (u64, u16, bool))
        requires
            self.wf(),
            occurrence == packets_given(self@, link),
        ensures
            fate.0 == fate_of_next(self@, link).due,
            fate.1 == fate_of_next(self@, link).copies,
            fate.2 == fate_of_next(self@, link).dropped,
            fate.1 >= 1,
    {
        let effects = self.schedule.effects_for(link, occurrence);
        let mut due: u64 = self.now;
        let mut copies: u16 = 1;
        let mut dropped = self.partitions.contains(&(link.source.id, link.target.id));
        let ghost start = Fate { due: self@.now, copies: 1, dropped };
        let mut i: usize = 0;
        while i < effects.len()
            invariant
                i <= effects@.len(),
                copies >= 1,
                (Fate { due, copies, dropped }) == after_effects(start, effects@.take(i as int)),
            decreases effects@.len() - i,
        {
            let ghost longer = effects@.take(i + 1);
            assert(longer.drop_last() =~= effects@.take(i as int));
            assert(longer.last() == effects@[i as int]);
            match effects[i] {
                FaultEffect::Delay { ticks } => {
                    due = due.saturating_add(ticks);
                },
                FaultEffect::Drop => {
                    dropped = true;
                },
                FaultEffect::Duplicate { copies: requested } => {
                    copies = if requested == 0 {
                        1
                    } else {
                        requested
                    };
                },
                FaultEffect::Reorder { extra_ticks } => {
                    due = due.saturating_add(extra_ticks);
                },
            }
            i = i + 1;
        }
        assert(effects@.take(effects@.len() as int) =~= effects@);
        (due, copies, dropped)
    }

    /// Sends a frame from a node, as of one of its generations, to another.
    pub fn enqueue(
        &mut self,
        source: NodeId,
        source_generation: u64,
        target: NodeId,
        frame: &[u8],
    ) -> (r: Result<(), TransportError>)
        requires
            old(self).wf(),
            old(self)@.next_packet_id <= LAST_PACKET,
        ensures
            final(self).wf(),
            match r {
                Ok(()) => {
                    &&& is_current(old(self)@, source, source_generation)
                    &&& old(self)@.peers.contains_key(target.id)
                    &&& final(self)@ == sent(old(self)@, (DirectedLink { source, target }), frame@)
                },
                Err(TransportError::Connection(text)) => {
                    &&& final(self)@ == old(self)@
                    &&& if is_current(old(self)@, source, source_generation) {
                        &&& !old(self)@.peers.contains_key(target.id)
                        &&& text@ == "target is not connected"@
                    } else {
                        text@ == "deterministic backend registration is stale"@
                    }
                },
                Err(_) => false,
            },
    {
        if !self.is_registered(source, source_generation) {
            return Err(
                TransportError::Connection(
                    String::from_str("deterministic backend registration is stale"),
                ),
            );
        }
        let target_generation: u64 = match self.peers.get(&target.id) {
            Some(generation) => *generation,
            None => {
                return Err(TransportError::Connection(String::from_str("target is not connected")));
            },
        };
        let ghost start = self@;
        let link = DirectedLink { source, target };
        let occurrence: u64 = match self.occurrences.get(&(source.id, target.id)) {
            Some(n) => *n,
            None => 0,
        };
        let (due, copies, dropped) = self.next_fate(link, occurrence);
        let packet_id: u64 = self.next_packet_id;
        self.occurrences.insert((source.id, target.id), occurrence + 1);
        self.next_packet_id = packet_id + 1;
        assert(self@ =~= counted(start, link));
        let end: usize = frame.len();
        let name = frame_fingerprint(frame);
        if dropped {
            let mut event = self.blank_event(EventKind::Dropped);
            event.packet_id = Some(packet_id);
            event.link = Some(link);
            event.frame_fingerprint = Some(name);
            self.record(event);
            return Ok(());
        }
        let ghost base = self@;
        let ghost p = PacketView {
            key: QueueKey { due, ordinal: 0, packet_id, copy: 0 },
            link,
            source_generation,
            target_generation,
            frame: frame@,
            frame_fingerprint: fingerprint(frame@),
        };
        assert forall|i: int| 0 <= i < base.queue.len() implies (#[trigger] base.queue[i]).key.packet_id
            < packet_id && packet_is_sound(base.queue[i], base.next_packet_id, base.generations) by {
            assert(packet_is_sound(start.queue[i], start.next_packet_id, start.generations));
        }
        assert(takes_copies(base, p, copies as nat));
        let mut copy: u16 = 0;
        while copy < copies
            invariant
                copy <= copies,
                end == frame@.len(),
                name@ == fingerprint(frame@),
                packet_id <= LAST_PACKET,
                takes_copies(base, p, copies as nat),
                p == (PacketView {
                    key: QueueKey { due, ordinal: 0, packet_id, copy: 0 },
                    link,
                    source_generation,
                    target_generation,
                    frame: frame@,
                    frame_fingerprint: fingerprint(frame@),
                }),
                self@ == with_copies(base, p, copy as nat),
                self@.events.len() == base.events.len() + copy,
                self.wf(),
            decreases copies - copy,
        {
            let ghost before = self@;
            let packet = QueuedPacket {
                key: QueueKey { due, ordinal: packet_id * 65535 + copy as u64, packet_id, copy },
                link,
                source_generation,
                target_generation,
                frame: copy_range(frame, 0, end),
                frame_fingerprint: name.clone(),
            };
            assert(packet.frame@ =~= frame@);
            assert(packet@ == copy_of(p, copy));
            let event = self.packet_event(EventKind::Scheduled, &packet);
            self.insert(packet);
            self.record(event);
            copy = copy + 1;
            proof {
                assert(self@ == with_copies(base, p, copy as nat));
                copies_stay_sound(base, p, copy as nat);
            }
        }
        Ok(())
    }

    /// Moves the time on and gives the places of the packets that are due, in the order
    /// in which to look at them.
    pub fn advance_by(&mut self, ticks: u64) -> (due: Vec<QueueKey>)
        requires
            old(self).wf(),
        ensures
            final(self).wf(),
            final(self)@ == (NetworkView { now: saturated(old(self)@.now, ticks), ..old(self)@ }),
            due@.len() <= old(self)@.queue.len(),
            forall|i: int|
                0 <= i < due@.len() ==> #[trigger] due@[i] == old(self)@.queue[i].key && due@[i].due
                    <= final(self)@.now,
            due@.len() < old(self)@.queue.len() ==> old(self)@.queue[due@.len() as int].key.due
                > final(self)@.now,
    {
        let ghost before = self@;
        self.now = self.now.saturating_add(ticks);
        assert(self@ =~= (NetworkView { now: saturated(before.now, ticks), ..before }));
        let mut due: Vec<QueueKey> = Vec::new();
        while due.len() < self.queue.len() && self.queue[due.len()].key.due <= self.now
            invariant
                due@.len() <= self.queue@.len(),
                self@.queue == before.queue,
                self@.now == self.now,
                self@ == (NetworkView { now: self.now, ..before }),
                forall|i: int|
                    0 <= i < due@.len() ==> #[trigger] due@[i] == before.queue[i].key && due@[i].due
                        <= self.now,
            decreases self.queue@.len() - due@.len(),
        {
            let i: usize = due.len();
            assert(before.queue[i as int] == self.queue@[i as int]@);
            due.push(self.queue[i].key);
        }
        assert(due@.len() < self.queue@.len() ==> before.queue[due@.len() as int]
            == self.queue@[due@.len() as int]@);
        due
    }

    /// Looks at the packet at `i`. One that arrives is handed back.
    fn resolve(&mut self, i: usize) -> (packet: Option<QueuedPacket>)
        requires
            old(self).wf(),
            i < old(self)@.queue.len(),
        ensures
            final(self).wf(),
            final(self)@ == resolved(old(self)@, i as int),
            match packet {
                Some(p) => {
                    &&& resolution(old(self)@, old(self)@.queue[i as int]) is Arrives
                    &&& p@ == old(self)@.queue[i as int]
                },
                None => !(resolution(old(self)@, old(self)@.queue[i as int]) is Arrives),
            },
    {
        let ghost before = self@;
        assert(before.queue[i as int] == self.queue@[i as int]@);
        let link = self.queue[i].link;
        if self.partitions.contains(&(link.source.id, link.target.id)) {
            return None;
        }
        let packet = self.queue.remove(i);
        proof {
            assert(packet_views(self.queue@) =~= before.queue.remove(i as int));
            assert(self@ =~= (NetworkView { queue: before.queue.remove(i as int), ..before }));
            assert(self.wf());
        }
        let source_is_current = self.is_registered(link.source, packet.source_generation);
        let target_generation: u64 = match self.peers.get(&link.target.id) {
            Some(generation) => *generation,
            None => {
                let event = self.packet_event(EventKind::Dropped, &packet);
                self.record(event);
                return None;
            },
        };
        if !source_is_current || target_generation != packet.target_generation {
            let event = self.packet_event(EventKind::StaleGeneration, &packet);
            self.record(event);
            return None;
        }
        Some(packet)
    }

    /// Looks at the packet with a key. One that arrives is handed back, for the caller to
    /// hand over and to confirm.
    pub fn deliver_key(&mut self, key: QueueKey) -> (packet: Option<QueuedPacket>)
        requires
            old(self).wf(),
            exists|i: int| 0 <= i < old(self)@.queue.len() && (#[trigger] old(self)@.queue[i]).key == key,
        ensures
            final(self).wf(),
            forall|i: int|
                0 <= i < old(self)@.queue.len() && (#[trigger] old(self)@.queue[i]).key == key ==> {
                    &&& final(self)@ == resolved(old(self)@, i)
                    &&& match packet {
                        Some(p) => resolution(old(self)@, old(self)@.queue[i]) is Arrives && p@
                            == old(self)@.queue[i],
                        None => !(resolution(old(self)@, old(self)@.queue[i]) is Arrives),
                    }
                },
    {
        let mut i: usize = 0;
        while self.queue[i].key != key
            invariant
                *self == *old(self),
                i < self.queue@.len(),
                exists|j: int| i <= j < self@.queue.len() && (#[trigger] self@.queue[j]).key == key,
            decreases self.queue@.len() - i,
        {
            assert(self@.queue[i as int] == self.queue@[i as int]@);
            assert(i < self.queue.len());
            i = i + 1;
        }
        proof {
            assert(self@.queue[i as int] == self.queue@[i as int]@);
            assert forall|j: int|
                0 <= j < self@.queue.len() && (#[trigger] self@.queue[j]).key == key implies j == i by {
                if j < i {
                    assert(key_before(self@.queue[j].key, self@.queue[i as int].key));
                } else if j > i {
                    assert(key_before(self@.queue[i as int].key, self@.queue[j].key));
                }
            }
        }
        self.resolve(i)
    }

    /// Moves on to the first packet whose link is not cut and looks at it.
    pub fn deliver_next(&mut self) -> (step: Step)
        requires
            old(self).wf(),
        ensures
            final(self).wf(),
            all_blocked(old(self)@) ==> step is Idle && final(self)@ == old(self)@,
            !all_blocked(old(self)@) ==> exists|i: int| #[trigger] is_first_open(old(self)@, i),
            forall|i: int| #[trigger]
                is_first_open(old(self)@, i) ==> {
                    let s = not_before(old(self)@, old(self)@.queue[i].key.due);
                    &&& final(self)@ == resolved(s, i)
                    &&& match step {
                        Step::Idle => false,
                        Step::Settled => !(resolution(s, s.queue[i]) is Arrives),
                        Step::Arrives(p) => resolution(s, s.queue[i]) is Arrives && p@ == s.queue[i],
                    }
                },
    {
        let ghost before = self@;
        let mut i: usize = 0;
        while i < self.queue.len() && self.is_partitioned(self.queue[i].link)
            invariant
                *self == *old(self),
                before == self@,
                i <= self.queue@.len(),
                forall|j: int|
                    0 <= j < i ==> before.partitions.contains(link_key((#[trigger] before.queue[j]).link)),
            decreases self.queue@.len() - i,
        {
            assert(before.queue[i as int] == self.queue@[i as int]@);
            i = i + 1;
        }
        if i == self.queue.len() {
            return Step::Idle;
        }
        assert(before.queue[i as int] == self.queue@[i as int]@);
        assert(is_first_open(before, i as int));
        assert forall|j: int| #[trigger] is_first_open(before, j) implies j == i by {
            assert(j < i ==> before.partitions.contains(link_key(before.queue[j].link)));
            assert(i < j ==> before.partitions.contains(link_key(before.queue[i as int].link)));
        }
        let due: u64 = self.queue[i].key.due;
        if due > self.now {
            self.now = due;
        }
        assert(self@ =~= not_before(before, due));
        match self.resolve(i) {
            Some(packet) => Step::Arrives(packet),
            None => Step::Settled,
        }
    }

    /// Notes that a packet was handed over.
    pub fn confirm_delivery(&mut self, packet: &QueuedPacket)
        requires
            old(self).wf(),
        ensures
            final(self).wf(),
            final(self)@ == arrived(old(self)@, packet@),
    {
        let event = self.packet_event(EventKind::Delivered, packet);
        self.record(event);
    }

    /// Disconnects a node, unless it has connected anew since.
    pub fn remove_node(&mut self, node: NodeId, generation: u64)
        requires
            old(self).wf(),
        ensures
            final(self).wf(),
            final(self)@ == disconnected(old(self)@, node, generation),
    {
        let ghost before = self@;
        if self.is_registered(node, generation) {
            self.peers.remove(&node.id);
        }
        assert(self@ =~= disconnected(before, node, generation));
    }

    /// The events from the number `sequence` on.
    pub fn events_after(&self, sequence: u64) -> (events: Vec<EventRecord>)
        requires
            self.wf(),
        ensures
            event_views(events@) == (if sequence <= self@.events.len() {
                self@.events.skip(sequence as int)
            } else {
                Seq::empty()
            }),
    {
        let mut events: Vec<EventRecord> = Vec::new();
        let mut i: usize = 0;
        let ghost first = if sequence <= self@.events.len() {
            sequence as int
        } else {
            self@.events.len() as int
        };
        while i < self.events.len()
            invariant
                self.wf(),
                i <= self.events@.len(),
                first == (if sequence <= self@.events.len() {
                    sequence as int
                } else {
                    self@.events.len() as int
                }),
                events@.len() == (if i <= first {
                    0
                } else {
                    i - first
                }),
                forall|j: int| 0 <= j < events@.len() ==> (#[trigger] events@[j])@ == self@.events[first + j],
            decreases self.events@.len() - i,
        {
            assert(self@.events[i as int] == self.events@[i as int]@);
            if self.events[i].sequence >= sequence {
                events.push(self.events[i].clone());
            }
            i = i + 1;
        }
        assert(event_views(events@) =~= self@.events.skip(first));
        events
    }

    /// Every event.
    pub fn events(&self) -> (events: Vec<EventRecord>)
        requires
            self.wf(),
        ensures
            event_views(events@) == self@.events,
    {
        let events = self.events_after(0);
        assert(self@.events.skip(0) =~= self@.events);
        events
    }

    /// Every event, as text.
    pub fn stable_trace(&self) -> (lines: Vec<String>)
        ensures
            lines@.map_values(|line: String| line@) == self@.events.map_values(
                |e: EventView| event_text(e),
            ),
    {
        let mut lines: Vec<String> = Vec::new();
        let mut i: usize = 0;
        while i < self.events.len()
            invariant
                i <= self.events@.len(),
                lines@.len() == i,
                forall|j: int| 0 <= j < i ==> (#[trigger] lines@[j])@ == event_text(self@.events[j]),
            decreases self.events@.len() - i,
        {
            assert(self@.events[i as int] == self.events@[i as int]@);
            lines.push(stable_event(&self.events[i]));
            i = i + 1;
        }
        assert(lines@.map_values(|line: String| line@) =~= self@.events.map_values(
            |e: EventView| event_text(e),
        ));
        lines
    }
}

proof fn copies_touch_only_queue_and_events(s: NetworkView, p: PacketView, n: nat)
    ensures
        with_copies(s, p, n) == (NetworkView {
            queue: with_copies(s, p, n).queue,
            events: with_copies(s, p, n).events,
            ..s
        }),
        with_copies(s, p, n).queue.len() == s.queue.len() + n,
        with_copies(s, p, n).events.len() == s.events.len() + n,
        s.events.is_prefix_of(with_copies(s, p, n).events),
    decreases n,
{
    if n > 0 {
        let m = (n - 1) as nat;
        copies_touch_only_queue_and_events(s, p, m);
        let before = with_copies(s, p, m);
        enqueued_adds_one(before.queue, copy_of(p, m as u16));
        let after = with_copies(s, p, n);
        assert(s.events =~= after.events.subrange(0, s.events.len() as int)) by {
            assert(s.events =~= before.events.subrange(0, s.events.len() as int));
        }
    }
}

proof fn enqueued_adds_one(queue: Seq<PacketView>, p: PacketView)
    ensures
        enqueued(queue, p).len() == queue.len() + 1,
    decreases queue.len(),
{
    if queue.len() > 0 && !key_before(queue.last().key, p.key) {
        enqueued_adds_one(queue.drop_last(), p);
    }
}

/// Sending leaves alone who is connected, which links are cut and what time it is.
pub proof fn sending_keeps_peers(s: NetworkView, link: DirectedLink, frame: Seq<u8>)
    ensures
        sent(s, link, frame).peers == s.peers,
        sent(s, link, frame).generations == s.generations,
        sent(s, link, frame).partitions == s.partitions,
        sent(s, link, frame).now == s.now,
        sent(s, link, frame).schedule == s.schedule,
        sent(s, link, frame).next_packet_id == (s.next_packet_id + 1) as u64,
{
    let fate = fate_of_next(s, link);
    if !fate.dropped {
        copies_touch_only_queue_and_events(
            counted(s, link),
            PacketView {
                key: QueueKey { due: fate.due, ordinal: 0, packet_id: s.next_packet_id, copy: 0 },
                link,
                source_generation: s.peers[link.source.id],
                target_generation: s.peers[link.target.id],
                frame,
                frame_fingerprint: fingerprint(frame),
            },
            fate.copies as nat,
        );
    }
}

/// A packet that is not dropped is put under way exactly as often as its fate says; one
/// that is dropped not at all.
pub proof fn sending_adds_the_copies(s: NetworkView, link: DirectedLink, frame: Seq<u8>)
    ensures
        sent(s, link, frame).queue.len() == s.queue.len() + (if fate_of_next(s, link).dropped {
            0
        } else {
            fate_of_next(s, link).copies as int
        }),
{
    let fate = fate_of_next(s, link);
    if !fate.dropped {
        copies_touch_only_queue_and_events(
            counted(s, link),
            PacketView {
                key: QueueKey { due: fate.due, ordinal: 0, packet_id: s.next_packet_id, copy: 0 },
                link,
                source_generation: s.peers[link.source.id],
                target_generation: s.peers[link.target.id],
                frame,
                frame_fingerprint: fingerprint(frame),
            },
            fate.copies as nat,
        );
    }
}

proof fn effects_never_undrop(fate: Fate, effects: Seq<FaultEffect>)
    ensures
        fate.dropped ==> after_effects(fate, effects).dropped,
        fate.due <= after_effects(fate, effects).due,
        fate.copies >= 1 ==> after_effects(fate, effects).copies >= 1,
    decreases effects.len(),
{
    if effects.len() > 0 {
        effects_never_undrop(fate, effects.drop_last());
    }
}

/// A link that is cut takes no packet: what is sent over it is dropped, and what was
/// under way waits.
pub proof fn cut_link_delivers_nothing(s: NetworkView, link: DirectedLink, frame: Seq<u8>)
    requires
        s.partitions.contains(link_key(link)),
    ensures
        fate_of_next(s, link).dropped,
        sent(s, link, frame).queue == s.queue,
        forall|p: PacketView| p.link == link ==> #[trigger] resolution(s, p) is Blocked,
{
    effects_never_undrop(
        Fate { due: s.now, copies: 1, dropped: true },
        effects_at(s.schedule.rules, link, packets_given(s, link)),
    );
}

/// No packet is due before it was sent, and one that no rule is about is due at once and
/// arrives once.
pub proof fn packets_are_not_early(s: NetworkView, link: DirectedLink)
    ensures
        fate_of_next(s, link).due >= s.now,
        fate_of_next(s, link).copies >= 1,
        effects_at(s.schedule.rules, link, packets_given(s, link)).len() == 0 && !s.partitions.contains(
            link_key(link),
        ) ==> fate_of_next(s, link) == (Fate { due: s.now, copies: 1, dropped: false }),
{
    effects_never_undrop(
        Fate { due: s.now, copies: 1, dropped: s.partitions.contains(link_key(link)) },
        effects_at(s.schedule.rules, link, packets_given(s, link)),
    );
}

/// Cutting a link leaves the way back, and every other link, as it was; restoring it
/// brings back the links of before.
pub proof fn partition_is_directed(s: NetworkView, link: DirectedLink, other: DirectedLink)
    requires
        link != other,
    ensures
        cut(s, link).partitions.contains(link_key(other)) == s.partitions.contains(link_key(other)),
        restored(s, link).partitions.contains(link_key(other)) == s.partitions.contains(
            link_key(other),
        ),
        cut(s, link).partitions.contains(link_key(link)),
        !restored(s, link).partitions.contains(link_key(link)),
        !s.partitions.contains(link_key(link)) ==> restored(cut(s, link), link).partitions
            =~= s.partitions,
{
}

/// A packet that was under way when either of its ends connects anew never arrives.
pub proof fn stale_packet_never_arrives(s: NetworkView, node: NodeId, i: int)
    requires
        network_is_sound(s),
        0 <= i < s.queue.len(),
        s.queue[i].link.source == node || s.queue[i].link.target == node,
        s.generations[node.id] < u64::MAX,
    ensures
        connected(s, node).queue == s.queue,
        !(resolution(connected(s, node), s.queue[i]) is Arrives),
{
    assert(packet_is_sound(s.queue[i], s.next_packet_id, s.generations));
}

/// A packet whose end has left, and that is looked at before the end connects anew, never
/// arrives either.
pub proof fn packet_of_a_closed_node_never_arrives(s: NetworkView, node: NodeId, generation: u64, i: int)
    requires
        0 <= i < s.queue.len(),
        s.queue[i].link.source == node || s.queue[i].link.target == node,
        is_current(s, node, generation),
    ensures
        disconnected(s, node, generation).queue == s.queue,
        !(resolution(disconnected(s, node, generation), s.queue[i]) is Arrives),
{
}

/// Looking at a packet whose link is not cut takes it, and it alone, off the queue.
pub proof fn each_step_settles_one_packet(s: NetworkView, i: int)
    requires
        0 <= i < s.queue.len(),
        !(resolution(s, s.queue[i]) is Blocked),
    ensures
        resolved(s, i).queue == s.queue.remove(i),
        resolved(s, i).queue.len() == s.queue.len() - 1,
        resolved(s, i).peers == s.peers,
        resolved(s, i).partitions == s.partitions,
{
}

/// What was noted stays: every operation keeps the events of before and may add to them.
pub proof fn history_only_grows(
    s: NetworkView,
    link: DirectedLink,
    node: NodeId,
    frame: Seq<u8>,
    i: int,
    p: PacketView,
)
    ensures
        s.events.is_prefix_of(sent(s, link, frame).events),
        s.events.is_prefix_of(connected(s, node).events),
        s.events.is_prefix_of(cut(s, link).events),
        s.events.is_prefix_of(restored(s, link).events),
        s.events.is_prefix_of(resolved(s, i).events),
        s.events.is_prefix_of(arrived(s, p).events),
{
    let fate = fate_of_next(s, link);
    if !fate.dropped {
        copies_touch_only_queue_and_events(
            counted(s, link),
            PacketView {
                key: QueueKey { due: fate.due, ordinal: 0, packet_id: s.next_packet_id, copy: 0 },
                link,
                source_generation: s.peers[link.source.id],
                target_generation: s.peers[link.target.id],
                frame,
                frame_fingerprint: fingerprint(frame),
            },
            fate.copies as nat,
        );
    }
}

/// By how many ticks effects hold a packet up.
pub open spec fn ticks_held_up(effects: Seq<FaultEffect>) -> nat
    decreases effects.len(),
{
    if effects.len() == 0 {
        0
    } else {
        ticks_held_up(effects.drop_last()) + (match effects.last() {
            FaultEffect::Delay { ticks } => ticks as nat,
            FaultEffect::Reorder { extra_ticks } => extra_ticks as nat,
            _ => 0,
        })
    }
}

/// Whether the effect at `i` is the last that says how often a packet is copied.
pub open spec fn is_last_duplication(effects: Seq<FaultEffect>, i: int) -> bool {
    &&& 0 <= i < effects.len()
    &&& effects[i] is Duplicate
    &&& forall|j: int| i < j < effects.len() ==> !(#[trigger] effects[j] is Duplicate)
}

proof fn effects_add_up(fate: Fate, effects: Seq<FaultEffect>)
    ensures
        ({
            let after = after_effects(fate, effects);
            &&& after.due == (if fate.due + ticks_held_up(effects) <= u64::MAX {
                fate.due + ticks_held_up(effects)
            } else {
                u64::MAX as int
            })
            &&& after.dropped <==> fate.dropped || exists|i: int|
                0 <= i < effects.len() && #[trigger] effects[i] is Drop
            &&& (forall|i: int| 0 <= i < effects.len() ==> !(#[trigger] effects[i] is Duplicate))
                ==> after.copies == fate.copies
            &&& forall|i: int| #[trigger]
                is_last_duplication(effects, i) ==> after.copies == (if effects[i]->copies == 0 {
                    1
                } else {
                    effects[i]->copies
                })
        }),
    decreases effects.len(),
{
    if effects.len() > 0 {
        let fewer = effects.drop_last();
        let last = effects.len() - 1;
        effects_add_up(fate, fewer);
        let before = after_effects(fate, fewer);
        let after = after_effects(fate, effects);
        assert forall|i: int| 0 <= i < last implies fewer[i] == #[trigger] effects[i] by {}
        if before.dropped && !fate.dropped {
            let i = choose|i: int| 0 <= i < fewer.len() && #[trigger] fewer[i] is Drop;
            assert(effects[i] is Drop);
        }
        if exists|i: int| 0 <= i < effects.len() && #[trigger] effects[i] is Drop {
            let i = choose|i: int| 0 <= i < effects.len() && #[trigger] effects[i] is Drop;
            if i < last {
                assert(fewer[i] is Drop);
            }
        }
        assert(effects[last] == effects.last());
        assert forall|i: int| #[trigger] is_last_duplication(effects, i) implies after.copies == (
        if effects[i]->copies == 0 {
            1
        } else {
            effects[i]->copies
        }) by {
            if i < last {
                assert(!(effects[last] is Duplicate));
                assert(is_last_duplication(fewer, i)) by {
                    assert forall|j: int| i < j < fewer.len() implies !(#[trigger] fewer[j] is Duplicate) by {
                        assert(!(effects[j] is Duplicate));
                    }
                }
            }
        }
        if forall|i: int| 0 <= i < effects.len() ==> !(#[trigger] effects[i] is Duplicate) {
            assert forall|i: int| 0 <= i < fewer.len() implies !(#[trigger] fewer[i] is Duplicate) by {
                assert(!(effects[i] is Duplicate));
            }
        }
    }
}

/// What becomes of a packet is the sum of its effects: every delay and reordering holds it up by
/// its ticks, a drop or a cut link loses it, and it is copied as often as the last duplication
/// says, the original counted and at least once.
pub proof fn fate_is_the_sum_of_the_effects(s: NetworkView, link: DirectedLink)
    ensures
        ({
            let effects = effects_at(s.schedule.rules, link, packets_given(s, link));
            let fate = fate_of_next(s, link);
            &&& fate.due == (if s.now + ticks_held_up(effects) <= u64::MAX {
                s.now + ticks_held_up(effects)
            } else {
                u64::MAX as int
            })
            &&& fate.dropped <==> s.partitions.contains((link.source.id, link.target.id)) || exists|
                i: int,
            |
                0 <= i < effects.len() && #[trigger] effects[i] is Drop
            &&& (forall|i: int| 0 <= i < effects.len() ==> !(#[trigger] effects[i] is Duplicate))
                ==> fate.copies == 1
            &&& forall|i: int| #[trigger]
                is_last_duplication(effects, i) ==> fate.copies == (if effects[i]->copies == 0 {
                    1
                } else {
                    effects[i]->copies
                })
        }),
{
    effects_add_up(
        Fate { due: s.now, copies: 1, dropped: s.partitions.contains(link_key(link)) },
        effects_at(s.schedule.rules, link, packets_given(s, link)),
    );
}

/// The copy numbered `copy` of the next packet that is sent over a link, due at `due`.
pub open spec fn sent_copy(s: NetworkView, link: DirectedLink, frame: Seq<u8>, due: u64, copy: u16) -> PacketView {
    PacketView {
        key: QueueKey {
            due,
            ordinal: (s.next_packet_id * 65535 + copy) as u64,
            packet_id: s.next_packet_id,
            copy,
        },
        link,
        source_generation: s.peers[link.source.id],
        target_generation: s.peers[link.target.id],
        frame,
        frame_fingerprint: fingerprint(frame),
    }
}

/// Whether an event tells that a copy of a packet was put under way at a time.
pub open spec fn tells_of_scheduling(e: EventView, at: u64, p: PacketView, c: u16) -> bool {
    &&& e.time == at
    &&& e.kind == EventKind::Scheduled
    &&& e.packet_id == Some(p.key.packet_id)
    &&& e.copy == Some(c)
    &&& e.link == Some(p.link)
    &&& e.frame_fingerprint == Some(p.frame_fingerprint)
    &&& e.parent_packet_id == (if c > 0 {
        Some(p.key.packet_id)
    } else {
        None
    })
    &&& e.node is None
    &&& e.generation is None
}

proof fn copies_are_queued(s: NetworkView, p: PacketView, n: nat)
    requires
        takes_copies(s, p, n),
        s.events.len() + n <= u64::MAX,
    ensures
        forall|q: PacketView| #[trigger]
            with_copies(s, p, n).queue.contains(q) <==> s.queue.contains(q) || exists|c: u16|
                c < n && q == #[trigger] copy_of(p, c),
    decreases n,
{
    if n > 0 {
        let m = (n - 1) as nat;
        copies_are_queued(s, p, m);
        copies_stay_sound(s, p, m);
        copies_touch_only_queue_and_events(s, p, m);
        let before = with_copies(s, p, m);
        let copy = copy_of(p, m as u16);
        let after = with_copies(s, p, n);
        let ordinal = ordinal_of(p.key.packet_id, m as u16);
        assert(0 <= ordinal <= u64::MAX);
        assert forall|i: int| 0 <= i < before.queue.len() implies (#[trigger] before.queue[i]).key.ordinal
            != copy.key.ordinal by {
            let q = before.queue[i];
            assert(packet_is_sound(q, s.next_packet_id, s.generations));
            assert(q.key.ordinal == q.key.packet_id * 65535 + q.key.copy);
        }
        enqueued_stays_in_order(before.queue, copy);
        assert forall|q: PacketView| #[trigger]
            after.queue.contains(q) <==> s.queue.contains(q) || exists|c: u16|
                c < n && q == #[trigger] copy_of(p, c) by {
            assert(after.queue.contains(q) <==> before.queue.contains(q) || q == copy);
            if before.queue.contains(q) && !s.queue.contains(q) {
                let c = choose|c: u16| c < m && q == #[trigger] copy_of(p, c);
                assert(c < n && q == copy_of(p, c));
            }
            if q == copy {
                assert((m as u16) < n && q == copy_of(p, m as u16));
            }
            if exists|c: u16| c < n && q == #[trigger] copy_of(p, c) {
                let c = choose|c: u16| c < n && q == #[trigger] copy_of(p, c);
                if c < m {
                    assert(before.queue.contains(q));
                }
            }
        }
    }
}

proof fn copy_is_noted(s: NetworkView, p: PacketView, n: nat, c: u16)
    requires
        c < n,
        n <= 65536,
    ensures
        tells_of_scheduling(with_copies(s, p, n).events[s.events.len() + c], s.now, p, c),
    decreases n,
{
    let m = (n - 1) as nat;
    let before = with_copies(s, p, m);
    let after = with_copies(s, p, n);
    copies_touch_only_queue_and_events(s, p, m);
    if c < m {
        copy_is_noted(s, p, m, c);
        assert(after.events[s.events.len() + c] == before.events[s.events.len() + c]);
    }
}

/// Sending puts exactly the copies of the frame under way that the packet's fate asks for, beside
/// what was under way: they go over the link, between the generations that its ends have now,
/// bear the next packet's number and the numbers from zero on, and are all due at the time that
/// the fate says. Each is noted as scheduled. A packet that is dropped puts nothing under way, and
/// that is noted.
pub proof fn sending_puts_the_frame_under_way(s: NetworkView, link: DirectedLink, frame: Seq<u8>)
    requires
        network_is_sound(s),
        s.next_packet_id <= LAST_PACKET,
        s.peers.contains_key(link.source.id),
        s.peers.contains_key(link.target.id),
        s.events.len() + 65536 <= u64::MAX,
    ensures
        ({
            let fate = fate_of_next(s, link);
            let after = sent(s, link, frame);
            &&& !fate.dropped ==> {
                &&& after.queue.len() == s.queue.len() + fate.copies
                &&& forall|q: PacketView| #[trigger]
                    after.queue.contains(q) <==> s.queue.contains(q) || exists|c: u16|
                        c < fate.copies && q == #[trigger] sent_copy(s, link, frame, fate.due, c)
                &&& after.events.len() == s.events.len() + fate.copies
                &&& forall|c: u16|
                    #![trigger sent_copy(s, link, frame, fate.due, c)]
                    c < fate.copies ==> tells_of_scheduling(
                        after.events[s.events.len() + c],
                        s.now,
                        sent_copy(s, link, frame, fate.due, c),
                        c,
                    )
            }
            &&& fate.dropped ==> {
                &&& after.queue == s.queue
                &&& after.events.len() == s.events.len() + 1
                &&& after.events.last().kind == EventKind::Dropped
                &&& after.events.last().time == s.now
                &&& after.events.last().packet_id == Some(s.next_packet_id)
                &&& after.events.last().link == Some(link)
                &&& after.events.last().copy is None
                &&& after.events.last().frame_fingerprint == Some(fingerprint(frame))
            }
        }),
{
    let fate = fate_of_next(s, link);
    if !fate.dropped {
        let base = counted(s, link);
        let p = PacketView {
            key: QueueKey { due: fate.due, ordinal: 0, packet_id: s.next_packet_id, copy: 0 },
            link,
            source_generation: s.peers[link.source.id],
            target_generation: s.peers[link.target.id],
            frame,
            frame_fingerprint: fingerprint(frame),
        };
        assert forall|i: int| 0 <= i < base.queue.len() implies (#[trigger] base.queue[i]).key.packet_id
            < s.next_packet_id && packet_is_sound(
            base.queue[i],
            base.next_packet_id,
            base.generations,
        ) by {
            assert(packet_is_sound(s.queue[i], s.next_packet_id, s.generations));
        }
        assert(takes_copies(base, p, fate.copies as nat));
        copies_touch_only_queue_and_events(base, p, fate.copies as nat);
        copies_are_queued(base, p, fate.copies as nat);
        assert forall|c: u16| #[trigger] copy_of(p, c) == sent_copy(s, link, frame, fate.due, c) by {}
        let after = sent(s, link, frame);
        assert forall|q: PacketView| #[trigger]
            after.queue.contains(q) <==> s.queue.contains(q) || exists|c: u16|
                c < fate.copies && q == #[trigger] sent_copy(s, link, frame, fate.due, c) by {
            if exists|c: u16| c < fate.copies && q == #[trigger] copy_of(p, c) {
                let c = choose|c: u16| c < fate.copies && q == #[trigger] copy_of(p, c);
                assert(q == sent_copy(s, link, frame, fate.due, c));
            }
            if exists|c: u16|
                c < fate.copies && q == #[trigger] sent_copy(s, link, frame, fate.due, c) {
                let c = choose|c: u16|
                    c < fate.copies && q == #[trigger] sent_copy(s, link, frame, fate.due, c);
                assert(q == copy_of(p, c));
            }
        }
        assert forall|c: u16|
            #![trigger sent_copy(s, link, frame, fate.due, c)]
            c < fate.copies implies tells_of_scheduling(
            after.events[s.events.len() + c],
            s.now,
            sent_copy(s, link, frame, fate.due, c),
            c,
        ) by {
            copy_is_noted(base, p, fate.copies as nat, c);
            assert(tells_of_scheduling(after.events[base.events.len() + c], base.now, p, c));
        }
    }
}

/// A packet that is only to be duplicated, on a link that is not cut, puts exactly so many copies
/// of the frame under way, numbered from zero on and all due now.
pub proof fn duplicated_packet_arrives_so_often(
    s: NetworkView,
    link: DirectedLink,
    frame: Seq<u8>,
    n: u16,
    c: u16,
)
    requires
        network_is_sound(s),
        s.next_packet_id <= LAST_PACKET,
        s.peers.contains_key(link.source.id),
        s.peers.contains_key(link.target.id),
        s.events.len() + 65536 <= u64::MAX,
        !s.partitions.contains((link.source.id, link.target.id)),
        n >= 1,
        effects_at(s.schedule.rules, link, packets_given(s, link)) == seq![
            FaultEffect::Duplicate { copies: n },
        ],
    ensures
        sent(s, link, frame).queue.len() == s.queue.len() + n,
        c < n ==> sent(s, link, frame).queue.contains(sent_copy(s, link, frame, s.now, c)),
        forall|q: PacketView| #[trigger]
            sent(s, link, frame).queue.contains(q) && !s.queue.contains(q) ==> q.frame == frame
                && q.link == link && q.key.due == s.now && q.key.packet_id == s.next_packet_id
                && q.key.copy < n,
{
    let effects = effects_at(s.schedule.rules, link, packets_given(s, link));
    fate_is_the_sum_of_the_effects(s, link);
    sending_puts_the_frame_under_way(s, link, frame);
    assert(is_last_duplication(effects, 0));
    assert(effects.drop_last() =~= Seq::<FaultEffect>::empty());
    assert(ticks_held_up(effects.drop_last()) == 0);
    assert(ticks_held_up(effects) == 0);
    assert(!fate_of_next(s, link).dropped) by {
        assert forall|i: int| 0 <= i < effects.len() implies !(#[trigger] effects[i] is Drop) by {}
    }
    assert(fate_of_next(s, link).due == s.now);
    let after = sent(s, link, frame);
    if c < n {
        assert(after.queue.contains(sent_copy(s, link, frame, s.now, c)));
    }
    assert forall|q: PacketView| #[trigger]
        after.queue.contains(q) && !s.queue.contains(q) implies q.frame == frame && q.link == link
        && q.key.due == s.now && q.key.packet_id == s.next_packet_id && q.key.copy < n by {
        let d = choose|d: u16|
            d < n && q == #[trigger] sent_copy(s, link, frame, s.now, d);
        assert(q == sent_copy(s, link, frame, s.now, d));
    }
}

/// A link is given one packet more by each one that is sent over it, dropped or not, and no other
/// link is. Packets are numbered one by one.
pub proof fn each_packet_is_counted_once(
    s: NetworkView,
    link: DirectedLink,
    other: DirectedLink,
    frame: Seq<u8>,
)
    requires
        packets_given(s, link) < u64::MAX,
        s.next_packet_id < u64::MAX,
    ensures
        packets_given(sent(s, link, frame), link) == packets_given(s, link) + 1,
        (link.source.id, link.target.id) != (other.source.id, other.target.id) ==> packets_given(
            sent(s, link, frame),
            other,
        ) == packets_given(s, other),
        sent(s, link, frame).next_packet_id == s.next_packet_id + 1,
        packets_given(quiet(s.schedule), link) == 0,
{
    let fate = fate_of_next(s, link);
    if !fate.dropped {
        copies_touch_only_queue_and_events(
            counted(s, link),
            PacketView {
                key: QueueKey { due: fate.due, ordinal: 0, packet_id: s.next_packet_id, copy: 0 },
                link,
                source_generation: s.peers[link.source.id],
                target_generation: s.peers[link.target.id],
                frame,
                frame_fingerprint: fingerprint(frame),
            },
            fate.copies as nat,
        );
    }
}

/// Packets arrive in the order in which they are due, and those that are due at once in the order
/// in which they, and then their copies, were sent.
pub proof fn earlier_packets_come_first(s: NetworkView, i: int, j: int)
    requires
        network_is_sound(s),
        0 <= i < j < s.queue.len(),
    ensures
        s.queue[i].key.due <= s.queue[j].key.due,
        s.queue[i].key.due == s.queue[j].key.due ==> s.queue[i].key.packet_id
            <= s.queue[j].key.packet_id,
        s.queue[i].key.due == s.queue[j].key.due && s.queue[i].key.packet_id
            == s.queue[j].key.packet_id ==> s.queue[i].key.copy < s.queue[j].key.copy,
{
    assert(key_before(s.queue[i].key, s.queue[j].key));
    assert(packet_is_sound(s.queue[i], s.next_packet_id, s.generations));
    assert(packet_is_sound(s.queue[j], s.next_packet_id, s.generations));
}

/// A packet arrives exactly where its link is not cut and both its ends are still connected as
/// they were when it was sent. It waits where the link is cut, is dropped where its target is
/// gone, and is stale where an end has changed since.
pub proof fn packet_arrives_between_the_same_ends(s: NetworkView, p: PacketView)
    ensures
        ({
            let source = p.link.source.id;
            let target = p.link.target.id;
            let cut = s.partitions.contains((source, target));
            let same_source = s.peers.contains_key(source) && s.peers[source] == p.source_generation;
            let same_target = s.peers.contains_key(target) && s.peers[target] == p.target_generation;
            &&& resolution(s, p) is Blocked <==> cut
            &&& resolution(s, p) is TargetGone <==> !cut && !s.peers.contains_key(target)
            &&& resolution(s, p) is Stale <==> !cut && s.peers.contains_key(target) && !(same_source
                && same_target)
            &&& resolution(s, p) is Arrives <==> !cut && same_source && same_target
        }),
{
}

/// Looking at a packet notes what became of it: one whose target is gone as dropped, one whose end
/// has changed as stale, and one that arrives when its arrival is confirmed. A packet that waits
/// stays, and nothing is noted.
pub proof fn what_becomes_of_a_packet_is_noted(s: NetworkView, i: int)
    requires
        0 <= i < s.queue.len(),
    ensures
        ({
            let p = s.queue[i];
            let after = resolved(s, i);
            let names_it = |e: EventView|
                e.packet_id == Some(p.key.packet_id) && e.copy == Some(p.key.copy) && e.link == Some(
                    p.link,
                ) && e.frame_fingerprint == Some(p.frame_fingerprint) && e.time == s.now;
            &&& resolution(s, p) is Blocked ==> after == s
            &&& resolution(s, p) is Arrives ==> after.queue == s.queue.remove(i) && after.events
                == s.events
            &&& resolution(s, p) is TargetGone ==> {
                &&& after.queue == s.queue.remove(i)
                &&& after.events.len() == s.events.len() + 1
                &&& after.events.last().kind == EventKind::Dropped
                &&& names_it(after.events.last())
            }
            &&& resolution(s, p) is Stale ==> {
                &&& after.queue == s.queue.remove(i)
                &&& after.events.len() == s.events.len() + 1
                &&& after.events.last().kind == EventKind::StaleGeneration
                &&& names_it(after.events.last())
            }
            &&& arrived(s, p).events.len() == s.events.len() + 1
            &&& arrived(s, p).events.last().kind == EventKind::Delivered
            &&& names_it(arrived(s, p).events.last())
            &&& arrived(s, p).queue == s.queue
            &&& after.now == s.now && after.generations == s.generations && after.occurrences
                == s.occurrences && after.next_packet_id == s.next_packet_id
        }),
{
}

/// The packet that is looked at next is the earliest whose link is not cut, and time moves on to
/// when it is due, never back.
pub proof fn next_packet_is_the_earliest_open_one(s: NetworkView, i: int, j: int)
    requires
        network_is_sound(s),
        is_first_open(s, i),
    ensures
        !s.partitions.contains((s.queue[i].link.source.id, s.queue[i].link.target.id)),
        0 <= j < s.queue.len() && !s.partitions.contains(
            (s.queue[j].link.source.id, s.queue[j].link.target.id),
        ) ==> i <= j && s.queue[i].key.due <= s.queue[j].key.due,
        ({
            let after = not_before(s, s.queue[i].key.due);
            &&& after.now >= s.now
            &&& after.now >= s.queue[i].key.due
            &&& after.now == s.now || after.now == s.queue[i].key.due
            &&& after == (NetworkView { now: after.now, ..s })
        }),
        all_blocked(s) ==> false,
{
    if 0 <= j < s.queue.len() && !s.partitions.contains(
        (s.queue[j].link.source.id, s.queue[j].link.target.id),
    ) {
        if i < j {
            earlier_packets_come_first(s, i, j);
        }
    }
}

/// A node that connects gets a generation that it never had, from zero on, and is connected with
/// it; one that was there before is noted. Other nodes, the links and what is under way stay.
pub proof fn connecting_starts_a_new_generation(s: NetworkView, node: NodeId, other: u128)
    requires
        s.generations.contains_key(node.id) ==> s.generations[node.id] < u64::MAX,
    ensures
        ({
            let after = connected(s, node);
            let known = s.generations.contains_key(node.id);
            &&& after.peers.contains_key(node.id)
            &&& after.peers[node.id] == new_generation(s, node)
            &&& after.generations[node.id] == new_generation(s, node)
            &&& !known ==> new_generation(s, node) == 0
            &&& known ==> new_generation(s, node) == s.generations[node.id] + 1
            &&& other != node.id ==> after.peers.contains_key(other) == s.peers.contains_key(other)
                && (s.peers.contains_key(other) ==> after.peers[other] == s.peers[other])
            &&& after.queue == s.queue && after.partitions == s.partitions && after.now == s.now
                && after.occurrences == s.occurrences && after.next_packet_id == s.next_packet_id
            &&& !known ==> after.events == s.events
            &&& known ==> {
                &&& after.events.len() == s.events.len() + 1
                &&& after.events.last().kind == EventKind::Reconnected
                &&& after.events.last().node == Some(node)
                &&& after.events.last().generation == Some(new_generation(s, node))
                &&& after.events.last().time == s.now
            }
        }),
{
}

/// A node that leaves is no longer connected, unless it has connected anew since; all else stays.
pub proof fn leaving_takes_one_generation(s: NetworkView, node: NodeId, generation: u64, other: u128)
    ensures
        ({
            let after = disconnected(s, node, generation);
            let is_there = s.peers.contains_key(node.id) && s.peers[node.id] == generation;
            &&& is_there ==> !after.peers.contains_key(node.id)
            &&& !is_there ==> after == s
            &&& other != node.id ==> after.peers.contains_key(other) == s.peers.contains_key(other)
                && (s.peers.contains_key(other) ==> after.peers[other] == s.peers[other])
            &&& after == (NetworkView { peers: after.peers, ..s })
        }),
{
}

/// Cutting and restoring a link is noted where it changes something, and changes nothing else.
pub proof fn cutting_is_noted(s: NetworkView, link: DirectedLink)
    ensures
        ({
            let key = (link.source.id, link.target.id);
            let after = cut(s, link);
            let healed = restored(s, link);
            &&& s.partitions.contains(key) ==> after == s
            &&& !s.partitions.contains(key) ==> {
                &&& after.partitions == s.partitions.insert(key)
                &&& after.events.len() == s.events.len() + 1
                &&& after.events.last().kind == EventKind::Partitioned
                &&& after.events.last().link == Some(link)
                &&& after.events.last().time == s.now
                &&& healed == s
            }
            &&& s.partitions.contains(key) ==> {
                &&& healed.partitions == s.partitions.remove(key)
                &&& healed.events.len() == s.events.len() + 1
                &&& healed.events.last().kind == EventKind::Healed
                &&& healed.events.last().link == Some(link)
                &&& healed.events.last().time == s.now
            }
            &&& after.queue == s.queue && healed.queue == s.queue
            &&& after.peers == s.peers && healed.peers == s.peers
            &&& after.now == s.now && healed.now == s.now
            &&& after.next_packet_id == s.next_packet_id && healed.next_packet_id
                == s.next_packet_id
        }),
{
}

/// Nobody is connected and nothing is under way before anything happened.
pub proof fn network_begins_quiet(schedule: ScheduleView)
    ensures
        quiet(schedule).queue.len() == 0,
        quiet(schedule).events.len() == 0,
        quiet(schedule).peers == Map::<u128, u64>::empty(),
        quiet(schedule).generations == Map::<u128, u64>::empty(),
        quiet(schedule).partitions == Set::<(u128, u128)>::empty(),
        quiet(schedule).now == 0,
        quiet(schedule).next_packet_id == 0,
        quiet(schedule).schedule == schedule,
{
}

/// A frame that is sent to all goes to every connected node but the sender, once each, in
/// increasing order.
pub proof fn broadcast_reaches_all_others(s: NetworkView, node: NodeId, id: u128)
    requires
        s.peers.dom().finite(),
    ensures
        others(s, node).contains(id) <==> s.peers.contains_key(id) && id != node.id,
        crate::ordered::increasing_u128(others(s, node)),
{
    let keep = |n: u128| n != node.id;
    let all = ascending_u128(s.peers.dom());
    crate::ordered::ascending_lists_u128(s.peers.dom());
    crate::ordered::filter_increases_u128(all, keep);
    crate::ordered::filter_holds_u128(all, keep, id);
    assert(all.contains(id) <==> s.peers.dom().contains(id));
}

/// One frame more is sent for each target more.
pub proof fn each_target_gets_the_frame(
    s: NetworkView,
    source: NodeId,
    targets: Seq<u128>,
    target: u128,
    frame: Seq<u8>,
)
    ensures
        sent_to_each(s, source, Seq::<u128>::empty(), frame) == s,
        sent_to_each(s, source, targets.push(target), frame) == sent(
            sent_to_each(s, source, targets, frame),
            DirectedLink { source, target: NodeId { id: target } },
            frame,
        ),
{
    assert(targets.push(target).drop_last() =~= targets);
}

/// The clock of a network stops at its greatest value and loses nothing before that.
pub proof fn time_adds_up(a: u64, b: u64)
    ensures
        a + b <= u64::MAX ==> saturated(a, b) == a + b,
        a + b > u64::MAX ==> saturated(a, b) == u64::MAX,
{
}

/// When time passes exactly the packets whose time has come are due, in the order in which they
/// wait, and nothing else changes.
pub proof fn due_packets_are_those_whose_time_has_come(
    network: &mut DeterministicNetwork,
    ticks: u64,
    due: Vec<QueueKey>,
    i: int,
)
    requires
        old(network).wf(),
        call_ensures(DeterministicNetwork::advance_by, (network, ticks), due),
    ensures
        old(network)@.now + ticks <= u64::MAX ==> final(network)@.now == old(network)@.now + ticks,
        final(network)@ == (NetworkView { now: final(network)@.now, ..old(network)@ }),
        0 <= i < due@.len() ==> due@[i] == old(network)@.queue[i].key && due@[i].due
            <= final(network)@.now,
        due@.len() < old(network)@.queue.len() ==> old(network)@.queue[due@.len() as int].key.due
            > final(network)@.now,
{
}

/// What is told of the network is how it is: its time, how much is under way, which links are cut
/// and who is registered.
pub proof fn network_is_told_of_as_it_is(
    network: &DeterministicNetwork,
    link: DirectedLink,
    cut: bool,
    now: u64,
    pending: usize,
    sequence: u64,
    events: Vec<EventRecord>,
)
    requires
        network.wf(),
        call_ensures(DeterministicNetwork::is_partitioned, (network, link), cut),
        call_ensures(DeterministicNetwork::now, (network,), now),
        call_ensures(DeterministicNetwork::pending_count, (network,), pending),
        call_ensures(DeterministicNetwork::events_after, (network, sequence), events),
    ensures
        cut <==> network@.partitions.contains((link.source.id, link.target.id)),
        now == network@.now,
        pending == network@.queue.len(),
        sequence <= network@.events.len() ==> events@.len() == network@.events.len() - sequence,
        sequence > network@.events.len() ==> events@.len() == 0,
{
    assert(event_views(events@).len() == events@.len());
}

/// A node that is added is open, under a registration that is newer than all that it had.
pub proof fn added_node_is_newly_registered(
    network: &mut DeterministicNetwork,
    node: NodeId,
    backend: DeterministicBackend,
)
    requires
        old(network).wf(),
        old(network)@.generations.contains_key(node.id) ==> old(network)@.generations[node.id]
            < u64::MAX,
        call_ensures(DeterministicNetwork::add_node, (network, node), backend),
    ensures
        backend@.node_id == node,
        !backend@.closed,
        !backend@.subscribed,
        old(network)@.generations.contains_key(node.id) ==> backend@.generation
            == old(network)@.generations[node.id] + 1,
        is_current(final(network)@, node, backend@.generation),
        final(network)@.queue == old(network)@.queue,
        final(network)@.now == old(network)@.now,
{
}

} // verus!

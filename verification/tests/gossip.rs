//! The membership protocol and its clock.

use std::collections::BTreeMap;

use chirps::clock::{Duration, Instant};
use chirps::gossip::engine::{
    status_rank, Frame, GossipConfig, GossipEngine, GossipError, Outgoing, TransportError,
};
use chirps::gossip::hlc::{Clock, HlcError, LocalHlc};
use chirps::gossip::types::{
    HlcEventId, HlcGossipMessage, MembershipUpdate, MembershipView, Peer, PeerState,
    StampedMembershipUpdate, Status,
};
use chirps::gossip::util::{calculate_fanout, check_timeouts, StatusChange};
use chirps::node::{NodeAddr, NodeId};
use chirps::time::HybridTimestamp;

struct ManualClock(u64);

impl Clock for ManualClock {
    fn now_millis(&self) -> u64 {
        self.0
    }
}

fn id(byte: u8) -> NodeId {
    NodeId { id: u128::from_be_bytes([byte; 16]) }
}

fn addr(port: u16) -> NodeAddr {
    NodeAddr { ip: 0xffff_7f00_0001, port }
}

fn at(millis: u64) -> Instant {
    Instant { nanos: 10_000_000_000 + millis as u128 * 1_000_000 }
}

fn config() -> GossipConfig {
    GossipConfig {
        ping_timeout: Duration::from_millis(100),
        indirect_ping_timeout: Duration::from_millis(200),
        suspect_to_dead_timeout: Duration::from_millis(400),
        gossip_interval: Duration::from_millis(10),
        fanout: Some(1),
    }
}

fn quick_config() -> GossipConfig {
    GossipConfig {
        ping_timeout: Duration::from_millis(10),
        indirect_ping_timeout: Duration::from_millis(20),
        suspect_to_dead_timeout: Duration::from_millis(40),
        gossip_interval: Duration::from_millis(5),
        fanout: Some(2),
    }
}

fn membership(peers: &[(NodeId, NodeAddr)], incarnation: u64, status: Status, now: Instant) -> MembershipView {
    let mut view = MembershipView::new();
    for (node_id, addr) in peers {
        view.insert(Peer {
            node_id: *node_id,
            addr: *addr,
            state: PeerState::new(incarnation, status, now),
        });
    }
    view
}

/// Sends everything that a tick asks for.
fn tick(engine: &mut GossipEngine, now: Instant, wall: u64) -> (Vec<Outgoing>, Vec<StatusChange>) {
    let mut sent = Vec::new();
    let (requests, mut changes) = engine.expire_pings(now, wall);
    for (seq, target) in requests {
        let helpers = engine.select_indirect_targets(target);
        for out in engine.ping_requests(seq, target, &helpers) {
            sent.push(out);
        }
    }
    changes.extend(engine.apply_timeouts(now, wall));
    for target in engine.select_targets() {
        let target = NodeId { id: target };
        if let Some(out) = engine.begin_ping(target) {
            let seq = match out.frame {
                Frame::Ping { seq, .. } => seq,
                _ => unreachable!(),
            };
            sent.push(out);
            if let Some(gossip) = engine.ping_sent(seq, target, now, wall) {
                sent.push(gossip);
            }
        }
    }
    (sent, changes)
}

#[test]
fn fanout_defaults_and_caps() {
    assert_eq!(calculate_fanout(0, None), 0);
    assert_eq!(calculate_fanout(1, None), 0);
    assert_eq!(calculate_fanout(2, None), 1); // only one other node
    assert_eq!(calculate_fanout(10, None), 4); // ceil(sqrt(10)) = 4
    assert_eq!(calculate_fanout(4, Some(10)), 3); // capped at N-1
    assert_eq!(calculate_fanout(5, Some(2)), 2); // respects config
}

#[test]
fn fanout_respects_defaults_and_caps() {
    assert_eq!(calculate_fanout(1, None), 0);
    assert_eq!(calculate_fanout(5, None), 3); // max(3, ceil(sqrt(5)))
    assert_eq!(calculate_fanout(5, Some(10)), 4); // capped at N-1
    assert_eq!(calculate_fanout(5, Some(2)), 2);
}

#[test]
fn fanout_of_large_clusters_is_the_exact_root() {
    assert_eq!(calculate_fanout(10_000, None), 100);
    assert_eq!(calculate_fanout(10_001, None), 101);
    assert_eq!(calculate_fanout(1 << 60, None), 1 << 30);
    assert_eq!(calculate_fanout((1 << 60) + 1, None), (1 << 30) + 1);
}

fn one_peer(state: PeerState, port: u16) -> BTreeMap<u128, Peer> {
    let mut peers = BTreeMap::new();
    peers.insert(id(2).id, Peer { node_id: id(2), addr: addr(port), state });
    peers
}

fn ago(millis: u64) -> Instant {
    Instant { nanos: at(0).nanos - millis as u128 * 1_000_000 }
}

#[test]
fn alive_transitions_to_suspect() {
    let now = at(0);
    let mut state = PeerState::new(0, Status::Alive, now);
    state.last_seen = ago(4_000);
    let mut peers = one_peer(state, 9000);
    let changes = check_timeouts(
        &mut peers,
        now,
        Duration::from_secs(3),
        Duration::from_secs(6),
    );
    assert_eq!(changes.len(), 1);
    assert_eq!(changes[0].from, Status::Alive);
    assert_eq!(changes[0].to, Status::Suspect);
    let peer_state = &peers[&id(2).id].state;
    assert_eq!(peer_state.status, Status::Suspect);
    assert!(peer_state.suspect_since.is_some());
}

#[test]
fn suspect_transitions_to_dead_after_timeout() {
    let now = at(0);
    let mut state = PeerState::new(0, Status::Suspect, now);
    state.last_seen = ago(7_000);
    state.suspect_since = Some(ago(7_000));
    let mut peers = one_peer(state, 9001);
    let changes = check_timeouts(
        &mut peers,
        now,
        Duration::from_secs(3),
        Duration::from_secs(6),
    );
    assert_eq!(changes.len(), 1);
    assert_eq!(changes[0].from, Status::Suspect);
    assert_eq!(changes[0].to, Status::Dead);
    assert_eq!(peers[&id(2).id].state.status, Status::Dead);
}

#[test]
fn suspect_recovers_to_alive_on_recent_activity() {
    let now = at(0);
    let mut state = PeerState::new(0, Status::Suspect, now);
    state.last_seen = ago(100);
    state.suspect_since = Some(ago(2_000));
    let mut peers = one_peer(state, 9002);
    let changes = check_timeouts(
        &mut peers,
        now,
        Duration::from_secs(3),
        Duration::from_secs(6),
    );
    assert_eq!(changes.len(), 1);
    assert_eq!(changes[0].from, Status::Suspect);
    assert_eq!(changes[0].to, Status::Alive);
    let peer_state = &peers[&id(2).id].state;
    assert_eq!(peer_state.status, Status::Alive);
    assert!(peer_state.suspect_since.is_none());
}

#[test]
fn timeouts_produce_status_changes() {
    let now = at(0);
    let mut state = PeerState::new(0, Status::Alive, now);
    state.last_seen = ago(400);
    let mut peers = one_peer(state, 9000);
    let changes = check_timeouts(
        &mut peers,
        now,
        Duration::from_millis(200),
        Duration::from_millis(600),
    );
    assert_eq!(changes.len(), 1);
    assert_eq!(
        changes[0],
        StatusChange::new(id(2), Status::Alive, Status::Suspect, 0)
    );
}

#[test]
fn timeouts_are_over_only_when_they_are_exceeded() {
    let now = at(0);
    let after = |status: Status, seen: u64, suspected: u64| {
        let mut state = PeerState::new(0, status, now);
        state.last_seen = ago(seen);
        if status == Status::Suspect {
            state.suspect_since = Some(ago(suspected));
        }
        let mut peers = one_peer(state, 9000);
        let changes = check_timeouts(
            &mut peers,
            now,
            Duration::from_secs(3),
            Duration::from_secs(6),
        );
        (peers[&id(2).id].state.status, changes.len())
    };
    assert_eq!(after(Status::Alive, 3_000, 0), (Status::Alive, 0));
    assert_eq!(after(Status::Alive, 3_001, 0), (Status::Suspect, 1));
    assert_eq!(after(Status::Suspect, 3_000, 7_000), (Status::Alive, 1));
    assert_eq!(after(Status::Suspect, 3_001, 6_000), (Status::Suspect, 0));
    assert_eq!(after(Status::Suspect, 3_001, 6_001), (Status::Dead, 1));
}

#[test]
fn change_is_named_by_the_place_of_the_peer() {
    let now = at(0);
    let mut state = PeerState::new(0, Status::Alive, now);
    state.last_seen = ago(4_000);
    let mut peers = BTreeMap::from([(id(7).id, Peer { node_id: id(2), addr: addr(9000), state })]);
    let changes = check_timeouts(
        &mut peers,
        now,
        Duration::from_secs(3),
        Duration::from_secs(6),
    );
    assert_eq!(
        changes,
        vec![StatusChange::new(id(7), Status::Alive, Status::Suspect, 0)]
    );
    // A node takes such a peer, and one whose event is ahead of the clock, as they come.
    let mut stamped = peers[&id(7).id];
    stamped.state.timestamp = Some(HybridTimestamp::new(900, 0));
    stamped.state.event_id = Some(HlcEventId { source: id(2), sequence: 1 });
    let membership = MembershipView { peers: BTreeMap::from([(id(7).id, stamped)]) };
    let mut engine = GossipEngine::new(id(1), config(), membership, 100);
    engine.handle_ping(id(7), 1, addr(9001), now, 100);
    let peer = engine.membership().get(id(7)).unwrap();
    assert_eq!(peer.node_id, id(2));
    assert_eq!(peer.addr, addr(9001));
    assert_eq!(peer.state.status, Status::Alive);
    assert_eq!(peer.state.timestamp, Some(HybridTimestamp::new(100, 1)));
    assert_eq!(engine.hlc_current(), HybridTimestamp::new(100, 1));
}

#[test]
fn dead_peers_stay_dead() {
    let now = at(0);
    let mut peers = one_peer(PeerState::new(0, Status::Dead, now), 9003);
    let changes = check_timeouts(
        &mut peers,
        now,
        Duration::from_secs(3),
        Duration::from_secs(6),
    );
    assert!(changes.is_empty());
    assert_eq!(peers[&id(2).id].state.status, Status::Dead);
}

#[test]
fn test_peer_state_creation() {
    let now = at(0);
    let peer_state = PeerState::new(1, Status::Alive, now);
    assert_eq!(peer_state.incarnation, 1);
    assert_eq!(peer_state.status, Status::Alive);
    assert!(now.saturating_duration_since(peer_state.last_seen).as_secs() < 1);
    assert!(peer_state.suspect_since.is_none());
}

#[test]
fn statuses_are_ranked() {
    assert_eq!(status_rank(&Status::Alive), 0);
    assert_eq!(status_rank(&Status::Suspect), 1);
    assert_eq!(status_rank(&Status::Dead), 2);
}

#[test]
fn tick_sends_ping() {
    let peers = [(id(2), addr(9000))];
    let mut engine = GossipEngine::new(
        id(1),
        config(),
        membership(&peers, 0, Status::Alive, at(0)),
        100,
    );
    let (sent, _) = tick(&mut engine, at(0), 100);
    assert!(!sent.is_empty());
    assert_eq!(sent[0].target, id(2));
    assert_eq!(sent[0].frame, Frame::Ping { seq: 1, from: id(1) });
    assert!(engine.begin_ping(id(2)).is_none());
}

#[test]
fn timeouts_mark_suspect_and_dead() {
    let peers = [(id(2), addr(9000))];
    let mut view = membership(&peers, 0, Status::Suspect, ago(500));
    let mut peer = view.get(id(2)).unwrap();
    peer.state.suspect_since = Some(ago(500));
    view.insert(peer);
    let mut engine = GossipEngine::new(id(1), config(), view, 100);
    let (_, changes) = tick(&mut engine, at(0), 100);
    assert!(changes.iter().any(|c| c.to == Status::Dead));
    assert!(
        engine.metrics().status_events >= 1,
        "status events should be counted"
    );
}

#[test]
fn ping_timeout_requests_indirect_and_marks_suspect() {
    let target = id(2);
    let helper = id(3);
    let peers = [(target, addr(9100)), (helper, addr(9101))];
    let cfg = GossipConfig {
        ping_timeout: Duration::from_millis(5),
        indirect_ping_timeout: Duration::from_millis(15),
        suspect_to_dead_timeout: Duration::from_millis(40),
        gossip_interval: Duration::from_millis(5),
        fanout: Some(2),
    };
    let mut engine = GossipEngine::new(
        id(1),
        cfg,
        membership(&peers, 0, Status::Alive, at(0)),
        100,
    );
    tick(&mut engine, at(0), 100);
    let (sent, _) = tick(&mut engine, at(7), 107);
    assert!(
        sent.iter().any(|out| out.target == helper
            && matches!(&out.frame, Frame::PingReq { target: t, .. } if *t == target)),
        "expected PingReq to helper"
    );
    let (_, changes) = tick(&mut engine, at(27), 127);
    assert!(changes
        .iter()
        .any(|c| c.node_id == target && c.to == Status::Suspect));
}

#[test]
fn handle_ping_req_forwards_ping_from_requester() {
    let requester = id(5);
    let target = id(2);
    let mut engine = GossipEngine::new(
        id(1),
        config(),
        membership(&[(target, addr(9200))], 0, Status::Alive, at(0)),
        100,
    );
    let out = engine.handle_ping_req(requester, 10, target, addr(9300), at(0), 100);
    assert_eq!(out.target, target);
    assert_eq!(out.frame, Frame::Ping { seq: 10, from: requester });
    assert_eq!(engine.metrics().received, 1);
    assert_eq!(
        engine.membership().get(requester).unwrap().state.status,
        Status::Alive
    );
}

#[test]
fn ping_is_acknowledged() {
    let mut engine = GossipEngine::new(id(1), config(), MembershipView::new(), 100);
    let out = engine.handle_ping(id(9), 4, addr(9001), at(1), 101);
    assert_eq!(out.target, id(9));
    assert_eq!(out.frame, Frame::Ack { seq: 4, from: id(1) });
}

#[test]
fn equal_incarnation_alive_gossip_does_not_refresh_liveness() {
    let peer_id = id(2);
    let last_seen = ago(1_000);
    let mut engine = GossipEngine::new(
        id(1),
        config(),
        membership(&[(peer_id, addr(9400))], 7, Status::Alive, last_seen),
        100,
    );
    engine.apply_membership_update(
        &[MembershipUpdate {
            node_id: peer_id,
            incarnation: 7,
            addr: addr(9400),
            status: Status::Alive,
        }],
        at(0),
        100,
    );
    let peer = engine.membership().get(peer_id).unwrap();
    assert_eq!(peer.state.status, Status::Alive);
    assert_eq!(peer.state.last_seen, last_seen);
    let changes = engine.apply_timeouts(at(0), 100);
    assert!(
        changes
            .iter()
            .any(|change| change.node_id == peer_id && change.to == Status::Suspect),
        "stale Alive gossip must not keep an unreachable peer alive"
    );
}

#[test]
fn only_higher_incarnation_alive_gossip_refutes_suspicion() {
    let peer_id = id(2);
    let last_seen = ago(1_000);
    let mut view = membership(&[(peer_id, addr(9500))], 3, Status::Suspect, last_seen);
    let mut peer = view.get(peer_id).unwrap();
    peer.state.suspect_since = Some(last_seen);
    view.insert(peer);
    let mut engine = GossipEngine::new(id(1), config(), view, 100);
    let mut update = MembershipUpdate {
        node_id: peer_id,
        incarnation: 3,
        addr: addr(9500),
        status: Status::Alive,
    };
    engine.apply_membership_update(&[update], at(0), 100);
    assert_eq!(
        engine.membership().get(peer_id).unwrap().state.status,
        Status::Suspect
    );
    update.incarnation = 4;
    engine.apply_membership_update(&[update], at(0), 100);
    let peer = engine.membership().get(peer_id).unwrap();
    assert_eq!(peer.state.incarnation, 4);
    assert_eq!(peer.state.status, Status::Alive);
    assert!(peer.state.suspect_since.is_none());
    assert!(peer.state.last_seen.nanos > last_seen.nanos);
}

fn update(
    source: NodeId,
    sequence: u64,
    timestamp: HybridTimestamp,
    peer: NodeId,
    status: Status,
) -> StampedMembershipUpdate {
    StampedMembershipUpdate {
        event_id: HlcEventId { source, sequence },
        timestamp,
        update: MembershipUpdate {
            node_id: peer,
            incarnation: 1,
            addr: addr(9001),
            status,
        },
    }
}

fn engine_at_100(peers: &[(NodeId, NodeAddr)]) -> GossipEngine {
    GossipEngine::new_with_hlc(
        id(1),
        config(),
        membership(peers, 1, Status::Alive, at(0)),
        LocalHlc::with_clock(Duration::from_millis(10), &ManualClock(100)),
    )
}

#[test]
fn swim_and_gossip_messages_include_sender_hlc() {
    let mut engine = engine_at_100(&[(id(2), addr(9001))]);
    let (sent, _) = tick(&mut engine, at(0), 100);
    let message = sent
        .iter()
        .find_map(|out| match &out.frame {
            Frame::HlcGossip(message) => Some(message),
            _ => None,
        })
        .expect("HLC gossip frame");
    assert_eq!(message.timestamp.physical, 100);
    assert!(!message.updates.is_empty());
    assert!(message
        .updates
        .iter()
        .all(|event| event.timestamp <= message.timestamp));
}

#[test]
fn reordered_and_duplicate_delivery_preserves_receiver_order() {
    let sender = id(7);
    let peer = id(8);
    let mut engine = engine_at_100(&[]);
    let later = HlcGossipMessage {
        event_id: HlcEventId { source: sender, sequence: 20 },
        timestamp: HybridTimestamp::new(100, 4),
        updates: vec![update(
            sender,
            2,
            HybridTimestamp::new(100, 3),
            peer,
            Status::Alive,
        )],
    };
    let earlier = HlcGossipMessage {
        event_id: HlcEventId { source: sender, sequence: 10 },
        timestamp: HybridTimestamp::new(100, 2),
        updates: vec![update(
            sender,
            1,
            HybridTimestamp::new(100, 1),
            peer,
            Status::Dead,
        )],
    };
    assert_eq!(engine.apply_hlc_gossip(&later, at(0), 100), Ok(1));
    let after_later = engine.hlc_current();
    assert_eq!(engine.apply_hlc_gossip(&earlier, at(0), 100), Ok(0));
    assert_eq!(engine.apply_hlc_gossip(&later, at(0), 100), Ok(0));
    let member = engine.membership().get(peer).unwrap();
    assert_eq!(member.state.status, Status::Alive);
    assert!(engine.hlc_current() > after_later);
}

#[test]
fn skewed_gossip_is_rejected_without_clock_or_membership_mutation() {
    let sender = id(7);
    let peer = id(8);
    let mut engine = engine_at_100(&[]);
    let before = engine.hlc_current();
    let skewed = HlcGossipMessage {
        event_id: HlcEventId { source: sender, sequence: 1 },
        timestamp: HybridTimestamp::new(111, 0),
        updates: vec![update(
            sender,
            1,
            HybridTimestamp::new(111, 0),
            peer,
            Status::Alive,
        )],
    };
    let error = engine.apply_hlc_gossip(&skewed, at(0), 100).unwrap_err();
    assert!(matches!(
        error,
        GossipError::Hlc(HlcError::ClockSkewTooLarge { .. })
    ));
    assert_eq!(
        error.message(),
        "hlc: remote physical clock 111ms exceeds wall clock 100ms by more than 10ms"
    );
    assert_eq!(engine.hlc_current(), before);
    assert!(engine.membership().peers.is_empty());
}

#[test]
fn envelope_older_than_its_events_is_refused() {
    let mut engine = engine_at_100(&[]);
    let before = engine.hlc_current();
    let unsound = HlcGossipMessage {
        event_id: HlcEventId { source: id(7), sequence: 1 },
        timestamp: HybridTimestamp::new(100, 0),
        updates: vec![update(
            id(7),
            1,
            HybridTimestamp::new(100, 1),
            id(8),
            Status::Alive,
        )],
    };
    let error = engine.apply_hlc_gossip(&unsound, at(0), 100).unwrap_err();
    assert_eq!(
        error.message(),
        "invalid HLC gossip envelope: membership timestamp exceeds envelope timestamp"
    );
    assert_eq!(engine.hlc_current(), before);
}

#[test]
fn simulated_clock_replays_direct_indirect_suspect_and_recovery() {
    let target = (id(2), addr(9102));
    let helper = (id(3), addr(9103));
    let mut engine = GossipEngine::new(
        id(1),
        quick_config(),
        membership(&[target, helper], 5, Status::Alive, at(0)),
        100,
    );
    let (mut sent, _) = tick(&mut engine, at(0), 100);
    let (more, _) = tick(&mut engine, at(11), 111);
    sent.extend(more);
    let (more, changes) = tick(&mut engine, at(32), 132);
    sent.extend(more);
    assert!(changes.iter().any(|change| change.to == Status::Suspect));
    assert!(sent
        .iter()
        .any(|out| matches!(out.frame, Frame::PingReq { .. })));
    engine.handle_ack(target.0, 1, target.1, at(32), 132);
    assert_eq!(
        engine.membership().get(target.0).unwrap().state.status,
        Status::Alive
    );
}

#[test]
fn stale_incarnations_and_reordered_gossip_cannot_override_rejoin() {
    let peer = id(2);
    let addr = addr(9202);
    let mut engine = GossipEngine::new(
        id(1),
        quick_config(),
        membership(&[(peer, addr)], 5, Status::Alive, at(0)),
        100,
    );
    let says = |incarnation: u64, status: Status| MembershipUpdate {
        node_id: peer,
        incarnation,
        addr,
        status,
    };
    engine.apply_membership_update(&[says(5, Status::Suspect)], at(0), 100);
    assert_eq!(
        engine.membership().get(peer).unwrap().state.status,
        Status::Suspect
    );
    engine.apply_membership_update(&[says(6, Status::Alive)], at(0), 100);
    engine.apply_membership_update(
        &[says(5, Status::Dead), says(6, Status::Suspect)],
        at(0),
        100,
    );
    let current = engine.membership();
    assert_eq!(current.get(peer).unwrap().state.incarnation, 6);
    assert_eq!(current.get(peer).unwrap().state.status, Status::Suspect);
    engine.apply_membership_update(&[says(7, Status::Alive)], at(0), 100);
    let rejoined = engine.membership();
    assert_eq!(rejoined.get(peer).unwrap().state.incarnation, 7);
    assert_eq!(rejoined.get(peer).unwrap().state.status, Status::Alive);
}

#[test]
fn clock_moves_forward_and_stays_near_the_wall_clock() {
    let mut hlc = LocalHlc::new(Duration::from_millis(10), 100);
    assert_eq!(hlc.current(), HybridTimestamp::new(100, 0));
    assert_eq!(hlc.tick(100), HybridTimestamp::new(100, 1));
    assert_eq!(hlc.tick(90), HybridTimestamp::new(100, 2));
    assert_eq!(hlc.tick(120), HybridTimestamp::new(120, 0));
    let merged = hlc.receive(HybridTimestamp::new(125, 7), 120).unwrap();
    assert_eq!(merged, HybridTimestamp::new(125, 8));
    assert!(hlc.receive(HybridTimestamp::new(131, 0), 120).is_err());
    assert_eq!(hlc.current(), merged);
}

#[test]
fn chosen_targets_are_live_and_no_more_than_the_fanout() {
    let peers: Vec<(NodeId, NodeAddr)> = (2..12).map(|n| (id(n), addr(9000 + n as u16))).collect();
    let mut view = membership(&peers, 0, Status::Alive, at(0));
    let mut dead = view.get(id(3)).unwrap();
    dead.state.status = Status::Dead;
    view.insert(dead);
    let config = GossipConfig { fanout: Some(4), ..config() };
    let engine = GossipEngine::new(id(1), config, view, 100);
    for _ in 0..20 {
        let mut targets = engine.select_targets();
        assert_eq!(targets.len(), 4);
        assert!(!targets.contains(&id(3).id));
        targets.sort();
        targets.dedup();
        assert_eq!(targets.len(), 4);
        assert!(targets.iter().all(|t| peers.iter().any(|p| p.0.id == *t)));
        let helpers = engine.select_indirect_targets(id(2));
        assert!(!helpers.contains(&id(2).id));
    }
}

#[test]
fn gossip_errors_have_texts() {
    let cases = vec![
        (TransportError::Connection("x".into()), "transport: connection: x"),
        (TransportError::Send("x".into()), "transport: send: x"),
        (TransportError::Subscribe("x".into()), "transport: subscribe: x"),
        (TransportError::Io("x".into()), "transport: io: x"),
    ];
    for (error, text) in cases {
        assert_eq!(GossipError::Transport(error).message(), text);
    }
}

#[test]
fn order_of_gossip_does_not_matter() {
    let update = |node: u8, incarnation: u64, status: Status| MembershipUpdate {
        node_id: id(node),
        incarnation,
        addr: addr(9000 + node as u16),
        status,
    };
    let updates = vec![
        update(1, 3, Status::Suspect),
        update(2, 1, Status::Dead),
        update(1, 4, Status::Alive),
        update(2, 1, Status::Alive),
        update(1, 3, Status::Dead),
        update(3, 0, Status::Suspect),
    ];
    let known = [(id(1), addr(9001))];
    let mut orders = vec![updates.clone()];
    orders.push(updates.iter().rev().copied().collect());
    orders.push(updates.iter().chain(updates.iter()).copied().collect());
    for order in orders {
        let view = membership(&known, 2, Status::Alive, at(0));
        let mut engine = GossipEngine::new(id(9), config(), view, 1_000);
        engine.apply_membership_update(&order, at(1), 1_001);
        let peers = engine.membership().peers;
        let known: Vec<(u64, Status)> =
            peers.values().map(|peer| (peer.state.incarnation, peer.state.status)).collect();
        assert_eq!(known, vec![(4, Status::Alive), (1, Status::Dead), (0, Status::Suspect)]);
    }
}

#[test]
fn late_ack_does_not_revive_a_dead_peer() {
    let view = membership(&[(id(1), addr(9001))], 2, Status::Dead, at(0));
    let mut engine = GossipEngine::new(id(9), config(), view, 1_000);
    let clock = engine.hlc_current();
    engine.handle_ack(id(1), 5, addr(9002), at(1), 2_000);
    let peer = engine.membership().peers.values().next().copied().unwrap();
    assert_eq!(peer.state.status, Status::Dead);
    assert_eq!(peer.addr, addr(9001));
    assert_eq!(engine.hlc_current(), clock);
    assert_eq!(engine.metrics().received, 1);
}

//! The simulated networks.

use chirps::error::TransportError;
use chirps::mock::backend::DeterministicBackend;
use chirps::mock::memory::{MockBackend, MockNetwork};
use chirps::mock::minimize::minimize_schedule;
use chirps::mock::network::{DeterministicNetwork, Step};
use chirps::mock::schedule::{
    splitmix64, DirectedLink, FaultEffect, FaultSchedule, FaultScheduleBuilder,
};
use chirps::mock::trace::{frame_fingerprint, EventKind};
use chirps::node::{NodeAddr, NodeId};

fn node(byte: u8) -> NodeId {
    NodeId { id: u128::from_be_bytes([byte; 16]) }
}

fn ping(seq: u8) -> Vec<u8> {
    vec![1, seq]
}

/// Settles one packet, and tells whether there was one to settle.
fn deliver_next(network: &mut DeterministicNetwork, inbox: &mut Vec<(NodeId, NodeId, u8)>) -> bool {
    match network.deliver_next() {
        Step::Idle => false,
        Step::Settled => true,
        Step::Arrives(packet) => {
            inbox.push((packet.link.source, packet.link.target, packet.frame[1]));
            network.confirm_delivery(&packet);
            true
        }
    }
}

fn run_until_idle(network: &mut DeterministicNetwork, inbox: &mut Vec<(NodeId, NodeId, u8)>) {
    while deliver_next(network, inbox) {}
}

fn advance_by(network: &mut DeterministicNetwork, ticks: u64, inbox: &mut Vec<(NodeId, NodeId, u8)>) {
    for key in network.advance_by(ticks) {
        if let Some(packet) = network.deliver_key(key) {
            inbox.push((packet.link.source, packet.link.target, packet.frame[1]));
            network.confirm_delivery(&packet);
        }
    }
}

fn replay(seed: u64) -> (Vec<String>, Vec<u8>) {
    let a = node(1);
    let b = node(2);
    let schedule = FaultSchedule::from_seed(seed, &[DirectedLink::new(a, b)], 8);
    let mut network = DeterministicNetwork::new(schedule);
    let backend_a = network.add_node(a);
    let _backend_b = network.add_node(b);
    for seq in 0..8 {
        backend_a.send(&mut network, b, &ping(seq)).unwrap();
    }
    let mut inbox = Vec::new();
    run_until_idle(&mut network, &mut inbox);
    (
        network.stable_trace(),
        inbox.iter().map(|(_, _, seq)| *seq).collect(),
    )
}

#[test]
fn identical_seed_replays_identically() {
    let first = replay(0x603);
    let second = replay(0x603);
    assert_eq!(first, second);
    assert!(!first.0.is_empty());
}

fn encode_effect(effect: &FaultEffect) -> serde_json::Value {
    let (name, number) = match effect {
        FaultEffect::Delay { ticks } => ("delay", *ticks),
        FaultEffect::Drop => ("drop", 0),
        FaultEffect::Duplicate { copies } => ("duplicate", *copies as u64),
        FaultEffect::Reorder { extra_ticks } => ("reorder", *extra_ticks),
    };
    serde_json::Value::Array(vec![name.into(), number.into()])
}

fn decode_effect(value: &serde_json::Value) -> FaultEffect {
    let number = value[1].as_u64().unwrap();
    match value[0].as_str().unwrap() {
        "delay" => FaultEffect::Delay { ticks: number },
        "drop" => FaultEffect::Drop,
        "duplicate" => FaultEffect::Duplicate { copies: number as u16 },
        _ => FaultEffect::Reorder { extra_ticks: number },
    }
}

#[test]
fn seed_expansion_changes_and_round_trips() {
    let link = DirectedLink::new(node(1), node(2));
    let first = FaultSchedule::from_seed(0x603, &[link], 16);
    let second = FaultSchedule::from_seed(0x604, &[link], 16);
    assert_ne!(first, second);
    let rules: Vec<serde_json::Value> = first
        .rules()
        .iter()
        .map(|rule| {
            serde_json::Value::Array(vec![
                rule.occurrence.into(),
                serde_json::Value::Array(rule.effects.iter().map(encode_effect).collect()),
            ])
        })
        .collect();
    let encoded = serde_json::to_vec(&serde_json::Value::Array(rules)).unwrap();
    let decoded: serde_json::Value = serde_json::from_slice(&encoded).unwrap();
    let mut builder = FaultScheduleBuilder::new(first.seed);
    for rule in decoded.as_array().unwrap() {
        let effects = rule[1].as_array().unwrap().iter().map(decode_effect).collect();
        builder = builder.on_nth(link, rule[0].as_u64().unwrap(), effects);
    }
    assert_eq!(builder.build(), first);
}

#[test]
fn generator_gives_the_published_numbers() {
    let mut state: u64 = 0;
    assert_eq!(splitmix64(&mut state), 0xe220_a839_7b1d_cdaf);
    assert_eq!(splitmix64(&mut state), 0x6e78_9e6a_a1b9_65f4);
    assert_eq!(splitmix64(&mut state), 0x06c4_5d18_8009_454f);
}

#[test]
fn frames_are_named_by_their_bytes() {
    assert_eq!(frame_fingerprint(b""), "fnv1a64:cbf29ce484222325");
    assert_eq!(frame_fingerprint(b"a"), "fnv1a64:af63dc4c8601ec8c");
    assert_eq!(frame_fingerprint(b"foobar"), "fnv1a64:85944171f73967e8");
}

#[test]
fn deliver_next_resolves_one_packet_copy() {
    let a = node(1);
    let b = node(2);
    let mut network = DeterministicNetwork::new(FaultSchedule::empty(1));
    let backend_a = network.add_node(a);
    let _backend_b = network.add_node(b);
    let mut inbox = Vec::new();
    backend_a.send(&mut network, b, &ping(1)).unwrap();
    backend_a.send(&mut network, b, &ping(2)).unwrap();
    assert_eq!(network.pending_count(), 2);
    assert!(deliver_next(&mut network, &mut inbox));
    assert_eq!(network.pending_count(), 1);
    assert_eq!(inbox, vec![(a, b, 1)]);
    assert!(deliver_next(&mut network, &mut inbox));
    assert!(!deliver_next(&mut network, &mut inbox));
    assert_eq!(inbox, vec![(a, b, 1), (a, b, 2)]);
}

#[test]
fn directed_link_faults_are_composable() {
    let a = node(1);
    let b = node(2);
    let link = DirectedLink::new(a, b);
    let schedule = FaultScheduleBuilder::new(7)
        .on_nth(link, 0, vec![FaultEffect::Reorder { extra_ticks: 5 }])
        .on_nth(
            link,
            2,
            vec![
                FaultEffect::Delay { ticks: 3 },
                FaultEffect::Duplicate { copies: 2 },
            ],
        )
        .on_nth(link, 3, vec![FaultEffect::Drop])
        .build();
    let mut network = DeterministicNetwork::new(schedule);
    let backend_a = network.add_node(a);
    let _backend_b = network.add_node(b);
    for seq in 1..5 {
        backend_a.send(&mut network, b, &ping(seq)).unwrap();
    }
    let mut inbox = Vec::new();
    advance_by(&mut network, 2, &mut inbox);
    assert_eq!(inbox, vec![(a, b, 2)]);
    run_until_idle(&mut network, &mut inbox);
    let delivered: Vec<u8> = inbox.iter().map(|(_, _, seq)| *seq).collect();
    assert_eq!(delivered, vec![2, 3, 3, 1]);
    let events = network.events();
    assert!(events.iter().any(|event| event.kind == EventKind::Dropped));
    assert_eq!(
        events
            .iter()
            .filter(|event| event.kind == EventKind::Delivered)
            .count(),
        4
    );
    assert_eq!(network.events_after(2), events[2..].to_vec());
}

#[test]
fn partition_heal_is_asymmetric() {
    let a = node(1);
    let b = node(2);
    let ab = DirectedLink::new(a, b);
    let ba = DirectedLink::new(b, a);
    let schedule = FaultScheduleBuilder::new(11)
        .on_nth(ab, 0, vec![FaultEffect::Delay { ticks: 3 }])
        .build();
    let mut network = DeterministicNetwork::new(schedule);
    let backend_a = network.add_node(a);
    let backend_b = network.add_node(b);
    let mut inbox = Vec::new();
    backend_a.send(&mut network, b, &ping(1)).unwrap();
    network.partition(ab);
    backend_b.send(&mut network, a, &ping(2)).unwrap();
    advance_by(&mut network, 3, &mut inbox);
    run_until_idle(&mut network, &mut inbox);
    assert_eq!(inbox, vec![(b, a, 2)]);
    network.heal(ab);
    assert!(!network.is_partitioned(ab));
    assert!(!network.is_partitioned(ba));
    run_until_idle(&mut network, &mut inbox);
    assert_eq!(inbox, vec![(b, a, 2), (a, b, 1)]);
}

fn replaced_while_under_way(seed: u64, replaced: u8) -> (Vec<(NodeId, NodeId, u8)>, DeterministicNetwork) {
    let a = node(1);
    let b = node(2);
    let link = DirectedLink::new(a, b);
    let schedule = FaultScheduleBuilder::new(seed)
        .on_nth(link, 0, vec![FaultEffect::Delay { ticks: 5 }])
        .build();
    let mut network = DeterministicNetwork::new(schedule);
    let backend_a = network.add_node(a);
    let _backend_b = network.add_node(b);
    backend_a.send(&mut network, b, &ping(1)).unwrap();
    let _again = network.add_node(node(replaced));
    let mut inbox = Vec::new();
    run_until_idle(&mut network, &mut inbox);
    (inbox, network)
}

#[test]
fn reconnect_discards_stale_generation() {
    let (inbox, network) = replaced_while_under_way(13, 2);
    assert!(inbox.is_empty());
    assert!(network
        .events()
        .iter()
        .any(|event| event.kind == EventKind::StaleGeneration));
}

#[test]
fn reconnecting_source_discards_its_queued_generation() {
    let (inbox, network) = replaced_while_under_way(19, 1);
    assert!(inbox.is_empty());
    assert!(network
        .events()
        .iter()
        .any(|event| event.kind == EventKind::StaleGeneration));
}

#[test]
fn failing_schedule_is_minimized_from_fresh_candidates() {
    let a = node(1);
    let b = node(2);
    let link = DirectedLink::new(a, b);
    let schedule = FaultScheduleBuilder::new(17)
        .on_nth(link, 0, vec![FaultEffect::Delay { ticks: 10 }])
        .on_nth(link, 1, vec![FaultEffect::Drop])
        .on_nth(link, 2, vec![FaultEffect::Duplicate { copies: 3 }])
        .build();
    let minimized = minimize_schedule(&schedule, |candidate: &FaultSchedule| {
        candidate
            .rules()
            .iter()
            .any(|rule| rule.effects.contains(&FaultEffect::Drop))
    });
    assert_eq!(minimized.rules().len(), 1);
    assert_eq!(minimized.rules()[0].effects, vec![FaultEffect::Drop]);
}

#[test]
fn first_needless_rules_are_left_out_first() {
    let link = DirectedLink::new(node(1), node(2));
    let schedule = FaultScheduleBuilder::new(17)
        .on_nth(link, 0, vec![FaultEffect::Drop])
        .on_nth(link, 1, vec![FaultEffect::Drop])
        .on_nth(link, 2, vec![FaultEffect::Drop])
        .on_nth(link, 3, vec![FaultEffect::Drop, FaultEffect::Delay { ticks: 1 }])
        .build();
    let any = |candidate: &FaultSchedule| !candidate.rules().is_empty();
    let minimized = minimize_schedule(&schedule, any);
    assert_eq!(minimized.rules().len(), 1);
    assert_eq!(minimized.rules()[0].occurrence, 3);
    assert!(minimized.rules()[0].effects.is_empty());
    assert_eq!(minimize_schedule(&schedule, any), minimized);
}

#[test]
fn schedule_that_does_not_fail_stays_whole() {
    let link = DirectedLink::new(node(1), node(2));
    let schedule = FaultSchedule::from_seed(3, &[link], 8);
    let same = minimize_schedule(&schedule, |_: &FaultSchedule| false);
    assert_eq!(same, schedule);
    let nothing = minimize_schedule(&schedule, |_: &FaultSchedule| true);
    assert!(nothing.rules().is_empty());
}

#[test]
fn refusals_of_the_simulated_network_name_their_reason() {
    let a = node(1);
    let b = node(2);
    let mut network = DeterministicNetwork::new(FaultSchedule::empty(1));
    let mut first: DeterministicBackend = network.add_node(a);
    assert_eq!(
        first.send(&mut network, b, &ping(1)),
        Err(TransportError::Connection("target is not connected".into()))
    );
    assert_eq!(first.subscribe(), Ok(()));
    assert_eq!(
        first.subscribe(),
        Err(TransportError::Subscribe("already subscribed".into()))
    );
    let mut second = network.add_node(a);
    assert_eq!(second.generation(), first.generation() + 1);
    assert_eq!(
        first.send(&mut network, a, &ping(1)),
        Err(TransportError::Connection(
            "deterministic backend registration is stale".into()
        ))
    );
    second.close(&mut network);
    assert_eq!(
        second.send(&mut network, a, &ping(1)),
        Err(TransportError::Connection("deterministic backend is closed".into()))
    );
    first.close(&mut network);
    assert!(second.connected_peers(&network).is_empty());
}

#[test]
fn broadcast_of_the_simulated_network_reaches_the_others() {
    let mut network = DeterministicNetwork::new(FaultSchedule::empty(1));
    let backend = network.add_node(node(1));
    let _two = network.add_node(node(2));
    let _three = network.add_node(node(3));
    assert_eq!(backend.broadcast(&mut network, &ping(7)), Ok(2));
    let mut inbox = Vec::new();
    run_until_idle(&mut network, &mut inbox);
    assert_eq!(inbox, vec![(node(1), node(2), 7), (node(1), node(3), 7)]);
    assert_eq!(network.now(), 0);
}

#[test]
fn packet_of_a_closed_node_is_lost() {
    let mut network = DeterministicNetwork::new(FaultSchedule::empty(1));
    let mut one = network.add_node(node(1));
    let _two = network.add_node(node(2));
    one.send(&mut network, node(2), &ping(7)).unwrap();
    one.close(&mut network);
    let mut inbox = Vec::new();
    run_until_idle(&mut network, &mut inbox);
    assert!(inbox.is_empty());
    assert_eq!(network.pending_count(), 0);
}

fn addr(port: u16) -> NodeAddr {
    NodeAddr { ip: 0xffff_7f00_0001, port }
}

#[test]
fn send_delivers_to_target() {
    let mut network = MockNetwork::new();
    let a = node(1);
    let b = node(2);
    let backend_a = network.add_node(a, MockBackend::ephemeral_addr());
    let mut backend_b = network.add_node(b, MockBackend::ephemeral_addr());
    assert_eq!(backend_b.subscribe(), Ok(()));
    assert_eq!(backend_a.route(&network, b), Ok(b));
    assert_eq!(MockBackend::send_outcome(true), Ok(()));
}

#[test]
fn broadcast_reaches_all_peers_except_self() {
    let mut network = MockNetwork::new();
    let (a, b, c) = (node(1), node(2), node(3));
    let backend_a = network.add_node(a, addr(1));
    network.add_node(b, addr(2));
    network.add_node(c, addr(3));
    let targets = backend_a.broadcast_targets(&network).unwrap();
    assert_eq!(targets, vec![b.id, c.id]);
    assert_eq!(MockBackend::count_taken(&[true, true]), 2);
    assert_eq!(MockBackend::count_taken(&[true, false]), 1);
    assert_eq!(
        backend_a.connected_peers(&network),
        vec![(b, addr(2)), (c, addr(3))]
    );
}

#[test]
fn close_removes_peer_and_blocks_send() {
    let mut network = MockNetwork::new();
    let a = node(1);
    let b = node(2);
    let backend_a = network.add_node(a, MockBackend::ephemeral_addr());
    let mut backend_b = network.add_node(b, MockBackend::ephemeral_addr());
    assert_eq!(backend_b.subscribe(), Ok(()));
    assert!(matches!(
        backend_b.subscribe(),
        Err(TransportError::Subscribe(_))
    ));
    backend_b.close(&mut network);
    assert!(matches!(
        backend_a.route(&network, b),
        Err(TransportError::Connection(_))
    ));
    assert!(matches!(
        backend_b.route(&network, a),
        Err(TransportError::Connection(_))
    ));
    assert!(matches!(
        MockBackend::send_outcome(false),
        Err(TransportError::Send(_))
    ));
}

//! Fan-out and timeouts.

use std::collections::BTreeMap;
use vstd::prelude::*;

use crate::clock::{Duration, Instant};
use crate::gossip::types::{keyed_by_node, Peer, PeerState, Status};
use crate::node::NodeId;
use crate::ordered::{increasing_u128, sorted_keys_u128};

verus! {

/// A change of a peer's status.
#[derive(Debug, Clone, Copy, PartialEq, Eq, Structural)]
pub struct StatusChange {
    pub node_id: NodeId,
    pub from: Status,
    pub to: Status,
    pub incarnation: u64,
}

impl StatusChange {
    /// The change of the given parts.
    pub fn new(node_id: NodeId, from: Status, to: Status, incarnation: u64) -> (change: Self)
        ensures
            change == (StatusChange { node_id, from, to, incarnation }),
    {
        StatusChange { node_id, from, to, incarnation }
    }
}

/// Whether `r` is the square root of `n`, rounded up.
pub open spec fn is_ceil_sqrt(n: nat, r: nat) -> bool {
    n <= r * r && (r > 0 ==> (r - 1) * (r - 1) < n)
}

/// The smaller of two numbers.
pub open spec fn smaller(a: nat, b: nat) -> nat {
    if a <= b {
        a
    } else {
        b
    }
}

/// The fan-out of `total` nodes where `root` is the square root of `total`, rounded up:
/// `max(3, root)`, or what is configured, and never more than the other nodes.
pub open spec fn fanout(total: nat, configured: Option<usize>, root: nat) -> nat {
    if total <= 1 {
        0
    } else {
        match configured {
            Some(wanted) => smaller(wanted as nat, (total - 1) as nat),
            None => smaller(
                if root < 3 {
                    3
                } else {
                    root
                },
                (total - 1) as nat,
            ),
        }
    }
}

/// The square root of `n`, rounded up.
fn ceil_sqrt(n: usize) -> (r: usize)
    ensures
        is_ceil_sqrt(n as nat, r as nat),
{
    let wide: u128 = n as u128;
    let mut r: u128 = 0;
    while r * r < wide
        invariant
            wide == n,
            r <= wide,
            r > 0 ==> (r - 1) * (r - 1) < wide,
            r <= 0x1_0000_0000,
            r * r <= 0x1_0000_0000_0000_0000,
        decreases wide - r,
    {
        assert(r < 0x1_0000_0000) by (nonlinear_arith)
            requires
                r * r < wide,
                wide <= 0xffff_ffff_ffff_ffff,
        ;
        assert(r < wide) by (nonlinear_arith)
            requires
                r * r < wide,
                r >= 0,
        ;
        r = r + 1;
        assert(r * r <= 0x1_0000_0000_0000_0000) by (nonlinear_arith)
            requires
                0 <= r <= 0x1_0000_0000,
        ;
    }
    r as usize
}

/// The number of nodes to gossip with: `max(3, ceil(sqrt(N)))`, at most `N - 1`. A
/// configured number is only held to `N - 1`.
pub fn calculate_fanout(total_nodes: usize, configured: Option<usize>) -> (n: usize)
    ensures
        forall|root: nat|
            is_ceil_sqrt(total_nodes as nat, root) ==> n == #[trigger] fanout(
                total_nodes as nat,
                configured,
                root,
            ),
        total_nodes <= 1 ==> n == 0,
        total_nodes > 1 ==> n <= total_nodes - 1,
{
    if total_nodes <= 1 {
        return 0;
    }
    let cap: usize = total_nodes - 1;
    match configured {
        Some(wanted) => if wanted <= cap {
            wanted
        } else {
            cap
        },
        None => {
            let root: usize = ceil_sqrt(total_nodes);
            proof {
                assert forall|other: nat| is_ceil_sqrt(total_nodes as nat, other) implies other
                    == root by {
                    ceil_sqrt_is_unique(total_nodes as nat, root as nat, other);
                }
            }
            let wanted: usize = if root < 3 {
                3
            } else {
                root
            };
            if wanted <= cap {
                wanted
            } else {
                cap
            }
        },
    }
}

proof fn search_root(n: nat, from: nat) -> (root: nat)
    requires
        from > 0 ==> (from - 1) * (from - 1) < n,
        from <= n,
    ensures
        is_ceil_sqrt(n, root),
    decreases n - from,
{
    if n <= from * from {
        from
    } else {
        assert(from < n) by (nonlinear_arith)
            requires
                from * from < n,
        ;
        search_root(n, from + 1)
    }
}

/// Every number has a square root rounded up.
pub proof fn ceil_sqrt_exists(n: nat)
    ensures
        exists|root: nat| is_ceil_sqrt(n, root),
{
    let root = search_root(n, 0);
    assert(is_ceil_sqrt(n, root));
}

/// A number has one square root rounded up.
pub proof fn ceil_sqrt_is_unique(n: nat, a: nat, b: nat)
    requires
        is_ceil_sqrt(n, a),
        is_ceil_sqrt(n, b),
    ensures
        a == b,
{
    if a < b {
        assert(a * a <= (b - 1) * (b - 1)) by (nonlinear_arith)
            requires
                0 <= a <= b - 1,
        ;
    }
    if b < a {
        assert(b * b <= (a - 1) * (a - 1)) by (nonlinear_arith)
            requires
                0 <= b <= a - 1,
        ;
    }
}

/// The state of a peer after its timeouts were looked at:
/// a live peer not seen for longer than `suspect_after` is suspected; a suspect seen within
/// `suspect_after` is alive again; a suspect under suspicion for longer than `dead_after` is
/// dead; a dead peer stays dead.
pub open spec fn timed_out(
    state: PeerState,
    now: Instant,
    suspect_after: Duration,
    dead_after: Duration,
) -> PeerState {
    match state.status {
        Status::Alive => if now.since(state.last_seen) > suspect_after.nanos {
            PeerState { status: Status::Suspect, suspect_since: Some(now), ..state }
        } else {
            state
        },
        Status::Suspect => {
            let started = match state.suspect_since {
                Some(t) => t,
                None => state.last_seen,
            };
            if now.since(state.last_seen) <= suspect_after.nanos {
                PeerState { status: Status::Alive, suspect_since: None, ..state }
            } else if now.since(started) > dead_after.nanos {
                PeerState { status: Status::Dead, ..state }
            } else {
                state
            }
        },
        Status::Dead => state,
    }
}

/// All peers after their timeouts were looked at.
pub open spec fn all_timed_out(
    peers: Map<u128, Peer>,
    now: Instant,
    suspect_after: Duration,
    dead_after: Duration,
) -> Map<u128, Peer> {
    peers.map_values(
        |p: Peer| Peer { state: timed_out(p.state, now, suspect_after, dead_after), ..p },
    )
}

/// Whether `changes` lists, by increasing node, each peer whose status differs between
/// `before` and `after`, and no other.
pub open spec fn lists_changes(
    changes: Seq<StatusChange>,
    before: Map<u128, Peer>,
    after: Map<u128, Peer>,
) -> bool {
    &&& forall|i: int, j: int|
        0 <= i < j < changes.len() ==> changes[i].node_id.id < changes[j].node_id.id
    &&& forall|i: int|
        0 <= i < changes.len() ==> {
            let id = (#[trigger] changes[i]).node_id.id;
            &&& before.contains_key(id)
            &&& after.contains_key(id)
            &&& changes[i].from == before[id].state.status
            &&& changes[i].to == after[id].state.status
            &&& changes[i].from != changes[i].to
            &&& changes[i].incarnation == before[id].state.incarnation
        }
    &&& forall|id: u128| #[trigger]
        before.contains_key(id) && before[id].state.status != after[id].state.status ==> exists|
            i: int,
        |
            0 <= i < changes.len() && (#[trigger] changes[i]).node_id.id == id
}

/// The state of a peer after its timeouts were looked at.
fn time_out(state: PeerState, now: Instant, suspect_after: Duration, dead_after: Duration) -> (after:
    PeerState)
    ensures
        after == timed_out(state, now, suspect_after, dead_after),
{
    match state.status {
        Status::Alive => {
            if now.saturating_duration_since(state.last_seen).nanos > suspect_after.nanos {
                PeerState { status: Status::Suspect, suspect_since: Some(now), ..state }
            } else {
                state
            }
        },
        Status::Suspect => {
            let started = match state.suspect_since {
                Some(t) => t,
                None => state.last_seen,
            };
            if now.saturating_duration_since(state.last_seen).nanos <= suspect_after.nanos {
                PeerState { status: Status::Alive, suspect_since: None, ..state }
            } else if now.saturating_duration_since(started).nanos > dead_after.nanos {
                PeerState { status: Status::Dead, ..state }
            } else {
                state
            }
        },
        Status::Dead => state,
    }
}

/// Looks at the timeouts of all peers and lists the changes of status, by increasing
/// node.
pub fn check_timeouts(
    peers: &mut BTreeMap<u128, Peer>,
    now: Instant,
    suspect_after: Duration,
    dead_after: Duration,
) -> (changes: Vec<StatusChange>)
    ensures
        keyed_by_node(old(peers)@) ==> keyed_by_node(final(peers)@),
        final(peers)@ == all_timed_out(old(peers)@, now, suspect_after, dead_after),
        lists_changes(changes@, old(peers)@, final(peers)@),
{
    let ghost before = peers@;
    let ghost goal = all_timed_out(before, now, suspect_after, dead_after);
    let keys = sorted_keys_u128(peers);
    let mut changes: Vec<StatusChange> = Vec::new();
    let mut i: usize = 0;
    while i < keys.len()
        invariant
            i <= keys@.len(),
            increasing_u128(keys@),
            goal == all_timed_out(before, now, suspect_after, dead_after),
            forall|k: u128| #[trigger] before.contains_key(k) <==> keys@.contains(k),
            forall|k: u128| #[trigger] peers@.contains_key(k) <==> before.contains_key(k),
            forall|j: int| 0 <= j < i ==> peers@[#[trigger] keys@[j]] == goal[keys@[j]],
            forall|j: int| i <= j < keys@.len() ==> peers@[#[trigger] keys@[j]] == before[keys@[j]],
            forall|a: int, b: int|
                0 <= a < b < changes@.len() ==> changes@[a].node_id.id < changes@[b].node_id.id,
            forall|a: int|
                0 <= a < changes@.len() ==> {
                    let id = (#[trigger] changes@[a]).node_id.id;
                    &&& before.contains_key(id)
                    &&& changes@[a].from == before[id].state.status
                    &&& changes@[a].to == goal[id].state.status
                    &&& changes@[a].from != changes@[a].to
                    &&& changes@[a].incarnation == before[id].state.incarnation
                },
            forall|a: int, j: int|
                0 <= a < changes@.len() && i <= j < keys@.len() ==> (#[trigger]
                changes@[a]).node_id.id < #[trigger] keys@[j],
            forall|j: int|
                0 <= j < i && before[#[trigger] keys@[j]].state.status
                    != goal[keys@[j]].state.status ==> exists|a: int|
                    0 <= a < changes@.len() && (#[trigger] changes@[a]).node_id.id == keys@[j],
        decreases keys@.len() - i,
    {
        let key: u128 = keys[i];
        let ghost listed = changes@;
        assert(keys@.contains(key));
        assert(before.contains_key(key));
        if let Some(found) = peers.get(&key) {
            let peer: Peer = *found;
            let state = time_out(peer.state, now, suspect_after, dead_after);
            if state.status != peer.state.status {
                changes.push(
                    StatusChange::new(
                        NodeId { id: key },
                        peer.state.status,
                        state.status,
                        peer.state.incarnation,
                    ),
                );
                assert(changes@[changes@.len() - 1].node_id.id == key);
            }
            peers.insert(key, Peer { state, ..peer });
        }
        proof {
            assert forall|j: int|
                0 <= j < i + 1 && before[#[trigger] keys@[j]].state.status
                    != goal[keys@[j]].state.status implies exists|a: int|
                0 <= a < changes@.len() && (#[trigger] changes@[a]).node_id.id == keys@[j] by {
                if j < i {
                    let a = choose|a: int|
                        0 <= a < listed.len() && (#[trigger] listed[a]).node_id.id == keys@[j];
                    assert(changes@[a].node_id.id == keys@[j]);
                }
            }
        }
        i = i + 1;
    }
    proof {
        assert forall|k: u128| #[trigger] before.contains_key(k) implies peers@[k] == goal[k] by {
            let j = choose|j: int| 0 <= j < keys@.len() && keys@[j] == k;
            assert(keys@.contains(k));
            assert(peers@[keys@[j]] == goal[keys@[j]]);
        }
        assert(peers@ =~= goal);
        assert forall|id: u128| #[trigger]
            before.contains_key(id) && before[id].state.status != goal[id].state.status implies exists|
            a: int,
        |
            0 <= a < changes@.len() && (#[trigger] changes@[a]).node_id.id == id by {
            let j = choose|j: int| 0 <= j < keys@.len() && keys@[j] == id;
            assert(keys@.contains(id));
            assert(before[keys@[j]].state.status != goal[keys@[j]].state.status);
        }
    }
    changes
}

/// A dead peer stays dead however much time goes by.
pub proof fn dead_is_terminal(state: PeerState, now: Instant, suspect_after: Duration, dead_after: Duration)
    requires
        state.status == Status::Dead,
    ensures
        timed_out(state, now, suspect_after, dead_after) == state,
{
}

/// A live peer is never declared dead at once: it is suspected first.
pub proof fn suspicion_comes_before_death(
    state: PeerState,
    now: Instant,
    suspect_after: Duration,
    dead_after: Duration,
)
    requires
        state.status == Status::Alive,
    ensures
        timed_out(state, now, suspect_after, dead_after).status != Status::Dead,
{
}

/// A peer seen within the suspicion time is alive afterwards, unless it was dead.
pub proof fn recent_contact_keeps_alive(
    state: PeerState,
    now: Instant,
    suspect_after: Duration,
    dead_after: Duration,
)
    requires
        state.status != Status::Dead,
        now.since(state.last_seen) <= suspect_after.nanos,
    ensures
        timed_out(state, now, suspect_after, dead_after).status == Status::Alive,
{
}

/// A node gossips with as many others as are configured, or else with at least three and at
/// least so many that their square reaches the number of nodes, but no more than that takes;
/// and never with more than there are.
pub proof fn fanout_reaches_the_cluster(total: nat, configured: Option<usize>, root: nat)
    requires
        is_ceil_sqrt(total, root),
    ensures
        ({
            let n = fanout(total, configured, root);
            let others: int = if total == 0 {
                0
            } else {
                total - 1
            };
            &&& n <= others
            &&& configured matches Some(wanted) ==> (n == wanted || (n == others && n < wanted))
            &&& configured is None && n < others ==> n >= 3 && n * n >= total
            &&& configured is None && n > 3 ==> (n - 1) * (n - 1) < total
        }),
{
    if configured is None && total > 1 && fanout(total, configured, root) < total - 1 {
        assert(fanout(total, configured, root) >= root);
        let n = fanout(total, configured, root);
        assert(n * n >= root * root) by (nonlinear_arith)
            requires
                n >= root,
        ;
    }
    if configured is None && total > 1 && fanout(total, configured, root) > 3 {
        let n = fanout(total, configured, root);
        assert((n - 1) * (n - 1) <= (root - 1) * (root - 1)) by (nonlinear_arith)
            requires
                3 < n <= root,
        ;
    }
}

/// Time alone makes a live peer suspect once more than the time allowed has gone by since it was
/// last seen, makes a suspect alive again once it was seen within that time, and otherwise makes
/// it dead once more than the time allowed has gone by since it came under suspicion. A dead peer
/// stays dead, and no peer goes from alive to dead at once. Nothing but the status and the start
/// of the suspicion changes.
pub proof fn silence_is_judged_by_time(
    state: PeerState,
    now: Instant,
    suspect_after: Duration,
    dead_after: Duration,
)
    ensures
        ({
            let after = timed_out(state, now, suspect_after, dead_after);
            let silent = now.nanos > state.last_seen.nanos + suspect_after.nanos;
            let started = if state.suspect_since is Some {
                state.suspect_since->0
            } else {
                state.last_seen
            };
            let condemned = now.nanos > started.nanos + dead_after.nanos;
            &&& state.status == Status::Alive && !silent ==> after == state
            &&& state.status == Status::Alive && silent ==> after.status == Status::Suspect
                && after.suspect_since == Some(now)
            &&& state.status == Status::Suspect && !silent ==> after.status == Status::Alive
                && after.suspect_since is None
            &&& state.status == Status::Suspect && silent && condemned ==> after.status
                == Status::Dead && after.suspect_since == state.suspect_since
            &&& state.status == Status::Suspect && silent && !condemned ==> after == state
            &&& state.status == Status::Dead ==> after == state
            &&& after.incarnation == state.incarnation
            &&& after.last_seen == state.last_seen
            &&& after.event_id == state.event_id
            &&& after.timestamp == state.timestamp
        }),
{
}

/// Each peer is judged by its own times, and none comes or goes.
pub proof fn each_peer_is_judged_alone(
    peers: Map<u128, Peer>,
    now: Instant,
    suspect_after: Duration,
    dead_after: Duration,
    id: u128,
)
    ensures
        ({
            let after = all_timed_out(peers, now, suspect_after, dead_after);
            &&& after.contains_key(id) <==> peers.contains_key(id)
            &&& peers.contains_key(id) ==> {
                &&& after[id].node_id == peers[id].node_id
                &&& after[id].addr == peers[id].addr
                &&& after[id].state == timed_out(peers[id].state, now, suspect_after, dead_after)
            }
        }),
{
}

/// The changes that are listed are those that happened: each peer whose status differs is listed
/// once, with its status before and after, and no other is.
pub proof fn changes_are_those_that_happened(
    changes: Seq<StatusChange>,
    before: Map<u128, Peer>,
    after: Map<u128, Peer>,
    i: int,
    id: u128,
)
    requires
        lists_changes(changes, before, after),
    ensures
        0 <= i < changes.len() ==> {
            let c = changes[i];
            &&& before.contains_key(c.node_id.id) && after.contains_key(c.node_id.id)
            &&& c.from == before[c.node_id.id].state.status
            &&& c.to == after[c.node_id.id].state.status
            &&& c.from != c.to
            &&& c.incarnation == before[c.node_id.id].state.incarnation
        },
        before.contains_key(id) && after.contains_key(id) && before[id].state.status
            != after[id].state.status ==> exists|j: int|
            0 <= j < changes.len() && (#[trigger] changes[j]).node_id.id == id,
{
}

/// So many nodes are gossiped with as the cluster takes: as are configured, or else at least three
/// and at least so many that their square reaches the number of nodes, as far as there are so many.
pub proof fn gossip_reaches_the_cluster(total_nodes: usize, configured: Option<usize>, n: usize)
    requires
        call_ensures(calculate_fanout, (total_nodes, configured), n),
        total_nodes > 0,
    ensures
        n <= total_nodes - 1,
        configured matches Some(wanted) ==> n == wanted || (n == total_nodes - 1 && n < wanted),
        configured is None && n < total_nodes - 1 ==> n >= 3 && n * n >= total_nodes,
        configured is None && n > 3 ==> (n - 1) * (n - 1) < total_nodes,
{
    ceil_sqrt_exists(total_nodes as nat);
    let root = choose|root: nat| is_ceil_sqrt(total_nodes as nat, root);
    fanout_reaches_the_cluster(total_nodes as nat, configured, root);
    assert(n == fanout(total_nodes as nat, configured, root));
}

} // verus!

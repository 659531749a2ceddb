//! How far transfers are.

use std::collections::BTreeMap;
use vstd::prelude::*;

use crate::node::NodeId;
use crate::transfer::session::TransferState;

verus! {

/// How far a transfer is.
#[derive(Debug, Clone, Copy, PartialEq, Eq, Structural)]
pub struct TransferProgress {
    pub bytes_transferred: u64,
    pub total_bytes: u64,
    pub chunks_completed: u32,
}

/// No progress yet.
pub open spec fn no_progress(total_bytes: u64) -> TransferProgress {
    TransferProgress { bytes_transferred: 0, total_bytes, chunks_completed: 0 }
}

/// A number further on, or the greatest that can be told.
pub open spec fn advanced(p: TransferProgress, bytes: u64, chunks: u32) -> TransferProgress {
    TransferProgress {
        bytes_transferred: if p.bytes_transferred + bytes <= u64::MAX {
            (p.bytes_transferred + bytes) as u64
        } else {
            u64::MAX
        },
        chunks_completed: if p.chunks_completed + chunks <= u32::MAX {
            (p.chunks_completed + chunks) as u32
        } else {
            u32::MAX
        },
        ..p
    }
}

impl TransferProgress {
    /// No progress yet.
    pub fn new(total_bytes: u64) -> (progress: Self)
        ensures
            progress == no_progress(total_bytes),
    {
        TransferProgress { bytes_transferred: 0, total_bytes, chunks_completed: 0 }
    }

    /// Notes more bytes and chunks.
    pub fn update(&mut self, bytes_delta: u64, chunks_delta: u32)
        ensures
            *final(self) == advanced(*old(self), bytes_delta, chunks_delta),
    {
        self.bytes_transferred = self.bytes_transferred.saturating_add(bytes_delta);
        self.chunks_completed = self.chunks_completed.saturating_add(chunks_delta);
    }

    /// Sets how many bytes there are in all.
    pub fn set_total_bytes(&mut self, total_bytes: u64)
        ensures
            *final(self) == (TransferProgress { total_bytes, ..*old(self) }),
    {
        self.total_bytes = total_bytes;
    }
}

/// The progress of one transfer or synchronisation, and whether it is to stop.
#[derive(Debug, Clone, Copy, PartialEq, Eq, Structural)]
pub struct TransferHandle {
    progress: TransferProgress,
    cancelled: bool,
}

impl TransferHandle {
    /// The progress.
    pub closed spec fn now(&self) -> TransferProgress {
        self.progress
    }

    /// Whether it is to stop.
    pub closed spec fn stopped(&self) -> bool {
        self.cancelled
    }

    /// A handle of a transfer that has not begun.
    pub fn new(total_bytes: u64) -> (handle: Self)
        ensures
            handle.now() == no_progress(total_bytes),
            !handle.stopped(),
    {
        TransferHandle { progress: TransferProgress::new(total_bytes), cancelled: false }
    }

    /// The progress.
    pub fn progress(&self) -> (progress: TransferProgress)
        ensures
            progress == self.now(),
    {
        self.progress
    }

    /// Notes more bytes and chunks.
    pub fn update_progress(&mut self, bytes_delta: u64, chunks_delta: u32)
        ensures
            final(self).now() == advanced(old(self).now(), bytes_delta, chunks_delta),
            final(self).stopped() == old(self).stopped(),
    {
        self.progress.update(bytes_delta, chunks_delta);
    }

    /// Sets how many bytes there are in all.
    pub fn set_total_bytes(&mut self, total_bytes: u64)
        ensures
            final(self).now() == (TransferProgress { total_bytes, ..old(self).now() }),
            final(self).stopped() == old(self).stopped(),
    {
        self.progress.set_total_bytes(total_bytes);
    }

    /// Asks it to stop.
    pub fn cancel(&mut self)
        ensures
            final(self).now() == old(self).now(),
            final(self).stopped(),
    {
        self.cancelled = true;
    }

    /// Whether it is to stop.
    pub fn is_cancelled(&self) -> (cancelled: bool)
        ensures
            cancelled == self.stopped(),
    {
        self.cancelled
    }
}

/// The progress of a synchronisation, and whether it is to stop.
pub type SyncHandle = TransferHandle;

/// How far the transfer to one of several nodes is.
#[derive(Debug)]
pub struct NodeTransferStatus {
    pub progress: TransferProgress,
    pub state: TransferState,
    pub error: Option<String>,
}

/// How far the transfer to one of several nodes is, seen as plain values.
pub struct StatusView {
    pub progress: TransferProgress,
    pub state: TransferState,
    pub error: Option<Seq<char>>,
}

impl View for NodeTransferStatus {
    type V = StatusView;

    open spec fn view(&self) -> StatusView {
        StatusView {
            progress: self.progress,
            state: self.state,
            error: match self.error {
                Some(text) => Some(text@),
                None => None,
            },
        }
    }
}

impl Clone for NodeTransferStatus {
    fn clone(&self) -> (copy: Self)
        ensures
            copy@ == self@,
    {
        NodeTransferStatus {
            progress: self.progress,
            state: self.state,
            error: match &self.error {
                Some(text) => Some(text.clone()),
                None => None,
            },
        }
    }
}

/// The progress of the transfers to several nodes, and whether they are to stop.
#[derive(Debug)]
pub struct BroadcastHandle {
    nodes: BTreeMap<u128, NodeTransferStatus>,
    cancelled: bool,
}

/// The transfers to the first `n` of several nodes, none of which has begun.
pub open spec fn not_begun(targets: Seq<NodeId>, total_bytes: u64) -> Map<u128, StatusView> {
    Map::new(
        |n: u128| exists|i: int| 0 <= i < targets.len() && (#[trigger] targets[i]).id == n,
        |n: u128|
            StatusView {
                progress: no_progress(total_bytes),
                state: TransferState::Initializing,
                error: None,
            },
    )
}

impl BroadcastHandle {
    /// The progress of each transfer.
    pub closed spec fn now(&self) -> Map<u128, StatusView> {
        self.nodes@.map_values(|s: NodeTransferStatus| s@)
    }

    /// Whether they are to stop.
    pub closed spec fn stopped(&self) -> bool {
        self.cancelled
    }

    /// A handle of transfers that have not begun.
    pub fn new(targets: &[NodeId], total_bytes: u64) -> (handle: Self)
        ensures
            handle.now() == not_begun(targets@, total_bytes),
            !handle.stopped(),
    {
        let count: usize = targets.len();
        let mut nodes: BTreeMap<u128, NodeTransferStatus> = BTreeMap::new();
        let ghost show = |s: NodeTransferStatus| s@;
        let mut i: usize = 0;
        assert(nodes@.map_values(show) =~= not_begun(targets@.take(0), total_bytes));
        while i < count
            invariant
                i <= count,
                count == targets@.len(),
                show == (|s: NodeTransferStatus| s@),
                nodes@.map_values(show) == not_begun(targets@.take(i as int), total_bytes),
            decreases count - i,
        {
            let ghost before = nodes@;
            let ghost longer = targets@.take(i + 1);
            nodes.insert(
                targets[i].id,
                NodeTransferStatus {
                    progress: TransferProgress::new(total_bytes),
                    state: TransferState::Initializing,
                    error: None,
                },
            );
            proof {
                let id = targets@[i as int].id;
                let shorter = targets@.take(i as int);
                assert forall|n: u128| #[trigger]
                    not_begun(longer, total_bytes).contains_key(n) <==> not_begun(
                        shorter,
                        total_bytes,
                    ).contains_key(n) || n == id by {
                    if not_begun(longer, total_bytes).contains_key(n) {
                        let k = choose|k: int| 0 <= k < longer.len() && (#[trigger] longer[k]).id == n;
                        if k < i {
                            assert(shorter[k].id == n);
                        }
                    }
                    if not_begun(shorter, total_bytes).contains_key(n) {
                        let k = choose|k: int|
                            0 <= k < shorter.len() && (#[trigger] shorter[k]).id == n;
                        assert(longer[k].id == n);
                    }
                    assert(longer[i as int].id == id);
                }
                let fresh = StatusView {
                    progress: no_progress(total_bytes),
                    state: TransferState::Initializing,
                    error: None,
                };
                assert(nodes@.map_values(show) =~= before.map_values(show).insert(id, fresh));
                assert(not_begun(longer, total_bytes) =~= not_begun(shorter, total_bytes).insert(
                    id,
                    fresh,
                ));
            }
            i = i + 1;
        }
        assert(targets@.take(count as int) =~= targets@);
        BroadcastHandle { nodes, cancelled: false }
    }

    /// The progress of the transfer to one node.
    pub fn progress_of(&self, node_id: NodeId) -> (status: Option<NodeTransferStatus>)
        ensures
            match status {
                Some(s) => self.now().contains_key(node_id.id) && self.now()[node_id.id] == s@,
                None => !self.now().contains_key(node_id.id),
            },
    {
        match self.nodes.get(&node_id.id) {
            Some(status) => Some(status.clone()),
            None => None,
        }
    }

    /// Notes more bytes and chunks for one node.
    pub fn update_node_progress(&mut self, node_id: NodeId, bytes_delta: u64, chunks_delta: u32)
        ensures
            final(self).stopped() == old(self).stopped(),
            final(self).now() == (if old(self).now().contains_key(node_id.id) {
                old(self).now().insert(
                    node_id.id,
                    StatusView {
                        progress: advanced(
                            old(self).now()[node_id.id].progress,
                            bytes_delta,
                            chunks_delta,
                        ),
                        ..old(self).now()[node_id.id]
                    },
                )
            } else {
                old(self).now()
            }),
    {
        let ghost before = self.now();
        let held = match self.nodes.get(&node_id.id) {
            Some(status) => Some(status.clone()),
            None => None,
        };
        if let Some(status) = held {
            let mut status = status;
            status.progress.update(bytes_delta, chunks_delta);
            self.nodes.insert(node_id.id, status);
            assert(self.now() =~= before.insert(node_id.id, status@));
        }
    }

    /// Sets the state of the transfer to one node.
    pub fn set_node_state(&mut self, node_id: NodeId, state: TransferState, error: Option<String>)
        ensures
            final(self).stopped() == old(self).stopped(),
            final(self).now() == (if old(self).now().contains_key(node_id.id) {
                old(self).now().insert(
                    node_id.id,
                    StatusView {
                        progress: old(self).now()[node_id.id].progress,
                        state,
                        error: match error {
                            Some(text) => Some(text@),
                            None => None,
                        },
                    },
                )
            } else {
                old(self).now()
            }),
    {
        let ghost before = self.now();
        let held = match self.nodes.get(&node_id.id) {
            Some(status) => Some(status.progress),
            None => None,
        };
        if let Some(progress) = held {
            let status = NodeTransferStatus { progress, state, error };
            self.nodes.insert(node_id.id, status);
            assert(self.now() =~= before.insert(node_id.id, status@));
        }
    }

    /// Asks the transfers to stop.
    pub fn cancel(&mut self)
        ensures
            final(self).now() == old(self).now(),
            final(self).stopped(),
    {
        self.cancelled = true;
    }

    /// Whether they are to stop.
    pub fn is_cancelled(&self) -> (cancelled: bool)
        ensures
            cancelled == self.stopped(),
    {
        self.cancelled
    }
}

/// Progress never goes back.
pub proof fn progress_only_grows(p: TransferProgress, bytes: u64, chunks: u32)
    ensures
        advanced(p, bytes, chunks).bytes_transferred >= p.bytes_transferred,
        advanced(p, bytes, chunks).chunks_completed >= p.chunks_completed,
        advanced(p, bytes, chunks).total_bytes == p.total_bytes,
{
}

/// Progress goes on by just what was transferred, as far as that can be counted.
pub proof fn progress_counts_what_was_transferred(p: TransferProgress, bytes: u64, chunks: u32)
    ensures
        ({
            let after = advanced(p, bytes, chunks);
            &&& p.bytes_transferred + bytes <= u64::MAX ==> after.bytes_transferred
                == p.bytes_transferred + bytes
            &&& p.bytes_transferred + bytes > u64::MAX ==> after.bytes_transferred == u64::MAX
            &&& p.chunks_completed + chunks <= u32::MAX ==> after.chunks_completed
                == p.chunks_completed + chunks
            &&& p.chunks_completed + chunks > u32::MAX ==> after.chunks_completed == u32::MAX
            &&& after.total_bytes == p.total_bytes
            &&& no_progress(p.total_bytes).bytes_transferred == 0
            &&& no_progress(p.total_bytes).chunks_completed == 0
            &&& no_progress(p.total_bytes).total_bytes == p.total_bytes
        }),
{
}

/// What is told of a node's transfer changes that transfer alone, and progress and state are told
/// of apart.
pub proof fn nodes_are_told_of_apart(
    moving: &mut BroadcastHandle,
    settling: &mut BroadcastHandle,
    node: NodeId,
    bytes: u64,
    chunks: u32,
    state: TransferState,
    error: Option<String>,
    other: u128,
)
    requires
        old(settling).now() == old(moving).now(),
        call_ensures(BroadcastHandle::update_node_progress, (moving, node, bytes, chunks), ()),
        call_ensures(BroadcastHandle::set_node_state, (settling, node, state, error), ()),
    ensures
        ({
            let before = old(moving).now();
            let moved = final(moving).now();
            let settled = final(settling).now();
            &&& moved.contains_key(other) <==> before.contains_key(other)
            &&& settled.contains_key(other) <==> before.contains_key(other)
            &&& other != node.id && before.contains_key(other) ==> moved[other] == before[other]
                && settled[other] == before[other]
            &&& before.contains_key(node.id) ==> {
                &&& moved[node.id].state == before[node.id].state
                &&& moved[node.id].error == before[node.id].error
                &&& before[node.id].progress.bytes_transferred + bytes <= u64::MAX
                    ==> moved[node.id].progress.bytes_transferred
                    == before[node.id].progress.bytes_transferred + bytes
                &&& before[node.id].progress.chunks_completed + chunks <= u32::MAX
                    ==> moved[node.id].progress.chunks_completed
                    == before[node.id].progress.chunks_completed + chunks
                &&& settled[node.id].state == state
                &&& settled[node.id].progress == before[node.id].progress
                &&& settled[node.id].error is Some <==> error is Some
                &&& error matches Some(text) ==> settled[node.id].error == Some(text@)
            }
        }),
{
}

/// Only the targets have a transfer.
pub proof fn only_targets_have_a_transfer(targets: Seq<NodeId>, total_bytes: u64, id: u128)
    ensures
        not_begun(targets, total_bytes).contains_key(id) <==> exists|i: int|
            0 <= i < targets.len() && (#[trigger] targets[i]).id == id,
        not_begun(targets, total_bytes).contains_key(id) ==> {
            &&& not_begun(targets, total_bytes)[id].state is Initializing
            &&& not_begun(targets, total_bytes)[id].progress.bytes_transferred == 0
            &&& not_begun(targets, total_bytes)[id].progress.total_bytes == total_bytes
            &&& not_begun(targets, total_bytes)[id].error is None
        },
{
}

/// A handle tells of progress as it is made, and of a cancellation from when it was asked for.
pub proof fn handle_tells_of_progress(
    moving: &mut TransferHandle,
    bytes: u64,
    chunks: u32,
    resized: &mut TransferHandle,
    total: u64,
    stopping: &mut TransferHandle,
    asked: &TransferHandle,
    shown: TransferProgress,
    cancelled: bool,
    nodes: &BroadcastHandle,
    node: NodeId,
    status: Option<NodeTransferStatus>,
    stopped: bool,
)
    requires
        call_ensures(TransferHandle::update_progress, (moving, bytes, chunks), ()),
        call_ensures(TransferHandle::set_total_bytes, (resized, total), ()),
        call_ensures(TransferHandle::cancel, (stopping,), ()),
        call_ensures(TransferHandle::progress, (asked,), shown),
        call_ensures(TransferHandle::is_cancelled, (asked,), cancelled),
        call_ensures(BroadcastHandle::progress_of, (nodes, node), status),
        call_ensures(BroadcastHandle::is_cancelled, (nodes,), stopped),
    ensures
        old(moving).now().bytes_transferred + bytes <= u64::MAX
            ==> final(moving).now().bytes_transferred == old(moving).now().bytes_transferred
            + bytes,
        old(moving).now().chunks_completed + chunks <= u32::MAX
            ==> final(moving).now().chunks_completed == old(moving).now().chunks_completed
            + chunks,
        final(moving).stopped() == old(moving).stopped(),
        final(resized).now().total_bytes == total,
        final(resized).now().bytes_transferred == old(resized).now().bytes_transferred,
        final(stopping).stopped(),
        final(stopping).now() == old(stopping).now(),
        shown == asked.now(),
        cancelled == asked.stopped(),
        status is Some <==> nodes.now().contains_key(node.id),
        status matches Some(s) ==> s@ == nodes.now()[node.id],
        stopped == nodes.stopped(),
{
}

} // verus!

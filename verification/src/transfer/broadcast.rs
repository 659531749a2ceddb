//! Sending a file to several nodes: what came of each transfer, and what of all of them.

use vstd::prelude::*;

use crate::node::NodeId;
use crate::transfer::error::{error_text, internal, ErrorView, FileTransferError};
use crate::transfer::options::TransferMode;
use crate::transfer::progress::{not_begun, BroadcastHandle, StatusView};
use crate::transfer::session::{SessionView, TransferSession, TransferState};

verus! {

/// What came of sending a file to several nodes.
pub struct BroadcastResult {
    pub handle: BroadcastHandle,
    pub sessions: Vec<TransferSession>,
    pub errors: Vec<(NodeId, FileTransferError)>,
}

/// What came of sending a file to several nodes, seen as plain values.
#[verifier::ext_equal]
pub struct BroadcastView {
    pub nodes: Map<u128, StatusView>,
    pub sessions: Seq<SessionView>,
    pub errors: Seq<(NodeId, ErrorView)>,
}

impl View for BroadcastResult {
    type V = BroadcastView;

    open spec fn view(&self) -> BroadcastView {
        BroadcastView {
            nodes: self.handle.now(),
            sessions: self.sessions@.map_values(|s: TransferSession| s@),
            errors: self.errors@.map_values(|e: (NodeId, FileTransferError)| (e.0, e.1@)),
        }
    }
}

/// How the transfer to one of the nodes ended.
pub enum Ending {
    /// The file is there.
    Sent(NodeId, TransferSession),
    /// The file is not there.
    Failed(NodeId, FileTransferError),
    /// The transfer was not let begin.
    NoSlot(NodeId),
    /// The transfer came to no end that it could tell of.
    Lost(String),
}

/// How the transfer to one of the nodes ended, seen as plain values.
pub enum EndingView {
    Sent(NodeId, SessionView),
    Failed(NodeId, ErrorView),
    NoSlot(NodeId),
    Lost(Seq<char>),
}

impl View for Ending {
    type V = EndingView;

    open spec fn view(&self) -> EndingView {
        match *self {
            Ending::Sent(target, session) => EndingView::Sent(target, session@),
            Ending::Failed(target, error) => EndingView::Failed(target, error@),
            Ending::NoSlot(target) => EndingView::NoSlot(target),
            Ending::Lost(text) => EndingView::Lost(text@),
        }
    }
}

/// The transfers to the nodes with the one to `target` over.
pub open spec fn with_state(
    nodes: Map<u128, StatusView>,
    target: NodeId,
    state: TransferState,
    error: Option<Seq<char>>,
) -> Map<u128, StatusView> {
    if nodes.contains_key(target.id) {
        nodes.insert(
            target.id,
            StatusView { progress: nodes[target.id].progress, state, error },
        )
    } else {
        nodes
    }
}

/// What came of the transfers, with one more that ended. An end that was lost is put down to
/// the sender.
pub open spec fn with_ending(v: BroadcastView, source_node: NodeId, ending: EndingView) -> BroadcastView {
    match ending {
        EndingView::Sent(target, session) => BroadcastView {
            nodes: with_state(v.nodes, target, TransferState::Completed, None),
            sessions: v.sessions.push(session),
            ..v
        },
        EndingView::Failed(target, error) => BroadcastView {
            nodes: with_state(v.nodes, target, TransferState::Failed, Some(error_text(error))),
            errors: v.errors.push((target, error)),
            ..v
        },
        EndingView::NoSlot(target) => BroadcastView {
            errors: v.errors.push(
                (target, ErrorView::Internal("transfer slots are closed"@)),
            ),
            ..v
        },
        EndingView::Lost(text) => BroadcastView {
            errors: v.errors.push(
                (source_node, ErrorView::Internal("broadcast task failed: "@ + text)),
            ),
            ..v
        },
    }
}

/// What came of the transfers, one after the other.
pub open spec fn with_endings(v: BroadcastView, source_node: NodeId, endings: Seq<EndingView>) -> BroadcastView
    decreases endings.len(),
{
    if endings.len() == 0 {
        v
    } else {
        with_ending(
            with_endings(v, source_node, endings.drop_last()),
            source_node,
            endings.last(),
        )
    }
}

/// Nothing has come of the transfers yet.
pub open spec fn nothing_yet(targets: Seq<NodeId>, file_size: u64) -> BroadcastView {
    BroadcastView {
        nodes: not_begun(targets, file_size),
        sessions: Seq::empty(),
        errors: Seq::empty(),
    }
}

impl BroadcastResult {
    /// Nothing has come of the transfers yet.
    pub fn new(targets: &[NodeId], file_size: u64) -> (result: Self)
        ensures
            result@ == nothing_yet(targets@, file_size),
            !result.handle.stopped(),
    {
        let result = BroadcastResult {
            handle: BroadcastHandle::new(targets, file_size),
            sessions: Vec::new(),
            errors: Vec::new(),
        };
        assert(result@ =~= nothing_yet(targets@, file_size));
        result
    }

    /// Takes how the transfer to one of the nodes ended.
    pub fn take_ending(&mut self, source_node: NodeId, ending: Ending)
        ensures
            final(self)@ == with_ending(old(self)@, source_node, ending@),
            final(self).handle.stopped() == old(self).handle.stopped(),
    {
        let ghost before = self@;
        match ending {
            Ending::Sent(target, session) => {
                self.handle.set_node_state(target, TransferState::Completed, None);
                self.sessions.push(session);
                assert(self@.sessions =~= before.sessions.push(session@));
            },
            Ending::Failed(target, error) => {
                self.handle.set_node_state(target, TransferState::Failed, Some(error.message()));
                self.errors.push((target, error));
                assert(self@.errors =~= before.errors.push((target, error@)));
            },
            Ending::NoSlot(target) => {
                let error = internal("transfer slots are closed");
                self.errors.push((target, error));
                assert(self@.errors =~= before.errors.push((target, error@)));
            },
            Ending::Lost(text) => {
                let mut message = String::from_str("broadcast task failed: ");
                message.append(text.as_str());
                let error = FileTransferError::Internal(message);
                self.errors.push((source_node, error));
                assert(self@.errors =~= before.errors.push((source_node, error@)));
            },
        }
        assert(self@ =~= with_ending(before, source_node, ending@));
    }

    /// Whether the file is to be removed here, now that all transfers have ended.
    pub fn removes_source(&self, mode: TransferMode) -> (removes: bool)
        ensures
            removes == (self@.errors.len() == 0 && mode is Move),
    {
        let moves = match mode {
            TransferMode::Move => true,
            _ => false,
        };
        self.errors.len() == 0 && moves
    }
}

/// No end of a transfer is lost: each is a transfer that succeeded or an error.
pub proof fn every_ending_counts(
    targets: Seq<NodeId>,
    file_size: u64,
    source_node: NodeId,
    endings: Seq<EndingView>,
)
    ensures
        ({
            let v = with_endings(nothing_yet(targets, file_size), source_node, endings);
            v.sessions.len() + v.errors.len() == endings.len()
        }),
    decreases endings.len(),
{
    if endings.len() > 0 {
        every_ending_counts(targets, file_size, source_node, endings.drop_last());
    }
}

/// A file that is moved to several nodes is removed here only where every one of them has it.
pub proof fn file_is_removed_only_where_all_have_it(
    targets: Seq<NodeId>,
    file_size: u64,
    source_node: NodeId,
    endings: Seq<EndingView>,
)
    ensures
        with_endings(nothing_yet(targets, file_size), source_node, endings).errors.len() == 0 <==> (
        forall|i: int| 0 <= i < endings.len() ==> #[trigger] endings[i] is Sent),
    decreases endings.len(),
{
    if endings.len() > 0 {
        let rest = endings.drop_last();
        file_is_removed_only_where_all_have_it(targets, file_size, source_node, rest);
        let before = with_endings(nothing_yet(targets, file_size), source_node, rest);
        let after = with_endings(nothing_yet(targets, file_size), source_node, endings);
        if after.errors.len() == 0 {
            assert(endings.last() is Sent);
            assert(before.errors.len() == 0);
            assert forall|i: int| 0 <= i < endings.len() implies #[trigger] endings[i] is Sent by {
                if i < rest.len() {
                    assert(rest[i] is Sent);
                }
            }
        }
        if forall|i: int| 0 <= i < endings.len() ==> #[trigger] endings[i] is Sent {
            assert forall|i: int| 0 <= i < rest.len() implies #[trigger] rest[i] is Sent by {
                assert(endings[i] is Sent);
            }
            assert(endings[endings.len() - 1] is Sent);
        }
    }
}

/// The transfer to a node counts as completed once it was sent there, and as failed, with the
/// reason, once it failed; the transfers to other nodes stay as they are, and no node is added.
pub proof fn ending_concerns_its_node(
    v: BroadcastView,
    source_node: NodeId,
    ending: EndingView,
    id: u128,
)
    ensures
        ({
            let after = with_ending(v, source_node, ending);
            &&& after.nodes.contains_key(id) <==> v.nodes.contains_key(id)
            &&& v.nodes.contains_key(id) ==> after.nodes[id].progress == v.nodes[id].progress
            &&& ending matches EndingView::Sent(target, session) ==> {
                &&& after.sessions == v.sessions.push(session)
                &&& after.errors == v.errors
                &&& v.nodes.contains_key(id) && id == target.id ==> after.nodes[id].state is Completed
                    && after.nodes[id].error is None
                &&& v.nodes.contains_key(id) && id != target.id ==> after.nodes[id] == v.nodes[id]
            }
            &&& ending matches EndingView::Failed(target, error) ==> {
                &&& after.sessions == v.sessions
                &&& after.errors == v.errors.push((target, error))
                &&& v.nodes.contains_key(id) && id == target.id ==> after.nodes[id].state is Failed
                    && after.nodes[id].error == Some(error_text(error))
                &&& v.nodes.contains_key(id) && id != target.id ==> after.nodes[id] == v.nodes[id]
            }
            &&& ending matches EndingView::NoSlot(target) ==> {
                &&& after.sessions == v.sessions
                &&& after.errors.len() == v.errors.len() + 1
                &&& after.errors.last().0 == target
                &&& after.nodes == v.nodes
            }
            &&& ending matches EndingView::Lost(text) ==> {
                &&& after.sessions == v.sessions
                &&& after.errors.len() == v.errors.len() + 1
                &&& after.errors.last().0 == source_node
                &&& after.nodes == v.nodes
            }
        }),
{
}

/// At first the transfer to each target has not begun, with the whole file before it.
pub proof fn each_target_waits(targets: Seq<NodeId>, file_size: u64, i: int)
    requires
        0 <= i < targets.len(),
    ensures
        ({
            let v = nothing_yet(targets, file_size);
            &&& v.nodes.contains_key(targets[i].id)
            &&& v.nodes[targets[i].id].state is Initializing
            &&& v.nodes[targets[i].id].error is None
            &&& v.nodes[targets[i].id].progress.total_bytes == file_size
            &&& v.nodes[targets[i].id].progress.bytes_transferred == 0
            &&& v.sessions.len() == 0
            &&& v.errors.len() == 0
        }),
{
}

/// The source of a broadcast is removed exactly where it was to be moved and nothing failed.
pub proof fn source_goes_only_where_all_went_well(
    result: &BroadcastResult,
    mode: TransferMode,
    removes: bool,
)
    requires
        call_ensures(BroadcastResult::removes_source, (result, mode), removes),
    ensures
        removes <==> result@.errors.len() == 0 && mode is Move,
{
}

} // verus!

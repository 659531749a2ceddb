//! The file transfer service of a node: what it answers, and what it is told to do with its
//! transfers.
//!
//! The caller sends and receives the messages, keeps transfers between runs and moves the
//! content of files.

use vstd::prelude::*;

use crate::clock::WallTime;
use crate::node::NodeId;
use crate::ordered::{ascending_u128, ascending_u32};
use crate::transfer::config::FileTransferConfig;
use crate::transfer::error::{
    error_code, error_is_recoverable, error_text, internal, outcome, ErrorView,
    FileTransferError, TransferSessionId,
};
use crate::transfer::listing::{
    entry_is_wanted, finish_listing, is_listing_of, retain_wanted, shown_files,
};
use crate::transfer::manifest::FileMetadata;
use crate::transfer::messages::{
    text_of, FileInfo, FileInfoView, FileTransferMessage, TransferErrorMessage,
};
use crate::transfer::options::ListOptions;
use crate::transfer::progress::{advanced, no_progress, TransferHandle};
use crate::transfer::receive::{
    manifest_refused, refuse, refuse_manifest, refused, session_at, ReceiveHandler, ReceiveView,
};
use crate::transfer::session::{
    cancelled_with, copy_nodes, may_follow, moved_to, shown, state_name, SessionView,
    TransferControlState, TransferKind, TransferSession, TransferSessionInfo, TransferState,
};
use crate::transfer::sync::{arrived_chunks, completed_size, listed_size};

verus! {

/// The file transfer service of a node.
pub struct FileTransferServiceImpl {
    pub source_node: NodeId,
    /// The transfers, of both directions.
    pub receive_handler: ReceiveHandler,
}

/// Why other nodes are told that a transfer is cancelled.
pub const CANCELLED_BY_USER: &'static str = "cancelled by user";

/// Tells the nodes apart from one.
pub open spec fn is_other(node: NodeId) -> spec_fn(NodeId) -> bool {
    |n: NodeId| n != node
}

/// The nodes of a list but for one.
pub open spec fn all_but(nodes: Seq<NodeId>, node: NodeId) -> Seq<NodeId> {
    nodes.filter(is_other(node))
}

fn without_node(nodes: &Vec<NodeId>, node: NodeId) -> (rest: Vec<NodeId>)
    ensures
        rest@ == all_but(nodes@, node),
{
    let ghost other = is_other(node);
    let mut rest: Vec<NodeId> = Vec::new();
    let mut i: usize = 0;
    proof {
        reveal(Seq::filter);
        assert(nodes@.take(0).filter(other) =~= Seq::<NodeId>::empty());
    }
    while i < nodes.len()
        invariant
            i <= nodes@.len(),
            other == is_other(node),
            rest@ == nodes@.take(i as int).filter(other),
        decreases nodes@.len() - i,
    {
        proof {
            reveal(Seq::filter);
            assert(nodes@.take(i + 1).drop_last() =~= nodes@.take(i as int));
            assert(nodes@.take(i + 1).last() == nodes@[i as int]);
        }
        if nodes[i].id != node.id {
            rest.push(nodes[i]);
        }
        i = i + 1;
    }
    assert(nodes@.take(nodes@.len() as int) =~= nodes@);
    rest
}

/// The one node that a file is synchronised with.
pub open spec fn chosen_target(nodes: Seq<NodeId>, source_node: NodeId) -> Result<NodeId, ErrorView> {
    let rest = all_but(nodes, source_node);
    if rest.len() == 1 {
        Ok(rest[0])
    } else if rest.len() == 0 {
        Err(ErrorView::Internal("no target nodes available for sync"@))
    } else {
        Err(ErrorView::Internal("sync requires exactly one target node"@))
    }
}

/// The nodes that are told that a transfer is cancelled: the targets, or the sender where there
/// are none.
pub open spec fn parties(s: SessionView) -> Seq<NodeId> {
    if s.target_nodes.len() == 0 {
        seq![s.source_node]
    } else {
        s.target_nodes
    }
}

/// A transfer that was cancelled here. One that is over in another way cannot be.
pub open spec fn stopped(s: SessionView, now: WallTime) -> Result<SessionView, ErrorView> {
    if s.state is Cancelled {
        Ok(SessionView { control: TransferControlState::Cancelled, ..s })
    } else if may_follow(s.state, TransferState::Cancelled) {
        Ok(
            SessionView {
                control: TransferControlState::Cancelled,
                ..moved_to(s, TransferState::Cancelled, now)
            },
        )
    } else {
        Err(ErrorView::InvalidState(state_name(s.state), state_name(TransferState::Cancelled)))
    }
}

/// A transfer that was paused.
pub open spec fn paused(s: SessionView, now: WallTime) -> Result<SessionView, ErrorView> {
    if s.state is Paused {
        Ok(s)
    } else if may_follow(s.state, TransferState::Paused) {
        Ok(
            SessionView {
                control: TransferControlState::Paused,
                ..moved_to(s, TransferState::Paused, now)
            },
        )
    } else {
        Err(ErrorView::InvalidState(state_name(s.state), state_name(TransferState::Paused)))
    }
}

/// A transfer that was resumed. One that was not paused stays as it is.
pub open spec fn resumed(s: SessionView, now: WallTime) -> SessionView {
    if s.state is Paused {
        SessionView {
            control: TransferControlState::Running,
            ..moved_to(s, TransferState::InProgress, now)
        }
    } else {
        s
    }
}

/// A transfer that another node has cancelled, whatever its state.
pub open spec fn called_off(s: SessionView, reason: Seq<char>, now: WallTime) -> SessionView {
    SessionView { control: TransferControlState::Cancelled, ..cancelled_with(s, reason, now) }
}

/// Whether a transfer is listed among those that are under way.
pub open spec fn is_listed(state: TransferState) -> bool {
    state is Initializing || state is InProgress || state is Paused
}

/// The transfers that are under way, by their identifiers.
pub open spec fn listed_transfers(v: ReceiveView) -> Seq<u128> {
    ascending_u128(v.sessions.dom()).filter(|id: u128| is_listed(v.sessions[id].state))
}

/// The transfers with one of them changed.
pub open spec fn with_session(v: ReceiveView, id: TransferSessionId, s: SessionView) -> ReceiveView {
    ReceiveView { sessions: v.sessions.insert(id.id, s), ..v }
}

/// What cancelling a transfer came to.
#[derive(Debug, Clone, Copy, PartialEq, Eq, Structural)]
pub struct Stopped {
    pub kind: TransferKind,
    /// Whether it was active until now.
    pub was_active: bool,
    /// Whether it is to be written down.
    pub keep: bool,
}

/// What resuming a transfer came to.
#[derive(Debug, Clone, Copy, PartialEq, Eq, Structural)]
pub struct Resumed {
    pub handle: TransferHandle,
    /// Whether it is to be written down.
    pub keep: bool,
}

impl FileTransferServiceImpl {
    /// Every hash works.
    pub open spec fn wf(&self) -> bool {
        self.receive_handler.wf()
    }

    /// A service without transfers.
    pub fn new(source_node: NodeId, config: &FileTransferConfig) -> (r: Result<
        Self,
        FileTransferError,
    >)
        ensures
            match r {
                Ok(service) => {
                    &&& config.max_concurrent_transfers > 0
                    &&& service.wf()
                    &&& service.source_node == source_node
                    &&& service.receive_handler@ == (ReceiveView {
                        sessions: Map::empty(),
                        sync_sessions: Set::empty(),
                        hashes: Map::empty(),
                    })
                },
                Err(error) => {
                    &&& config.max_concurrent_transfers == 0
                    &&& error@ == ErrorView::Internal(
                        "max_concurrent_transfers must be greater than zero"@,
                    )
                },
            },
    {
        if config.max_concurrent_transfers == 0 {
            return Err(internal("max_concurrent_transfers must be greater than zero"));
        }
        Ok(FileTransferServiceImpl { source_node, receive_handler: ReceiveHandler::new() })
    }

    /// Notes a transfer.
    pub fn record_session(&mut self, session: TransferSession)
        requires
            old(self).wf(),
        ensures
            final(self).wf(),
            final(self).source_node == old(self).source_node,
            final(self).receive_handler@ == with_session(
                old(self).receive_handler@,
                session@.id,
                session@,
            ),
    {
        self.receive_handler.put_session(session.id, session);
    }

    /// The one node that a file is synchronised with: that of the given ones, or of the
    /// connected ones where none are given, which is not this one.
    pub fn select_target(&self, targets: Option<Vec<NodeId>>, peers: &Vec<NodeId>) -> (r: Result<
        NodeId,
        FileTransferError,
    >)
        ensures
            outcome(r) == chosen_target(
                match targets {
                    Some(list) => list@,
                    None => peers@,
                },
                self.source_node,
            ),
    {
        let candidates = match &targets {
            Some(list) => without_node(list, self.source_node),
            None => without_node(peers, self.source_node),
        };
        let n: usize = candidates.len();
        if n == 1 {
            Ok(candidates[0])
        } else if n == 0 {
            Err(internal("no target nodes available for sync"))
        } else {
            Err(internal("sync requires exactly one target node"))
        }
    }

    /// The nodes that a file is sent to which goes to all: the connected ones but this one.
    pub fn broadcast_targets(&self, peers: &Vec<NodeId>) -> (r: Result<
        Vec<NodeId>,
        FileTransferError,
    >)
        ensures
            match r {
                Ok(targets) => {
                    &&& targets@ == all_but(peers@, self.source_node)
                    &&& targets@.len() > 0
                },
                Err(error) => {
                    &&& all_but(peers@, self.source_node).len() == 0
                    &&& error@ == ErrorView::Internal(
                        "no connected peers available for broadcast"@,
                    )
                },
            },
    {
        let targets = without_node(peers, self.source_node);
        if targets.len() == 0 {
            Err(internal("no connected peers available for broadcast"))
        } else {
            Ok(targets)
        }
    }

    /// Cancels a transfer, once the other nodes were told. None where it is not known.
    pub fn cancel_transfer(&mut self, session_id: TransferSessionId, now: WallTime) -> (r: Result<
        Option<Stopped>,
        FileTransferError,
    >)
        requires
            old(self).wf(),
        ensures
            final(self).wf(),
            final(self).source_node == old(self).source_node,
            match session_at(old(self).receive_handler@, session_id) {
                None => {
                    &&& r == Ok::<Option<Stopped>, FileTransferError>(None)
                    &&& final(self).receive_handler@ == old(self).receive_handler@
                },
                Some(s) => match stopped(s, now) {
                    Ok(after) => {
                        &&& r == Ok::<Option<Stopped>, FileTransferError>(
                            Some(
                                Stopped {
                                    kind: s.kind,
                                    was_active: s.state.active(),
                                    keep: s.options.resumable,
                                },
                            ),
                        )
                        &&& final(self).receive_handler@ == with_session(
                            old(self).receive_handler@,
                            session_id,
                            after,
                        )
                    },
                    Err(error) => {
                        &&& outcome(r) == Err::<Option<Stopped>, ErrorView>(error)
                        &&& final(self).receive_handler@ == old(self).receive_handler@
                    },
                },
            },
    {
        let ghost before = self.receive_handler@;
        let session = match self.receive_handler.take_session(session_id) {
            None => {
                return Ok(None);
            },
            Some(session) => session,
        };
        let mut session = session;
        let was_active = session.state.is_active();
        let cancelled = match session.state {
            TransferState::Cancelled => true,
            _ => false,
        };
        if !cancelled {
            if let Err(error) = session.transition_to(TransferState::Cancelled, now) {
                self.receive_handler.put_session(session_id, session);
                assert(self.receive_handler@.sessions =~= before.sessions);
                return Err(error);
            }
        }
        session.control = TransferControlState::Cancelled;
        let stopped = Stopped {
            kind: session.kind,
            was_active,
            keep: session.options.resumable,
        };
        self.receive_handler.put_session(session_id, session);
        assert(self.receive_handler@.sessions =~= before.sessions.insert(session_id.id, session@));
        Ok(Some(stopped))
    }

    /// Notes that another node has cancelled a transfer. None where it is not known.
    pub fn on_cancel(&mut self, session_id: TransferSessionId, reason: String, now: WallTime) -> (r: Option<
        Stopped,
    >)
        requires
            old(self).wf(),
        ensures
            final(self).wf(),
            final(self).source_node == old(self).source_node,
            match session_at(old(self).receive_handler@, session_id) {
                None => {
                    &&& r is None
                    &&& final(self).receive_handler@ == (ReceiveView {
                        hashes: old(self).receive_handler@.hashes.remove(session_id.id),
                        ..old(self).receive_handler@
                    })
                },
                Some(s) => {
                    &&& r == Some(
                        Stopped {
                            kind: s.kind,
                            was_active: s.state.active(),
                            keep: s.options.resumable,
                        },
                    )
                    &&& final(self).receive_handler@ == (ReceiveView {
                        hashes: old(self).receive_handler@.hashes.remove(session_id.id),
                        ..with_session(
                            old(self).receive_handler@,
                            session_id,
                            called_off(s, reason@, now),
                        )
                    })
                },
            },
    {
        let ghost before = self.receive_handler@;
        let r = match self.receive_handler.take_session(session_id) {
            None => None,
            Some(session) => {
                let mut session = session;
                let was_active = session.state.is_active();
                session.cancel(reason, now);
                session.control = TransferControlState::Cancelled;
                let stopped = Stopped {
                    kind: session.kind,
                    was_active,
                    keep: session.options.resumable,
                };
                self.receive_handler.put_session(session_id, session);
                assert(self.receive_handler@.sessions =~= before.sessions.insert(
                    session_id.id,
                    session@,
                ));
                Some(stopped)
            },
        };
        self.receive_handler.discard_incremental_hash(session_id);
        r
    }

    /// Pauses a transfer, and tells whether it is to be written down.
    pub fn pause_transfer(&mut self, session_id: TransferSessionId, now: WallTime) -> (r: Result<
        bool,
        FileTransferError,
    >)
        requires
            old(self).wf(),
        ensures
            final(self).wf(),
            final(self).source_node == old(self).source_node,
            match session_at(old(self).receive_handler@, session_id) {
                None => {
                    &&& outcome(r) == Err::<bool, ErrorView>(
                        ErrorView::SessionNotFound(session_id),
                    )
                    &&& final(self).receive_handler@ == old(self).receive_handler@
                },
                Some(s) => match paused(s, now) {
                    Ok(after) => {
                        &&& r == Ok::<bool, FileTransferError>(
                            !(s.state is Paused) && s.options.resumable,
                        )
                        &&& final(self).receive_handler@ == with_session(
                            old(self).receive_handler@,
                            session_id,
                            after,
                        )
                    },
                    Err(error) => {
                        &&& outcome(r) == Err::<bool, ErrorView>(error)
                        &&& final(self).receive_handler@ == old(self).receive_handler@
                    },
                },
            },
    {
        let ghost before = self.receive_handler@;
        let session = match self.receive_handler.take_session(session_id) {
            None => {
                return Err(FileTransferError::SessionNotFound(session_id));
            },
            Some(session) => session,
        };
        let mut session = session;
        let already = match session.state {
            TransferState::Paused => true,
            _ => false,
        };
        let mut keep = false;
        if !already {
            if let Err(error) = session.transition_to(TransferState::Paused, now) {
                self.receive_handler.put_session(session_id, session);
                assert(self.receive_handler@.sessions =~= before.sessions);
                return Err(error);
            }
            session.control = TransferControlState::Paused;
            keep = session.options.resumable;
        }
        self.receive_handler.put_session(session_id, session);
        assert(self.receive_handler@.sessions =~= before.sessions.insert(session_id.id, session@));
        Ok(keep)
    }

    /// Resumes a transfer that is known. None where it is not known: then the one that was
    /// kept is begun again.
    pub fn resume_transfer(&mut self, session_id: TransferSessionId, now: WallTime) -> (r: Option<
        Resumed,
    >)
        requires
            old(self).wf(),
        ensures
            final(self).wf(),
            final(self).source_node == old(self).source_node,
            match session_at(old(self).receive_handler@, session_id) {
                None => r is None && final(self).receive_handler@ == old(self).receive_handler@,
                Some(s) => {
                    &&& r is Some
                    &&& r->0.keep == s.options.resumable
                    &&& r->0.handle.now() == advanced(
                        no_progress(s.manifest.file_size),
                        listed_size(s.manifest.chunks, ascending_u32(s.tracker.completed)) as u64,
                        arrived_chunks(s) as u32,
                    )
                    &&& !r->0.handle.stopped()
                    &&& final(self).receive_handler@ == with_session(
                        old(self).receive_handler@,
                        session_id,
                        resumed(s, now),
                    )
                },
            },
    {
        let ghost before = self.receive_handler@;
        let session = match self.receive_handler.take_session(session_id) {
            None => {
                return None;
            },
            Some(session) => session,
        };
        let mut session = session;
        let was_paused = match session.state {
            TransferState::Paused => true,
            _ => false,
        };
        if was_paused {
            match session.transition_to(TransferState::InProgress, now) {
                Ok(()) => {},
                Err(_) => {},
            }
            session.control = TransferControlState::Running;
        }
        let mut handle = TransferHandle::new(session.manifest.file_size);
        let (bytes, chunks) = completed_size(&session);
        handle.update_progress(bytes, chunks);
        let keep = session.options.resumable;
        self.receive_handler.put_session(session_id, session);
        assert(self.receive_handler@.sessions =~= before.sessions.insert(session_id.id, session@));
        Some(Resumed { handle, keep })
    }

    /// The node that a kept transfer is taken up with again. Only the sender takes one up.
    pub fn check_kept(&self, session: &TransferSession) -> (r: Result<NodeId, FileTransferError>)
        ensures
            outcome(r) == (if session@.source_node != self.source_node {
                Err(ErrorView::Internal("resume is only supported for sender sessions"@))
            } else if session@.target_nodes.len() == 0 {
                Err(ErrorView::Internal("resume session missing target"@))
            } else {
                Ok(session@.target_nodes[0])
            }),
    {
        if session.source_node.id != self.source_node.id {
            return Err(internal("resume is only supported for sender sessions"));
        }
        if session.target_nodes.len() == 0 {
            return Err(internal("resume session missing target"));
        }
        Ok(session.target_nodes[0])
    }

    /// What is shown of the transfers that are under way.
    pub fn collect_active_transfers(&self) -> (list: Vec<TransferSessionInfo>)
        ensures
            list@ == listed_transfers(self.receive_handler@).map_values(
                |id: u128| shown(self.receive_handler@.sessions[id]),
            ),
    {
        let ghost v = self.receive_handler@;
        let ghost listed = |id: u128| is_listed(v.sessions[id].state);
        let ghost show = |id: u128| shown(v.sessions[id]);
        let ids = self.receive_handler.session_ids();
        let mut list: Vec<TransferSessionInfo> = Vec::new();
        let mut i: usize = 0;
        proof {
            reveal(Seq::filter);
            assert(list@ =~= ids@.take(0).filter(listed).map_values(show));
        }
        while i < ids.len()
            invariant
                i <= ids@.len(),
                v == self.receive_handler@,
                listed == (|id: u128| is_listed(v.sessions[id].state)),
                show == (|id: u128| shown(v.sessions[id])),
                forall|j: int| 0 <= j < ids@.len() ==> v.sessions.contains_key(#[trigger] ids@[j]),
                list@ == ids@.take(i as int).filter(listed).map_values(show),
            decreases ids@.len() - i,
        {
            let ghost before = ids@.take(i as int).filter(listed);
            proof {
                reveal(Seq::filter);
                assert(ids@.take(i + 1).drop_last() =~= ids@.take(i as int));
                assert(ids@.take(i + 1).last() == ids@[i as int]);
            }
            if let Some(session) = self.receive_handler.session(ids[i]) {
                match session.state {
                    TransferState::Initializing
                    | TransferState::InProgress
                    | TransferState::Paused => {
                        list.push(session.info());
                        assert(list@ =~= before.push(ids@[i as int]).map_values(show));
                    },
                    _ => {},
                }
            }
            i = i + 1;
        }
        assert(ids@.take(ids@.len() as int) =~= ids@);
        list
    }
}

/// The nodes that are told that a transfer is cancelled.
pub fn cancel_targets(session: &TransferSession) -> (nodes: Vec<NodeId>)
    ensures
        nodes@ == parties(session@),
{
    if session.target_nodes.len() == 0 {
        let mut nodes: Vec<NodeId> = Vec::new();
        nodes.push(session.source_node);
        assert(nodes@ =~= seq![session.source_node]);
        nodes
    } else {
        copy_nodes(&session.target_nodes)
    }
}

/// What to do about what was received.
pub enum ControlStep {
    /// Nothing: receive again.
    Again,
    /// Nothing, and no more will come.
    Stop,
    /// Serve the message.
    Serve(TransferSessionId, NodeId, FileTransferMessage),
}

/// What to do about what was received. Only a broken transport ends the service.
pub fn control_step(received: Result<
    (TransferSessionId, NodeId, FileTransferMessage),
    FileTransferError,
>) -> (step: ControlStep)
    ensures
        step == (match received {
            Ok((session_id, sender, message)) => ControlStep::Serve(session_id, sender, message),
            Err(error) => if error@ is Transport {
                ControlStep::Stop
            } else {
                ControlStep::Again
            },
        }),
{
    match received {
        Ok((session_id, sender, message)) => ControlStep::Serve(session_id, sender, message),
        Err(FileTransferError::Transport(_)) => ControlStep::Stop,
        Err(_) => ControlStep::Again,
    }
}

/// Whether a reply refuses a request with an error, in the way that the request asks for.
pub open spec fn is_refusal(request: FileTransferMessage, error: ErrorView, reply: FileTransferMessage) -> bool {
    match request {
        FileTransferMessage::TransferRequest(_) => reply matches FileTransferMessage::TransferResponse(
            response,
        ) && response@ == refused(error_text(error)),
        FileTransferMessage::Manifest(_) => reply matches FileTransferMessage::ManifestAck(ack)
            && ack@ == manifest_refused(error_text(error)),
        _ => reply matches FileTransferMessage::Error(message) && message.code == error_code(error)
            && message.message@ == error_text(error) && message.recoverable
            == error_is_recoverable(error),
    }
}

/// The answer to a request: what serving it gave, or why it was refused.
pub fn answer_request(request: &FileTransferMessage, served: Result<
    FileTransferMessage,
    FileTransferError,
>) -> (reply: FileTransferMessage)
    ensures
        match served {
            Ok(message) => reply == message,
            Err(error) => is_refusal(*request, error@, reply),
        },
{
    match served {
        Ok(message) => message,
        Err(error) => match request {
            FileTransferMessage::TransferRequest(_) => FileTransferMessage::TransferResponse(
                refuse(error.message().as_str()),
            ),
            FileTransferMessage::Manifest(_) => FileTransferMessage::ManifestAck(
                refuse_manifest(error.message()),
            ),
            _ => FileTransferMessage::Error(TransferErrorMessage::of(&error)),
        },
    }
}

/// Whether there is something at a path, as another node says.
pub fn read_exists_response(message: &FileTransferMessage) -> (r: Result<bool, FileTransferError>)
    ensures
        outcome(r) == (match *message {
            FileTransferMessage::ExistsResponse(response) => Ok(response.exists),
            _ => Err(ErrorView::Internal("unexpected exists response message"@)),
        }),
{
    match message {
        FileTransferMessage::ExistsResponse(response) => Ok(response.exists),
        _ => Err(internal("unexpected exists response message")),
    }
}

/// What came of removing a path, as another node says.
pub fn read_remove_response(message: &FileTransferMessage) -> (r: Result<(), FileTransferError>)
    ensures
        outcome(r) == (match *message {
            FileTransferMessage::RemoveResponse(response) => if response.success {
                Ok(())
            } else {
                Err(
                    ErrorView::Internal(
                        match text_of(response.error) {
                            Some(text) => text,
                            None => "remove failed"@,
                        },
                    ),
                )
            },
            _ => Err(ErrorView::Internal("unexpected remove response message"@)),
        }),
{
    match message {
        FileTransferMessage::RemoveResponse(response) => {
            if response.success {
                return Ok(());
            }
            match &response.error {
                Some(text) => Err(FileTransferError::Internal(text.clone())),
                None => Err(internal("remove failed")),
            }
        },
        _ => Err(internal("unexpected remove response message")),
    }
}

/// What a path leads to, as another node says. Its size is filled in where it is told apart.
pub fn read_metadata(message: &FileTransferMessage, path: &str) -> (r: Result<
    FileMetadata,
    FileTransferError,
>)
    ensures
        outcome(r) == (match *message {
            FileTransferMessage::MetadataResponse(response) => match text_of(response.error) {
                Some(text) => Err(ErrorView::Internal(text)),
                None => if !response.found {
                    Err(ErrorView::FileNotFound(path@))
                } else {
                    match response.metadata {
                        None => Err(ErrorView::Internal("metadata response missing metadata"@)),
                        Some(metadata) => Ok(
                            if metadata.size is None {
                                FileMetadata { size: response.size, ..metadata }
                            } else {
                                metadata
                            },
                        ),
                    }
                },
            },
            _ => Err(ErrorView::Internal("unexpected metadata response message"@)),
        }),
{
    match message {
        FileTransferMessage::MetadataResponse(response) => {
            if let Some(text) = &response.error {
                return Err(FileTransferError::Internal(text.clone()));
            }
            if !response.found {
                return Err(FileTransferError::FileNotFound(String::from_str(path)));
            }
            match response.metadata {
                None => Err(internal("metadata response missing metadata")),
                Some(metadata) => {
                    let mut metadata = metadata;
                    if metadata.size.is_none() {
                        metadata.size = response.size;
                    }
                    Ok(metadata)
                },
            }
        },
        _ => Err(internal("unexpected metadata response message")),
    }
}

/// What is in a directory, as another node says: what is wanted of it, sorted.
pub fn read_list_response(message: FileTransferMessage, options: &ListOptions) -> (r: Result<
    Vec<FileInfo>,
    FileTransferError,
>)
    ensures
        match message {
            FileTransferMessage::ListResponse(response) => match text_of(response.error) {
                Some(text) => outcome(r) == Err::<Vec<FileInfo>, ErrorView>(
                    ErrorView::Internal(text),
                ),
                None => r matches Ok(files) && is_listing_of(
                    shown_files(response.files@).filter(
                        |f: FileInfoView| entry_is_wanted(*options, f),
                    ),
                    *options,
                    shown_files(files@),
                ),
            },
            _ => outcome(r) == Err::<Vec<FileInfo>, ErrorView>(
                ErrorView::Internal("unexpected list response message"@),
            ),
        },
{
    match message {
        FileTransferMessage::ListResponse(response) => {
            if let Some(text) = &response.error {
                return Err(FileTransferError::Internal(text.clone()));
            }
            let wanted = retain_wanted(response.files, options);
            Ok(finish_listing(wanted, options))
        },
        _ => Err(internal("unexpected list response message")),
    }
}

/// A transfer that is paused and then resumed goes on as if nothing had been.
pub proof fn pausing_is_undone_by_resuming(s: SessionView, now: WallTime, later: WallTime)
    requires
        s.state is InProgress,
        s.control is Running,
        s.error is None,
    ensures
        paused(s, now) matches Ok(p) && resumed(p, later) == (SessionView { updated_at: later, ..s }),
{
}

/// A transfer that was cancelled is not resumed, cannot be paused, and is no longer listed.
pub proof fn cancelled_transfer_stays_cancelled(s: SessionView, now: WallTime, later: WallTime)
    requires
        stopped(s, now) is Ok,
    ensures
        ({
            let after = stopped(s, now)->Ok_0;
            &&& resumed(after, later) == after
            &&& paused(after, later) is Err
            &&& stopped(after, later) == Ok::<SessionView, ErrorView>(after)
            &&& !is_listed(after.state)
        }),
{
}

/// A transfer can be cancelled exactly where it has not been verified, completed or failed.
pub proof fn unverified_transfer_can_be_cancelled(s: SessionView, now: WallTime)
    ensures
        stopped(s, now) is Ok <==> is_listed(s.state) || s.state is Cancelled,
{
}

/// The text that a reply tells of a refusal, where it is one.
pub open spec fn refusal_reason(reply: FileTransferMessage) -> Option<Seq<char>> {
    match reply {
        FileTransferMessage::TransferResponse(response) => if response.accepted {
            None
        } else {
            text_of(response.rejection_reason)
        },
        FileTransferMessage::ManifestAck(ack) => if ack.accepted {
            None
        } else {
            text_of(ack.error)
        },
        FileTransferMessage::Error(message) => Some(message.message@),
        _ => None,
    }
}

/// Whatever is refused, the reply says so and says why.
pub proof fn refusal_says_why(
    request: FileTransferMessage,
    error: ErrorView,
    reply: FileTransferMessage,
)
    requires
        is_refusal(request, error, reply),
    ensures
        refusal_reason(reply) == Some(error_text(error)),
{
}

/// No file is synchronised with, or sent to, the node that it is on.
pub proof fn no_file_is_sent_to_its_own_node(nodes: Seq<NodeId>, node: NodeId)
    ensures
        !all_but(nodes, node).contains(node),
        chosen_target(nodes, node) matches Ok(target) ==> target != node && nodes.contains(target),
{
    let other = is_other(node);
    let rest = all_but(nodes, node);
    assert forall|i: int| 0 <= i < rest.len() implies rest[i] != node && nodes.contains(
        #[trigger] rest[i],
    ) by {
        nodes.lemma_filter_pred(other, i);
        nodes.lemma_filter_contains_rev(other, rest[i]);
    }
}

/// A transfer can be paused exactly while it is in progress, or is already; it is then told to
/// wait, and nothing of what it has done is lost.
pub proof fn only_running_transfers_are_paused(s: SessionView, now: WallTime)
    ensures
        paused(s, now) is Ok <==> s.state is InProgress || s.state is Paused,
        paused(s, now) matches Ok(p) ==> p.state is Paused && p.tracker == s.tracker && p.manifest
            == s.manifest && p.dest_path == s.dest_path && p.options == s.options,
        s.state is InProgress ==> (paused(s, now) matches Ok(p) && p.control is Paused
            && p.updated_at == now),
        s.state is Paused ==> paused(s, now) == Ok::<SessionView, ErrorView>(s),
        paused(s, now) is Err ==> paused(s, now)->Err_0 is InvalidState,
{
}

/// A transfer that is cancelled is over, is told to stop, and keeps what it has done.
pub proof fn cancelled_transfer_is_told_to_stop(s: SessionView, reason: Seq<char>, now: WallTime)
    ensures
        stopped(s, now) matches Ok(c) ==> c.state is Cancelled && c.control is Cancelled && c.tracker
            == s.tracker && c.manifest == s.manifest && c.dest_path == s.dest_path,
        stopped(s, now) is Ok && !(s.state is Cancelled) ==> stopped(s, now)->Ok_0.updated_at == now,
        stopped(s, now) is Err ==> stopped(s, now)->Err_0 is InvalidState,
        stopped(s, now) is Ok <==> s.state is Initializing || s.state is InProgress
            || s.state is Paused || s.state is Cancelled,
        called_off(s, reason, now).state is Cancelled,
        called_off(s, reason, now).control is Cancelled,
        called_off(s, reason, now).error == Some(reason),
        called_off(s, reason, now).updated_at == now,
        called_off(s, reason, now).tracker == s.tracker,
{
}

/// Only a paused transfer is resumed: it is then in progress and told to run.
pub proof fn only_paused_transfers_are_resumed(s: SessionView, now: WallTime)
    ensures
        !(s.state is Paused) ==> resumed(s, now) == s,
        s.state is Paused ==> resumed(s, now).state is InProgress && resumed(s, now).control is Running
            && resumed(s, now).updated_at == now,
        resumed(s, now).tracker == s.tracker,
        resumed(s, now).manifest == s.manifest,
        resumed(s, now).dest_path == s.dest_path,
{
}

/// A file is synchronised with the only other node that there is, and it is an error where there
/// is none or more than one.
pub proof fn the_only_other_node_is_the_target(nodes: Seq<NodeId>, node: NodeId, target: NodeId)
    ensures
        chosen_target(nodes, node) is Ok <==> all_but(nodes, node).len() == 1,
        chosen_target(nodes, node) == Ok::<NodeId, ErrorView>(target) ==> nodes.contains(target)
            && target != node && forall|i: int|
            0 <= i < nodes.len() && #[trigger] nodes[i] != node ==> nodes[i] == target,
        chosen_target(nodes, node) is Err ==> chosen_target(nodes, node)->Err_0 is Internal,
        all_but(nodes, node).contains(target) <==> nodes.contains(target) && target != node,
{
    let rest = all_but(nodes, node);
    no_file_is_sent_to_its_own_node(nodes, node);
    assert forall|i: int| 0 <= i < nodes.len() && #[trigger] nodes[i] != node implies rest.contains(
        nodes[i],
    ) by {
        assert(is_other(node)(nodes[i]));
        nodes.lemma_filter_contains(is_other(node), i);
    }
    if nodes.contains(target) && target != node {
        let i = choose|i: int| 0 <= i < nodes.len() && nodes[i] == target;
        assert(rest.contains(nodes[i]));
    }
    if rest.contains(target) {
        nodes.lemma_filter_contains_rev(is_other(node), target);
    }
    if chosen_target(nodes, node) == Ok::<NodeId, ErrorView>(target) {
        assert forall|i: int| 0 <= i < nodes.len() && #[trigger] nodes[i] != node implies nodes[i]
            == target by {
            let k = choose|k: int| 0 <= k < rest.len() && rest[k] == nodes[i];
            assert(k == 0);
        }
    }
}

/// Exactly the transfers that have not ended and are not being verified are listed, by increasing
/// identifier.
pub proof fn open_transfers_are_listed(v: ReceiveView, id: u128)
    requires
        v.sessions.dom().finite(),
    ensures
        listed_transfers(v).contains(id) <==> v.sessions.contains_key(id) && (
        v.sessions[id].state is Initializing || v.sessions[id].state is InProgress
            || v.sessions[id].state is Paused),
        crate::ordered::increasing_u128(listed_transfers(v)),
{
    let all = ascending_u128(v.sessions.dom());
    let open = |id: u128| is_listed(v.sessions[id].state);
    crate::ordered::ascending_lists_u128(v.sessions.dom());
    crate::ordered::filter_increases_u128(all, open);
    crate::ordered::filter_holds_u128(all, open, id);
}

/// Who is told of a cancellation are those that a file is sent to, or else the one that sends it.
pub proof fn the_other_end_is_told(session: TransferSession, nodes: Vec<NodeId>)
    requires
        call_ensures(cancel_targets, (&session,), nodes),
    ensures
        session@.target_nodes.len() > 0 ==> nodes@ == session@.target_nodes,
        session@.target_nodes.len() == 0 ==> nodes@.len() == 1 && nodes@[0] == session@.source_node,
{
}

/// Cancelling a transfer changes that transfer alone, and tells what it was.
pub proof fn cancelling_concerns_one_transfer(
    service: &mut FileTransferServiceImpl,
    id: TransferSessionId,
    now: WallTime,
    r: Result<Option<Stopped>, FileTransferError>,
    other: u128,
)
    requires
        old(service).wf(),
        call_ensures(FileTransferServiceImpl::cancel_transfer, (service, id, now), r),
    ensures
        ({
            let before = old(service).receive_handler@;
            let after = final(service).receive_handler@;
            let known = before.sessions.contains_key(id.id);
            let s = before.sessions[id.id];
            let can = s.state is Initializing || s.state is InProgress || s.state is Paused
                || s.state is Cancelled;
            &&& !known ==> r == Ok::<Option<Stopped>, FileTransferError>(None) && after == before
            &&& known && !can ==> r is Err && after == before
            &&& known && can ==> {
                &&& r matches Ok(Some(told)) && told.kind == s.kind && told.keep
                    == s.options.resumable && (told.was_active <==> !(s.state is Cancelled))
                &&& after.sessions[id.id].state is Cancelled
                &&& after.sessions[id.id].control is Cancelled
                &&& after.sessions[id.id].tracker == s.tracker
            }
            &&& other != id.id ==> after.sessions.contains_key(other)
                == before.sessions.contains_key(other)
            &&& other != id.id && before.sessions.contains_key(other) ==> after.sessions[other]
                == before.sessions[other]
            &&& after.hashes == before.hashes
        }),
{
}

/// A cancellation from the other end ends the transfer with the reason that was given, and what
/// was hashed of its file is thrown away.
pub proof fn cancellation_is_taken_over(
    service: &mut FileTransferServiceImpl,
    id: TransferSessionId,
    reason: String,
    now: WallTime,
    r: Option<Stopped>,
)
    requires
        old(service).wf(),
        call_ensures(FileTransferServiceImpl::on_cancel, (service, id, reason, now), r),
    ensures
        ({
            let before = old(service).receive_handler@;
            let after = final(service).receive_handler@;
            let s = before.sessions[id.id];
            &&& r is Some <==> before.sessions.contains_key(id.id)
            &&& r matches Some(told) ==> told.kind == s.kind && told.keep == s.options.resumable && (
            told.was_active <==> !(s.state is Completed || s.state is Failed || s.state is Cancelled))
            &&& r is Some ==> after.sessions[id.id].state is Cancelled
                && after.sessions[id.id].control is Cancelled && after.sessions[id.id].error == Some(
                reason@,
            )
            &&& !after.hashes.contains_key(id.id)
            &&& forall|k: u128|
                k != id.id && #[trigger] before.sessions.contains_key(k)
                    ==> after.sessions.contains_key(k) && after.sessions[k] == before.sessions[k]
        }),
{
}

/// Pausing and resuming a transfer change that transfer alone; who asks for one that is not known
/// is told so, and what is written down is what can be resumed.
pub proof fn pausing_and_resuming_concern_one_transfer(
    pausing: &mut FileTransferServiceImpl,
    resuming: &mut FileTransferServiceImpl,
    id: TransferSessionId,
    now: WallTime,
    p: Result<bool, FileTransferError>,
    r: Option<Resumed>,
    other: u128,
)
    requires
        old(pausing).wf(),
        old(resuming).wf(),
        old(resuming).receive_handler@ == old(pausing).receive_handler@,
        call_ensures(FileTransferServiceImpl::pause_transfer, (pausing, id, now), p),
        call_ensures(FileTransferServiceImpl::resume_transfer, (resuming, id, now), r),
    ensures
        ({
            let before = old(pausing).receive_handler@;
            let a = final(pausing).receive_handler@;
            let b = final(resuming).receive_handler@;
            let known = before.sessions.contains_key(id.id);
            let s = before.sessions[id.id];
            &&& !known ==> (p matches Err(e) && e@ == ErrorView::SessionNotFound(id)) && r is None
            &&& known ==> (p is Ok <==> s.state is InProgress || s.state is Paused)
            &&& known && p is Ok ==> a.sessions[id.id].state is Paused
            &&& known && s.state is InProgress ==> p == Ok::<bool, FileTransferError>(
                s.options.resumable,
            )
            &&& known && s.state is Paused ==> p == Ok::<bool, FileTransferError>(false)
            &&& known ==> (r matches Some(told) && told.keep == s.options.resumable
                && !told.handle.stopped() && told.handle.now().total_bytes == s.manifest.file_size)
            &&& known && s.state is Paused ==> b.sessions[id.id].state is InProgress
                && b.sessions[id.id].control is Running
            &&& known && !(s.state is Paused) ==> b.sessions[id.id] == s
            &&& other != id.id && before.sessions.contains_key(other) ==> a.sessions[other]
                == before.sessions[other] && b.sessions[other] == before.sessions[other]
        }),
{
}

/// A kept transfer is resumed only from the node that sends it, to the first node that it goes to.
pub proof fn only_the_sender_resumes(
    service: &FileTransferServiceImpl,
    session: TransferSession,
    r: Result<NodeId, FileTransferError>,
)
    requires
        call_ensures(FileTransferServiceImpl::check_kept, (service, &session), r),
    ensures
        r is Ok <==> session@.source_node == service.source_node && session@.target_nodes.len() > 0,
        r matches Ok(target) ==> target == session@.target_nodes[0],
        r matches Err(e) ==> e@ is Internal,
{
}

/// A message that came in is served as it is, a broken connection ends the service, and any other
/// failure is passed over.
pub proof fn service_goes_on_while_connected(
    received: Result<(TransferSessionId, NodeId, FileTransferMessage), FileTransferError>,
    step: ControlStep,
)
    requires
        call_ensures(control_step, (received,), step),
    ensures
        received matches Ok(m) ==> step == ControlStep::Serve(m.0, m.1, m.2),
        received matches Err(e) ==> (step is Stop <==> e@ is Transport) && (step is Again <==> !(
        e@ is Transport)),
{
}

/// What another node answers is read as it was said, and its errors are passed on.
pub proof fn answers_are_read_as_said(
    message: FileTransferMessage,
    path: &str,
    exists: Result<bool, FileTransferError>,
    removed: Result<(), FileTransferError>,
    found: Result<FileMetadata, FileTransferError>,
)
    requires
        call_ensures(read_exists_response, (&message,), exists),
        call_ensures(read_remove_response, (&message,), removed),
        call_ensures(read_metadata, (&message, path), found),
    ensures
        exists is Ok <==> message is ExistsResponse,
        message matches FileTransferMessage::ExistsResponse(response) ==> exists == Ok::<
            bool,
            FileTransferError,
        >(response.exists),
        removed is Ok <==> (message matches FileTransferMessage::RemoveResponse(response)
            && response.success),
        message matches FileTransferMessage::RemoveResponse(response) ==> {
            response.error matches Some(text) ==> !response.success ==> (removed matches Err(e) && e@
                == ErrorView::Internal(text@))
        },
        found is Ok <==> (message matches FileTransferMessage::MetadataResponse(response)
            && response.error is None && response.found && response.metadata is Some),
        message matches FileTransferMessage::MetadataResponse(response) ==> {
            &&& response.error matches Some(text) ==> (found matches Err(e) && e@
                == ErrorView::Internal(text@))
            &&& response.error is None && !response.found ==> (found matches Err(e) && e@
                == ErrorView::FileNotFound(path@))
            &&& found matches Ok(metadata) ==> {
                let said = response.metadata->0;
                &&& metadata.size == (if said.size is Some {
                    said.size
                } else {
                    response.size
                })
                &&& metadata.permissions == said.permissions
                &&& metadata.modified_at == said.modified_at
                &&& metadata.created_at == said.created_at
                &&& metadata.file_type == said.file_type
            }
        },
{
}

} // verus!

//! A transfer and the states it goes through.

use vstd::prelude::*;

use crate::clock::WallTime;
use crate::node::NodeId;
use crate::transfer::chunk::{ChunkTracker, TrackerView};
use crate::transfer::error::{ErrorView, FileTransferError, TransferSessionId};
use crate::transfer::manifest::{ManifestView, TransferManifest};
use crate::transfer::options::{TransferMode, TransferOptions};

verus! {

/// What a transfer is part of.
#[derive(Debug, Clone, Copy, PartialEq, Eq, Structural)]
pub enum TransferKind {
    Send,
    Broadcast,
    Sync,
}

/// How far a transfer is.
#[derive(Debug, Clone, Copy, PartialEq, Eq, Structural)]
pub enum TransferState {
    Initializing,
    InProgress,
    Paused,
    Verifying,
    Completed,
    Failed,
    Cancelled,
}

/// What a transfer is told to do.
#[derive(Debug, Clone, Copy, PartialEq, Eq, Structural)]
pub enum TransferControlState {
    Running,
    Paused,
    Cancelled,
}

/// The name of a state.
pub open spec fn state_name(state: TransferState) -> Seq<char> {
    match state {
        TransferState::Initializing => "Initializing"@,
        TransferState::InProgress => "InProgress"@,
        TransferState::Paused => "Paused"@,
        TransferState::Verifying => "Verifying"@,
        TransferState::Completed => "Completed"@,
        TransferState::Failed => "Failed"@,
        TransferState::Cancelled => "Cancelled"@,
    }
}

impl TransferState {
    /// The name of the state.
    pub fn name(self) -> (name: &'static str)
        ensures
            name@ == state_name(self),
    {
        match self {
            TransferState::Initializing => "Initializing",
            TransferState::InProgress => "InProgress",
            TransferState::Paused => "Paused",
            TransferState::Verifying => "Verifying",
            TransferState::Completed => "Completed",
            TransferState::Failed => "Failed",
            TransferState::Cancelled => "Cancelled",
        }
    }

    /// Whether a transfer in this state counts as active.
    pub open spec fn active(self) -> bool {
        self is Initializing || self is InProgress || self is Paused || self is Verifying
    }

    /// Whether a transfer in this state counts as active.
    pub fn is_active(self) -> (active: bool)
        ensures
            active == self.active(),
    {
        match self {
            TransferState::Initializing
            | TransferState::InProgress
            | TransferState::Paused
            | TransferState::Verifying => true,
            _ => false,
        }
    }

    /// Whether a transfer in this state is over.
    pub open spec fn over(self) -> bool {
        self is Completed || self is Failed || self is Cancelled
    }
}

/// Which state may follow which.
pub open spec fn may_follow(current: TransferState, next: TransferState) -> bool {
    match current {
        TransferState::Initializing => next is InProgress || next is Failed || next is Cancelled,
        TransferState::InProgress => next is Paused || next is Verifying || next is Completed
            || next is Failed || next is Cancelled,
        TransferState::Paused => next is InProgress || next is Failed || next is Cancelled,
        TransferState::Verifying => next is Completed || next is Failed,
        TransferState::Completed | TransferState::Failed | TransferState::Cancelled => false,
    }
}

/// A transfer.
#[derive(Debug)]
pub struct TransferSession {
    pub id: TransferSessionId,
    pub kind: TransferKind,
    pub mode: TransferMode,
    pub source_node: NodeId,
    pub target_nodes: Vec<NodeId>,
    pub source_path: String,
    pub dest_path: String,
    pub state: TransferState,
    pub manifest: TransferManifest,
    pub chunk_tracker: ChunkTracker,
    pub options: TransferOptions,
    pub created_at: WallTime,
    pub updated_at: WallTime,
    pub error: Option<String>,
    pub control: TransferControlState,
}

/// A transfer, seen as plain values.
#[verifier::ext_equal]
pub struct SessionView {
    pub id: TransferSessionId,
    pub kind: TransferKind,
    pub mode: TransferMode,
    pub source_node: NodeId,
    pub target_nodes: Seq<NodeId>,
    pub source_path: Seq<char>,
    pub dest_path: Seq<char>,
    pub state: TransferState,
    pub manifest: ManifestView,
    pub tracker: TrackerView,
    pub options: TransferOptions,
    pub created_at: WallTime,
    pub updated_at: WallTime,
    pub error: Option<Seq<char>>,
    pub control: TransferControlState,
}

impl View for TransferSession {
    type V = SessionView;

    open spec fn view(&self) -> SessionView {
        SessionView {
            id: self.id,
            kind: self.kind,
            mode: self.mode,
            source_node: self.source_node,
            target_nodes: self.target_nodes@,
            source_path: self.source_path@,
            dest_path: self.dest_path@,
            state: self.state,
            manifest: self.manifest@,
            tracker: self.chunk_tracker@,
            options: self.options,
            created_at: self.created_at,
            updated_at: self.updated_at,
            error: match self.error {
                Some(text) => Some(text@),
                None => None,
            },
            control: self.control,
        }
    }
}

/// A transfer after it went over to another state. What went wrong before is forgotten
/// unless it failed.
pub open spec fn moved_to(s: SessionView, next: TransferState, now: WallTime) -> SessionView {
    SessionView {
        state: next,
        updated_at: now,
        error: if next is Failed {
            s.error
        } else {
            None
        },
        ..s
    }
}

/// A transfer after it failed.
pub open spec fn failed_with(s: SessionView, message: Seq<char>, now: WallTime) -> SessionView {
    SessionView { state: TransferState::Failed, error: Some(message), updated_at: now, ..s }
}

/// A transfer after it was cancelled.
pub open spec fn cancelled_with(s: SessionView, reason: Seq<char>, now: WallTime) -> SessionView {
    SessionView { state: TransferState::Cancelled, error: Some(reason), updated_at: now, ..s }
}

impl TransferSession {
    /// A transfer that has not begun.
    pub fn new(
        id: TransferSessionId,
        kind: TransferKind,
        mode: TransferMode,
        source_node: NodeId,
        target_nodes: Vec<NodeId>,
        source_path: String,
        dest_path: String,
        manifest: TransferManifest,
        chunk_tracker: ChunkTracker,
        options: TransferOptions,
        now: WallTime,
    ) -> (session: Self)
        ensures
            session@ == (SessionView {
                id,
                kind,
                mode,
                source_node,
                target_nodes: target_nodes@,
                source_path: source_path@,
                dest_path: dest_path@,
                state: TransferState::Initializing,
                manifest: manifest@,
                tracker: chunk_tracker@,
                options,
                created_at: now,
                updated_at: now,
                error: None,
                control: TransferControlState::Running,
            }),
    {
        TransferSession {
            id,
            kind,
            mode,
            source_node,
            target_nodes,
            source_path,
            dest_path,
            state: TransferState::Initializing,
            manifest,
            chunk_tracker,
            options,
            created_at: now,
            updated_at: now,
            error: None,
            control: TransferControlState::Running,
        }
    }

    /// Whether a state may follow another.
    pub fn can_transition(current: TransferState, next: TransferState) -> (allowed: bool)
        ensures
            allowed == may_follow(current, next),
    {
        match current {
            TransferState::Initializing | TransferState::Paused => match next {
                TransferState::InProgress | TransferState::Failed | TransferState::Cancelled => true,
                _ => false,
            },
            TransferState::InProgress => match next {
                TransferState::Paused
                | TransferState::Verifying
                | TransferState::Completed
                | TransferState::Failed
                | TransferState::Cancelled => true,
                _ => false,
            },
            TransferState::Verifying => match next {
                TransferState::Completed | TransferState::Failed => true,
                _ => false,
            },
            TransferState::Completed | TransferState::Failed | TransferState::Cancelled => false,
        }
    }

    /// Goes over to another state, where that may follow.
    pub fn transition_to(&mut self, next: TransferState, now: WallTime) -> (r: Result<
        (),
        FileTransferError,
    >)
        ensures
            match r {
                Ok(()) => {
                    &&& may_follow(old(self)@.state, next)
                    &&& final(self)@ == moved_to(old(self)@, next, now)
                },
                Err(error) => {
                    &&& !may_follow(old(self)@.state, next)
                    &&& final(self)@ == old(self)@
                    &&& error@ == ErrorView::InvalidState(
                        state_name(old(self)@.state),
                        state_name(next),
                    )
                },
            },
    {
        if !Self::can_transition(self.state, next) {
            return Err(
                FileTransferError::InvalidState {
                    expected: String::from_str(self.state.name()),
                    actual: String::from_str(next.name()),
                },
            );
        }
        self.state = next;
        self.updated_at = now;
        match next {
            TransferState::Failed => {},
            _ => {
                self.error = None;
            },
        }
        Ok(())
    }

    /// Notes that the transfer failed, whatever its state.
    pub fn fail(&mut self, message: String, now: WallTime)
        ensures
            final(self)@ == failed_with(old(self)@, message@, now),
    {
        self.state = TransferState::Failed;
        self.error = Some(message);
        self.updated_at = now;
    }

    /// Notes that the transfer was cancelled, whatever its state.
    pub fn cancel(&mut self, reason: String, now: WallTime)
        ensures
            final(self)@ == cancelled_with(old(self)@, reason@, now),
    {
        self.state = TransferState::Cancelled;
        self.error = Some(reason);
        self.updated_at = now;
    }

    /// Sets the state, whether or not it may follow.
    pub fn set_state(&mut self, state: TransferState, now: WallTime)
        ensures
            final(self)@ == (SessionView { state, updated_at: now, ..old(self)@ }),
    {
        self.state = state;
        self.updated_at = now;
    }
}

/// A copy of a list of nodes.
pub fn copy_nodes(nodes: &Vec<NodeId>) -> (copy: Vec<NodeId>)
    ensures
        copy@ == nodes@,
{
    let mut copy: Vec<NodeId> = Vec::new();
    let mut i: usize = 0;
    while i < nodes.len()
        invariant
            i <= nodes@.len(),
            copy@ == nodes@.take(i as int),
        decreases nodes@.len() - i,
    {
        copy.push(nodes[i]);
        i = i + 1;
        assert(copy@ =~= nodes@.take(i as int));
    }
    assert(copy@ =~= nodes@);
    copy
}

impl Clone for TransferSession {
    fn clone(&self) -> (copy: Self)
        ensures
            copy@ == self@,
    {
        TransferSession {
            id: self.id,
            kind: self.kind,
            mode: self.mode,
            source_node: self.source_node,
            target_nodes: copy_nodes(&self.target_nodes),
            source_path: self.source_path.clone(),
            dest_path: self.dest_path.clone(),
            state: self.state,
            manifest: self.manifest.clone(),
            chunk_tracker: self.chunk_tracker.clone(),
            options: self.options,
            created_at: self.created_at,
            updated_at: self.updated_at,
            error: match &self.error {
                Some(text) => Some(text.clone()),
                None => None,
            },
            control: self.control,
        }
    }
}

/// What is shown of a transfer.
#[derive(Debug, Clone, Copy, PartialEq, Eq, Structural)]
pub struct TransferSessionInfo {
    pub id: TransferSessionId,
    pub kind: TransferKind,
    pub state: TransferState,
    pub file_size: u64,
}

/// What is shown of a transfer.
pub open spec fn shown(s: SessionView) -> TransferSessionInfo {
    TransferSessionInfo { id: s.id, kind: s.kind, state: s.state, file_size: s.manifest.file_size }
}

impl TransferSession {
    /// What is shown of the transfer.
    pub fn info(&self) -> (info: TransferSessionInfo)
        ensures
            info == shown(self@),
    {
        TransferSessionInfo {
            id: self.id,
            kind: self.kind,
            state: self.state,
            file_size: self.manifest.file_size,
        }
    }
}

/// A transfer that is over stays in its state.
pub proof fn over_is_over(current: TransferState, next: TransferState)
    requires
        current.over(),
    ensures
        !may_follow(current, next),
{
}

/// A transfer is active exactly until it is over.
pub proof fn active_until_over(state: TransferState)
    ensures
        state.active() != state.over(),
{
}

/// Every active transfer can still fail, and none starts anew.
pub proof fn active_transfer_can_fail(state: TransferState)
    requires
        state.active(),
    ensures
        may_follow(state, TransferState::Failed),
        !may_follow(state, TransferState::Initializing),
{
}

/// A transfer starts before it goes on, goes on before it is verified, and is verified before it
/// completes, or completes at once. Only one that goes on can be paused, and one that is paused
/// can only go on or end. Every transfer can be cancelled until it is verified, and none moves
/// from a state to itself.
pub proof fn states_follow_in_order(current: TransferState, next: TransferState)
    ensures
        !may_follow(current, current),
        !may_follow(current, TransferState::Initializing),
        may_follow(current, TransferState::InProgress) <==> current is Initializing || current is Paused,
        may_follow(current, TransferState::Paused) <==> current is InProgress,
        may_follow(current, TransferState::Verifying) <==> current is InProgress,
        may_follow(current, TransferState::Completed) <==> current is InProgress
            || current is Verifying,
        may_follow(current, TransferState::Failed) <==> !(current is Completed || current is Failed
            || current is Cancelled),
        may_follow(current, TransferState::Cancelled) <==> current is Initializing
            || current is InProgress || current is Paused,
{
}

/// A change of state changes the state, the time and what went wrong, and nothing else of a
/// transfer: where the file comes from and goes to, what has arrived of it and what was agreed on
/// stay.
pub proof fn change_of_state_keeps_the_transfer(
    s: SessionView,
    next: TransferState,
    text: Seq<char>,
    now: WallTime,
)
    ensures
        ({
            let moved = moved_to(s, next, now);
            &&& moved.state == next
            &&& moved.updated_at == now
            &&& next is Failed ==> moved.error == s.error
            &&& !(next is Failed) ==> moved.error is None
            &&& moved == (SessionView {
                state: moved.state,
                updated_at: moved.updated_at,
                error: moved.error,
                ..s
            })
        }),
        ({
            let failed = failed_with(s, text, now);
            &&& failed.state is Failed
            &&& failed.error == Some(text)
            &&& failed.updated_at == now
            &&& failed == (SessionView {
                state: failed.state,
                updated_at: failed.updated_at,
                error: failed.error,
                ..s
            })
        }),
        ({
            let cancelled = cancelled_with(s, text, now);
            &&& cancelled.state is Cancelled
            &&& cancelled.error == Some(text)
            &&& cancelled.updated_at == now
            &&& cancelled == (SessionView {
                state: cancelled.state,
                updated_at: cancelled.updated_at,
                error: cancelled.error,
                ..s
            })
        }),
{
}

/// What is shown of a transfer is the transfer's own.
pub proof fn shown_is_of_the_transfer(s: SessionView)
    ensures
        shown(s).id == s.id,
        shown(s).kind == s.kind,
        shown(s).state == s.state,
        shown(s).file_size == s.manifest.file_size,
{
}

/// A transfer counts as active in exactly the states in which it can still fail, and as over in
/// exactly those in which no other follows.
pub proof fn over_is_where_nothing_follows(state: TransferState)
    ensures
        state.active() <==> state is Initializing || state is InProgress || state is Paused
            || state is Verifying,
        state.over() <==> forall|next: TransferState| !#[trigger] may_follow(state, next),
{
    if !state.over() {
        assert(may_follow(state, TransferState::Failed));
    }
}

/// Different states have different names.
pub proof fn state_names_differ(a: TransferState, b: TransferState)
    requires
        state_name(a) == state_name(b),
    ensures
        a == b,
{
    reveal_strlit("Initializing");
    reveal_strlit("InProgress");
    reveal_strlit("Paused");
    reveal_strlit("Verifying");
    reveal_strlit("Completed");
    reveal_strlit("Failed");
    reveal_strlit("Cancelled");
    assert("Initializing"@.len() == 12 && "InProgress"@.len() == 10 && "Paused"@.len() == 6);
    assert("Failed"@.len() == 6 && "Verifying"@.len() == 9 && "Completed"@.len() == 9);
    assert("Cancelled"@.len() == 9);
    assert("Completed"@[1] == 'o' && "Cancelled"@[1] == 'a');
    assert("Failed"@[0] == 'F' && "Paused"@[0] == 'P');
    assert("Verifying"@[0] == 'V' && "Completed"@[0] == 'C' && "Cancelled"@[0] == 'C');
}

/// A transfer begins as it is described: nothing of it is done yet, it may run, and it was made
/// and changed now.
pub proof fn transfer_begins_as_described(
    id: TransferSessionId,
    kind: TransferKind,
    mode: TransferMode,
    source_node: NodeId,
    target_nodes: Vec<NodeId>,
    source_path: String,
    dest_path: String,
    manifest: TransferManifest,
    chunk_tracker: ChunkTracker,
    options: TransferOptions,
    now: WallTime,
    session: TransferSession,
)
    requires
        call_ensures(
            TransferSession::new,
            (
                id,
                kind,
                mode,
                source_node,
                target_nodes,
                source_path,
                dest_path,
                manifest,
                chunk_tracker,
                options,
                now,
            ),
            session,
        ),
    ensures
        session@.id == id,
        session@.kind == kind,
        session@.mode == mode,
        session@.source_node == source_node,
        session@.target_nodes == target_nodes@,
        session@.source_path == source_path@,
        session@.dest_path == dest_path@,
        session@.manifest == manifest@,
        session@.tracker == chunk_tracker@,
        session@.options == options,
        session@.state is Initializing,
        session@.control is Running,
        session@.error is None,
        session@.created_at == now,
        session@.updated_at == now,
{
}

/// A transfer moves to a state exactly where that may follow, and else stays as it is; it can be
/// put into a state, can fail and can be cancelled at any time.
pub proof fn transfer_moves_only_where_it_may(
    moving: &mut TransferSession,
    next: TransferState,
    now: WallTime,
    r: Result<(), FileTransferError>,
    set: &mut TransferSession,
    failing: &mut TransferSession,
    text: String,
)
    requires
        call_ensures(TransferSession::transition_to, (moving, next, now), r),
        call_ensures(TransferSession::set_state, (set, next, now), ()),
        call_ensures(TransferSession::fail, (failing, text, now), ()),
    ensures
        r is Ok <==> may_follow(old(moving)@.state, next),
        r is Ok ==> final(moving)@.state == next && final(moving)@.updated_at == now
            && final(moving)@.tracker == old(moving)@.tracker,
        r is Err ==> final(moving)@ == old(moving)@,
        r matches Err(e) ==> e@ is InvalidState,
        final(set)@.state == next,
        final(set)@.updated_at == now,
        final(set)@.error == old(set)@.error,
        final(set)@.tracker == old(set)@.tracker,
        final(failing)@.state is Failed,
        final(failing)@.error == Some(text@),
        final(failing)@.updated_at == now,
{
}

/// A state tells its name and whether a transfer in it is active, and what may follow it is told
/// as it is; a transfer that is cancelled keeps the reason.
pub proof fn states_tell_what_they_are(
    state: TransferState,
    next: TransferState,
    name: &'static str,
    active: bool,
    allowed: bool,
    session: &mut TransferSession,
    reason: String,
    now: WallTime,
)
    requires
        call_ensures(TransferState::name, (state,), name),
        call_ensures(TransferState::is_active, (state,), active),
        call_ensures(TransferSession::can_transition, (state, next), allowed),
        call_ensures(TransferSession::cancel, (session, reason, now), ()),
    ensures
        name@ == state_name(state),
        active <==> !(state is Completed || state is Failed || state is Cancelled),
        allowed <==> may_follow(state, next),
        final(session)@.state is Cancelled,
        final(session)@.error == Some(reason@),
        final(session)@.updated_at == now,
        final(session)@.tracker == old(session)@.tracker,
{
}

} // verus!

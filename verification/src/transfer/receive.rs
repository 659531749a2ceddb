//! Receiving files: which transfers are taken, what is checked of a chunk, and when a file
//! is put in its place.
//!
//! The caller reads and writes the files and sends the answers. Between two calls for the
//! same transfer others may come in.

use std::collections::{BTreeMap, BTreeSet};
use vstd::prelude::*;

use crate::bytes::bytes_equal;
use crate::clock::WallTime;
use crate::node::NodeId;
use crate::ordered::{
    ascending_is_u128, ascending_is_u32, ascending_lists_u32, ascending_u128, ascending_u32,
    sorted_keys_u128, sorted_members_u32,
};
use crate::paths::{file_name, join, joined, name_of, parse, path_of, plain_text, render, renamed, with_name};
use crate::text::text_equal;
use crate::transfer::chunk::{
    all_arrived, chunk_completed, chunk_failed, untouched, ChunkTracker, TrackerView,
};
use crate::transfer::compression::{decompress_bytes, decompressed};
use crate::transfer::error::{
    error_text, internal, session_text, ErrorView, FileTransferError, TransferSessionId,
};
use crate::transfer::integrity::{chunk_checksum, hash_of, IntegrityVerifier};
use crate::transfer::manifest::{
    manifest_error_text, manifest_fault, manifest_is_valid, FileMetadata, ManifestView,
    TransferManifest,
};
use crate::transfer::messages::{
    AckView, ManifestAck, ResponseView, TransferRequest, TransferResponse,
};
use crate::transfer::options::CompressionAlgorithm;
use crate::transfer::receive_hash::{newly_hashed, taken, IncrementalReceiveHash, ReceiveHashView};
use crate::transfer::session::{
    cancelled_with, failed_with, SessionView, TransferControlState, TransferKind, TransferSession,
    TransferState,
};

verus! {

/// The transfers that come in here.
pub struct ReceiveHandler {
    sessions: BTreeMap<u128, TransferSession>,
    sync_sessions: BTreeSet<u128>,
    hashes: BTreeMap<u128, IncrementalReceiveHash>,
}

/// The transfers that come in here, seen as plain values.
#[verifier::ext_equal]
pub struct ReceiveView {
    pub sessions: Map<u128, SessionView>,
    /// The transfers that are known to be synchronisations before they begin.
    pub sync_sessions: Set<u128>,
    /// The hashes of the files that arrive.
    pub hashes: Map<u128, ReceiveHashView>,
}

impl View for ReceiveHandler {
    type V = ReceiveView;

    closed spec fn view(&self) -> ReceiveView {
        ReceiveView {
            sessions: self.sessions@.map_values(|s: TransferSession| s@),
            sync_sessions: self.sync_sessions@,
            hashes: self.hashes@.map_values(|h: IncrementalReceiveHash| h@),
        }
    }
}

/// The transfer with an identifier, where it is known.
pub open spec fn session_at(v: ReceiveView, id: TransferSessionId) -> Option<SessionView> {
    if v.sessions.contains_key(id.id) {
        Some(v.sessions[id.id])
    } else {
        None
    }
}

/// The view of a transfer that may be missing.
pub open spec fn optional_session(s: Option<&TransferSession>) -> Option<SessionView> {
    match s {
        Some(s) => Some(s@),
        None => None,
    }
}

/// The transfer with an identifier: the one that is known, or else the one that was kept.
pub open spec fn known_session(v: ReceiveView, id: TransferSessionId, kept: Option<SessionView>) -> Option<SessionView> {
    match session_at(v, id) {
        Some(s) => Some(s),
        None => kept,
    }
}

/// A refusal to take a file.
pub open spec fn refused(reason: Seq<char>) -> ResponseView {
    ResponseView { accepted: false, rejection_reason: Some(reason), existing_chunks: Seq::empty() }
}

/// The chunks of a transfer that have arrived, as far as they are below a number.
pub open spec fn arrived_below(s: SessionView, count: u32) -> Seq<u32> {
    ascending_u32(s.tracker.completed).filter(|i: u32| i < count)
}

/// Whether a request is about the file of an earlier transfer.
pub open spec fn same_request(s: SessionView, request: TransferRequest) -> bool {
    &&& s.options.resumable
    &&& s.manifest.source_path == request.source_path@
    &&& s.manifest.dest_path == request.dest_path@
    &&& s.manifest.file_size == request.file_size
    &&& s.manifest.chunk_count == request.chunk_count
    &&& s.manifest.chunk_size == request.chunk_size
}

/// The answer to a request to take a file.
pub open spec fn request_answer(request: TransferRequest, dest_exists: bool, known: Option<SessionView>) -> ResponseView {
    if !request.options.overwrite && dest_exists {
        refused("destination already exists"@)
    } else if request.options.resumable && known is Some {
        if same_request(known->0, request) {
            ResponseView {
                accepted: true,
                rejection_reason: None,
                existing_chunks: arrived_below(known->0, request.chunk_count),
            }
        } else {
            refused("resume session mismatch"@)
        }
    } else {
        ResponseView { accepted: true, rejection_reason: None, existing_chunks: Seq::empty() }
    }
}

/// A refusal of a manifest.
pub open spec fn manifest_refused(reason: Seq<char>) -> AckView {
    AckView { accepted: false, skip_chunks: Seq::empty(), error: Some(reason) }
}

/// Whether a manifest is that of an earlier transfer.
pub open spec fn same_manifest(s: SessionView, m: ManifestView) -> bool {
    &&& s.manifest.file_size == m.file_size
    &&& s.manifest.chunk_count == m.chunk_count
    &&& s.manifest.chunk_size == m.chunk_size
    &&& s.manifest.file_hash == m.file_hash
    &&& s.manifest.source_path == m.source_path
    &&& s.manifest.dest_path == m.dest_path
}

/// Why a manifest does not go with an earlier transfer.
pub open spec fn resume_refusal(known: Option<SessionView>, m: ManifestView) -> Option<Seq<char>> {
    match known {
        None => None,
        Some(s) => if !s.options.resumable && !m.options.resumable {
            Some("session already exists"@)
        } else if !same_manifest(s, m) {
            Some("resume manifest mismatch"@)
        } else {
            None
        },
    }
}

/// The earlier transfer that a manifest may take up. What was kept counts only where the
/// transfer can be taken up.
pub open spec fn earlier_session(v: ReceiveView, m: ManifestView, kept: Option<SessionView>) -> Option<SessionView> {
    known_session(
        v,
        m.session_id,
        if m.options.resumable {
            kept
        } else {
            None
        },
    )
}

/// What a transfer is part of when it begins here.
pub open spec fn kind_of(v: ReceiveView, m: ManifestView, earlier: Option<SessionView>) -> TransferKind {
    match earlier {
        Some(s) => s.kind,
        None => if v.sync_sessions.contains(m.session_id.id) {
            TransferKind::Sync
        } else {
            TransferKind::Send
        },
    }
}

/// The chunks of an earlier transfer that count as arrived.
pub open spec fn carried_over(earlier: Option<SessionView>, count: u32) -> Set<u32> {
    match earlier {
        Some(s) => s.tracker.completed.filter(|i: u32| i < count),
        None => Set::empty(),
    }
}

/// Whether a file has no content.
pub open spec fn is_empty_file(m: ManifestView) -> bool {
    m.file_size == 0 || m.chunk_count == 0
}

/// The transfer that begins with a manifest.
pub open spec fn begun(
    v: ReceiveView,
    sender: NodeId,
    m: ManifestView,
    dest_path: Seq<char>,
    earlier: Option<SessionView>,
    now: WallTime,
) -> SessionView {
    SessionView {
        id: m.session_id,
        kind: kind_of(v, m, earlier),
        mode: m.options.mode,
        source_node: sender,
        target_nodes: Seq::empty(),
        source_path: m.source_path,
        dest_path,
        state: TransferState::InProgress,
        manifest: m,
        tracker: TrackerView {
            completed: carried_over(earlier, m.chunk_count),
            ..untouched(m.chunk_count, m.options.retry_policy.max_retries)
        },
        options: m.options,
        created_at: match earlier {
            Some(s) => s.created_at,
            None => now,
        },
        updated_at: now,
        error: None,
        control: TransferControlState::Running,
    }
}

/// The transfers after one began. The file is hashed as it arrives where its hash is wanted
/// and none of it was there before.
pub open spec fn with_begun(
    v: ReceiveView,
    sender: NodeId,
    m: ManifestView,
    dest_path: Seq<char>,
    earlier: Option<SessionView>,
    now: WallTime,
) -> ReceiveView {
    let s = begun(v, sender, m, dest_path, earlier, now);
    let id = m.session_id.id;
    ReceiveView {
        sessions: v.sessions.insert(id, s),
        sync_sessions: v.sync_sessions.remove(id),
        hashes: if s.tracker.completed.len() == 0 && !is_empty_file(m) && m.options.verify_on_complete {
            v.hashes.insert(
                id,
                ReceiveHashView {
                    algorithm: m.options.hash_algorithm,
                    next: 0,
                    pending: Map::empty(),
                    hashed: Seq::empty(),
                },
            )
        } else {
            v.hashes.remove(id)
        },
    }
}

/// What beginning a transfer came to.
#[derive(Debug)]
pub struct Opened {
    pub kind: TransferKind,
    /// The chunks that need not be sent.
    pub skip_chunks: Vec<u32>,
    /// Whether the file can be put in its place at once.
    pub finalize: bool,
}

/// What looking at a chunk came to.
#[derive(Debug, PartialEq, Eq)]
pub enum ChunkCheck {
    /// No such transfer is known.
    UnknownSession,
    /// The file has no such chunk.
    InvalidIndex,
    /// The chunk has not the length it should have.
    WrongSize,
    /// The chunk has not the checksum it should have.
    WrongChecksum,
    /// The chunk is unharmed: write it to the part of the file that begins at `offset`.
    Write { offset: u64, dest_path: String },
}

/// What is found out about a chunk, seen as plain values.
pub enum CheckView {
    UnknownSession,
    InvalidIndex,
    WrongSize,
    WrongChecksum,
    Write(u64, Seq<char>),
}

impl View for ChunkCheck {
    type V = CheckView;

    open spec fn view(&self) -> CheckView {
        match *self {
            ChunkCheck::UnknownSession => CheckView::UnknownSession,
            ChunkCheck::InvalidIndex => CheckView::InvalidIndex,
            ChunkCheck::WrongSize => CheckView::WrongSize,
            ChunkCheck::WrongChecksum => CheckView::WrongChecksum,
            ChunkCheck::Write { offset, dest_path } => CheckView::Write(offset, dest_path@),
        }
    }
}

/// What is found out about a chunk.
pub open spec fn chunk_check(s: Option<SessionView>, index: u32, data: Seq<u8>) -> CheckView {
    match s {
        None => CheckView::UnknownSession,
        Some(s) => if index >= s.manifest.chunks.len() {
            CheckView::InvalidIndex
        } else if data.len() != s.manifest.chunks[index as int].size {
            CheckView::WrongSize
        } else if chunk_checksum(data) != s.manifest.chunks[index as int].checksum {
            CheckView::WrongChecksum
        } else {
            CheckView::Write(s.manifest.chunks[index as int].offset, s.dest_path)
        },
    }
}

/// What the sender is told of a chunk that is refused.
pub open spec fn refusal_text(check: CheckView) -> Option<Seq<char>> {
    match check {
        CheckView::UnknownSession => Some("session not found"@),
        CheckView::InvalidIndex => Some("invalid chunk index"@),
        CheckView::WrongSize => Some("chunk size mismatch"@),
        CheckView::WrongChecksum => Some("checksum mismatch"@),
        CheckView::Write(_, _) => None,
    }
}

/// The error that a refused chunk comes to here. A wrong checksum is none: the chunk is sent
/// again.
pub open spec fn refusal_error(check: CheckView, id: TransferSessionId, index: u32) -> Option<ErrorView> {
    match check {
        CheckView::UnknownSession => Some(ErrorView::SessionNotFound(id)),
        CheckView::InvalidIndex | CheckView::WrongSize => Some(
            ErrorView::ChunkChecksumMismatch(index),
        ),
        CheckView::WrongChecksum | CheckView::Write(_, _) => None,
    }
}

impl ChunkCheck {
    /// What the sender is told, where the chunk is refused.
    pub fn refusal(&self) -> (text: Option<String>)
        ensures
            match text {
                Some(text) => refusal_text(self@) == Some(text@),
                None => refusal_text(self@) is None,
            },
    {
        match self {
            ChunkCheck::UnknownSession => Some(String::from_str("session not found")),
            ChunkCheck::InvalidIndex => Some(String::from_str("invalid chunk index")),
            ChunkCheck::WrongSize => Some(String::from_str("chunk size mismatch")),
            ChunkCheck::WrongChecksum => Some(String::from_str("checksum mismatch")),
            ChunkCheck::Write { .. } => None,
        }
    }

    /// The error that the chunk comes to here.
    pub fn error(&self, id: TransferSessionId, index: u32) -> (error: Option<FileTransferError>)
        ensures
            match error {
                Some(error) => refusal_error(self@, id, index) == Some(error@),
                None => refusal_error(self@, id, index) is None,
            },
    {
        match self {
            ChunkCheck::UnknownSession => Some(FileTransferError::SessionNotFound(id)),
            ChunkCheck::InvalidIndex | ChunkCheck::WrongSize => Some(
                FileTransferError::ChunkChecksumMismatch { index },
            ),
            ChunkCheck::WrongChecksum | ChunkCheck::Write { .. } => None,
        }
    }
}

/// What noting a chunk came to.
#[derive(Debug, Clone, Copy, PartialEq, Eq, Structural)]
pub enum Noted {
    /// No such transfer is known.
    UnknownSession,
    /// The transfer is over: it failed or was cancelled.
    Stopped,
    /// The chunk counts as arrived. Where `keep` is set, that is to be written down before
    /// the sender is told.
    Arrived { keep: bool },
}

/// What became of a chunk that came in.
#[derive(Debug, Clone, Copy, PartialEq, Eq, Structural)]
pub struct ReceiveOutcome {
    pub session_id: TransferSessionId,
    pub chunk_index: u32,
    pub verified: bool,
    pub completed: bool,
}

impl ReceiveOutcome {
    /// The chunk is to be sent again.
    pub fn refused(session_id: TransferSessionId, chunk_index: u32) -> (outcome: Self)
        ensures
            outcome == (ReceiveOutcome {
                session_id,
                chunk_index,
                verified: false,
                completed: false,
            }),
    {
        ReceiveOutcome { session_id, chunk_index, verified: false, completed: false }
    }

    /// The chunk has arrived, and the whole file with it where `completed` is set.
    pub fn arrived(session_id: TransferSessionId, chunk_index: u32, completed: bool) -> (outcome: Self)
        ensures
            outcome == (ReceiveOutcome { session_id, chunk_index, verified: true, completed }),
    {
        ReceiveOutcome { session_id, chunk_index, verified: true, completed }
    }
}

/// A transfer with one of its chunks noted as arrived.
pub open spec fn with_chunk(s: SessionView, index: u32, now: WallTime) -> SessionView {
    SessionView { tracker: chunk_completed(s.tracker, index), updated_at: now, ..s }
}

/// A transfer with one of its chunks taken back.
pub open spec fn without_chunk(s: SessionView, index: u32, now: WallTime) -> SessionView {
    SessionView {
        tracker: chunk_failed(
            TrackerView { completed: s.tracker.completed.remove(index), ..s.tracker },
            index,
        ),
        updated_at: now,
        ..s
    }
}

/// Whether a transfer can be finished now.
pub open spec fn is_due(s: SessionView) -> bool {
    all_arrived(s.tracker) && s.state is InProgress
}

/// The transfers after a chunk that was noted was hashed, and after the transfer that it
/// completes went over to being verified.
pub open spec fn settled(v: ReceiveView, id: TransferSessionId, index: u32, data: Seq<u8>) -> ReceiveView {
    ReceiveView {
        sessions: if v.sessions.contains_key(id.id) && is_due(v.sessions[id.id]) {
            v.sessions.insert(
                id.id,
                SessionView { state: TransferState::Verifying, ..v.sessions[id.id] },
            )
        } else {
            v.sessions
        },
        hashes: if v.hashes.contains_key(id.id) {
            v.hashes.insert(id.id, taken(v.hashes[id.id], index, data))
        } else {
            v.hashes
        },
        ..v
    }
}

fn members_below(numbers: &BTreeSet<u32>, count: u32) -> (list: Vec<u32>)
    ensures
        list@ == ascending_u32(numbers@).filter(|i: u32| i < count),
        forall|k: u32| #[trigger] list@.contains(k) <==> numbers@.contains(k) && k < count,
{
    let ghost below = |i: u32| i < count;
    let all = sorted_members_u32(numbers);
    proof {
        ascending_is_u32(numbers@, all@);
        reveal(Seq::filter);
        assert(all@.take(0).filter(below) =~= Seq::<u32>::empty());
    }
    let mut list: Vec<u32> = Vec::new();
    let mut i: usize = 0;
    while i < all.len()
        invariant
            i <= all@.len(),
            below == (|i: u32| i < count),
            list@ == all@.take(i as int).filter(below),
        decreases all@.len() - i,
    {
        proof {
            reveal(Seq::filter);
            assert(all@.take(i + 1).drop_last() =~= all@.take(i as int));
            assert(all@.take(i + 1).last() == all@[i as int]);
        }
        if all[i] < count {
            list.push(all[i]);
        }
        i = i + 1;
    }
    proof {
        assert(all@.take(all@.len() as int) =~= all@);
        assert forall|k: u32| #[trigger] list@.contains(k) <==> numbers@.contains(k) && k < count by {
            if list@.contains(k) {
                all@.lemma_filter_contains_rev(below, k);
                let j = choose|j: int| 0 <= j < list@.len() && list@[j] == k;
                all@.lemma_filter_pred(below, j);
            }
            if numbers@.contains(k) && k < count {
                assert(all@.contains(k));
                let j = choose|j: int| 0 <= j < all@.len() && all@[j] == k;
                all@.lemma_filter_contains(below, j);
            }
        }
    }
    list
}

fn set_of(list: &Vec<u32>) -> (numbers: BTreeSet<u32>)
    ensures
        forall|k: u32| #[trigger] numbers@.contains(k) <==> list@.contains(k),
{
    let mut numbers: BTreeSet<u32> = BTreeSet::new();
    let mut i: usize = 0;
    while i < list.len()
        invariant
            i <= list@.len(),
            forall|k: u32| #[trigger] numbers@.contains(k) <==> list@.take(i as int).contains(k),
        decreases list@.len() - i,
    {
        let ghost shorter = list@.take(i as int);
        let ghost longer = list@.take(i + 1);
        let ghost before = numbers@;
        numbers.insert(list[i]);
        assert forall|k: u32| #[trigger] numbers@.contains(k) <==> longer.contains(k) by {
            if longer.contains(k) {
                let j = choose|j: int| 0 <= j < longer.len() && longer[j] == k;
                if j < shorter.len() {
                    assert(shorter[j] == k);
                }
            }
            if shorter.contains(k) {
                let j = choose|j: int| 0 <= j < shorter.len() && shorter[j] == k;
                assert(longer[j] == k);
            }
            assert(longer[i as int] == list@[i as int]);
            assert(before.contains(k) <==> shorter.contains(k));
        }
        i = i + 1;
    }
    assert(list@.take(list@.len() as int) =~= list@);
    numbers
}

pub(crate) fn refuse(reason: &str) -> (response: TransferResponse)
    ensures
        response@ == refused(reason@),
{
    let response = TransferResponse {
        accepted: false,
        rejection_reason: Some(String::from_str(reason)),
        existing_chunks: Vec::new(),
    };
    assert(response@.existing_chunks =~= Seq::empty());
    response
}

pub(crate) fn refuse_manifest(reason: String) -> (ack: ManifestAck)
    ensures
        ack@ == manifest_refused(reason@),
{
    let ack = ManifestAck { accepted: false, skip_chunks: Vec::new(), error: Some(reason) };
    assert(ack@.skip_chunks =~= Seq::empty());
    ack
}

impl ReceiveHandler {
    /// Every hash works.
    pub closed spec fn wf(&self) -> bool {
        forall|id: u128| #[trigger] self.hashes@.contains_key(id) ==> self.hashes@[id].wf()
    }

    /// No transfers.
    pub fn new() -> (handler: Self)
        ensures
            handler.wf(),
            handler@ == (ReceiveView {
                sessions: Map::empty(),
                sync_sessions: Set::empty(),
                hashes: Map::empty(),
            }),
    {
        let handler = ReceiveHandler {
            sessions: BTreeMap::new(),
            sync_sessions: BTreeSet::new(),
            hashes: BTreeMap::new(),
        };
        assert(handler@ =~= (ReceiveView {
            sessions: Map::empty(),
            sync_sessions: Set::empty(),
            hashes: Map::empty(),
        }));
        handler
    }

    /// A copy of a transfer.
    pub fn session_snapshot(&self, id: TransferSessionId) -> (session: Option<TransferSession>)
        ensures
            match session {
                Some(s) => session_at(self@, id) == Some(s@),
                None => session_at(self@, id) is None,
            },
    {
        match self.sessions.get(&id.id) {
            Some(session) => Some(session.clone()),
            None => None,
        }
    }

    /// The identifiers of the transfers, in increasing order.
    pub(crate) fn session_ids(&self) -> (ids: Vec<u128>)
        ensures
            ids@ == ascending_u128(self@.sessions.dom()),
            forall|i: int| 0 <= i < ids@.len() ==> self@.sessions.contains_key(#[trigger] ids@[i]),
    {
        let ids = sorted_keys_u128(&self.sessions);
        proof {
            assert(self@.sessions.dom() =~= self.sessions@.dom());
            ascending_is_u128(self@.sessions.dom(), ids@);
            assert forall|i: int| 0 <= i < ids@.len() implies self@.sessions.contains_key(
                #[trigger] ids@[i],
            ) by {
                assert(ids@.contains(ids@[i]));
            }
        }
        ids
    }

    /// A transfer, where it is known.
    pub(crate) fn session(&self, id: u128) -> (session: Option<&TransferSession>)
        ensures
            optional_session(session) == (if self@.sessions.contains_key(id) {
                Some(self@.sessions[id])
            } else {
                None
            }),
    {
        self.sessions.get(&id)
    }

    /// Notes that a transfer will be part of a synchronisation.
    pub fn mark_sync_session(&mut self, id: TransferSessionId)
        requires
            old(self).wf(),
        ensures
            final(self).wf(),
            final(self)@ == (ReceiveView {
                sync_sessions: old(self)@.sync_sessions.insert(id.id),
                ..old(self)@
            }),
    {
        let ghost before = self@;
        self.sync_sessions.insert(id.id);
        assert(self@ =~= (ReceiveView {
            sync_sessions: before.sync_sessions.insert(id.id),
            ..before
        }));
    }

    /// Forgets the hash of a file that will not arrive whole.
    pub fn discard_incremental_hash(&mut self, id: TransferSessionId)
        requires
            old(self).wf(),
        ensures
            final(self).wf(),
            final(self)@ == (ReceiveView { hashes: old(self)@.hashes.remove(id.id), ..old(self)@ }),
    {
        let ghost before = self@;
        self.hashes.remove(&id.id);
        assert(self@ =~= (ReceiveView { hashes: before.hashes.remove(id.id), ..before }));
    }

    /// The answer to a request to take a file. `dest_exists` is whether there is something in
    /// the file's place, and `kept` the transfer as it was kept between runs.
    pub fn handle_transfer_request(
        &self,
        id: TransferSessionId,
        request: &TransferRequest,
        dest_exists: bool,
        kept: Option<&TransferSession>,
    ) -> (response: TransferResponse)
        ensures
            response@ == request_answer(
                *request,
                dest_exists,
                known_session(self@, id, optional_session(kept)),
            ),
    {
        if !request.options.overwrite && dest_exists {
            return refuse("destination already exists");
        }
        let mut existing: Vec<u32> = Vec::new();
        if request.options.resumable {
            let known = match self.sessions.get(&id.id) {
                Some(session) => Some(session),
                None => kept,
            };
            if let Some(session) = known {
                if !session.options.resumable || !text_equal(
                    session.manifest.source_path.as_str(),
                    request.source_path.as_str(),
                ) || !text_equal(session.manifest.dest_path.as_str(), request.dest_path.as_str())
                    || session.manifest.file_size != request.file_size || session.manifest.chunk_count
                    != request.chunk_count || session.manifest.chunk_size != request.chunk_size {
                    return refuse("resume session mismatch");
                }
                existing = members_below(&session.chunk_tracker.completed, request.chunk_count);
                let response = TransferResponse {
                    accepted: true,
                    rejection_reason: None,
                    existing_chunks: existing,
                };
                return response;
            }
        }
        let response = TransferResponse {
            accepted: true,
            rejection_reason: None,
            existing_chunks: existing,
        };
        assert(response@.existing_chunks =~= Seq::empty());
        response
    }

    /// The refusal of a manifest that contradicts itself.
    pub fn refuse_invalid(manifest: &TransferManifest) -> (refusal: Option<ManifestAck>)
        ensures
            match refusal {
                Some(ack) => {
                    &&& !manifest_is_valid(manifest@)
                    &&& exists|error| #[trigger]
                        manifest_fault(manifest@, error) && ack@ == manifest_refused(
                            manifest_error_text(error),
                        )
                },
                None => manifest_is_valid(manifest@),
            },
    {
        match manifest.validate() {
            Ok(()) => None,
            Err(error) => {
                let ack = refuse_manifest(error.message());
                assert(manifest_fault(manifest@, error) && ack@ == manifest_refused(
                    manifest_error_text(error),
                ));
                Some(ack)
            },
        }
    }

    /// The refusal of a manifest that does not go with an earlier transfer. Nothing changes.
    pub fn refuse_mismatch(&self, manifest: &TransferManifest, kept: Option<&TransferSession>) -> (refusal: Option<
        ManifestAck,
    >)
        ensures
            match refusal {
                Some(ack) => resume_refusal(
                    earlier_session(self@, manifest@, optional_session(kept)),
                    manifest@,
                ) matches Some(reason) && ack@ == manifest_refused(reason),
                None => resume_refusal(
                    earlier_session(self@, manifest@, optional_session(kept)),
                    manifest@,
                ) is None,
            },
    {
        let earlier = match self.sessions.get(&manifest.session_id.id) {
            Some(session) => Some(session),
            None => if manifest.options.resumable {
                kept
            } else {
                None
            },
        };
        let session = match earlier {
            Some(session) => session,
            None => {
                return None;
            },
        };
        if !session.options.resumable && !manifest.options.resumable {
            return Some(refuse_manifest(String::from_str("session already exists")));
        }
        if session.manifest.file_size != manifest.file_size || session.manifest.chunk_count
            != manifest.chunk_count || session.manifest.chunk_size != manifest.chunk_size
            || !bytes_equal(
            session.manifest.file_hash.as_slice(),
            manifest.file_hash.as_slice(),
        ) || !text_equal(
            session.manifest.source_path.as_str(),
            manifest.source_path.as_str(),
        ) || !text_equal(session.manifest.dest_path.as_str(), manifest.dest_path.as_str()) {
            return Some(refuse_manifest(String::from_str("resume manifest mismatch")));
        }
        None
    }

    /// Begins a transfer whose manifest was not refused.
    pub fn open_session(
        &mut self,
        sender: NodeId,
        manifest: TransferManifest,
        dest_path: String,
        kept: Option<&TransferSession>,
        now: WallTime,
    ) -> (opened: Opened)
        requires
            old(self).wf(),
        ensures
            final(self).wf(),
            ({
                let earlier = earlier_session(old(self)@, manifest@, optional_session(kept));
                let s = begun(old(self)@, sender, manifest@, dest_path@, earlier, now);
                &&& final(self)@ == with_begun(
                    old(self)@,
                    sender,
                    manifest@,
                    dest_path@,
                    earlier,
                    now,
                )
                &&& opened.kind == s.kind
                &&& opened.skip_chunks@ == ascending_u32(s.tracker.completed)
                &&& opened.finalize == (is_empty_file(manifest@) || all_arrived(s.tracker))
            }),
    {
        let ghost before = self@;
        let ghost m = manifest@;
        let ghost earlier = earlier_session(before, m, optional_session(kept));
        let id: u128 = manifest.session_id.id;
        let count: u32 = manifest.chunk_count;
        let options = manifest.options;
        let is_empty = manifest.file_size == 0 || count == 0;
        let mut tracker = ChunkTracker::new(count, options.retry_policy.max_retries);
        let mut created_at = now;
        let mut kind = TransferKind::Send;
        let was_sync = self.sync_sessions.remove(&id);
        if was_sync {
            kind = TransferKind::Sync;
        }
        let known = match self.sessions.get(&id) {
            Some(session) => Some(session),
            None => if options.resumable {
                kept
            } else {
                None
            },
        };
        if let Some(session) = known {
            kind = session.kind;
            created_at = session.created_at;
            let below = members_below(&session.chunk_tracker.completed, count);
            tracker.completed = set_of(&below);
        }
        let ghost s = begun(before, sender, m, dest_path@, earlier, now);
        proof {
            assert(tracker.completed@ =~= carried_over(earlier, count));
            assert(tracker@ =~= s.tracker);
        }
        let skip_chunks = sorted_members_u32(&tracker.completed);
        proof {
            ascending_is_u32(tracker.completed@, skip_chunks@);
            assert(skip_chunks@.len() == tracker.completed@.len());
        }
        let complete = tracker.is_complete();
        let source_path = manifest.source_path.clone();
        let mut session = TransferSession::new(
            manifest.session_id,
            kind,
            options.mode,
            sender,
            Vec::new(),
            source_path,
            dest_path,
            manifest,
            tracker,
            options,
            now,
        );
        session.created_at = created_at;
        session.state = TransferState::InProgress;
        assert(session@ =~= s);
        self.sessions.insert(id, session);
        self.hashes.remove(&id);
        if skip_chunks.len() == 0 && !is_empty && options.verify_on_complete {
            self.hashes.insert(id, IncrementalReceiveHash::new(options.hash_algorithm));
        }
        assert(self@ =~= with_begun(before, sender, m, dest_path@, earlier, now));
        Opened { kind, skip_chunks, finalize: is_empty || complete }
    }

    /// Forgets a transfer whose file could not be put in its place at once.
    pub fn abandon(&mut self, id: TransferSessionId)
        requires
            old(self).wf(),
        ensures
            final(self).wf(),
            final(self)@ == (ReceiveView {
                sessions: old(self)@.sessions.remove(id.id),
                ..old(self)@
            }),
    {
        let ghost before = self@;
        self.sessions.remove(&id.id);
        assert(self@ =~= (ReceiveView { sessions: before.sessions.remove(id.id), ..before }));
    }

    /// How the bytes of a chunk are compressed and how many they stand for, where the
    /// transfer is known.
    pub fn payload_rule(&self, id: TransferSessionId, index: u32) -> (rule: Option<
        (CompressionAlgorithm, Option<usize>),
    >)
        ensures
            rule == (match session_at(self@, id) {
                None => None,
                Some(s) => Some(
                    (
                        s.options.compression,
                        if index < s.manifest.chunks.len() {
                            Some(s.manifest.chunks[index as int].size as usize)
                        } else {
                            None
                        },
                    ),
                ),
            }),
    {
        match self.sessions.get(&id.id) {
            None => None,
            Some(session) => {
                let size = if (index as usize) < session.manifest.chunks.len() {
                    Some(session.manifest.chunks[index as usize].size as usize)
                } else {
                    None
                };
                Some((session.options.compression, size))
            },
        }
    }

    /// What the transfer is told, and what it is part of, where it is known.
    pub fn control_of(&self, id: TransferSessionId) -> (control: Option<
        (TransferControlState, TransferKind),
    >)
        ensures
            control == (match session_at(self@, id) {
                None => None,
                Some(s) => Some((s.control, s.kind)),
            }),
    {
        match self.sessions.get(&id.id) {
            None => None,
            Some(session) => Some((session.control, session.kind)),
        }
    }

    /// Takes a transfer out.
    pub(crate) fn take_session(&mut self, id: TransferSessionId) -> (session: Option<TransferSession>)
        requires
            old(self).wf(),
        ensures
            final(self).wf(),
            match session {
                Some(s) => {
                    &&& session_at(old(self)@, id) == Some(s@)
                    &&& final(self)@ == (ReceiveView {
                        sessions: old(self)@.sessions.remove(id.id),
                        ..old(self)@
                    })
                },
                None => session_at(old(self)@, id) is None && final(self)@ == old(self)@,
            },
    {
        let ghost before = self@;
        let session = self.sessions.remove(&id.id);
        assert(self@.sessions =~= before.sessions.remove(id.id));
        if session.is_none() {
            assert(self@ =~= before);
        }
        session
    }

    /// Puts a transfer in.
    pub(crate) fn put_session(&mut self, id: TransferSessionId, session: TransferSession)
        requires
            old(self).wf(),
        ensures
            final(self).wf(),
            final(self)@ == (ReceiveView {
                sessions: old(self)@.sessions.insert(id.id, session@),
                ..old(self)@
            }),
    {
        let ghost before = self@;
        self.sessions.insert(id.id, session);
        assert(self@ =~= (ReceiveView {
            sessions: before.sessions.insert(id.id, session@),
            ..before
        }));
    }

    /// Looks at the uncompressed bytes of a chunk. A wrong checksum is noted.
    pub fn check_chunk(&mut self, id: TransferSessionId, index: u32, data: &[u8]) -> (check: ChunkCheck)
        requires
            old(self).wf(),
        ensures
            final(self).wf(),
            check@ == chunk_check(session_at(old(self)@, id), index, data@),
            final(self)@ == (if check@ is WrongChecksum {
                ReceiveView {
                    sessions: old(self)@.sessions.insert(
                        id.id,
                        SessionView {
                            tracker: chunk_failed(old(self)@.sessions[id.id].tracker, index),
                            ..old(self)@.sessions[id.id]
                        },
                    ),
                    ..old(self)@
                }
            } else {
                old(self)@
            }),
    {
        let ghost before = self@;
        let n: usize = data.len();
        let (meta, dest_path) = match self.sessions.get(&id.id) {
            None => {
                return ChunkCheck::UnknownSession;
            },
            Some(session) => {
                if (index as usize) >= session.manifest.chunks.len() {
                    return ChunkCheck::InvalidIndex;
                }
                (session.manifest.chunks[index as usize], session.dest_path.clone())
            },
        };
        if n != meta.size as usize {
            return ChunkCheck::WrongSize;
        }
        let checksum: u64 = IntegrityVerifier::compute_chunk_checksum(data);
        if checksum != meta.checksum {
            if let Some(session) = self.take_session(id) {
                let mut session = session;
                session.chunk_tracker.mark_failed(index);
                self.put_session(id, session);
                assert(self@.sessions =~= before.sessions.insert(id.id, session@));
            }
            return ChunkCheck::WrongChecksum;
        }
        ChunkCheck::Write { offset: meta.offset, dest_path }
    }

    /// Notes that a chunk has been written.
    pub fn note_chunk(&mut self, id: TransferSessionId, index: u32, now: WallTime) -> (noted: Noted)
        requires
            old(self).wf(),
        ensures
            final(self).wf(),
            match session_at(old(self)@, id) {
                None => noted == Noted::UnknownSession && final(self)@ == old(self)@,
                Some(s) => if s.state is Cancelled || s.state is Failed {
                    noted == Noted::Stopped && final(self)@ == old(self)@
                } else {
                    &&& noted == (Noted::Arrived { keep: s.options.resumable })
                    &&& final(self)@ == (ReceiveView {
                        sessions: old(self)@.sessions.insert(id.id, with_chunk(s, index, now)),
                        ..old(self)@
                    })
                },
            },
    {
        let ghost before = self@;
        let session = match self.take_session(id) {
            None => {
                return Noted::UnknownSession;
            },
            Some(session) => session,
        };
        let mut session = session;
        let stopped = match session.state {
            TransferState::Cancelled | TransferState::Failed => true,
            _ => false,
        };
        if stopped {
            self.put_session(id, session);
            assert(self@.sessions =~= before.sessions);
            return Noted::Stopped;
        }
        session.chunk_tracker.mark_completed(index);
        session.updated_at = now;
        let keep = session.options.resumable;
        self.put_session(id, session);
        assert(self@.sessions =~= before.sessions.insert(id.id, session@));
        Noted::Arrived { keep }
    }

    /// Takes a chunk back that could not be written down.
    pub fn take_back_chunk(&mut self, id: TransferSessionId, index: u32, now: WallTime)
        requires
            old(self).wf(),
        ensures
            final(self).wf(),
            final(self)@ == (match session_at(old(self)@, id) {
                None => old(self)@,
                Some(s) => ReceiveView {
                    sessions: old(self)@.sessions.insert(id.id, without_chunk(s, index, now)),
                    ..old(self)@
                },
            }),
    {
        let ghost before = self@;
        if let Some(session) = self.take_session(id) {
            let mut session = session;
            session.chunk_tracker.forget_completed(index);
            session.chunk_tracker.mark_failed(index);
            session.updated_at = now;
            self.put_session(id, session);
            assert(self@.sessions =~= before.sessions.insert(id.id, session@));
        }
    }

    /// Hashes a chunk that was noted, and tells how many bytes were hashed on that and
    /// whether the file is to be put in its place now. That is told once for each transfer.
    pub fn settle_chunk(&mut self, id: TransferSessionId, index: u32, data: Vec<u8>) -> (r: (u64, bool))
        requires
            old(self).wf(),
        ensures
            final(self).wf(),
            final(self)@ == settled(old(self)@, id, index, data@),
            r.1 == (session_at(old(self)@, id) matches Some(s) && is_due(s)),
            r.0 == (if old(self)@.hashes.contains_key(id.id) {
                newly_hashed(old(self)@.hashes[id.id], index, data@)
            } else {
                0
            }),
    {
        let ghost before = self@;
        let mut bytes_hashed: u64 = 0;
        let ghost bytes = data@;
        let held = self.hashes.remove(&id.id);
        match held {
            Some(hash) => {
                let mut hash = hash;
                assert(hash.wf());
                bytes_hashed = hash.record(index, data);
                self.hashes.insert(id.id, hash);
                assert(self@.hashes =~= before.hashes.insert(
                    id.id,
                    taken(before.hashes[id.id], index, bytes),
                ));
            },
            None => {
                assert(self@.hashes =~= before.hashes);
            },
        }
        let ghost hashed = self@;
        let mut due = false;
        if let Some(session) = self.take_session(id) {
            let mut session = session;
            let in_progress = match session.state {
                TransferState::InProgress => true,
                _ => false,
            };
            due = session.chunk_tracker.is_complete() && in_progress;
            if due {
                session.state = TransferState::Verifying;
            }
            self.put_session(id, session);
            if due {
                assert(self@.sessions =~= before.sessions.insert(id.id, session@));
            } else {
                assert(self@.sessions =~= before.sessions);
            }
        }
        assert(self@ =~= settled(before, id, index, bytes));
        (bytes_hashed, due)
    }

    /// The hash of the file, where it was hashed whole as it arrived.
    pub fn take_hash(&mut self, id: TransferSessionId, chunk_count: u32) -> (hash: Option<Vec<u8>>)
        requires
            old(self).wf(),
        ensures
            final(self).wf(),
            final(self)@ == (ReceiveView { hashes: old(self)@.hashes.remove(id.id), ..old(self)@ }),
            match hash {
                Some(hash) => {
                    &&& old(self)@.hashes.contains_key(id.id)
                    &&& old(self)@.hashes[id.id].next == chunk_count
                    &&& old(self)@.hashes[id.id].pending.dom().len() == 0
                    &&& hash@ == hash_of(
                        old(self)@.hashes[id.id].algorithm,
                        old(self)@.hashes[id.id].hashed,
                    )
                },
                None => old(self)@.hashes.contains_key(id.id) ==> old(self)@.hashes[id.id].next
                    != chunk_count || old(self)@.hashes[id.id].pending.dom().len() != 0,
            },
    {
        let ghost before = self@;
        let held = self.hashes.remove(&id.id);
        assert(self@ =~= (ReceiveView { hashes: before.hashes.remove(id.id), ..before }));
        match held {
            Some(state) => state.finish(chunk_count),
            None => None,
        }
    }

    /// Notes that the file could not be put in its place. Tells whether that is to be
    /// written down, where the transfer is known.
    pub fn fail_session(&mut self, id: TransferSessionId, error: &FileTransferError, now: WallTime) -> (keep: Option<
        bool,
    >)
        requires
            old(self).wf(),
        ensures
            final(self).wf(),
            match session_at(old(self)@, id) {
                None => keep is None && final(self)@ == old(self)@,
                Some(s) => {
                    &&& keep == Some(s.options.resumable)
                    &&& final(self)@ == (ReceiveView {
                        sessions: old(self)@.sessions.insert(
                            id.id,
                            failed_with(s, error_text(error@), now),
                        ),
                        ..old(self)@
                    })
                },
            },
    {
        let ghost before = self@;
        match self.take_session(id) {
            None => None,
            Some(session) => {
                let mut session = session;
                session.fail(error.message(), now);
                let keep = session.options.resumable;
                self.put_session(id, session);
                assert(self@.sessions =~= before.sessions.insert(id.id, session@));
                Some(keep)
            },
        }
    }

    /// Notes that the file is in its place. Tells whether that is to be written down, and
    /// how many milliseconds the transfer took, where it is known.
    pub fn complete_session(&mut self, id: TransferSessionId, now: WallTime) -> (r: Option<(bool, u64)>)
        requires
            old(self).wf(),
        ensures
            final(self).wf(),
            match session_at(old(self)@, id) {
                None => r is None && final(self)@ == old(self)@,
                Some(s) => {
                    &&& r == Some((s.options.resumable, millis_between(s.created_at, now)))
                    &&& final(self)@ == (ReceiveView {
                        sessions: old(self)@.sessions.insert(
                            id.id,
                            SessionView { state: TransferState::Completed, updated_at: now, ..s },
                        ),
                        ..old(self)@
                    })
                },
            },
    {
        let ghost before = self@;
        match self.take_session(id) {
            None => None,
            Some(session) => {
                let mut session = session;
                session.set_state(TransferState::Completed, now);
                let keep = session.options.resumable;
                let millis: u64 = match now.duration_since(session.created_at) {
                    Some(span) => span.as_millis(),
                    None => 0,
                };
                self.put_session(id, session);
                assert(self@.sessions =~= before.sessions.insert(id.id, session@));
                Some((keep, millis))
            },
        }
    }

    /// Notes that a transfer was cancelled. Tells whether it was active until now and
    /// whether that is to be written down, where it is known. Its hash is forgotten.
    pub fn cancel_session(&mut self, id: TransferSessionId, reason: String, now: WallTime) -> (r: Option<
        (bool, bool),
    >)
        requires
            old(self).wf(),
        ensures
            final(self).wf(),
            match session_at(old(self)@, id) {
                None => {
                    &&& r is None
                    &&& final(self)@ == (ReceiveView {
                        hashes: old(self)@.hashes.remove(id.id),
                        ..old(self)@
                    })
                },
                Some(s) => {
                    &&& r == Some((s.state.active(), s.options.resumable))
                    &&& final(self)@ == (ReceiveView {
                        sessions: old(self)@.sessions.insert(
                            id.id,
                            cancelled_with(s, reason@, now),
                        ),
                        hashes: old(self)@.hashes.remove(id.id),
                        ..old(self)@
                    })
                },
            },
    {
        let ghost before = self@;
        let r = match self.take_session(id) {
            None => None,
            Some(session) => {
                let mut session = session;
                let was_active = session.state.is_active();
                session.cancel(reason, now);
                let keep = session.options.resumable;
                self.put_session(id, session);
                assert(self@.sessions =~= before.sessions.insert(id.id, session@));
                Some((was_active, keep))
            },
        };
        self.discard_incremental_hash(id);
        r
    }
}

/// The whole milliseconds from one time to another, none where that is earlier.
pub open spec fn millis_between(from: WallTime, to: WallTime) -> u64 {
    match to.since(from) {
        None => 0,
        Some(nanos) => if nanos / 1_000_000 <= u64::MAX {
            (nanos / 1_000_000) as u64
        } else {
            u64::MAX
        },
    }
}

/// The uncompressed bytes of a chunk, or what its sender is told.
pub fn unpack_chunk(payload: &[u8], compression: CompressionAlgorithm, expected_size: Option<usize>) -> (r: Result<
    Vec<u8>,
    String,
>)
    requires
        expected_size matches Some(size) ==> size <= isize::MAX,
    ensures
        match r {
            Ok(data) => decompressed(payload@, compression) == Some(data@),
            Err(text) => {
                &&& decompressed(payload@, compression) is None
                &&& exists|why: Seq<char>|
                    text@ == "chunk decompression failed: "@ + #[trigger] error_text(
                        ErrorView::Compression(why),
                    )
            },
        },
{
    match decompress_bytes(payload, compression, expected_size) {
        Ok(data) => Ok(data),
        Err(error) => {
            let text = String::from_str("chunk decompression failed: ").concat(
                error.message().as_str(),
            );
            proof {
                let why = error@->Compression_0;
                assert(error@ == ErrorView::Compression(why));
                assert(text@ == "chunk decompression failed: "@ + error_text(
                    ErrorView::Compression(why),
                ));
            }
            Err(text)
        },
    }
}

/// Whether the file that arrived is the one that was announced.
pub fn check_file_hash(manifest: &TransferManifest, computed: &[u8]) -> (r: Result<(), FileTransferError>)
    ensures
        match r {
            Ok(()) => !manifest@.options.verify_on_complete || computed@ == manifest@.file_hash,
            Err(error) => {
                &&& manifest@.options.verify_on_complete
                &&& computed@ != manifest@.file_hash
                &&& error@ == ErrorView::FileHashMismatch
            },
        },
{
    if manifest.options.verify_on_complete && !bytes_equal(
        computed,
        manifest.file_hash.as_slice(),
    ) {
        Err(FileTransferError::FileHashMismatch)
    } else {
        Ok(())
    }
}

/// Whether the file may take its place.
pub fn check_destination(manifest: &TransferManifest, dest_exists: bool, dest_path: &str) -> (r: Result<
    (),
    FileTransferError,
>)
    ensures
        match r {
            Ok(()) => manifest@.options.overwrite || !dest_exists,
            Err(error) => {
                &&& !manifest@.options.overwrite
                &&& dest_exists
                &&& error@ == ErrorView::FileAlreadyExists(dest_path@)
            },
        },
{
    if !manifest.options.overwrite && dest_exists {
        Err(FileTransferError::FileAlreadyExists(String::from_str(dest_path)))
    } else {
        Ok(())
    }
}

/// What is set on a file beside its content: its permissions and the second of its last
/// change.
#[derive(Debug, Clone, Copy, PartialEq, Eq, Structural)]
pub struct PreservedMetadata {
    pub permissions: Option<u32>,
    pub modified_at: Option<i64>,
}

/// What is set on a file beside its content.
pub fn apply_preserved_metadata(metadata: &FileMetadata) -> (r: Result<PreservedMetadata, FileTransferError>)
    ensures
        match r {
            Ok(set) => {
                &&& set.permissions == metadata.permissions
                &&& match metadata.modified_at {
                    Some(at) => at <= i64::MAX && set.modified_at == Some(at as i64),
                    None => set.modified_at is None,
                }
            },
            Err(error) => {
                &&& metadata.modified_at matches Some(at) && at > i64::MAX
                &&& error@ == ErrorView::Internal("modified time does not fit in i64"@)
            },
        },
{
    let modified_at = match metadata.modified_at {
        None => None,
        Some(at) => {
            if at > i64::MAX as u64 {
                return Err(internal("modified time does not fit in i64"));
            }
            Some(at as i64)
        },
    };
    Ok(PreservedMetadata { permissions: metadata.permissions, modified_at })
}

/// What is set on a file beside its content, where that is to be preserved and known.
pub fn preserved(manifest: &TransferManifest) -> (metadata: Option<FileMetadata>)
    ensures
        metadata == (if manifest@.options.preserve_metadata {
            manifest@.metadata
        } else {
            None
        }),
{
    if manifest.options.preserve_metadata {
        manifest.metadata
    } else {
        None
    }
}

/// The name of the file that chunks are written to until the file is whole.
pub open spec fn part_name(dest_path: Seq<char>, id: TransferSessionId) -> Seq<char> {
    (match file_name(path_of(dest_path)) {
        Some(name) => name,
        None => "transfer"@,
    }) + "."@ + session_text(id) + ".part"@
}

/// The file that chunks are written to until the file is whole: in a directory of its own
/// where one is configured, else beside the file's place.
pub fn temp_path_for(temp_dir: Option<&str>, dest_path: &str, id: TransferSessionId) -> (path: String)
    ensures
        path@ == (match temp_dir {
            Some(dir) => joined(dir@, "session_"@ + session_text(id) + ".tmp"@),
            None => plain_text(renamed(path_of(dest_path@), part_name(dest_path@, id))),
        }),
{
    if let Some(dir) = temp_dir {
        let mut name = String::from_str("session_");
        name.append(id.text().as_str());
        name.append(".tmp");
        return join(dir, name.as_str());
    }
    let parts = parse(dest_path);
    let mut name = match name_of(&parts) {
        Some(name) => name,
        None => String::from_str("transfer"),
    };
    name.append(".");
    name.append(id.text().as_str());
    name.append(".part");
    assert(name@ =~= part_name(dest_path@, id));
    let whole = with_name(parts, name);
    let n: usize = whole.steps.len();
    render(&whole, n)
}

/// The manifest of the same file takes an earlier transfer up wherever one of the two can be
/// resumed, and only then. What has arrived of the file is what had arrived, as far as the
/// file has such chunks.
pub proof fn only_the_same_file_is_resumed(
    v: ReceiveView,
    sender: NodeId,
    m: ManifestView,
    dest_path: Seq<char>,
    kept: Option<SessionView>,
    now: WallTime,
)
    ensures
        ({
            let earlier = earlier_session(v, m, kept);
            let s = begun(v, sender, m, dest_path, earlier, now);
            &&& resume_refusal(earlier, m) is None <==> earlier is None || (same_manifest(
                earlier->0,
                m,
            ) && (earlier->0.options.resumable || m.options.resumable))
            &&& earlier is None ==> s.tracker.completed =~= Set::empty()
            &&& earlier is Some ==> forall|i: u32| #[trigger]
                s.tracker.completed.contains(i) <==> earlier->0.tracker.completed.contains(i) && i
                    < m.chunk_count
        }),
{
}

/// What the receiver offers to skip when it is asked is what it skips when it is sent the
/// manifest of the same file.
pub proof fn offer_is_kept(
    v: ReceiveView,
    request: TransferRequest,
    m: ManifestView,
    kept: Option<SessionView>,
    i: u32,
)
    requires
        request.options == m.options,
        request.chunk_count == m.chunk_count,
        m.options.resumable,
        known_session(v, m.session_id, kept) matches Some(s) && s.tracker.completed.finite(),
        request_answer(request, false, known_session(v, m.session_id, kept)).accepted,
    ensures
        request_answer(
            request,
            false,
            known_session(v, m.session_id, kept),
        ).existing_chunks.contains(i) <==> carried_over(
            earlier_session(v, m, kept),
            m.chunk_count,
        ).contains(i),
{
    let s = known_session(v, m.session_id, kept)->0;
    let below = |i: u32| i < m.chunk_count;
    let all = ascending_u32(s.tracker.completed);
    ascending_lists_u32(s.tracker.completed);
    let offered = all.filter(below);
    assert(arrived_below(s, m.chunk_count) == offered);
    if offered.contains(i) {
        all.lemma_filter_contains_rev(below, i);
        let j = choose|j: int| 0 <= j < offered.len() && offered[j] == i;
        all.lemma_filter_pred(below, j);
    }
    if s.tracker.completed.contains(i) && i < m.chunk_count {
        assert(all.contains(i));
        let j = choose|j: int| 0 <= j < all.len() && all[j] == i;
        all.lemma_filter_contains(below, j);
    }
}

/// A chunk is written only where it is the chunk that the manifest announced: its number, its
/// length and its checksum are the announced ones.
pub proof fn only_announced_chunks_are_written(s: SessionView, index: u32, data: Seq<u8>)
    requires
        chunk_check(Some(s), index, data) is Write,
    ensures
        index < s.manifest.chunks.len(),
        data.len() == s.manifest.chunks[index as int].size,
        chunk_checksum(data) == s.manifest.chunks[index as int].checksum,
        chunk_check(Some(s), index, data) == CheckView::Write(
            s.manifest.chunks[index as int].offset,
            s.dest_path,
        ),
{
}

/// A file is put in its place once: after the chunk that completes the transfer, no chunk
/// leads to that again.
pub proof fn file_is_finished_once(
    v: ReceiveView,
    id: TransferSessionId,
    index: u32,
    data: Seq<u8>,
    again: u32,
    now: WallTime,
)
    requires
        session_at(v, id) matches Some(s) && is_due(s),
    ensures
        ({
            let after = settled(v, id, index, data);
            &&& session_at(after, id) matches Some(s) && s.state is Verifying
            &&& !is_due(with_chunk(after.sessions[id.id], again, now))
        }),
{
}

/// What one transfer does leaves every other alone.
pub proof fn transfers_do_not_meddle(
    v: ReceiveView,
    id: TransferSessionId,
    other: TransferSessionId,
    index: u32,
    data: Seq<u8>,
)
    requires
        id != other,
    ensures
        session_at(settled(v, id, index, data), other) == session_at(v, other),
        settled(v, id, index, data).hashes.contains_key(other.id) == v.hashes.contains_key(other.id),
        v.hashes.contains_key(other.id) ==> settled(v, id, index, data).hashes[other.id]
            == v.hashes[other.id],
{
}

/// A transfer that was opened is on record with what was agreed on: it goes to the destination
/// that it was opened with, comes from the node and the path that sent it, and has the manifest
/// and the options that were sent. It is in progress, nothing of it is under way or has failed,
/// and other transfers are as they were.
pub proof fn opened_transfer_is_on_record(
    v: ReceiveView,
    sender: NodeId,
    m: ManifestView,
    dest_path: Seq<char>,
    earlier: Option<SessionView>,
    now: WallTime,
    other: u128,
)
    ensures
        ({
            let after = with_begun(v, sender, m, dest_path, earlier, now);
            let id = m.session_id.id;
            let s = after.sessions[id];
            &&& after.sessions.contains_key(id)
            &&& s.id == m.session_id
            &&& s.dest_path == dest_path
            &&& s.source_path == m.source_path
            &&& s.source_node == sender
            &&& s.target_nodes.len() == 0
            &&& s.manifest == m
            &&& s.options == m.options
            &&& s.mode == m.options.mode
            &&& s.state is InProgress
            &&& s.control is Running
            &&& s.error is None
            &&& s.updated_at == now
            &&& earlier is None ==> s.created_at == now
            &&& earlier matches Some(e) ==> s.created_at == e.created_at && s.kind == e.kind
            &&& earlier is None ==> (s.kind is Sync <==> v.sync_sessions.contains(id))
            &&& earlier is None && !(s.kind is Sync) ==> s.kind is Send
            &&& s.tracker.total_chunks == m.chunk_count
            &&& s.tracker.max_retries == m.options.retry_policy.max_retries
            &&& s.tracker.in_flight == Set::<u32>::empty()
            &&& s.tracker.failed == Map::<u32, u8>::empty()
            &&& !after.sync_sessions.contains(id)
            &&& other != id ==> {
                &&& after.sessions.contains_key(other) == v.sessions.contains_key(other)
                &&& v.sessions.contains_key(other) ==> after.sessions[other] == v.sessions[other]
                &&& after.sync_sessions.contains(other) == v.sync_sessions.contains(other)
                &&& after.hashes.contains_key(other) == v.hashes.contains_key(other)
                &&& v.hashes.contains_key(other) ==> after.hashes[other] == v.hashes[other]
            }
        }),
{
}

/// Every chunk of a transfer that was opened is written for exactly the destination that it was
/// opened with, at the offset that the manifest announces, and a chunk is accepted exactly where
/// it has the length and the checksum that the manifest announces.
pub proof fn chunks_are_written_for_the_destination(
    v: ReceiveView,
    sender: NodeId,
    m: ManifestView,
    dest_path: Seq<char>,
    earlier: Option<SessionView>,
    now: WallTime,
    index: u32,
    data: Seq<u8>,
)
    ensures
        ({
            let after = with_begun(v, sender, m, dest_path, earlier, now);
            let check = chunk_check(session_at(after, m.session_id), index, data);
            let announced = index < m.chunks.len() && data.len() == m.chunks[index as int].size
                && chunk_checksum(data) == m.chunks[index as int].checksum;
            &&& announced ==> check == CheckView::Write(m.chunks[index as int].offset, dest_path)
            &&& !announced ==> !(check is Write)
            &&& index >= m.chunks.len() ==> check is InvalidIndex
            &&& index < m.chunks.len() && data.len() != m.chunks[index as int].size
                ==> check is WrongSize
            &&& index < m.chunks.len() && data.len() == m.chunks[index as int].size
                && chunk_checksum(data) != m.chunks[index as int].checksum ==> check is WrongChecksum
        }),
{
}

/// Whether two states of a transfer agree on what was agreed on when it was opened: where the file
/// comes from and goes to, what it is, and how it is sent.
pub open spec fn same_agreement(a: SessionView, b: SessionView) -> bool {
    &&& a.id == b.id
    &&& a.kind == b.kind
    &&& a.mode == b.mode
    &&& a.source_node == b.source_node
    &&& a.target_nodes == b.target_nodes
    &&& a.source_path == b.source_path
    &&& a.dest_path == b.dest_path
    &&& a.manifest == b.manifest
    &&& a.options == b.options
    &&& a.created_at == b.created_at
    &&& a.tracker.total_chunks == b.tracker.total_chunks
    &&& a.tracker.max_retries == b.tracker.max_retries
}

/// Whatever comes in for a transfer, what was agreed on stays, and so does where its chunks are
/// written.
pub proof fn agreement_stays(
    v: ReceiveView,
    id: TransferSessionId,
    index: u32,
    data: Seq<u8>,
    text: Seq<char>,
    now: WallTime,
    later: u32,
    more: Seq<u8>,
)
    requires
        v.sessions.contains_key(id.id),
    ensures
        ({
            let s = v.sessions[id.id];
            let noted = with_chunk(s, index, now);
            let taken_back = without_chunk(s, index, now);
            let after = settled(v, id, index, data);
            &&& same_agreement(noted, s)
            &&& same_agreement(taken_back, s)
            &&& after.sessions.contains_key(id.id)
            &&& same_agreement(after.sessions[id.id], s)
            &&& same_agreement(failed_with(s, text, now), s)
            &&& same_agreement(cancelled_with(s, text, now), s)
            &&& chunk_check(Some(noted), later, more) == chunk_check(Some(s), later, more)
            &&& chunk_check(Some(taken_back), later, more) == chunk_check(Some(s), later, more)
            &&& chunk_check(session_at(after, id), later, more) == chunk_check(Some(s), later, more)
        }),
{
}

/// A chunk that is noted has arrived, and one that is taken back has not: it has failed once
/// more. Other chunks stay as they were, and so do the state and what the transfer is told.
pub proof fn noting_and_taking_back_concern_one_chunk(
    s: SessionView,
    index: u32,
    other: u32,
    now: WallTime,
)
    ensures
        ({
            let noted = with_chunk(s, index, now);
            let back = without_chunk(s, index, now);
            &&& noted.tracker.completed.contains(index)
            &&& !noted.tracker.failed.contains_key(index)
            &&& !back.tracker.completed.contains(index)
            &&& back.tracker.failed.contains_key(index)
            &&& back.tracker.failed[index] >= 1
            &&& other != index ==> {
                &&& noted.tracker.completed.contains(other) == s.tracker.completed.contains(other)
                &&& back.tracker.completed.contains(other) == s.tracker.completed.contains(other)
                &&& noted.tracker.failed.contains_key(other) == s.tracker.failed.contains_key(other)
                &&& back.tracker.failed.contains_key(other) == s.tracker.failed.contains_key(other)
            }
            &&& noted.state == s.state && back.state == s.state
            &&& noted.control == s.control && back.control == s.control
            &&& noted.error == s.error && back.error == s.error
            &&& noted.updated_at == now && back.updated_at == now
        }),
{
}

/// The file is put in its place exactly when each of its chunks has arrived while the transfer is
/// in progress, and the transfer is then being verified. Before that its state stays.
pub proof fn file_is_finished_when_each_chunk_is_there(
    v: ReceiveView,
    id: TransferSessionId,
    index: u32,
    data: Seq<u8>,
)
    requires
        v.sessions.contains_key(id.id),
        v.sessions[id.id].tracker.completed.finite(),
        forall|i: u32| #[trigger]
            v.sessions[id.id].tracker.completed.contains(i) ==> i
                < v.sessions[id.id].tracker.total_chunks,
    ensures
        ({
            let s = v.sessions[id.id];
            let after = settled(v, id, index, data).sessions[id.id];
            let whole = forall|i: u32| i < s.tracker.total_chunks ==> s.tracker.completed.contains(i);
            &&& is_due(s) <==> whole && s.state is InProgress
            &&& is_due(s) ==> after.state is Verifying
            &&& !is_due(s) ==> after.state == s.state
            &&& after.tracker == s.tracker
            &&& after.control == s.control
            &&& after.error == s.error
        }),
{
    crate::transfer::chunk::all_have_arrived_where_each_has(v.sessions[id.id].tracker);
}

/// A file is hashed as it arrives exactly where its hash is to be verified, it has content, and
/// nothing of it was there before; hashing starts with its first chunk, by the algorithm that was
/// agreed on, and each chunk that comes in goes to the hash of its own transfer.
pub proof fn file_is_hashed_from_its_start(
    v: ReceiveView,
    sender: NodeId,
    m: ManifestView,
    dest_path: Seq<char>,
    earlier: Option<SessionView>,
    now: WallTime,
    index: u32,
    data: Seq<u8>,
)
    requires
        earlier matches Some(e) ==> e.tracker.completed.finite(),
    ensures
        ({
            let after = with_begun(v, sender, m, dest_path, earlier, now);
            let id = m.session_id.id;
            let nothing_there = forall|i: u32| !#[trigger]
                after.sessions[id].tracker.completed.contains(i);
            &&& after.hashes.contains_key(id) <==> m.options.verify_on_complete && m.file_size > 0
                && m.chunk_count > 0 && nothing_there
            &&& after.hashes.contains_key(id) ==> {
                &&& after.hashes[id].algorithm == m.options.hash_algorithm
                &&& after.hashes[id].next == 0
                &&& after.hashes[id].hashed.len() == 0
                &&& after.hashes[id].pending == Map::<u32, Seq<u8>>::empty()
                &&& settled(after, m.session_id, index, data).hashes[id] == taken(
                    after.hashes[id],
                    index,
                    data,
                )
            }
        }),
{
    let after = with_begun(v, sender, m, dest_path, earlier, now);
    let completed = after.sessions[m.session_id.id].tracker.completed;
    match earlier {
        Some(e) => {
            assert(completed =~= e.tracker.completed.intersect(
                Set::new(|i: u32| i < m.chunk_count),
            ));
        },
        None => {},
    }
    assert(completed.finite());
    if completed.len() == 0 {
        assert(completed =~= Set::empty());
    } else {
        assert(completed.contains(completed.choose()));
    }
}

/// A request is accepted exactly where the file may take its place and, where an earlier transfer
/// is to be resumed, is the file of that transfer. Who is refused is told why. What has arrived is
/// offered, in increasing order, where an earlier transfer is resumed, and nothing else is.
pub proof fn request_is_accepted_where_the_file_may_come(
    request: TransferRequest,
    dest_exists: bool,
    known: Option<SessionView>,
    i: u32,
)
    requires
        known matches Some(s) ==> s.tracker.completed.finite(),
    ensures
        ({
            let answer = request_answer(request, dest_exists, known);
            let in_the_way = dest_exists && !request.options.overwrite;
            let resumes = request.options.resumable && known is Some;
            let same = known matches Some(s) && s.options.resumable && s.manifest.source_path
                == request.source_path@ && s.manifest.dest_path == request.dest_path@
                && s.manifest.file_size == request.file_size && s.manifest.chunk_count
                == request.chunk_count && s.manifest.chunk_size == request.chunk_size;
            &&& answer.accepted <==> !in_the_way && (resumes ==> same)
            &&& answer.accepted <==> answer.rejection_reason is None
            &&& in_the_way ==> answer.rejection_reason == Some("destination already exists"@)
            &&& !in_the_way && !answer.accepted ==> answer.rejection_reason == Some(
                "resume session mismatch"@,
            )
            &&& answer.existing_chunks.contains(i) <==> answer.accepted && resumes
                && known->0.tracker.completed.contains(i) && i < request.chunk_count
            &&& crate::ordered::increasing_u32(answer.existing_chunks)
        }),
{
    if known is Some {
        let s = known->0;
        let below = |i: u32| i < request.chunk_count;
        let all = ascending_u32(s.tracker.completed);
        ascending_lists_u32(s.tracker.completed);
        crate::ordered::filter_increases_u32(all, below);
        crate::ordered::filter_holds_u32(all, below, i);
        assert(all.contains(i) <==> s.tracker.completed.contains(i));
    }
}

/// A manifest is refused exactly where an earlier transfer of that name cannot be resumed by
/// either side, or is of another file; the reason says which.
pub proof fn manifest_is_refused_for_another_file(known: Option<SessionView>, m: ManifestView)
    ensures
        ({
            let refusal = resume_refusal(known, m);
            let same = known matches Some(s) && s.manifest.file_size == m.file_size
                && s.manifest.chunk_count == m.chunk_count && s.manifest.chunk_size == m.chunk_size
                && s.manifest.file_hash == m.file_hash && s.manifest.source_path == m.source_path
                && s.manifest.dest_path == m.dest_path;
            let fixed = known matches Some(s) && !s.options.resumable && !m.options.resumable;
            &&& refusal is Some <==> known is Some && (fixed || !same)
            &&& fixed ==> refusal == Some("session already exists"@)
            &&& known is Some && !fixed && !same ==> refusal == Some("resume manifest mismatch"@)
        }),
{
}

/// An earlier transfer is the one on record, or else the one that was kept, and a kept one counts
/// only for a transfer that can be resumed.
pub proof fn record_comes_before_what_was_kept(v: ReceiveView, m: ManifestView, kept: Option<SessionView>)
    ensures
        v.sessions.contains_key(m.session_id.id) ==> earlier_session(v, m, kept) == Some(
            v.sessions[m.session_id.id],
        ),
        !v.sessions.contains_key(m.session_id.id) && m.options.resumable ==> earlier_session(
            v,
            m,
            kept,
        ) == kept,
        !v.sessions.contains_key(m.session_id.id) && !m.options.resumable ==> earlier_session(
            v,
            m,
            kept,
        ) is None,
{
}

/// A chunk that is refused is told of with its reason, and only an unharmed one is not. All but a
/// wrong checksum are errors here: the sender tries again on that.
pub proof fn refused_chunk_is_told_of(check: CheckView, id: TransferSessionId, index: u32)
    ensures
        refusal_text(check) is None <==> check is Write,
        refusal_error(check, id, index) is None <==> check is Write || check is WrongChecksum,
        check is UnknownSession ==> refusal_error(check, id, index) == Some(
            ErrorView::SessionNotFound(id),
        ),
        check is InvalidIndex || check is WrongSize ==> refusal_error(check, id, index) == Some(
            ErrorView::ChunkChecksumMismatch(index),
        ),
{
}

/// How long a transfer took is the whole milliseconds that went by, none where time went back.
pub proof fn duration_is_what_went_by(from: WallTime, to: WallTime)
    ensures
        to.nanos < from.nanos ==> millis_between(from, to) == 0,
        to.nanos >= from.nanos && (to.nanos - from.nanos) / 1_000_000 <= u64::MAX ==> {
            let millis = millis_between(from, to);
            &&& from.nanos + millis * 1_000_000 <= to.nanos
            &&& to.nanos < from.nanos + (millis + 1) * 1_000_000
        },
{
}

/// A file without content needs no chunk.
pub proof fn empty_file_needs_no_chunk(m: ManifestView)
    ensures
        is_empty_file(m) <==> m.file_size == 0 || m.chunk_count == 0,
{
}

/// After a transfer was opened, every chunk that is accepted is to be written for exactly the
/// destination that it was opened with, at the offset that the manifest announces, and the
/// transfer on record has that destination.
pub proof fn accepted_chunk_goes_to_the_opened_destination(
    handler: &mut ReceiveHandler,
    sender: NodeId,
    manifest: TransferManifest,
    dest_path: String,
    kept: Option<&TransferSession>,
    now: WallTime,
    opened: Opened,
    later: &mut ReceiveHandler,
    index: u32,
    data: &[u8],
    check: ChunkCheck,
)
    requires
        old(handler).wf(),
        call_ensures(
            ReceiveHandler::open_session,
            (handler, sender, manifest, dest_path, kept, now),
            opened,
        ),
        old(later)@ == final(handler)@,
        call_ensures(ReceiveHandler::check_chunk, (later, manifest@.session_id, index, data), check),
    ensures
        session_at(final(handler)@, manifest@.session_id) matches Some(s) && s.dest_path == dest_path@
            && s.source_path == manifest@.source_path && s.source_node == sender && s.manifest
            == manifest@,
        check@ matches CheckView::Write(offset, path) ==> {
            &&& path == dest_path@
            &&& index < manifest@.chunks.len()
            &&& offset == manifest@.chunks[index as int].offset
            &&& data@.len() == manifest@.chunks[index as int].size
            &&& chunk_checksum(data@) == manifest@.chunks[index as int].checksum
        },
        index < manifest@.chunks.len() && data@.len() == manifest@.chunks[index as int].size
            && chunk_checksum(data@) == manifest@.chunks[index as int].checksum ==> check@ is Write,
        session_at(final(later)@, manifest@.session_id) matches Some(s) && s.dest_path
            == dest_path@,
{
}

/// The sender of an opened transfer is told to skip exactly what an earlier one of the same file
/// has brought over, and the file is finished at once exactly where nothing is left to come.
pub proof fn opened_transfer_skips_what_is_there(
    handler: &mut ReceiveHandler,
    sender: NodeId,
    manifest: TransferManifest,
    dest_path: String,
    now: WallTime,
    opened: Opened,
    i: u32,
)
    requires
        old(handler).wf(),
        call_ensures(
            ReceiveHandler::open_session,
            (handler, sender, manifest, dest_path, None, now),
            opened,
        ),
        old(handler)@.sessions.contains_key(manifest@.session_id.id) ==> old(handler)@.sessions[
        manifest@.session_id.id].tracker.completed.finite(),
    ensures
        ({
            let id = manifest@.session_id.id;
            let known = old(handler)@.sessions.contains_key(id);
            let there = known && old(handler)@.sessions[id].tracker.completed.contains(i) && i
                < manifest@.chunk_count;
            &&& opened.skip_chunks@.contains(i) <==> there
            &&& final(handler)@.sessions[id].tracker.completed.contains(i) <==> there
            &&& crate::ordered::increasing_u32(opened.skip_chunks@)
            &&& opened.kind == final(handler)@.sessions[id].kind
            &&& manifest@.file_size == 0 || manifest@.chunk_count == 0 ==> opened.finalize
            &&& manifest@.file_size > 0 && manifest@.chunk_count > 0 ==> (opened.finalize
                <==> forall|k: u32|
                k < manifest@.chunk_count ==> final(handler)@.sessions[id].tracker.completed.contains(
                    k,
                ))
        }),
{
    let id = manifest@.session_id.id;
    let s = final(handler)@.sessions[id];
    let completed = s.tracker.completed;
    if old(handler)@.sessions.contains_key(id) {
        let before = old(handler)@.sessions[id].tracker.completed;
        assert(completed =~= before.intersect(Set::new(|i: u32| i < manifest@.chunk_count)));
    } else {
        assert(completed =~= Set::empty());
    }
    assert(completed.finite());
    ascending_lists_u32(completed);
    crate::transfer::chunk::all_have_arrived_where_each_has(s.tracker);
}

/// A chunk counts as arrived unless its transfer is unknown, failed or was cancelled; that is to
/// be kept where the transfer can be resumed. Nothing of another transfer changes.
pub proof fn chunk_is_noted_while_its_transfer_goes_on(
    handler: &mut ReceiveHandler,
    id: TransferSessionId,
    index: u32,
    now: WallTime,
    noted: Noted,
    other: u128,
)
    requires
        old(handler).wf(),
        call_ensures(ReceiveHandler::note_chunk, (handler, id, index, now), noted),
    ensures
        ({
            let before = old(handler)@;
            let after = final(handler)@;
            let known = before.sessions.contains_key(id.id);
            let over = known && (before.sessions[id.id].state is Failed
                || before.sessions[id.id].state is Cancelled);
            &&& noted is UnknownSession <==> !known
            &&& noted is Stopped <==> over
            &&& noted matches Noted::Arrived { keep } ==> keep
                == before.sessions[id.id].options.resumable && after.sessions.contains_key(id.id)
                && after.sessions[id.id].tracker.completed.contains(index)
                && after.sessions[id.id].dest_path == before.sessions[id.id].dest_path
                && after.sessions[id.id].state == before.sessions[id.id].state
            &&& !(noted is Arrived) ==> after == before
            &&& other != id.id ==> after.sessions.contains_key(other)
                == before.sessions.contains_key(other)
            &&& other != id.id && before.sessions.contains_key(other) ==> after.sessions[other]
                == before.sessions[other]
            &&& after.hashes == before.hashes
            &&& after.sync_sessions == before.sync_sessions
        }),
{
}

/// Only the hash of a file all of whose chunks were hashed is given out, and it is the hash of
/// what was hashed; it is kept no longer.
pub proof fn hash_is_of_the_whole_file(
    handler: &mut ReceiveHandler,
    id: TransferSessionId,
    chunk_count: u32,
    hash: Option<Vec<u8>>,
)
    requires
        old(handler).wf(),
        call_ensures(ReceiveHandler::take_hash, (handler, id, chunk_count), hash),
    ensures
        hash is Some <==> old(handler)@.hashes.contains_key(id.id) && old(handler)@.hashes[id.id].next
            == chunk_count && old(handler)@.hashes[id.id].pending.dom().len() == 0,
        hash matches Some(h) ==> h@ == hash_of(
            old(handler)@.hashes[id.id].algorithm,
            old(handler)@.hashes[id.id].hashed,
        ),
        !final(handler)@.hashes.contains_key(id.id),
        final(handler)@.sessions == old(handler)@.sessions,
{
}

/// A transfer that ends on this side is over in the state it ended in, still goes where it went,
/// and is told of where it can be resumed; a transfer that is not known changes nothing.
pub proof fn ended_transfer_is_over(
    failing: &mut ReceiveHandler,
    completing: &mut ReceiveHandler,
    cancelling: &mut ReceiveHandler,
    id: TransferSessionId,
    error: FileTransferError,
    reason: String,
    now: WallTime,
    failed: Option<bool>,
    completed: Option<(bool, u64)>,
    cancelled: Option<(bool, bool)>,
)
    requires
        old(failing).wf(),
        old(completing)@ == old(failing)@,
        old(cancelling)@ == old(failing)@,
        call_ensures(ReceiveHandler::fail_session, (failing, id, &error, now), failed),
        call_ensures(ReceiveHandler::complete_session, (completing, id, now), completed),
        call_ensures(ReceiveHandler::cancel_session, (cancelling, id, reason, now), cancelled),
    ensures
        ({
            let v = old(failing)@;
            let known = v.sessions.contains_key(id.id);
            let s = v.sessions[id.id];
            let a = final(failing)@;
            let b = final(completing)@;
            let c = final(cancelling)@;
            &&& !known ==> failed is None && completed is None && cancelled is None && a == v && b
                == v && c.sessions == v.sessions
            &&& known ==> {
                &&& failed == Some(s.options.resumable)
                &&& completed matches Some(r) && r.0 == s.options.resumable
                &&& cancelled matches Some(r) && r.1 == s.options.resumable && (r.0 <==> !(
                s.state is Completed || s.state is Failed || s.state is Cancelled))
                &&& a.sessions.contains_key(id.id) && a.sessions[id.id].state is Failed
                    && a.sessions[id.id].error == Some(error_text(error@))
                &&& b.sessions.contains_key(id.id) && b.sessions[id.id].state is Completed
                &&& c.sessions.contains_key(id.id) && c.sessions[id.id].state is Cancelled
                    && c.sessions[id.id].error == Some(reason@)
                &&& same_agreement(a.sessions[id.id], s)
                &&& same_agreement(b.sessions[id.id], s)
                &&& same_agreement(c.sessions[id.id], s)
                &&& a.sessions[id.id].tracker == s.tracker
                &&& b.sessions[id.id].tracker == s.tracker
                &&& c.sessions[id.id].tracker == s.tracker
                &&& a.sessions[id.id].updated_at == now
                &&& b.sessions[id.id].updated_at == now
                &&& c.sessions[id.id].updated_at == now
            }
            &&& !c.hashes.contains_key(id.id)
            &&& a.hashes == v.hashes && b.hashes == v.hashes
        }),
{
}

/// A file takes its place only where its hash is as announced, if that is to be verified, and
/// where nothing is in the way or it may be overwritten.
pub proof fn file_takes_its_place_only_unharmed(
    manifest: TransferManifest,
    computed: &[u8],
    dest_exists: bool,
    dest_path: &str,
    hashed: Result<(), FileTransferError>,
    placed: Result<(), FileTransferError>,
)
    requires
        call_ensures(check_file_hash, (&manifest, computed), hashed),
        call_ensures(check_destination, (&manifest, dest_exists, dest_path), placed),
    ensures
        hashed is Err <==> manifest@.options.verify_on_complete && computed@ != manifest@.file_hash,
        hashed matches Err(e) ==> e@ is FileHashMismatch,
        placed is Err <==> dest_exists && !manifest@.options.overwrite,
        placed matches Err(e) ==> e@ == ErrorView::FileAlreadyExists(dest_path@),
{
}

/// What is set on a file that has arrived is what its manifest keeps of it, and nothing where
/// nothing is to be kept.
pub proof fn kept_properties_are_those_announced(
    manifest: TransferManifest,
    kept: Option<FileMetadata>,
    metadata: FileMetadata,
    r: Result<PreservedMetadata, FileTransferError>,
)
    requires
        call_ensures(preserved, (&manifest,), kept),
        call_ensures(apply_preserved_metadata, (&metadata,), r),
    ensures
        !manifest@.options.preserve_metadata ==> kept is None,
        manifest@.options.preserve_metadata ==> kept == manifest@.metadata,
        r is Ok <==> (metadata.modified_at matches Some(at) ==> at <= 0x7fff_ffff_ffff_ffff),
        r matches Ok(set) ==> set.permissions == metadata.permissions && (set.modified_at is Some
            <==> metadata.modified_at is Some) && (set.modified_at matches Some(at) ==> at
            == metadata.modified_at->0),
{
}

/// How a chunk is packed and how long it is follows from what was agreed on when its transfer was
/// opened, and a transfer that was given up is not known any more.
pub proof fn packing_is_as_agreed(
    handler: &mut ReceiveHandler,
    other: &ReceiveHandler,
    id: TransferSessionId,
    index: u32,
    rule: Option<(CompressionAlgorithm, Option<usize>)>,
    control: Option<(TransferControlState, TransferKind)>,
)
    requires
        old(handler).wf(),
        call_ensures(ReceiveHandler::abandon, (handler, id), ()),
        call_ensures(ReceiveHandler::payload_rule, (other, id, index), rule),
        call_ensures(ReceiveHandler::control_of, (other, id), control),
    ensures
        !final(handler)@.sessions.contains_key(id.id),
        forall|k: u128|
            k != id.id && #[trigger] old(handler)@.sessions.contains_key(k)
                ==> final(handler)@.sessions.contains_key(k) && final(handler)@.sessions[k]
                == old(handler)@.sessions[k],
        rule is Some <==> other@.sessions.contains_key(id.id),
        rule matches Some(r) ==> {
            let s = other@.sessions[id.id];
            &&& r.0 == s.options.compression
            &&& r.1 is Some <==> index < s.manifest.chunks.len()
            &&& r.1 matches Some(size) ==> size == s.manifest.chunks[index as int].size
        },
        control is Some <==> other@.sessions.contains_key(id.id),
        control matches Some(c) ==> c.0 == other@.sessions[id.id].control && c.1
            == other@.sessions[id.id].kind,
{
}

/// The chunks of a transfer wait in a file of its own: no other transfer to the same place has
/// the same.
pub proof fn each_transfer_has_its_own_part(dest_path: Seq<char>, a: TransferSessionId, b: TransferSessionId)
    requires
        part_name(dest_path, a) == part_name(dest_path, b),
    ensures
        a == b,
{
    reveal_strlit(".part");
    reveal_strlit(".");
    crate::text::hex_stands_for_its_number(a.id as nat, 32);
    crate::text::hex_stands_for_its_number(b.id as nat, 32);
    let name = match file_name(path_of(dest_path)) {
        Some(name) => name,
        None => "transfer"@,
    };
    let n: int = name.len() as int + 1;
    let whole = part_name(dest_path, a);
    assert(whole.subrange(n, n + 32) =~= session_text(a));
    assert(whole.subrange(n, n + 32) =~= session_text(b));
    crate::transfer::error::session_texts_differ(a, b);
}

/// What is told of a chunk names its transfer and its number, and whether it arrived.
pub proof fn outcome_names_its_chunk(
    id: TransferSessionId,
    index: u32,
    completed: bool,
    refused: ReceiveOutcome,
    arrived: ReceiveOutcome,
)
    requires
        call_ensures(ReceiveOutcome::refused, (id, index), refused),
        call_ensures(ReceiveOutcome::arrived, (id, index, completed), arrived),
    ensures
        refused.session_id == id && refused.chunk_index == index && !refused.verified
            && !refused.completed,
        arrived.session_id == id && arrived.chunk_index == index && arrived.verified
            && arrived.completed == completed,
{
}

/// A transfer that is marked belongs to a synchronisation from then on, and no other does by that.
pub proof fn marked_transfer_is_a_synchronisation(
    marking: &mut ReceiveHandler,
    discarding: &mut ReceiveHandler,
    id: TransferSessionId,
    other: u128,
)
    requires
        old(marking).wf(),
        old(discarding).wf(),
        call_ensures(ReceiveHandler::mark_sync_session, (marking, id), ()),
        call_ensures(ReceiveHandler::discard_incremental_hash, (discarding, id), ()),
    ensures
        final(marking)@.sync_sessions.contains(id.id),
        other != id.id ==> final(marking)@.sync_sessions.contains(other)
            == old(marking)@.sync_sessions.contains(other),
        final(marking)@.sessions == old(marking)@.sessions,
        final(marking)@.hashes == old(marking)@.hashes,
        !final(discarding)@.hashes.contains_key(id.id),
        other != id.id ==> final(discarding)@.hashes.contains_key(other)
            == old(discarding)@.hashes.contains_key(other),
        final(discarding)@.sessions == old(discarding)@.sessions,
{
}

} // verus!

//! Sending a file: what is agreed on before the first chunk, which chunks are sent when, and
//! when the transfer is over.
//!
//! The caller reads the file, opens the streams, runs the timers and passes on the messages.
//! It tells the loop what happened and does what the loop answers.

use vstd::prelude::*;

use crate::bytes::bytes_equal;
use crate::clock::WallTime;
use crate::node::NodeId;
use crate::paths::{path_of, same_path};
use crate::text::text_equal;
use crate::transfer::chunk::{copy_numbers, untouched, ChunkMeta, ChunkTracker, TrackerView};
use crate::transfer::config::FileTransferConfig;
use crate::transfer::error::{
    internal, outcome, ErrorView, FileTransferError, TransferSessionId,
};
use crate::transfer::manifest::{
    FileMetadata, ManifestView, TransferManifest, CURRENT_VERSION,
};
use crate::transfer::messages::{
    FileTransferMessage, ManifestAck, TransferRequest, TransferResponse,
};
use crate::transfer::options::{default_transfer_options, HashAlgorithm, TransferOptions};
use crate::transfer::session::{
    SessionView, TransferControlState, TransferKind, TransferSession, TransferState,
};

verus! {

/// The options with what is configured in place of what was left at its default.
pub open spec fn with_configured(config: FileTransferConfig, options: TransferOptions) -> TransferOptions {
    let defaults = default_transfer_options();
    TransferOptions {
        chunk_size: if options.chunk_size == defaults.chunk_size {
            config.default_chunk_size
        } else {
            options.chunk_size
        },
        concurrency: if options.concurrency == defaults.concurrency {
            config.default_concurrency
        } else {
            options.concurrency
        },
        compression: if options.compression == defaults.compression {
            config.default_compression
        } else {
            options.compression
        },
        ..options
    }
}

/// The options that a transfer runs under, or why there are none.
pub open spec fn resolved_options(config: FileTransferConfig, options: TransferOptions) -> Result<
    TransferOptions,
    ErrorView,
> {
    let o = with_configured(config, options);
    if o.chunk_size == 0 || o.chunk_size > u32::MAX {
        Err(ErrorView::Internal("chunk size must be between 1 and u32::MAX"@))
    } else if config.max_concurrency == 0 || o.concurrency == 0 {
        Err(ErrorView::Internal("transfer concurrency must be greater than zero"@))
    } else {
        Ok(
            TransferOptions {
                concurrency: if o.concurrency <= config.max_concurrency {
                    o.concurrency
                } else {
                    config.max_concurrency
                },
                ..o
            },
        )
    }
}

/// The options that a transfer runs under.
pub fn resolve_transfer_options(config: &FileTransferConfig, options: TransferOptions) -> (r: Result<
    TransferOptions,
    FileTransferError,
>)
    ensures
        outcome(r) == resolved_options(*config, options),
{
    let defaults = TransferOptions::default();
    let mut options = options;
    if options.chunk_size == defaults.chunk_size {
        options.chunk_size = config.default_chunk_size;
    }
    if options.concurrency == defaults.concurrency {
        options.concurrency = config.default_concurrency;
    }
    if options.compression == defaults.compression {
        options.compression = config.default_compression;
    }
    if options.chunk_size == 0 || options.chunk_size as u64 > u32::MAX as u64 {
        return Err(internal("chunk size must be between 1 and u32::MAX"));
    }
    if config.max_concurrency == 0 || options.concurrency == 0 {
        return Err(internal("transfer concurrency must be greater than zero"));
    }
    if options.concurrency > config.max_concurrency {
        options.concurrency = config.max_concurrency;
    }
    Ok(options)
}

/// How many bytes per second a transfer may send: none where there is no limit.
pub open spec fn limit_of(config: FileTransferConfig, options: TransferOptions) -> Option<u64> {
    let limit = match options.bandwidth_limit {
        Some(limit) => limit,
        None => match config.global_bandwidth_limit {
            Some(limit) => limit,
            None => 0,
        },
    };
    if limit == 0 {
        None
    } else {
        Some(limit)
    }
}

/// How many bytes per second a transfer may send: its own limit goes before the configured
/// one, and a limit of zero is none.
pub fn build_throttle(config: &FileTransferConfig, options: &TransferOptions) -> (limit: Option<u64>)
    ensures
        limit == limit_of(*config, *options),
{
    let limit: u64 = match options.bandwidth_limit {
        Some(limit) => limit,
        None => match config.global_bandwidth_limit {
            Some(limit) => limit,
            None => 0,
        },
    };
    if limit == 0 {
        None
    } else {
        Some(limit)
    }
}

/// Why a transfer cannot take up an earlier one, as far as who sends what to whom goes.
pub open spec fn resume_fault(
    resume: SessionView,
    kind: TransferKind,
    source_node: NodeId,
    source_path: Seq<char>,
    dest_path: Seq<char>,
    target: NodeId,
    options: TransferOptions,
) -> Option<Seq<char>> {
    if resume.kind != kind {
        Some("resume session kind mismatch"@)
    } else if resume.source_node != source_node {
        Some("resume source node mismatch"@)
    } else if path_of(resume.source_path) != path_of(source_path) {
        Some("resume source path mismatch"@)
    } else if path_of(resume.dest_path) != path_of(dest_path) {
        Some("resume destination path mismatch"@)
    } else if resume.target_nodes.len() == 0 || resume.target_nodes[0] != target {
        Some("resume target mismatch"@)
    } else if !options.resumable || !resume.options.resumable {
        Some("resume requested for non-resumable session"@)
    } else {
        None
    }
}

/// The identifier of the earlier transfer that is taken up.
pub fn check_resume(
    resume: &TransferSession,
    kind: TransferKind,
    source_node: NodeId,
    source_path: &str,
    dest_path: &str,
    target: NodeId,
    options: &TransferOptions,
) -> (r: Result<TransferSessionId, FileTransferError>)
    ensures
        match r {
            Ok(id) => id == resume@.id && resume_fault(
                resume@,
                kind,
                source_node,
                source_path@,
                dest_path@,
                target,
                *options,
            ) is None,
            Err(error) => resume_fault(
                resume@,
                kind,
                source_node,
                source_path@,
                dest_path@,
                target,
                *options,
            ) matches Some(text) && error@ == ErrorView::Internal(text),
        },
{
    if resume.kind != kind {
        return Err(internal("resume session kind mismatch"));
    }
    if resume.source_node != source_node {
        return Err(internal("resume source node mismatch"));
    }
    if !same_path(resume.source_path.as_str(), source_path) {
        return Err(internal("resume source path mismatch"));
    }
    if !same_path(resume.dest_path.as_str(), dest_path) {
        return Err(internal("resume destination path mismatch"));
    }
    if resume.target_nodes.len() == 0 || resume.target_nodes[0] != target {
        return Err(internal("resume target mismatch"));
    }
    if !options.resumable || !resume.options.resumable {
        return Err(internal("resume requested for non-resumable session"));
    }
    Ok(resume.id)
}

/// Whether the file is the one that the earlier transfer was about.
pub open spec fn resumes_manifest(
    m: ManifestView,
    file_size: u64,
    chunk_count: u32,
    chunk_size: u32,
    hash_algorithm: HashAlgorithm,
    file_hash: Seq<u8>,
    source_path: Seq<char>,
    dest_path: Seq<char>,
) -> bool {
    &&& m.file_size == file_size
    &&& m.chunk_count == chunk_count
    &&& m.chunk_size == chunk_size
    &&& m.hash_algorithm == hash_algorithm
    &&& m.file_hash == file_hash
    &&& m.source_path == source_path
    &&& m.dest_path == dest_path
}

/// Whether the file is the one that the earlier transfer was about.
pub fn check_resume_manifest(
    manifest: &TransferManifest,
    file_size: u64,
    chunk_count: u32,
    chunk_size: u32,
    hash_algorithm: HashAlgorithm,
    file_hash: &[u8],
    source_path: &str,
    dest_path: &str,
) -> (r: Result<(), FileTransferError>)
    ensures
        match r {
            Ok(()) => resumes_manifest(
                manifest@,
                file_size,
                chunk_count,
                chunk_size,
                hash_algorithm,
                file_hash@,
                source_path@,
                dest_path@,
            ),
            Err(error) => !resumes_manifest(
                manifest@,
                file_size,
                chunk_count,
                chunk_size,
                hash_algorithm,
                file_hash@,
                source_path@,
                dest_path@,
            ) && error@ == ErrorView::Internal("resume manifest mismatch"@),
        },
{
    if manifest.file_size != file_size || manifest.chunk_count != chunk_count || manifest.chunk_size
        != chunk_size || manifest.hash_algorithm != hash_algorithm || !bytes_equal(
        manifest.file_hash.as_slice(),
        file_hash,
    ) || !text_equal(manifest.source_path.as_str(), source_path) || !text_equal(
        manifest.dest_path.as_str(),
        dest_path,
    ) {
        return Err(internal("resume manifest mismatch"));
    }
    Ok(())
}

/// The manifest of a file. What is known of the file beside its content goes with it only
/// where that is to be preserved.
pub fn build_manifest(
    source_path: String,
    dest_path: String,
    file_size: u64,
    chunk_count: u32,
    chunk_size: u32,
    options: &TransferOptions,
    file_hash: Vec<u8>,
    chunks: Vec<ChunkMeta>,
    metadata: FileMetadata,
    session_id: TransferSessionId,
    created_at: u64,
) -> (manifest: TransferManifest)
    ensures
        manifest@ == (ManifestView {
            version: CURRENT_VERSION,
            session_id,
            source_path: source_path@,
            dest_path: dest_path@,
            file_size,
            file_hash: file_hash@,
            hash_algorithm: options.hash_algorithm,
            chunk_size,
            chunk_count,
            chunks: chunks@,
            metadata: if options.preserve_metadata {
                Some(metadata)
            } else {
                None
            },
            options: *options,
            created_at,
        }),
{
    TransferManifest {
        version: CURRENT_VERSION,
        session_id,
        source_path,
        dest_path,
        file_size,
        file_hash,
        hash_algorithm: options.hash_algorithm,
        chunk_size,
        chunk_count,
        chunks,
        metadata: if options.preserve_metadata {
            Some(metadata)
        } else {
            None
        },
        options: *options,
        created_at,
    }
}

/// The transfer of a file as it starts. One that takes up an earlier transfer is as old as
/// that and counts its chunks as arrived.
pub fn begin_session(
    kind: TransferKind,
    source_node: NodeId,
    target: NodeId,
    source_path: String,
    dest_path: String,
    manifest: TransferManifest,
    options: TransferOptions,
    resume: Option<&TransferSession>,
    now: WallTime,
) -> (session: TransferSession)
    ensures
        session@ == (SessionView {
            id: manifest@.session_id,
            kind,
            mode: options.mode,
            source_node,
            target_nodes: seq![target],
            source_path: source_path@,
            dest_path: dest_path@,
            state: TransferState::InProgress,
            manifest: manifest@,
            tracker: TrackerView {
                completed: match resume {
                    Some(earlier) => earlier@.tracker.completed,
                    None => Set::empty(),
                },
                ..untouched(manifest@.chunk_count, options.retry_policy.max_retries)
            },
            options,
            created_at: match resume {
                Some(earlier) => earlier@.created_at,
                None => now,
            },
            updated_at: now,
            error: None,
            control: TransferControlState::Running,
        }),
{
    let mut tracker = ChunkTracker::new(manifest.chunk_count, options.retry_policy.max_retries);
    let ghost fresh = tracker@;
    let mut created_at = now;
    if let Some(earlier) = resume {
        tracker.completed = copy_numbers(&earlier.chunk_tracker.completed);
        created_at = earlier.created_at;
    }
    assert(tracker@ =~= (TrackerView {
        completed: match resume {
            Some(earlier) => earlier@.tracker.completed,
            None => Set::empty(),
        },
        ..fresh
    }));
    let mut targets: Vec<NodeId> = Vec::new();
    targets.push(target);
    assert(targets@ =~= seq![target]);
    let mut session = TransferSession::new(
        manifest.session_id,
        kind,
        options.mode,
        source_node,
        targets,
        source_path,
        dest_path,
        manifest,
        tracker,
        options,
        now,
    );
    session.created_at = created_at;
    session.state = TransferState::InProgress;
    session
}

/// The request that announces a transfer to the other end.
pub fn transfer_request(session: &TransferSession) -> (request: TransferRequest)
    ensures
        request.source_path@ == session@.manifest.source_path,
        request.dest_path@ == session@.manifest.dest_path,
        request.file_size == session@.manifest.file_size,
        request.chunk_count == session@.manifest.chunk_count,
        request.chunk_size == session@.manifest.chunk_size,
        request.mode == session@.options.mode,
        request.options == session@.options,
        request.metadata == session@.manifest.metadata,
{
    TransferRequest {
        source_path: session.manifest.source_path.clone(),
        dest_path: session.manifest.dest_path.clone(),
        file_size: session.manifest.file_size,
        chunk_count: session.manifest.chunk_count,
        chunk_size: session.manifest.chunk_size,
        mode: session.options.mode,
        options: session.options,
        metadata: session.manifest.metadata,
    }
}

/// The answer to a transfer request.
pub fn read_transfer_response(message: FileTransferMessage) -> (r: Result<
    TransferResponse,
    FileTransferError,
>)
    ensures
        match message {
            FileTransferMessage::TransferResponse(response) => r == Ok::<_, FileTransferError>(
                response,
            ),
            _ => r matches Err(error) && error@ == ErrorView::Internal(
                "unexpected transfer response message"@,
            ),
        },
{
    match message {
        FileTransferMessage::TransferResponse(response) => Ok(response),
        _ => Err(internal("unexpected transfer response message")),
    }
}

/// The answer to a manifest.
pub fn read_manifest_ack(message: FileTransferMessage) -> (r: Result<
    ManifestAck,
    FileTransferError,
>)
    ensures
        match message {
            FileTransferMessage::ManifestAck(ack) => r == Ok::<_, FileTransferError>(ack),
            _ => r matches Err(error) && error@ == ErrorView::Internal(
                "unexpected manifest ack message"@,
            ),
        },
{
    match message {
        FileTransferMessage::ManifestAck(ack) => Ok(ack),
        _ => Err(internal("unexpected manifest ack message")),
    }
}

/// The text of a refusal, or a plain one where none came with it.
pub open spec fn reason_or(reason: Option<String>, plain: Seq<char>) -> Seq<char> {
    match reason {
        Some(text) => text@,
        None => plain,
    }
}

/// Whether the other end takes the file.
pub fn accept_response(response: &TransferResponse) -> (r: Result<(), FileTransferError>)
    ensures
        match r {
            Ok(()) => response.accepted,
            Err(error) => !response.accepted && error@ == ErrorView::Rejected(
                reason_or(response.rejection_reason, "transfer rejected"@),
            ),
        },
{
    if response.accepted {
        return Ok(());
    }
    Err(
        FileTransferError::Rejected(
            match &response.rejection_reason {
                Some(text) => text.clone(),
                None => String::from_str("transfer rejected"),
            },
        ),
    )
}

/// Whether the other end takes the manifest.
pub fn accept_manifest_ack(ack: &ManifestAck) -> (r: Result<(), FileTransferError>)
    ensures
        match r {
            Ok(()) => ack.accepted,
            Err(error) => !ack.accepted && error@ == ErrorView::Rejected(
                reason_or(ack.error, "manifest rejected"@),
            ),
        },
{
    if ack.accepted {
        return Ok(());
    }
    Err(
        FileTransferError::Rejected(
            match &ack.error {
                Some(text) => text.clone(),
                None => String::from_str("manifest rejected"),
            },
        ),
    )
}

/// Whether a transfer that stops counts as one that was active until now. `known` is the
/// state in which it is on record, where it is.
pub fn was_active(known: Option<TransferState>) -> (active: bool)
    ensures
        active == (match known {
            Some(state) => state.active(),
            None => true,
        }),
{
    match known {
        Some(state) => state.is_active(),
        None => true,
    }
}

/// What was left at its default is as configured, what was chosen stays, no transfer runs wider
/// than is allowed, and nothing but the size of chunks, the width and the compression is touched.
pub proof fn chosen_options_stay(config: FileTransferConfig, options: TransferOptions)
    ensures
        resolved_options(config, options) matches Ok(o) ==> {
            &&& 1 <= o.chunk_size <= 0xffff_ffff
            &&& options.chunk_size != 1_048_576 ==> o.chunk_size == options.chunk_size
            &&& options.chunk_size == 1_048_576 ==> o.chunk_size == config.default_chunk_size
            &&& 1 <= o.concurrency <= config.max_concurrency
            &&& options.concurrency != 4 && options.concurrency <= config.max_concurrency
                ==> o.concurrency == options.concurrency
            &&& options.concurrency == 4 && config.default_concurrency <= config.max_concurrency
                ==> o.concurrency == config.default_concurrency
            &&& options.concurrency != 4 && options.concurrency > config.max_concurrency
                ==> o.concurrency == config.max_concurrency
            &&& options.concurrency == 4 && config.default_concurrency > config.max_concurrency
                ==> o.concurrency == config.max_concurrency
            &&& options.compression is Uncompressed ==> o.compression == config.default_compression
            &&& !(options.compression is Uncompressed) ==> o.compression == options.compression
            &&& o == (TransferOptions {
                chunk_size: o.chunk_size,
                concurrency: o.concurrency,
                compression: o.compression,
                ..options
            })
        },
{
}

/// A transfer that has a size of chunks and a width to run with can run, and no other can.
pub proof fn usable_options_are_accepted(config: FileTransferConfig, options: TransferOptions)
    ensures
        ({
            let size = if options.chunk_size == 1_048_576 {
                config.default_chunk_size
            } else {
                options.chunk_size
            };
            let width = if options.concurrency == 4 {
                config.default_concurrency
            } else {
                options.concurrency
            };
            let r = resolved_options(config, options);
            &&& r is Ok <==> 1 <= size <= 0xffff_ffff && width > 0 && config.max_concurrency > 0
            &&& r matches Err(e) ==> e is Internal
        }),
{
}

/// A transfer's own limit goes before the limit for all, and zero is no limit.
pub proof fn own_limit_comes_first(config: FileTransferConfig, options: TransferOptions)
    ensures
        options.bandwidth_limit matches Some(own) ==> (limit_of(config, options) is None <==> own == 0)
            && (own > 0 ==> limit_of(config, options) == Some(own)),
        options.bandwidth_limit is None ==> {
            &&& config.global_bandwidth_limit is None ==> limit_of(config, options) is None
            &&& config.global_bandwidth_limit matches Some(all) ==> (limit_of(config, options) is None
                <==> all == 0) && (all > 0 ==> limit_of(config, options) == Some(all))
        },
{
}

/// An earlier transfer is taken up exactly where it is of the same kind, from the same node and
/// path to the same path of the same first target, and may be resumed on both sides.
pub proof fn only_the_same_transfer_is_resumed(
    resume: SessionView,
    kind: TransferKind,
    source_node: NodeId,
    source_path: Seq<char>,
    dest_path: Seq<char>,
    target: NodeId,
    options: TransferOptions,
)
    ensures
        resume_fault(resume, kind, source_node, source_path, dest_path, target, options) is None
            <==> {
            &&& resume.kind == kind
            &&& resume.source_node == source_node
            &&& path_of(resume.source_path) == path_of(source_path)
            &&& path_of(resume.dest_path) == path_of(dest_path)
            &&& resume.target_nodes.len() > 0
            &&& resume.target_nodes[0] == target
            &&& options.resumable
            &&& resume.options.resumable
        },
{
}

/// A manifest is that of the same file as itself, and one whose size, chunks, hash or paths
/// differ is not.
pub proof fn only_the_same_file_is_resumed(m: ManifestView, other: ManifestView)
    ensures
        ({
            let same = resumes_manifest(
                m,
                other.file_size,
                other.chunk_count,
                other.chunk_size,
                other.hash_algorithm,
                other.file_hash,
                other.source_path,
                other.dest_path,
            );
            &&& m == other ==> same
            &&& m.file_size != other.file_size ==> !same
            &&& m.chunk_count != other.chunk_count ==> !same
            &&& m.chunk_size != other.chunk_size ==> !same
            &&& m.hash_algorithm != other.hash_algorithm ==> !same
            &&& m.file_hash != other.file_hash ==> !same
            &&& m.source_path != other.source_path ==> !same
            &&& m.dest_path != other.dest_path ==> !same
        }),
{
}

/// What is announced of a file is what was found of it, under the name that the transfer has.
pub proof fn manifest_tells_of_the_file(
    source_path: String,
    dest_path: String,
    file_size: u64,
    chunk_count: u32,
    chunk_size: u32,
    options: TransferOptions,
    file_hash: Vec<u8>,
    chunks: Vec<ChunkMeta>,
    metadata: FileMetadata,
    session_id: TransferSessionId,
    created_at: u64,
    manifest: TransferManifest,
)
    requires
        call_ensures(
            build_manifest,
            (
                source_path,
                dest_path,
                file_size,
                chunk_count,
                chunk_size,
                &options,
                file_hash,
                chunks,
                metadata,
                session_id,
                created_at,
            ),
            manifest,
        ),
    ensures
        manifest@.session_id == session_id,
        manifest@.source_path == source_path@,
        manifest@.dest_path == dest_path@,
        manifest@.file_size == file_size,
        manifest@.chunk_count == chunk_count,
        manifest@.chunk_size == chunk_size,
        manifest@.file_hash == file_hash@,
        manifest@.hash_algorithm == options.hash_algorithm,
        manifest@.chunks == chunks@,
        manifest@.options == options,
        manifest@.metadata is Some <==> options.preserve_metadata,
        manifest@.metadata matches Some(kept) ==> kept == metadata,
        manifest@.created_at == created_at,
{
}

/// A transfer that is begun here goes from the path that is sent to the path and the node that it
/// is sent to, with what an earlier one has already brought over, and asks its target for just
/// that.
pub proof fn begun_transfer_goes_where_it_is_sent(
    kind: TransferKind,
    source_node: NodeId,
    target: NodeId,
    source_path: String,
    dest_path: String,
    manifest: TransferManifest,
    options: TransferOptions,
    resume: Option<&TransferSession>,
    now: WallTime,
    session: TransferSession,
    request: TransferRequest,
)
    requires
        call_ensures(
            begin_session,
            (kind, source_node, target, source_path, dest_path, manifest, options, resume, now),
            session,
        ),
        call_ensures(transfer_request, (&session,), request),
    ensures
        session@.id == manifest@.session_id,
        session@.kind == kind,
        session@.source_node == source_node,
        session@.target_nodes.len() == 1,
        session@.target_nodes[0] == target,
        session@.source_path == source_path@,
        session@.dest_path == dest_path@,
        session@.manifest == manifest@,
        session@.options == options,
        session@.mode == options.mode,
        session@.state is InProgress,
        session@.control is Running,
        session@.error is None,
        session@.updated_at == now,
        resume is None ==> session@.created_at == now && forall|i: u32| !#[trigger]
            session@.tracker.completed.contains(i),
        resume matches Some(earlier) ==> session@.created_at == earlier@.created_at
            && session@.tracker.completed == earlier@.tracker.completed,
        session@.tracker.total_chunks == manifest@.chunk_count,
        session@.tracker.max_retries == options.retry_policy.max_retries,
        request.source_path@ == manifest@.source_path,
        request.dest_path@ == manifest@.dest_path,
        request.file_size == manifest@.file_size,
        request.chunk_count == manifest@.chunk_count,
        request.chunk_size == manifest@.chunk_size,
        request.mode == options.mode,
        request.options == options,
        request.metadata == manifest@.metadata,
{
}

/// A transfer goes on exactly where its target accepts it, and else fails with the reason that
/// the target gives.
pub proof fn refusal_is_passed_on(
    response: TransferResponse,
    ack: ManifestAck,
    r: Result<(), FileTransferError>,
    s: Result<(), FileTransferError>,
)
    requires
        call_ensures(accept_response, (&response,), r),
        call_ensures(accept_manifest_ack, (&ack,), s),
    ensures
        r is Ok <==> response.accepted,
        r matches Err(e) ==> e@ matches ErrorView::Rejected(text) && (
        response.rejection_reason matches Some(reason) ==> text == reason@),
        s is Ok <==> ack.accepted,
        s matches Err(e) ==> e@ matches ErrorView::Rejected(text) && (ack.error matches Some(reason)
            ==> text == reason@),
{
}

/// The answer that is waited for is handed on as it came, and any other is an error; a transfer
/// that is not known counts as active until now.
pub proof fn only_the_awaited_answer_counts(
    message: FileTransferMessage,
    response: Result<TransferResponse, FileTransferError>,
    ack: Result<ManifestAck, FileTransferError>,
    known: Option<TransferState>,
    active: bool,
)
    requires
        call_ensures(read_transfer_response, (message,), response),
        call_ensures(read_manifest_ack, (message,), ack),
        call_ensures(was_active, (known,), active),
    ensures
        response is Ok <==> message is TransferResponse,
        message matches FileTransferMessage::TransferResponse(said) ==> response == Ok::<
            TransferResponse,
            FileTransferError,
        >(said),
        ack is Ok <==> message is ManifestAck,
        message matches FileTransferMessage::ManifestAck(said) ==> ack == Ok::<
            ManifestAck,
            FileTransferError,
        >(said),
        known is None ==> active,
        known matches Some(state) ==> (active <==> !(state is Completed || state is Failed
            || state is Cancelled)),
{
}

} // verus!

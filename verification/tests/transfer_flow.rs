//! Whole transfers, synchronisations, broadcasts and the service.

use std::cmp::Ordering;
use std::collections::BTreeSet;

use chirps::clock::{Duration, Instant, WallTime};
use chirps::node::NodeId;
use chirps::transfer::broadcast::{BroadcastResult, Ending};
use chirps::transfer::config::FileTransferConfig;
use chirps::transfer::error::{FileTransferError, IoKind, TransferSessionId};
use chirps::transfer::file_ops::{
    file_metadata_from_fs, finish_removal, handle_exists_request, handle_list_request,
    handle_metadata_request, handle_remove_request, metadata_with_size, plan_removal,
    requested_listing, requested_removal, to_unix_seconds, FileFacts, IoFailure, Lister, Removal,
};
use chirps::transfer::integrity::IntegrityVerifier;
use chirps::transfer::listing::sort_files;
use chirps::transfer::manifest::{FileMetadata, FileType, TransferManifest};
use chirps::transfer::messages::{
    ChunkAck, FileInfo, FileTransferMessage, ManifestAck, TransferComplete, TransferErrorMessage,
    TransferRequest, TransferResponse,
};
use chirps::transfer::options::{
    CompressionAlgorithm, ConflictResolution, HashAlgorithm, ListOptions, RemoveOptions, SortBy,
    SyncDirection, SyncOptions, TransferMode, TransferOptions,
};
use chirps::transfer::progress::TransferProgress;
use chirps::transfer::receive::{
    apply_preserved_metadata, check_destination, check_file_hash, preserved, temp_path_for,
    unpack_chunk, ChunkCheck, Noted, Opened, ReceiveHandler, ReceiveOutcome,
};
use chirps::transfer::send::{
    accept_manifest_ack, accept_response, begin_session, build_manifest, check_resume,
    check_resume_manifest, read_manifest_ack, read_transfer_response, transfer_request,
};
use chirps::transfer::send_loop::{
    check_completion, chunks_to_skip, effective_concurrency, SendAction, SendLoop, SendStep,
};
use chirps::transfer::service::{
    answer_request, cancel_targets, control_step, read_exists_response, read_list_response,
    read_metadata, read_remove_response, ControlStep, FileTransferServiceImpl,
};
use chirps::transfer::session::{
    TransferControlState, TransferKind, TransferSession, TransferState,
};
use chirps::transfer::sync::{
    compare_modified, decide_action, decide_bidirectional, decide_pull, decide_push, hear,
    hear_nothing, plan_sync, progress_from_session, pushed_handle, read_metadata_response,
    resolve_pull_conflict, resolve_push_conflict, unchanged_handle, LocalFile, PullStep, PullWait,
    SyncAction,
};

const SENDER: NodeId = NodeId { id: 1 };
const RECEIVER: NodeId = NodeId { id: 2 };

fn id(n: u128) -> TransferSessionId {
    TransferSessionId { id: n }
}

fn at(secs: i128) -> WallTime {
    WallTime { nanos: secs * 1_000_000_000 }
}

fn tick(millis: u64) -> Instant {
    Instant { nanos: millis as u128 * 1_000_000 }
}

fn data() -> Vec<u8> {
    (0..25u8).collect()
}

fn options() -> TransferOptions {
    TransferOptions::default()
        .with_hash_algorithm(HashAlgorithm::Sha256)
        .with_compression(CompressionAlgorithm::Uncompressed)
        .with_resumable(true)
        .with_verify_on_complete(true)
}

fn manifest_of(data: &[u8], options: &TransferOptions) -> TransferManifest {
    let (hash, chunks) =
        IntegrityVerifier::compute_file_hash_and_chunk_metas(data, options.hash_algorithm, 10)
            .unwrap();
    build_manifest(
        "src.bin".into(),
        "dst.bin".into(),
        data.len() as u64,
        chunks.len() as u32,
        10,
        options,
        hash,
        chunks,
        metadata(),
        id(7),
        50,
    )
}

fn metadata() -> FileMetadata {
    FileMetadata {
        created_at: None,
        modified_at: Some(1_700_000_000),
        permissions: Some(0o640),
        file_type: FileType::File,
        size: Some(25),
    }
}

fn sender_session(options: TransferOptions, resume: Option<&TransferSession>) -> TransferSession {
    begin_session(
        TransferKind::Send,
        SENDER,
        RECEIVER,
        "src.bin".into(),
        "dst.bin".into(),
        manifest_of(&data(), &options),
        options,
        resume,
        at(100),
    )
}

fn open(handler: &mut ReceiveHandler, options: &TransferOptions) -> Opened {
    let manifest = manifest_of(&data(), options);
    assert!(ReceiveHandler::refuse_invalid(&manifest).is_none());
    assert!(handler.refuse_mismatch(&manifest, None).is_none());
    handler.open_session(SENDER, manifest, "/base/dst.bin".into(), None, at(100))
}

fn chunk(index: u32) -> Vec<u8> {
    let start = index as usize * 10;
    data()[start..(start + 10).min(25)].to_vec()
}

/// Takes a chunk in, and tells whether the file can be put in its place.
fn receive(handler: &mut ReceiveHandler, file: &mut Vec<u8>, index: u32, data: Vec<u8>) -> Result<bool, String> {
    let check = handler.check_chunk(id(7), index, &data);
    if let Some(text) = check.refusal() {
        return Err(text);
    }
    if let ChunkCheck::Write { offset, .. } = check {
        let start = offset as usize;
        file[start..start + data.len()].copy_from_slice(&data);
    }
    match handler.note_chunk(id(7), index, at(101)) {
        Noted::Arrived { .. } => Ok(handler.settle_chunk(id(7), index, data).1),
        _ => Err("stopped".into()),
    }
}

fn ack(index: u32, verified: bool) -> Result<FileTransferMessage, FileTransferError> {
    Ok(FileTransferMessage::ChunkAck(ChunkAck {
        index,
        verified,
        error: if verified { None } else { Some("checksum mismatch".into()) },
    }))
}

#[test]
fn file_is_sent_chunk_by_chunk() {
    let mut handler = ReceiveHandler::new();
    let opened = open(&mut handler, &options());
    assert!(opened.skip_chunks.is_empty());
    assert!(!opened.finalize);
    let mut file = vec![0u8; 25];
    let skip = chunks_to_skip(&[], &opened.skip_chunks);
    let mut sending = SendLoop::new(sender_session(options(), None), &skip, 2);
    let mut finished = false;
    let mut launched: Vec<u32> = Vec::new();
    loop {
        match sending.step(TransferControlState::Running, tick(0)) {
            SendStep::Finished => break,
            SendStep::Launch(chunks) => {
                assert!(sending.chunks_in_flight() <= 2);
                for index in chunks {
                    launched.push(index);
                    assert!(sending.started_at(index).is_some());
                    assert!(matches!(sending.on_sent(index, Ok(()), at(100)), SendAction::Continue));
                    let due = receive(&mut handler, &mut file, index, chunk(index)).unwrap();
                    finished = finished || due;
                    assert!(matches!(sending.on_message(ack(index, true), at(101)), SendAction::Continue));
                }
            }
            _ => panic!("the transfer is running"),
        }
    }
    assert_eq!(launched, vec![0, 1, 2]);
    assert!(finished);
    assert_eq!(file, data());
    assert_eq!(sending.conclude(at(102)), Ok(true));
    assert_eq!(sending.progress().bytes_transferred, 25);
    assert_eq!(sending.progress().chunks_completed, 3);

    let hash = handler.take_hash(id(7), 3).unwrap();
    let manifest = manifest_of(&data(), &options());
    assert!(check_file_hash(&manifest, &hash).is_ok());
    assert_eq!(handler.complete_session(id(7), at(102)), Some((true, 2_000)));
    let complete = FileTransferMessage::Complete(TransferComplete {
        bytes_transferred: 25,
        duration_ms: 2_000,
        file_hash: hash.clone(),
        hash_algorithm: HashAlgorithm::Sha256,
    });
    assert!(check_completion(RECEIVER, RECEIVER, &complete, 25, &hash, HashAlgorithm::Sha256).is_ok());
    assert!(check_completion(RECEIVER, RECEIVER, &complete, 24, &hash, HashAlgorithm::Sha256).is_err());
    sending.complete(at(103));
    assert_eq!(sending.session().state, TransferState::Completed);
    assert!(!sending.removes_source(true));
    let moved = SendLoop::new(
        sender_session(options().with_mode(TransferMode::Move), None),
        &skip,
        1,
    );
    assert!(moved.removes_source(true));
    assert!(!moved.removes_source(false));
}

#[test]
fn send_file_retries_on_stream_failure() {
    let mut sending = SendLoop::new(sender_session(options(), None), &BTreeSet::new(), 1);
    assert!(matches!(
        sending.step(TransferControlState::Running, tick(0)),
        SendStep::Launch(chunks) if chunks == vec![0]
    ));
    let action = sending.on_sent(0, Err(FileTransferError::Transport("reset".into())), at(100));
    assert!(matches!(action, SendAction::Retry { index: 0, attempt: 1 }));
    assert_eq!(sending.chunks_in_flight(), 0);
    sending.on_retry_due(0);
    let mut again: Vec<u32> = Vec::new();
    for _ in 0..3 {
        if let SendStep::Launch(chunks) = sending.step(TransferControlState::Running, tick(1)) {
            for index in chunks {
                again.push(index);
                sending.on_sent(index, Ok(()), at(101));
                sending.on_message(ack(index, true), at(101));
            }
        }
    }
    again.sort();
    assert_eq!(again, vec![0, 1, 2]);
    assert_eq!(sending.conclude(at(102)), Ok(true));
}

#[test]
fn send_file_retries_after_corrupted_chunk() {
    let mut handler = ReceiveHandler::new();
    open(&mut handler, &options());
    let mut file = vec![0u8; 25];
    let mut corrupted = chunk(0);
    corrupted[3] ^= 0xff;
    assert_eq!(
        receive(&mut handler, &mut file, 0, corrupted),
        Err("checksum mismatch".into())
    );
    let failed = handler.session_snapshot(id(7)).unwrap().chunk_tracker.failed;
    assert_eq!(failed.get(&0), Some(&1));
    let mut sending = SendLoop::new(sender_session(options(), None), &BTreeSet::new(), 1);
    sending.step(TransferControlState::Running, tick(0));
    assert!(
        matches!(
            sending.on_message(ack(0, false), at(101)),
            SendAction::Retry { index: 0, attempt: 1 }
        ),
        "a checksum NACK must cause the sender to retry the corrupted chunk"
    );
    assert_eq!(receive(&mut handler, &mut file, 0, chunk(0)), Ok(false));
}

#[test]
fn chunk_that_fails_too_often_fails_the_transfer() {
    let mut sending = SendLoop::new(sender_session(options(), None), &BTreeSet::new(), 3);
    sending.step(TransferControlState::Running, tick(0));
    for attempt in 1..=3u8 {
        let action = sending.on_sent(1, Err(FileTransferError::Timeout), at(100));
        assert!(matches!(action, SendAction::Retry { index: 1, attempt: n } if n == attempt));
        sending.on_retry_due(1);
        sending.step(TransferControlState::Running, tick(1));
    }
    let action = sending.on_sent(1, Err(FileTransferError::Timeout), at(100));
    assert!(matches!(action, SendAction::Fail(_)));
    assert_eq!(sending.session().state, TransferState::Failed);
}

#[test]
fn cancelled_and_paused_transfers_launch_nothing() {
    let mut sending = SendLoop::new(sender_session(options(), None), &BTreeSet::new(), 3);
    assert!(matches!(
        sending.step(TransferControlState::Paused, tick(0)),
        SendStep::WaitForControl
    ));
    assert!(matches!(
        sending.step(TransferControlState::Cancelled, tick(0)),
        SendStep::Cancelled
    ));
    sending.cancel(at(100));
    assert_eq!(sending.session().state, TransferState::Cancelled);
    let message = Ok(FileTransferMessage::Cancel("enough".into()));
    let mut sending = SendLoop::new(sender_session(options(), None), &BTreeSet::new(), 3);
    assert!(matches!(sending.on_message(message, at(100)), SendAction::Cancel));
    assert_eq!(sending.session().control, TransferControlState::Cancelled);
    assert_eq!(effective_concurrency(9, 4), 4);
}

#[test]
fn incomplete_transfer_is_told() {
    let mut sending = SendLoop::new(sender_session(options(), None), &BTreeSet::new(), 1);
    assert_eq!(
        sending.conclude(at(100)).unwrap_err().message(),
        "internal error: transfer incomplete after sending chunks"
    );
    assert_eq!(sending.session().state, TransferState::Failed);
}

#[test]
fn refused_transfers_are_told_to_the_sender() {
    let accepted = TransferResponse {
        accepted: true,
        rejection_reason: None,
        existing_chunks: vec![1],
    };
    assert!(accept_response(&accepted).is_ok());
    let refused = TransferResponse {
        accepted: false,
        rejection_reason: Some("destination already exists".into()),
        existing_chunks: Vec::new(),
    };
    assert_eq!(
        accept_response(&refused),
        Err(FileTransferError::Rejected("destination already exists".into()))
    );
    let ack = ManifestAck {
        accepted: false,
        skip_chunks: Vec::new(),
        error: Some("resume manifest mismatch".into()),
    };
    assert!(accept_manifest_ack(&ack).is_err());
    assert_eq!(
        chunks_to_skip(&[3, 1], &[1, 2]).into_iter().collect::<Vec<u32>>(),
        vec![1, 2, 3]
    );
}

fn request(options: TransferOptions) -> TransferRequest {
    TransferRequest {
        source_path: "src.bin".into(),
        dest_path: "dst.bin".into(),
        file_size: 25,
        chunk_count: 3,
        chunk_size: 10,
        mode: options.mode,
        metadata: None,
        options,
    }
}

#[test]
fn resumed_transfer_skips_what_has_arrived() {
    let mut handler = ReceiveHandler::new();
    open(&mut handler, &options());
    let mut file = vec![0u8; 25];
    receive(&mut handler, &mut file, 2, chunk(2)).unwrap();
    receive(&mut handler, &mut file, 0, chunk(0)).unwrap();
    let kept = handler.session_snapshot(id(7)).unwrap();

    // The receiver is started anew and has only what was kept.
    let mut handler = ReceiveHandler::new();
    let response = handler.handle_transfer_request(id(7), &request(options()), false, Some(&kept));
    assert!(response.accepted);
    assert_eq!(response.existing_chunks, vec![0, 2]);
    let manifest = manifest_of(&data(), &options());
    assert!(handler.refuse_mismatch(&manifest, Some(&kept)).is_none());
    let opened = handler.open_session(SENDER, manifest, "/base/dst.bin".into(), Some(&kept), at(200));
    assert_eq!(opened.skip_chunks, vec![0, 2]);
    assert_eq!(handler.session_snapshot(id(7)).unwrap().created_at, at(100));
    let skip = chunks_to_skip(&response.existing_chunks, &opened.skip_chunks);
    let mut sending = SendLoop::new(sender_session(options(), None), &skip, 4);
    assert_eq!(sending.progress().bytes_transferred, 15);
    assert!(matches!(
        sending.step(TransferControlState::Running, tick(0)),
        SendStep::Launch(chunks) if chunks == vec![1]
    ));
    assert_eq!(receive(&mut handler, &mut file, 1, chunk(1)), Ok(true));
    assert_eq!(file, data());
    // What arrived before was not hashed as it arrived.
    assert_eq!(handler.take_hash(id(7), 3), None);
}

#[test]
fn requests_that_do_not_fit_are_refused() {
    let mut handler = ReceiveHandler::new();
    let plain = options().with_overwrite(false);
    let response = handler.handle_transfer_request(id(7), &request(plain), true, None);
    assert_eq!(response.rejection_reason, Some("destination already exists".into()));
    open(&mut handler, &options());
    let mut other = request(options());
    other.file_size = 26;
    let response = handler.handle_transfer_request(id(7), &other, false, None);
    assert_eq!(response.rejection_reason, Some("resume session mismatch".into()));
    let before = handler.session_snapshot(id(7)).unwrap();

    let mut changed = manifest_of(&data(), &options());
    changed.file_hash[0] ^= 1;
    let ack = handler.refuse_mismatch(&changed, None).unwrap();
    assert_eq!(ack.error, Some("resume manifest mismatch".into()));
    let mut invalid = manifest_of(&data(), &options());
    invalid.chunk_count = 9;
    assert!(!ReceiveHandler::refuse_invalid(&invalid).unwrap().accepted);
    assert_eq!(
        format!("{:?}", handler.session_snapshot(id(7)).unwrap()),
        format!("{before:?}")
    );

    let once = options().with_resumable(false);
    let mut handler = ReceiveHandler::new();
    open(&mut handler, &once);
    let ack = handler.refuse_mismatch(&manifest_of(&data(), &once), None).unwrap();
    assert_eq!(ack.error, Some("session already exists".into()));
}

#[test]
fn chunks_that_were_not_announced_are_refused() {
    let mut handler = ReceiveHandler::new();
    assert_eq!(handler.check_chunk(id(7), 0, b""), ChunkCheck::UnknownSession);
    assert_eq!(
        ChunkCheck::UnknownSession.error(id(7), 0),
        Some(FileTransferError::SessionNotFound(id(7)))
    );
    open(&mut handler, &options());
    let check = handler.check_chunk(id(7), 3, b"");
    assert_eq!(check.refusal(), Some("invalid chunk index".into()));
    assert_eq!(
        check.error(id(7), 3),
        Some(FileTransferError::ChunkChecksumMismatch { index: 3 })
    );
    let check = handler.check_chunk(id(7), 0, b"short");
    assert_eq!(check.refusal(), Some("chunk size mismatch".into()));
    assert_eq!(handler.payload_rule(id(7), 2), Some((CompressionAlgorithm::Uncompressed, Some(5))));
    assert_eq!(handler.payload_rule(id(8), 2), None);
    assert_eq!(
        ReceiveOutcome::refused(id(7), 3),
        ReceiveOutcome { session_id: id(7), chunk_index: 3, verified: false, completed: false }
    );
    assert!(ReceiveOutcome::arrived(id(7), 3, true).completed);
    let text = unpack_chunk(b"junk", CompressionAlgorithm::Zstd, Some(5)).unwrap_err();
    assert!(text.starts_with("chunk decompression failed: compression error: "));
}

#[test]
fn file_is_finished_once_and_lost_progress_is_taken_back() {
    let mut handler = ReceiveHandler::new();
    open(&mut handler, &options());
    let mut file = vec![0u8; 25];
    receive(&mut handler, &mut file, 1, chunk(1)).unwrap();
    handler.take_back_chunk(id(7), 1, at(101));
    let session = handler.session_snapshot(id(7)).unwrap();
    assert!(session.chunk_tracker.completed.is_empty());
    let dues: Vec<bool> = [0, 2, 1, 1]
        .iter()
        .map(|i| receive(&mut handler, &mut file, *i, chunk(*i)).unwrap())
        .collect();
    assert_eq!(dues, vec![false, false, true, false]);
    assert_eq!(
        handler.fail_session(id(7), &FileTransferError::FileHashMismatch, at(102)),
        Some(true)
    );
    assert_eq!(handler.note_chunk(id(7), 0, at(103)), Noted::Stopped);
    assert_eq!(
        handler.session_snapshot(id(7)).unwrap().error,
        Some("file hash mismatch".into())
    );
    assert_eq!(handler.note_chunk(id(8), 0, at(103)), Noted::UnknownSession);
    handler.abandon(id(7));
    assert!(handler.session_snapshot(id(7)).is_none());
}

#[test]
fn empty_file_is_finished_at_once() {
    let mut handler = ReceiveHandler::new();
    handler.mark_sync_session(id(7));
    let manifest = manifest_of(b"", &options());
    let opened = handler.open_session(SENDER, manifest, "/base/dst.bin".into(), None, at(100));
    assert!(opened.finalize);
    assert_eq!(opened.kind, TransferKind::Sync);
    assert_eq!(handler.control_of(id(7)), Some((TransferControlState::Running, TransferKind::Sync)));
    assert_eq!(handler.cancel_session(id(7), "cancelled".into(), at(101)), Some((true, true)));
    assert_eq!(handler.cancel_session(id(7), "cancelled".into(), at(102)), Some((false, true)));
}

#[test]
fn file_takes_its_place_only_where_it_may() {
    let manifest = manifest_of(&data(), &options().with_overwrite(false));
    assert_eq!(
        check_destination(&manifest, true, "/base/dst.bin"),
        Err(FileTransferError::FileAlreadyExists("/base/dst.bin".into()))
    );
    assert!(check_destination(&manifest, false, "/base/dst.bin").is_ok());
    assert_eq!(
        check_file_hash(&manifest, b"other"),
        Err(FileTransferError::FileHashMismatch)
    );
    let unchecked = manifest_of(&data(), &options().with_verify_on_complete(false));
    assert!(check_file_hash(&unchecked, b"other").is_ok());
    assert_eq!(
        temp_path_for(Some("/tmp/parts"), "/base/dst.bin", id(0xab)),
        "/tmp/parts/session_000000000000000000000000000000ab.tmp"
    );
    assert_eq!(
        temp_path_for(None, "/base/dst.bin", id(0xab)),
        "/base/dst.bin.000000000000000000000000000000ab.part"
    );
}

#[test]
fn send_file_preserves_unix_permissions_and_modified_time() {
    let manifest = manifest_of(&data(), &options().with_preserve_metadata(true));
    let set = apply_preserved_metadata(&preserved(&manifest).unwrap()).unwrap();
    assert_eq!(set.permissions, Some(0o640));
    assert_eq!(set.modified_at, Some(1_700_000_000));
    let manifest = manifest_of(&data(), &options().with_preserve_metadata(false));
    assert_eq!(preserved(&manifest), None);
    let far = FileMetadata { modified_at: Some(u64::MAX), ..metadata() };
    assert_eq!(
        apply_preserved_metadata(&far).unwrap_err().message(),
        "internal error: modified time does not fit in i64"
    );
}

#[test]
fn only_the_same_transfer_is_taken_up() {
    let session = sender_session(options(), None);
    let check = |kind: TransferKind, node: NodeId, dest: &str, target: NodeId| {
        check_resume(&session, kind, node, "src.bin", dest, target, &options())
    };
    assert_eq!(check(TransferKind::Send, SENDER, "dst.bin/", RECEIVER), Ok(id(7)));
    let texts: Vec<String> = vec![
        check(TransferKind::Sync, SENDER, "dst.bin", RECEIVER),
        check(TransferKind::Send, RECEIVER, "dst.bin", RECEIVER),
        check(TransferKind::Send, SENDER, "other.bin", RECEIVER),
        check(TransferKind::Send, SENDER, "dst.bin", SENDER),
    ]
    .into_iter()
    .map(|r| r.unwrap_err().message())
    .collect();
    assert_eq!(
        texts,
        vec![
            "internal error: resume session kind mismatch",
            "internal error: resume source node mismatch",
            "internal error: resume destination path mismatch",
            "internal error: resume target mismatch",
        ]
    );
    let manifest = &session.manifest;
    let same = |size: u64| {
        check_resume_manifest(
            manifest,
            size,
            3,
            10,
            HashAlgorithm::Sha256,
            &manifest.file_hash,
            "src.bin",
            "dst.bin",
        )
    };
    assert!(same(25).is_ok());
    assert!(same(26).is_err());
}

#[test]
fn newer_side_wins() {
    let zero = Duration::from_secs(0);
    assert_eq!(compare_modified(Some(5), Some(3), zero), Some(Ordering::Greater));
    assert_eq!(compare_modified(Some(3), Some(5), zero), Some(Ordering::Less));
    assert_eq!(compare_modified(Some(5), Some(5), zero), None);
    assert_eq!(compare_modified(Some(5), Some(3), Duration::from_secs(2)), None);
    assert_eq!(compare_modified(None, Some(3), zero), None);
    let (newer, manual) = (ConflictResolution::NewerWins, ConflictResolution::Manual);
    assert_eq!(decide_push(None, true, false, newer, "f"), Ok(SyncAction::Push));
    assert_eq!(
        decide_push(None, false, true, newer, "f"),
        Err(FileTransferError::FileNotFound("f".into()))
    );
    assert_eq!(
        decide_push(Some(Ordering::Less), true, true, newer, "f"),
        Ok(SyncAction::Nothing)
    );
    assert_eq!(decide_pull(None, true, false, newer, "f"), Ok(SyncAction::Nothing));
    assert_eq!(decide_pull(None, false, true, newer, "f"), Ok(SyncAction::Pull));
    assert_eq!(
        decide_pull(Some(Ordering::Greater), true, true, ConflictResolution::SourceWins, "f"),
        Ok(SyncAction::Pull)
    );
    assert_eq!(
        decide_bidirectional(Some(Ordering::Less), true, true, newer, "f"),
        Ok(SyncAction::Pull)
    );
    assert_eq!(
        decide_bidirectional(None, true, true, manual, "f"),
        Err(FileTransferError::SyncConflict { path: "f".into() })
    );
    assert_eq!(
        decide_action(SyncDirection::Bidirectional, None, false, false, newer, "f"),
        Ok(SyncAction::Nothing)
    );
    assert_eq!(resolve_push_conflict(ConflictResolution::SourceWins, "f"), Ok(SyncAction::Push));
    assert_eq!(resolve_pull_conflict(ConflictResolution::TargetWins, "f"), Ok(SyncAction::Nothing));
}

fn remote(second: u64) -> FileMetadata {
    FileMetadata { modified_at: Some(second), ..metadata() }
}

#[test]
fn sync_push_transfers_to_remote() {
    let options = SyncOptions::default().with_direction(SyncDirection::Push);
    let local = LocalFile { size: 12 * 1024, modified: Some(at(50)) };
    let plan = plan_sync(&options, Some(local), None, "sync.txt").expect("sync");
    assert_eq!(plan.action, SyncAction::Push);
    assert!(!plan.transfer.overwrite);
    let mut sent = TransferProgress::new(12 * 1024);
    sent.update(12 * 1024, 2);
    let handle = pushed_handle(local.size, sent);
    assert_eq!(handle.progress().bytes_transferred, 12 * 1024);
    assert_eq!(unchanged_handle(9).progress().bytes_transferred, 9);
}

#[test]
fn sync_pull_receives_from_remote() {
    let options = SyncOptions::default().with_direction(SyncDirection::Pull);
    let plan = plan_sync(&options, None, Some(remote(50)), "pull.txt").unwrap();
    assert_eq!(plan.action, SyncAction::Pull);
    let mut wait = PullWait::new(tick(0), Duration::from_secs(10), Duration::from_secs(5));
    assert_eq!(
        wait.look(None, tick(0)),
        Ok(PullStep::Listen(Duration::from_millis(100)))
    );
    assert_eq!(
        wait.look(None, tick(9_950)),
        Ok(PullStep::Listen(Duration::from_millis(50)))
    );
    assert_eq!(wait.look(None, tick(10_000)), Err(FileTransferError::Timeout));

    let mut handler = ReceiveHandler::new();
    open(&mut handler, &TransferOptions { resumable: true, ..self::options() });
    let mut file = vec![0u8; 25];
    receive(&mut handler, &mut file, 2, chunk(2)).unwrap();
    let session = handler.session_snapshot(id(7)).unwrap();
    assert_eq!(progress_from_session(&session), (5, 1));
    assert_eq!(
        wait.look(Some(&session), tick(200)),
        Ok(PullStep::Pause(Duration::from_millis(200)))
    );
    assert_eq!(wait.handle.progress().bytes_transferred, 5);
    assert_eq!(wait.handle.progress().total_bytes, 25);
    assert_eq!(
        wait.look(Some(&session), tick(5_200)),
        Ok(PullStep::Pause(Duration::from_millis(200)))
    );
    assert_eq!(wait.look(Some(&session), tick(5_201)), Err(FileTransferError::Timeout));
    receive(&mut handler, &mut file, 0, chunk(0)).unwrap();
    receive(&mut handler, &mut file, 1, chunk(1)).unwrap();
    handler.complete_session(id(7), at(102));
    let session = handler.session_snapshot(id(7)).unwrap();
    assert_eq!(wait.look(Some(&session), tick(5_300)), Ok(PullStep::Done));
    assert_eq!(wait.handle.progress().bytes_transferred, 25);
    assert_eq!(wait.handle.progress().chunks_completed, 3);
}

#[test]
fn failed_and_cancelled_pulls_are_told() {
    let mut wait = PullWait::new(tick(0), Duration::from_secs(10), Duration::from_secs(5));
    let mut session = sender_session(options(), None);
    session.fail("broken".into(), at(101));
    assert_eq!(
        wait.look(Some(&session), tick(1)),
        Err(FileTransferError::Internal("broken".into()))
    );
    session.error = None;
    assert_eq!(
        wait.look(Some(&session), tick(1)),
        Err(FileTransferError::Internal("transfer failed".into()))
    );
    session.cancel("enough".into(), at(102));
    assert_eq!(wait.look(Some(&session), tick(1)), Err(FileTransferError::Cancelled));
    let error = FileTransferMessage::Error(TransferErrorMessage {
        code: 9001,
        message: "no such file".into(),
        recoverable: false,
    });
    assert_eq!(
        hear(RECEIVER, RECEIVER, &error),
        Err(FileTransferError::Transport("no such file".into()))
    );
    assert_eq!(hear(RECEIVER, SENDER, &error), Ok(()));
    assert_eq!(
        hear(RECEIVER, RECEIVER, &FileTransferMessage::Cancel("x".into())),
        Err(FileTransferError::Cancelled)
    );
    assert_eq!(hear_nothing(FileTransferError::Timeout), Ok(()));
    assert!(hear_nothing(FileTransferError::Transport("closed".into())).is_err());
}

#[test]
fn sync_bidirectional_pulls_remote_newer_without_manual_send() {
    let options = SyncOptions::default()
        .with_direction(SyncDirection::Bidirectional)
        .with_conflict_resolution(ConflictResolution::NewerWins)
        .with_clock_skew_tolerance(Duration::from_secs(0));
    let local = LocalFile { size: 4 * 1024, modified: Some(at(50)) };
    let plan = plan_sync(&options, Some(local), Some(remote(51)), "sync.txt").unwrap();
    assert_eq!(plan.action, SyncAction::Pull);
    assert!(plan.transfer.overwrite);
    let mirrored = plan_sync(
        &options,
        Some(LocalFile { size: 1, modified: Some(at(51)) }),
        Some(remote(50)),
        "sync.txt",
    )
    .unwrap();
    assert_eq!(mirrored.action, SyncAction::Push);
}

#[test]
fn sync_bidirectional_conflict_manual() {
    let options = SyncOptions::default()
        .with_direction(SyncDirection::Bidirectional)
        .with_conflict_resolution(ConflictResolution::Manual);
    let local = LocalFile { size: 4 * 1024, modified: Some(at(50)) };
    let result = plan_sync(&options, Some(local), Some(remote(50)), "conflict.txt");
    assert!(matches!(result, Err(FileTransferError::SyncConflict { .. })));
}

#[test]
fn broadcast_file_all_success() {
    let (b, c) = (NodeId { id: 2 }, NodeId { id: 3 });
    let mut result = BroadcastResult::new(&[b, c], 32 * 1024);
    result.take_ending(SENDER, Ending::Sent(b, sender_session(options(), None)));
    result.take_ending(SENDER, Ending::Sent(c, sender_session(options(), None)));
    for node in [b, c] {
        let status = result.handle.progress_of(node).unwrap();
        assert!(status.error.is_none());
        assert_eq!(status.state, TransferState::Completed);
    }
    assert_eq!(result.sessions.len(), 2);
    assert!(result.removes_source(TransferMode::Move));
    assert!(!result.removes_source(TransferMode::Copy));
}

#[test]
fn broadcast_file_partial_failure_keeps_source_on_move() {
    let (b, c) = (NodeId { id: 2 }, NodeId { id: 3 });
    let mut result = BroadcastResult::new(&[b, c], 32 * 1024);
    result.take_ending(SENDER, Ending::Sent(b, sender_session(options(), None)));
    let refused = FileTransferError::Rejected("destination already exists".into());
    result.take_ending(SENDER, Ending::Failed(c, refused));
    let status = result.handle.progress_of(c).expect("third status");
    assert_eq!(status.state, TransferState::Failed);
    assert_eq!(
        status.error,
        Some("peer rejected: destination already exists".into())
    );
    assert!(!result.removes_source(TransferMode::Move));
    result.take_ending(SENDER, Ending::NoSlot(c));
    result.take_ending(SENDER, Ending::Lost("panicked".into()));
    let texts: Vec<(NodeId, String)> =
        result.errors.iter().map(|(n, e)| (*n, e.message())).collect();
    assert_eq!(texts[1], (c, "internal error: transfer slots are closed".into()));
    assert_eq!(
        texts[2],
        (SENDER, "internal error: broadcast task failed: panicked".into())
    );
}

fn facts(is_dir: bool, size: u64, second: i128) -> FileFacts {
    FileFacts {
        is_dir,
        is_file: !is_dir,
        size,
        created: None,
        modified: Some(at(second)),
        permissions: Some(0o600),
    }
}

fn failure(kind: IoKind) -> IoFailure {
    IoFailure { kind, text: "gone".into() }
}

#[test]
fn file_ops_round_trip() {
    let found = facts(false, 5, 60);
    let exists = FileTransferMessage::ExistsResponse(handle_exists_request(Some(found)));
    assert_eq!(read_exists_response(&exists), Ok(true));
    let response = handle_metadata_request(metadata_with_size(Ok(found)));
    let message = FileTransferMessage::MetadataResponse(response);
    let metadata = read_metadata(&message, "data/sample.txt").expect("metadata");
    assert_eq!(metadata.size, Some(5));
    assert_eq!(read_metadata_response(&message), Ok(Some(metadata)));

    let mut lister = Lister::new("data".into(), requested_listing(false, false));
    assert_eq!(lister.next_directory(), Some("data".into()));
    assert!(lister.wants("sample.txt"));
    lister.take_entry("data/sample.txt".into(), &found).unwrap();
    assert_eq!(lister.next_directory(), None);
    let listed = FileTransferMessage::ListResponse(handle_list_request(Ok(lister.finish())));
    let files = read_list_response(listed, &ListOptions::default()).expect("list");
    assert!(files.iter().any(|info| info.path.ends_with("sample.txt")));

    let options = requested_removal(false, false);
    assert_eq!(plan_removal(Ok(found), &options), Ok(Removal::File));
    let done = finish_removal(Ok(()), &options);
    let message = FileTransferMessage::RemoveResponse(handle_remove_request(done));
    assert_eq!(read_remove_response(&message), Ok(()));
    let exists = FileTransferMessage::ExistsResponse(handle_exists_request(None));
    assert_eq!(read_exists_response(&exists), Ok(false));

    // What is missing is an error only for who minds.
    let strict = plan_removal(Err(failure(IoKind::NotFound)), &requested_removal(false, false));
    let message =
        FileTransferMessage::RemoveResponse(handle_remove_request(strict.map(|_| ())));
    assert_eq!(
        read_remove_response(&message),
        Err(FileTransferError::Internal("file not found: gone".into()))
    );
    let lenient = requested_removal(false, true);
    assert_eq!(
        plan_removal(Err(failure(IoKind::NotFound)), &lenient),
        Ok(Removal::Nothing)
    );
}

#[test]
fn removals_take_as_much_as_was_asked_for() {
    let options = RemoveOptions { recursive: false, ignore_not_found: true };
    assert_eq!(plan_removal(Ok(facts(true, 0, 0)), &options), Ok(Removal::Directory));
    assert_eq!(
        plan_removal(Ok(facts(true, 0, 0)), &options.with_recursive(true)),
        Ok(Removal::Tree)
    );
    assert_eq!(finish_removal(Err(failure(IoKind::NotFound)), &options), Ok(()));
    assert_eq!(
        finish_removal(Err(failure(IoKind::PermissionDenied)), &options),
        Err(FileTransferError::PermissionDenied("gone".into()))
    );
    assert_eq!(
        to_unix_seconds(None).unwrap_err().message(),
        "internal error: timestamp conversion failed"
    );
    assert_eq!(file_metadata_from_fs(&facts(true, 9, 3)).file_type, FileType::Directory);
    let missing = handle_metadata_request(metadata_with_size(Err(failure(IoKind::NotFound))));
    assert!(!missing.found && missing.error.is_none());
    let message = FileTransferMessage::MetadataResponse(missing);
    assert_eq!(
        read_metadata(&message, "a"),
        Err(FileTransferError::FileNotFound("a".into()))
    );
    let broken = handle_metadata_request(metadata_with_size(Err(failure(IoKind::Other))));
    assert_eq!(broken.error, Some("io error: gone".into()));
    let wrong = FileTransferMessage::Cancel("x".into());
    assert!(read_exists_response(&wrong).is_err());
    assert!(read_remove_response(&wrong).is_err());
    assert!(read_metadata(&wrong, "a").is_err());
    assert!(read_metadata_response(&wrong).is_err());
    assert!(read_list_response(wrong, &ListOptions::default()).is_err());
}

fn info(path: &str, size: u64, modified_at: u64, file_type: FileType) -> FileInfo {
    FileInfo { path: path.into(), size, modified_at, file_type }
}

fn paths(files: &[FileInfo]) -> Vec<&str> {
    files.iter().map(|f| f.path.as_str()).collect()
}

fn files() -> Vec<FileInfo> {
    vec![
        info("d/c.txt", 2, 9, FileType::File),
        info("d/a.txt", 5, 1, FileType::File),
        info("d/sub", 2, 4, FileType::Directory),
        info("d/b.log", 2, 9, FileType::File),
        info("d/B", 1, 4, FileType::Symlink),
    ]
}

#[test]
fn listings_are_sorted_and_keep_the_order_of_what_ranks_alike() {
    let by_name = sort_files(files(), SortBy::Name);
    assert_eq!(paths(&by_name), vec!["d/B", "d/a.txt", "d/b.log", "d/c.txt", "d/sub"]);
    let by_size = sort_files(files(), SortBy::Size);
    assert_eq!(paths(&by_size), vec!["d/B", "d/c.txt", "d/sub", "d/b.log", "d/a.txt"]);
    let by_time = sort_files(files(), SortBy::ModifiedTime);
    assert_eq!(paths(&by_time), vec!["d/a.txt", "d/sub", "d/B", "d/c.txt", "d/b.log"]);
    let many: Vec<FileInfo> = (0..200u64)
        .map(|n| info(&format!("{n}"), n * 7 % 13, n, FileType::File))
        .collect();
    let mut expected: Vec<(u64, u64)> = many.iter().map(|f| (f.size, f.modified_at)).collect();
    expected.sort();
    let sorted = sort_files(many, SortBy::Size);
    let keys: Vec<(u64, u64)> = sorted.iter().map(|f| (f.size, f.modified_at)).collect();
    assert_eq!(keys, expected);
}

#[test]
fn listings_of_other_nodes_are_filtered_and_cut() {
    let listed = |options: ListOptions| {
        let message = FileTransferMessage::ListResponse(handle_list_request(Ok(files())));
        let files = read_list_response(message, &options).unwrap();
        paths(&files).into_iter().map(String::from).collect::<Vec<String>>()
    };
    let all = ListOptions::default();
    assert_eq!(listed(all).len(), 5);
    assert_eq!(
        listed(ListOptions::default().with_files_only(true)),
        vec!["d/a.txt", "d/b.log", "d/c.txt"]
    );
    assert_eq!(listed(ListOptions::default().with_directories_only(true)), vec!["d/sub"]);
    assert_eq!(
        listed(ListOptions::default().with_pattern(Some(".txt".into())).with_limit(1)),
        vec!["d/a.txt"]
    );
    let failed = handle_list_request(Err(FileTransferError::FileNotFound("d".into())));
    assert_eq!(
        read_list_response(FileTransferMessage::ListResponse(failed), &ListOptions::default()),
        Err(FileTransferError::Internal("file not found: d".into()))
    );
}

#[test]
fn listings_read_the_directories_that_they_list() {
    let options = ListOptions::default().with_recursive(true).with_include_hidden(false);
    let mut lister = Lister::new("d".into(), options);
    assert_eq!(lister.next_directory(), Some("d".into()));
    assert!(!lister.wants(".git"));
    lister.take_entry("d/sub".into(), &facts(true, 0, 5)).unwrap();
    lister.take_entry("d/x".into(), &facts(false, 3, 5)).unwrap();
    assert_eq!(lister.next_directory(), Some("d/sub".into()));
    lister.take_entry("d/sub/y".into(), &facts(false, 4, 5)).unwrap();
    assert_eq!(lister.next_directory(), None);
    assert!(lister.take_entry("d/z".into(), &facts(false, 4, -5)).is_err());
    assert_eq!(paths(&lister.finish()), vec!["d/sub", "d/sub/y", "d/x"]);
}

fn service() -> FileTransferServiceImpl {
    FileTransferServiceImpl::new(SENDER, &FileTransferConfig::default()).unwrap()
}

#[test]
fn service_applies_max_concurrent_transfer_limit() {
    let none = FileTransferConfig::default().with_max_concurrent_transfers(0);
    let error = FileTransferServiceImpl::new(SENDER, &none).err().unwrap();
    assert_eq!(
        error.message(),
        "internal error: max_concurrent_transfers must be greater than zero"
    );
}

#[test]
fn targets_are_never_the_node_itself() {
    let service = service();
    let peers = vec![SENDER, RECEIVER];
    assert_eq!(service.select_target(None, &peers), Ok(RECEIVER));
    assert_eq!(service.broadcast_targets(&peers), Ok(vec![RECEIVER]));
    assert_eq!(
        service.select_target(Some(vec![SENDER]), &peers).unwrap_err().message(),
        "internal error: no target nodes available for sync"
    );
    let three = NodeId { id: 3 };
    assert_eq!(
        service.select_target(Some(vec![RECEIVER, three]), &peers).unwrap_err().message(),
        "internal error: sync requires exactly one target node"
    );
    assert_eq!(
        service.broadcast_targets(&vec![SENDER]).unwrap_err().message(),
        "internal error: no connected peers available for broadcast"
    );
}

fn running_session() -> TransferSession {
    let mut session = sender_session(options(), None);
    session.set_state(TransferState::InProgress, at(100));
    session
}

#[test]
fn paused_transfer_is_resumed() {
    let mut service = service();
    assert_eq!(
        service.pause_transfer(id(7), at(101)),
        Err(FileTransferError::SessionNotFound(id(7)))
    );
    let mut session = running_session();
    session.chunk_tracker.mark_completed(2);
    service.record_session(session);
    assert_eq!(service.pause_transfer(id(7), at(101)), Ok(true));
    assert_eq!(service.pause_transfer(id(7), at(102)), Ok(false));
    let paused = service.receive_handler.session_snapshot(id(7)).unwrap();
    assert_eq!(paused.state, TransferState::Paused);
    assert_eq!(paused.control, TransferControlState::Paused);
    let resumed = service.resume_transfer(id(7), at(103)).unwrap();
    assert_eq!(resumed.handle.progress().bytes_transferred, 5);
    assert_eq!(resumed.handle.progress().chunks_completed, 1);
    assert!(resumed.keep);
    let session = service.receive_handler.session_snapshot(id(7)).unwrap();
    assert_eq!(session.state, TransferState::InProgress);
    assert_eq!(session.control, TransferControlState::Running);
    assert!(service.resume_transfer(id(8), at(103)).is_none());
}

#[test]
fn cancelled_transfer_is_no_longer_listed() {
    let mut service = service();
    assert_eq!(service.cancel_transfer(id(7), at(101)), Ok(None));
    service.record_session(running_session());
    let mut second = running_session();
    second.id = id(3);
    service.record_session(second);
    let listed: Vec<TransferSessionId> =
        service.collect_active_transfers().iter().map(|info| info.id).collect();
    assert_eq!(listed, vec![id(3), id(7)]);
    let stopped = service.cancel_transfer(id(7), at(101)).unwrap().unwrap();
    assert!(stopped.was_active && stopped.keep);
    let again = service.cancel_transfer(id(7), at(102)).unwrap().unwrap();
    assert!(!again.was_active);
    assert!(service.pause_transfer(id(7), at(103)).is_err());
    assert_eq!(service.collect_active_transfers().len(), 1);
    assert!(service.on_cancel(id(3), "enough".into(), at(104)).unwrap().was_active);
    let session = service.receive_handler.session_snapshot(id(3)).unwrap();
    assert_eq!(session.error, Some("enough".into()));
    assert_eq!(session.control, TransferControlState::Cancelled);
    assert!(service.on_cancel(id(9), "enough".into(), at(104)).is_none());
    let mut verifying = running_session();
    verifying.id = id(4);
    verifying.set_state(TransferState::Verifying, at(100));
    service.record_session(verifying);
    assert!(matches!(
        service.cancel_transfer(id(4), at(105)),
        Err(FileTransferError::InvalidState { .. })
    ));
}

#[test]
fn resume_transfer_restores_progress() {
    let service = service();
    let mut kept = running_session();
    kept.chunk_tracker.mark_completed(0);
    kept.cancel("cancelled by user".into(), at(101));
    assert_eq!(service.check_kept(&kept), Ok(RECEIVER));
    assert_eq!(cancel_targets(&kept), vec![RECEIVER]);
    let session = sender_session(options(), Some(&kept));
    let mut skip = BTreeSet::new();
    skip.insert(0);
    let mut sending = SendLoop::new(session, &skip, 1);
    for _ in 0..2 {
        if let SendStep::Launch(chunks) = sending.step(TransferControlState::Running, tick(0)) {
            for index in chunks {
                sending.on_sent(index, Ok(()), at(102));
                sending.on_message(ack(index, true), at(102));
            }
        }
    }
    assert_eq!(sending.conclude(at(103)), Ok(true));
    assert_eq!(sending.progress().bytes_transferred, 25);
    kept.target_nodes = Vec::new();
    assert_eq!(cancel_targets(&kept), vec![SENDER]);
    assert_eq!(
        service.check_kept(&kept).unwrap_err().message(),
        "internal error: resume session missing target"
    );
    kept.source_node = RECEIVER;
    assert_eq!(
        service.check_kept(&kept).unwrap_err().message(),
        "internal error: resume is only supported for sender sessions"
    );
}

#[test]
fn refused_requests_are_answered_with_the_reason() {
    let error = || Err(FileTransferError::PathTraversal("x".into()));
    let text = "path traversal attack detected: x";
    let reply = answer_request(&FileTransferMessage::TransferRequest(request(options())), error());
    assert_eq!(
        reply,
        FileTransferMessage::TransferResponse(TransferResponse {
            accepted: false,
            rejection_reason: Some(text.into()),
            existing_chunks: Vec::new(),
        })
    );
    let manifest = FileTransferMessage::Manifest(manifest_of(&data(), &options()));
    assert_eq!(
        answer_request(&manifest, error()),
        FileTransferMessage::ManifestAck(ManifestAck {
            accepted: false,
            skip_chunks: Vec::new(),
            error: Some(text.into()),
        })
    );
    let listing = FileTransferMessage::ListRequest("d".into(), false, false);
    assert!(listing.asks());
    assert_eq!(
        answer_request(&listing, error()),
        FileTransferMessage::Error(TransferErrorMessage {
            code: 2005,
            message: text.into(),
            recoverable: false,
        })
    );
    let served = Ok(FileTransferMessage::Cancel("as served".into()));
    assert_eq!(
        answer_request(&listing, served),
        FileTransferMessage::Cancel("as served".into())
    );
}

#[test]
fn only_a_broken_transport_stops_the_service() {
    assert!(matches!(
        control_step(Err(FileTransferError::Timeout)),
        ControlStep::Again
    ));
    assert!(matches!(
        control_step(Err(FileTransferError::Cancelled)),
        ControlStep::Again
    ));
    assert!(matches!(
        control_step(Err(FileTransferError::Transport("closed".into()))),
        ControlStep::Stop
    ));
    let message = FileTransferMessage::ExistsRequest("x".into());
    assert!(matches!(
        control_step(Ok((id(1), SENDER, message))),
        ControlStep::Serve(session, sender, FileTransferMessage::ExistsRequest(_))
            if session == id(1) && sender == SENDER
    ));
}

#[test]
fn request_tells_what_is_to_be_sent() {
    let session = sender_session(options().with_mode(TransferMode::Move), None);
    let request = transfer_request(&session);
    assert_eq!(request.source_path, "src.bin");
    assert_eq!(request.dest_path, "dst.bin");
    assert_eq!((request.file_size, request.chunk_count, request.chunk_size), (25, 3, 10));
    assert_eq!(request.mode, TransferMode::Move);
    assert_eq!(request.options, session.options);
    assert_eq!(request.metadata, session.manifest.metadata);
}

#[test]
fn answers_of_the_other_kind_are_refused() {
    let response =
        TransferResponse { accepted: true, rejection_reason: None, existing_chunks: vec![1] };
    let ack = ManifestAck { accepted: false, skip_chunks: vec![], error: Some("no".into()) };
    assert_eq!(
        read_transfer_response(FileTransferMessage::ManifestAck(ack)),
        Err(FileTransferError::Internal("unexpected transfer response message".into()))
    );
    let taken = read_transfer_response(FileTransferMessage::TransferResponse(response)).unwrap();
    assert_eq!(taken.existing_chunks, vec![1]);
    assert_eq!(
        read_manifest_ack(FileTransferMessage::TransferResponse(taken)),
        Err(FileTransferError::Internal("unexpected manifest ack message".into()))
    );
    let ack = ManifestAck { accepted: true, skip_chunks: vec![2], error: None };
    assert_eq!(read_manifest_ack(FileTransferMessage::ManifestAck(ack)).unwrap().skip_chunks, vec![2]);
}

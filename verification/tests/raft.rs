//! The log of a Raft group and its snapshots.

use chirps::raft::completion::{
    noop_completion_hook, SnapshotCompletionEvent, SnapshotCompletionHook, SnapshotCompletionKind,
};
use chirps::raft::frame::{decode_frame, encode_frame, seal_frame, unseal_frame, FrameError};
use chirps::raft::snapshot::{decode_snapshot, encode_snapshot, SnapshotError};
use chirps::raft::types::{
    range_contains, Bound, Entry, EntryPayload, GroupId, IndexRange, LogId, Membership,
    SnapshotMeta, StoredMembership, Vote,
};
use chirps::raft::wal_storage::{
    check_whole, read_entries_from_wal, snapshot_path, wal_path, RaftWalRecord, WalError, WalFrame, WalRaftStorage, WalStorageConfig,
    CURRENT_FORMAT_VERSION,
};

fn config() -> WalStorageConfig {
    WalStorageConfig {
        wal_dir: "/data/wal".into(),
        snapshot_dir: "/data/snapshot".into(),
        ..WalStorageConfig::default()
    }
}

fn log_id(term: u64, node_id: u64, index: u64) -> LogId {
    LogId { term, node_id, index }
}

fn sample_entry(index: u64) -> Entry {
    Entry {
        log_id: log_id(1, 1, index),
        payload: EntryPayload::Normal(format!("e{index}").into_bytes()),
    }
}

fn storage_of(config: WalStorageConfig, group: u64) -> WalRaftStorage {
    WalRaftStorage::recover(config, GroupId(group), group, Vec::new()).unwrap()
}

fn append(storage: &mut WalRaftStorage, entries: Vec<Entry>) {
    for entry in entries {
        if storage.append_entry(entry) {
            storage.note_synced();
        }
    }
    if storage.flushes_after_batch() {
        storage.note_synced();
    }
}

fn appended(entries: Vec<Entry>) -> Vec<WalFrame> {
    entries
        .into_iter()
        .map(|entry| WalFrame::Record(RaftWalRecord::AppendLog(entry)))
        .collect()
}

fn log_of(storage: &WalRaftStorage, records: Vec<RaftWalRecord>) -> Vec<WalFrame> {
    let mut frames = vec![WalFrame::Header(storage.build_header(7))];
    frames.extend(records.into_iter().map(WalFrame::Record));
    frames
}

fn indexes(entries: &[Entry]) -> Vec<u64> {
    entries.iter().map(|entry| entry.log_id.index).collect()
}

#[test]
fn append_and_get_entries() {
    let mut storage = storage_of(config(), 1);
    append(&mut storage, vec![sample_entry(1), sample_entry(2)]);
    let entries = storage.try_get_log_entries(Vec::new(), &IndexRange::inclusive(1, 2));
    assert_eq!(entries.len(), 2);
    assert_eq!(entries[0].log_id.index, 1);
    assert_eq!(entries[1].log_id.index, 2);
    assert_eq!(storage.get_log_reader().try_get_log_entries(&IndexRange::inclusive(2, 9)).len(), 1);
}

#[test]
fn truncate_and_purge_updates_state() {
    let mut storage = storage_of(config(), 2);
    append(&mut storage, vec![sample_entry(1), sample_entry(2)]);
    storage.truncate(log_id(1, 1, 1));
    let mut frames = appended(vec![sample_entry(1), sample_entry(2)]);
    frames.push(WalFrame::Record(RaftWalRecord::Truncate(log_id(1, 1, 1))));
    assert_eq!(
        storage.try_get_log_entries(frames, &IndexRange::inclusive(2, 2)).len(),
        0
    );
    storage.purge(log_id(1, 1, 1));
    assert_eq!(storage.get_log_state().0.unwrap().index, 1);
}

#[test]
fn vote_is_persisted() {
    let vote = Vote { term: 2, node_id: 3, committed: false };
    let mut storage = storage_of(config(), 3);
    storage.save_vote(vote);
    let frames = log_of(&storage, vec![RaftWalRecord::Vote(vote)]);
    let recovered = WalRaftStorage::recover(config(), GroupId(3), 3, frames).unwrap();
    assert_eq!(recovered.read_vote(), Some(vote));
    assert_eq!(storage.read_vote(), Some(vote));
}

#[test]
fn recover_replays_logs() {
    let storage = storage_of(config(), 4);
    let frames = log_of(&storage, vec![RaftWalRecord::AppendLog(sample_entry(10))]);
    let recovered = WalRaftStorage::recover(config(), GroupId(4), 4, frames).unwrap();
    assert_eq!(recovered.get_log_state().1.unwrap().index, 10);
}

#[test]
fn evicted_entries_can_be_read_from_wal() {
    let mut cfg = config();
    cfg.log_cache_size = 1;
    let mut storage = storage_of(cfg, 5);
    append(&mut storage, vec![sample_entry(1), sample_entry(2)]);
    assert_eq!(
        storage.try_get_log_entries(Vec::new(), &IndexRange::inclusive(1, 1)).len(),
        0
    );
    let frames = appended(vec![sample_entry(1), sample_entry(2)]);
    let entries = storage.try_get_log_entries(frames, &IndexRange::inclusive(1, 1));
    assert_eq!(entries.len(), 1, "evicted log should be fetched from WAL");
    assert_eq!(entries[0].log_id.index, 1);
}

fn membership(text: &str) -> Membership {
    Membership { encoded: text.as_bytes().to_vec() }
}

#[test]
fn install_snapshot_updates_applied_state() {
    let mut storage = storage_of(config(), 6);
    let stored = StoredMembership {
        log_id: Some(log_id(1, 6, 3)),
        membership: membership("127.0.0.1:7000"),
    };
    let meta = SnapshotMeta {
        last_log_id: Some(log_id(2, 6, 4)),
        last_membership: stored.clone(),
        snapshot_id: "snap-1".into(),
    };
    let path = storage.snapshot_file_for("snap-1");
    storage.install_snapshot(meta.clone(), path.clone());
    let (applied, applied_membership) = storage.applied_state();
    assert_eq!(applied, meta.last_log_id);
    assert_eq!(applied_membership, stored);
    assert_eq!(storage.current_snapshot_path(), Some(path));
}

#[test]
fn wal_header_and_records_follow_spec() {
    let storage = storage_of(config(), 7);
    let header = storage.build_header(99);
    assert_eq!(&header.magic, b"RWAL");
    assert_eq!(header.format_version, CURRENT_FORMAT_VERSION);
    assert_eq!(header.group_id, GroupId(7));
    assert_eq!(header.node_id, 7);
    assert_eq!(header.created_at, 99);
    assert_eq!(header.reserved, vec![0u8; 40]);

    let mut storage = storage;
    append(&mut storage, vec![sample_entry(1), sample_entry(2)]);
    let mut frames = vec![WalFrame::Header(header)];
    frames.extend(appended(vec![sample_entry(1), sample_entry(2)]));
    let append_records: Vec<&Entry> = frames
        .iter()
        .filter_map(|frame| match frame {
            WalFrame::Record(RaftWalRecord::AppendLog(entry)) => Some(entry),
            _ => None,
        })
        .collect();
    assert_eq!(append_records.len(), 2, "should emit one record per entry");
    assert_eq!(append_records[0].log_id.index, 1);
    assert_eq!(append_records[1].log_id.index, 2);
    // The log with one record per entry describes what the storage holds.
    let recovered = WalRaftStorage::recover(config(), GroupId(7), 7, frames).unwrap();
    assert_eq!(recovered.get_log_state(), storage.get_log_state());
    let range = IndexRange::inclusive(1, 2);
    assert_eq!(
        recovered.try_get_log_entries(Vec::new(), &range),
        storage.try_get_log_entries(Vec::new(), &range)
    );
}

#[test]
fn fsync_interval_controls_sync_frequency() {
    let mut cfg = config();
    cfg.fsync_interval = 2;
    let mut storage = storage_of(cfg, 8);
    let mut syncs = 0;
    for entry in vec![sample_entry(1), sample_entry(2), sample_entry(3)] {
        assert!(!storage.flushes_each_append());
        if storage.append_entry(entry) {
            syncs += 1;
            storage.note_synced();
        }
    }
    if storage.flushes_after_batch() {
        syncs += 1;
        storage.note_synced();
    }
    assert_eq!(syncs, 2, "fsync_interval should sync every 2 entries");
    assert!(!storage.flushes_after_batch());
    let mut cfg = config();
    cfg.fsync_interval = 0;
    assert!(storage_of(cfg, 8).flushes_each_append());
}

#[test]
fn snapshot_files_follow_udf_header() {
    let storage = storage_of(config(), 9);
    let bytes = storage.snapshot_bytes(b"meta", &[0u8; 16]);
    assert!(
        bytes.starts_with(b"SNAP"),
        "snapshot must start with UDF magic"
    );
    assert!(
        bytes.len() >= 8,
        "snapshot file should contain header with version"
    );
    let version = u32::from_le_bytes(bytes[4..8].try_into().unwrap());
    assert_eq!(version, 1, "snapshot version must be set");
}

#[test]
fn membership_replay_updates_state() {
    let storage = storage_of(config(), 10);
    let entry = Entry {
        log_id: log_id(2, 1, 5),
        payload: EntryPayload::Membership(membership("127.0.0.1:7001")),
    };
    let expected = StoredMembership {
        log_id: Some(entry.log_id),
        membership: membership("127.0.0.1:7001"),
    };
    let frames = log_of(&storage, vec![RaftWalRecord::AppendLog(entry)]);
    let recovered = WalRaftStorage::recover(config(), GroupId(10), 10, frames).unwrap();
    assert_eq!(recovered.applied_state().1, expected);
}

#[test]
fn snapshot_applied_persisted_via_wal() {
    let storage = storage_of(config(), 11);
    let stored = StoredMembership {
        log_id: Some(log_id(3, 11, 6)),
        membership: membership("127.0.0.1:7002"),
    };
    let meta = SnapshotMeta {
        last_log_id: Some(log_id(3, 11, 6)),
        last_membership: stored.clone(),
        snapshot_id: "snap-wal".into(),
    };
    let frames = log_of(&storage, vec![RaftWalRecord::SnapshotApplied(meta.clone())]);
    let recovered = WalRaftStorage::recover(config(), GroupId(11), 11, frames).unwrap();
    let (applied, stored_membership) = recovered.applied_state();
    assert_eq!(applied, meta.last_log_id);
    assert_eq!(stored_membership, stored);
}

/// The parts of a snapshot file: its metadata, its data, and how many chunks they stand in.
fn take_apart(bytes: &[u8]) -> (Option<Vec<u8>>, Vec<u8>, usize) {
    assert!(bytes.starts_with(b"SNAP"));
    assert_eq!(u32::from_le_bytes(bytes[4..8].try_into().unwrap()), 1);
    let mut offset = 8;
    let mut chunks = 0;
    let mut meta = None;
    let mut data = Vec::new();
    loop {
        let meta_len = u32::from_le_bytes(bytes[offset..offset + 4].try_into().unwrap()) as usize;
        let data_len =
            u32::from_le_bytes(bytes[offset + 4..offset + 8].try_into().unwrap()) as usize;
        let checksum = u32::from_le_bytes(bytes[offset + 8..offset + 12].try_into().unwrap());
        offset += 12;
        if meta_len == 0 && data_len == 0 {
            assert_eq!(checksum, 0, "terminator checksum must be zero");
            assert_eq!(offset, bytes.len());
            return (meta, data, chunks);
        }
        let body = &bytes[offset..offset + meta_len + data_len];
        offset += meta_len + data_len;
        assert_eq!(checksum, crc32fast::hash(body), "chunk checksum mismatch");
        if meta_len > 0 {
            meta = Some(body[..meta_len].to_vec());
        }
        data.extend_from_slice(&body[meta_len..]);
        chunks += 1;
    }
}

#[test]
fn snapshot_file_uses_udf_structure() {
    let storage = storage_of(config(), 12);
    let data = vec![1u8, 2, 3, 4];
    let (meta, collected, chunks) = take_apart(&storage.snapshot_bytes(b"udf-2", &data));
    assert_eq!(meta.unwrap(), b"udf-2");
    assert_eq!(collected, data);
    assert!(chunks >= 1);
}

#[test]
fn snapshot_chunked_with_terminator() {
    let mut cfg = config();
    cfg.snapshot_chunk_size = 2;
    let storage = storage_of(cfg, 13);
    let data = vec![10u8, 11, 12, 13, 14];
    let bytes = storage.snapshot_bytes(b"chunked", &data);
    let (meta, reconstructed, chunk_count) = take_apart(&bytes);
    assert_eq!(meta.expect("meta chunk missing"), b"chunked");
    assert_eq!(reconstructed, data);
    assert!(
        chunk_count >= 2,
        "data should be split into multiple chunks"
    );
    assert_eq!(chunk_count, 3);
    let contents = decode_snapshot(&bytes).unwrap();
    assert_eq!(contents.meta, b"chunked");
    assert_eq!(contents.data, data);
}

/// Recovers from the bytes of a log, of which `valid` are sound and in which each frame has a
/// payload of its own.
fn recover_from(
    log: &[Vec<u8>],
    valid: usize,
    frame_of: impl Fn(&[u8]) -> WalFrame,
) -> Result<WalRaftStorage, String> {
    let len: usize = log.iter().map(Vec::len).sum();
    check_whole(valid as u64, len as u64).map_err(|error| error.message())?;
    let mut frames = Vec::new();
    for bytes in log {
        let payload = decode_frame(bytes).map_err(|error| error.message())?;
        frames.push(frame_of(&payload));
    }
    WalRaftStorage::recover(config(), GroupId(7), 7, frames).map_err(|error| error.message())
}

#[test]
fn corrupted_and_truncated_wal_are_rejected_during_recovery() {
    let vote = Vote { term: 4, node_id: 7, committed: false };
    let mut storage = storage_of(config(), 7);
    storage.save_vote(vote);
    let frame_of = |payload: &[u8]| match payload {
        b"header" => WalFrame::Header(storage.build_header(7)),
        _ => WalFrame::Record(RaftWalRecord::Vote(vote)),
    };
    let log = vec![encode_frame(b"header"), encode_frame(b"vote of term 4")];
    let len = log[0].len() + log[1].len();
    let recovered = recover_from(&log, len, frame_of).unwrap();
    assert_eq!(recovered.read_vote(), Some(vote));
    for truncate in [false, true] {
        let mut damaged = log.clone();
        if truncate {
            damaged[1].pop();
        } else {
            let last = damaged[1].len() - 1;
            damaged[1][last] ^= 0xff;
        }
        let left = damaged[0].len() + damaged[1].len();
        let error = recover_from(&damaged, left, frame_of).unwrap_err();
        assert_eq!(error, "checksum mismatch");
        // A reader that stops before the damaged frame leaves bytes unread.
        let error = recover_from(&damaged, damaged[0].len(), frame_of).unwrap_err();
        assert_eq!(error, "wal is damaged");
    }
    assert_eq!(check_whole(8, 8), Ok(()));
    assert_eq!(check_whole(7, 8), Err(WalError::Damaged));
    assert_eq!(check_whole(9, 8), Err(WalError::Damaged));

    let bytes = encode_frame(b"vote of term 4");
    assert_eq!(decode_frame(&bytes), Ok(b"vote of term 4".to_vec()));
    let mut corrupted = bytes.clone();
    let last = corrupted.len() - 1;
    corrupted[last] ^= 0xff;
    assert_eq!(decode_frame(&corrupted), Err(FrameError::ChecksumMismatch));
    assert_eq!(
        decode_frame(&bytes[..bytes.len() - 1]),
        Err(FrameError::ChecksumMismatch)
    );
    assert_eq!(decode_frame(&bytes[..3]), Err(FrameError::TooSmall));
    assert_eq!(FrameError::TooSmall.message(), "frame too small");
    assert_eq!(FrameError::ChecksumMismatch.message(), "checksum mismatch");
}

#[test]
fn frames_carry_the_checksum_of_their_payload() {
    // The published check value of this checksum.
    let bytes = encode_frame(b"123456789");
    assert_eq!(bytes[..4], 0xcbf4_3926u32.to_le_bytes());
    assert_eq!(&bytes[4..], b"123456789");
    assert_eq!(seal_frame(b"x", 5), vec![5, 0, 0, 0, b'x']);
    assert_eq!(unseal_frame(&[5, 0, 0, 0, b'x'], 5), Ok(vec![b'x']));
    assert_eq!(
        unseal_frame(&[5, 0, 0, 0, b'x'], 6),
        Err(FrameError::ChecksumMismatch)
    );
}

#[test]
fn wal_format_mismatch_and_vote_regression_across_restart_are_observable() {
    let vote = |term: u64| Vote { term, node_id: 8, committed: false };
    let storage = storage_of(config(), 8);
    let frames = log_of(&storage, vec![RaftWalRecord::Vote(vote(4))]);
    let recovered = WalRaftStorage::recover(config(), GroupId(8), 8, frames).unwrap();
    assert_eq!(recovered.read_vote(), Some(vote(4)));
    let records = || vec![RaftWalRecord::Vote(vote(4)), RaftWalRecord::Vote(vote(5))];
    let frames = log_of(&storage, records());
    let recovered = WalRaftStorage::recover(config(), GroupId(8), 8, frames).unwrap();
    assert_eq!(recovered.read_vote(), Some(vote(5)));
    let mut incompatible = config();
    incompatible.format_version = CURRENT_FORMAT_VERSION + 1;
    let frames = log_of(&storage, records());
    let error = WalRaftStorage::recover(incompatible, GroupId(8), 8, frames).unwrap_err();
    assert_eq!(
        error,
        WalError::VersionMismatch {
            expected: CURRENT_FORMAT_VERSION + 1,
            got: CURRENT_FORMAT_VERSION
        }
    );
    assert_eq!(
        error.message(),
        "wal format version mismatch: expected 2, got 1"
    );
    let mut header = storage.build_header(0);
    header.magic = *b"NOPE";
    let error = WalRaftStorage::recover(config(), GroupId(8), 8, vec![WalFrame::Header(header)])
        .unwrap_err();
    assert_eq!(error.message(), "invalid wal magic");
}

#[test]
fn corrupted_truncated_and_version_mismatched_snapshots_are_never_returned() {
    let bytes = encode_snapshot(b"meta", &[1, 2, 3, 4], 1024);
    let mut corrupt = bytes.clone();
    let index = corrupt.len() / 2;
    corrupt[index] ^= 0xff;
    assert!(decode_snapshot(&corrupt).is_err());
    for kept in 0..bytes.len() {
        assert!(decode_snapshot(&bytes[..kept]).is_err());
    }
    let mut version = bytes.clone();
    version[4..8].copy_from_slice(&2u32.to_le_bytes());
    let error = decode_snapshot(&version).unwrap_err();
    assert_eq!(error, SnapshotError::VersionMismatch(2));
    assert_eq!(
        error.message(),
        "snapshot version mismatch: expected 1, got 2"
    );
    let mut terminator = bytes.clone();
    let last = terminator.len() - 1;
    terminator[last] = 1;
    assert_eq!(
        decode_snapshot(&terminator).unwrap_err(),
        SnapshotError::InvalidTerminator
    );
    let without_meta = encode_snapshot(b"", &[1, 2, 3], 1024);
    assert_eq!(
        decode_snapshot(&without_meta).unwrap_err().message(),
        "snapshot meta missing"
    );
    assert_eq!(
        decode_snapshot(b"PANS").unwrap_err().message(),
        "invalid snapshot header"
    );
}

#[test]
fn purged_and_truncated_entries_do_not_come_back() {
    let mut storage = storage_of(config(), 14);
    append(&mut storage, (1..6).map(sample_entry).collect());
    storage.purge(log_id(1, 1, 2));
    storage.truncate(log_id(1, 1, 4));
    let mut frames = appended((1..6).map(sample_entry).collect());
    frames.push(WalFrame::Record(RaftWalRecord::Purge(log_id(1, 1, 2))));
    frames.push(WalFrame::Record(RaftWalRecord::Truncate(log_id(1, 1, 4))));
    let range = IndexRange { start: Bound::Unbounded, end: Bound::Unbounded };
    assert_eq!(indexes(&storage.try_get_log_entries(frames, &range)), vec![3]);
    assert_eq!(
        storage.get_log_state(),
        (Some(log_id(1, 1, 2)), Some(log_id(1, 1, 3)))
    );
}

#[test]
fn applied_commands_are_handed_to_the_state_machine() {
    let mut storage = storage_of(config(), 15);
    assert_eq!(storage.apply(&sample_entry(1)), Some(b"e1".to_vec()));
    let blank = Entry { log_id: log_id(1, 1, 2), payload: EntryPayload::Blank };
    assert_eq!(storage.apply(&blank), None);
    assert_eq!(storage.applied_state().0, Some(log_id(1, 1, 2)));
    let builder = storage.get_snapshot_builder(1_234);
    assert_eq!(builder.meta.snapshot_id, "snapshot-1234");
    let (meta, data) = builder.build_snapshot();
    assert_eq!(meta.last_log_id, Some(log_id(1, 1, 2)));
    assert!(data.is_empty());
}

#[test]
fn files_are_named_by_group_and_node() {
    assert_eq!(wal_path("/data/wal", GroupId(3), 9), "/data/wal/raft-3-9.wal");
    assert_eq!(
        snapshot_path("/data/snap", GroupId(3), "s1"),
        "/data/snap/snapshot-3-s1.alopex"
    );
    assert_eq!(storage_of(config(), 3).wal_file(), "/data/wal/raft-3-3.wal");
}

#[test]
fn ranges_hold_what_lies_between_their_bounds() {
    let range = IndexRange { start: Bound::Excluded(2), end: Bound::Excluded(5) };
    let inside: Vec<u64> = (0..9).filter(|v| range_contains(&range, *v)).collect();
    assert_eq!(inside, vec![3, 4]);
    let open = IndexRange { start: Bound::Unbounded, end: Bound::Included(1) };
    assert!(range_contains(&open, 0));
    assert!(!range_contains(&open, 2));
    assert!(range_contains(&IndexRange::inclusive(2, 2), 2));
}

#[test]
fn hook_of_a_storage_without_one_does_nothing() {
    let hook = noop_completion_hook();
    hook.completed(SnapshotCompletionEvent {
        group_id: GroupId(1),
        node_id: 2,
        snapshot_id: "s".into(),
        size_bytes: 3,
        digest: [0; 32],
        kind: SnapshotCompletionKind::Built,
    });
}

#[test]
fn log_holds_what_was_neither_cut_off_nor_purged() {
    let mut frames = appended((1..=6).map(sample_entry).collect());
    frames.push(WalFrame::Record(RaftWalRecord::Truncate(log_id(1, 1, 6))));
    frames.push(WalFrame::Record(RaftWalRecord::Purge(log_id(1, 1, 1))));
    frames.push(WalFrame::Record(RaftWalRecord::SnapshotApplied(SnapshotMeta {
        last_log_id: Some(log_id(1, 1, 2)),
        last_membership: StoredMembership::default(),
        snapshot_id: "s".into(),
    })));
    let all = IndexRange { start: Bound::Unbounded, end: Bound::Unbounded };
    assert_eq!(indexes(&read_entries_from_wal(frames, &all)), vec![3, 4, 5]);
}

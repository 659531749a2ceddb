//! The parts of a file transfer: chunks, checksums, compression, paths and the like.

use std::collections::BTreeMap;

use chirps::clock::{Duration, Instant, WallTime};
use chirps::node::NodeId;
use chirps::transfer::bandwidth::{missing_wait, tokens_for_elapsed, Acquire, BandwidthThrottle};
use chirps::transfer::chunk::{ChunkManager, ChunkMeta, ChunkTracker};
use chirps::transfer::compression::{
    compress_bytes, compress_owned_bytes, decompress_bytes, decompress_owned_bytes,
};
use chirps::transfer::config::{FileTransferConfig, RetryConfig};
use chirps::transfer::control::{ControlDispatcher, Waiting};
use chirps::transfer::error::{map_io_error, FileTransferError, IoKind, TransferSessionId};
use chirps::transfer::integrity::{FileScan, IntegrityVerifier};
use chirps::transfer::manifest::{ManifestError, TransferManifest, CURRENT_VERSION};
use chirps::transfer::metrics::{kind_label, FileTransferMetrics};
use chirps::transfer::options::{
    CompressionAlgorithm, FloatBits, HashAlgorithm, ListOptions, RemoveOptions, RetryPolicy,
    SortBy, SyncDirection, SyncOptions, TransferMode, TransferOptions, TWO_BITS,
};
use chirps::transfer::path::{PathFacts, PathValidator};
use chirps::transfer::persistence::{
    checkpoint_record, is_expired, replay_progress, SessionPersistence,
};
use chirps::transfer::progress::{BroadcastHandle, TransferHandle, TransferProgress};
use chirps::transfer::receive_hash::IncrementalReceiveHash;
use chirps::transfer::send::{build_throttle, resolve_transfer_options};
use chirps::transfer::send_loop::should_retry;
use chirps::transfer::session::{TransferKind, TransferSession, TransferState};
use chirps::transfer::stream::{
    ChunkStreamCodec, CHUNK_STREAM_MAGIC, HEADER_BYTES, MAX_WIRE_CHUNK_SIZE,
};
use sha2::Digest;

fn id(n: u128) -> TransferSessionId {
    TransferSessionId { id: n }
}

fn at(secs: i128) -> WallTime {
    WallTime { nanos: secs * 1_000_000_000 }
}

#[test]
fn none_reuses_owned_payload_allocation() {
    let payload = vec![7_u8; 1024 * 1024];
    let allocation = payload.as_ptr();
    let encoded =
        compress_owned_bytes(payload, CompressionAlgorithm::Uncompressed).expect("encode");
    assert_eq!(encoded.as_ptr(), allocation);

    let allocation = encoded.as_ptr();
    let decoded = decompress_owned_bytes(
        encoded,
        CompressionAlgorithm::Uncompressed,
        Some(1024 * 1024),
    )
    .expect("decode");
    assert_eq!(decoded.as_ptr(), allocation);
}

#[test]
fn zstd_compresses_chunk_payload_on_the_wire() {
    let source_data = vec![b'x'; 64 * 1024];
    let payload = compress_bytes(&source_data, CompressionAlgorithm::Zstd).unwrap();
    assert!(
        payload.len() < source_data.len(),
        "Zstd payload should be smaller than the original chunk"
    );
    assert_eq!(
        decompress_bytes(&payload, CompressionAlgorithm::Zstd, Some(source_data.len()))
            .expect("decompress payload"),
        source_data
    );
    let better = compress_owned_bytes(source_data.clone(), CompressionAlgorithm::ZstdLevel(9)).unwrap();
    assert_eq!(
        decompress_owned_bytes(better, CompressionAlgorithm::ZstdLevel(9), None).unwrap(),
        source_data
    );
    assert!(matches!(
        decompress_bytes(b"not compressed", CompressionAlgorithm::Zstd, None),
        Err(FileTransferError::Compression(_))
    ));
}

#[test]
fn incremental_receive_hash_reorders_chunks_and_ignores_duplicates() {
    let chunks = [b"first".to_vec(), b"second".to_vec(), b"third".to_vec()];
    let mut state = IncrementalReceiveHash::new(HashAlgorithm::Sha256);

    assert_eq!(state.record(1, chunks[1].clone()), 0);
    assert_eq!(state.record(1, chunks[1].clone()), 0);
    assert_eq!(
        state.record(0, chunks[0].clone()),
        (chunks[0].len() + chunks[1].len()) as u64
    );
    assert_eq!(state.record(2, chunks[2].clone()), chunks[2].len() as u64);
    assert_eq!(state.next_index(), 3);
    assert!(state.is_pending_empty());

    let expected = sha2::Sha256::digest(chunks.concat()).to_vec();
    assert_eq!(state.finalize(), expected);
}

#[test]
fn hash_of_a_file_with_a_hole_is_not_given() {
    let mut state = IncrementalReceiveHash::new(HashAlgorithm::Blake3);
    state.record(0, b"a".to_vec());
    state.record(2, b"c".to_vec());
    assert_eq!(state.finish(3), None);
    let mut state = IncrementalReceiveHash::new(HashAlgorithm::Blake3);
    state.record(1, b"b".to_vec());
    state.record(0, b"a".to_vec());
    assert_eq!(
        state.finish(2),
        Some(blake3::hash(b"ab").as_bytes().to_vec())
    );
}

#[test]
fn config_defaults_are_applied_to_default_transfer_options() {
    let config = FileTransferConfig {
        default_chunk_size: 32 * 1024,
        default_concurrency: 3,
        default_compression: CompressionAlgorithm::ZstdLevel(5),
        max_concurrency: 4,
        ..FileTransferConfig::default()
    };
    let options =
        resolve_transfer_options(&config, TransferOptions::default()).expect("resolve defaults");
    assert_eq!(options.chunk_size, 32 * 1024);
    assert_eq!(options.concurrency, 3);
    assert_eq!(options.compression, CompressionAlgorithm::ZstdLevel(5));
}

#[test]
fn invalid_configured_transfer_defaults_are_rejected() {
    let config = FileTransferConfig {
        default_chunk_size: 0,
        ..FileTransferConfig::default()
    };
    assert!(resolve_transfer_options(&config, TransferOptions::default()).is_err());
    let config = FileTransferConfig {
        max_concurrency: 0,
        ..FileTransferConfig::default()
    };
    assert_eq!(
        resolve_transfer_options(&config, TransferOptions::default())
            .unwrap_err()
            .message(),
        "internal error: transfer concurrency must be greater than zero"
    );
    let config = FileTransferConfig::default();
    let greedy = TransferOptions::default().with_concurrency(1_000);
    assert_eq!(
        resolve_transfer_options(&config, greedy).unwrap().concurrency,
        config.max_concurrency
    );
}

#[test]
fn own_limit_goes_before_the_configured_one() {
    let config = FileTransferConfig::default().with_global_bandwidth_limit(Some(100));
    let options = TransferOptions::default();
    assert_eq!(build_throttle(&config, &options), Some(100));
    assert_eq!(
        build_throttle(&config, &options.with_bandwidth_limit(Some(7))),
        Some(7)
    );
    assert_eq!(
        build_throttle(&config, &options.with_bandwidth_limit(Some(0))),
        None
    );
}

#[test]
fn bandwidth_unlimited_returns_quickly() {
    let now = Instant { nanos: 0 };
    let mut throttle = BandwidthThrottle::unlimited(now);
    assert_eq!(throttle.acquire(10_000, now), Acquire::Done);
}

#[test]
fn bandwidth_limit_enforces_wait() {
    let now = Instant { nanos: 0 };
    let mut throttle = BandwidthThrottle::new(1_000, now);
    let (remaining, wait) = match throttle.acquire(10_000, now) {
        Acquire::Wait { remaining, wait } => (remaining, wait),
        Acquire::Done => panic!("nothing was throttled"),
    };
    assert!(wait.nanos > 5_000_000);
    assert!(remaining <= 10_000);
    assert_eq!(tokens_for_elapsed(1_000, Duration::from_millis(2_500)), 2_500);
    assert_eq!(missing_wait(1_000, 1), Some(Duration::from_millis(1)));
    assert_eq!(missing_wait(0, 1), None);
}

#[test]
fn transfer_keeps_to_its_rate() {
    let mut throttle = BandwidthThrottle::new(1_000, Instant { nanos: 0 });
    let mut taken: u64 = 0;
    for milli in 0..5_000u128 {
        let now = Instant { nanos: milli * 1_000_000 };
        taken += match throttle.acquire(7, now) {
            Acquire::Done => 7,
            Acquire::Wait { remaining, .. } => 7 - remaining,
        };
    }
    assert_eq!(taken, 1_000 + 4_999);
}

#[test]
fn chunk_manager_reads_chunks_and_metas() {
    let data: Vec<u8> = (0..70 * 1024).map(|i| (i % 256) as u8).collect();
    let manager = ChunkManager::new(32 * 1024);
    let (_, metas) = IntegrityVerifier::compute_file_hash_and_chunk_metas(
        &data,
        HashAlgorithm::Sha256,
        manager.chunk_size(),
    )
    .expect("generate metas");
    assert_eq!(manager.generate_chunk_metas(&data), metas);
    assert!(manager.generate_chunk_metas(&[]).is_empty());
    assert_eq!(metas.len(), 2);
    assert_eq!(metas[0].index, 0);
    assert_eq!(metas[0].offset, 0);
    assert_eq!(metas[0].size as usize, manager.chunk_size());
    assert_eq!(metas[1].index, 1);
    assert_eq!(metas[1].offset as usize, manager.chunk_size());
    assert_eq!(metas[1].size as usize, data.len() - manager.chunk_size());
    assert_eq!(manager.calculate_chunk_count(data.len() as u64), 2);
    assert_eq!(manager.calculate_chunk_count(0), 0);

    let (offset, size) = manager.span(0, data.len() as u64);
    let chunk0 = manager.chunk(0, data[offset as usize..offset as usize + size].to_vec());
    assert_eq!(chunk0.data.len(), manager.chunk_size());
    assert_eq!(chunk0.data, data[..manager.chunk_size()]);
    assert!(IntegrityVerifier::verify_chunk_checksum(
        &chunk0.data,
        chunk0.checksum
    ));

    let (offset, size) = manager.span(1, data.len() as u64);
    let chunk1 = manager.chunk(1, data[offset as usize..offset as usize + size].to_vec());
    assert_eq!(
        chunk1.data,
        data[manager.chunk_size()..manager.chunk_size() + chunk1.data.len()]
    );
    assert!(manager.verify_chunk(&chunk1));
    assert_eq!(manager.span(2, data.len() as u64).1, 0);
}

#[test]
fn chunk_tracker_tracks_state_and_retries() {
    let mut tracker = ChunkTracker::new(3, 2);

    let next = tracker.next_chunks(2);
    assert_eq!(next, vec![0, 1]);

    tracker.mark_in_flight(0);
    tracker.mark_in_flight(1);
    let next = tracker.next_chunks(2);
    assert_eq!(next, vec![2]);

    tracker.mark_failed(1);
    tracker.mark_completed(0);
    let next = tracker.next_chunks(2);
    assert_eq!(next, vec![1, 2]);

    tracker.mark_failed(1);
    assert_eq!(tracker.permanently_failed(), vec![1]);
    // Chunk 0 has arrived, chunk 1 is given up, and chunk 2 comes next: none is lost.
    assert_eq!(tracker.next_chunks(4), vec![2]);
    assert!(tracker.completed.contains(&0) && tracker.in_flight.is_empty());

    let next = tracker.next_chunks(2);
    assert_eq!(next, vec![2]);
    assert!(!tracker.is_complete());
    tracker.mark_completed(1);
    tracker.mark_completed(2);
    assert!(tracker.is_complete());
    tracker.forget_completed(2);
    assert!(!tracker.is_complete());
}

#[test]
fn chunk_is_sent_again_a_limited_number_of_times() {
    let mut retries: BTreeMap<u32, u8> = BTreeMap::new();
    assert_eq!(should_retry(&mut retries, 4, 2), Some(1));
    assert_eq!(should_retry(&mut retries, 4, 2), Some(2));
    assert_eq!(should_retry(&mut retries, 4, 2), None);
    assert_eq!(retries.get(&4), Some(&2));
    // Where no retry is allowed, the chunk is noted all the same.
    assert_eq!(should_retry(&mut retries, 5, 0), None);
    assert_eq!(retries.get(&5), Some(&0));
    assert_eq!(should_retry(&mut retries, 5, 0), None);
    assert_eq!(retries, BTreeMap::from([(4, 2), (5, 0)]));
}

#[test]
fn chunk_checksum_matches_expected() {
    let data = b"hello chunk";
    let checksum = IntegrityVerifier::compute_chunk_checksum(data);
    assert!(IntegrityVerifier::verify_chunk_checksum(data, checksum));

    let wrong = checksum.wrapping_add(1);
    assert!(!IntegrityVerifier::verify_chunk_checksum(data, wrong));
    assert_eq!(checksum, xxhash_rust::xxh64::xxh64(data, 0));
    // The published value of this checksum for no bytes.
    assert_eq!(
        IntegrityVerifier::compute_chunk_checksum(b""),
        0xef46_db37_51d8_e999
    );
}

#[test]
fn manifest_v2_chunk_layout_requires_no_source_read() {
    let file_size = 10 * 1024 * 1024 + 17;
    let chunk_size = 1024 * 1024;
    let chunks = IntegrityVerifier::build_chunk_layout(file_size, chunk_size).expect("layout");

    assert_eq!(chunks.len(), 11);
    for (index, chunk) in chunks.iter().enumerate() {
        assert_eq!(chunk.index, index as u32);
        assert_eq!(chunk.offset, (index * chunk_size) as u64);
        assert_eq!(chunk.checksum, 0);
    }
    assert_eq!(chunks.last().expect("last chunk").size, 17);
}

#[test]
fn file_hashes_match_reference() {
    let data = b"hash me";
    let sha_hash = IntegrityVerifier::compute_file_hash(data, HashAlgorithm::Sha256);
    let mut sha = sha2::Sha256::new();
    sha.update(data);
    assert_eq!(sha_hash, sha.finalize().to_vec());

    let blake_hash = IntegrityVerifier::compute_file_hash(data, HashAlgorithm::Blake3);
    let mut blake = blake3::Hasher::new();
    blake.update(data);
    assert_eq!(blake_hash, blake.finalize().as_bytes().to_vec());

    let xx_hash = IntegrityVerifier::compute_file_hash(data, HashAlgorithm::XxHash64);
    let mut xx = xxhash_rust::xxh64::Xxh64::new(0);
    xx.update(data);
    assert_eq!(xx_hash, xx.digest().to_be_bytes().to_vec());

    assert!(IntegrityVerifier::verify_file_hash(data, &xx_hash, HashAlgorithm::XxHash64));
    assert!(!IntegrityVerifier::verify_file_hash(data, &xx_hash, HashAlgorithm::Sha256));
}

#[test]
fn file_hash_and_chunk_metadata_share_one_scan() {
    let data: Vec<u8> = (0..70_000).map(|index| (index % 251) as u8).collect();
    let (hash, chunks) = IntegrityVerifier::compute_file_hash_and_chunk_metas(
        &data,
        HashAlgorithm::Sha256,
        16 * 1024,
    )
    .expect("single scan");
    assert_eq!(
        hash,
        IntegrityVerifier::compute_file_hash(&data, HashAlgorithm::Sha256)
    );
    assert_eq!(chunks.len(), 5);
    assert_eq!(chunks[0].offset, 0);
    assert_eq!(chunks[4].size, 4_464);
    for chunk in &chunks {
        let start = chunk.offset as usize;
        let end = start + chunk.size as usize;
        assert_eq!(
            chunk.checksum,
            IntegrityVerifier::compute_chunk_checksum(&data[start..end])
        );
    }
}

#[test]
fn file_hash_and_chunk_metadata_preserve_boundaries_across_scan_batches() {
    let chunk_size = 1024 * 1024;
    let data: Vec<u8> = (0..(10 * chunk_size + 123))
        .map(|index| (index % 251) as u8)
        .collect();
    let mut scan = FileScan::new(HashAlgorithm::Sha256, data.len() as u64, chunk_size).unwrap();
    let mut offset = 0;
    while scan.next_size() > 0 {
        let size = scan.next_size();
        scan.absorb(&data[offset..offset + size]);
        offset += size;
    }
    let (hash, chunks) = scan.finish();
    assert_eq!(
        hash,
        IntegrityVerifier::compute_file_hash(&data, HashAlgorithm::Sha256)
    );
    assert_eq!(chunks.len(), 11);
    for (index, chunk) in chunks.iter().enumerate() {
        let start = index * chunk_size;
        let end = (start + chunk_size).min(data.len());
        assert_eq!(chunk.index, index as u32);
        assert_eq!(chunk.offset, start as u64);
        assert_eq!(chunk.size, (end - start) as u32);
        assert_eq!(
            chunk.checksum,
            IntegrityVerifier::compute_chunk_checksum(&data[start..end])
        );
    }
}

#[test]
fn file_hash_and_chunk_metadata_support_chunks_larger_than_scan_batch() {
    let chunk_size = 9 * 1024 * 1024;
    let data = vec![0x5a; chunk_size + 17];
    let (_, chunks) = IntegrityVerifier::compute_file_hash_and_chunk_metas(
        &data,
        HashAlgorithm::Sha256,
        chunk_size,
    )
    .expect("large chunk scan");
    assert_eq!(chunks.len(), 2);
    assert_eq!(chunks[0].size, chunk_size as u32);
    assert_eq!(chunks[1].offset, chunk_size as u64);
    assert_eq!(chunks[1].size, 17);
}

fn no_links(validator: &PathValidator, path: &str) -> PathFacts {
    let text = validator.candidate(path).unwrap_or_default();
    PathFacts {
        links: vec![false; PathValidator::prefixes(&text).len()],
        resolved: Ok(text),
    }
}

#[test]
fn path_validator_allows_within_base() {
    let validator = PathValidator::new("/srv/base".into(), None, false);
    let facts = no_links(&validator, "nested/file.txt");
    let resolved = validator
        .validate("nested/file.txt", &facts)
        .expect("validate path");
    assert_eq!(resolved, "/srv/base/nested/file.txt");
    assert!(validator.is_within_base(&resolved));
}

#[test]
fn path_validator_blocks_traversal() {
    let validator = PathValidator::new("/srv/base".into(), None, false);
    let facts = no_links(&validator, "../evil");
    let result = validator.validate("../evil", &facts);
    assert!(matches!(result, Err(FileTransferError::PathTraversal(_))));
}

#[test]
fn path_validator_blocks_absolute_outside_base() {
    let validator = PathValidator::new("/srv/base".into(), None, false);
    let facts = no_links(&validator, "/srv/other");
    let result = validator.validate("/srv/other", &facts);
    assert!(matches!(result, Err(FileTransferError::PathTraversal(_))));
    assert!(!validator.is_within_base("/srv/basement"));
}

#[test]
fn path_validator_rejects_symlink_components() {
    let validator = PathValidator::new("/srv/base".into(), None, false);
    assert_eq!(
        PathValidator::prefixes("/srv/base/link/file.txt"),
        vec!["/srv", "/srv/base", "/srv/base/link", "/srv/base/link/file.txt"]
    );
    let facts = PathFacts {
        links: vec![false, false, true, false],
        resolved: Ok("/srv/base/target/file.txt".into()),
    };
    let result = validator.validate("link/file.txt", &facts);
    assert_eq!(
        result,
        Err(FileTransferError::PathTraversal("/srv/base/link".into()))
    );

    let follow = PathValidator::new("/srv/base".into(), None, true);
    let resolved = follow
        .validate("link/file.txt", &facts)
        .expect("validate symlink");
    assert_eq!(resolved, "/srv/base/target/file.txt");
}

#[test]
fn path_validator_accepts_configured_base_path_alias_but_rejects_child_escape() {
    let validator = PathValidator::new(
        "/srv/base-alias".into(),
        Some("/srv/physical-base".into()),
        false,
    );
    let path = "/srv/base-alias/nested/destination.bin";
    let accepted = validator
        .validate(path, &no_links(&validator, path))
        .expect("configured base alias is trusted");
    assert_eq!(accepted, "/srv/physical-base/nested/destination.bin");

    let path = "/srv/base-alias/escape/destination.bin";
    let mut facts = no_links(&validator, path);
    facts.links[2] = true;
    let rejected = validator.validate(path, &facts);
    assert!(matches!(rejected, Err(FileTransferError::PathTraversal(_))));
}

#[test]
fn path_validator_follow_symlink_rejects_escape() {
    let validator = PathValidator::new("/srv/base".into(), None, true);
    let facts = PathFacts {
        links: vec![false, false, true, false],
        resolved: Ok(PathValidator::resolve_missing(
            "/outside",
            "/srv/base/escape/new.txt",
            3,
        )),
    };
    assert_eq!(facts.resolved, Ok("/outside/new.txt".into()));
    let result = validator.validate("escape/new.txt", &facts);
    assert!(matches!(result, Err(FileTransferError::PathTraversal(_))));
    let failing = PathFacts {
        links: Vec::new(),
        resolved: Err((IoKind::PermissionDenied, "denied".into())),
    };
    assert_eq!(
        validator.validate("a", &failing),
        Err(FileTransferError::Io(IoKind::PermissionDenied, "denied".into()))
    );
}

#[test]
fn missing_ends_are_kept_unless_a_link_is_among_them() {
    let path = "/srv/base/link/new/file.txt";
    let missing = || Err((IoKind::NotFound, "missing".to_string()));
    let known = vec![
        Some("/srv".to_string()),
        Some("/srv/base".to_string()),
        Some("/srv/base/target".to_string()),
        None,
        None,
    ];
    let links = vec![false, false, true, false, false];
    assert_eq!(
        PathValidator::resolve(path, missing(), &known, &links),
        Ok("/srv/base/target/new/file.txt".into())
    );
    // A link among the missing steps leads nowhere.
    let dangling = vec![false, false, true, true, false];
    assert_eq!(PathValidator::resolve(path, missing(), &known, &dangling), missing());
    let validator = PathValidator::new("/srv/base".into(), None, true);
    let facts = PathFacts {
        resolved: PathValidator::resolve(path, missing(), &known, &dangling),
        links: dangling,
    };
    assert_eq!(
        validator.validate("link/new/file.txt", &facts),
        Err(FileTransferError::Io(IoKind::NotFound, "missing".into()))
    );
    assert_eq!(PathValidator::resolve(path, missing(), &vec![None; 5], &links), missing());
    let denied = Err((IoKind::PermissionDenied, "denied".to_string()));
    assert_eq!(PathValidator::resolve(path, denied.clone(), &known, &links), denied);
    let whole = Ok("/srv/base/target".to_string());
    assert_eq!(PathValidator::resolve(path, whole.clone(), &known, &links), whole);
}

fn manifest(data: &[u8]) -> TransferManifest {
    TransferManifest {
        version: CURRENT_VERSION,
        session_id: id(9),
        source_path: "src.txt".into(),
        dest_path: "dst.txt".into(),
        file_size: data.len() as u64,
        file_hash: data.to_vec(),
        hash_algorithm: HashAlgorithm::XxHash64,
        chunk_size: data.len() as u32,
        chunk_count: 1,
        chunks: vec![ChunkMeta {
            index: 0,
            offset: 0,
            size: data.len() as u32,
            checksum: xxhash_rust::xxh64::xxh64(data, 0),
        }],
        metadata: None,
        options: TransferOptions::default(),
        created_at: 0,
    }
}

fn session() -> TransferSession {
    TransferSession::new(
        id(9),
        TransferKind::Send,
        TransferMode::Copy,
        NodeId { id: 1 },
        Vec::new(),
        "src.txt".into(),
        "dst.txt".into(),
        manifest(b"hello"),
        ChunkTracker::new(1, 3),
        TransferOptions::default(),
        at(100),
    )
}

#[test]
fn manifests_that_contradict_themselves_are_told() {
    assert_eq!(manifest(b"hello").validate(), Ok(()));
    let mut newer = manifest(b"hello");
    newer.version = CURRENT_VERSION + 1;
    assert_eq!(
        newer.validate(),
        Err(ManifestError::UnsupportedVersion(CURRENT_VERSION + 1))
    );
    let mut count = manifest(b"hello");
    count.chunk_count = 2;
    assert_eq!(
        count.validate(),
        Err(ManifestError::ChunkCountMismatch { expected: 2, actual: 1 })
    );
    let mut order = manifest(b"hello");
    order.chunks[0].index = 5;
    assert_eq!(
        order.validate(),
        Err(ManifestError::ChunkIndexMismatch { expected: 0, actual: 5 })
    );
    let mut size = manifest(b"hello");
    size.file_size = 6;
    assert_eq!(
        size.validate(),
        Err(ManifestError::SizeMismatch { expected: 6, actual: 5 })
    );
}

#[test]
fn session_persistence_round_trip() {
    let config = FileTransferConfig::default()
        .with_base_path("/base".into())
        .with_session_dir(Some("/base/sessions".into()));
    let persistence = SessionPersistence::new(&config);
    let path = persistence.session_path(id(9));
    assert!(path.starts_with("/base/sessions/"));
    assert_ne!(path, persistence.temp_path(id(9)));
    assert_ne!(path, persistence.progress_path(id(9)));

    let mut session = session();
    session.state = TransferState::Paused;
    session.chunk_tracker.mark_completed(0);
    // What is kept is the session, with an empty journal behind it.
    let mut loaded = session.clone();
    replay_progress(&[], &mut loaded.chunk_tracker);
    assert_eq!(loaded.id, session.id);
    assert_eq!(loaded.state, session.state);
    assert_eq!(loaded.manifest.file_size, session.manifest.file_size);
    assert_eq!(loaded.chunk_tracker.completed, session.chunk_tracker.completed);

    let mut journal = Vec::new();
    for index in [2u32, 0, 2] {
        journal.extend(checkpoint_record(index));
    }
    assert_eq!(journal[..8], [2, 0, 0, 0, 0xfd, 0xff, 0xff, 0xff]);
    let mut tracker = ChunkTracker::new(4, 3);
    replay_progress(&journal, &mut tracker);
    let expected: Vec<u32> = vec![0, 2];
    assert_eq!(tracker.completed.iter().copied().collect::<Vec<u32>>(), expected);
    // A record that was not written whole ends the journal.
    journal.extend([1, 0, 0, 0, 0xfe]);
    let mut tracker = ChunkTracker::new(4, 3);
    replay_progress(&journal, &mut tracker);
    assert_eq!(tracker.completed.iter().copied().collect::<Vec<u32>>(), expected);
}

#[test]
fn session_persistence_gc_removes_expired() {
    let config = FileTransferConfig::default()
        .with_session_retention(Duration::from_millis(1))
        .with_max_sessions(10);
    let persistence = SessionPersistence::new(&config);
    // The session is a minute old.
    assert_eq!(persistence.expired_sessions(&[at(40)], at(100)), vec![0]);
    assert!(persistence.surplus_sessions(&[at(40)]).is_empty());
}

#[test]
fn surplus_sessions_are_the_oldest() {
    let config = FileTransferConfig::default()
        .with_session_retention(Duration::from_millis(1))
        .with_max_sessions(1);
    let persistence = SessionPersistence::new(&config);
    let times = [at(40), at(100), at(200)];
    assert_eq!(persistence.expired_sessions(&times, at(100)), vec![0]);
    assert_eq!(persistence.surplus_sessions(&times), vec![0, 1]);
    assert!(is_expired(at(100), at(40), Duration::from_millis(1)));
    assert!(!is_expired(at(40), at(100), Duration::from_millis(1)));
}

#[test]
fn chunk_stream_codec_round_trip() {
    let payload = b"chunk data".to_vec();
    let frame = ChunkStreamCodec::encode(id(0x0102), 7, &payload).expect("encode");
    assert_eq!(frame[0], CHUNK_STREAM_MAGIC);
    let (decoded_id, decoded_index, decoded_data) =
        ChunkStreamCodec::decode(&frame[1..]).expect("decode");
    assert_eq!(decoded_id, id(0x0102));
    assert_eq!(decoded_index, 7);
    assert_eq!(decoded_data, payload);
    let framed = ChunkStreamCodec::encode_with_checksum(id(1), 7, &payload, 0xabcd).unwrap();
    assert_eq!(
        ChunkStreamCodec::decode_checksum(&framed[1..], HEADER_BYTES + payload.len()),
        Ok(0xabcd)
    );
}

#[test]
fn chunk_frames_that_end_early_or_are_too_long_are_refused() {
    let frame = ChunkStreamCodec::encode(id(1), 7, b"chunk data").unwrap();
    for kept in 1..frame.len() {
        assert!(matches!(
            ChunkStreamCodec::decode(&frame[1..kept]),
            Err(FileTransferError::Io(IoKind::UnexpectedEof, _))
        ));
    }
    let mut long = frame[1..].to_vec();
    long[20..24].copy_from_slice(&(MAX_WIRE_CHUNK_SIZE as u32 + 1).to_le_bytes());
    assert!(matches!(
        ChunkStreamCodec::decode(&long),
        Err(FileTransferError::Io(IoKind::InvalidData, _))
    ));
    let too_much = vec![0u8; MAX_WIRE_CHUNK_SIZE + 1];
    assert!(matches!(
        ChunkStreamCodec::encode(id(1), 7, &too_much),
        Err(FileTransferError::Io(IoKind::InvalidInput, _))
    ));
}

#[test]
fn states_follow_each_other() {
    let mut session = session();
    assert_eq!(session.state, TransferState::Initializing);
    assert!(session.transition_to(TransferState::InProgress, at(101)).is_ok());
    assert!(session.transition_to(TransferState::Paused, at(102)).is_ok());
    let error = session
        .transition_to(TransferState::Completed, at(103))
        .unwrap_err();
    assert_eq!(
        error,
        FileTransferError::InvalidState {
            expected: "Paused".into(),
            actual: "Completed".into()
        }
    );
    assert_eq!(session.updated_at, at(102));
    session.fail("broken".into(), at(104));
    assert_eq!(session.error, Some("broken".into()));
    assert!(!session.state.is_active());
    assert!(session.transition_to(TransferState::InProgress, at(105)).is_err());
    assert_eq!(session.info().file_size, 5);
    assert!(!TransferSession::can_transition(
        TransferState::Verifying,
        TransferState::Cancelled
    ));
}

#[test]
fn errors_have_texts_numbers_and_families() {
    let cases = vec![
        (
            FileTransferError::SessionNotFound(id(0xab)),
            "session not found: 000000000000000000000000000000ab",
        ),
        (
            FileTransferError::SessionAlreadyExists(id(1)),
            "session already exists: 00000000000000000000000000000001",
        ),
        (FileTransferError::FileNotFound("x".into()), "file not found: x"),
        (FileTransferError::FileAlreadyExists("x".into()), "file already exists: x"),
        (FileTransferError::PermissionDenied("x".into()), "permission denied: x"),
        (FileTransferError::DiskFull, "disk full"),
        (
            FileTransferError::PathTraversal("x".into()),
            "path traversal attack detected: x",
        ),
        (
            FileTransferError::ChunkChecksumMismatch { index: 12 },
            "chunk checksum mismatch at index 12",
        ),
        (FileTransferError::FileHashMismatch, "file hash mismatch"),
        (FileTransferError::Timeout, "transfer timeout"),
        (FileTransferError::Cancelled, "transfer cancelled"),
        (
            FileTransferError::MaxRetriesExceeded { index: 3 },
            "max retries exceeded for chunk 3",
        ),
        (FileTransferError::SyncConflict { path: "x".into() }, "sync conflict: x"),
        (FileTransferError::Io(IoKind::Other, "x".into()), "io error: x"),
        (FileTransferError::Transport("x".into()), "transport error: x"),
        (FileTransferError::Rejected("x".into()), "peer rejected: x"),
        (FileTransferError::Serialization("x".into()), "serialization error: x"),
        (FileTransferError::Compression("x".into()), "compression error: x"),
        (FileTransferError::Internal("x".into()), "internal error: x"),
    ];
    let mut codes: Vec<u32> = Vec::new();
    for (error, text) in cases {
        assert_eq!(error.message(), text);
        codes.push(error.code());
    }
    assert_eq!(
        codes,
        vec![
            1001, 1002, 2001, 2002, 2003, 2004, 2005, 3001, 3002, 3003, 3004, 3005, 4001, 9001,
            9001, 9001, 9001, 9001, 9001
        ]
    );
    let invalid = FileTransferError::InvalidState { expected: "a".into(), actual: "b".into() };
    assert_eq!(invalid.message(), "invalid session state");
    assert_eq!(invalid.code(), 1003);
    assert!(FileTransferError::Timeout.is_recoverable());
    assert!(!FileTransferError::FileHashMismatch.is_recoverable());
    assert_eq!(
        map_io_error(IoKind::NotFound, "x".into()),
        FileTransferError::FileNotFound("x".into())
    );
    assert_eq!(
        map_io_error(IoKind::PermissionDenied, "x".into()),
        FileTransferError::PermissionDenied("x".into())
    );
    assert_eq!(
        map_io_error(IoKind::Other, "x".into()),
        FileTransferError::Io(IoKind::Other, "x".into())
    );
}

#[test]
fn progress_grows_and_stops_at_the_greatest_number() {
    let mut progress = TransferProgress::new(10);
    progress.update(4, 1);
    progress.update(u64::MAX, 1);
    assert_eq!(progress.bytes_transferred, u64::MAX);
    assert_eq!(progress.chunks_completed, 2);
    let mut handle = TransferHandle::new(10);
    handle.update_progress(3, 1);
    handle.set_total_bytes(12);
    assert_eq!(handle.progress().total_bytes, 12);
    assert_eq!(handle.progress().bytes_transferred, 3);
    assert!(!handle.is_cancelled());
    handle.cancel();
    assert!(handle.is_cancelled());
    let (one, two) = (NodeId { id: 1 }, NodeId { id: 2 });
    let mut all = BroadcastHandle::new(&[one], 10);
    all.update_node_progress(one, 5, 1);
    all.update_node_progress(two, 5, 1);
    assert_eq!(all.progress_of(one).unwrap().progress.bytes_transferred, 5);
    assert!(all.progress_of(two).is_none());
}

#[test]
fn active_transfers_balance_over_a_whole_history() {
    let balance = |m: &FileTransferMetrics| {
        m.transfers_started
            .wrapping_sub(m.transfers_completed)
            .wrapping_sub(m.transfers_failed)
            .wrapping_sub(m.transfers_cancelled)
    };
    let mut metrics = FileTransferMetrics::default();
    // An end without a start takes the number of active transfers below zero: it starts anew.
    metrics.record_transfer_failed();
    assert_eq!(metrics.active_transfers, u64::MAX);
    assert_eq!(metrics.active_transfers, balance(&metrics));
    for _ in 0..3 {
        metrics.record_transfer_start();
        metrics.record_chunk_sent(5);
        metrics.record_retry();
    }
    metrics.record_transfer_cancelled();
    metrics.record_checksum_verification(false);
    let before = metrics;
    metrics.record_transfer_complete(7);
    assert_eq!(
        metrics,
        FileTransferMetrics {
            transfers_completed: 1,
            bytes_sent: 22,
            active_transfers: 0,
            ..before
        }
    );
    assert_eq!(before.active_transfers, 1);
    assert_eq!(metrics.active_transfers, balance(&metrics));
}

#[test]
fn every_end_of_a_transfer_is_counted() {
    let mut metrics = FileTransferMetrics::default();
    for _ in 0..3 {
        metrics.record_transfer_start();
    }
    metrics.record_transfer_complete(100);
    metrics.record_transfer_failed();
    assert_eq!(metrics.active_transfers, 1);
    metrics.record_transfer_cancelled();
    assert_eq!(metrics.active_transfers, 0);
    assert_eq!(metrics.transfers_started, 3);
    metrics.record_chunk_sent(5);
    metrics.record_chunk_received(6);
    metrics.record_retry();
    metrics.record_checksum_verification(false);
    metrics.set_chunks_in_flight(4);
    metrics.set_active_transfers(9);
    assert_eq!(metrics.chunks_sent, 1);
    assert_eq!(metrics.bytes_received, 6);
    assert_eq!(metrics.chunks_retried, 1);
    assert_eq!(metrics.checksum_failures, 1);
    assert_eq!(metrics.chunks_in_flight, 4);
    assert_eq!(metrics.active_transfers, 9);
    assert_eq!(kind_label(TransferKind::Send), "Send");
    assert_eq!(kind_label(TransferKind::Broadcast), "Broadcast");
    assert_eq!(kind_label(TransferKind::Sync), "Sync");
}

#[test]
fn messages_wait_until_they_are_taken() {
    let mut inbox: ControlDispatcher<u32> = ControlDispatcher::new();
    let now = Instant { nanos: 5 };
    inbox.push(id(2), NodeId { id: 1 }, 10);
    inbox.push(id(2), NodeId { id: 1 }, 11);
    inbox.push(id(1), NodeId { id: 3 }, 20);
    assert!(inbox.pop_matching(id(3), &|_: NodeId, _: &u32| true).is_none());
    assert_eq!(
        inbox.pop_matching(id(2), &|_: NodeId, m: &u32| *m > 10),
        Some((NodeId { id: 1 }, 11))
    );
    assert_eq!(
        inbox.pop_matching_any(&|_: NodeId, _: &u32| true),
        Some((id(1), NodeId { id: 3 }, 20))
    );
    assert_eq!(
        inbox.pop_matching_any(&|_: NodeId, _: &u32| true),
        Some((id(2), NodeId { id: 1 }, 10))
    );
    assert!(matches!(
        inbox.wait_on(now, Instant { nanos: 9 }),
        Waiting::Sleep(Duration { nanos: 4 })
    ));
    assert!(matches!(
        inbox.wait_on(now, now),
        Waiting::GiveUp(FileTransferError::Timeout)
    ));
    inbox.close();
    assert!(matches!(
        inbox.wait_on(now, Instant { nanos: 9 }),
        Waiting::GiveUp(FileTransferError::Transport(_))
    ));
}

#[test]
fn builders_change_one_setting() {
    let options = TransferOptions::default()
        .with_chunk_size(1)
        .with_compression(CompressionAlgorithm::Zstd)
        .with_verify_on_complete(false)
        .with_hash_algorithm(HashAlgorithm::Blake3)
        .with_resumable(false)
        .with_overwrite(true)
        .with_mode(TransferMode::Move)
        .with_preserve_metadata(true);
    assert_eq!(options.chunk_size, 1);
    assert_eq!(options.compression, CompressionAlgorithm::Zstd);
    assert!(!options.verify_on_complete && !options.resumable);
    assert!(options.overwrite && options.preserve_metadata);
    assert_eq!(options.mode, TransferMode::Move);
    assert_eq!(options.concurrency, TransferOptions::default().concurrency);
    let policy = RetryPolicy::default();
    assert_eq!(policy.backoff_multiplier, FloatBits { bits: TWO_BITS });
    assert_eq!(f64::from_bits(TWO_BITS), 2.0);
    let sync = SyncOptions::default()
        .with_direction(SyncDirection::Pull)
        .with_transfer(options)
        .with_follow_symlinks(true);
    assert_eq!(sync.direction, SyncDirection::Pull);
    assert_eq!(sync.transfer, options);
    assert!(sync.follow_symlinks);
    assert!(RemoveOptions::default().with_recursive(true).recursive);
    assert!(RemoveOptions::default().with_ignore_not_found(true).ignore_not_found);
    let list = ListOptions::default()
        .with_recursive(true)
        .with_limit(3)
        .with_pattern(Some("x".into()));
    assert!(list.recursive);
    assert_eq!(list.limit, 3);
    assert_eq!(list.pattern, Some("x".into()));
    assert_eq!(ListOptions::default().with_sort_by(SortBy::Size).sort_by, SortBy::Size);
}

#[test]
fn configured_settings_change_one_by_one() {
    let retry = RetryConfig::default()
        .with_max_retries(9)
        .with_initial_delay(Duration::from_millis(1))
        .with_max_delay(Duration::from_millis(2))
        .with_backoff_multiplier(FloatBits { bits: 7 });
    assert_eq!(retry.max_retries, 9);
    assert_eq!(retry.initial_delay, Duration::from_millis(1));
    assert_eq!(retry.max_delay, Duration::from_millis(2));
    assert_eq!(retry.backoff_multiplier, FloatBits { bits: 7 });
    let config = FileTransferConfig::default()
        .with_default_chunk_size(1)
        .with_default_concurrency(2)
        .with_max_concurrency(3)
        .with_default_compression(CompressionAlgorithm::ZstdLevel(4))
        .with_chunk_timeout(Duration::from_secs(5))
        .with_manifest_timeout(Duration::from_secs(6))
        .with_idle_timeout(Duration::from_secs(7))
        .with_retry(retry)
        .with_temp_dir(Some("/tmp".into()));
    assert_eq!(config.default_chunk_size, 1);
    assert_eq!(config.default_concurrency, 2);
    assert_eq!(config.max_concurrency, 3);
    assert_eq!(config.default_compression, CompressionAlgorithm::ZstdLevel(4));
    assert_eq!(config.chunk_timeout, Duration::from_secs(5));
    assert_eq!(config.manifest_timeout, Duration::from_secs(6));
    assert_eq!(config.idle_timeout, Duration::from_secs(7));
    assert_eq!(config.retry, retry);
    assert_eq!(config.temp_dir, Some("/tmp".into()));
    assert_eq!(config.max_sessions, FileTransferConfig::default().max_sessions);
    let policy = RetryPolicy { max_retries: 1, ..RetryPolicy::default() };
    assert_eq!(TransferOptions::default().with_retry_policy(policy).retry_policy, policy);
}

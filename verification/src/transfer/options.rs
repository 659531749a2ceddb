//! Options of transfers, synchronisations and file operations.

use vstd::prelude::*;

use crate::clock::Duration;

verus! {

/// The size of a chunk where none is asked for.
pub const DEFAULT_CHUNK_SIZE: usize = 1024 * 1024;

/// The least size of a chunk.
pub const MIN_CHUNK_SIZE: usize = 64 * 1024;

/// The greatest size of a chunk.
pub const MAX_CHUNK_SIZE: usize = 16 * 1024 * 1024;

/// How many chunks are under way at once where nothing else is asked for.
pub const DEFAULT_CONCURRENCY: usize = 4;

/// How chunks are compressed.
#[derive(Debug, Clone, Copy, PartialEq, Eq, Structural)]
pub enum CompressionAlgorithm {
    /// Not at all.
    Uncompressed,
    /// With Zstd at its default level.
    Zstd,
    /// With Zstd at a level.
    ZstdLevel(i32),
}

/// How a file is hashed.
#[derive(Debug, Clone, Copy, PartialEq, Eq, Structural)]
pub enum HashAlgorithm {
    Sha256,
    Blake3,
    XxHash64,
}

/// What becomes of the source after a transfer.
#[derive(Debug, Clone, Copy, PartialEq, Eq, Structural)]
pub enum TransferMode {
    /// It stays.
    Copy,
    /// It is removed.
    Move,
}

/// Which way a file is synchronised.
#[derive(Debug, Clone, Copy, PartialEq, Eq, Structural)]
pub enum SyncDirection {
    /// From here to the other node.
    Push,
    /// From the other node to here.
    Pull,
    /// Either way.
    Bidirectional,
}

/// Which side gives way where both differ.
#[derive(Debug, Clone, Copy, PartialEq, Eq, Structural)]
pub enum ConflictResolution {
    /// The older one.
    NewerWins,
    /// The target.
    SourceWins,
    /// The source.
    TargetWins,
    /// Neither: it is an error.
    Manual,
}

/// What a listing is sorted by.
#[derive(Debug, Clone, Copy, PartialEq, Eq, Structural)]
pub enum SortBy {
    Name,
    Size,
    ModifiedTime,
}

/// A binary64 number, by its bits.
#[derive(Debug, Clone, Copy, PartialEq, Eq, Structural)]
pub struct FloatBits {
    pub bits: u64,
}

/// The bits of the number two.
pub const TWO_BITS: u64 = 0x4000_0000_0000_0000;

/// How often and how soon a chunk is sent again.
#[derive(Debug, Clone, Copy, PartialEq, Eq, Structural)]
pub struct RetryPolicy {
    pub max_retries: u8,
    pub initial_delay: Duration,
    pub max_delay: Duration,
    pub backoff_multiplier: FloatBits,
    pub jitter: bool,
}

/// How a file is transferred.
#[derive(Debug, Clone, Copy, PartialEq, Eq, Structural)]
pub struct TransferOptions {
    pub chunk_size: usize,
    pub concurrency: usize,
    pub compression: CompressionAlgorithm,
    pub bandwidth_limit: Option<u64>,
    pub retry_policy: RetryPolicy,
    pub verify_on_complete: bool,
    pub hash_algorithm: HashAlgorithm,
    pub resumable: bool,
    pub overwrite: bool,
    pub mode: TransferMode,
    pub preserve_metadata: bool,
    pub follow_symlinks: bool,
}

/// How a file is synchronised.
#[derive(Debug, Clone, Copy, PartialEq, Eq, Structural)]
pub struct SyncOptions {
    pub transfer: TransferOptions,
    pub direction: SyncDirection,
    pub conflict_resolution: ConflictResolution,
    pub follow_symlinks: bool,
    pub clock_skew_tolerance: Duration,
}

/// How files and directories are removed.
#[derive(Debug, Clone, Copy, PartialEq, Eq, Structural)]
pub struct RemoveOptions {
    pub recursive: bool,
    pub ignore_not_found: bool,
}

/// What a listing holds.
#[derive(Debug, PartialEq, Eq)]
pub struct ListOptions {
    pub recursive: bool,
    pub include_hidden: bool,
    pub files_only: bool,
    pub directories_only: bool,
    pub pattern: Option<String>,
    pub limit: usize,
    pub sort_by: SortBy,
}

/// The retry policy where nothing else is asked for.
pub open spec fn default_retry_policy() -> RetryPolicy {
    RetryPolicy {
        max_retries: 3,
        initial_delay: Duration { nanos: 100_000_000 },
        max_delay: Duration { nanos: 10_000_000_000 },
        backoff_multiplier: FloatBits { bits: TWO_BITS },
        jitter: true,
    }
}

/// The transfer options where nothing else is asked for.
pub open spec fn default_transfer_options() -> TransferOptions {
    TransferOptions {
        chunk_size: DEFAULT_CHUNK_SIZE,
        concurrency: DEFAULT_CONCURRENCY,
        compression: CompressionAlgorithm::Uncompressed,
        bandwidth_limit: None,
        retry_policy: default_retry_policy(),
        verify_on_complete: true,
        hash_algorithm: HashAlgorithm::Sha256,
        resumable: true,
        overwrite: false,
        mode: TransferMode::Copy,
        preserve_metadata: true,
        follow_symlinks: false,
    }
}

impl Default for CompressionAlgorithm {
    fn default() -> (value: Self)
        ensures
            value == CompressionAlgorithm::Uncompressed,
    {
        CompressionAlgorithm::Uncompressed
    }
}

impl Default for HashAlgorithm {
    fn default() -> (value: Self)
        ensures
            value == HashAlgorithm::Sha256,
    {
        HashAlgorithm::Sha256
    }
}

impl Default for TransferMode {
    fn default() -> (value: Self)
        ensures
            value == TransferMode::Copy,
    {
        TransferMode::Copy
    }
}

impl Default for ConflictResolution {
    fn default() -> (value: Self)
        ensures
            value == ConflictResolution::NewerWins,
    {
        ConflictResolution::NewerWins
    }
}

impl Default for SortBy {
    fn default() -> (value: Self)
        ensures
            value == SortBy::Name,
    {
        SortBy::Name
    }
}

impl Default for RetryPolicy {
    fn default() -> (value: Self)
        ensures
            value == default_retry_policy(),
    {
        RetryPolicy {
            max_retries: 3,
            initial_delay: Duration { nanos: 100_000_000 },
            max_delay: Duration { nanos: 10_000_000_000 },
            backoff_multiplier: FloatBits { bits: TWO_BITS },
            jitter: true,
        }
    }
}

impl Default for TransferOptions {
    fn default() -> (value: Self)
        ensures
            value == default_transfer_options(),
    {
        TransferOptions {
            chunk_size: DEFAULT_CHUNK_SIZE,
            concurrency: DEFAULT_CONCURRENCY,
            compression: CompressionAlgorithm::Uncompressed,
            bandwidth_limit: None,
            retry_policy: RetryPolicy::default(),
            verify_on_complete: true,
            hash_algorithm: HashAlgorithm::Sha256,
            resumable: true,
            overwrite: false,
            mode: TransferMode::Copy,
            preserve_metadata: true,
            follow_symlinks: false,
        }
    }
}

impl Default for SyncOptions {
    fn default() -> (value: Self)
        ensures
            value == (SyncOptions {
                transfer: default_transfer_options(),
                direction: SyncDirection::Push,
                conflict_resolution: ConflictResolution::NewerWins,
                follow_symlinks: false,
                clock_skew_tolerance: Duration { nanos: 2_000_000_000 },
            }),
    {
        SyncOptions {
            transfer: TransferOptions::default(),
            direction: SyncDirection::Push,
            conflict_resolution: ConflictResolution::NewerWins,
            follow_symlinks: false,
            clock_skew_tolerance: Duration { nanos: 2_000_000_000 },
        }
    }
}

impl Default for RemoveOptions {
    fn default() -> (value: Self)
        ensures
            value == (RemoveOptions { recursive: false, ignore_not_found: false }),
    {
        RemoveOptions { recursive: false, ignore_not_found: false }
    }
}

impl Default for ListOptions {
    fn default() -> (value: Self)
        ensures
            value == (ListOptions {
                recursive: false,
                include_hidden: false,
                files_only: false,
                directories_only: false,
                pattern: None,
                limit: 0,
                sort_by: SortBy::Name,
            }),
    {
        ListOptions {
            recursive: false,
            include_hidden: false,
            files_only: false,
            directories_only: false,
            pattern: None,
            limit: 0,
            sort_by: SortBy::Name,
        }
    }
}

impl TransferOptions {
    /// These options with another `chunk_size`.
    pub fn with_chunk_size(self, chunk_size: usize) -> (options: Self)
        ensures
            options == (TransferOptions { chunk_size, ..self }),
    {
        let mut options = self;
        options.chunk_size = chunk_size;
        options
    }

    /// These options with another `concurrency`.
    pub fn with_concurrency(self, concurrency: usize) -> (options: Self)
        ensures
            options == (TransferOptions { concurrency, ..self }),
    {
        let mut options = self;
        options.concurrency = concurrency;
        options
    }

    /// These options with another `compression`.
    pub fn with_compression(self, compression: CompressionAlgorithm) -> (options: Self)
        ensures
            options == (TransferOptions { compression, ..self }),
    {
        let mut options = self;
        options.compression = compression;
        options
    }

    /// These options with another `bandwidth_limit`.
    pub fn with_bandwidth_limit(self, bandwidth_limit: Option<u64>) -> (options: Self)
        ensures
            options == (TransferOptions { bandwidth_limit, ..self }),
    {
        let mut options = self;
        options.bandwidth_limit = bandwidth_limit;
        options
    }

    /// These options with another `retry_policy`.
    pub fn with_retry_policy(self, retry_policy: RetryPolicy) -> (options: Self)
        ensures
            options == (TransferOptions { retry_policy, ..self }),
    {
        let mut options = self;
        options.retry_policy = retry_policy;
        options
    }

    /// These options with another `verify_on_complete`.
    pub fn with_verify_on_complete(self, verify_on_complete: bool) -> (options: Self)
        ensures
            options == (TransferOptions { verify_on_complete, ..self }),
    {
        let mut options = self;
        options.verify_on_complete = verify_on_complete;
        options
    }

    /// These options with another `hash_algorithm`.
    pub fn with_hash_algorithm(self, hash_algorithm: HashAlgorithm) -> (options: Self)
        ensures
            options == (TransferOptions { hash_algorithm, ..self }),
    {
        let mut options = self;
        options.hash_algorithm = hash_algorithm;
        options
    }

    /// These options with another `resumable`.
    pub fn with_resumable(self, resumable: bool) -> (options: Self)
        ensures
            options == (TransferOptions { resumable, ..self }),
    {
        let mut options = self;
        options.resumable = resumable;
        options
    }

    /// These options with another `overwrite`.
    pub fn with_overwrite(self, overwrite: bool) -> (options: Self)
        ensures
            options == (TransferOptions { overwrite, ..self }),
    {
        let mut options = self;
        options.overwrite = overwrite;
        options
    }

    /// These options with another `mode`.
    pub fn with_mode(self, mode: TransferMode) -> (options: Self)
        ensures
            options == (TransferOptions { mode, ..self }),
    {
        let mut options = self;
        options.mode = mode;
        options
    }

    /// These options with another `preserve_metadata`.
    pub fn with_preserve_metadata(self, preserve_metadata: bool) -> (options: Self)
        ensures
            options == (TransferOptions { preserve_metadata, ..self }),
    {
        let mut options = self;
        options.preserve_metadata = preserve_metadata;
        options
    }
}

impl SyncOptions {
    /// These options with another `transfer`.
    pub fn with_transfer(self, transfer: TransferOptions) -> (options: Self)
        ensures
            options == (SyncOptions { transfer, ..self }),
    {
        let mut options = self;
        options.transfer = transfer;
        options
    }

    /// These options with another `direction`.
    pub fn with_direction(self, direction: SyncDirection) -> (options: Self)
        ensures
            options == (SyncOptions { direction, ..self }),
    {
        let mut options = self;
        options.direction = direction;
        options
    }

    /// These options with another `conflict_resolution`.
    pub fn with_conflict_resolution(self, conflict_resolution: ConflictResolution) -> (options: Self)
        ensures
            options == (SyncOptions { conflict_resolution, ..self }),
    {
        let mut options = self;
        options.conflict_resolution = conflict_resolution;
        options
    }

    /// These options with another `follow_symlinks`.
    pub fn with_follow_symlinks(self, follow_symlinks: bool) -> (options: Self)
        ensures
            options == (SyncOptions { follow_symlinks, ..self }),
    {
        let mut options = self;
        options.follow_symlinks = follow_symlinks;
        options
    }

    /// These options with another `clock_skew_tolerance`.
    pub fn with_clock_skew_tolerance(self, clock_skew_tolerance: Duration) -> (options: Self)
        ensures
            options == (SyncOptions { clock_skew_tolerance, ..self }),
    {
        let mut options = self;
        options.clock_skew_tolerance = clock_skew_tolerance;
        options
    }
}

impl RemoveOptions {
    /// These options with another `recursive`.
    pub fn with_recursive(self, recursive: bool) -> (options: Self)
        ensures
            options == (RemoveOptions { recursive, ..self }),
    {
        let mut options = self;
        options.recursive = recursive;
        options
    }

    /// These options with another `ignore_not_found`.
    pub fn with_ignore_not_found(self, ignore_not_found: bool) -> (options: Self)
        ensures
            options == (RemoveOptions { ignore_not_found, ..self }),
    {
        let mut options = self;
        options.ignore_not_found = ignore_not_found;
        options
    }
}

impl ListOptions {
    /// These options with another `recursive`.
    pub fn with_recursive(self, recursive: bool) -> (options: Self)
        ensures
            options == (ListOptions { recursive, ..self }),
    {
        let mut options = self;
        options.recursive = recursive;
        options
    }

    /// These options with another `include_hidden`.
    pub fn with_include_hidden(self, include_hidden: bool) -> (options: Self)
        ensures
            options == (ListOptions { include_hidden, ..self }),
    {
        let mut options = self;
        options.include_hidden = include_hidden;
        options
    }

    /// These options with another `files_only`.
    pub fn with_files_only(self, files_only: bool) -> (options: Self)
        ensures
            options == (ListOptions { files_only, ..self }),
    {
        let mut options = self;
        options.files_only = files_only;
        options
    }

    /// These options with another `directories_only`.
    pub fn with_directories_only(self, directories_only: bool) -> (options: Self)
        ensures
            options == (ListOptions { directories_only, ..self }),
    {
        let mut options = self;
        options.directories_only = directories_only;
        options
    }

    /// These options with another `pattern`.
    pub fn with_pattern(self, pattern: Option<String>) -> (options: Self)
        ensures
            options == (ListOptions { pattern, ..self }),
    {
        let mut options = self;
        options.pattern = pattern;
        options
    }

    /// These options with another `limit`.
    pub fn with_limit(self, limit: usize) -> (options: Self)
        ensures
            options == (ListOptions { limit, ..self }),
    {
        let mut options = self;
        options.limit = limit;
        options
    }

    /// These options with another `sort_by`.
    pub fn with_sort_by(self, sort_by: SortBy) -> (options: Self)
        ensures
            options == (ListOptions { sort_by, ..self }),
    {
        let mut options = self;
        options.sort_by = sort_by;
        options
    }
}

/// Each of the options of a transfer is set alone, to what is given.
pub proof fn each_builder_of_transfer_options_sets_its_own(
    value: TransferOptions,
    chunk_size: usize,
    with_chunk_size: TransferOptions,
    concurrency: usize,
    with_concurrency: TransferOptions,
    compression: CompressionAlgorithm,
    with_compression: TransferOptions,
    bandwidth_limit: Option<u64>,
    with_bandwidth_limit: TransferOptions,
    retry_policy: RetryPolicy,
    with_retry_policy: TransferOptions,
    verify_on_complete: bool,
    with_verify_on_complete: TransferOptions,
    hash_algorithm: HashAlgorithm,
    with_hash_algorithm: TransferOptions,
    resumable: bool,
    with_resumable: TransferOptions,
    overwrite: bool,
    with_overwrite: TransferOptions,
    mode: TransferMode,
    with_mode: TransferOptions,
    preserve_metadata: bool,
    with_preserve_metadata: TransferOptions,
)
    requires
        call_ensures(TransferOptions::with_chunk_size, (value, chunk_size), with_chunk_size),
        call_ensures(TransferOptions::with_concurrency, (value, concurrency), with_concurrency),
        call_ensures(TransferOptions::with_compression, (value, compression), with_compression),
        call_ensures(TransferOptions::with_bandwidth_limit, (value, bandwidth_limit), with_bandwidth_limit),
        call_ensures(TransferOptions::with_retry_policy, (value, retry_policy), with_retry_policy),
        call_ensures(TransferOptions::with_verify_on_complete, (value, verify_on_complete), with_verify_on_complete),
        call_ensures(TransferOptions::with_hash_algorithm, (value, hash_algorithm), with_hash_algorithm),
        call_ensures(TransferOptions::with_resumable, (value, resumable), with_resumable),
        call_ensures(TransferOptions::with_overwrite, (value, overwrite), with_overwrite),
        call_ensures(TransferOptions::with_mode, (value, mode), with_mode),
        call_ensures(TransferOptions::with_preserve_metadata, (value, preserve_metadata), with_preserve_metadata),
    ensures
        with_chunk_size.chunk_size == chunk_size,
        with_chunk_size.concurrency == value.concurrency,
        with_chunk_size.compression == value.compression,
        with_chunk_size.bandwidth_limit == value.bandwidth_limit,
        with_chunk_size.retry_policy == value.retry_policy,
        with_chunk_size.verify_on_complete == value.verify_on_complete,
        with_chunk_size.hash_algorithm == value.hash_algorithm,
        with_chunk_size.resumable == value.resumable,
        with_chunk_size.overwrite == value.overwrite,
        with_chunk_size.mode == value.mode,
        with_chunk_size.preserve_metadata == value.preserve_metadata,
        with_concurrency.concurrency == concurrency,
        with_concurrency.chunk_size == value.chunk_size,
        with_concurrency.compression == value.compression,
        with_concurrency.bandwidth_limit == value.bandwidth_limit,
        with_concurrency.retry_policy == value.retry_policy,
        with_concurrency.verify_on_complete == value.verify_on_complete,
        with_concurrency.hash_algorithm == value.hash_algorithm,
        with_concurrency.resumable == value.resumable,
        with_concurrency.overwrite == value.overwrite,
        with_concurrency.mode == value.mode,
        with_concurrency.preserve_metadata == value.preserve_metadata,
        with_compression.compression == compression,
        with_compression.chunk_size == value.chunk_size,
        with_compression.concurrency == value.concurrency,
        with_compression.bandwidth_limit == value.bandwidth_limit,
        with_compression.retry_policy == value.retry_policy,
        with_compression.verify_on_complete == value.verify_on_complete,
        with_compression.hash_algorithm == value.hash_algorithm,
        with_compression.resumable == value.resumable,
        with_compression.overwrite == value.overwrite,
        with_compression.mode == value.mode,
        with_compression.preserve_metadata == value.preserve_metadata,
        with_bandwidth_limit.bandwidth_limit == bandwidth_limit,
        with_bandwidth_limit.chunk_size == value.chunk_size,
        with_bandwidth_limit.concurrency == value.concurrency,
        with_bandwidth_limit.compression == value.compression,
        with_bandwidth_limit.retry_policy == value.retry_policy,
        with_bandwidth_limit.verify_on_complete == value.verify_on_complete,
        with_bandwidth_limit.hash_algorithm == value.hash_algorithm,
        with_bandwidth_limit.resumable == value.resumable,
        with_bandwidth_limit.overwrite == value.overwrite,
        with_bandwidth_limit.mode == value.mode,
        with_bandwidth_limit.preserve_metadata == value.preserve_metadata,
        with_retry_policy.retry_policy == retry_policy,
        with_retry_policy.chunk_size == value.chunk_size,
        with_retry_policy.concurrency == value.concurrency,
        with_retry_policy.compression == value.compression,
        with_retry_policy.bandwidth_limit == value.bandwidth_limit,
        with_retry_policy.verify_on_complete == value.verify_on_complete,
        with_retry_policy.hash_algorithm == value.hash_algorithm,
        with_retry_policy.resumable == value.resumable,
        with_retry_policy.overwrite == value.overwrite,
        with_retry_policy.mode == value.mode,
        with_retry_policy.preserve_metadata == value.preserve_metadata,
        with_verify_on_complete.verify_on_complete == verify_on_complete,
        with_verify_on_complete.chunk_size == value.chunk_size,
        with_verify_on_complete.concurrency == value.concurrency,
        with_verify_on_complete.compression == value.compression,
        with_verify_on_complete.bandwidth_limit == value.bandwidth_limit,
        with_verify_on_complete.retry_policy == value.retry_policy,
        with_verify_on_complete.hash_algorithm == value.hash_algorithm,
        with_verify_on_complete.resumable == value.resumable,
        with_verify_on_complete.overwrite == value.overwrite,
        with_verify_on_complete.mode == value.mode,
        with_verify_on_complete.preserve_metadata == value.preserve_metadata,
        with_hash_algorithm.hash_algorithm == hash_algorithm,
        with_hash_algorithm.chunk_size == value.chunk_size,
        with_hash_algorithm.concurrency == value.concurrency,
        with_hash_algorithm.compression == value.compression,
        with_hash_algorithm.bandwidth_limit == value.bandwidth_limit,
        with_hash_algorithm.retry_policy == value.retry_policy,
        with_hash_algorithm.verify_on_complete == value.verify_on_complete,
        with_hash_algorithm.resumable == value.resumable,
        with_hash_algorithm.overwrite == value.overwrite,
        with_hash_algorithm.mode == value.mode,
        with_hash_algorithm.preserve_metadata == value.preserve_metadata,
        with_resumable.resumable == resumable,
        with_resumable.chunk_size == value.chunk_size,
        with_resumable.concurrency == value.concurrency,
        with_resumable.compression == value.compression,
        with_resumable.bandwidth_limit == value.bandwidth_limit,
        with_resumable.retry_policy == value.retry_policy,
        with_resumable.verify_on_complete == value.verify_on_complete,
        with_resumable.hash_algorithm == value.hash_algorithm,
        with_resumable.overwrite == value.overwrite,
        with_resumable.mode == value.mode,
        with_resumable.preserve_metadata == value.preserve_metadata,
        with_overwrite.overwrite == overwrite,
        with_overwrite.chunk_size == value.chunk_size,
        with_overwrite.concurrency == value.concurrency,
        with_overwrite.compression == value.compression,
        with_overwrite.bandwidth_limit == value.bandwidth_limit,
        with_overwrite.retry_policy == value.retry_policy,
        with_overwrite.verify_on_complete == value.verify_on_complete,
        with_overwrite.hash_algorithm == value.hash_algorithm,
        with_overwrite.resumable == value.resumable,
        with_overwrite.mode == value.mode,
        with_overwrite.preserve_metadata == value.preserve_metadata,
        with_mode.mode == mode,
        with_mode.chunk_size == value.chunk_size,
        with_mode.concurrency == value.concurrency,
        with_mode.compression == value.compression,
        with_mode.bandwidth_limit == value.bandwidth_limit,
        with_mode.retry_policy == value.retry_policy,
        with_mode.verify_on_complete == value.verify_on_complete,
        with_mode.hash_algorithm == value.hash_algorithm,
        with_mode.resumable == value.resumable,
        with_mode.overwrite == value.overwrite,
        with_mode.preserve_metadata == value.preserve_metadata,
        with_preserve_metadata.preserve_metadata == preserve_metadata,
        with_preserve_metadata.chunk_size == value.chunk_size,
        with_preserve_metadata.concurrency == value.concurrency,
        with_preserve_metadata.compression == value.compression,
        with_preserve_metadata.bandwidth_limit == value.bandwidth_limit,
        with_preserve_metadata.retry_policy == value.retry_policy,
        with_preserve_metadata.verify_on_complete == value.verify_on_complete,
        with_preserve_metadata.hash_algorithm == value.hash_algorithm,
        with_preserve_metadata.resumable == value.resumable,
        with_preserve_metadata.overwrite == value.overwrite,
        with_preserve_metadata.mode == value.mode,
{
}

/// Each of the options of a synchronisation is set alone, to what is given.
pub proof fn each_builder_of_sync_options_sets_its_own(
    value: SyncOptions,
    transfer: TransferOptions,
    with_transfer: SyncOptions,
    direction: SyncDirection,
    with_direction: SyncOptions,
    conflict_resolution: ConflictResolution,
    with_conflict_resolution: SyncOptions,
    follow_symlinks: bool,
    with_follow_symlinks: SyncOptions,
    clock_skew_tolerance: Duration,
    with_clock_skew_tolerance: SyncOptions,
)
    requires
        call_ensures(SyncOptions::with_transfer, (value, transfer), with_transfer),
        call_ensures(SyncOptions::with_direction, (value, direction), with_direction),
        call_ensures(SyncOptions::with_conflict_resolution, (value, conflict_resolution), with_conflict_resolution),
        call_ensures(SyncOptions::with_follow_symlinks, (value, follow_symlinks), with_follow_symlinks),
        call_ensures(SyncOptions::with_clock_skew_tolerance, (value, clock_skew_tolerance), with_clock_skew_tolerance),
    ensures
        with_transfer.transfer == transfer,
        with_transfer.direction == value.direction,
        with_transfer.conflict_resolution == value.conflict_resolution,
        with_transfer.follow_symlinks == value.follow_symlinks,
        with_transfer.clock_skew_tolerance == value.clock_skew_tolerance,
        with_direction.direction == direction,
        with_direction.transfer == value.transfer,
        with_direction.conflict_resolution == value.conflict_resolution,
        with_direction.follow_symlinks == value.follow_symlinks,
        with_direction.clock_skew_tolerance == value.clock_skew_tolerance,
        with_conflict_resolution.conflict_resolution == conflict_resolution,
        with_conflict_resolution.transfer == value.transfer,
        with_conflict_resolution.direction == value.direction,
        with_conflict_resolution.follow_symlinks == value.follow_symlinks,
        with_conflict_resolution.clock_skew_tolerance == value.clock_skew_tolerance,
        with_follow_symlinks.follow_symlinks == follow_symlinks,
        with_follow_symlinks.transfer == value.transfer,
        with_follow_symlinks.direction == value.direction,
        with_follow_symlinks.conflict_resolution == value.conflict_resolution,
        with_follow_symlinks.clock_skew_tolerance == value.clock_skew_tolerance,
        with_clock_skew_tolerance.clock_skew_tolerance == clock_skew_tolerance,
        with_clock_skew_tolerance.transfer == value.transfer,
        with_clock_skew_tolerance.direction == value.direction,
        with_clock_skew_tolerance.conflict_resolution == value.conflict_resolution,
        with_clock_skew_tolerance.follow_symlinks == value.follow_symlinks,
{
}

/// Each of the options of a removal is set alone, to what is given.
pub proof fn each_builder_of_remove_options_sets_its_own(
    value: RemoveOptions,
    recursive: bool,
    with_recursive: RemoveOptions,
    ignore_not_found: bool,
    with_ignore_not_found: RemoveOptions,
)
    requires
        call_ensures(RemoveOptions::with_recursive, (value, recursive), with_recursive),
        call_ensures(RemoveOptions::with_ignore_not_found, (value, ignore_not_found), with_ignore_not_found),
    ensures
        with_recursive.recursive == recursive,
        with_recursive.ignore_not_found == value.ignore_not_found,
        with_ignore_not_found.ignore_not_found == ignore_not_found,
        with_ignore_not_found.recursive == value.recursive,
{
}

/// Each of the options of a listing is set alone, to what is given.
pub proof fn each_builder_of_list_options_sets_its_own(
    value: ListOptions,
    recursive: bool,
    with_recursive: ListOptions,
    include_hidden: bool,
    with_include_hidden: ListOptions,
    files_only: bool,
    with_files_only: ListOptions,
    directories_only: bool,
    with_directories_only: ListOptions,
    pattern: Option<String>,
    with_pattern: ListOptions,
    limit: usize,
    with_limit: ListOptions,
    sort_by: SortBy,
    with_sort_by: ListOptions,
)
    requires
        call_ensures(ListOptions::with_recursive, (value, recursive), with_recursive),
        call_ensures(ListOptions::with_include_hidden, (value, include_hidden), with_include_hidden),
        call_ensures(ListOptions::with_files_only, (value, files_only), with_files_only),
        call_ensures(ListOptions::with_directories_only, (value, directories_only), with_directories_only),
        call_ensures(ListOptions::with_pattern, (value, pattern), with_pattern),
        call_ensures(ListOptions::with_limit, (value, limit), with_limit),
        call_ensures(ListOptions::with_sort_by, (value, sort_by), with_sort_by),
    ensures
        with_recursive.recursive == recursive,
        with_recursive.include_hidden == value.include_hidden,
        with_recursive.files_only == value.files_only,
        with_recursive.directories_only == value.directories_only,
        with_recursive.pattern == value.pattern,
        with_recursive.limit == value.limit,
        with_recursive.sort_by == value.sort_by,
        with_include_hidden.include_hidden == include_hidden,
        with_include_hidden.recursive == value.recursive,
        with_include_hidden.files_only == value.files_only,
        with_include_hidden.directories_only == value.directories_only,
        with_include_hidden.pattern == value.pattern,
        with_include_hidden.limit == value.limit,
        with_include_hidden.sort_by == value.sort_by,
        with_files_only.files_only == files_only,
        with_files_only.recursive == value.recursive,
        with_files_only.include_hidden == value.include_hidden,
        with_files_only.directories_only == value.directories_only,
        with_files_only.pattern == value.pattern,
        with_files_only.limit == value.limit,
        with_files_only.sort_by == value.sort_by,
        with_directories_only.directories_only == directories_only,
        with_directories_only.recursive == value.recursive,
        with_directories_only.include_hidden == value.include_hidden,
        with_directories_only.files_only == value.files_only,
        with_directories_only.pattern == value.pattern,
        with_directories_only.limit == value.limit,
        with_directories_only.sort_by == value.sort_by,
        with_pattern.pattern == pattern,
        with_pattern.recursive == value.recursive,
        with_pattern.include_hidden == value.include_hidden,
        with_pattern.files_only == value.files_only,
        with_pattern.directories_only == value.directories_only,
        with_pattern.limit == value.limit,
        with_pattern.sort_by == value.sort_by,
        with_limit.limit == limit,
        with_limit.recursive == value.recursive,
        with_limit.include_hidden == value.include_hidden,
        with_limit.files_only == value.files_only,
        with_limit.directories_only == value.directories_only,
        with_limit.pattern == value.pattern,
        with_limit.sort_by == value.sort_by,
        with_sort_by.sort_by == sort_by,
        with_sort_by.recursive == value.recursive,
        with_sort_by.include_hidden == value.include_hidden,
        with_sort_by.files_only == value.files_only,
        with_sort_by.directories_only == value.directories_only,
        with_sort_by.pattern == value.pattern,
        with_sort_by.limit == value.limit,
{
}

/// A transfer that nothing is said of copies a file in chunks of a mebibyte, four at a time, without
/// compression or limit; verifies it by its SHA-256 hash, can be resumed, overwrites nothing, keeps
/// what is known of the file and follows no links. A chunk is sent again three times, after a tenth
/// of a second and then longer, up to ten seconds.
pub proof fn defaults_are_careful(value: TransferOptions)
    requires
        value == default_transfer_options(),
    ensures
        value.chunk_size == 1_048_576,
        value.concurrency == 4,
        value.compression is Uncompressed,
        value.bandwidth_limit is None,
        value.verify_on_complete,
        value.hash_algorithm is Sha256,
        value.resumable,
        !value.overwrite,
        value.mode is Copy,
        value.preserve_metadata,
        !value.follow_symlinks,
        value.retry_policy.max_retries == 3,
        value.retry_policy.initial_delay.nanos * 10 == 1_000_000_000,
        value.retry_policy.max_delay.nanos == 10 * 1_000_000_000,
        value.retry_policy.jitter,
{
}

} // verus!

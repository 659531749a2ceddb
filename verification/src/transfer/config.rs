//! The configuration of file transfers.

use vstd::prelude::*;

use crate::clock::Duration;
use crate::transfer::options::{
    CompressionAlgorithm, FloatBits, DEFAULT_CHUNK_SIZE, DEFAULT_CONCURRENCY, TWO_BITS,
};

verus! {

/// How many chunks may be under way at once where nothing else is configured.
pub const MAX_CONCURRENCY: usize = 16;

/// How many transfers may run at once where nothing else is configured.
pub const DEFAULT_MAX_TRANSFERS: usize = 32;

/// How many transfers are remembered where nothing else is configured.
pub const DEFAULT_MAX_SESSIONS: usize = 100;

/// How often and how soon a chunk is sent again.
#[derive(Debug, Clone, Copy, PartialEq, Eq, Structural)]
pub struct RetryConfig {
    pub max_retries: u8,
    pub initial_delay: Duration,
    pub max_delay: Duration,
    pub backoff_multiplier: FloatBits,
}

/// The configuration of file transfers.
#[derive(Debug, PartialEq, Eq)]
pub struct FileTransferConfig {
    pub default_chunk_size: usize,
    pub default_concurrency: usize,
    pub max_concurrency: usize,
    pub default_compression: CompressionAlgorithm,
    pub global_bandwidth_limit: Option<u64>,
    pub max_concurrent_transfers: usize,
    pub chunk_timeout: Duration,
    pub manifest_timeout: Duration,
    pub idle_timeout: Duration,
    pub retry: RetryConfig,
    pub base_path: String,
    pub temp_dir: Option<String>,
    pub session_dir: Option<String>,
    pub session_retention: Duration,
    pub max_sessions: usize,
    /// Whether metrics are kept.
    pub detailed_metrics: bool,
}

/// How chunks are sent again where nothing else is configured.
pub open spec fn default_retry_config() -> RetryConfig {
    RetryConfig {
        max_retries: 3,
        initial_delay: Duration { nanos: 100_000_000 },
        max_delay: Duration { nanos: 10_000_000_000 },
        backoff_multiplier: FloatBits { bits: TWO_BITS },
    }
}

impl Default for RetryConfig {
    fn default() -> (value: Self)
        ensures
            value == default_retry_config(),
    {
        RetryConfig {
            max_retries: 3,
            initial_delay: Duration { nanos: 100_000_000 },
            max_delay: Duration { nanos: 10_000_000_000 },
            backoff_multiplier: FloatBits { bits: TWO_BITS },
        }
    }
}

impl Default for FileTransferConfig {
    fn default() -> (value: Self)
        ensures
            value.default_chunk_size == DEFAULT_CHUNK_SIZE,
            value.default_concurrency == DEFAULT_CONCURRENCY,
            value.max_concurrency == MAX_CONCURRENCY,
            value.default_compression is Uncompressed,
            value.global_bandwidth_limit is None,
            value.max_concurrent_transfers == DEFAULT_MAX_TRANSFERS,
            value.chunk_timeout.nanos == 30_000_000_000,
            value.manifest_timeout.nanos == 10_000_000_000,
            value.idle_timeout.nanos == 60_000_000_000,
            value.retry == default_retry_config(),
            value.base_path@ == "."@,
            value.temp_dir is None,
            value.session_dir is None,
            value.session_retention.nanos == 86_400_000_000_000,
            value.max_sessions == DEFAULT_MAX_SESSIONS,
            !value.detailed_metrics,
    {
        FileTransferConfig {
            default_chunk_size: DEFAULT_CHUNK_SIZE,
            default_concurrency: DEFAULT_CONCURRENCY,
            max_concurrency: MAX_CONCURRENCY,
            default_compression: CompressionAlgorithm::Uncompressed,
            global_bandwidth_limit: None,
            max_concurrent_transfers: DEFAULT_MAX_TRANSFERS,
            chunk_timeout: Duration { nanos: 30_000_000_000 },
            manifest_timeout: Duration { nanos: 10_000_000_000 },
            idle_timeout: Duration { nanos: 60_000_000_000 },
            retry: RetryConfig::default(),
            base_path: String::from_str("."),
            temp_dir: None,
            session_dir: None,
            session_retention: Duration { nanos: 86_400_000_000_000 },
            max_sessions: DEFAULT_MAX_SESSIONS,
            detailed_metrics: false,
        }
    }
}

impl FileTransferConfig {
    /// This configuration with another `default_chunk_size`.
    pub fn with_default_chunk_size(self, default_chunk_size: usize) -> (config: Self)
        ensures
            config == (FileTransferConfig { default_chunk_size, ..self }),
    {
        let mut config = self;
        config.default_chunk_size = default_chunk_size;
        config
    }

    /// This configuration with another `default_concurrency`.
    pub fn with_default_concurrency(self, default_concurrency: usize) -> (config: Self)
        ensures
            config == (FileTransferConfig { default_concurrency, ..self }),
    {
        let mut config = self;
        config.default_concurrency = default_concurrency;
        config
    }

    /// This configuration with another `max_concurrency`.
    pub fn with_max_concurrency(self, max_concurrency: usize) -> (config: Self)
        ensures
            config == (FileTransferConfig { max_concurrency, ..self }),
    {
        let mut config = self;
        config.max_concurrency = max_concurrency;
        config
    }

    /// This configuration with another `default_compression`.
    pub fn with_default_compression(self, default_compression: CompressionAlgorithm) -> (config: Self)
        ensures
            config == (FileTransferConfig { default_compression, ..self }),
    {
        let mut config = self;
        config.default_compression = default_compression;
        config
    }

    /// This configuration with another `global_bandwidth_limit`.
    pub fn with_global_bandwidth_limit(self, global_bandwidth_limit: Option<u64>) -> (config: Self)
        ensures
            config == (FileTransferConfig { global_bandwidth_limit, ..self }),
    {
        let mut config = self;
        config.global_bandwidth_limit = global_bandwidth_limit;
        config
    }

    /// This configuration with another `max_concurrent_transfers`.
    pub fn with_max_concurrent_transfers(self, max_concurrent_transfers: usize) -> (config: Self)
        ensures
            config == (FileTransferConfig { max_concurrent_transfers, ..self }),
    {
        let mut config = self;
        config.max_concurrent_transfers = max_concurrent_transfers;
        config
    }

    /// This configuration with another `chunk_timeout`.
    pub fn with_chunk_timeout(self, chunk_timeout: Duration) -> (config: Self)
        ensures
            config == (FileTransferConfig { chunk_timeout, ..self }),
    {
        let mut config = self;
        config.chunk_timeout = chunk_timeout;
        config
    }

    /// This configuration with another `manifest_timeout`.
    pub fn with_manifest_timeout(self, manifest_timeout: Duration) -> (config: Self)
        ensures
            config == (FileTransferConfig { manifest_timeout, ..self }),
    {
        let mut config = self;
        config.manifest_timeout = manifest_timeout;
        config
    }

    /// This configuration with another `idle_timeout`.
    pub fn with_idle_timeout(self, idle_timeout: Duration) -> (config: Self)
        ensures
            config == (FileTransferConfig { idle_timeout, ..self }),
    {
        let mut config = self;
        config.idle_timeout = idle_timeout;
        config
    }

    /// This configuration with another `retry`.
    pub fn with_retry(self, retry: RetryConfig) -> (config: Self)
        ensures
            config == (FileTransferConfig { retry, ..self }),
    {
        let mut config = self;
        config.retry = retry;
        config
    }

    /// This configuration with another `base_path`.
    pub fn with_base_path(self, base_path: String) -> (config: Self)
        ensures
            config == (FileTransferConfig { base_path, ..self }),
    {
        let mut config = self;
        config.base_path = base_path;
        config
    }

    /// This configuration with another `temp_dir`.
    pub fn with_temp_dir(self, temp_dir: Option<String>) -> (config: Self)
        ensures
            config == (FileTransferConfig { temp_dir, ..self }),
    {
        let mut config = self;
        config.temp_dir = temp_dir;
        config
    }

    /// This configuration with another `session_dir`.
    pub fn with_session_dir(self, session_dir: Option<String>) -> (config: Self)
        ensures
            config == (FileTransferConfig { session_dir, ..self }),
    {
        let mut config = self;
        config.session_dir = session_dir;
        config
    }

    /// This configuration with another `session_retention`.
    pub fn with_session_retention(self, session_retention: Duration) -> (config: Self)
        ensures
            config == (FileTransferConfig { session_retention, ..self }),
    {
        let mut config = self;
        config.session_retention = session_retention;
        config
    }

    /// This configuration with another `max_sessions`.
    pub fn with_max_sessions(self, max_sessions: usize) -> (config: Self)
        ensures
            config == (FileTransferConfig { max_sessions, ..self }),
    {
        let mut config = self;
        config.max_sessions = max_sessions;
        config
    }
}

impl RetryConfig {
    /// This configuration with another `max_retries`.
    pub fn with_max_retries(self, max_retries: u8) -> (config: Self)
        ensures
            config == (RetryConfig { max_retries, ..self }),
    {
        let mut config = self;
        config.max_retries = max_retries;
        config
    }

    /// This configuration with another `initial_delay`.
    pub fn with_initial_delay(self, initial_delay: Duration) -> (config: Self)
        ensures
            config == (RetryConfig { initial_delay, ..self }),
    {
        let mut config = self;
        config.initial_delay = initial_delay;
        config
    }

    /// This configuration with another `max_delay`.
    pub fn with_max_delay(self, max_delay: Duration) -> (config: Self)
        ensures
            config == (RetryConfig { max_delay, ..self }),
    {
        let mut config = self;
        config.max_delay = max_delay;
        config
    }

    /// This configuration with another `backoff_multiplier`.
    pub fn with_backoff_multiplier(self, backoff_multiplier: FloatBits) -> (config: Self)
        ensures
            config == (RetryConfig { backoff_multiplier, ..self }),
    {
        let mut config = self;
        config.backoff_multiplier = backoff_multiplier;
        config
    }
}

/// Each of the settings for sending again is set alone, to what is given.
pub proof fn each_builder_of_retry_config_sets_its_own(
    value: RetryConfig,
    max_retries: u8,
    with_max_retries: RetryConfig,
    initial_delay: Duration,
    with_initial_delay: RetryConfig,
    max_delay: Duration,
    with_max_delay: RetryConfig,
    backoff_multiplier: FloatBits,
    with_backoff_multiplier: RetryConfig,
)
    requires
        call_ensures(RetryConfig::with_max_retries, (value, max_retries), with_max_retries),
        call_ensures(RetryConfig::with_initial_delay, (value, initial_delay), with_initial_delay),
        call_ensures(RetryConfig::with_max_delay, (value, max_delay), with_max_delay),
        call_ensures(RetryConfig::with_backoff_multiplier, (value, backoff_multiplier), with_backoff_multiplier),
    ensures
        with_max_retries.max_retries == max_retries,
        with_max_retries.initial_delay == value.initial_delay,
        with_max_retries.max_delay == value.max_delay,
        with_max_retries.backoff_multiplier == value.backoff_multiplier,
        with_initial_delay.initial_delay == initial_delay,
        with_initial_delay.max_retries == value.max_retries,
        with_initial_delay.max_delay == value.max_delay,
        with_initial_delay.backoff_multiplier == value.backoff_multiplier,
        with_max_delay.max_delay == max_delay,
        with_max_delay.max_retries == value.max_retries,
        with_max_delay.initial_delay == value.initial_delay,
        with_max_delay.backoff_multiplier == value.backoff_multiplier,
        with_backoff_multiplier.backoff_multiplier == backoff_multiplier,
        with_backoff_multiplier.max_retries == value.max_retries,
        with_backoff_multiplier.initial_delay == value.initial_delay,
        with_backoff_multiplier.max_delay == value.max_delay,
{
}

/// Each of the settings is set alone, to what is given.
pub proof fn each_builder_of_file_transfer_config_sets_its_own(
    value: FileTransferConfig,
    default_chunk_size: usize,
    with_default_chunk_size: FileTransferConfig,
    default_concurrency: usize,
    with_default_concurrency: FileTransferConfig,
    max_concurrency: usize,
    with_max_concurrency: FileTransferConfig,
    default_compression: CompressionAlgorithm,
    with_default_compression: FileTransferConfig,
    global_bandwidth_limit: Option<u64>,
    with_global_bandwidth_limit: FileTransferConfig,
    max_concurrent_transfers: usize,
    with_max_concurrent_transfers: FileTransferConfig,
    chunk_timeout: Duration,
    with_chunk_timeout: FileTransferConfig,
    manifest_timeout: Duration,
    with_manifest_timeout: FileTransferConfig,
    idle_timeout: Duration,
    with_idle_timeout: FileTransferConfig,
    retry: RetryConfig,
    with_retry: FileTransferConfig,
    base_path: String,
    with_base_path: FileTransferConfig,
    temp_dir: Option<String>,
    with_temp_dir: FileTransferConfig,
    session_dir: Option<String>,
    with_session_dir: FileTransferConfig,
    session_retention: Duration,
    with_session_retention: FileTransferConfig,
    max_sessions: usize,
    with_max_sessions: FileTransferConfig,
)
    requires
        call_ensures(FileTransferConfig::with_default_chunk_size, (value, default_chunk_size), with_default_chunk_size),
        call_ensures(FileTransferConfig::with_default_concurrency, (value, default_concurrency), with_default_concurrency),
        call_ensures(FileTransferConfig::with_max_concurrency, (value, max_concurrency), with_max_concurrency),
        call_ensures(FileTransferConfig::with_default_compression, (value, default_compression), with_default_compression),
        call_ensures(FileTransferConfig::with_global_bandwidth_limit, (value, global_bandwidth_limit), with_global_bandwidth_limit),
        call_ensures(FileTransferConfig::with_max_concurrent_transfers, (value, max_concurrent_transfers), with_max_concurrent_transfers),
        call_ensures(FileTransferConfig::with_chunk_timeout, (value, chunk_timeout), with_chunk_timeout),
        call_ensures(FileTransferConfig::with_manifest_timeout, (value, manifest_timeout), with_manifest_timeout),
        call_ensures(FileTransferConfig::with_idle_timeout, (value, idle_timeout), with_idle_timeout),
        call_ensures(FileTransferConfig::with_retry, (value, retry), with_retry),
        call_ensures(FileTransferConfig::with_base_path, (value, base_path), with_base_path),
        call_ensures(FileTransferConfig::with_temp_dir, (value, temp_dir), with_temp_dir),
        call_ensures(FileTransferConfig::with_session_dir, (value, session_dir), with_session_dir),
        call_ensures(FileTransferConfig::with_session_retention, (value, session_retention), with_session_retention),
        call_ensures(FileTransferConfig::with_max_sessions, (value, max_sessions), with_max_sessions),
    ensures
        with_default_chunk_size.default_chunk_size == default_chunk_size,
        with_default_chunk_size.default_concurrency == value.default_concurrency,
        with_default_chunk_size.max_concurrency == value.max_concurrency,
        with_default_chunk_size.default_compression == value.default_compression,
        with_default_chunk_size.global_bandwidth_limit == value.global_bandwidth_limit,
        with_default_chunk_size.max_concurrent_transfers == value.max_concurrent_transfers,
        with_default_chunk_size.chunk_timeout == value.chunk_timeout,
        with_default_chunk_size.manifest_timeout == value.manifest_timeout,
        with_default_chunk_size.idle_timeout == value.idle_timeout,
        with_default_chunk_size.retry == value.retry,
        with_default_chunk_size.base_path == value.base_path,
        with_default_chunk_size.temp_dir == value.temp_dir,
        with_default_chunk_size.session_dir == value.session_dir,
        with_default_chunk_size.session_retention == value.session_retention,
        with_default_chunk_size.max_sessions == value.max_sessions,
        with_default_concurrency.default_concurrency == default_concurrency,
        with_default_concurrency.default_chunk_size == value.default_chunk_size,
        with_default_concurrency.max_concurrency == value.max_concurrency,
        with_default_concurrency.default_compression == value.default_compression,
        with_default_concurrency.global_bandwidth_limit == value.global_bandwidth_limit,
        with_default_concurrency.max_concurrent_transfers == value.max_concurrent_transfers,
        with_default_concurrency.chunk_timeout == value.chunk_timeout,
        with_default_concurrency.manifest_timeout == value.manifest_timeout,
        with_default_concurrency.idle_timeout == value.idle_timeout,
        with_default_concurrency.retry == value.retry,
        with_default_concurrency.base_path == value.base_path,
        with_default_concurrency.temp_dir == value.temp_dir,
        with_default_concurrency.session_dir == value.session_dir,
        with_default_concurrency.session_retention == value.session_retention,
        with_default_concurrency.max_sessions == value.max_sessions,
        with_max_concurrency.max_concurrency == max_concurrency,
        with_max_concurrency.default_chunk_size == value.default_chunk_size,
        with_max_concurrency.default_concurrency == value.default_concurrency,
        with_max_concurrency.default_compression == value.default_compression,
        with_max_concurrency.global_bandwidth_limit == value.global_bandwidth_limit,
        with_max_concurrency.max_concurrent_transfers == value.max_concurrent_transfers,
        with_max_concurrency.chunk_timeout == value.chunk_timeout,
        with_max_concurrency.manifest_timeout == value.manifest_timeout,
        with_max_concurrency.idle_timeout == value.idle_timeout,
        with_max_concurrency.retry == value.retry,
        with_max_concurrency.base_path == value.base_path,
        with_max_concurrency.temp_dir == value.temp_dir,
        with_max_concurrency.session_dir == value.session_dir,
        with_max_concurrency.session_retention == value.session_retention,
        with_max_concurrency.max_sessions == value.max_sessions,
        with_default_compression.default_compression == default_compression,
        with_default_compression.default_chunk_size == value.default_chunk_size,
        with_default_compression.default_concurrency == value.default_concurrency,
        with_default_compression.max_concurrency == value.max_concurrency,
        with_default_compression.global_bandwidth_limit == value.global_bandwidth_limit,
        with_default_compression.max_concurrent_transfers == value.max_concurrent_transfers,
        with_default_compression.chunk_timeout == value.chunk_timeout,
        with_default_compression.manifest_timeout == value.manifest_timeout,
        with_default_compression.idle_timeout == value.idle_timeout,
        with_default_compression.retry == value.retry,
        with_default_compression.base_path == value.base_path,
        with_default_compression.temp_dir == value.temp_dir,
        with_default_compression.session_dir == value.session_dir,
        with_default_compression.session_retention == value.session_retention,
        with_default_compression.max_sessions == value.max_sessions,
        with_global_bandwidth_limit.global_bandwidth_limit == global_bandwidth_limit,
        with_global_bandwidth_limit.default_chunk_size == value.default_chunk_size,
        with_global_bandwidth_limit.default_concurrency == value.default_concurrency,
        with_global_bandwidth_limit.max_concurrency == value.max_concurrency,
        with_global_bandwidth_limit.default_compression == value.default_compression,
        with_global_bandwidth_limit.max_concurrent_transfers == value.max_concurrent_transfers,
        with_global_bandwidth_limit.chunk_timeout == value.chunk_timeout,
        with_global_bandwidth_limit.manifest_timeout == value.manifest_timeout,
        with_global_bandwidth_limit.idle_timeout == value.idle_timeout,
        with_global_bandwidth_limit.retry == value.retry,
        with_global_bandwidth_limit.base_path == value.base_path,
        with_global_bandwidth_limit.temp_dir == value.temp_dir,
        with_global_bandwidth_limit.session_dir == value.session_dir,
        with_global_bandwidth_limit.session_retention == value.session_retention,
        with_global_bandwidth_limit.max_sessions == value.max_sessions,
        with_max_concurrent_transfers.max_concurrent_transfers == max_concurrent_transfers,
        with_max_concurrent_transfers.default_chunk_size == value.default_chunk_size,
        with_max_concurrent_transfers.default_concurrency == value.default_concurrency,
        with_max_concurrent_transfers.max_concurrency == value.max_concurrency,
        with_max_concurrent_transfers.default_compression == value.default_compression,
        with_max_concurrent_transfers.global_bandwidth_limit == value.global_bandwidth_limit,
        with_max_concurrent_transfers.chunk_timeout == value.chunk_timeout,
        with_max_concurrent_transfers.manifest_timeout == value.manifest_timeout,
        with_max_concurrent_transfers.idle_timeout == value.idle_timeout,
        with_max_concurrent_transfers.retry == value.retry,
        with_max_concurrent_transfers.base_path == value.base_path,
        with_max_concurrent_transfers.temp_dir == value.temp_dir,
        with_max_concurrent_transfers.session_dir == value.session_dir,
        with_max_concurrent_transfers.session_retention == value.session_retention,
        with_max_concurrent_transfers.max_sessions == value.max_sessions,
        with_chunk_timeout.chunk_timeout == chunk_timeout,
        with_chunk_timeout.default_chunk_size == value.default_chunk_size,
        with_chunk_timeout.default_concurrency == value.default_concurrency,
        with_chunk_timeout.max_concurrency == value.max_concurrency,
        with_chunk_timeout.default_compression == value.default_compression,
        with_chunk_timeout.global_bandwidth_limit == value.global_bandwidth_limit,
        with_chunk_timeout.max_concurrent_transfers == value.max_concurrent_transfers,
        with_chunk_timeout.manifest_timeout == value.manifest_timeout,
        with_chunk_timeout.idle_timeout == value.idle_timeout,
        with_chunk_timeout.retry == value.retry,
        with_chunk_timeout.base_path == value.base_path,
        with_chunk_timeout.temp_dir == value.temp_dir,
        with_chunk_timeout.session_dir == value.session_dir,
        with_chunk_timeout.session_retention == value.session_retention,
        with_chunk_timeout.max_sessions == value.max_sessions,
        with_manifest_timeout.manifest_timeout == manifest_timeout,
        with_manifest_timeout.default_chunk_size == value.default_chunk_size,
        with_manifest_timeout.default_concurrency == value.default_concurrency,
        with_manifest_timeout.max_concurrency == value.max_concurrency,
        with_manifest_timeout.default_compression == value.default_compression,
        with_manifest_timeout.global_bandwidth_limit == value.global_bandwidth_limit,
        with_manifest_timeout.max_concurrent_transfers == value.max_concurrent_transfers,
        with_manifest_timeout.chunk_timeout == value.chunk_timeout,
        with_manifest_timeout.idle_timeout == value.idle_timeout,
        with_manifest_timeout.retry == value.retry,
        with_manifest_timeout.base_path == value.base_path,
        with_manifest_timeout.temp_dir == value.temp_dir,
        with_manifest_timeout.session_dir == value.session_dir,
        with_manifest_timeout.session_retention == value.session_retention,
        with_manifest_timeout.max_sessions == value.max_sessions,
        with_idle_timeout.idle_timeout == idle_timeout,
        with_idle_timeout.default_chunk_size == value.default_chunk_size,
        with_idle_timeout.default_concurrency == value.default_concurrency,
        with_idle_timeout.max_concurrency == value.max_concurrency,
        with_idle_timeout.default_compression == value.default_compression,
        with_idle_timeout.global_bandwidth_limit == value.global_bandwidth_limit,
        with_idle_timeout.max_concurrent_transfers == value.max_concurrent_transfers,
        with_idle_timeout.chunk_timeout == value.chunk_timeout,
        with_idle_timeout.manifest_timeout == value.manifest_timeout,
        with_idle_timeout.retry == value.retry,
        with_idle_timeout.base_path == value.base_path,
        with_idle_timeout.temp_dir == value.temp_dir,
        with_idle_timeout.session_dir == value.session_dir,
        with_idle_timeout.session_retention == value.session_retention,
        with_idle_timeout.max_sessions == value.max_sessions,
        with_retry.retry == retry,
        with_retry.default_chunk_size == value.default_chunk_size,
        with_retry.default_concurrency == value.default_concurrency,
        with_retry.max_concurrency == value.max_concurrency,
        with_retry.default_compression == value.default_compression,
        with_retry.global_bandwidth_limit == value.global_bandwidth_limit,
        with_retry.max_concurrent_transfers == value.max_concurrent_transfers,
        with_retry.chunk_timeout == value.chunk_timeout,
        with_retry.manifest_timeout == value.manifest_timeout,
        with_retry.idle_timeout == value.idle_timeout,
        with_retry.base_path == value.base_path,
        with_retry.temp_dir == value.temp_dir,
        with_retry.session_dir == value.session_dir,
        with_retry.session_retention == value.session_retention,
        with_retry.max_sessions == value.max_sessions,
        with_base_path.base_path == base_path,
        with_base_path.default_chunk_size == value.default_chunk_size,
        with_base_path.default_concurrency == value.default_concurrency,
        with_base_path.max_concurrency == value.max_concurrency,
        with_base_path.default_compression == value.default_compression,
        with_base_path.global_bandwidth_limit == value.global_bandwidth_limit,
        with_base_path.max_concurrent_transfers == value.max_concurrent_transfers,
        with_base_path.chunk_timeout == value.chunk_timeout,
        with_base_path.manifest_timeout == value.manifest_timeout,
        with_base_path.idle_timeout == value.idle_timeout,
        with_base_path.retry == value.retry,
        with_base_path.temp_dir == value.temp_dir,
        with_base_path.session_dir == value.session_dir,
        with_base_path.session_retention == value.session_retention,
        with_base_path.max_sessions == value.max_sessions,
        with_temp_dir.temp_dir == temp_dir,
        with_temp_dir.default_chunk_size == value.default_chunk_size,
        with_temp_dir.default_concurrency == value.default_concurrency,
        with_temp_dir.max_concurrency == value.max_concurrency,
        with_temp_dir.default_compression == value.default_compression,
        with_temp_dir.global_bandwidth_limit == value.global_bandwidth_limit,
        with_temp_dir.max_concurrent_transfers == value.max_concurrent_transfers,
        with_temp_dir.chunk_timeout == value.chunk_timeout,
        with_temp_dir.manifest_timeout == value.manifest_timeout,
        with_temp_dir.idle_timeout == value.idle_timeout,
        with_temp_dir.retry == value.retry,
        with_temp_dir.base_path == value.base_path,
        with_temp_dir.session_dir == value.session_dir,
        with_temp_dir.session_retention == value.session_retention,
        with_temp_dir.max_sessions == value.max_sessions,
        with_session_dir.session_dir == session_dir,
        with_session_dir.default_chunk_size == value.default_chunk_size,
        with_session_dir.default_concurrency == value.default_concurrency,
        with_session_dir.max_concurrency == value.max_concurrency,
        with_session_dir.default_compression == value.default_compression,
        with_session_dir.global_bandwidth_limit == value.global_bandwidth_limit,
        with_session_dir.max_concurrent_transfers == value.max_concurrent_transfers,
        with_session_dir.chunk_timeout == value.chunk_timeout,
        with_session_dir.manifest_timeout == value.manifest_timeout,
        with_session_dir.idle_timeout == value.idle_timeout,
        with_session_dir.retry == value.retry,
        with_session_dir.base_path == value.base_path,
        with_session_dir.temp_dir == value.temp_dir,
        with_session_dir.session_retention == value.session_retention,
        with_session_dir.max_sessions == value.max_sessions,
        with_session_retention.session_retention == session_retention,
        with_session_retention.default_chunk_size == value.default_chunk_size,
        with_session_retention.default_concurrency == value.default_concurrency,
        with_session_retention.max_concurrency == value.max_concurrency,
        with_session_retention.default_compression == value.default_compression,
        with_session_retention.global_bandwidth_limit == value.global_bandwidth_limit,
        with_session_retention.max_concurrent_transfers == value.max_concurrent_transfers,
        with_session_retention.chunk_timeout == value.chunk_timeout,
        with_session_retention.manifest_timeout == value.manifest_timeout,
        with_session_retention.idle_timeout == value.idle_timeout,
        with_session_retention.retry == value.retry,
        with_session_retention.base_path == value.base_path,
        with_session_retention.temp_dir == value.temp_dir,
        with_session_retention.session_dir == value.session_dir,
        with_session_retention.max_sessions == value.max_sessions,
        with_max_sessions.max_sessions == max_sessions,
        with_max_sessions.default_chunk_size == value.default_chunk_size,
        with_max_sessions.default_concurrency == value.default_concurrency,
        with_max_sessions.max_concurrency == value.max_concurrency,
        with_max_sessions.default_compression == value.default_compression,
        with_max_sessions.global_bandwidth_limit == value.global_bandwidth_limit,
        with_max_sessions.max_concurrent_transfers == value.max_concurrent_transfers,
        with_max_sessions.chunk_timeout == value.chunk_timeout,
        with_max_sessions.manifest_timeout == value.manifest_timeout,
        with_max_sessions.idle_timeout == value.idle_timeout,
        with_max_sessions.retry == value.retry,
        with_max_sessions.base_path == value.base_path,
        with_max_sessions.temp_dir == value.temp_dir,
        with_max_sessions.session_dir == value.session_dir,
        with_max_sessions.session_retention == value.session_retention,
{
}

/// A failed chunk is sent again three times by default, after a tenth of a second and then longer,
/// up to ten seconds.
pub proof fn retry_defaults(value: RetryConfig)
    requires
        value == default_retry_config(),
    ensures
        value.max_retries == 3,
        value.initial_delay.nanos * 10 == 1_000_000_000,
        value.max_delay.nanos == 10 * 1_000_000_000,
{
}

} // verus!

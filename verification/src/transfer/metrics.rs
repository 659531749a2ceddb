//! Counters of what transfers did.

use vstd::prelude::*;

use crate::transfer::session::TransferKind;

verus! {

/// Counters of what transfers did. A counter that passes its greatest value starts anew.
#[derive(Debug, Clone, Copy, PartialEq, Eq, Structural)]
pub struct FileTransferMetrics {
    pub transfers_started: u64,
    pub transfers_completed: u64,
    pub transfers_failed: u64,
    pub transfers_cancelled: u64,
    pub chunks_sent: u64,
    pub chunks_received: u64,
    pub chunks_retried: u64,
    pub bytes_sent: u64,
    pub bytes_received: u64,
    pub checksum_verifications: u64,
    pub checksum_failures: u64,
    pub active_transfers: u64,
    pub chunks_in_flight: u64,
}

/// What can be counted.
pub enum MetricsRecord {
    Start,
    Complete(u64),
    Failed,
    Cancelled,
    ChunkSent(u64),
    ChunkReceived(u64),
    Retry,
    Checksum(bool),
}

/// Nothing was counted yet.
pub open spec fn no_metrics() -> FileTransferMetrics {
    FileTransferMetrics {
        transfers_started: 0,
        transfers_completed: 0,
        transfers_failed: 0,
        transfers_cancelled: 0,
        chunks_sent: 0,
        chunks_received: 0,
        chunks_retried: 0,
        bytes_sent: 0,
        bytes_received: 0,
        checksum_verifications: 0,
        checksum_failures: 0,
        active_transfers: 0,
        chunks_in_flight: 0,
    }
}

/// The counters after one more record.
pub open spec fn counted(m: FileTransferMetrics, record: MetricsRecord) -> FileTransferMetrics {
    match record {
        MetricsRecord::Start => FileTransferMetrics {
            transfers_started: m.transfers_started.wrapping_add(1),
            active_transfers: m.active_transfers.wrapping_add(1),
            ..m
        },
        MetricsRecord::Complete(bytes) => FileTransferMetrics {
            transfers_completed: m.transfers_completed.wrapping_add(1),
            active_transfers: m.active_transfers.wrapping_sub(1),
            bytes_sent: m.bytes_sent.wrapping_add(bytes),
            ..m
        },
        MetricsRecord::Failed => FileTransferMetrics {
            transfers_failed: m.transfers_failed.wrapping_add(1),
            active_transfers: m.active_transfers.wrapping_sub(1),
            ..m
        },
        MetricsRecord::Cancelled => FileTransferMetrics {
            transfers_cancelled: m.transfers_cancelled.wrapping_add(1),
            active_transfers: m.active_transfers.wrapping_sub(1),
            ..m
        },
        MetricsRecord::ChunkSent(size) => FileTransferMetrics {
            chunks_sent: m.chunks_sent.wrapping_add(1),
            bytes_sent: m.bytes_sent.wrapping_add(size),
            ..m
        },
        MetricsRecord::ChunkReceived(size) => FileTransferMetrics {
            chunks_received: m.chunks_received.wrapping_add(1),
            bytes_received: m.bytes_received.wrapping_add(size),
            ..m
        },
        MetricsRecord::Retry => FileTransferMetrics {
            chunks_retried: m.chunks_retried.wrapping_add(1),
            ..m
        },
        MetricsRecord::Checksum(success) => FileTransferMetrics {
            checksum_verifications: m.checksum_verifications.wrapping_add(1),
            checksum_failures: if success {
                m.checksum_failures
            } else {
                m.checksum_failures.wrapping_add(1)
            },
            ..m
        },
    }
}

/// The counters after records that began with nothing counted.
pub open spec fn all_counted(records: Seq<MetricsRecord>) -> FileTransferMetrics
    decreases records.len(),
{
    if records.len() == 0 {
        no_metrics()
    } else {
        counted(all_counted(records.drop_last()), records.last())
    }
}

/// How many of the records are among those that `wanted` picks.
pub open spec fn times_recorded(
    records: Seq<MetricsRecord>,
    wanted: spec_fn(MetricsRecord) -> bool,
) -> nat {
    records.filter(wanted).len()
}

impl Default for FileTransferMetrics {
    fn default() -> (metrics: Self)
        ensures
            metrics == no_metrics(),
    {
        FileTransferMetrics {
            transfers_started: 0,
            transfers_completed: 0,
            transfers_failed: 0,
            transfers_cancelled: 0,
            chunks_sent: 0,
            chunks_received: 0,
            chunks_retried: 0,
            bytes_sent: 0,
            bytes_received: 0,
            checksum_verifications: 0,
            checksum_failures: 0,
            active_transfers: 0,
            chunks_in_flight: 0,
        }
    }
}

impl FileTransferMetrics {
    /// Counts a transfer that starts.
    pub fn record_transfer_start(&mut self)
        ensures
            *final(self) == counted(*old(self), MetricsRecord::Start),
    {
        self.transfers_started = self.transfers_started.wrapping_add(1);
        self.active_transfers = self.active_transfers.wrapping_add(1);
    }

    /// Counts a transfer that completed, and the bytes it sent.
    pub fn record_transfer_complete(&mut self, bytes: u64)
        ensures
            *final(self) == counted(*old(self), MetricsRecord::Complete(bytes)),
    {
        self.transfers_completed = self.transfers_completed.wrapping_add(1);
        self.active_transfers = self.active_transfers.wrapping_sub(1);
        self.bytes_sent = self.bytes_sent.wrapping_add(bytes);
    }

    /// Counts a transfer that failed.
    pub fn record_transfer_failed(&mut self)
        ensures
            *final(self) == counted(*old(self), MetricsRecord::Failed),
    {
        self.transfers_failed = self.transfers_failed.wrapping_add(1);
        self.active_transfers = self.active_transfers.wrapping_sub(1);
    }

    /// Counts a transfer that was cancelled.
    pub fn record_transfer_cancelled(&mut self)
        ensures
            *final(self) == counted(*old(self), MetricsRecord::Cancelled),
    {
        self.transfers_cancelled = self.transfers_cancelled.wrapping_add(1);
        self.active_transfers = self.active_transfers.wrapping_sub(1);
    }

    /// Counts a chunk that was sent.
    pub fn record_chunk_sent(&mut self, size: u64)
        ensures
            *final(self) == counted(*old(self), MetricsRecord::ChunkSent(size)),
    {
        self.chunks_sent = self.chunks_sent.wrapping_add(1);
        self.bytes_sent = self.bytes_sent.wrapping_add(size);
    }

    /// Counts a chunk that was received.
    pub fn record_chunk_received(&mut self, size: u64)
        ensures
            *final(self) == counted(*old(self), MetricsRecord::ChunkReceived(size)),
    {
        self.chunks_received = self.chunks_received.wrapping_add(1);
        self.bytes_received = self.bytes_received.wrapping_add(size);
    }

    /// Counts a chunk that is sent again.
    pub fn record_retry(&mut self)
        ensures
            *final(self) == counted(*old(self), MetricsRecord::Retry),
    {
        self.chunks_retried = self.chunks_retried.wrapping_add(1);
    }

    /// Counts a checksum that was looked at, and whether it was wrong.
    pub fn record_checksum_verification(&mut self, success: bool)
        ensures
            *final(self) == counted(*old(self), MetricsRecord::Checksum(success)),
    {
        self.checksum_verifications = self.checksum_verifications.wrapping_add(1);
        if !success {
            self.checksum_failures = self.checksum_failures.wrapping_add(1);
        }
    }

    /// Sets how many transfers are active.
    pub fn set_active_transfers(&mut self, value: u64)
        ensures
            *final(self) == (FileTransferMetrics {
                active_transfers: value,
                ..*old(self)
            }),
    {
        self.active_transfers = value;
    }

    /// Sets how many chunks are under way.
    pub fn set_chunks_in_flight(&mut self, value: u64)
        ensures
            *final(self) == (FileTransferMetrics {
                chunks_in_flight: value,
                ..*old(self)
            }),
    {
        self.chunks_in_flight = value;
    }
}

/// The name of a kind of transfer among the metrics.
pub open spec fn kind_name(kind: TransferKind) -> Seq<char> {
    match kind {
        TransferKind::Send => "Send"@,
        TransferKind::Broadcast => "Broadcast"@,
        TransferKind::Sync => "Sync"@,
    }
}

/// The name of a kind of transfer among the metrics.
pub fn kind_label(kind: TransferKind) -> (label: &'static str)
    ensures
        label@ == kind_name(kind),
{
    match kind {
        TransferKind::Send => "Send",
        TransferKind::Broadcast => "Broadcast",
        TransferKind::Sync => "Sync",
    }
}

/// Whether a record is the end of a transfer.
pub open spec fn is_end(record: MetricsRecord) -> bool {
    record is Complete || record is Failed || record is Cancelled
}

/// A transfer that starts and then comes to its end, whichever that is, leaves the number
/// of active transfers as it was.
pub proof fn every_end_balances_its_start(m: FileTransferMetrics, end: MetricsRecord)
    requires
        is_end(end),
    ensures
        counted(counted(m, MetricsRecord::Start), end).active_transfers == m.active_transfers,
{
}

/// Whatever was recorded, the active transfers are those that started without those that
/// completed, failed or were cancelled. Like the counters, the number starts anew when it
/// passes an end of its range.
pub proof fn active_transfers_balance(records: Seq<MetricsRecord>)
    ensures
        ({
            let m = all_counted(records);
            m.active_transfers == m.transfers_started.wrapping_sub(
                m.transfers_completed,
            ).wrapping_sub(m.transfers_failed).wrapping_sub(m.transfers_cancelled)
        }),
    decreases records.len(),
{
    if records.len() > 0 {
        active_transfers_balance(records.drop_last());
    }
}

proof fn one_more_is_counted(
    records: Seq<MetricsRecord>,
    wanted: spec_fn(MetricsRecord) -> bool,
)
    requires
        records.len() > 0,
    ensures
        times_recorded(records, wanted) == times_recorded(records.drop_last(), wanted) + (if wanted(
            records.last(),
        ) {
            1int
        } else {
            0
        }),
{
    reveal(Seq::filter);
}

/// Every transfer is counted once for its start and once for its end: as long as the counters
/// do not pass their greatest values, they are the numbers of the records.
pub proof fn transfers_are_counted(records: Seq<MetricsRecord>)
    requires
        records.len() <= u64::MAX,
    ensures
        ({
            let m = all_counted(records);
            &&& m.transfers_started == times_recorded(records, |r: MetricsRecord| r is Start)
            &&& m.transfers_completed == times_recorded(records, |r: MetricsRecord| r is Complete)
            &&& m.transfers_failed == times_recorded(records, |r: MetricsRecord| r is Failed)
            &&& m.transfers_cancelled == times_recorded(records, |r: MetricsRecord| r is Cancelled)
        }),
    decreases records.len(),
{
    let starts = |r: MetricsRecord| r is Start;
    let completions = |r: MetricsRecord| r is Complete;
    let failures = |r: MetricsRecord| r is Failed;
    let cancellations = |r: MetricsRecord| r is Cancelled;
    if records.len() == 0 {
        reveal(Seq::filter);
    } else {
        let fewer = records.drop_last();
        transfers_are_counted(fewer);
        one_more_is_counted(records, starts);
        one_more_is_counted(records, completions);
        one_more_is_counted(records, failures);
        one_more_is_counted(records, cancellations);
        fewer.lemma_filter_len(starts);
        fewer.lemma_filter_len(completions);
        fewer.lemma_filter_len(failures);
        fewer.lemma_filter_len(cancellations);
    }
}

/// Each record counts what it records and nothing else, as far as that can be counted.
pub proof fn each_record_counts_its_own(m: FileTransferMetrics, size: u64)
    requires
        m.transfers_started < u64::MAX,
        m.transfers_completed < u64::MAX,
        m.transfers_failed < u64::MAX,
        m.transfers_cancelled < u64::MAX,
        m.chunks_sent < u64::MAX,
        m.chunks_received < u64::MAX,
        m.chunks_retried < u64::MAX,
        m.checksum_verifications < u64::MAX,
        m.checksum_failures < u64::MAX,
        0 < m.active_transfers < u64::MAX,
        m.bytes_sent + size <= u64::MAX,
        m.bytes_received + size <= u64::MAX,
    ensures
        counted(m, MetricsRecord::Start) == (FileTransferMetrics {
            transfers_started: (m.transfers_started + 1) as u64,
            active_transfers: (m.active_transfers + 1) as u64,
            ..m
        }),
        counted(m, MetricsRecord::Complete(size)) == (FileTransferMetrics {
            transfers_completed: (m.transfers_completed + 1) as u64,
            active_transfers: (m.active_transfers - 1) as u64,
            bytes_sent: (m.bytes_sent + size) as u64,
            ..m
        }),
        counted(m, MetricsRecord::Failed) == (FileTransferMetrics {
            transfers_failed: (m.transfers_failed + 1) as u64,
            active_transfers: (m.active_transfers - 1) as u64,
            ..m
        }),
        counted(m, MetricsRecord::Cancelled) == (FileTransferMetrics {
            transfers_cancelled: (m.transfers_cancelled + 1) as u64,
            active_transfers: (m.active_transfers - 1) as u64,
            ..m
        }),
        counted(m, MetricsRecord::ChunkSent(size)) == (FileTransferMetrics {
            chunks_sent: (m.chunks_sent + 1) as u64,
            bytes_sent: (m.bytes_sent + size) as u64,
            ..m
        }),
        counted(m, MetricsRecord::ChunkReceived(size)) == (FileTransferMetrics {
            chunks_received: (m.chunks_received + 1) as u64,
            bytes_received: (m.bytes_received + size) as u64,
            ..m
        }),
        counted(m, MetricsRecord::Retry) == (FileTransferMetrics {
            chunks_retried: (m.chunks_retried + 1) as u64,
            ..m
        }),
        counted(m, MetricsRecord::Checksum(true)) == (FileTransferMetrics {
            checksum_verifications: (m.checksum_verifications + 1) as u64,
            ..m
        }),
        counted(m, MetricsRecord::Checksum(false)) == (FileTransferMetrics {
            checksum_verifications: (m.checksum_verifications + 1) as u64,
            checksum_failures: (m.checksum_failures + 1) as u64,
            ..m
        }),
{
}

/// Nothing is counted at first.
pub proof fn counting_starts_at_nothing()
    ensures
        ({
            let m = all_counted(Seq::empty());
            &&& m.transfers_started == 0 && m.transfers_completed == 0 && m.transfers_failed == 0
                && m.transfers_cancelled == 0
            &&& m.chunks_sent == 0 && m.chunks_received == 0 && m.chunks_retried == 0
            &&& m.bytes_sent == 0 && m.bytes_received == 0
            &&& m.checksum_verifications == 0 && m.checksum_failures == 0
            &&& m.active_transfers == 0 && m.chunks_in_flight == 0
        }),
{
}

/// A gauge is set to what is given, and nothing else changes.
pub proof fn gauges_are_set(a: &mut FileTransferMetrics, b: &mut FileTransferMetrics, value: u64)
    requires
        call_ensures(FileTransferMetrics::set_active_transfers, (a, value), ()),
        call_ensures(FileTransferMetrics::set_chunks_in_flight, (b, value), ()),
    ensures
        final(a).active_transfers == value,
        final(a).chunks_in_flight == old(a).chunks_in_flight,
        final(a).transfers_started == old(a).transfers_started,
        final(b).chunks_in_flight == value,
        final(b).active_transfers == old(b).active_transfers,
        final(b).transfers_started == old(b).transfers_started,
{
}

} // verus!

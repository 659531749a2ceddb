//! Synchronising a file with its counterpart on another node: which way it goes, and how a
//! file that is fetched is waited for.

use std::cmp::Ordering;
use vstd::prelude::*;

use crate::clock::{Duration, Instant, WallTime};
use crate::node::NodeId;
use crate::ordered::{ascending_is_u32, ascending_u32, increasing_u32, sorted_members_u32};
use crate::transfer::chunk::{all_arrived, ChunkMeta};
use crate::transfer::error::{internal, outcome, ErrorView, FileTransferError};
use crate::transfer::manifest::FileMetadata;
use crate::transfer::messages::{FileTransferMessage, MetadataResponse};
use crate::transfer::options::{
    ConflictResolution, SyncDirection, SyncOptions, TransferOptions,
};
use crate::transfer::progress::{advanced, no_progress, SyncHandle, TransferProgress};
use crate::transfer::session::{SessionView, TransferSession, TransferState};

verus! {

/// Which way a file goes.
#[derive(Debug, Clone, Copy, PartialEq, Eq, Structural)]
pub enum SyncAction {
    /// From here to the other node.
    Push,
    /// From the other node to here.
    Pull,
    /// Neither way.
    Nothing,
}

/// How the times of the last change compare, where both are known and further apart than the
/// clocks may be.
pub open spec fn modified_order(local: Option<u64>, remote: Option<u64>, tolerance: Duration) -> Option<Ordering> {
    match (local, remote) {
        (Some(l), Some(r)) => if l - r > tolerance.nanos / 1_000_000_000 {
            Some(Ordering::Greater)
        } else if r - l > tolerance.nanos / 1_000_000_000 {
            Some(Ordering::Less)
        } else {
            None
        },
        _ => None,
    }
}

/// What comes of a target that is newer than the source, where `copy` would copy the source.
pub open spec fn conflict(resolution: ConflictResolution, copy: SyncAction, path: Seq<char>) -> Result<SyncAction, ErrorView> {
    match resolution {
        ConflictResolution::NewerWins | ConflictResolution::TargetWins => Ok(SyncAction::Nothing),
        ConflictResolution::SourceWins => Ok(copy),
        ConflictResolution::Manual => Err(ErrorView::SyncConflict(path)),
    }
}

/// Which way a file goes that is only sent.
pub open spec fn push_decision(
    order: Option<Ordering>,
    local: bool,
    remote: bool,
    resolution: ConflictResolution,
    path: Seq<char>,
) -> Result<SyncAction, ErrorView> {
    if !local {
        Err(ErrorView::FileNotFound(path))
    } else if !remote || order == Some(Ordering::Greater) {
        Ok(SyncAction::Push)
    } else if order == Some(Ordering::Less) {
        conflict(resolution, SyncAction::Push, path)
    } else {
        Ok(SyncAction::Nothing)
    }
}

/// Which way a file goes that is only fetched.
pub open spec fn pull_decision(
    order: Option<Ordering>,
    local: bool,
    remote: bool,
    resolution: ConflictResolution,
    path: Seq<char>,
) -> Result<SyncAction, ErrorView> {
    if !remote {
        Ok(SyncAction::Nothing)
    } else if !local || order == Some(Ordering::Less) {
        Ok(SyncAction::Pull)
    } else if order == Some(Ordering::Greater) {
        conflict(resolution, SyncAction::Pull, path)
    } else {
        Ok(SyncAction::Nothing)
    }
}

/// Which way a file goes that may go either way.
pub open spec fn either_decision(
    order: Option<Ordering>,
    local: bool,
    remote: bool,
    resolution: ConflictResolution,
    path: Seq<char>,
) -> Result<SyncAction, ErrorView> {
    if local && remote {
        match resolution {
            ConflictResolution::Manual => Err(ErrorView::SyncConflict(path)),
            ConflictResolution::SourceWins => Ok(SyncAction::Push),
            ConflictResolution::TargetWins => Ok(SyncAction::Pull),
            ConflictResolution::NewerWins => if order == Some(Ordering::Greater) {
                Ok(SyncAction::Push)
            } else if order == Some(Ordering::Less) {
                Ok(SyncAction::Pull)
            } else {
                Ok(SyncAction::Nothing)
            },
        }
    } else if local {
        Ok(SyncAction::Push)
    } else if remote {
        Ok(SyncAction::Pull)
    } else {
        Ok(SyncAction::Nothing)
    }
}

/// Which way a file goes.
pub open spec fn decision(
    direction: SyncDirection,
    order: Option<Ordering>,
    local: bool,
    remote: bool,
    resolution: ConflictResolution,
    path: Seq<char>,
) -> Result<SyncAction, ErrorView> {
    match direction {
        SyncDirection::Push => push_decision(order, local, remote, resolution, path),
        SyncDirection::Pull => pull_decision(order, local, remote, resolution, path),
        SyncDirection::Bidirectional => either_decision(order, local, remote, resolution, path),
    }
}

/// How the times of the last change compare.
pub fn compare_modified(local: Option<u64>, remote: Option<u64>, tolerance: Duration) -> (order: Option<
    Ordering,
>)
    ensures
        order == modified_order(local, remote, tolerance),
{
    let tolerance: u64 = tolerance.as_secs();
    match (local, remote) {
        (Some(local), Some(remote)) => {
            if local > remote && local - remote > tolerance {
                Some(Ordering::Greater)
            } else if remote > local && remote - local > tolerance {
                Some(Ordering::Less)
            } else {
                None
            }
        },
        _ => None,
    }
}

fn in_conflict(path: &str) -> (error: FileTransferError)
    ensures
        error@ == ErrorView::SyncConflict(path@),
{
    FileTransferError::SyncConflict { path: String::from_str(path) }
}

/// What comes of a remote file that is newer than the one to be sent.
pub fn resolve_push_conflict(resolution: ConflictResolution, path: &str) -> (r: Result<
    SyncAction,
    FileTransferError,
>)
    ensures
        outcome(r) == conflict(resolution, SyncAction::Push, path@),
{
    match resolution {
        ConflictResolution::NewerWins | ConflictResolution::TargetWins => Ok(SyncAction::Nothing),
        ConflictResolution::SourceWins => Ok(SyncAction::Push),
        ConflictResolution::Manual => Err(in_conflict(path)),
    }
}

/// What comes of a local file that is newer than the one to be fetched.
pub fn resolve_pull_conflict(resolution: ConflictResolution, path: &str) -> (r: Result<
    SyncAction,
    FileTransferError,
>)
    ensures
        outcome(r) == conflict(resolution, SyncAction::Pull, path@),
{
    match resolution {
        ConflictResolution::NewerWins | ConflictResolution::TargetWins => Ok(SyncAction::Nothing),
        ConflictResolution::SourceWins => Ok(SyncAction::Pull),
        ConflictResolution::Manual => Err(in_conflict(path)),
    }
}

/// Which way a file goes that is only sent.
pub fn decide_push(
    ordering: Option<Ordering>,
    local_exists: bool,
    remote_exists: bool,
    resolution: ConflictResolution,
    path: &str,
) -> (r: Result<SyncAction, FileTransferError>)
    ensures
        outcome(r) == push_decision(ordering, local_exists, remote_exists, resolution, path@),
{
    if !local_exists {
        return Err(FileTransferError::FileNotFound(String::from_str(path)));
    }
    if !remote_exists {
        return Ok(SyncAction::Push);
    }
    match ordering {
        Some(Ordering::Greater) => Ok(SyncAction::Push),
        Some(Ordering::Less) => resolve_push_conflict(resolution, path),
        Some(Ordering::Equal) | None => Ok(SyncAction::Nothing),
    }
}

/// Which way a file goes that is only fetched.
pub fn decide_pull(
    ordering: Option<Ordering>,
    local_exists: bool,
    remote_exists: bool,
    resolution: ConflictResolution,
    path: &str,
) -> (r: Result<SyncAction, FileTransferError>)
    ensures
        outcome(r) == pull_decision(ordering, local_exists, remote_exists, resolution, path@),
{
    if !remote_exists {
        return Ok(SyncAction::Nothing);
    }
    if !local_exists {
        return Ok(SyncAction::Pull);
    }
    match ordering {
        Some(Ordering::Less) => Ok(SyncAction::Pull),
        Some(Ordering::Greater) => resolve_pull_conflict(resolution, path),
        Some(Ordering::Equal) | None => Ok(SyncAction::Nothing),
    }
}

/// Which way a file goes that may go either way.
pub fn decide_bidirectional(
    ordering: Option<Ordering>,
    local_exists: bool,
    remote_exists: bool,
    resolution: ConflictResolution,
    path: &str,
) -> (r: Result<SyncAction, FileTransferError>)
    ensures
        outcome(r) == either_decision(ordering, local_exists, remote_exists, resolution, path@),
{
    match (local_exists, remote_exists) {
        (true, false) => Ok(SyncAction::Push),
        (false, true) => Ok(SyncAction::Pull),
        (false, false) => Ok(SyncAction::Nothing),
        (true, true) => match resolution {
            ConflictResolution::Manual => Err(in_conflict(path)),
            ConflictResolution::SourceWins => Ok(SyncAction::Push),
            ConflictResolution::TargetWins => Ok(SyncAction::Pull),
            ConflictResolution::NewerWins => match ordering {
                Some(Ordering::Greater) => Ok(SyncAction::Push),
                Some(Ordering::Less) => Ok(SyncAction::Pull),
                Some(Ordering::Equal) | None => Ok(SyncAction::Nothing),
            },
        },
    }
}

/// Which way a file goes.
pub fn decide_action(
    direction: SyncDirection,
    ordering: Option<Ordering>,
    local_exists: bool,
    remote_exists: bool,
    resolution: ConflictResolution,
    path: &str,
) -> (r: Result<SyncAction, FileTransferError>)
    ensures
        outcome(r) == decision(
            direction,
            ordering,
            local_exists,
            remote_exists,
            resolution,
            path@,
        ),
{
    match direction {
        SyncDirection::Push => decide_push(
            ordering,
            local_exists,
            remote_exists,
            resolution,
            path,
        ),
        SyncDirection::Pull => decide_pull(
            ordering,
            local_exists,
            remote_exists,
            resolution,
            path,
        ),
        SyncDirection::Bidirectional => decide_bidirectional(
            ordering,
            local_exists,
            remote_exists,
            resolution,
            path,
        ),
    }
}

/// What is known of the local file.
#[derive(Debug, Clone, Copy, PartialEq, Eq, Structural)]
pub struct LocalFile {
    pub size: u64,
    pub modified: Option<WallTime>,
}

/// The second of the last change of a local file, where it is there and known.
pub open spec fn local_modified(local: Option<LocalFile>) -> Option<u64> {
    match local {
        Some(LocalFile { size: _, modified: Some(at) }) => at.seconds(),
        _ => None,
    }
}

/// The second of the last change of a remote file, where it is there and known.
pub open spec fn remote_modified(remote: Option<FileMetadata>) -> Option<u64> {
    match remote {
        Some(m) => m.modified_at,
        None => None,
    }
}

/// What a synchronisation comes to: which way the file goes, and how.
#[derive(Debug, Clone, Copy, PartialEq, Eq, Structural)]
pub struct SyncPlan {
    pub action: SyncAction,
    pub transfer: TransferOptions,
}

/// How the file is transferred. The file that gives way is overwritten.
pub open spec fn planned(action: SyncAction, options: SyncOptions, local: bool, remote: bool) -> SyncPlan {
    SyncPlan {
        action,
        transfer: TransferOptions {
            follow_symlinks: options.follow_symlinks,
            overwrite: match action {
                SyncAction::Push => remote,
                SyncAction::Pull => local,
                SyncAction::Nothing => options.transfer.overwrite,
            },
            ..options.transfer
        },
    }
}

/// What a synchronisation comes to.
pub fn plan_sync(options: &SyncOptions, local: Option<LocalFile>, remote: Option<FileMetadata>, path: &str) -> (r: Result<
    SyncPlan,
    FileTransferError,
>)
    ensures
        outcome(r) == (match decision(
            options.direction,
            modified_order(
                local_modified(local),
                remote_modified(remote),
                options.clock_skew_tolerance,
            ),
            local is Some,
            remote is Some,
            options.conflict_resolution,
            path@,
        ) {
            Ok(action) => Ok(planned(action, *options, local is Some, remote is Some)),
            Err(error) => Err(error),
        }),
{
    let local_at = match local {
        Some(file) => match file.modified {
            Some(at) => at.unix_seconds(),
            None => None,
        },
        None => None,
    };
    let remote_at = match remote {
        Some(metadata) => metadata.modified_at,
        None => None,
    };
    let order = compare_modified(local_at, remote_at, options.clock_skew_tolerance);
    match decide_action(
        options.direction,
        order,
        local.is_some(),
        remote.is_some(),
        options.conflict_resolution,
        path,
    ) {
        Err(error) => Err(error),
        Ok(action) => {
            let mut transfer = options.transfer;
            transfer.follow_symlinks = options.follow_symlinks;
            match action {
                SyncAction::Push => {
                    transfer.overwrite = remote.is_some();
                },
                SyncAction::Pull => {
                    transfer.overwrite = local.is_some();
                },
                SyncAction::Nothing => {},
            }
            Ok(SyncPlan { action, transfer })
        },
    }
}

/// What another node says of a file, where it has one.
pub open spec fn told(response: MetadataResponse) -> Option<FileMetadata> {
    if response.found {
        response.metadata
    } else {
        None
    }
}

/// What another node says of a file, where it has one.
pub fn read_metadata_response(message: &FileTransferMessage) -> (r: Result<
    Option<FileMetadata>,
    FileTransferError,
>)
    ensures
        outcome(r) == (match *message {
            FileTransferMessage::MetadataResponse(response) => Ok(told(response)),
            _ => Err(ErrorView::Internal("unexpected metadata response"@)),
        }),
{
    match message {
        FileTransferMessage::MetadataResponse(response) => {
            if response.found {
                Ok(response.metadata)
            } else {
                Ok(None)
            }
        },
        _ => Err(internal("unexpected metadata response")),
    }
}

/// The progress of a synchronisation that leaves both files as they are.
pub fn unchanged_handle(local_size: u64) -> (handle: SyncHandle)
    ensures
        handle.now() == advanced(no_progress(local_size), local_size, 0),
        !handle.stopped(),
{
    let mut handle = SyncHandle::new(local_size);
    handle.update_progress(local_size, 0);
    handle
}

/// The progress of a synchronisation that has sent the file.
pub fn pushed_handle(local_size: u64, sent: TransferProgress) -> (handle: SyncHandle)
    ensures
        handle.now() == advanced(
            no_progress(local_size),
            sent.bytes_transferred,
            sent.chunks_completed,
        ),
        !handle.stopped(),
{
    let mut handle = SyncHandle::new(local_size);
    handle.update_progress(sent.bytes_transferred, sent.chunks_completed);
    handle
}

/// The size of the chunks with certain numbers, as far as the file has such chunks.
pub open spec fn listed_size(chunks: Seq<ChunkMeta>, list: Seq<u32>) -> nat
    decreases list.len(),
{
    if list.len() == 0 {
        0
    } else {
        listed_size(chunks, list.drop_last()) + (if list.last() < chunks.len() {
            chunks[list.last() as int].size as nat
        } else {
            0
        })
    }
}

/// How many bytes of a file have arrived.
pub open spec fn arrived_bytes(s: SessionView) -> nat {
    if all_arrived(s.tracker) {
        s.manifest.file_size as nat
    } else {
        listed_size(s.manifest.chunks, ascending_u32(s.tracker.completed))
    }
}

/// How many chunks of a file have arrived, in thirty-two bits.
pub open spec fn arrived_chunks(s: SessionView) -> nat {
    s.tracker.completed.len() % 0x1_0000_0000
}

proof fn listed_size_is_bounded(chunks: Seq<ChunkMeta>, list: Seq<u32>)
    requires
        increasing_u32(list),
    ensures
        listed_size(chunks, list) <= list.len() * 0xffff_ffff,
        list.len() > 0 ==> list.last() >= list.len() - 1,
    decreases list.len(),
{
    if list.len() > 0 {
        let rest = list.drop_last();
        assert(increasing_u32(rest));
        listed_size_is_bounded(chunks, rest);
        if rest.len() > 0 {
            assert(rest.last() == list[list.len() - 2]);
        }
        assert(list.len() * 0xffff_ffff == rest.len() * 0xffff_ffff + 0xffff_ffff);
    }
}

/// The size of the chunks that have arrived, and how many they are.
pub fn completed_size(session: &TransferSession) -> (progress: (u64, u32))
    ensures
        progress.0 == listed_size(
            session@.manifest.chunks,
            ascending_u32(session@.tracker.completed),
        ),
        progress.1 == arrived_chunks(session@),
{
    let list = sorted_members_u32(&session.chunk_tracker.completed);
    proof {
        ascending_is_u32(session.chunk_tracker.completed@, list@);
        listed_size_is_bounded(session.manifest.chunks@, list@);
    }
    let count: usize = list.len();
    let low: u64 = count as u64 % 0x1_0000_0000;
    let chunks: u32 = low as u32;
    let n: usize = session.manifest.chunks.len();
    let mut bytes: u64 = 0;
    let mut i: usize = 0;
    while i < count
        invariant
            i <= count,
            count == list@.len(),
            count <= 0x1_0000_0000,
            n == session.manifest.chunks@.len(),
            bytes == listed_size(session.manifest.chunks@, list@.take(i as int)),
            bytes <= i * 0xffff_ffff,
        decreases count - i,
    {
        proof {
            let longer = list@.take(i + 1);
            assert(longer.drop_last() =~= list@.take(i as int));
            assert(longer.last() == list@[i as int]);
        }
        let index: u32 = list[i];
        if (index as u64) < n as u64 {
            bytes = bytes + session.manifest.chunks[index as usize].size as u64;
        }
        i = i + 1;
    }
    assert(list@.take(count as int) =~= list@);
    (bytes, chunks)
}

/// How many bytes and chunks of a file have arrived.
pub fn progress_from_session(session: &TransferSession) -> (progress: (u64, u32))
    ensures
        progress.0 == arrived_bytes(session@),
        progress.1 == arrived_chunks(session@),
{
    let (bytes, chunks) = completed_size(session);
    if session.chunk_tracker.is_complete() {
        (session.manifest.file_size, chunks)
    } else {
        (bytes, chunks)
    }
}

/// What to do next while a file is fetched.
#[derive(Debug, PartialEq, Eq)]
pub enum PullStep {
    /// Listen for word of the other node for so long, then look again.
    Listen(Duration),
    /// Wait for so long, then look again.
    Pause(Duration),
    /// The file is here.
    Done,
}

/// Waiting for a file that is fetched.
#[derive(Debug, Clone, Copy, PartialEq, Eq, Structural)]
pub struct PullWait {
    pub handle: SyncHandle,
    pub last_bytes: u64,
    pub last_chunks: u32,
    pub last_activity: Instant,
    pub manifest_deadline: Instant,
    pub idle_timeout: Duration,
}

/// How long the other node is listened for at a time.
pub const LISTEN_NANOS: u128 = 100_000_000;

/// How long the transfer is left alone between two looks at it.
pub const PAUSE_NANOS: u128 = 200_000_000;

/// Whether a transfer is no further than it was, or further, but has lost nothing since.
pub open spec fn has_not_lost(w: PullWait, s: SessionView) -> bool {
    arrived_bytes(s) >= w.last_bytes && arrived_chunks(s) >= w.last_chunks
}

/// Whether anything has arrived since the last look.
pub open spec fn has_moved(w: PullWait, s: SessionView) -> bool {
    arrived_bytes(s) != w.last_bytes || arrived_chunks(s) != w.last_chunks
}

/// The progress that is told of after a look at the transfer.
pub open spec fn told_progress(w: PullWait, s: SessionView) -> TransferProgress {
    let total = TransferProgress { total_bytes: s.manifest.file_size, ..w.handle.now() };
    let seen = advanced(
        total,
        (arrived_bytes(s) - w.last_bytes) as u64,
        (arrived_chunks(s) - w.last_chunks) as u32,
    );
    if s.state is Completed && arrived_bytes(s) < s.manifest.file_size {
        advanced(seen, (s.manifest.file_size - arrived_bytes(s)) as u64, 0)
    } else {
        seen
    }
}

/// When something arrived last, after a look at the transfer.
pub open spec fn active_at(w: PullWait, s: SessionView, now: Instant) -> Instant {
    if has_moved(w, s) {
        now
    } else {
        w.last_activity
    }
}

/// What a look at a transfer leads to.
pub open spec fn pull_step(w: PullWait, session: Option<SessionView>, now: Instant) -> Result<PullStep, ErrorView> {
    match session {
        None => if now.nanos >= w.manifest_deadline.nanos {
            Err(ErrorView::Timeout)
        } else if w.manifest_deadline.nanos - now.nanos < LISTEN_NANOS {
            Ok(PullStep::Listen(Duration { nanos: (w.manifest_deadline.nanos - now.nanos) as u128 }))
        } else {
            Ok(PullStep::Listen(Duration { nanos: LISTEN_NANOS }))
        },
        Some(s) => if s.state is Completed {
            Ok(PullStep::Done)
        } else if s.state is Failed {
            Err(
                ErrorView::Internal(
                    match s.error {
                        Some(text) => text,
                        None => "transfer failed"@,
                    },
                ),
            )
        } else if s.state is Cancelled {
            Err(ErrorView::Cancelled)
        } else if now.since(active_at(w, s, now)) > w.idle_timeout.nanos {
            Err(ErrorView::Timeout)
        } else {
            Ok(PullStep::Pause(Duration { nanos: PAUSE_NANOS }))
        },
    }
}

impl PullWait {
    /// Waiting for a file that was just asked for.
    pub fn new(now: Instant, manifest_timeout: Duration, idle_timeout: Duration) -> (wait: Self)
        ensures
            wait.handle.now() == no_progress(0),
            !wait.handle.stopped(),
            wait.last_bytes == 0,
            wait.last_chunks == 0,
            wait.last_activity == now,
            wait.manifest_deadline.nanos == (if now.nanos + manifest_timeout.nanos <= u128::MAX {
                now.nanos + manifest_timeout.nanos
            } else {
                u128::MAX as int
            }),
            wait.idle_timeout == idle_timeout,
    {
        PullWait {
            handle: SyncHandle::new(0),
            last_bytes: 0,
            last_chunks: 0,
            last_activity: now,
            manifest_deadline: now.saturating_add(manifest_timeout),
            idle_timeout,
        }
    }

    /// Looks at the transfer, tells of its progress, and says what to do next.
    pub fn look(&mut self, session: Option<&TransferSession>, now: Instant) -> (r: Result<
        PullStep,
        FileTransferError,
    >)
        requires
            session matches Some(s) ==> has_not_lost(*old(self), s@),
        ensures
            outcome(r) == pull_step(
                *old(self),
                match session {
                    Some(s) => Some(s@),
                    None => None,
                },
                now,
            ),
            match session {
                None => *final(self) == *old(self),
                Some(s) => {
                    &&& final(self).handle.now() == told_progress(*old(self), s@)
                    &&& final(self).handle.stopped() == old(self).handle.stopped()
                    &&& final(self).last_bytes == arrived_bytes(s@)
                    &&& final(self).last_chunks == arrived_chunks(s@)
                    &&& final(self).last_activity == active_at(*old(self), s@, now)
                    &&& final(self).manifest_deadline == old(self).manifest_deadline
                    &&& final(self).idle_timeout == old(self).idle_timeout
                },
            },
    {
        let session = match session {
            Some(session) => session,
            None => {
                if now.nanos >= self.manifest_deadline.nanos {
                    return Err(FileTransferError::Timeout);
                }
                let left: u128 = self.manifest_deadline.nanos - now.nanos;
                let wait: u128 = if left < LISTEN_NANOS {
                    left
                } else {
                    LISTEN_NANOS
                };
                return Ok(PullStep::Listen(Duration { nanos: wait }));
            },
        };
        self.handle.set_total_bytes(session.manifest.file_size);
        let (bytes, chunks) = progress_from_session(session);
        if bytes != self.last_bytes || chunks != self.last_chunks {
            self.handle.update_progress(bytes - self.last_bytes, chunks - self.last_chunks);
            self.last_bytes = bytes;
            self.last_chunks = chunks;
            self.last_activity = now;
        }
        match session.state {
            TransferState::Completed => {
                if bytes < session.manifest.file_size {
                    self.handle.update_progress(session.manifest.file_size - bytes, 0);
                }
                return Ok(PullStep::Done);
            },
            TransferState::Failed => {
                return match &session.error {
                    Some(text) => Err(FileTransferError::Internal(text.clone())),
                    None => Err(internal("transfer failed")),
                };
            },
            TransferState::Cancelled => {
                return Err(FileTransferError::Cancelled);
            },
            _ => {},
        }
        if now.saturating_duration_since(self.last_activity).nanos > self.idle_timeout.nanos {
            return Err(FileTransferError::Timeout);
        }
        Ok(PullStep::Pause(Duration { nanos: PAUSE_NANOS }))
    }
}

/// What a message does to waiting for a file of `target`: word of that node that it will not
/// come ends it, and nothing else does.
pub fn hear(target: NodeId, sender: NodeId, message: &FileTransferMessage) -> (r: Result<(), FileTransferError>)
    ensures
        outcome(r) == (match *message {
            FileTransferMessage::Error(error) if sender == target => Err(
                ErrorView::Transport(error.message@),
            ),
            FileTransferMessage::Cancel(_) if sender == target => Err(ErrorView::Cancelled),
            _ => Ok(()),
        }),
{
    if sender.id != target.id {
        return Ok(());
    }
    match message {
        FileTransferMessage::Error(error) => Err(
            FileTransferError::Transport(error.message.clone()),
        ),
        FileTransferMessage::Cancel(_) => Err(FileTransferError::Cancelled),
        _ => Ok(()),
    }
}

/// What it does to waiting for a file that no message came: nothing where none came in time.
pub fn hear_nothing(error: FileTransferError) -> (r: Result<(), FileTransferError>)
    ensures
        outcome(r) == (if error@ == ErrorView::Timeout {
            Ok(())
        } else {
            Err(error@)
        }),
{
    match error {
        FileTransferError::Timeout => Ok(()),
        error => Err(error),
    }
}

/// A file that is only sent is never fetched, and one that is only fetched is never sent.
pub proof fn direction_is_kept(
    order: Option<Ordering>,
    local: bool,
    remote: bool,
    resolution: ConflictResolution,
    path: Seq<char>,
)
    ensures
        decision(SyncDirection::Push, order, local, remote, resolution, path) != Ok::<
            SyncAction,
            ErrorView,
        >(SyncAction::Pull),
        decision(SyncDirection::Pull, order, local, remote, resolution, path) != Ok::<
            SyncAction,
            ErrorView,
        >(SyncAction::Push),
{
}

/// Where the newer file wins, no file gives way to one that is not newer than it by more than
/// the clocks may be apart.
pub proof fn newer_file_is_kept(
    direction: SyncDirection,
    local_at: Option<u64>,
    remote_at: Option<u64>,
    tolerance: Duration,
    path: Seq<char>,
)
    ensures
        ({
            let order = modified_order(local_at, remote_at, tolerance);
            let d = decision(direction, order, true, true, ConflictResolution::NewerWins, path);
            &&& d == Ok::<SyncAction, ErrorView>(SyncAction::Push) ==> local_at is Some
                && remote_at is Some && local_at->0 - remote_at->0 > tolerance.nanos
                / 1_000_000_000
            &&& d == Ok::<SyncAction, ErrorView>(SyncAction::Pull) ==> local_at is Some
                && remote_at is Some && remote_at->0 - local_at->0 > tolerance.nanos
                / 1_000_000_000
        }),
{
}

/// Where conflicts are left to the user, a file never gives way to an older one.
pub proof fn conflict_is_left_to_the_user(
    direction: SyncDirection,
    order: Option<Ordering>,
    path: Seq<char>,
)
    ensures
        ({
            let d = decision(direction, order, true, true, ConflictResolution::Manual, path);
            &&& d == Ok::<SyncAction, ErrorView>(SyncAction::Push) ==> order == Some(
                Ordering::Greater,
            )
            &&& d == Ok::<SyncAction, ErrorView>(SyncAction::Pull) ==> order == Some(Ordering::Less)
            &&& direction is Bidirectional ==> d == Err::<SyncAction, ErrorView>(
                ErrorView::SyncConflict(path),
            )
        }),
{
}

/// Two nodes that let the newer file win agree on which one that is: what one of them would
/// send, the other would fetch.
pub proof fn both_nodes_agree(
    here: Option<u64>,
    there: Option<u64>,
    tolerance: Duration,
    has_here: bool,
    has_there: bool,
    path: Seq<char>,
)
    ensures
        ({
            let d = either_decision(
                modified_order(here, there, tolerance),
                has_here,
                has_there,
                ConflictResolution::NewerWins,
                path,
            );
            let e = either_decision(
                modified_order(there, here, tolerance),
                has_there,
                has_here,
                ConflictResolution::NewerWins,
                path,
            );
            &&& d == Ok::<SyncAction, ErrorView>(SyncAction::Push) <==> e == Ok::<
                SyncAction,
                ErrorView,
            >(SyncAction::Pull)
            &&& d == Ok::<SyncAction, ErrorView>(SyncAction::Nothing) <==> e == Ok::<
                SyncAction,
                ErrorView,
            >(SyncAction::Nothing)
        }),
{
}

/// When a fetched file is here, its whole size has been told of, where what was told of before
/// is what had arrived.
pub proof fn whole_file_is_told_of(w: PullWait, s: SessionView)
    requires
        w.handle.now().bytes_transferred == w.last_bytes,
        has_not_lost(w, s),
        arrived_bytes(s) <= s.manifest.file_size,
        s.state is Completed,
    ensures
        told_progress(w, s).bytes_transferred == s.manifest.file_size,
        told_progress(w, s).total_bytes == s.manifest.file_size,
{
}

/// What is told of is what has arrived, as long as the file is on its way.
pub proof fn arrived_bytes_are_told_of(w: PullWait, s: SessionView)
    requires
        w.handle.now().bytes_transferred == w.last_bytes,
        has_not_lost(w, s),
        arrived_bytes(s) <= u64::MAX,
        !(s.state is Completed),
    ensures
        told_progress(w, s).bytes_transferred == arrived_bytes(s),
{
}

/// How the times compare is told by the seconds between them: a file is newer exactly where it
/// was changed later by more than the clocks may be apart, and nothing is told where a time is
/// missing.
pub proof fn order_is_told_by_the_seconds(local: Option<u64>, remote: Option<u64>, tolerance: Duration)
    ensures
        local is None || remote is None ==> modified_order(local, remote, tolerance) is None,
        local is Some && remote is Some ==> {
            let apart = tolerance.nanos / 1_000_000_000;
            &&& modified_order(local, remote, tolerance) == Some(Ordering::Greater) <==> local->0
                > remote->0 + apart
            &&& modified_order(local, remote, tolerance) == Some(Ordering::Less) <==> remote->0
                > local->0 + apart
            &&& modified_order(local, remote, tolerance) is None <==> local->0 <= remote->0 + apart
                && remote->0 <= local->0 + apart
        },
        modified_order(local, remote, tolerance) != Some(Ordering::Equal),
{
}

/// Where both files are there, the newer one is copied over the older wherever the direction
/// allows it: it is sent where files are sent and fetched where files are fetched, however
/// conflicts are resolved, and where files go both ways with the newer one winning.
pub proof fn newer_file_is_copied(
    local_at: u64,
    remote_at: u64,
    tolerance: Duration,
    resolution: ConflictResolution,
    path: Seq<char>,
)
    ensures
        ({
            let order = modified_order(Some(local_at), Some(remote_at), tolerance);
            let apart = tolerance.nanos / 1_000_000_000;
            &&& local_at > remote_at + apart ==> {
                &&& decision(SyncDirection::Push, order, true, true, resolution, path) == Ok::<
                    SyncAction,
                    ErrorView,
                >(SyncAction::Push)
                &&& decision(
                    SyncDirection::Bidirectional,
                    order,
                    true,
                    true,
                    ConflictResolution::NewerWins,
                    path,
                ) == Ok::<SyncAction, ErrorView>(SyncAction::Push)
            }
            &&& remote_at > local_at + apart ==> {
                &&& decision(SyncDirection::Pull, order, true, true, resolution, path) == Ok::<
                    SyncAction,
                    ErrorView,
                >(SyncAction::Pull)
                &&& decision(
                    SyncDirection::Bidirectional,
                    order,
                    true,
                    true,
                    ConflictResolution::NewerWins,
                    path,
                ) == Ok::<SyncAction, ErrorView>(SyncAction::Pull)
            }
        }),
{
}

/// Files that were changed at about the same time, or at times that are not known, stay as they
/// are: on a one-way synchronisation whatever the resolution, and on a two-way one where the
/// newer file wins.
pub proof fn files_of_the_same_age_stay(
    local_at: Option<u64>,
    remote_at: Option<u64>,
    tolerance: Duration,
    resolution: ConflictResolution,
    path: Seq<char>,
)
    requires
        local_at is Some && remote_at is Some ==> local_at->0 <= remote_at->0 + tolerance.nanos
            / 1_000_000_000 && remote_at->0 <= local_at->0 + tolerance.nanos / 1_000_000_000,
    ensures
        ({
            let order = modified_order(local_at, remote_at, tolerance);
            let nothing = Ok::<SyncAction, ErrorView>(SyncAction::Nothing);
            &&& decision(SyncDirection::Push, order, true, true, resolution, path) == nothing
            &&& decision(SyncDirection::Pull, order, true, true, resolution, path) == nothing
            &&& decision(
                SyncDirection::Bidirectional,
                order,
                true,
                true,
                ConflictResolution::NewerWins,
                path,
            ) == nothing
        }),
{
}

/// A file that only one node has is copied to the other, where the direction allows it, whatever
/// the times and the resolution say. A file that is to be sent and is not there is an error; one
/// that is to be fetched and is not there is none.
pub proof fn missing_file_is_filled_in(
    order: Option<Ordering>,
    resolution: ConflictResolution,
    path: Seq<char>,
)
    ensures
        ({
            let nothing = Ok::<SyncAction, ErrorView>(SyncAction::Nothing);
            let push = Ok::<SyncAction, ErrorView>(SyncAction::Push);
            let pull = Ok::<SyncAction, ErrorView>(SyncAction::Pull);
            &&& decision(SyncDirection::Push, order, true, false, resolution, path) == push
            &&& decision(SyncDirection::Bidirectional, order, true, false, resolution, path) == push
            &&& decision(SyncDirection::Pull, order, false, true, resolution, path) == pull
            &&& decision(SyncDirection::Bidirectional, order, false, true, resolution, path) == pull
            &&& decision(SyncDirection::Pull, order, true, false, resolution, path) == nothing
            &&& decision(SyncDirection::Pull, order, false, false, resolution, path) == nothing
            &&& decision(SyncDirection::Bidirectional, order, false, false, resolution, path)
                == nothing
            &&& forall|remote: bool| #[trigger]
                decision(SyncDirection::Push, order, false, remote, resolution, path) == Err::<
                    SyncAction,
                    ErrorView,
                >(ErrorView::FileNotFound(path))
        }),
{
}

/// A target that is newer than the source gives way only to a source that wins outright; it stays
/// where the newer file or the target wins, and the user is asked where conflicts are theirs. On
/// a two-way synchronisation the local file is the source and the remote one the target.
pub proof fn conflicts_go_as_they_are_to_be_resolved(order: Option<Ordering>, path: Seq<char>)
    ensures
        ({
            let nothing = Ok::<SyncAction, ErrorView>(SyncAction::Nothing);
            let push = Ok::<SyncAction, ErrorView>(SyncAction::Push);
            let pull = Ok::<SyncAction, ErrorView>(SyncAction::Pull);
            let asked = Err::<SyncAction, ErrorView>(ErrorView::SyncConflict(path));
            let less = Some(Ordering::Less);
            let greater = Some(Ordering::Greater);
            &&& decision(
                SyncDirection::Push,
                less,
                true,
                true,
                ConflictResolution::SourceWins,
                path,
            ) == push
            &&& decision(
                SyncDirection::Push,
                less,
                true,
                true,
                ConflictResolution::TargetWins,
                path,
            ) == nothing
            &&& decision(
                SyncDirection::Push,
                less,
                true,
                true,
                ConflictResolution::NewerWins,
                path,
            ) == nothing
            &&& decision(SyncDirection::Push, less, true, true, ConflictResolution::Manual, path)
                == asked
            &&& decision(
                SyncDirection::Pull,
                greater,
                true,
                true,
                ConflictResolution::SourceWins,
                path,
            ) == pull
            &&& decision(
                SyncDirection::Pull,
                greater,
                true,
                true,
                ConflictResolution::TargetWins,
                path,
            ) == nothing
            &&& decision(
                SyncDirection::Pull,
                greater,
                true,
                true,
                ConflictResolution::NewerWins,
                path,
            ) == nothing
            &&& decision(SyncDirection::Pull, greater, true, true, ConflictResolution::Manual, path)
                == asked
            &&& decision(
                SyncDirection::Bidirectional,
                order,
                true,
                true,
                ConflictResolution::SourceWins,
                path,
            ) == push
            &&& decision(
                SyncDirection::Bidirectional,
                order,
                true,
                true,
                ConflictResolution::TargetWins,
                path,
            ) == pull
            &&& decision(
                SyncDirection::Bidirectional,
                order,
                true,
                true,
                ConflictResolution::Manual,
                path,
            ) == asked
        }),
{
}

/// The time of a local file is the second it was changed in, and none where the file, or its
/// time, is not known; that of a remote file is what its node says.
pub proof fn times_are_those_of_the_files(size: u64, at: Option<WallTime>, remote: FileMetadata)
    ensures
        local_modified(None) is None,
        local_modified(Some(LocalFile { size, modified: None })) is None,
        at matches Some(t) ==> local_modified(Some(LocalFile { size, modified: at })) == (
        if t.nanos < 0 {
            None::<u64>
        } else {
            t.seconds()
        }),
        remote_modified(None) is None,
        remote_modified(Some(remote)) == remote.modified_at,
{
}

/// A file that is copied overwrites exactly where there is something to overwrite, links are
/// followed as the synchronisation is told, and all else of the transfer is as it was asked for.
pub proof fn plan_overwrites_only_what_is_there(
    action: SyncAction,
    options: SyncOptions,
    local: bool,
    remote: bool,
)
    ensures
        ({
            let plan = planned(action, options, local, remote);
            &&& plan.action == action
            &&& action is Push ==> plan.transfer.overwrite == remote
            &&& action is Pull ==> plan.transfer.overwrite == local
            &&& action is Nothing ==> plan.transfer.overwrite == options.transfer.overwrite
            &&& plan.transfer.follow_symlinks == options.follow_symlinks
            &&& plan.transfer == (TransferOptions {
                overwrite: plan.transfer.overwrite,
                follow_symlinks: plan.transfer.follow_symlinks,
                ..options.transfer
            })
        }),
{
}

/// What another node says of a file counts only where it has the file.
pub proof fn only_found_files_are_told_of(response: MetadataResponse)
    ensures
        !response.found ==> told(response) is None,
        response.found ==> told(response) == response.metadata,
{
}

proof fn sizes_below_add_up(chunks: Seq<ChunkMeta>, list: Seq<u32>, extra: u32)
    ensures
        listed_size(chunks, list.push(extra)) == listed_size(chunks, list) + (if extra
            < chunks.len() {
            chunks[extra as int].size as int
        } else {
            0
        }),
{
    assert(list.push(extra).drop_last() =~= list);
}

/// How many bytes have arrived is what the chunks that arrived hold together: each counts once,
/// with its own size. A file whose chunks have all arrived has arrived whole.
pub proof fn arrived_bytes_are_those_of_the_chunks(s: SessionView, list: Seq<u32>, extra: u32)
    ensures
        all_arrived(s.tracker) ==> arrived_bytes(s) == s.manifest.file_size,
        !all_arrived(s.tracker) ==> arrived_bytes(s) == listed_size(
            s.manifest.chunks,
            ascending_u32(s.tracker.completed),
        ),
        listed_size(s.manifest.chunks, Seq::<u32>::empty()) == 0,
        listed_size(s.manifest.chunks, list.push(extra)) == listed_size(s.manifest.chunks, list) + (
        if extra < s.manifest.chunks.len() {
            s.manifest.chunks[extra as int].size as int
        } else {
            0
        }),
        s.tracker.completed.len() < 0x1_0000_0000 ==> arrived_chunks(s) == s.tracker.completed.len(),
{
    sizes_below_add_up(s.manifest.chunks, list, extra);
}

/// Fetching a file ends well exactly when the file is here, and badly when the transfer failed,
/// was cancelled, stood still for too long, or was not begun in time. Until then it is looked at
/// again, and soon enough not to miss the time at which it is to be given up.
pub proof fn fetching_ends_with_the_transfer(w: PullWait, s: SessionView, now: Instant)
    ensures
        pull_step(w, Some(s), now) == Ok::<PullStep, ErrorView>(PullStep::Done)
            <==> s.state is Completed,
        s.state is Cancelled ==> pull_step(w, Some(s), now) == Err::<PullStep, ErrorView>(
            ErrorView::Cancelled,
        ),
        s.state is Failed && s.error is Some ==> pull_step(w, Some(s), now) == Err::<
            PullStep,
            ErrorView,
        >(ErrorView::Internal(s.error->0)),
        s.state is Failed ==> pull_step(w, Some(s), now) is Err,
        s.state is Initializing || s.state is InProgress || s.state is Paused || s.state is Verifying
            ==> {
            let still = arrived_bytes(s) == w.last_bytes && arrived_chunks(s) == w.last_chunks;
            let idle = if now.nanos > w.last_activity.nanos {
                now.nanos - w.last_activity.nanos
            } else {
                0
            };
            if still && idle > w.idle_timeout.nanos {
                pull_step(w, Some(s), now) == Err::<PullStep, ErrorView>(ErrorView::Timeout)
            } else {
                pull_step(w, Some(s), now) matches Ok(PullStep::Pause(_))
            }
        },
        pull_step(w, None, now) == Err::<PullStep, ErrorView>(ErrorView::Timeout) <==> now.nanos
            >= w.manifest_deadline.nanos,
        now.nanos < w.manifest_deadline.nanos ==> {
            &&& pull_step(w, None, now) matches Ok(PullStep::Listen(span))
            &&& 0 < span.nanos
            &&& now.nanos + span.nanos <= w.manifest_deadline.nanos
        },
{
}

/// A file is sent, fetched or left as its times and its being there say: here for a file that is
/// only sent and one that is only fetched.
pub proof fn newer_file_overwrites_the_older(
    resolution: ConflictResolution,
    path: &str,
    pushed: Result<SyncAction, FileTransferError>,
    pulled: Result<SyncAction, FileTransferError>,
    either_newer: Result<SyncAction, FileTransferError>,
    either_older: Result<SyncAction, FileTransferError>,
)
    requires
        call_ensures(decide_push, (Some(Ordering::Greater), true, true, resolution, path), pushed),
        call_ensures(decide_pull, (Some(Ordering::Less), true, true, resolution, path), pulled),
        call_ensures(
            decide_bidirectional,
            (Some(Ordering::Greater), true, true, resolution, path),
            either_newer,
        ),
        call_ensures(
            decide_bidirectional,
            (Some(Ordering::Less), true, true, resolution, path),
            either_older,
        ),
    ensures
        pushed matches Ok(action) && action is Push,
        pulled matches Ok(action) && action is Pull,
        resolution is NewerWins ==> (either_newer matches Ok(action) && action is Push),
        resolution is NewerWins ==> (either_older matches Ok(action) && action is Pull),
{
}

/// Only what the node that is asked says of the transfer counts: its errors are passed on, its
/// cancellation cancels, and anything else is passed over. Hearing nothing for a while is no
/// error, and any other failure is.
pub proof fn only_the_asked_node_is_heard(
    target: NodeId,
    sender: NodeId,
    message: FileTransferMessage,
    heard: Result<(), FileTransferError>,
    error: FileTransferError,
    silence: Result<(), FileTransferError>,
)
    requires
        call_ensures(hear, (target, sender, &message), heard),
        call_ensures(hear_nothing, (error,), silence),
    ensures
        sender != target ==> heard is Ok,
        heard is Err <==> sender == target && (message is Error || message is Cancel),
        sender == target && message is Cancel ==> (heard matches Err(e) && e@ is Cancelled),
        sender == target ==> (message matches FileTransferMessage::Error(told) ==> (heard matches Err(
            e,
        ) && e@ == ErrorView::Transport(told.message@))),
        silence is Ok <==> error@ is Timeout,
        silence matches Err(e) ==> e@ == error@,
{
}

/// Where nothing had to be sent all of the file counts as there, and else what was sent does.
pub proof fn progress_is_what_is_there(
    local_size: u64,
    sent: TransferProgress,
    unchanged: SyncHandle,
    pushed: SyncHandle,
)
    requires
        call_ensures(unchanged_handle, (local_size,), unchanged),
        call_ensures(pushed_handle, (local_size, sent), pushed),
    ensures
        unchanged.now().total_bytes == local_size,
        unchanged.now().bytes_transferred == local_size,
        unchanged.now().chunks_completed == 0,
        !unchanged.stopped(),
        pushed.now().total_bytes == local_size,
        pushed.now().bytes_transferred == sent.bytes_transferred,
        pushed.now().chunks_completed == sent.chunks_completed,
        !pushed.stopped(),
{
}

/// A plan for two files of which one is clearly newer copies the newer over the older, wherever
/// files may go that way; and what is in the way is overwritten.
pub proof fn plan_copies_the_newer(
    options: SyncOptions,
    local: LocalFile,
    remote: FileMetadata,
    path: &str,
    r: Result<SyncPlan, FileTransferError>,
)
    requires
        call_ensures(plan_sync, (&options, Some(local), Some(remote), path), r),
    ensures
        ({
            let order = modified_order(
                local_modified(Some(local)),
                remote_modified(Some(remote)),
                options.clock_skew_tolerance,
            );
            &&& options.direction is Push && order == Some(Ordering::Greater) ==> (r matches Ok(plan)
                && plan.action is Push && plan.transfer.overwrite)
            &&& options.direction is Pull && order == Some(Ordering::Less) ==> (r matches Ok(plan)
                && plan.action is Pull && plan.transfer.overwrite)
            &&& r matches Ok(plan) ==> plan.transfer.chunk_size == options.transfer.chunk_size
                && plan.transfer.mode == options.transfer.mode && plan.transfer.resumable
                == options.transfer.resumable && plan.transfer.follow_symlinks
                == options.follow_symlinks
            &&& r matches Ok(plan) ==> (plan.action is Nothing ==> plan.transfer.overwrite
                == options.transfer.overwrite)
        }),
{
}

} // verus!

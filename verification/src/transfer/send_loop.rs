//! The loop that sends the chunks of a file until each has arrived.
//!
//! A chunk waits, is under way, waits to be sent again, or has arrived. At most so many are
//! under way at once. One that fails is sent again after a while, up to a number of times.

use std::collections::{BTreeMap, BTreeSet};
use vstd::prelude::*;

use crate::bytes::bytes_equal;
use crate::clock::{Instant, WallTime};
use crate::node::NodeId;
use crate::ordered::{ascending_is_u32, ascending_u32, sorted_members_u32};
use crate::transfer::chunk::{
    all_arrived, all_chunks, chunk_completed, chunk_failed, ChunkMeta, TrackerView,
};
use crate::transfer::error::{error_text, internal, ErrorView, FileTransferError};
use crate::transfer::messages::{text_of, ChunkAck, FileTransferMessage, TransferComplete};
use crate::transfer::options::{HashAlgorithm, TransferMode};
use crate::transfer::progress::{advanced, no_progress, TransferProgress};
use crate::transfer::session::{
    cancelled_with, failed_with, SessionView, TransferControlState, TransferSession, TransferState,
};

verus! {

/// A transfer under way at the sending end.
#[derive(Debug)]
pub struct SendLoop {
    session: TransferSession,
    progress: TransferProgress,
    pending: Vec<u32>,
    in_flight: BTreeMap<u32, Instant>,
    retries: BTreeMap<u32, u8>,
    scheduled: Vec<u32>,
    concurrency: usize,
    skipped: usize,
}

/// A transfer under way at the sending end, seen as plain values.
#[verifier::ext_equal]
pub struct SendView {
    pub session: SessionView,
    pub progress: TransferProgress,
    /// The chunks that wait, in the order in which they are sent.
    pub pending: Seq<u32>,
    /// The chunks that are under way, with when each was sent.
    pub in_flight: Map<u32, Instant>,
    /// How often each chunk was sent again.
    pub retries: Map<u32, u8>,
    /// The chunks that wait to be sent again, once for each time.
    pub scheduled: Seq<u32>,
    /// How many chunks may be under way at once.
    pub concurrency: usize,
    /// How many chunks need not be sent.
    pub skipped: nat,
}

impl View for SendLoop {
    type V = SendView;

    closed spec fn view(&self) -> SendView {
        SendView {
            session: self.session@,
            progress: self.progress,
            pending: self.pending@,
            in_flight: self.in_flight@,
            retries: self.retries@,
            scheduled: self.scheduled@,
            concurrency: self.concurrency,
            skipped: self.skipped as nat,
        }
    }
}

/// A tracker after chunks arrived together.
pub open spec fn all_marked(v: TrackerView, chunks: Set<u32>) -> TrackerView {
    TrackerView {
        completed: v.completed.union(chunks),
        in_flight: v.in_flight.difference(chunks),
        failed: v.failed.remove_keys(chunks),
        ..v
    }
}

/// The size of a chunk that may not exist.
pub open spec fn size_at(chunks: Seq<ChunkMeta>, i: u32) -> Option<u32> {
    if i < chunks.len() {
        Some(chunks[i as int].size)
    } else {
        None
    }
}

/// The progress that chunks stand for: as much as sixty-four and thirty-two bits can hold.
pub open spec fn progress_of(p: TransferProgress, chunks: Seq<ChunkMeta>, list: Seq<u32>) -> TransferProgress
    decreases list.len(),
{
    if list.len() == 0 {
        p
    } else {
        let before = progress_of(p, chunks, list.drop_last());
        match size_at(chunks, list.last()) {
            Some(size) => advanced(before, size as u64, 1),
            None => before,
        }
    }
}

/// The loop before its first chunk: all chunks wait but those that need not be sent, which
/// count as arrived.
pub open spec fn loop_start(s: SessionView, skip: Set<u32>, concurrency: usize) -> SendView {
    SendView {
        session: SessionView { tracker: all_marked(s.tracker, skip), ..s },
        progress: progress_of(
            no_progress(s.manifest.file_size),
            s.manifest.chunks,
            ascending_u32(skip),
        ),
        pending: all_chunks(s.manifest.chunk_count).filter(|i: u32| !skip.contains(i)),
        in_flight: Map::empty(),
        retries: Map::empty(),
        scheduled: Seq::empty(),
        concurrency,
        skipped: skip.len(),
    }
}

/// Whether nothing is left to do.
pub open spec fn loop_is_over(s: SendView) -> bool {
    s.pending.len() == 0 && s.in_flight.dom().len() == 0 && s.scheduled.len() == 0
}

/// The loop after as many waiting chunks as may were sent.
pub open spec fn launched(s: SendView, now: Instant) -> SendView
    decreases s.pending.len(),
{
    if s.pending.len() == 0 || s.in_flight.dom().len() >= s.concurrency {
        s
    } else {
        launched(
            SendView {
                pending: s.pending.skip(1),
                in_flight: s.in_flight.insert(s.pending[0], now),
                ..s
            },
            now,
        )
    }
}

/// How often a chunk was sent again.
pub open spec fn times_retried(retries: Map<u32, u8>, i: u32) -> u8 {
    if retries.contains_key(i) {
        retries[i]
    } else {
        0
    }
}

/// Whether, and for which time, a chunk is sent again.
pub open spec fn next_attempt(retries: Map<u32, u8>, i: u32, max_retries: u8) -> Option<u8> {
    if times_retried(retries, i) >= max_retries {
        None
    } else {
        Some((times_retried(retries, i) + 1) as u8)
    }
}

/// How often chunks were sent again, once it was asked of a chunk whether it is.
pub open spec fn after_question(retries: Map<u32, u8>, i: u32, max_retries: u8) -> Map<u32, u8> {
    match next_attempt(retries, i, max_retries) {
        Some(attempt) => retries.insert(i, attempt),
        None => retries.insert(i, times_retried(retries, i)),
    }
}

/// How often chunks were sent again, once it was asked of a chunk `count` times whether it is.
pub open spec fn after_questions(retries: Map<u32, u8>, i: u32, max_retries: u8, count: nat) -> Map<
    u32,
    u8,
>
    decreases count,
{
    if count == 0 {
        retries
    } else {
        after_question(after_questions(retries, i, max_retries, (count - 1) as nat), i, max_retries)
    }
}

/// What the caller does after an event.
#[derive(Debug, PartialEq, Eq)]
pub enum SendAction {
    /// Nothing.
    Continue,
    /// Report the chunk again, once the delay for this attempt is over.
    Retry { index: u32, attempt: u8 },
    /// Give the transfer up.
    Fail(FileTransferError),
    /// Stop: the transfer was cancelled.
    Cancel,
}

/// What the caller does after an event, seen as plain values.
pub enum ActionView {
    Continue,
    Retry(u32, u8),
    Fail(ErrorView),
    Cancel,
}

impl View for SendAction {
    type V = ActionView;

    open spec fn view(&self) -> ActionView {
        match *self {
            SendAction::Continue => ActionView::Continue,
            SendAction::Retry { index, attempt } => ActionView::Retry(index, attempt),
            SendAction::Fail(error) => ActionView::Fail(error@),
            SendAction::Cancel => ActionView::Cancel,
        }
    }
}

/// A transfer that is given up.
pub open spec fn given_up(s: SendView, error: ErrorView, now: WallTime) -> (SendView, ActionView) {
    (
        SendView { session: failed_with(s.session, error_text(error), now), ..s },
        ActionView::Fail(error),
    )
}

/// A chunk that failed: it is sent again, or the transfer is given up with an error.
pub open spec fn again_or_never(s: SendView, i: u32, error: ErrorView, now: WallTime) -> (
    SendView,
    ActionView,
) {
    let max_retries = s.session.options.retry_policy.max_retries;
    let asked = SendView { retries: after_question(s.retries, i, max_retries), ..s };
    match next_attempt(s.retries, i, max_retries) {
        Some(attempt) => (
            SendView { scheduled: s.scheduled.push(i), ..asked },
            ActionView::Retry(i, attempt),
        ),
        None => given_up(asked, error, now),
    }
}

/// The loop after a chunk could not be sent.
pub open spec fn after_send_failure(s: SendView, i: u32, error: ErrorView, now: WallTime) -> (
    SendView,
    ActionView,
) {
    again_or_never(SendView { in_flight: s.in_flight.remove(i), ..s }, i, error, now)
}

/// A list without the first place where a number stands.
pub open spec fn without_first(list: Seq<u32>, x: u32) -> Seq<u32>
    decreases list.len(),
{
    if list.len() == 0 {
        list
    } else if list[0] == x {
        list.skip(1)
    } else {
        seq![list[0]] + without_first(list.skip(1), x)
    }
}

/// The loop after the delay for a chunk is over. A chunk that has arrived meanwhile, or is
/// under way, is not sent again.
pub open spec fn after_delay(s: SendView, i: u32) -> SendView {
    let left = SendView {
        scheduled: without_first(s.scheduled, i),
        ..s
    };
    if s.session.tracker.completed.contains(i) || s.in_flight.contains_key(i) {
        left
    } else {
        SendView { pending: left.pending.push(i), ..left }
    }
}

/// The loop after the other end said whether a chunk arrived unharmed. What it says of a
/// chunk that is not under way is passed over.
pub open spec fn after_ack(s: SendView, ack: ChunkAck, now: WallTime) -> (SendView, ActionView) {
    let i = ack.index;
    if !s.in_flight.contains_key(i) {
        (s, ActionView::Continue)
    } else {
        let landed = SendView { in_flight: s.in_flight.remove(i), ..s };
        if ack.verified {
            (
                SendView {
                    session: SessionView {
                        tracker: chunk_completed(s.session.tracker, i),
                        ..s.session
                    },
                    progress: match size_at(s.session.manifest.chunks, i) {
                        Some(size) => advanced(s.progress, size as u64, 1),
                        None => s.progress,
                    },
                    ..landed
                },
                ActionView::Continue,
            )
        } else {
            let harmed = SendView {
                session: SessionView { tracker: chunk_failed(s.session.tracker, i), ..s.session },
                ..landed
            };
            let (next, action) = again_or_never(harmed, i, ErrorView::MaxRetriesExceeded(i), now);
            match (text_of(ack.error), action) {
                (Some(text), ActionView::Retry(_, _)) => (
                    SendView { session: failed_with(next.session, text, now), ..next },
                    action,
                ),
                _ => (next, action),
            }
        }
    }
}

/// The loop after a message came in.
pub open spec fn after_message(s: SendView, message: FileTransferMessage, now: WallTime) -> (
    SendView,
    ActionView,
) {
    match message {
        FileTransferMessage::ChunkAck(ack) => after_ack(s, ack, now),
        FileTransferMessage::Error(error) => given_up(
            s,
            ErrorView::Transport(error.message@),
            now,
        ),
        FileTransferMessage::Cancel(_) => (
            SendView {
                session: SessionView {
                    control: TransferControlState::Cancelled,
                    ..cancelled_with(s.session, "cancelled"@, now)
                },
                ..s
            },
            ActionView::Cancel,
        ),
        _ => (s, ActionView::Continue),
    }
}

/// What the caller does before it waits for the next event.
#[derive(Debug, PartialEq, Eq)]
pub enum SendStep {
    /// Everything is sent.
    Finished,
    /// Wait until the transfer is told something else.
    WaitForControl,
    /// Stop: the transfer was cancelled.
    Cancelled,
    /// Send these chunks and wait for an event.
    Launch(Vec<u32>),
}

/// Whether, and for which time, a chunk is sent again. The time is counted, and a chunk that
/// was never sent again has an entry from the first question on.
pub fn should_retry(retries: &mut BTreeMap<u32, u8>, index: u32, max_retries: u8) -> (attempt: Option<u8>)
    ensures
        attempt == next_attempt(old(retries)@, index, max_retries),
        final(retries)@ == after_question(old(retries)@, index, max_retries),
{
    let before: u8 = match retries.get(&index) {
        Some(n) => *n,
        None => 0,
    };
    if before >= max_retries {
        retries.insert(index, before);
        return None;
    }
    let attempt: u8 = before.saturating_add(1);
    retries.insert(index, attempt);
    Some(attempt)
}

/// How many chunks may be under way at once: at least one, unless none is configured.
pub fn effective_concurrency(concurrency: usize, max_concurrency: usize) -> (n: usize)
    ensures
        n == (if concurrency == 0 && max_concurrency > 0 {
            1
        } else if concurrency <= max_concurrency {
            concurrency
        } else {
            max_concurrency
        }),
{
    let wanted: usize = if concurrency == 0 {
        1
    } else {
        concurrency
    };
    if wanted <= max_concurrency {
        wanted
    } else {
        max_concurrency
    }
}

/// The chunks that need not be sent: those that either answer of the other end names.
pub fn chunks_to_skip(existing: &[u32], skip: &[u32]) -> (chunks: BTreeSet<u32>)
    ensures
        forall|k: u32| #[trigger]
            chunks@.contains(k) <==> existing@.contains(k) || skip@.contains(k),
{
    let mut chunks: BTreeSet<u32> = BTreeSet::new();
    let n: usize = existing.len();
    let mut i: usize = 0;
    while i < n
        invariant
            i <= n,
            n == existing@.len(),
            forall|k: u32| #[trigger] chunks@.contains(k) <==> existing@.take(i as int).contains(k),
        decreases n - i,
    {
        let ghost before = chunks@;
        chunks.insert(existing[i]);
        proof {
            prefix_grows(existing@, i as int);
            assert forall|k: u32| #[trigger] chunks@.contains(k) <==> existing@.take(
                i + 1,
            ).contains(k) by {
                assert(before.contains(k) <==> existing@.take(i as int).contains(k));
            }
        }
        i = i + 1;
    }
    assert(existing@.take(n as int) =~= existing@);
    let m: usize = skip.len();
    let mut j: usize = 0;
    assert(skip@.take(0) =~= Seq::<u32>::empty());
    while j < m
        invariant
            j <= m,
            m == skip@.len(),
            forall|k: u32| #[trigger]
                chunks@.contains(k) <==> existing@.contains(k) || skip@.take(j as int).contains(k),
        decreases m - j,
    {
        let ghost before = chunks@;
        chunks.insert(skip[j]);
        proof {
            prefix_grows(skip@, j as int);
            assert forall|k: u32| #[trigger] chunks@.contains(k) <==> existing@.contains(k)
                || skip@.take(j + 1).contains(k) by {
                assert(before.contains(k) <==> existing@.contains(k) || skip@.take(j as int).contains(
                    k,
                ));
            }
        }
        j = j + 1;
    }
    assert(skip@.take(m as int) =~= skip@);
    chunks
}

proof fn prefix_grows(s: Seq<u32>, i: int)
    requires
        0 <= i < s.len(),
    ensures
        forall|k: u32| #[trigger] s.take(i + 1).contains(k) <==> s.take(i).contains(k) || k == s[i],
{
    let shorter = s.take(i);
    let longer = s.take(i + 1);
    assert forall|k: u32| #[trigger] longer.contains(k) <==> shorter.contains(k) || k == s[i] by {
        if longer.contains(k) {
            let j = choose|j: int| 0 <= j < longer.len() && longer[j] == k;
            if j < i {
                assert(shorter[j] == k);
            }
        }
        if shorter.contains(k) {
            let j = choose|j: int| 0 <= j < shorter.len() && shorter[j] == k;
            assert(longer[j] == k);
        }
        assert(longer[i] == s[i]);
    }
}

impl SendLoop {
    /// The loop before its first chunk.
    pub fn new(session: TransferSession, skip: &BTreeSet<u32>, concurrency: usize) -> (r: Self)
        ensures
            r@ == loop_start(session@, skip@, concurrency),
    {
        let ghost start = session@;
        let ghost keep = |i: u32| !skip@.contains(i);
        let list = sorted_members_u32(skip);
        proof {
            ascending_is_u32(skip@, list@);
        }
        let mut session = session;
        let mut progress = TransferProgress::new(session.manifest.file_size);
        let mut i: usize = 0;
        proof {
            assert(list@.take(0) =~= Seq::<u32>::empty());
            assert(session@.tracker =~= all_marked(start.tracker, list@.take(0).to_set()));
        }
        while i < list.len()
            invariant
                i <= list@.len(),
                session@ == (SessionView {
                    tracker: all_marked(start.tracker, list@.take(i as int).to_set()),
                    ..start
                }),
                progress == progress_of(
                    no_progress(start.manifest.file_size),
                    start.manifest.chunks,
                    list@.take(i as int),
                ),
            decreases list@.len() - i,
        {
            let index: u32 = list[i];
            let ghost shorter = list@.take(i as int);
            let ghost longer = list@.take(i + 1);
            let ghost before = session@.tracker;
            proof {
                assert(longer.drop_last() =~= shorter);
                assert(longer.last() == index);
                prefix_grows(list@, i as int);
            }
            session.chunk_tracker.mark_completed(index);
            if (index as usize) < session.manifest.chunks.len() {
                progress.update(session.manifest.chunks[index as usize].size as u64, 1);
            }
            i = i + 1;
            proof {
                assert forall|k: u32| longer.to_set().contains(k) <==> #[trigger]
                    shorter.to_set().insert(index).contains(k) by {
                    assert(longer.contains(k) <==> shorter.contains(k) || k == index);
                }
                assert(longer.to_set() =~= shorter.to_set().insert(index));
                assert(chunk_completed(before, index) =~= all_marked(
                    start.tracker,
                    longer.to_set(),
                ));
                assert(session@ =~= (SessionView {
                    tracker: all_marked(start.tracker, longer.to_set()),
                    ..start
                }));
            }
        }
        proof {
            assert(list@.take(list@.len() as int) =~= list@);
            assert forall|k: u32| list@.to_set().contains(k) <==> #[trigger] skip@.contains(k) by {
                assert(skip@.contains(k) <==> list@.contains(k));
            }
            assert(list@.to_set() =~= skip@);
        }
        let ghost all = all_chunks(start.manifest.chunk_count);
        let mut pending: Vec<u32> = Vec::new();
        let mut index: u32 = 0;
        proof {
            reveal(Seq::filter);
            assert(all.take(0).filter(keep) =~= Seq::<u32>::empty());
        }
        while index < session.manifest.chunk_count
            invariant
                session@.manifest == start.manifest,
                index <= session.manifest.chunk_count,
                all == all_chunks(start.manifest.chunk_count),
                keep == (|i: u32| !skip@.contains(i)),
                pending@ == all.take(index as int).filter(keep),
            decreases session.manifest.chunk_count - index,
        {
            proof {
                reveal(Seq::filter);
                assert(all.take(index + 1).drop_last() =~= all.take(index as int));
                assert(all.take(index + 1).last() == index);
            }
            if !skip.contains(&index) {
                pending.push(index);
            }
            index = index + 1;
        }
        assert(all.take(all.len() as int) =~= all);
        let r = SendLoop {
            session,
            progress,
            pending,
            in_flight: BTreeMap::new(),
            retries: BTreeMap::new(),
            scheduled: Vec::new(),
            concurrency,
            skipped: skip.len(),
        };
        assert(r@ =~= loop_start(start, skip@, concurrency));
        r
    }

    /// The transfer.
    pub fn session(&self) -> (session: &TransferSession)
        ensures
            session@ == self@.session,
    {
        &self.session
    }

    /// The progress.
    pub fn progress(&self) -> (progress: TransferProgress)
        ensures
            progress == self@.progress,
    {
        self.progress
    }

    /// How many chunks are under way.
    pub fn chunks_in_flight(&self) -> (n: usize)
        ensures
            n == self@.in_flight.dom().len(),
    {
        self.in_flight.len()
    }

    /// When a chunk that is under way was sent.
    pub fn started_at(&self, index: u32) -> (started: Option<Instant>)
        ensures
            started == (if self@.in_flight.contains_key(index) {
                Some(self@.in_flight[index])
            } else {
                None
            }),
    {
        match self.in_flight.get(&index) {
            Some(started) => Some(*started),
            None => None,
        }
    }

    /// What to do before the next wait. `control` is what the transfer is told.
    pub fn step(&mut self, control: TransferControlState, now: Instant) -> (step: SendStep)
        ensures
            match step {
                SendStep::Finished => loop_is_over(old(self)@) && final(self)@ == old(self)@,
                SendStep::WaitForControl => {
                    &&& !loop_is_over(old(self)@)
                    &&& control is Paused
                    &&& final(self)@ == old(self)@
                },
                SendStep::Cancelled => {
                    &&& !loop_is_over(old(self)@)
                    &&& control is Cancelled
                    &&& final(self)@ == old(self)@
                },
                SendStep::Launch(chunks) => {
                    &&& !loop_is_over(old(self)@)
                    &&& control is Running
                    &&& final(self)@ == launched(old(self)@, now)
                    &&& old(self)@.pending == chunks@ + final(self)@.pending
                },
            },
    {
        let ghost start = self@;
        if self.pending.len() == 0 && self.in_flight.len() == 0 && self.scheduled.len() == 0 {
            return SendStep::Finished;
        }
        match control {
            TransferControlState::Paused => {
                return SendStep::WaitForControl;
            },
            TransferControlState::Cancelled => {
                return SendStep::Cancelled;
            },
            TransferControlState::Running => {},
        }
        let mut chunks: Vec<u32> = Vec::new();
        assert(start.pending =~= chunks@ + self@.pending);
        while self.in_flight.len() < self.concurrency && self.pending.len() > 0
            invariant
                launched(self@, now) == launched(start, now),
                start.pending == chunks@ + self@.pending,
            decreases self.pending@.len(),
        {
            let ghost before = self@;
            let index: u32 = self.pending.remove(0);
            self.in_flight.insert(index, now);
            chunks.push(index);
            proof {
                assert(self@.pending =~= before.pending.skip(1));
                assert(self@ =~= (SendView {
                    pending: before.pending.skip(1),
                    in_flight: before.in_flight.insert(before.pending[0], now),
                    ..before
                }));
                assert(start.pending =~= chunks@ + self@.pending);
            }
        }
        SendStep::Launch(chunks)
    }

    fn give_up(&mut self, error: FileTransferError, now: WallTime) -> (action: SendAction)
        ensures
            (final(self)@, action@) == given_up(old(self)@, error@, now),
    {
        self.session.fail(error.message(), now);
        SendAction::Fail(error)
    }

    fn retry_or_give_up(&mut self, index: u32, error: FileTransferError, now: WallTime) -> (action: SendAction)
        ensures
            (final(self)@, action@) == again_or_never(old(self)@, index, error@, now),
    {
        let ghost before = self@;
        let max_retries: u8 = self.session.options.retry_policy.max_retries;
        match should_retry(&mut self.retries, index, max_retries) {
            Some(attempt) => {
                self.scheduled.push(index);
                SendAction::Retry { index, attempt }
            },
            None => {
                assert(self@ =~= (SendView {
                    retries: after_question(before.retries, index, max_retries),
                    ..before
                }));
                self.give_up(error, now)
            },
        }
    }

    /// A chunk was sent, or could not be.
    pub fn on_sent(&mut self, index: u32, result: Result<(), FileTransferError>, now: WallTime) -> (action: SendAction)
        ensures
            match result {
                Ok(()) => final(self)@ == old(self)@ && action@ is Continue,
                Err(error) => (final(self)@, action@) == after_send_failure(
                    old(self)@,
                    index,
                    error@,
                    now,
                ),
            },
    {
        match result {
            Ok(()) => SendAction::Continue,
            Err(error) => {
                self.in_flight.remove(&index);
                self.retry_or_give_up(index, error, now)
            },
        }
    }

    /// The delay for a chunk is over.
    pub fn on_retry_due(&mut self, index: u32)
        ensures
            final(self)@ == after_delay(old(self)@, index),
    {
        let ghost before = self@;
        let mut i: usize = 0;
        while i < self.scheduled.len() && self.scheduled[i] != index
            invariant
                *self == *old(self),
                i <= self.scheduled@.len(),
                forall|j: int| 0 <= j < i ==> self.scheduled@[j] != index,
            decreases self.scheduled@.len() - i,
        {
            i = i + 1;
        }
        if i < self.scheduled.len() {
            proof {
                first_place_is_removed(before.scheduled, index, i as int);
            }
            self.scheduled.remove(i);
        } else {
            proof {
                absent_number_is_not_removed(before.scheduled, index);
            }
        }
        if !self.session.chunk_tracker.completed.contains(&index) && !self.in_flight.contains_key(
            &index,
        ) {
            self.pending.push(index);
        }
        assert(self@ =~= after_delay(before, index));
    }

    fn on_ack(&mut self, ack: ChunkAck, now: WallTime) -> (action: SendAction)
        ensures
            (final(self)@, action@) == after_ack(old(self)@, ack, now),
    {
        let ghost before = self@;
        let index: u32 = ack.index;
        match self.in_flight.remove(&index) {
            Some(_) => {},
            None => {
                assert(self@ =~= before);
                return SendAction::Continue;
            },
        }
        if ack.verified {
            self.session.chunk_tracker.mark_completed(index);
            if (index as usize) < self.session.manifest.chunks.len() {
                let size: u32 = self.session.manifest.chunks[index as usize].size;
                self.progress.update(size as u64, 1);
            }
            assert(self@.session =~= (SessionView {
                tracker: chunk_completed(before.session.tracker, index),
                ..before.session
            }));
            return SendAction::Continue;
        }
        self.session.chunk_tracker.mark_failed(index);
        assert(self@.session =~= (SessionView {
            tracker: chunk_failed(before.session.tracker, index),
            ..before.session
        }));
        let action = self.retry_or_give_up(
            index,
            FileTransferError::MaxRetriesExceeded { index },
            now,
        );
        if let SendAction::Retry { .. } = action {
            if let Some(text) = ack.error {
                self.session.fail(text, now);
            }
        }
        action
    }

    /// A message came in, or none will.
    pub fn on_message(&mut self, message: Result<FileTransferMessage, FileTransferError>, now: WallTime) -> (action: SendAction)
        ensures
            match message {
                Ok(message) => (final(self)@, action@) == after_message(old(self)@, message, now),
                Err(error) => (final(self)@, action@) == given_up(old(self)@, error@, now),
            },
    {
        match message {
            Err(error) => self.give_up(error, now),
            Ok(FileTransferMessage::ChunkAck(ack)) => self.on_ack(ack, now),
            Ok(FileTransferMessage::Error(error)) => self.give_up(
                FileTransferError::Transport(error.message),
                now,
            ),
            Ok(FileTransferMessage::Cancel(_)) => {
                self.session.control = TransferControlState::Cancelled;
                self.cancel(now);
                SendAction::Cancel
            },
            Ok(_) => SendAction::Continue,
        }
    }

    /// Stops: the transfer was cancelled.
    pub fn cancel(&mut self, now: WallTime)
        ensures
            final(self)@ == (SendView {
                session: cancelled_with(old(self)@.session, "cancelled"@, now),
                ..old(self)@
            }),
    {
        self.session.cancel(String::from_str("cancelled"), now);
    }

    /// Gives the transfer up with an error from outside the loop.
    pub fn fail(&mut self, error: &FileTransferError, now: WallTime)
        ensures
            final(self)@ == (SendView {
                session: failed_with(old(self)@.session, error_text(error@), now),
                ..old(self)@
            }),
    {
        self.session.fail(error.message(), now);
    }

    /// Whether every chunk has arrived once the loop is over, and if so, whether the other
    /// end's word that the file is in its place is still to come. It is not where no chunk
    /// was sent.
    pub fn conclude(&mut self, now: WallTime) -> (r: Result<bool, FileTransferError>)
        ensures
            match r {
                Ok(wait) => {
                    &&& all_arrived(old(self)@.session.tracker)
                    &&& wait == (old(self)@.skipped != old(self)@.session.manifest.chunk_count)
                    &&& final(self)@ == old(self)@
                },
                Err(error) => {
                    &&& !all_arrived(old(self)@.session.tracker)
                    &&& error@ == ErrorView::Internal("transfer incomplete after sending chunks"@)
                    &&& final(self)@ == (SendView {
                        session: failed_with(old(self)@.session, error_text(error@), now),
                        ..old(self)@
                    })
                },
            },
    {
        if !self.session.chunk_tracker.is_complete() {
            let error = internal("transfer incomplete after sending chunks");
            self.session.fail(error.message(), now);
            return Err(error);
        }
        Ok(self.skipped as u64 != self.session.manifest.chunk_count as u64)
    }

    /// Whether the source is removed once the file is in its place.
    pub fn removes_source(&self, delete_source: bool) -> (removes: bool)
        ensures
            removes == (delete_source && self@.session.options.mode is Move),
    {
        delete_source && match self.session.options.mode {
            TransferMode::Move => true,
            TransferMode::Copy => false,
        }
    }

    /// The file is in its place.
    pub fn complete(&mut self, now: WallTime)
        ensures
            final(self)@ == (SendView {
                session: SessionView {
                    state: TransferState::Completed,
                    updated_at: now,
                    ..old(self)@.session
                },
                ..old(self)@
            }),
    {
        self.session.set_state(TransferState::Completed, now);
    }
}

proof fn first_place_is_removed(list: Seq<u32>, x: u32, i: int)
    requires
        0 <= i < list.len(),
        list[i] == x,
        forall|j: int| 0 <= j < i ==> list[j] != x,
    ensures
        without_first(list, x) == list.remove(i),
    decreases list.len(),
{
    if i == 0 {
        assert(list.skip(1) =~= list.remove(0));
    } else {
        let rest = list.skip(1);
        assert forall|j: int| 0 <= j < i - 1 implies rest[j] != x by {
            assert(rest[j] == list[j + 1]);
        }
        first_place_is_removed(rest, x, i - 1);
        assert(seq![list[0]] + rest.remove(i - 1) =~= list.remove(i));
    }
}

proof fn absent_number_is_not_removed(list: Seq<u32>, x: u32)
    requires
        forall|j: int| 0 <= j < list.len() ==> list[j] != x,
    ensures
        without_first(list, x) == list,
    decreases list.len(),
{
    if list.len() > 0 {
        let rest = list.skip(1);
        assert forall|j: int| 0 <= j < rest.len() implies rest[j] != x by {
            assert(rest[j] == list[j + 1]);
        }
        absent_number_is_not_removed(rest, x);
        assert(seq![list[0]] + rest =~= list);
    }
}

proof fn others_stay(list: Seq<u32>, x: u32, k: u32)
    ensures
        k != x && list.contains(k) ==> without_first(list, x).contains(k),
        without_first(list, x).contains(k) ==> list.contains(k),
    decreases list.len(),
{
    if list.len() > 0 {
        let rest = list.skip(1);
        others_stay(rest, x, k);
        if list.contains(k) {
            let j = choose|j: int| 0 <= j < list.len() && list[j] == k;
            if j > 0 {
                assert(rest[j - 1] == k);
            }
        }
        if rest.contains(k) {
            let j = choose|j: int| 0 <= j < rest.len() && rest[j] == k;
            assert(list[j + 1] == k);
        }
        let shorter = without_first(rest, x);
        let after = seq![list[0]] + shorter;
        if shorter.contains(k) {
            let j = choose|j: int| 0 <= j < shorter.len() && shorter[j] == k;
            assert(after[j + 1] == k);
        }
        assert(after[0] == list[0]);
        if after.contains(k) {
            let j = choose|j: int| 0 <= j < after.len() && after[j] == k;
            if j > 0 {
                assert(shorter[j - 1] == k);
            } else {
                assert(list[0] == k);
            }
        }
    }
}

/// Whether the other end says that the very file that was sent is in its place.
pub open spec fn confirms(
    done: TransferComplete,
    expected_bytes: u64,
    expected_hash: Seq<u8>,
    expected_algorithm: HashAlgorithm,
) -> bool {
    done.bytes_transferred == expected_bytes && done.file_hash@ == expected_hash
        && done.hash_algorithm == expected_algorithm
}

/// What the last word of the other end comes to.
pub open spec fn last_word(
    sender: NodeId,
    target: NodeId,
    message: FileTransferMessage,
    expected_bytes: u64,
    expected_hash: Seq<u8>,
    expected_algorithm: HashAlgorithm,
) -> Result<(), ErrorView> {
    if sender != target {
        Err(ErrorView::Transport("receiver completion came from an unexpected peer"@))
    } else {
        match message {
            FileTransferMessage::Complete(done) => if confirms(
                done,
                expected_bytes,
                expected_hash,
                expected_algorithm,
            ) {
                Ok(())
            } else {
                Err(ErrorView::FileHashMismatch)
            },
            FileTransferMessage::Error(error) => Err(ErrorView::Transport(error.message@)),
            FileTransferMessage::Cancel(_) => Err(ErrorView::Cancelled),
            _ => Err(ErrorView::Internal("unexpected receiver completion message"@)),
        }
    }
}

/// What the last word of the other end comes to.
pub fn check_completion(
    sender: NodeId,
    target: NodeId,
    message: &FileTransferMessage,
    expected_bytes: u64,
    expected_hash: &[u8],
    expected_algorithm: HashAlgorithm,
) -> (r: Result<(), FileTransferError>)
    ensures
        crate::transfer::error::outcome(r) == last_word(
            sender,
            target,
            *message,
            expected_bytes,
            expected_hash@,
            expected_algorithm,
        ),
{
    if sender != target {
        return Err(
            FileTransferError::Transport(
                String::from_str("receiver completion came from an unexpected peer"),
            ),
        );
    }
    match message {
        FileTransferMessage::Complete(done) => {
            if done.bytes_transferred == expected_bytes && bytes_equal(
                done.file_hash.as_slice(),
                expected_hash,
            ) && done.hash_algorithm == expected_algorithm {
                Ok(())
            } else {
                Err(FileTransferError::FileHashMismatch)
            }
        },
        FileTransferMessage::Error(error) => Err(
            FileTransferError::Transport(error.message.clone()),
        ),
        FileTransferMessage::Cancel(_) => Err(FileTransferError::Cancelled),
        _ => Err(internal("unexpected receiver completion message")),
    }
}

/// Whether no chunk is lost: each has arrived, waits, is under way or waits to be sent again,
/// and no number that is not a chunk's is among them.
pub open spec fn nothing_is_lost(s: SendView) -> bool {
    let total = s.session.tracker.total_chunks;
    &&& s.session.tracker.completed.finite()
    &&& s.in_flight.dom().finite()
    &&& forall|i: u32|
        i < total ==> #[trigger] is_somewhere(s, i)
    &&& forall|i: u32| #[trigger] is_somewhere(s, i) ==> i < total
}

/// Whether a chunk has arrived, waits, is under way or waits to be sent again.
pub open spec fn is_somewhere(s: SendView, i: u32) -> bool {
    s.session.tracker.completed.contains(i) || s.pending.contains(i) || s.in_flight.contains_key(i)
        || s.scheduled.contains(i)
}

/// At the start no chunk is lost, where the other end names no chunk that is not there.
pub proof fn no_chunk_is_lost_at_the_start(s: SessionView, skip: Set<u32>, concurrency: usize)
    requires
        s.tracker.total_chunks == s.manifest.chunk_count,
        s.tracker.completed.finite(),
        skip.finite(),
        forall|i: u32| #[trigger] skip.contains(i) ==> i < s.manifest.chunk_count,
        forall|i: u32| #[trigger] s.tracker.completed.contains(i) ==> i < s.manifest.chunk_count,
    ensures
        nothing_is_lost(loop_start(s, skip, concurrency)),
{
    let start = loop_start(s, skip, concurrency);
    let all = all_chunks(s.manifest.chunk_count);
    let keep = |i: u32| !skip.contains(i);
    assert forall|i: u32| i < s.manifest.chunk_count implies #[trigger] is_somewhere(start, i) by {
        assert(all[i as int] == i);
        if !skip.contains(i) {
            all.lemma_filter_contains(keep, i as int);
        }
    }
    assert forall|i: u32| #[trigger] is_somewhere(start, i) implies i < s.manifest.chunk_count by {
        if start.pending.contains(i) {
            all.lemma_filter_contains_rev(keep, i);
        }
    }
}

/// Sending the chunks that wait loses none.
pub proof fn launching_loses_no_chunk(s: SendView, now: Instant)
    requires
        nothing_is_lost(s),
    ensures
        nothing_is_lost(launched(s, now)),
    decreases s.pending.len(),
{
    if s.pending.len() > 0 && s.in_flight.dom().len() < s.concurrency {
        let next = SendView {
            pending: s.pending.skip(1),
            in_flight: s.in_flight.insert(s.pending[0], now),
            ..s
        };
        assert forall|i: u32| #[trigger] is_somewhere(next, i) <==> is_somewhere(s, i) by {
            if s.pending.contains(i) {
                let k = choose|k: int| 0 <= k < s.pending.len() && s.pending[k] == i;
                if k > 0 {
                    assert(next.pending[k - 1] == i);
                }
            }
            if next.pending.contains(i) {
                let k = choose|k: int| 0 <= k < next.pending.len() && next.pending[k] == i;
                assert(s.pending[k + 1] == i);
            }
            assert(s.pending.contains(s.pending[0]));
        }
        assert(next.in_flight.dom() =~= s.in_flight.dom().insert(s.pending[0]));
        launching_loses_no_chunk(next, now);
    }
}

/// No more chunks than allowed are ever under way.
pub proof fn concurrency_is_bounded(s: SendView, now: Instant)
    requires
        s.in_flight.dom().finite(),
        s.in_flight.dom().len() <= s.concurrency,
    ensures
        launched(s, now).in_flight.dom().len() <= s.concurrency,
    decreases s.pending.len(),
{
    if s.pending.len() > 0 && s.in_flight.dom().len() < s.concurrency {
        let next = SendView {
            pending: s.pending.skip(1),
            in_flight: s.in_flight.insert(s.pending[0], now),
            ..s
        };
        assert(next.in_flight.dom() =~= s.in_flight.dom().insert(s.pending[0]));
        concurrency_is_bounded(next, now);
    }
}

proof fn retrying_loses_no_chunk(s: SendView, i: u32, error: ErrorView, now: WallTime)
    requires
        s.session.tracker.completed.finite(),
        s.in_flight.dom().finite(),
        i < s.session.tracker.total_chunks,
        forall|k: u32| k < s.session.tracker.total_chunks && k != i ==> #[trigger] is_somewhere(s, k),
        forall|k: u32| #[trigger] is_somewhere(s, k) ==> k < s.session.tracker.total_chunks,
        again_or_never(s, i, error, now).1 is Retry,
    ensures
        nothing_is_lost(again_or_never(s, i, error, now).0),
{
    let next = again_or_never(s, i, error, now).0;
    assert forall|k: u32| #[trigger] is_somewhere(next, k) <==> is_somewhere(s, k) || k == i by {
        if s.scheduled.contains(k) {
            let j = choose|j: int| 0 <= j < s.scheduled.len() && s.scheduled[j] == k;
            assert(next.scheduled[j] == k);
        }
        if next.scheduled.contains(k) {
            let j = choose|j: int| 0 <= j < next.scheduled.len() && next.scheduled[j] == k;
            if j < s.scheduled.len() {
                assert(s.scheduled[j] == k);
            }
        }
        assert(next.scheduled[s.scheduled.len() as int] == i);
    }
}

/// A chunk that could not be sent is not lost, unless the transfer is given up.
pub proof fn failure_loses_no_chunk(s: SendView, i: u32, error: ErrorView, now: WallTime)
    requires
        nothing_is_lost(s),
        i < s.session.tracker.total_chunks,
        after_send_failure(s, i, error, now).1 is Retry,
    ensures
        nothing_is_lost(after_send_failure(s, i, error, now).0),
{
    let landed = SendView { in_flight: s.in_flight.remove(i), ..s };
    assert forall|k: u32| k != i implies (#[trigger] is_somewhere(landed, k) <==> is_somewhere(s, k)) by {}
    assert(is_somewhere(landed, i) ==> is_somewhere(s, i));
    assert(landed.in_flight.dom() =~= s.in_flight.dom().remove(i));
    retrying_loses_no_chunk(landed, i, error, now);
}

/// A chunk whose delay is over is not lost.
pub proof fn delay_loses_no_chunk(s: SendView, i: u32)
    requires
        nothing_is_lost(s),
        s.scheduled.contains(i),
    ensures
        nothing_is_lost(after_delay(s, i)),
{
    let next = after_delay(s, i);
    assert(is_somewhere(s, i));
    assert forall|k: u32| #[trigger] is_somewhere(next, k) <==> is_somewhere(s, k) by {
        others_stay(s.scheduled, i, k);
        if s.pending.contains(k) {
            let j = choose|j: int| 0 <= j < s.pending.len() && s.pending[j] == k;
            assert(next.pending[j] == k);
        }
        if next.pending.contains(k) {
            let j = choose|j: int| 0 <= j < next.pending.len() && next.pending[j] == k;
            if j < s.pending.len() {
                assert(s.pending[j] == k);
            }
        }
        if !s.session.tracker.completed.contains(i) && !s.in_flight.contains_key(i) {
            assert(next.pending[s.pending.len() as int] == i);
        }
    }
}

/// What the other end says of a chunk loses none, unless the transfer is given up.
pub proof fn ack_loses_no_chunk(s: SendView, ack: ChunkAck, now: WallTime)
    requires
        nothing_is_lost(s),
        !(after_ack(s, ack, now).1 is Fail),
    ensures
        nothing_is_lost(after_ack(s, ack, now).0),
{
    let i = ack.index;
    if s.in_flight.contains_key(i) {
        assert(is_somewhere(s, i));
        let landed = SendView { in_flight: s.in_flight.remove(i), ..s };
        assert(landed.in_flight.dom() =~= s.in_flight.dom().remove(i));
        let next = after_ack(s, ack, now).0;
        if ack.verified {
            assert forall|k: u32| #[trigger] is_somewhere(next, k) <==> is_somewhere(s, k) by {}
        } else {
            let harmed = SendView {
                session: SessionView { tracker: chunk_failed(s.session.tracker, i), ..s.session },
                ..landed
            };
            assert forall|k: u32| k != i implies (#[trigger] is_somewhere(harmed, k)
                <==> is_somewhere(s, k)) by {}
            assert(is_somewhere(harmed, i) ==> is_somewhere(s, i));
            retrying_loses_no_chunk(harmed, i, ErrorView::MaxRetriesExceeded(i), now);
            let again = again_or_never(harmed, i, ErrorView::MaxRetriesExceeded(i), now).0;
            assert forall|k: u32| #[trigger] is_somewhere(next, k) <==> is_somewhere(again, k) by {}
        }
    }
}

proof fn full_set_has_all(s: Set<u32>, total: u32)
    requires
        s.finite(),
        forall|i: u32| #[trigger] s.contains(i) <==> i < total,
    ensures
        s.len() == total,
    decreases total,
{
    if total == 0 {
        assert(s =~= Set::empty());
    } else {
        let last = (total - 1) as u32;
        assert forall|i: u32| #[trigger] s.remove(last).contains(i) <==> i < last by {
            assert(s.contains(i) <==> i < total);
        }
        assert(s.contains(last));
        full_set_has_all(s.remove(last), last);
    }
}

/// Where no chunk was lost, every chunk has arrived once the loop is over.
pub proof fn every_chunk_has_arrived_at_the_end(s: SendView)
    requires
        nothing_is_lost(s),
        loop_is_over(s),
    ensures
        forall|i: u32| #[trigger]
            s.session.tracker.completed.contains(i) <==> i < s.session.tracker.total_chunks,
        all_arrived(s.session.tracker),
{
    assert(s.in_flight.dom() =~= Set::empty());
    assert forall|i: u32| #[trigger]
        s.session.tracker.completed.contains(i) <==> i < s.session.tracker.total_chunks by {
        assert(is_somewhere(s, i) <==> s.session.tracker.completed.contains(i)) by {
            assert(!s.in_flight.dom().contains(i));
        }
    }
    full_set_has_all(s.session.tracker.completed, s.session.tracker.total_chunks);
}

/// A chunk is sent again at most as often as is allowed, and then the transfer is given up.
pub proof fn retries_are_bounded(s: SendView, i: u32, error: ErrorView, now: WallTime)
    requires
        times_retried(s.retries, i) <= s.session.options.retry_policy.max_retries,
    ensures
        times_retried(again_or_never(s, i, error, now).0.retries, i)
            <= s.session.options.retry_policy.max_retries,
        times_retried(s.retries, i) == s.session.options.retry_policy.max_retries ==> again_or_never(
            s,
            i,
            error,
            now,
        ).1 == ActionView::Fail(error),
{
}

/// A chunk that was never sent again is sent again exactly as often as is allowed, however often
/// it is asked: the next time each time, and then never. What is noted of it ends at the allowed
/// number, and what is noted of others stays.
pub proof fn exactly_the_allowed_retries_are_granted(
    retries: Map<u32, u8>,
    i: u32,
    max_retries: u8,
    count: nat,
)
    requires
        !retries.contains_key(i),
    ensures
        ({
            let after = after_questions(retries, i, max_retries, count);
            &&& next_attempt(after, i, max_retries) == (if count < max_retries {
                Some((count + 1) as u8)
            } else {
                None
            })
            &&& count > 0 ==> after.contains_key(i) && after[i] == (if count < max_retries {
                count as int
            } else {
                max_retries as int
            })
            &&& after.remove(i) == retries
        }),
    decreases count,
{
    if count == 0 {
        assert(retries.remove(i) =~= retries);
    } else {
        let fewer = (count - 1) as nat;
        exactly_the_allowed_retries_are_granted(retries, i, max_retries, fewer);
        let before = after_questions(retries, i, max_retries, fewer);
        let after = after_questions(retries, i, max_retries, count);
        assert(after == after_question(before, i, max_retries));
        assert(after.remove(i) =~= before.remove(i));
    }
}

/// Chunks set out in the order in which they wait, each from now on, until none waits or as many
/// are under way as may be; nothing else changes.
pub proof fn chunks_set_out_in_order(s: SendView, now: Instant)
    requires
        s.in_flight.dom().finite(),
        s.pending.no_duplicates(),
        forall|i: int| 0 <= i < s.pending.len() ==> !s.in_flight.contains_key(#[trigger] s.pending[i]),
    ensures
        ({
            let after = launched(s, now);
            let n = s.pending.len() - after.pending.len();
            &&& 0 <= n <= s.pending.len()
            &&& after.pending == s.pending.skip(n)
            &&& after.pending.len() == 0 || after.in_flight.dom().len() >= s.concurrency
            &&& after.in_flight.dom().finite()
            &&& after.in_flight.dom().len() == s.in_flight.dom().len() + n
            &&& forall|i: int|
                0 <= i < n ==> after.in_flight.contains_key(#[trigger] s.pending[i])
                    && after.in_flight[s.pending[i]] == now
            &&& forall|k: u32| #[trigger]
                s.in_flight.contains_key(k) ==> after.in_flight.contains_key(k)
                    && after.in_flight[k] == s.in_flight[k]
            &&& forall|k: u32| #[trigger]
                after.in_flight.contains_key(k) ==> s.in_flight.contains_key(k)
                    || s.pending.contains(k)
            &&& after == (SendView {
                pending: after.pending,
                in_flight: after.in_flight,
                ..s
            })
        }),
    decreases s.pending.len(),
{
    if s.pending.len() == 0 || s.in_flight.dom().len() >= s.concurrency {
        assert(s.pending.skip(0) =~= s.pending);
    } else {
        let first = s.pending[0];
        let one = SendView {
            pending: s.pending.skip(1),
            in_flight: s.in_flight.insert(first, now),
            ..s
        };
        assert forall|i: int| 0 <= i < one.pending.len() implies !one.in_flight.contains_key(
            #[trigger] one.pending[i],
        ) by {
            assert(one.pending[i] == s.pending[i + 1]);
        }
        assert(one.in_flight.dom() =~= s.in_flight.dom().insert(first));
        chunks_set_out_in_order(one, now);
        let after = launched(s, now);
        let n = s.pending.len() - after.pending.len();
        assert(one.pending.skip(n - 1) =~= s.pending.skip(n));
        assert forall|i: int| 0 <= i < n implies after.in_flight.contains_key(
            #[trigger] s.pending[i],
        ) && after.in_flight[s.pending[i]] == now by {
            if i == 0 {
                assert(one.in_flight.contains_key(first));
            } else {
                assert(one.pending[i - 1] == s.pending[i]);
            }
        }
        assert forall|k: u32| #[trigger] s.in_flight.contains_key(k) implies after.in_flight.contains_key(
            k,
        ) && after.in_flight[k] == s.in_flight[k] by {
            assert(one.in_flight.contains_key(k));
        }
        assert forall|k: u32| #[trigger] after.in_flight.contains_key(k) implies s.in_flight.contains_key(
            k,
        ) || s.pending.contains(k) by {
            if one.pending.contains(k) {
                let j = choose|j: int| 0 <= j < one.pending.len() && one.pending[j] == k;
                assert(s.pending[j + 1] == k);
            }
        }
    }
}

/// A chunk that failed is sent again, with the number of the attempt, as long as it may be, and
/// else the transfer fails with the error. What is under way and what has arrived stays.
pub proof fn failed_chunk_is_sent_again_while_it_may_be(
    s: SendView,
    i: u32,
    error: ErrorView,
    now: WallTime,
    other: u32,
)
    ensures
        ({
            let (after, action) = again_or_never(s, i, error, now);
            let times: int = if s.retries.contains_key(i) {
                s.retries[i] as int
            } else {
                0
            };
            let may = times < s.session.options.retry_policy.max_retries;
            &&& may ==> action == ActionView::Retry(i, (times + 1) as u8) && after.scheduled
                == s.scheduled.push(i) && after.retries.contains_key(i) && after.retries[i] == times
                + 1 && after.session == s.session
            &&& !may ==> action == ActionView::Fail(error) && after.scheduled == s.scheduled
                && after.session.state is Failed && after.session.error == Some(error_text(error))
                && after.session.tracker == s.session.tracker
            &&& other != i ==> after.retries.contains_key(other) == s.retries.contains_key(other)
            &&& other != i && s.retries.contains_key(other) ==> after.retries[other]
                == s.retries[other]
            &&& after.pending == s.pending
            &&& after.in_flight == s.in_flight
            &&& after.progress == s.progress
            &&& after.concurrency == s.concurrency
            &&& after.skipped == s.skipped
        }),
{
}

/// A chunk that could not be sent is no longer under way, and all others still are.
pub proof fn unsent_chunk_is_no_longer_under_way(
    s: SendView,
    i: u32,
    error: ErrorView,
    now: WallTime,
    other: u32,
)
    ensures
        ({
            let after = after_send_failure(s, i, error, now).0;
            &&& !after.in_flight.contains_key(i)
            &&& other != i ==> after.in_flight.contains_key(other) == s.in_flight.contains_key(other)
            &&& other != i && s.in_flight.contains_key(other) ==> after.in_flight[other]
                == s.in_flight[other]
            &&& after.pending == s.pending
            &&& after.session.tracker == s.session.tracker
        }),
{
}

/// The first of several equal entries is taken out of a list, and nothing else.
pub proof fn first_entry_is_taken_out(list: Seq<u32>, x: u32)
    ensures
        !list.contains(x) ==> without_first(list, x) == list,
        list.contains(x) ==> exists|k: int|
            0 <= k < list.len() && #[trigger] list[k] == x && !list.take(k).contains(x)
                && without_first(list, x) == list.remove(k),
    decreases list.len(),
{
    if list.len() > 0 {
        let rest = list.skip(1);
        first_entry_is_taken_out(rest, x);
        if list[0] == x {
            assert(list.contains(x));
            assert(list.take(0) =~= Seq::empty());
            assert(list.remove(0) =~= rest);
        } else if list.contains(x) {
            let j = choose|j: int| 0 <= j < list.len() && list[j] == x;
            assert(rest[j - 1] == x);
            let k = choose|k: int|
                0 <= k < rest.len() && #[trigger] rest[k] == x && !rest.take(k).contains(x)
                    && without_first(rest, x) == rest.remove(k);
            assert(list[k + 1] == x);
            assert(seq![list[0]] + rest.remove(k) =~= list.remove(k + 1));
            assert(!list.take(k + 1).contains(x)) by {
                let head = list.take(k + 1);
                if head.contains(x) {
                    let m = choose|m: int| 0 <= m < head.len() && head[m] == x;
                    assert(list[m] == x);
                    assert(rest.take(k)[m - 1] == x);
                }
            }
        } else {
            assert(!rest.contains(x)) by {
                if rest.contains(x) {
                    let m = choose|m: int| 0 <= m < rest.len() && rest[m] == x;
                    assert(list[m + 1] == x);
                }
            }
            assert(seq![list[0]] + rest =~= list);
        }
    }
}

/// A chunk whose delay is over waits behind all others, unless it has arrived or is under way
/// meanwhile.
pub proof fn delayed_chunk_waits_again(s: SendView, i: u32)
    ensures
        ({
            let after = after_delay(s, i);
            let moot = s.session.tracker.completed.contains(i) || s.in_flight.contains_key(i);
            &&& moot ==> after.pending == s.pending
            &&& !moot ==> after.pending == s.pending.push(i)
            &&& s.scheduled.contains(i) ==> after.scheduled.len() == s.scheduled.len() - 1
            &&& after == (SendView { pending: after.pending, scheduled: after.scheduled, ..s })
        }),
{
    first_entry_is_taken_out(s.scheduled, i);
}

/// A chunk that the receiver confirms has arrived, and its size counts as transferred. One that
/// the receiver refuses has failed once more, and is sent again while it may be. An answer about
/// a chunk that is not under way is passed over.
pub proof fn answer_settles_its_chunk(s: SendView, ack: ChunkAck, now: WallTime, other: u32)
    ensures
        ({
            let (after, action) = after_ack(s, ack, now);
            let i = ack.index;
            let chunks = s.session.manifest.chunks;
            &&& !s.in_flight.contains_key(i) ==> after == s && action is Continue
            &&& s.in_flight.contains_key(i) ==> {
                &&& !after.in_flight.contains_key(i)
                &&& other != i ==> after.in_flight.contains_key(other)
                    == s.in_flight.contains_key(other)
                &&& other != i ==> after.session.tracker.completed.contains(other)
                    == s.session.tracker.completed.contains(other)
                &&& after.session.dest_path == s.session.dest_path
                &&& after.session.manifest == s.session.manifest
            }
            &&& s.in_flight.contains_key(i) && ack.verified ==> {
                &&& action is Continue
                &&& after.session.tracker.completed.contains(i)
                &&& !after.session.tracker.failed.contains_key(i)
                &&& after.session.state == s.session.state
                &&& after.session.error == s.session.error
                &&& after.pending == s.pending
                &&& after.scheduled == s.scheduled
                &&& after.retries == s.retries
                &&& i < chunks.len() && s.progress.bytes_transferred + chunks[i as int].size
                    <= u64::MAX ==> after.progress.bytes_transferred
                    == s.progress.bytes_transferred + chunks[i as int].size
                &&& i < chunks.len() && s.progress.chunks_completed < u32::MAX
                    ==> after.progress.chunks_completed == s.progress.chunks_completed + 1
                &&& i >= chunks.len() ==> after.progress == s.progress
            }
            &&& s.in_flight.contains_key(i) && !ack.verified ==> {
                let times: int = if s.retries.contains_key(i) {
                    s.retries[i] as int
                } else {
                    0
                };
                let may = times < s.session.options.retry_policy.max_retries;
                &&& may ==> action == ActionView::Retry(i, (times + 1) as u8)
                &&& !may ==> action == ActionView::Fail(ErrorView::MaxRetriesExceeded(i))
                &&& !may ==> after.session.state is Failed
                &&& may ==> after.scheduled == s.scheduled.push(i)
                &&& after.session.tracker.failed.contains_key(i)
                &&& after.session.tracker.completed == s.session.tracker.completed
                &&& after.progress == s.progress
            }
        }),
{
}

/// An error that the receiver tells of ends the transfer with its text, and a cancellation ends it
/// as cancelled; what does not concern a chunk's arrival changes nothing else.
pub proof fn receiver_can_end_the_transfer(s: SendView, message: FileTransferMessage, now: WallTime)
    ensures
        ({
            let (after, action) = after_message(s, message, now);
            &&& message matches FileTransferMessage::Error(error) ==> {
                &&& action == ActionView::Fail(ErrorView::Transport(error.message@))
                &&& after.session.state is Failed
                &&& after.session.error == Some(error_text(ErrorView::Transport(error.message@)))
            }
            &&& message is Cancel ==> {
                &&& action is Cancel
                &&& after.session.state is Cancelled
                &&& after.session.control is Cancelled
            }
            &&& message is Error || message is Cancel ==> {
                &&& after.session.updated_at == now
                &&& after.session.tracker == s.session.tracker
                &&& after == (SendView { session: after.session, ..s })
            }
            &&& message matches FileTransferMessage::ChunkAck(ack) ==> (after, action) == after_ack(
                s,
                ack,
                now,
            )
            &&& !(message is Error || message is Cancel || message is ChunkAck) ==> after == s
                && action is Continue
        }),
{
}

/// A transfer is confirmed exactly where its own target says that the whole file arrived with the
/// bytes, the hash and the algorithm that were announced.
pub proof fn only_the_target_confirms(
    sender: NodeId,
    target: NodeId,
    message: FileTransferMessage,
    expected_bytes: u64,
    expected_hash: Seq<u8>,
    expected_algorithm: HashAlgorithm,
)
    ensures
        ({
            let r = last_word(
                sender,
                target,
                message,
                expected_bytes,
                expected_hash,
                expected_algorithm,
            );
            &&& r is Ok <==> sender == target && (message matches FileTransferMessage::Complete(done)
                && done.bytes_transferred == expected_bytes && done.file_hash@ == expected_hash
                && done.hash_algorithm == expected_algorithm)
            &&& sender != target ==> r->Err_0 is Transport
            &&& sender == target && message is Complete && r is Err ==> r->Err_0 is FileHashMismatch
            &&& sender == target && message is Cancel ==> r->Err_0 is Cancelled
            &&& sender == target ==> (message matches FileTransferMessage::Error(error) ==> r->Err_0
                == ErrorView::Transport(error.message@))
        }),
{
}

/// The size of several chunks.
pub open spec fn size_of_all(chunks: Seq<ChunkMeta>, list: Seq<u32>) -> nat
    decreases list.len(),
{
    if list.len() == 0 {
        0
    } else {
        size_of_all(chunks, list.drop_last()) + chunks[list.last() as int].size as nat
    }
}

proof fn progress_adds_up(p: TransferProgress, chunks: Seq<ChunkMeta>, list: Seq<u32>)
    requires
        forall|i: int| 0 <= i < list.len() ==> (#[trigger] list[i]) < chunks.len(),
        p.bytes_transferred + size_of_all(chunks, list) <= u64::MAX,
        p.chunks_completed + list.len() <= u32::MAX,
    ensures
        progress_of(p, chunks, list).bytes_transferred == p.bytes_transferred + size_of_all(
            chunks,
            list,
        ),
        progress_of(p, chunks, list).chunks_completed == p.chunks_completed + list.len(),
        progress_of(p, chunks, list).total_bytes == p.total_bytes,
    decreases list.len(),
{
    if list.len() > 0 {
        let fewer = list.drop_last();
        assert forall|i: int| 0 <= i < fewer.len() implies (#[trigger] fewer[i]) < chunks.len() by {
            assert(fewer[i] == list[i]);
        }
        assert(list[list.len() - 1] < chunks.len());
        progress_adds_up(p, chunks, fewer);
    }
}

/// At the start exactly the chunks that need not be sent count as arrived and as transferred, and
/// all others of the file wait, in order; none is under way.
pub proof fn what_is_there_is_not_sent_again(s: SessionView, skip: Set<u32>, concurrency: usize, i: u32)
    requires
        skip.finite(),
        forall|k: u32| #[trigger] skip.contains(k) ==> k < s.manifest.chunks.len(),
        s.manifest.chunks.len() == s.manifest.chunk_count,
        size_of_all(s.manifest.chunks, ascending_u32(skip)) <= u64::MAX,
    ensures
        ({
            let v = loop_start(s, skip, concurrency);
            &&& v.pending.contains(i) <==> i < s.manifest.chunk_count && !skip.contains(i)
            &&& crate::ordered::increasing_u32(v.pending)
            &&& v.session.tracker.completed.contains(i) <==> s.tracker.completed.contains(i)
                || skip.contains(i)
            &&& skip.contains(i) ==> !v.session.tracker.in_flight.contains(i)
                && !v.session.tracker.failed.contains_key(i)
            &&& !v.in_flight.contains_key(i) && !v.retries.contains_key(i)
            &&& v.scheduled.len() == 0
            &&& v.concurrency == concurrency
            &&& v.progress.total_bytes == s.manifest.file_size
            &&& v.progress.chunks_completed == skip.len()
            &&& v.progress.bytes_transferred == size_of_all(s.manifest.chunks, ascending_u32(skip))
            &&& v.session.dest_path == s.dest_path && v.session.manifest == s.manifest
                && v.session.options == s.options && v.session.target_nodes == s.target_nodes
        }),
{
    let all = all_chunks(s.manifest.chunk_count);
    let wanted = |i: u32| !skip.contains(i);
    assert(crate::ordered::increasing_u32(all));
    crate::ordered::filter_increases_u32(all, wanted);
    crate::ordered::filter_holds_u32(all, wanted, i);
    if i < s.manifest.chunk_count {
        assert(all[i as int] == i);
    }
    crate::ordered::ascending_lists_u32(skip);
    let list = ascending_u32(skip);
    assert forall|k: int| 0 <= k < list.len() implies (#[trigger] list[k])
        < s.manifest.chunks.len() by {
        assert(list.contains(list[k]));
    }
    increasing_list_has_its_members(list, skip);
    members_are_bounded(skip, s.manifest.chunk_count);
    progress_adds_up(no_progress(s.manifest.file_size), s.manifest.chunks, list);
}

proof fn increasing_list_has_its_members(list: Seq<u32>, members: Set<u32>)
    requires
        crate::ordered::increasing_u32(list),
        forall|k: u32| #[trigger] list.contains(k) <==> members.contains(k),
    ensures
        list.len() == members.len(),
{
    assert(list.no_duplicates()) by {
        assert forall|i: int, j: int| 0 <= i < list.len() && 0 <= j < list.len() && i != j implies list[i]
            != list[j] by {
            if i < j {
                assert(list[i] < list[j]);
            } else {
                assert(list[j] < list[i]);
            }
        }
    }
    assert(list.to_set() =~= members);
    list.unique_seq_to_set();
}

proof fn members_are_bounded(s: Set<u32>, total: u32)
    requires
        s.finite(),
        forall|i: u32| #[trigger] s.contains(i) ==> i < total,
    ensures
        s.len() <= total,
    decreases total,
{
    if total == 0 {
        assert(s =~= Set::empty());
    } else {
        let last = (total - 1) as u32;
        let rest = s.remove(last);
        assert forall|i: u32| #[trigger] rest.contains(i) implies i < last by {
            assert(s.contains(i));
        }
        members_are_bounded(rest, last);
    }
}

/// As many chunks are under way at once as are wanted and allowed, and at least one where any is
/// allowed; no chunk is sent that the receiver has or asks to skip.
pub proof fn width_is_as_wanted_and_allowed(
    concurrency: usize,
    max_concurrency: usize,
    n: usize,
    existing: &[u32],
    skip: &[u32],
    chunks: BTreeSet<u32>,
    k: u32,
)
    requires
        call_ensures(effective_concurrency, (concurrency, max_concurrency), n),
        call_ensures(chunks_to_skip, (existing, skip), chunks),
    ensures
        n <= max_concurrency,
        max_concurrency > 0 ==> n >= 1,
        1 <= concurrency <= max_concurrency ==> n == concurrency,
        concurrency > max_concurrency ==> n == max_concurrency,
        concurrency == 0 && max_concurrency > 0 ==> n == 1,
        existing@.contains(k) ==> chunks@.contains(k),
        skip@.contains(k) ==> chunks@.contains(k),
        chunks@.contains(k) && !existing@.contains(k) ==> skip@.contains(k),
{
}

/// A step sends chunks only while the transfer runs, waits while it is paused, stops where it was
/// cancelled, and is the last exactly where nothing waits and nothing is under way.
pub proof fn step_follows_what_is_told(
    s: &mut SendLoop,
    control: TransferControlState,
    now: Instant,
    step: SendStep,
)
    requires
        call_ensures(SendLoop::step, (s, control, now), step),
    ensures
        step is Finished <==> old(s)@.pending.len() == 0 && old(s)@.in_flight.dom().len() == 0
            && old(s)@.scheduled.len() == 0,
        !(step is Finished) ==> (step is Launch <==> control is Running) && (step is WaitForControl
            <==> control is Paused) && (step is Cancelled <==> control is Cancelled),
        !(step is Launch) ==> final(s)@ == old(s)@,
        step matches SendStep::Launch(chunks) ==> old(s)@.pending == chunks@ + final(s)@.pending,
{
}

/// A transfer is concluded exactly where all chunks have arrived, and the receiver's word is
/// waited for unless nothing had to be sent; else it fails. Once it is complete it says so, and
/// the source goes only where the file was to be moved.
pub proof fn transfer_is_concluded_when_all_arrived(
    s: &mut SendLoop,
    now: WallTime,
    r: Result<bool, FileTransferError>,
    done: &mut SendLoop,
    other: &SendLoop,
    delete_source: bool,
    removes: bool,
)
    requires
        call_ensures(SendLoop::conclude, (s, now), r),
        call_ensures(SendLoop::complete, (done, now), ()),
        call_ensures(SendLoop::removes_source, (other, delete_source), removes),
        old(s)@.session.tracker.completed.finite(),
        forall|i: u32| #[trigger]
            old(s)@.session.tracker.completed.contains(i) ==> i
                < old(s)@.session.tracker.total_chunks,
    ensures
        r is Ok <==> forall|i: u32|
            i < old(s)@.session.tracker.total_chunks
                ==> old(s)@.session.tracker.completed.contains(i),
        r matches Ok(wait) ==> (wait <==> old(s)@.skipped != old(s)@.session.manifest.chunk_count)
            && final(s)@ == old(s)@,
        r is Err ==> final(s)@.session.state is Failed && final(s)@.session.tracker
            == old(s)@.session.tracker,
        final(done)@.session.state is Completed,
        final(done)@.session.updated_at == now,
        final(done)@.session.tracker == old(done)@.session.tracker,
        final(done)@.session.dest_path == old(done)@.session.dest_path,
        final(done)@.progress == old(done)@.progress,
        removes <==> delete_source && other@.session.options.mode is Move,
{
    crate::transfer::chunk::all_have_arrived_where_each_has(old(s)@.session.tracker);
}

/// A chunk that was sent is waited for, one that could not be sent is sent again while it may be,
/// and a message that cannot be received ends the transfer. A transfer that is cancelled or fails
/// here says so, and keeps what it has done.
pub proof fn events_of_sending(
    sent: &mut SendLoop,
    index: u32,
    now: WallTime,
    a: SendAction,
    lost: &mut SendLoop,
    error: FileTransferError,
    b: SendAction,
    cancelled: &mut SendLoop,
    failed: &mut SendLoop,
    why: FileTransferError,
)
    requires
        call_ensures(SendLoop::on_sent, (sent, index, Ok(()), now), a),
        call_ensures(SendLoop::on_message, (lost, Err(error), now), b),
        call_ensures(SendLoop::cancel, (cancelled, now), ()),
        call_ensures(SendLoop::fail, (failed, &why, now), ()),
    ensures
        final(sent)@ == old(sent)@,
        a@ is Continue,
        b@ == ActionView::Fail(error@),
        final(lost)@.session.state is Failed,
        final(lost)@.session.error == Some(error_text(error@)),
        final(lost)@.session.tracker == old(lost)@.session.tracker,
        final(cancelled)@.session.state is Cancelled,
        final(cancelled)@.session.tracker == old(cancelled)@.session.tracker,
        final(failed)@.session.state is Failed,
        final(failed)@.session.error == Some(error_text(why@)),
        final(failed)@.session.tracker == old(failed)@.session.tracker,
{
}

} // verus!

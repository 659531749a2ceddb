//! What is kept of transfers between runs: where it lies, the journal of the chunks that
//! arrived, and what is thrown away.
//!
//! A record of the journal is the number of a chunk and its complement, four little-endian
//! bytes each. A record that was not written whole is told by that, and ends the journal.

use vstd::prelude::*;

use crate::bytes::{
    le_bytes, le_round_trip, le_value, pow256_widths, push_le_u32, read_le_u32,
};
use crate::clock::{Duration, WallTime};
use crate::paths::{join, joined};
use crate::transfer::chunk::{chunk_completed, ChunkTracker, TrackerView};
use crate::transfer::config::FileTransferConfig;
use crate::transfer::error::{session_text, TransferSessionId};

verus! {

/// How long a record of the journal is.
pub const PROGRESS_RECORD_BYTES: usize = 8;

/// The record of a chunk.
pub open spec fn record_of(index: u32) -> Seq<u8> {
    le_bytes(index as nat, 4) + le_bytes((0xffff_ffff - index) as nat, 4)
}

/// Whether eight bytes are a record.
pub open spec fn is_record(bytes: Seq<u8>) -> bool {
    le_value(bytes.subrange(0, 4)) + le_value(bytes.subrange(4, 8)) == 0xffff_ffff
}

/// The chunks that a journal tells of: those of the records up to the first that is none.
pub open spec fn journal(bytes: Seq<u8>) -> Seq<u32>
    decreases bytes.len(),
{
    if bytes.len() < 8 || !is_record(bytes) {
        Seq::empty()
    } else {
        seq![le_value(bytes.subrange(0, 4)) as u32] + journal(bytes.skip(8))
    }
}

/// A tracker after chunks arrived one after another. A number that no chunk has is passed
/// over.
pub open spec fn all_completed(v: TrackerView, list: Seq<u32>) -> TrackerView
    decreases list.len(),
{
    if list.len() == 0 {
        v
    } else {
        let before = all_completed(v, list.drop_last());
        if list.last() < v.total_chunks {
            chunk_completed(before, list.last())
        } else {
            before
        }
    }
}

/// The journal of several chunks.
pub open spec fn records_of(list: Seq<u32>) -> Seq<u8>
    decreases list.len(),
{
    if list.len() == 0 {
        Seq::empty()
    } else {
        records_of(list.drop_last()) + record_of(list.last())
    }
}

/// The record that notes that a chunk arrived, to be put behind the journal.
pub fn checkpoint_record(index: u32) -> (record: Vec<u8>)
    ensures
        record@ == record_of(index),
{
    let mut record: Vec<u8> = Vec::new();
    push_le_u32(&mut record, index);
    push_le_u32(&mut record, 0xffff_ffff - index);
    assert(record@ =~= record_of(index));
    record
}

proof fn completed_total_stays(v: TrackerView, list: Seq<u32>)
    ensures
        all_completed(v, list).total_chunks == v.total_chunks,
    decreases list.len(),
{
    if list.len() > 0 {
        completed_total_stays(v, list.drop_last());
    }
}

/// Brings a tracker up to what a journal tells.
pub fn replay_progress(bytes: &[u8], tracker: &mut ChunkTracker)
    ensures
        final(tracker)@ == all_completed(old(tracker)@, journal(bytes@)),
{
    let n: usize = bytes.len();
    let ghost start = tracker@;
    let ghost mut done = Seq::<u32>::empty();
    let mut at: usize = 0;
    assert(bytes@.skip(0) =~= bytes@);
    assert(done + journal(bytes@) =~= journal(bytes@));
    while n - at >= 8
        invariant_except_break
            done + journal(bytes@.skip(at as int)) == journal(bytes@),
        invariant
            at <= n,
            n == bytes@.len(),
            start == old(tracker)@,
            tracker@ == all_completed(start, done),
        ensures
            done == journal(bytes@),
        decreases n - at,
    {
        let ghost rest = bytes@.skip(at as int);
        assert(rest.subrange(0, 4) =~= bytes@.subrange(at as int, at + 4));
        assert(rest.subrange(4, 8) =~= bytes@.subrange(at + 4, at + 8));
        let index: u32 = read_le_u32(bytes, at);
        let complement: u32 = read_le_u32(bytes, at + 4);
        if complement != 0xffff_ffff - index {
            assert(journal(rest) =~= Seq::<u32>::empty());
            assert(done + journal(rest) =~= done);
            break ;
        }
        proof {
            completed_total_stays(start, done);
            assert(rest.skip(8) =~= bytes@.skip(at + 8));
            assert(done.push(index) + journal(rest.skip(8)) =~= done + journal(rest));
            assert(done.push(index).drop_last() =~= done);
        }
        if index < tracker.total_chunks {
            tracker.mark_completed(index);
        }
        proof {
            done = done.push(index);
        }
        at = at + 8;
        if n - at < 8 {
            assert(journal(bytes@.skip(at as int)) =~= Seq::<u32>::empty());
            assert(done + journal(bytes@.skip(at as int)) =~= done);
        }
    }
}

/// Where transfers are kept, for how long and how many.
#[derive(Debug)]
pub struct SessionPersistence {
    dir: String,
    retention: Duration,
    max_sessions: usize,
}

/// The directory of a configuration.
pub open spec fn session_dir_of(session_dir: Option<String>, base_path: Seq<char>) -> Seq<char> {
    match session_dir {
        Some(dir) => dir@,
        None => joined(base_path, "sessions"@),
    }
}

/// Whether a transfer last touched at a time is kept no longer.
pub open spec fn expired(now: WallTime, updated_at: WallTime, retention: Duration) -> bool {
    match now.since(updated_at) {
        Some(nanos) => nanos > retention.nanos,
        None => false,
    }
}

/// Whether a transfer last touched at a time is kept no longer. A time to come keeps it.
pub fn is_expired(now: WallTime, updated_at: WallTime, retention: Duration) -> (old_enough: bool)
    ensures
        old_enough == expired(now, updated_at, retention),
{
    match now.duration_since(updated_at) {
        Some(elapsed) => elapsed.nanos > retention.nanos,
        None => false,
    }
}

/// Whether the transfer at `j` is kept rather than that at `i`: it was touched later, or at
/// the same time and stands further ahead.
pub open spec fn preferred(times: Seq<WallTime>, j: int, i: int) -> bool {
    times[j].nanos > times[i].nanos || (times[j].nanos == times[i].nanos && j < i)
}

/// How many of the first `n` transfers are kept rather than that at `i`.
pub open spec fn rank(times: Seq<WallTime>, i: int, n: nat) -> nat
    decreases n,
{
    if n == 0 {
        0
    } else {
        rank(times, i, (n - 1) as nat) + (if preferred(times, n - 1, i) {
            1nat
        } else {
            0
        })
    }
}

/// The places of the transfers that are too many, among the first `n`.
pub open spec fn surplus_places(times: Seq<WallTime>, max: nat, n: nat) -> Seq<usize>
    decreases n,
{
    if n == 0 {
        Seq::empty()
    } else {
        let before = surplus_places(times, max, (n - 1) as nat);
        if rank(times, n - 1, times.len()) >= max {
            before.push((n - 1) as usize)
        } else {
            before
        }
    }
}

/// The places of the transfers that are kept no longer, among the first `n`.
pub open spec fn expired_places(times: Seq<WallTime>, now: WallTime, retention: Duration, n: nat) -> Seq<usize>
    decreases n,
{
    if n == 0 {
        Seq::empty()
    } else {
        let before = expired_places(times, now, retention, (n - 1) as nat);
        if expired(now, times[n - 1], retention) {
            before.push((n - 1) as usize)
        } else {
            before
        }
    }
}

fn rank_of(times: &[WallTime], i: usize) -> (r: usize)
    requires
        i < times@.len(),
    ensures
        r == rank(times@, i as int, times@.len()),
{
    let n: usize = times.len();
    let mut r: usize = 0;
    let mut j: usize = 0;
    while j < n
        invariant
            i < n,
            n == times@.len(),
            j <= n,
            r <= j,
            r == rank(times@, i as int, j as nat),
        decreases n - j,
    {
        if times[j].nanos > times[i].nanos || (times[j].nanos == times[i].nanos && j < i) {
            r = r + 1;
        }
        j = j + 1;
    }
    r
}

impl SessionPersistence {
    /// The directory.
    pub closed spec fn directory(&self) -> Seq<char> {
        self.dir@
    }

    /// How long a transfer is kept.
    pub closed spec fn kept_for(&self) -> Duration {
        self.retention
    }

    /// How many transfers are kept.
    pub closed spec fn kept_at_most(&self) -> usize {
        self.max_sessions
    }

    /// What a configuration says of it.
    pub fn new(config: &FileTransferConfig) -> (persistence: Self)
        ensures
            persistence.directory() == session_dir_of(config.session_dir, config.base_path@),
            persistence.kept_for() == config.session_retention,
            persistence.kept_at_most() == config.max_sessions,
    {
        let dir = match &config.session_dir {
            Some(dir) => dir.clone(),
            None => join(config.base_path.as_str(), "sessions"),
        };
        SessionPersistence {
            dir,
            retention: config.session_retention,
            max_sessions: config.max_sessions,
        }
    }

    fn path_with(&self, id: TransferSessionId, suffix: &str) -> (path: String)
        ensures
            path@ == joined(self.directory(), "session_"@ + session_text(id) + suffix@),
    {
        let mut name = String::from_str("session_");
        name.append(id.text().as_str());
        name.append(suffix);
        join(self.dir.as_str(), name.as_str())
    }

    /// Where a transfer is kept.
    pub fn session_path(&self, id: TransferSessionId) -> (path: String)
        ensures
            path@ == joined(self.directory(), "session_"@ + session_text(id) + ".bin"@),
    {
        self.path_with(id, ".bin")
    }

    /// Where a transfer is written before it takes its place.
    pub fn temp_path(&self, id: TransferSessionId) -> (path: String)
        ensures
            path@ == joined(self.directory(), "session_"@ + session_text(id) + ".tmp"@),
    {
        self.path_with(id, ".tmp")
    }

    /// Where the journal of a transfer is kept.
    pub fn progress_path(&self, id: TransferSessionId) -> (path: String)
        ensures
            path@ == joined(self.directory(), "session_"@ + session_text(id) + ".progress"@),
    {
        self.path_with(id, ".progress")
    }

    /// The places of the transfers that are kept no longer, by when each was last touched.
    pub fn expired_sessions(&self, times: &[WallTime], now: WallTime) -> (places: Vec<usize>)
        ensures
            places@ == expired_places(times@, now, self.kept_for(), times@.len()),
    {
        let n: usize = times.len();
        let mut places: Vec<usize> = Vec::new();
        let mut i: usize = 0;
        while i < n
            invariant
                n == times@.len(),
                i <= n,
                places@ == expired_places(times@, now, self.kept_for(), i as nat),
            decreases n - i,
        {
            if is_expired(now, times[i], self.retention) {
                places.push(i);
            }
            i = i + 1;
        }
        places
    }

    /// The places of the transfers that are too many: all but the last touched ones.
    pub fn surplus_sessions(&self, times: &[WallTime]) -> (places: Vec<usize>)
        ensures
            places@ == surplus_places(times@, self.kept_at_most() as nat, times@.len()),
    {
        let n: usize = times.len();
        let mut places: Vec<usize> = Vec::new();
        let mut i: usize = 0;
        while i < n
            invariant
                n == times@.len(),
                i <= n,
                places@ == surplus_places(times@, self.kept_at_most() as nat, i as nat),
            decreases n - i,
        {
            if rank_of(times, i) >= self.max_sessions {
                places.push(i);
            }
            i = i + 1;
        }
        places
    }
}

proof fn one_record_reads_back(index: u32, rest: Seq<u8>)
    ensures
        journal(record_of(index) + rest) == seq![index] + journal(rest),
{
    pow256_widths();
    le_round_trip(index as nat, 4);
    le_round_trip((0xffff_ffff - index) as nat, 4);
    let bytes = record_of(index) + rest;
    assert(bytes.subrange(0, 4) =~= le_bytes(index as nat, 4));
    assert(bytes.subrange(4, 8) =~= le_bytes((0xffff_ffff - index) as nat, 4));
    assert(bytes.skip(8) =~= rest);
}

/// A journal reads back as the chunks that were noted, whatever comes behind it: a record
/// that was not written whole is passed over, and so is all behind a record that is none.
pub proof fn journal_reads_back(list: Seq<u32>, tail: Seq<u8>)
    ensures
        journal(records_of(list) + tail) == list + journal(tail),
        tail.len() < 8 || !is_record(tail) ==> journal(records_of(list) + tail) == list,
    decreases list.len(),
{
    if list.len() == 0 {
        assert(records_of(list) + tail =~= tail);
        assert(list + journal(tail) =~= journal(tail));
        assert(tail.len() < 8 || !is_record(tail) ==> journal(tail) =~= list);
    } else {
        let last = list.last();
        journal_reads_back(list.drop_last(), record_of(last) + tail);
        one_record_reads_back(last, tail);
        assert(records_of(list) + tail =~= records_of(list.drop_last()) + (record_of(last) + tail));
        assert(list.drop_last() + (seq![last] + journal(tail)) =~= list + journal(tail));
        if tail.len() < 8 || !is_record(tail) {
            assert(list + journal(tail) =~= list);
        }
    }
}

/// A chunk that is noted twice counts once.
pub proof fn noting_twice_is_noting_once(v: TrackerView, index: u32)
    ensures
        chunk_completed(chunk_completed(v, index), index) == chunk_completed(v, index),
{
    assert(chunk_completed(chunk_completed(v, index), index) =~= chunk_completed(v, index));
}

/// What a journal tells is exactly what is added: a chunk counts as arrived after a replay
/// where it did before, or where the journal holds its number and the transfer has it.
pub proof fn replay_adds_what_was_noted(v: TrackerView, list: Seq<u32>, index: u32)
    ensures
        all_completed(v, list).completed.contains(index) <==> v.completed.contains(index) || (
        list.contains(index) && index < v.total_chunks),
    decreases list.len(),
{
    if list.len() > 0 {
        let shorter = list.drop_last();
        replay_adds_what_was_noted(v, shorter, index);
        completed_total_stays(v, shorter);
        if list.contains(index) {
            let k = choose|k: int| 0 <= k < list.len() && list[k] == index;
            if k < shorter.len() {
                assert(shorter[k] == index);
            }
        }
        if shorter.contains(index) {
            let k = choose|k: int| 0 <= k < shorter.len() && shorter[k] == index;
            assert(list[k] == index);
        }
        assert(list[list.len() - 1] == list.last());
    }
}

/// A transfer that was kept expires once more time has gone by than it is kept for, and never
/// before that, nor where the clock went back.
pub proof fn kept_transfers_expire_in_time(now: WallTime, updated_at: WallTime, retention: Duration)
    ensures
        expired(now, updated_at, retention) <==> now.nanos > updated_at.nanos + retention.nanos,
{
}

proof fn expired_are_listed(times: Seq<WallTime>, now: WallTime, retention: Duration, n: nat)
    requires
        n <= times.len() <= usize::MAX,
    ensures
        ({
            let places = expired_places(times, now, retention, n);
            &&& forall|a: int| 0 <= a < places.len() ==> (#[trigger] places[a]) < n
            &&& forall|a: int, b: int|
                0 <= a < b < places.len() ==> (#[trigger] places[a]) < (#[trigger] places[b])
            &&& forall|i: usize|
                i < n ==> (#[trigger] places.contains(i) <==> expired(
                    now,
                    times[i as int],
                    retention,
                ))
        }),
    decreases n,
{
    if n > 0 {
        let m = (n - 1) as nat;
        expired_are_listed(times, now, retention, m);
        let before = expired_places(times, now, retention, m);
        let places = expired_places(times, now, retention, n);
        assert forall|i: usize| i < n implies (#[trigger] places.contains(i) <==> expired(
            now,
            times[i as int],
            retention,
        )) by {
            if before.contains(i) {
                let a = choose|a: int| 0 <= a < before.len() && before[a] == i;
                assert(places[a] == i);
            }
            if i == m && expired(now, times[i as int], retention) {
                assert(places[before.len() as int] == i);
            }
            if places.contains(i) {
                let a = choose|a: int| 0 <= a < places.len() && places[a] == i;
                if a < before.len() {
                    assert(before[a] == i);
                    assert(before.contains(i));
                }
            }
        }
    }
}

/// Exactly the transfers that were kept for longer than they are to be are thrown away as expired,
/// and each is listed once, in order.
pub proof fn expired_transfers_are_thrown_away(
    persistence: &SessionPersistence,
    times: &[WallTime],
    now: WallTime,
    places: Vec<usize>,
    i: usize,
)
    requires
        call_ensures(SessionPersistence::expired_sessions, (persistence, times, now), places),
        i < times@.len(),
        times@.len() <= usize::MAX,
    ensures
        places@.contains(i) <==> now.nanos > times@[i as int].nanos + persistence.kept_for().nanos,
        forall|a: int, b: int|
            0 <= a < b < places@.len() ==> (#[trigger] places@[a]) < (#[trigger] places@[b]),
{
    expired_are_listed(times@, now, persistence.kept_for(), times@.len());
}

proof fn surplus_are_listed(times: Seq<WallTime>, max: nat, n: nat)
    requires
        n <= times.len() <= usize::MAX,
    ensures
        ({
            let places = surplus_places(times, max, n);
            &&& forall|a: int| 0 <= a < places.len() ==> (#[trigger] places[a]) < n
            &&& forall|a: int, b: int|
                0 <= a < b < places.len() ==> (#[trigger] places[a]) < (#[trigger] places[b])
            &&& forall|i: usize|
                i < n ==> (#[trigger] places.contains(i) <==> rank(times, i as int, times.len())
                    >= max)
        }),
    decreases n,
{
    if n > 0 {
        let m = (n - 1) as nat;
        surplus_are_listed(times, max, m);
        let before = surplus_places(times, max, m);
        let places = surplus_places(times, max, n);
        assert forall|i: usize| i < n implies (#[trigger] places.contains(i) <==> rank(
            times,
            i as int,
            times.len(),
        ) >= max) by {
            if before.contains(i) {
                let a = choose|a: int| 0 <= a < before.len() && before[a] == i;
                assert(places[a] == i);
            }
            if i == m && rank(times, i as int, times.len()) >= max {
                assert(places[before.len() as int] == i);
            }
            if places.contains(i) {
                let a = choose|a: int| 0 <= a < places.len() && places[a] == i;
                if a < before.len() {
                    assert(before[a] == i);
                    assert(before.contains(i));
                }
            }
        }
    }
}

proof fn later_ranks_below(times: Seq<WallTime>, i: int, j: int, n: nat)
    requires
        0 <= i < times.len(),
        0 <= j < times.len(),
        preferred(times, i, j),
    ensures
        rank(times, i, n) + (if i < n {
            1nat
        } else {
            0
        }) <= rank(times, j, n),
    decreases n,
{
    if n > 0 {
        later_ranks_below(times, i, j, (n - 1) as nat);
    }
}

/// Where too many transfers are kept, the ones that go are the oldest: none goes while an older
/// one stays, nor while one of the same age behind it does; each is listed once, and the newest
/// stay.
pub proof fn oldest_transfers_go_first(
    persistence: &SessionPersistence,
    times: &[WallTime],
    places: Vec<usize>,
    i: usize,
    j: usize,
)
    requires
        call_ensures(SessionPersistence::surplus_sessions, (persistence, times), places),
        i < times@.len(),
        j < times@.len(),
        times@.len() <= usize::MAX,
    ensures
        times@[i as int].nanos > times@[j as int].nanos && places@.contains(i) ==> places@.contains(
            j,
        ),
        times@[i as int].nanos == times@[j as int].nanos && i < j && places@.contains(i)
            ==> places@.contains(j),
        forall|a: int, b: int|
            0 <= a < b < places@.len() ==> (#[trigger] places@[a]) < (#[trigger] places@[b]),
        persistence.kept_at_most() > 0 && (forall|k: int|
            0 <= k < times@.len() && k != i ==> (#[trigger] times@[k]).nanos < times@[i as int].nanos)
            ==> !places@.contains(i),
        persistence.kept_at_most() == 0 ==> places@.contains(i),
        persistence.kept_at_most() >= times@.len() ==> !places@.contains(i),
{
    let max = persistence.kept_at_most() as nat;
    surplus_are_listed(times@, max, times@.len());
    if preferred(times@, i as int, j as int) {
        later_ranks_below(times@, i as int, j as int, times@.len());
    }
    rank_is_bounded(times@, i as int, times@.len());
    if forall|k: int|
        0 <= k < times@.len() && k != i ==> (#[trigger] times@[k]).nanos < times@[i as int].nanos {
        newest_has_no_rank(times@, i as int, times@.len());
    }
}

proof fn rank_is_bounded(times: Seq<WallTime>, i: int, n: nat)
    requires
        0 <= i < times.len(),
    ensures
        rank(times, i, n) <= n,
        i < n ==> rank(times, i, n) < n,
    decreases n,
{
    if n > 0 {
        rank_is_bounded(times, i, (n - 1) as nat);
    }
}

proof fn newest_has_no_rank(times: Seq<WallTime>, i: int, n: nat)
    requires
        0 <= i < times.len(),
        n <= times.len(),
        forall|k: int| 0 <= k < times.len() && k != i ==> (#[trigger] times[k]).nanos < times[i].nanos,
    ensures
        rank(times, i, n) == 0,
    decreases n,
{
    if n > 0 {
        newest_has_no_rank(times, i, (n - 1) as nat);
        assert(n - 1 != i ==> times[n - 1].nanos < times[i].nanos);
    }
}

/// What is noted of a chunk names it, and no other note could be taken for it.
pub proof fn notes_name_their_chunks(a: u32, b: u32)
    ensures
        record_of(a).len() == 8,
        is_record(record_of(a)),
        le_value(record_of(a).subrange(0, 4)) == a,
        record_of(a) == record_of(b) ==> a == b,
{
    journal_reads_back(seq![a], Seq::empty());
    pow256_widths();
    le_round_trip(a as nat, 4);
    le_round_trip(b as nat, 4);
    le_round_trip((0xffff_ffff - a) as nat, 4);
    assert(record_of(a).subrange(0, 4) =~= le_bytes(a as nat, 4));
    assert(record_of(b).subrange(0, 4) =~= le_bytes(b as nat, 4));
    assert(record_of(a).subrange(4, 8) =~= le_bytes((0xffff_ffff - a) as nat, 4));
}

/// What is kept lies in the directory for it, where one is configured, and is kept as long and as
/// often as is configured.
pub proof fn keeping_is_as_configured(config: FileTransferConfig, persistence: SessionPersistence)
    requires
        call_ensures(SessionPersistence::new, (&config,), persistence),
    ensures
        config.session_dir matches Some(dir) ==> persistence.directory() == dir@,
        config.session_dir is None ==> persistence.directory() == joined(
            config.base_path@,
            "sessions"@,
        ),
        persistence.kept_for() == config.session_retention,
        persistence.kept_at_most() == config.max_sessions,
{
}

/// The files that are kept of a transfer lie in the directory for them, and are not those of
/// another transfer.
pub proof fn kept_files_are_told_apart(
    persistence: &SessionPersistence,
    a: TransferSessionId,
    b: TransferSessionId,
    of_a: String,
    of_b: String,
)
    requires
        call_ensures(SessionPersistence::session_path, (persistence, a), of_a),
        call_ensures(SessionPersistence::session_path, (persistence, b), of_b),
        of_a@ == of_b@,
    ensures
        a == b,
        of_a@.take(persistence.directory().len() as int) == persistence.directory(),
{
    reveal_strlit("session_");
    reveal_strlit(".bin");
    let dir = persistence.directory();
    let name_a = "session_"@ + session_text(a) + ".bin"@;
    let name_b = "session_"@ + session_text(b) + ".bin"@;
    crate::paths::joined_has_one_slash_between(dir, name_a);
    crate::paths::joined_has_one_slash_between(dir, name_b);
    crate::text::hex_stands_for_its_number(a.id as nat, 32);
    crate::text::hex_stands_for_its_number(b.id as nat, 32);
    assert(name_a.len() == 44 && name_b.len() == 44);
    assert(name_a =~= name_b);
    assert(name_a.subrange(8, 40) =~= session_text(a));
    assert(name_b.subrange(8, 40) =~= session_text(b));
    crate::transfer::error::session_texts_differ(a, b);
}

} // verus!

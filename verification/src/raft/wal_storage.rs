//! The log state that a write-ahead log describes.
//!
//! Every change to the state is a record. The caller writes the record to the log and
//! then tells [`WalRaftStorage`] about it; after a restart it hands all frames of the
//! log to [`WalRaftStorage::recover`], which arrives at the same state.

use std::collections::{BTreeMap, VecDeque};
use vstd::prelude::*;

use crate::ordered::{increasing_u64, sorted_keys_u64};
use crate::raft::types::{range_contains, Entry, EntryPayload, EntryView, GroupId, IndexRange, LogId, PayloadView,
    SnapshotMeta, SnapshotMetaView, StoredMembership, StoredMembershipView, Vote};

verus! {

/// The version of the log format.
pub const CURRENT_FORMAT_VERSION: u32 = 1;

/// Settings of the storage.
#[derive(Debug)]
pub struct WalStorageConfig {
    pub wal_dir: String,
    pub snapshot_dir: String,
    /// How many entries stay in memory.
    pub log_cache_size: usize,
    /// After how many appended entries the log is flushed; zero flushes every write.
    pub fsync_interval: usize,
    pub format_version: u32,
    /// How many bytes of data a snapshot chunk holds.
    pub snapshot_chunk_size: usize,
}

impl Default for WalStorageConfig {
    fn default() -> (config: Self)
        ensures
            config.wal_dir@ == "wal"@,
            config.snapshot_dir@ == "snapshot"@,
            config.log_cache_size == 1024,
            config.fsync_interval == 0,
            config.format_version == CURRENT_FORMAT_VERSION,
            config.snapshot_chunk_size == 4096,
    {
        WalStorageConfig {
            wal_dir: String::from_str("wal"),
            snapshot_dir: String::from_str("snapshot"),
            log_cache_size: 1024,
            fsync_interval: 0,
            format_version: CURRENT_FORMAT_VERSION,
            snapshot_chunk_size: 4096,
        }
    }
}

/// The first frame of a log.
#[derive(Debug, PartialEq, Eq)]
pub struct WalHeader {
    pub magic: [u8; 4],
    pub format_version: u32,
    pub group_id: GroupId,
    pub node_id: u64,
    pub created_at: u64,
    pub reserved: Vec<u8>,
}

/// A change to the log state.
#[derive(Debug, PartialEq, Eq)]
pub enum RaftWalRecord {
    AppendLog(Entry),
    Vote(Vote),
    SnapshotApplied(SnapshotMeta),
    Truncate(LogId),
    Purge(LogId),
}

/// A frame of the log.
#[derive(Debug, PartialEq, Eq)]
pub enum WalFrame {
    Header(WalHeader),
    Record(RaftWalRecord),
}

/// A change to the log state, seen as plain values.
pub enum RecordView {
    AppendLog(EntryView),
    Vote(Vote),
    SnapshotApplied(SnapshotMetaView),
    Truncate(LogId),
    Purge(LogId),
}

/// A frame of the log, seen as plain values.
pub enum FrameView {
    Header(Seq<u8>, u32),
    Record(RecordView),
}

impl View for RaftWalRecord {
    type V = RecordView;

    open spec fn view(&self) -> RecordView {
        match self {
            RaftWalRecord::AppendLog(entry) => RecordView::AppendLog(entry@),
            RaftWalRecord::Vote(vote) => RecordView::Vote(*vote),
            RaftWalRecord::SnapshotApplied(meta) => RecordView::SnapshotApplied(meta@),
            RaftWalRecord::Truncate(log_id) => RecordView::Truncate(*log_id),
            RaftWalRecord::Purge(log_id) => RecordView::Purge(*log_id),
        }
    }
}

impl View for WalFrame {
    type V = FrameView;

    open spec fn view(&self) -> FrameView {
        match self {
            WalFrame::Header(header) => FrameView::Header(header.magic@, header.format_version),
            WalFrame::Record(record) => FrameView::Record(record@),
        }
    }
}

/// The views of a list of frames.
pub open spec fn frame_views(frames: Seq<WalFrame>) -> Seq<FrameView> {
    frames.map_values(|f: WalFrame| f@)
}

/// The magic bytes `RWAL`.
pub open spec fn wal_magic() -> Seq<u8> {
    seq![82u8, 87u8, 65u8, 76u8]
}

/// Why a log was refused.
#[derive(Debug, Clone, Copy, PartialEq, Eq, Structural)]
pub enum WalError {
    InvalidMagic,
    VersionMismatch { expected: u32, got: u32 },
    /// The log goes on behind its last sound frame.
    Damaged,
}

impl WalError {
    /// The text of this error.
    pub open spec fn message_text(self) -> Seq<char> {
        match self {
            WalError::InvalidMagic => "invalid wal magic"@,
            WalError::VersionMismatch { expected, got } => "wal format version mismatch: expected "@
                + crate::text::decimal(expected as nat) + ", got "@ + crate::text::decimal(
                got as nat,
            ),
            WalError::Damaged => "wal is damaged"@,
        }
    }

    /// The text of this error.
    pub fn message(&self) -> (text: String)
        ensures
            text@ == self.message_text(),
    {
        match self {
            WalError::InvalidMagic => String::from_str("invalid wal magic"),
            WalError::VersionMismatch { expected, got } => {
                let mut text = String::from_str("wal format version mismatch: expected ");
                crate::text::push_decimal(&mut text, *expected as u64);
                text.append(", got ");
                crate::text::push_decimal(&mut text, *got as u64);
                text
            },
            WalError::Damaged => String::from_str("wal is damaged"),
        }
    }
}

/// Refuses a log that was not read to its end: `valid` of its `len` bytes are sound frames.
pub fn check_whole(valid: u64, len: u64) -> (r: Result<(), WalError>)
    ensures
        r is Ok <==> valid == len,
        r matches Err(e) ==> e == WalError::Damaged,
{
    if valid == len {
        Ok(())
    } else {
        Err(WalError::Damaged)
    }
}

/// The log state.
#[verifier::ext_equal]
pub struct LogModel {
    pub vote: Option<Vote>,
    /// The entries in memory, by index.
    pub cache: Map<u64, EntryView>,
    /// The indices in the order in which their entries came, oldest first.
    pub order: Seq<u64>,
    pub last_purged: Option<LogId>,
    pub last_applied: Option<LogId>,
    pub last_membership: StoredMembershipView,
    pub snapshot: Option<SnapshotMetaView>,
}

/// The state of an empty log.
pub open spec fn empty_log() -> LogModel {
    LogModel {
        vote: None,
        cache: Map::empty(),
        order: Seq::empty(),
        last_purged: None,
        last_applied: None,
        last_membership: StoredMembership::unset(),
        snapshot: None,
    }
}

/// The cache after dropping its oldest entries until at most `size` are left.
pub open spec fn evicted(cache: Map<u64, EntryView>, order: Seq<u64>, size: nat) -> (
    Map<u64, EntryView>,
    Seq<u64>,
)
    decreases order.len(),
{
    if cache.len() <= size || order.len() == 0 {
        (cache, order)
    } else {
        evicted(cache.remove(order[0]), order.skip(1), size)
    }
}

/// The configuration after `entry`.
pub open spec fn membership_after(
    entry: EntryView,
    before: StoredMembershipView,
) -> StoredMembershipView {
    match entry.payload {
        PayloadView::Membership(membership) => StoredMembershipView {
            log_id: Some(entry.log_id),
            membership,
        },
        _ => before,
    }
}

/// The entries below `index`.
pub open spec fn below(cache: Map<u64, EntryView>, index: u64) -> Map<u64, EntryView> {
    cache.restrict(Set::new(|k: u64| k < index))
}

/// The entries above `index`.
pub open spec fn above(cache: Map<u64, EntryView>, index: u64) -> Map<u64, EntryView> {
    cache.restrict(Set::new(|k: u64| k > index))
}

/// The state after `record`, with room for `size` entries in memory.
pub open spec fn after_record(log: LogModel, record: RecordView, size: nat) -> LogModel {
    match record {
        RecordView::AppendLog(entry) => {
            let (cache, order) = evicted(
                log.cache.insert(entry.log_id.index, entry),
                log.order.push(entry.log_id.index),
                size,
            );
            LogModel {
                cache,
                order,
                last_applied: Some(entry.log_id),
                last_membership: membership_after(entry, log.last_membership),
                ..log
            }
        },
        RecordView::Vote(vote) => LogModel { vote: Some(vote), ..log },
        RecordView::SnapshotApplied(meta) => LogModel {
            snapshot: Some(meta),
            last_applied: meta.last_log_id,
            last_membership: meta.last_membership,
            ..log
        },
        RecordView::Truncate(log_id) => LogModel {
            cache: below(log.cache, log_id.index),
            order: log.order.filter(|i: u64| i < log_id.index),
            ..log
        },
        RecordView::Purge(log_id) => LogModel {
            cache: above(log.cache, log_id.index),
            order: log.order.filter(|i: u64| i > log_id.index),
            last_purged: Some(log_id),
            ..log
        },
    }
}

/// The state after a list of records.
pub open spec fn after_records(records: Seq<RecordView>, size: nat) -> LogModel
    decreases records.len(),
{
    if records.len() == 0 {
        empty_log()
    } else {
        after_record(after_records(records.drop_last(), size), records.last(), size)
    }
}

/// The state that the frames of a log describe, for a storage of format `version`.
pub open spec fn replayed(frames: Seq<FrameView>, version: u32, size: nat) -> Result<
    LogModel,
    WalError,
>
    decreases frames.len(),
{
    if frames.len() == 0 {
        Ok(empty_log())
    } else {
        match replayed(frames.drop_last(), version, size) {
            Err(e) => Err(e),
            Ok(log) => match frames.last() {
                FrameView::Header(magic, got) => if magic != wal_magic() {
                    Err(WalError::InvalidMagic)
                } else if got != version {
                    Err(WalError::VersionMismatch { expected: version, got })
                } else {
                    Ok(log)
                },
                FrameView::Record(record) => Ok(after_record(log, record, size)),
            },
        }
    }
}

/// The entries that the frames of a log still hold, by index.
pub open spec fn held_entries(frames: Seq<FrameView>) -> Map<u64, EntryView>
    decreases frames.len(),
{
    if frames.len() == 0 {
        Map::empty()
    } else {
        let held = held_entries(frames.drop_last());
        match frames.last() {
            FrameView::Record(RecordView::AppendLog(entry)) => held.insert(
                entry.log_id.index,
                entry,
            ),
            FrameView::Record(RecordView::Truncate(log_id)) => below(held, log_id.index),
            FrameView::Record(RecordView::Purge(log_id)) => above(held, log_id.index),
            FrameView::Record(RecordView::SnapshotApplied(meta)) => match meta.last_log_id {
                Some(id) => above(held, id.index),
                None => held,
            },
            _ => held,
        }
    }
}

/// Entries by index, seen as plain values.
pub open spec fn entry_views(m: Map<u64, Entry>) -> Map<u64, EntryView> {
    m.map_values(|e: Entry| e@)
}

/// Whether `list` is exactly the entries of `m` whose index lies in `range`, by
/// increasing index.
pub open spec fn lists_range(list: Seq<EntryView>, m: Map<u64, EntryView>, range: IndexRange) -> bool {
    &&& forall|i: int, j: int|
        0 <= i < j < list.len() ==> list[i].log_id.index < list[j].log_id.index
    &&& forall|i: int|
        0 <= i < list.len() ==> range.has(#[trigger] list[i].log_id.index) && m.contains_key(
            list[i].log_id.index,
        ) && m[list[i].log_id.index] == list[i]
    &&& forall|k: u64| #[trigger]
        m.contains_key(k) && range.has(k) ==> exists|i: int|
            0 <= i < list.len() && #[trigger] list[i].log_id.index == k
}

/// Whether every entry is kept under its own index.
pub open spec fn keyed_by_index(m: Map<u64, EntryView>) -> bool {
    forall|k: u64| #[trigger] m.contains_key(k) ==> m[k].log_id.index == k
}

proof fn filter_step(s: Seq<u64>, i: int, keep: spec_fn(u64) -> bool)
    requires
        0 <= i < s.len(),
    ensures
        s.take(i + 1).filter(keep) == (if keep(s[i]) {
            s.take(i).filter(keep).push(s[i])
        } else {
            s.take(i).filter(keep)
        }),
{
    reveal(Seq::filter);
    assert(s.take(i + 1).drop_last() =~= s.take(i));
    assert(s.take(i + 1).last() == s[i]);
}

/// Keys that are kept stay in the filtered order.
proof fn kept_keys_are_ordered(
    before: Map<u64, EntryView>,
    after: Map<u64, EntryView>,
    order: Seq<u64>,
    keep: spec_fn(u64) -> bool,
)
    requires
        forall|k: u64| #[trigger] before.contains_key(k) ==> order.contains(k),
        forall|k: u64| #[trigger] after.contains_key(k) ==> before.contains_key(k) && keep(k),
    ensures
        forall|k: u64| #[trigger] after.contains_key(k) ==> order.filter(keep).contains(k),
{
    assert forall|k: u64| #[trigger] after.contains_key(k) implies order.filter(keep).contains(k) by {
        assert(order.contains(k));
        let i = choose|i: int| 0 <= i < order.len() && order[i] == k;
        order.lemma_filter_contains(keep, i);
    }
}

/// A log that is refused at some frame is refused whatever follows.
proof fn refusal_stays(frames: Seq<FrameView>, n: nat, version: u32, size: nat)
    requires
        n <= frames.len(),
        replayed(frames.take(n as int), version, size) is Err,
    ensures
        replayed(frames, version, size) == replayed(frames.take(n as int), version, size),
    decreases frames.len(),
{
    if n == frames.len() {
        assert(frames.take(n as int) =~= frames);
    } else {
        assert(frames.drop_last().take(n as int) =~= frames.take(n as int));
        refusal_stays(frames.drop_last(), n, version, size);
    }
}

/// Drops the entries from `index` on.
fn remove_from(entries: &mut BTreeMap<u64, Entry>, index: u64)
    ensures
        entry_views(final(entries)@) == below(entry_views(old(entries)@), index),
{
    let ghost before = entries@;
    let keys = sorted_keys_u64(entries);
    let mut i: usize = 0;
    while i < keys.len()
        invariant
            i <= keys@.len(),
            forall|k: u64| #[trigger] before.contains_key(k) <==> keys@.contains(k),
            entries@ == before.remove_keys(
                Set::new(|k: u64| k >= index && keys@.take(i as int).contains(k)),
            ),
        decreases keys@.len() - i,
    {
        let key: u64 = keys[i];
        let ghost gone = Set::new(|k: u64| k >= index && keys@.take(i as int).contains(k));
        let ghost next = Set::new(|k: u64| k >= index && keys@.take(i + 1).contains(k));
        proof {
            take_contains_step(keys@, i as int);
        }
        if key >= index {
            entries.remove(&key);
        }
        assert(entries@ =~= before.remove_keys(next));
        i = i + 1;
    }
    proof {
        assert(keys@.take(keys@.len() as int) =~= keys@);
        assert(entry_views(entries@) =~= below(entry_views(before), index));
    }
}

/// Drops the entries up to and with `index`.
fn remove_through(entries: &mut BTreeMap<u64, Entry>, index: u64)
    ensures
        entry_views(final(entries)@) == above(entry_views(old(entries)@), index),
{
    let ghost before = entries@;
    let keys = sorted_keys_u64(entries);
    let mut i: usize = 0;
    while i < keys.len()
        invariant
            i <= keys@.len(),
            forall|k: u64| #[trigger] before.contains_key(k) <==> keys@.contains(k),
            entries@ == before.remove_keys(
                Set::new(|k: u64| k <= index && keys@.take(i as int).contains(k)),
            ),
        decreases keys@.len() - i,
    {
        let key: u64 = keys[i];
        let ghost next = Set::new(|k: u64| k <= index && keys@.take(i + 1).contains(k));
        proof {
            take_contains_step(keys@, i as int);
        }
        if key <= index {
            entries.remove(&key);
        }
        assert(entries@ =~= before.remove_keys(next));
        i = i + 1;
    }
    proof {
        assert(keys@.take(keys@.len() as int) =~= keys@);
        assert(entry_views(entries@) =~= above(entry_views(before), index));
    }
}

proof fn take_contains_step(s: Seq<u64>, i: int)
    requires
        0 <= i < s.len(),
    ensures
        forall|k: u64| #[trigger]
            s.take(i + 1).contains(k) <==> (s.take(i).contains(k) || k == s[i]),
{
    assert forall|k: u64| #[trigger]
        s.take(i + 1).contains(k) <==> (s.take(i).contains(k) || k == s[i]) by {
        let longer = s.take(i + 1);
        let shorter = s.take(i);
        if longer.contains(k) {
            let j = choose|j: int| 0 <= j < longer.len() && longer[j] == k;
            if j < i {
                assert(shorter[j] == k);
            }
        }
        if shorter.contains(k) {
            let j = choose|j: int| 0 <= j < shorter.len() && shorter[j] == k;
            assert(longer[j] == k);
        }
        if k == s[i] {
            assert(s.take(i + 1)[i] == k);
        }
    }
}

/// The views of a list of entries.
pub open spec fn entry_list(list: Seq<Entry>) -> Seq<EntryView> {
    list.map_values(|e: Entry| e@)
}

/// Lists the entries whose index lies in `range`, by increasing index.
fn list_entries(entries: BTreeMap<u64, Entry>, range: &IndexRange) -> (list: Vec<Entry>)
    requires
        keyed_by_index(entry_views(entries@)),
    ensures
        lists_range(entry_list(list@), entry_views(entries@), *range),
{
    let ghost all = entry_views(entries@);
    let keys = sorted_keys_u64(&entries);
    let mut rest = entries;
    let mut list: Vec<Entry> = Vec::new();
    let mut i: usize = 0;
    while i < keys.len()
        invariant
            i <= keys@.len(),
            increasing_u64(keys@),
            keyed_by_index(all),
            all == entry_views(entries@),
            forall|k: u64| #[trigger] all.contains_key(k) <==> keys@.contains(k),
            forall|j: int|
                i <= j < keys@.len() ==> rest@.contains_key(#[trigger] keys@[j]) && rest@[keys@[j]]@
                    == all[keys@[j]],
            forall|a: int, b: int|
                0 <= a < b < list@.len() ==> list@[a]@.log_id.index < list@[b]@.log_id.index,
            forall|a: int|
                0 <= a < list@.len() ==> range.has(#[trigger] list@[a]@.log_id.index)
                    && all.contains_key(list@[a]@.log_id.index) && all[list@[a]@.log_id.index]
                    == list@[a]@,
            forall|a: int, j: int|
                0 <= a < list@.len() && i <= j < keys@.len() ==> (#[trigger] list@[a])@.log_id.index
                    < #[trigger] keys@[j],
            forall|j: int|
                0 <= j < i && range.has(#[trigger] keys@[j]) ==> exists|a: int|
                    0 <= a < list@.len() && (#[trigger] list@[a])@.log_id.index == keys@[j],
        decreases keys@.len() - i,
    {
        let key: u64 = keys[i];
        let ghost before = list@;
        assert(all.contains_key(key));
        let found = rest.remove(&key);
        if range_contains(range, key) {
            if let Some(entry) = found {
                list.push(entry);
                assert(list@[list@.len() - 1]@.log_id.index == key);
            }
        }
        proof {
            assert forall|j: int| 0 <= j < i + 1 && range.has(#[trigger] keys@[j]) implies exists|
                a: int,
            |
                0 <= a < list@.len() && (#[trigger] list@[a])@.log_id.index == keys@[j] by {
                if j < i {
                    let a = choose|a: int|
                        0 <= a < before.len() && (#[trigger] before[a])@.log_id.index == keys@[j];
                    assert(list@[a]@.log_id.index == keys@[j]);
                }
            }
        }
        i = i + 1;
    }
    proof {
        let views = entry_list(list@);
        assert forall|k: u64| #[trigger] all.contains_key(k) && range.has(k) implies exists|a: int|
            0 <= a < views.len() && #[trigger] views[a].log_id.index == k by {
            let j = choose|j: int| 0 <= j < keys@.len() && keys@[j] == k;
            assert(keys@.contains(k));
            assert(range.has(keys@[j]));
            let a = choose|a: int|
                0 <= a < list@.len() && (#[trigger] list@[a])@.log_id.index == keys@[j];
            assert(views[a].log_id.index == k);
        }
    }
    list
}

/// Gathers the entries that the frames of a log still hold.
fn gather_entries(frames: Vec<WalFrame>) -> (entries: BTreeMap<u64, Entry>)
    ensures
        entry_views(entries@) == held_entries(frame_views(frames@)),
        keyed_by_index(entry_views(entries@)),
{
    let ghost all = frames@;
    let ghost views = frame_views(all);
    let mut entries: BTreeMap<u64, Entry> = BTreeMap::new();
    assert(views.take(0) =~= Seq::<FrameView>::empty());
    assert(entry_views(entries@) =~= Map::<u64, EntryView>::empty());
    for frame in it: frames
        invariant
            it.seq() == all,
            views == frame_views(all),
            entry_views(entries@) == held_entries(views.take(it.index())),
            keyed_by_index(entry_views(entries@)),
    {
        let ghost before = entry_views(entries@);
        proof {
            let i = it.index();
            assert(views.take(i + 1).drop_last() =~= views.take(i));
            assert(views.take(i + 1).last() == frame@);
        }
        match frame {
            WalFrame::Header(_) => {},
            WalFrame::Record(record) => {
                match record {
                    RaftWalRecord::AppendLog(entry) => {
                        let index: u64 = entry.log_id.index;
                        let ghost seen = entry@;
                        entries.insert(index, entry);
                        assert(entry_views(entries@) =~= before.insert(index, seen));
                    },
                    RaftWalRecord::Vote(_) => {},
                    RaftWalRecord::Truncate(log_id) => {
                        remove_from(&mut entries, log_id.index);
                    },
                    RaftWalRecord::Purge(log_id) => {
                        remove_through(&mut entries, log_id.index);
                    },
                    RaftWalRecord::SnapshotApplied(meta) => {
                        if let Some(id) = meta.last_log_id {
                            remove_through(&mut entries, id.index);
                        }
                    },
                }
            },
        }
    }
    assert(views.take(views.len() as int) =~= views);
    entries
}

/// The entries that the frames of a log still hold in `range`, by increasing index.
pub fn read_entries_from_wal(frames: Vec<WalFrame>, range: &IndexRange) -> (list: Vec<Entry>)
    ensures
        lists_range(entry_list(list@), held_entries(frame_views(frames@)), *range),
{
    let entries = gather_entries(frames);
    list_entries(entries, range)
}

/// The storage of one Raft group on one node.
#[derive(Debug)]
pub struct WalRaftStorage {
    config: WalStorageConfig,
    group_id: GroupId,
    node_id: u64,
    vote: Option<Vote>,
    log_cache: BTreeMap<u64, Entry>,
    log_order: VecDeque<u64>,
    pending_unsynced: usize,
    last_purged_log_id: Option<LogId>,
    purgeable_horizon: Option<LogId>,
    last_applied: Option<LogId>,
    last_membership: StoredMembership,
    snapshot_meta: Option<SnapshotMeta>,
    snapshot_path: Option<String>,
}

impl View for WalRaftStorage {
    type V = LogModel;

    closed spec fn view(&self) -> LogModel {
        LogModel {
            vote: self.vote,
            cache: entry_views(self.log_cache@),
            order: self.log_order@,
            last_purged: self.last_purged_log_id,
            last_applied: self.last_applied,
            last_membership: self.last_membership@,
            snapshot: match self.snapshot_meta {
                Some(meta) => Some(meta@),
                None => None,
            },
        }
    }
}

impl WalRaftStorage {
    /// Every entry in memory stands under its own index, and its index stands in the
    /// order of arrival.
    pub open spec fn wf(&self) -> bool {
        &&& keyed_by_index(self@.cache)
        &&& self@.cache.dom().finite()
        &&& forall|k: u64| #[trigger] self@.cache.contains_key(k) ==> self@.order.contains(k)
    }

    /// How many entries may stay in memory.
    pub closed spec fn cache_size(&self) -> nat {
        self.config.log_cache_size as nat
    }

    /// After how many entries the log is flushed.
    pub closed spec fn interval(&self) -> nat {
        self.config.fsync_interval as nat
    }

    /// How many records were written since the last flush.
    pub closed spec fn unsynced(&self) -> nat {
        self.pending_unsynced as nat
    }

    /// The settings and identity, which no operation changes.
    pub closed spec fn identity(&self) -> (WalStorageConfig, GroupId, u64) {
        (self.config, self.group_id, self.node_id)
    }

    /// The file of the snapshot installed since the storage was opened.
    pub closed spec fn snapshot_file(&self) -> Option<String> {
        self.snapshot_path
    }

    /// The boundary up to which the log may be purged.
    pub closed spec fn horizon(&self) -> Option<LogId> {
        self.purgeable_horizon
    }

    /// Everything beside the log state and the flush counter.
    pub open spec fn same_rest(&self, other: &Self) -> bool {
        &&& self.identity() == other.identity()
        &&& self.cache_size() == other.cache_size()
        &&& self.interval() == other.interval()
        &&& self.snapshot_file() == other.snapshot_file()
        &&& self.horizon() == other.horizon()
    }

    /// A storage with an empty log.
    fn empty(config: WalStorageConfig, group_id: GroupId, node_id: u64) -> (storage: Self)
        ensures
            storage.wf(),
            storage@ == empty_log(),
            storage.identity() == (config, group_id, node_id),
            storage.cache_size() == config.log_cache_size,
            storage.interval() == config.fsync_interval,
            storage.unsynced() == 0,
            storage.snapshot_file() is None,
            storage.horizon() is None,
    {
        let storage = WalRaftStorage {
            config,
            group_id,
            node_id,
            vote: None,
            log_cache: BTreeMap::new(),
            log_order: VecDeque::new(),
            pending_unsynced: 0,
            last_purged_log_id: None,
            purgeable_horizon: None,
            last_applied: None,
            last_membership: StoredMembership::default(),
            snapshot_meta: None,
            snapshot_path: None,
        };
        assert(storage@.cache =~= Map::<u64, EntryView>::empty());
        assert(storage@.order =~= Seq::<u64>::empty());
        storage
    }

    fn insert_entry(&mut self, entry: Entry)
        requires
            old(self).wf(),
        ensures
            final(self).wf(),
            final(self).same_rest(old(self)),
            final(self).unsynced() == old(self).unsynced(),
            ({
                let (cache, order) = evicted(
                    old(self)@.cache.insert(entry@.log_id.index, entry@),
                    old(self)@.order.push(entry@.log_id.index),
                    old(self).cache_size(),
                );
                final(self)@ == (LogModel { cache, order, ..old(self)@ })
            }),
    {
        let index: u64 = entry.log_id.index;
        let ghost before = self@;
        let ghost seen = entry@;
        self.log_cache.insert(index, entry);
        self.log_order.push_back(index);
        let ghost target = evicted(
            before.cache.insert(index, seen),
            before.order.push(index),
            self.cache_size(),
        );
        proof {
            assert(self@.cache =~= before.cache.insert(index, seen));
            assert forall|k: u64| #[trigger]
                self@.cache.contains_key(k) implies self@.order.contains(k) by {
                if k == index {
                    assert(self@.order[self@.order.len() - 1] == index);
                } else {
                    let i = choose|i: int| 0 <= i < before.order.len() && before.order[i] == k;
                    assert(before.order.contains(k));
                    assert(self@.order[i] == k);
                }
            }
        }
        while self.log_cache.len() > self.config.log_cache_size
            invariant
                self.wf(),
                evicted(self@.cache, self@.order, self.cache_size()) == target,
                self@ == (LogModel { cache: self@.cache, order: self@.order, ..before }),
                self.same_rest(old(self)),
                self.unsynced() == old(self).unsynced(),
            decreases self@.order.len(),
        {
            let ghost cache = self@.cache;
            let ghost order = self@.order;
            proof {
                assert(self.log_cache@.dom() =~= cache.dom());
                if order.len() == 0 {
                    assert(cache.dom() =~= Set::empty()) by {
                        assert forall|k: u64| !cache.dom().contains(k) by {
                            assert(cache.contains_key(k) ==> order.contains(k));
                        }
                    }
                    assert(false);
                }
            }
            if let Some(oldest) = self.log_order.pop_front() {
                self.log_cache.remove(&oldest);
                proof {
                    assert(self@.cache =~= cache.remove(order[0]));
                    assert(self@.order =~= order.skip(1));
                    assert forall|k: u64| #[trigger]
                        self@.cache.contains_key(k) implies self@.order.contains(k) by {
                        assert(cache.contains_key(k));
                        let i = choose|i: int| 0 <= i < order.len() && order[i] == k;
                        assert(self@.order[i - 1] == k);
                    }
                }
            }
        }
        proof {
            assert(self.log_cache@.dom() =~= self@.cache.dom());
        }
    }

    fn truncate_cache(&mut self, index: u64)
        requires
            old(self).wf(),
        ensures
            final(self).wf(),
            final(self).same_rest(old(self)),
            final(self).unsynced() == old(self).unsynced(),
            final(self)@ == (LogModel {
                cache: below(old(self)@.cache, index),
                order: old(self)@.order.filter(|i: u64| i < index),
                ..old(self)@
            }),
    {
        let ghost before = self@;
        remove_from(&mut self.log_cache, index);
        let mut kept: VecDeque<u64> = VecDeque::new();
        let ghost keep = |i: u64| i < index;
        let mut i: usize = 0;
        while i < self.log_order.len()
            invariant
                i <= self.log_order@.len(),
                self.log_order@ == before.order,
                keep == (|i: u64| i < index),
                kept@ == before.order.take(i as int).filter(keep),
            decreases self.log_order@.len() - i,
        {
            let one: u64 = self.log_order[i];
            proof {
                filter_step(before.order, i as int, keep);
            }
            if one < index {
                kept.push_back(one);
            }
            i = i + 1;
        }
        proof {
            assert(before.order.take(before.order.len() as int) =~= before.order);
        }
        self.log_order = kept;
        proof {
            assert(self@.cache =~= below(before.cache, index));
            assert(self@.cache.dom() =~= self.log_cache@.dom());
            kept_keys_are_ordered(before.cache, self@.cache, before.order, keep);
        }
    }

    fn purge_cache(&mut self, index: u64)
        requires
            old(self).wf(),
        ensures
            final(self).wf(),
            final(self).same_rest(old(self)),
            final(self).unsynced() == old(self).unsynced(),
            final(self)@ == (LogModel {
                cache: above(old(self)@.cache, index),
                order: old(self)@.order.filter(|i: u64| i > index),
                ..old(self)@
            }),
    {
        let ghost before = self@;
        remove_through(&mut self.log_cache, index);
        let mut kept: VecDeque<u64> = VecDeque::new();
        let ghost keep = |i: u64| i > index;
        let mut i: usize = 0;
        while i < self.log_order.len()
            invariant
                i <= self.log_order@.len(),
                self.log_order@ == before.order,
                keep == (|i: u64| i > index),
                kept@ == before.order.take(i as int).filter(keep),
            decreases self.log_order@.len() - i,
        {
            let one: u64 = self.log_order[i];
            proof {
                filter_step(before.order, i as int, keep);
            }
            if one > index {
                kept.push_back(one);
            }
            i = i + 1;
        }
        proof {
            assert(before.order.take(before.order.len() as int) =~= before.order);
        }
        self.log_order = kept;
        proof {
            assert(self@.cache =~= above(before.cache, index));
            assert(self@.cache.dom() =~= self.log_cache@.dom());
            kept_keys_are_ordered(before.cache, self@.cache, before.order, keep);
        }
    }

    fn apply_wal_record(&mut self, record: RaftWalRecord)
        requires
            old(self).wf(),
        ensures
            final(self).wf(),
            final(self).same_rest(old(self)),
            final(self).unsynced() == old(self).unsynced(),
            final(self)@ == after_record(old(self)@, record@, old(self).cache_size()),
    {
        match record {
            RaftWalRecord::AppendLog(entry) => {
                self.last_applied = Some(entry.log_id);
                if let EntryPayload::Membership(membership) = &entry.payload {
                    self.last_membership =
                    StoredMembership { log_id: Some(entry.log_id), membership: membership.clone() };
                }
                self.insert_entry(entry);
            },
            RaftWalRecord::Vote(vote) => {
                self.vote = Some(vote);
            },
            RaftWalRecord::SnapshotApplied(meta) => {
                self.last_applied = meta.last_log_id;
                self.last_membership = meta.last_membership.clone();
                self.snapshot_meta = Some(meta);
            },
            RaftWalRecord::Truncate(log_id) => {
                self.truncate_cache(log_id.index);
            },
            RaftWalRecord::Purge(log_id) => {
                self.purge_cache(log_id.index);
                self.last_purged_log_id = Some(log_id);
            },
        }
    }

    /// Arrives at the state that the frames of a log describe. An empty log gives an
    /// empty state; the caller then writes [`Self::build_header`] as the first frame.
    pub fn recover(
        config: WalStorageConfig,
        group_id: GroupId,
        node_id: u64,
        frames: Vec<WalFrame>,
    ) -> (r: Result<Self, WalError>)
        ensures
            match r {
                Ok(storage) => {
                    &&& replayed(
                        frame_views(frames@),
                        config.format_version,
                        config.log_cache_size as nat,
                    ) == Ok::<LogModel, WalError>(storage@)
                    &&& storage.wf()
                    &&& storage.identity() == (config, group_id, node_id)
                    &&& storage.cache_size() == config.log_cache_size
                    &&& storage.interval() == config.fsync_interval
                    &&& storage.unsynced() == 0
                    &&& storage.snapshot_file() is None
                    &&& storage.horizon() is None
                },
                Err(e) => replayed(
                    frame_views(frames@),
                    config.format_version,
                    config.log_cache_size as nat,
                ) == Err::<LogModel, WalError>(e),
            },
    {
        let ghost all = frames@;
        let ghost views = frame_views(all);
        let version: u32 = config.format_version;
        let ghost size = config.log_cache_size as nat;
        let mut storage = WalRaftStorage::empty(config, group_id, node_id);
        assert(views.take(0) =~= Seq::<FrameView>::empty());
        for frame in it: frames
            invariant
                it.seq() == all,
                views == frame_views(all),
                replayed(views.take(it.index()), version, size) == Ok::<LogModel, WalError>(storage@),
                storage.wf(),
                storage.identity() == (config, group_id, node_id),
                storage.cache_size() == size,
                storage.interval() == config.fsync_interval,
                storage.unsynced() == 0,
                storage.snapshot_file() is None,
                storage.horizon() is None,
                size == config.log_cache_size as nat,
                version == config.format_version,
        {
            proof {
                let i = it.index();
                assert(views.take(i + 1).drop_last() =~= views.take(i));
                assert(views.take(i + 1).last() == frame@);
                if replayed(views.take(i + 1), version, size) is Err {
                    refusal_stays(views, (i + 1) as nat, version, size);
                }
            }
            match frame {
                WalFrame::Header(header) => {
                    let magic = header.magic;
                    if magic[0] != 82 || magic[1] != 87 || magic[2] != 65 || magic[3] != 76 {
                        return Err(WalError::InvalidMagic);
                    }
                    assert(magic@ =~= wal_magic());
                    if header.format_version != version {
                        return Err(
                            WalError::VersionMismatch { expected: version, got: header.format_version },
                        );
                    }
                },
                WalFrame::Record(record) => {
                    storage.apply_wal_record(record);
                },
            }
        }
        assert(views.take(views.len() as int) =~= views);
        Ok(storage)
    }

    /// The first frame of a log created at `created_at` microseconds after the epoch.
    pub fn build_header(&self, created_at: u64) -> (header: WalHeader)
        ensures
            header.magic@ == wal_magic(),
            header.format_version == self.identity().0.format_version,
            header.group_id == self.identity().1,
            header.node_id == self.identity().2,
            header.created_at == created_at,
            header.reserved@ == Seq::new(40, |i: int| 0u8),
    {
        let mut reserved: Vec<u8> = Vec::new();
        let mut i: usize = 0;
        while i < 40
            invariant
                i <= 40,
                reserved@ == Seq::new(i as nat, |i: int| 0u8),
            decreases 40 - i,
        {
            reserved.push(0);
            i = i + 1;
            assert(reserved@ =~= Seq::new(i as nat, |i: int| 0u8));
        }
        let header = WalHeader {
            magic: [82, 87, 65, 76],
            format_version: self.config.format_version,
            group_id: self.group_id,
            node_id: self.node_id,
            created_at,
            reserved,
        };
        assert(header.magic@ =~= wal_magic());
        header
    }

    /// Whether the frame of an appended entry is flushed with the write.
    pub fn flushes_each_append(&self) -> (flush: bool)
        ensures
            flush == (self.interval() == 0),
    {
        self.config.fsync_interval == 0
    }

    fn note_written(&mut self, flushed: bool)
        requires
            old(self).wf(),
        ensures
            final(self).wf(),
            final(self)@ == old(self)@,
            final(self).same_rest(old(self)),
            final(self).unsynced() == (if flushed {
                0
            } else if old(self).unsynced() < usize::MAX {
                old(self).unsynced() + 1
            } else {
                usize::MAX as nat
            }),
    {
        if flushed {
            self.pending_unsynced = 0;
        } else {
            self.pending_unsynced = self.pending_unsynced.saturating_add(1);
        }
        assert(self@ == old(self)@);
    }

    /// Takes in an entry whose frame was written, flushed as
    /// [`Self::flushes_each_append`] said. The answer is whether the log is to be
    /// flushed now.
    pub fn append_entry(&mut self, entry: Entry) -> (flush: bool)
        requires
            old(self).wf(),
        ensures
            final(self).wf(),
            final(self)@ == after_record(
                old(self)@,
                RecordView::AppendLog(entry@),
                old(self).cache_size(),
            ),
            final(self).same_rest(old(self)),
            final(self).unsynced() == (if old(self).interval() == 0 {
                0
            } else if old(self).unsynced() < usize::MAX {
                old(self).unsynced() + 1
            } else {
                usize::MAX as nat
            }),
            flush == (old(self).interval() > 0 && final(self).unsynced() >= old(self).interval()),
    {
        let flushed = self.flushes_each_append();
        self.note_written(flushed);
        self.apply_wal_record(RaftWalRecord::AppendLog(entry));
        !flushed && self.pending_unsynced >= self.config.fsync_interval
    }

    /// Whether the log is to be flushed at the end of a batch of appended entries.
    pub fn flushes_after_batch(&self) -> (flush: bool)
        ensures
            flush == (self.interval() > 0 && self.unsynced() > 0),
    {
        self.config.fsync_interval > 0 && self.pending_unsynced > 0
    }

    /// Notes that the log was flushed.
    pub fn note_synced(&mut self)
        requires
            old(self).wf(),
        ensures
            final(self).wf(),
            final(self)@ == old(self)@,
            final(self).same_rest(old(self)),
            final(self).unsynced() == 0,
    {
        self.pending_unsynced = 0;
        assert(self@ == old(self)@);
    }

    /// Removes the entries from `log_id` on. The record was written and flushed.
    pub fn truncate(&mut self, log_id: LogId)
        requires
            old(self).wf(),
        ensures
            final(self).wf(),
            final(self)@ == after_record(
                old(self)@,
                RecordView::Truncate(log_id),
                old(self).cache_size(),
            ),
            final(self).same_rest(old(self)),
            final(self).unsynced() == 0,
    {
        self.note_written(true);
        self.apply_wal_record(RaftWalRecord::Truncate(log_id));
    }

    /// Removes the entries up to and with `log_id`. The record was written and flushed.
    pub fn purge(&mut self, log_id: LogId)
        requires
            old(self).wf(),
        ensures
            final(self).wf(),
            final(self)@ == after_record(
                old(self)@,
                RecordView::Purge(log_id),
                old(self).cache_size(),
            ),
            final(self).same_rest(old(self)),
            final(self).unsynced() == 0,
    {
        self.note_written(true);
        self.apply_wal_record(RaftWalRecord::Purge(log_id));
    }

    /// Keeps a vote. The record was written and flushed.
    pub fn save_vote(&mut self, vote: Vote)
        requires
            old(self).wf(),
        ensures
            final(self).wf(),
            final(self)@ == after_record(
                old(self)@,
                RecordView::Vote(vote),
                old(self).cache_size(),
            ),
            final(self).same_rest(old(self)),
            final(self).unsynced() == 0,
    {
        self.note_written(true);
        self.apply_wal_record(RaftWalRecord::Vote(vote));
    }

    /// The vote that was kept last.
    pub fn read_vote(&self) -> (vote: Option<Vote>)
        ensures
            vote == self@.vote,
    {
        self.vote
    }

    /// Takes over a snapshot whose file was written at `path`. Its record is to be
    /// written and flushed after that; [`Self::note_synced`] tells that it was.
    pub fn install_snapshot(&mut self, meta: SnapshotMeta, path: String)
        requires
            old(self).wf(),
        ensures
            final(self).wf(),
            final(self)@ == after_record(
                old(self)@,
                RecordView::SnapshotApplied(meta@),
                old(self).cache_size(),
            ),
            final(self).identity() == old(self).identity(),
            final(self).cache_size() == old(self).cache_size(),
            final(self).interval() == old(self).interval(),
            final(self).horizon() == old(self).horizon(),
            final(self).snapshot_file() == Some(path),
            final(self).unsynced() == old(self).unsynced(),
    {
        self.apply_wal_record(RaftWalRecord::SnapshotApplied(meta));
        let ghost before = self@;
        self.snapshot_path = Some(path);
        assert(self@ == before);
    }

    /// The file to read for the current snapshot, where one was installed since the
    /// storage was opened.
    pub fn current_snapshot_path(&self) -> (path: Option<String>)
        ensures
            path == (if self@.snapshot is Some {
                self.snapshot_file()
            } else {
                None
            }),
    {
        match (&self.snapshot_meta, &self.snapshot_path) {
            (Some(_), Some(path)) => Some(path.clone()),
            _ => None,
        }
    }

    /// The last purged entry, and the entry of highest index in memory.
    pub fn get_log_state(&self) -> (state: (Option<LogId>, Option<LogId>))
        requires
            self.wf(),
        ensures
            state.0 == self@.last_purged,
            match state.1 {
                Some(last) => self@.cache.contains_key(last.index) && self@.cache[last.index].log_id
                    == last && forall|k: u64| #[trigger]
                    self@.cache.contains_key(k) ==> k <= last.index,
                None => self@.cache == Map::<u64, EntryView>::empty(),
            },
    {
        let keys = sorted_keys_u64(&self.log_cache);
        let ghost cache = self@.cache;
        if keys.len() == 0 {
            proof {
                assert forall|k: u64| !cache.contains_key(k) by {
                    assert(self.log_cache@.contains_key(k) ==> keys@.contains(k));
                }
                assert(cache =~= Map::<u64, EntryView>::empty());
            }
            return (self.last_purged_log_id, None);
        }
        let last: u64 = keys[keys.len() - 1];
        assert(self.log_cache@.contains_key(last)) by {
            assert(keys@.contains(keys@[keys@.len() - 1]));
        }
        assert(cache.contains_key(last) && cache[last] == self.log_cache@[last]@);
        assert forall|k: u64| #[trigger] cache.contains_key(k) implies k <= last by {
            assert(self.log_cache@.contains_key(k));
            let j = choose|j: int| 0 <= j < keys@.len() && keys@[j] == k;
            assert(keys@.contains(k));
        }
        match self.log_cache.get(&last) {
            Some(entry) => (self.last_purged_log_id, Some(entry.log_id)),
            None => (self.last_purged_log_id, None),
        }
    }

    /// The entries in `range`, by increasing index: those in memory, and those that the
    /// frames of the log still hold. Where both have an index, memory counts.
    pub fn try_get_log_entries(&self, frames: Vec<WalFrame>, range: &IndexRange) -> (list: Vec<Entry>)
        requires
            self.wf(),
        ensures
            lists_range(
                entry_list(list@),
                held_entries(frame_views(frames@)).union_prefer_right(self@.cache),
                *range,
            ),
    {
        let ghost held = held_entries(frame_views(frames@));
        let ghost cache = self@.cache;
        let mut entries = gather_entries(frames);
        let keys = sorted_keys_u64(&self.log_cache);
        let mut i: usize = 0;
        assert(held.union_prefer_right(cache.restrict(keys@.take(0).to_set())) =~= held);
        while i < keys.len()
            invariant
                i <= keys@.len(),
                cache == self@.cache,
                keyed_by_index(cache),
                keyed_by_index(held),
                forall|k: u64| #[trigger] self.log_cache@.contains_key(k) <==> keys@.contains(k),
                entry_views(entries@) == held.union_prefer_right(
                    cache.restrict(keys@.take(i as int).to_set()),
                ),
            decreases keys@.len() - i,
        {
            let key: u64 = keys[i];
            assert(keys@.contains(key));
            assert(cache.contains_key(key) && cache[key] == self.log_cache@[key]@);
            let ghost before = entry_views(entries@);
            if let Some(entry) = self.log_cache.get(&key) {
                let copy = entry.clone();
                entries.insert(key, copy);
            }
            proof {
                take_contains_step(keys@, i as int);
                assert forall|k: u64|
                    keys@.take(i + 1).to_set().contains(k) <==> (keys@.take(
                        i as int,
                    ).to_set().contains(k) || k == key) by {
                    assert(keys@.take(i + 1).contains(k) <==> (keys@.take(i as int).contains(k)
                        || k == keys@[i as int]));
                }
                assert(entry_views(entries@) =~= before.insert(key, cache[key]));
                assert(entry_views(entries@) =~= held.union_prefer_right(
                    cache.restrict(keys@.take(i + 1).to_set()),
                ));
            }
            i = i + 1;
        }
        proof {
            assert(keys@.take(keys@.len() as int) =~= keys@);
            assert forall|k: u64| #[trigger] cache.contains_key(k) implies keys@.to_set().contains(
                k,
            ) by {
                assert(self.log_cache@.contains_key(k));
            }
            assert(cache.restrict(keys@.to_set()) =~= cache);
        }
        list_entries(entries, range)
    }

    /// The entries between two log ids, both counted in.
    pub fn get_entries_by_log_id(&self, frames: Vec<WalFrame>, start: LogId, end: LogId) -> (list: Vec<
        Entry,
    >)
        requires
            self.wf(),
        ensures
            lists_range(
                entry_list(list@),
                held_entries(frame_views(frames@)).union_prefer_right(self@.cache),
                (IndexRange {
                    start: crate::raft::types::Bound::Included(start.index),
                    end: crate::raft::types::Bound::Included(end.index),
                }),
            ),
    {
        let range = IndexRange {
            start: crate::raft::types::Bound::Included(start.index),
            end: crate::raft::types::Bound::Included(end.index),
        };
        self.try_get_log_entries(frames, &range)
    }

    /// The entry applied last and the configuration in force.
    pub fn applied_state(&self) -> (state: (Option<LogId>, StoredMembership))
        ensures
            state.0 == self@.last_applied,
            state.1@ == self@.last_membership,
    {
        (self.last_applied, self.last_membership.clone())
    }

    /// Notes that `entry` is being applied. The answer is the command for the state
    /// machine, where the entry carries one.
    pub fn apply(&mut self, entry: &Entry) -> (command: Option<Vec<u8>>)
        requires
            old(self).wf(),
        ensures
            final(self).wf(),
            final(self)@ == (LogModel {
                last_applied: Some(entry@.log_id),
                last_membership: membership_after(entry@, old(self)@.last_membership),
                ..old(self)@
            }),
            final(self).same_rest(old(self)),
            final(self).unsynced() == old(self).unsynced(),
            match entry@.payload {
                PayloadView::Normal(bytes) => command is Some && command->0@ == bytes,
                _ => command is None,
            },
    {
        self.last_applied = Some(entry.log_id);
        match &entry.payload {
            EntryPayload::Blank => None,
            EntryPayload::Normal(bytes) => {
                let copy = crate::bytes::copy_range(bytes.as_slice(), 0, bytes.len());
                assert(copy@ =~= bytes@);
                Some(copy)
            },
            EntryPayload::Membership(membership) => {
                self.last_membership =
                StoredMembership { log_id: Some(entry.log_id), membership: membership.clone() };
                None
            },
        }
    }

    /// Sets the boundary up to which the log may be purged.
    pub fn set_purgeable_horizon(&mut self, horizon: Option<LogId>)
        requires
            old(self).wf(),
        ensures
            final(self).wf(),
            final(self)@ == old(self)@,
            final(self).horizon() == horizon,
            final(self).identity() == old(self).identity(),
            final(self).cache_size() == old(self).cache_size(),
            final(self).interval() == old(self).interval(),
            final(self).snapshot_file() == old(self).snapshot_file(),
            final(self).unsynced() == old(self).unsynced(),
    {
        self.purgeable_horizon = horizon;
        assert(self@ == old(self)@);
    }

    /// A reader over the entries in memory.
    pub fn get_log_reader(&self) -> (reader: WalLogReader)
        requires
            self.wf(),
        ensures
            reader@ == self@.cache,
            reader.wf(),
    {
        let ghost cache = self@.cache;
        let keys = sorted_keys_u64(&self.log_cache);
        let mut entries: BTreeMap<u64, Entry> = BTreeMap::new();
        let mut i: usize = 0;
        assert(entry_views(entries@) =~= cache.restrict(keys@.take(0).to_set()));
        while i < keys.len()
            invariant
                i <= keys@.len(),
                cache == self@.cache,
                forall|k: u64| #[trigger] self.log_cache@.contains_key(k) <==> keys@.contains(k),
                entry_views(entries@) == cache.restrict(keys@.take(i as int).to_set()),
            decreases keys@.len() - i,
        {
            let key: u64 = keys[i];
            assert(keys@.contains(key));
            assert(cache.contains_key(key) && cache[key] == self.log_cache@[key]@);
            let ghost before = entry_views(entries@);
            if let Some(entry) = self.log_cache.get(&key) {
                let copy = entry.clone();
                entries.insert(key, copy);
            }
            proof {
                take_contains_step(keys@, i as int);
                assert forall|k: u64|
                    keys@.take(i + 1).to_set().contains(k) <==> (keys@.take(
                        i as int,
                    ).to_set().contains(k) || k == key) by {
                    assert(keys@.take(i + 1).contains(k) <==> (keys@.take(i as int).contains(k)
                        || k == keys@[i as int]));
                }
                assert(entry_views(entries@) =~= before.insert(key, cache[key]));
                assert(entry_views(entries@) =~= cache.restrict(keys@.take(i + 1).to_set()));
            }
            i = i + 1;
        }
        proof {
            assert(keys@.take(keys@.len() as int) =~= keys@);
            assert forall|k: u64| #[trigger] cache.contains_key(k) implies keys@.to_set().contains(
                k,
            ) by {
                assert(self.log_cache@.contains_key(k));
            }
            assert(cache.restrict(keys@.to_set()) =~= cache);
        }
        WalLogReader { entries }
    }

    /// A builder for a snapshot of what has been applied, named by the time in
    /// microseconds after the epoch.
    pub fn get_snapshot_builder(&self, now_micros: u64) -> (builder: WalSnapshotBuilder)
        ensures
            builder.meta@ == (SnapshotMetaView {
                last_log_id: self@.last_applied,
                last_membership: self@.last_membership,
                snapshot_id: "snapshot-"@ + crate::text::decimal(now_micros as nat),
            }),
    {
        let mut snapshot_id = String::from_str("snapshot-");
        crate::text::push_decimal(&mut snapshot_id, now_micros);
        WalSnapshotBuilder {
            meta: SnapshotMeta {
                last_log_id: self.last_applied,
                last_membership: self.last_membership.clone(),
                snapshot_id,
            },
        }
    }

    /// The file of this storage's log.
    pub fn wal_file(&self) -> (path: String)
        ensures
            path@ == wal_file_path(
                self.identity().0.wal_dir@,
                self.identity().1,
                self.identity().2,
            ),
    {
        wal_path(self.config.wal_dir.as_str(), self.group_id, self.node_id)
    }

    /// The file for a snapshot named `snapshot_id`.
    pub fn snapshot_file_for(&self, snapshot_id: &str) -> (path: String)
        ensures
            path@ == snapshot_file_path(
                self.identity().0.snapshot_dir@,
                self.identity().1,
                snapshot_id@,
            ),
    {
        snapshot_path(self.config.snapshot_dir.as_str(), self.group_id, snapshot_id)
    }

    /// The bytes of the file for a snapshot, where `meta` is its metadata in encoded
    /// form.
    pub fn snapshot_bytes(&self, meta: &[u8], data: &[u8]) -> (file: Vec<u8>)
        requires
            meta@.len() <= u32::MAX,
            self.identity().0.snapshot_chunk_size <= u32::MAX || data@.len() <= u32::MAX,
        ensures
            file@ == crate::raft::snapshot::snapshot_file(
                meta@,
                data@,
                self.identity().0.snapshot_chunk_size as nat,
            ),
    {
        crate::raft::snapshot::encode_snapshot(meta, data, self.config.snapshot_chunk_size)
    }
}

/// Reads the entries that were in memory when it was made.
#[derive(Debug)]
pub struct WalLogReader {
    entries: BTreeMap<u64, Entry>,
}

impl View for WalLogReader {
    type V = Map<u64, EntryView>;

    closed spec fn view(&self) -> Map<u64, EntryView> {
        entry_views(self.entries@)
    }
}

impl WalLogReader {
    /// Every entry stands under its own index.
    pub open spec fn wf(&self) -> bool {
        keyed_by_index(self@)
    }

    /// The entries in `range`, by increasing index.
    pub fn try_get_log_entries(&self, range: &IndexRange) -> (list: Vec<Entry>)
        requires
            self.wf(),
        ensures
            lists_range(entry_list(list@), self@, *range),
    {
        let keys = sorted_keys_u64(&self.entries);
        let mut list: Vec<Entry> = Vec::new();
        let ghost all = self@;
        let mut i: usize = 0;
        while i < keys.len()
            invariant
                i <= keys@.len(),
                increasing_u64(keys@),
                keyed_by_index(all),
                all == self@,
                forall|k: u64| #[trigger] self.entries@.contains_key(k) <==> keys@.contains(k),
                forall|a: int, b: int|
                    0 <= a < b < list@.len() ==> list@[a]@.log_id.index < list@[b]@.log_id.index,
                forall|a: int|
                    0 <= a < list@.len() ==> range.has(#[trigger] list@[a]@.log_id.index)
                        && all.contains_key(list@[a]@.log_id.index) && all[list@[a]@.log_id.index]
                        == list@[a]@,
                forall|a: int, j: int|
                    0 <= a < list@.len() && i <= j < keys@.len() ==> (#[trigger]
                    list@[a])@.log_id.index < #[trigger] keys@[j],
                forall|j: int|
                    0 <= j < i && range.has(#[trigger] keys@[j]) ==> exists|a: int|
                        0 <= a < list@.len() && (#[trigger] list@[a])@.log_id.index == keys@[j],
            decreases keys@.len() - i,
        {
            let key: u64 = keys[i];
            let ghost before = list@;
            assert(keys@.contains(key));
            assert(all.contains_key(key) && all[key] == self.entries@[key]@);
            if range_contains(range, key) {
                if let Some(entry) = self.entries.get(&key) {
                    list.push(entry.clone());
                    assert(list@[list@.len() - 1]@.log_id.index == key);
                }
            }
            proof {
                assert forall|j: int|
                    0 <= j < i + 1 && range.has(#[trigger] keys@[j]) implies exists|a: int|
                    0 <= a < list@.len() && (#[trigger] list@[a])@.log_id.index == keys@[j] by {
                    if j < i {
                        let a = choose|a: int|
                            0 <= a < before.len() && (#[trigger] before[a])@.log_id.index
                                == keys@[j];
                        assert(list@[a]@.log_id.index == keys@[j]);
                    }
                }
            }
            i = i + 1;
        }
        proof {
            let views = entry_list(list@);
            assert forall|k: u64| #[trigger] all.contains_key(k) && range.has(k) implies exists|
                a: int,
            |
                0 <= a < views.len() && #[trigger] views[a].log_id.index == k by {
                assert(self.entries@.contains_key(k));
                let j = choose|j: int| 0 <= j < keys@.len() && keys@[j] == k;
                assert(keys@.contains(k));
                assert(range.has(keys@[j]));
                let a = choose|a: int|
                    0 <= a < list@.len() && (#[trigger] list@[a])@.log_id.index == keys@[j];
                assert(views[a].log_id.index == k);
            }
        }
        list
    }
}

/// Builds a snapshot.
#[derive(Debug)]
pub struct WalSnapshotBuilder {
    pub meta: SnapshotMeta,
}

impl WalSnapshotBuilder {
    /// The snapshot: its metadata, and no data.
    pub fn build_snapshot(&self) -> (snapshot: (SnapshotMeta, Vec<u8>))
        ensures
            snapshot.0@ == self.meta@,
            snapshot.1@ == Seq::<u8>::empty(),
    {
        (self.meta.clone(), Vec::new())
    }
}

/// The path of a group's log.
pub open spec fn wal_file_path(base: Seq<char>, group_id: GroupId, node_id: u64) -> Seq<char> {
    crate::paths::joined(
        base,
        "raft-"@ + crate::text::decimal(group_id.0 as nat) + "-"@ + crate::text::decimal(
            node_id as nat,
        ) + ".wal"@,
    )
}

/// The path of a group's snapshot.
pub open spec fn snapshot_file_path(base: Seq<char>, group_id: GroupId, snapshot_id: Seq<char>) -> Seq<
    char,
> {
    crate::paths::joined(
        base,
        "snapshot-"@ + crate::text::decimal(group_id.0 as nat) + "-"@ + snapshot_id + ".alopex"@,
    )
}

/// The path of a group's log.
pub fn wal_path(base: &str, group_id: GroupId, node_id: u64) -> (path: String)
    ensures
        path@ == wal_file_path(base@, group_id, node_id),
{
    let mut name = String::from_str("raft-");
    crate::text::push_decimal(&mut name, group_id.0);
    name.append("-");
    crate::text::push_decimal(&mut name, node_id);
    name.append(".wal");
    crate::paths::join(base, name.as_str())
}

/// The path of a group's snapshot.
pub fn snapshot_path(base: &str, group_id: GroupId, snapshot_id: &str) -> (path: String)
    ensures
        path@ == snapshot_file_path(base@, group_id, snapshot_id@),
{
    let mut name = String::from_str("snapshot-");
    crate::text::push_decimal(&mut name, group_id.0);
    name.append("-");
    name.append(snapshot_id);
    name.append(".alopex");
    crate::paths::join(base, name.as_str())
}

/// The frames of records.
pub open spec fn record_frames(records: Seq<RecordView>) -> Seq<FrameView> {
    records.map_values(|r: RecordView| FrameView::Record(r))
}

/// Replaying a log that starts with a sound header arrives at the state that its
/// records lead to, one by one: a restart loses nothing and adds nothing.
pub proof fn recovery_restores_the_state(records: Seq<RecordView>, version: u32, size: nat)
    ensures
        replayed(
            seq![FrameView::Header(wal_magic(), version)] + record_frames(records),
            version,
            size,
        ) == Ok::<LogModel, WalError>(after_records(records, size)),
    decreases records.len(),
{
    let header = seq![FrameView::Header(wal_magic(), version)];
    let frames = header + record_frames(records);
    if records.len() == 0 {
        assert(frames.drop_last() =~= Seq::<FrameView>::empty());
        assert(replayed(frames.drop_last(), version, size) == Ok::<LogModel, WalError>(empty_log()));
    } else {
        recovery_restores_the_state(records.drop_last(), version, size);
        assert(frames.drop_last() =~= header + record_frames(records.drop_last()));
        assert(frames.last() == FrameView::Record(records.last()));
    }
}

/// A log of another format version is refused.
pub proof fn other_version_is_refused(rest: Seq<FrameView>, version: u32, other: u32, size: nat)
    requires
        version != other,
    ensures
        replayed(seq![FrameView::Header(wal_magic(), other)] + rest, version, size) == Err::<
            LogModel,
            WalError,
        >(WalError::VersionMismatch { expected: version, got: other }),
{
    let header = seq![FrameView::Header(wal_magic(), other)];
    let frames = header + rest;
    assert(frames.take(1) =~= header);
    assert(header.drop_last() =~= Seq::<FrameView>::empty());
    assert(replayed(header.drop_last(), version, size) == Ok::<LogModel, WalError>(empty_log()));
    refusal_stays(frames, 1, version, size);
}

/// A saved vote stands until another vote is saved.
pub proof fn vote_stands_until_the_next(log: LogModel, record: RecordView, size: nat)
    ensures
        after_record(log, record, size).vote == (match record {
            RecordView::Vote(vote) => Some(vote),
            _ => log.vote,
        }),
{
}

/// After an append, at most the configured number of entries is in memory.
pub proof fn memory_is_bounded(log: LogModel, entry: EntryView, size: nat)
    requires
        log.cache.dom().finite(),
        forall|k: u64| #[trigger] log.cache.contains_key(k) ==> log.order.contains(k),
    ensures
        after_record(log, RecordView::AppendLog(entry), size).cache.len() <= size,
{
    let index = entry.log_id.index;
    let cache = log.cache.insert(index, entry);
    let order = log.order.push(index);
    assert forall|k: u64| #[trigger] cache.contains_key(k) implies order.contains(k) by {
        if k == index {
            assert(order[order.len() - 1] == k);
        } else {
            let i = choose|i: int| 0 <= i < log.order.len() && log.order[i] == k;
            assert(log.order.contains(k));
            assert(order[i] == k);
        }
    }
    eviction_bounds(cache, order, size);
}

proof fn eviction_bounds(cache: Map<u64, EntryView>, order: Seq<u64>, size: nat)
    requires
        cache.dom().finite(),
        forall|k: u64| #[trigger] cache.contains_key(k) ==> order.contains(k),
    ensures
        evicted(cache, order, size).0.len() <= size,
    decreases order.len(),
{
    if cache.len() <= size {
    } else if order.len() == 0 {
        assert(cache.dom() =~= Set::empty()) by {
            assert forall|k: u64| !cache.dom().contains(k) by {
                assert(cache.contains_key(k) ==> order.contains(k));
            }
        }
    } else {
        let fewer = cache.remove(order[0]);
        assert forall|k: u64| #[trigger] fewer.contains_key(k) implies order.skip(1).contains(k) by {
            assert(cache.contains_key(k));
            let i = choose|i: int| 0 <= i < order.len() && order[i] == k;
            assert(order.skip(1)[i - 1] == k);
        }
        eviction_bounds(fewer, order.skip(1), size);
    }
}

/// An appended entry can be read from the log, whether or not it is still in memory.
pub proof fn appended_entry_is_held(frames: Seq<FrameView>, entry: EntryView)
    ensures
        held_entries(
            frames.push(FrameView::Record(RecordView::AppendLog(entry))),
        ).contains_key(entry.log_id.index),
        held_entries(
            frames.push(FrameView::Record(RecordView::AppendLog(entry))),
        )[entry.log_id.index] == entry,
{
    let longer = frames.push(FrameView::Record(RecordView::AppendLog(entry)));
    assert(longer.drop_last() =~= frames);
}

/// Whether `frame` takes the entry at `index` out of the log, or replaces it.
pub open spec fn drops_entry(frame: FrameView, index: u64) -> bool {
    match frame {
        FrameView::Record(RecordView::AppendLog(entry)) => entry.log_id.index == index,
        FrameView::Record(RecordView::Truncate(log_id)) => index >= log_id.index,
        FrameView::Record(RecordView::Purge(log_id)) => index <= log_id.index,
        FrameView::Record(RecordView::SnapshotApplied(meta)) => match meta.last_log_id {
            Some(id) => index <= id.index,
            None => false,
        },
        _ => false,
    }
}

/// An entry of the log stays readable until it is truncated, purged, covered by a
/// snapshot or replaced.
pub proof fn held_entry_stays(frames: Seq<FrameView>, frame: FrameView, index: u64)
    requires
        held_entries(frames).contains_key(index),
        !drops_entry(frame, index),
    ensures
        held_entries(frames.push(frame)).contains_key(index),
        held_entries(frames.push(frame))[index] == held_entries(frames)[index],
{
    assert(frames.push(frame).drop_last() =~= frames);
}

/// After a truncation no entry at or after its index is left, in memory or in the log.
pub proof fn truncation_removes(log: LogModel, frames: Seq<FrameView>, log_id: LogId, index: u64, size: nat)
    requires
        index >= log_id.index,
    ensures
        !after_record(log, RecordView::Truncate(log_id), size).cache.contains_key(index),
        !held_entries(
            frames.push(FrameView::Record(RecordView::Truncate(log_id))),
        ).contains_key(index),
{
    assert(frames.push(FrameView::Record(RecordView::Truncate(log_id))).drop_last() =~= frames);
}

/// After a purge no entry up to its index is left, in memory or in the log.
pub proof fn purge_removes(log: LogModel, frames: Seq<FrameView>, log_id: LogId, index: u64, size: nat)
    requires
        index <= log_id.index,
    ensures
        !after_record(log, RecordView::Purge(log_id), size).cache.contains_key(index),
        !held_entries(
            frames.push(FrameView::Record(RecordView::Purge(log_id))),
        ).contains_key(index),
        after_record(log, RecordView::Purge(log_id), size).last_purged == Some(log_id),
{
    assert(frames.push(FrameView::Record(RecordView::Purge(log_id))).drop_last() =~= frames);
}

/// What is left of a cache without the entries at the first `n` places of an order of arrival.
spec fn without_oldest(cache: Map<u64, EntryView>, order: Seq<u64>, n: int) -> Map<u64, EntryView> {
    cache.remove_keys(order.take(n).to_set())
}

proof fn eviction_takes_the_oldest(
    cache: Map<u64, EntryView>,
    order: Seq<u64>,
    size: nat,
) -> (n: int)
    requires
        cache.dom().finite(),
        forall|k: u64| #[trigger] cache.contains_key(k) ==> order.contains(k),
    ensures
        0 <= n <= order.len(),
        evicted(cache, order, size).1 == order.skip(n),
        evicted(cache, order, size).0 == without_oldest(cache, order, n),
        evicted(cache, order, size).0.len() == (if cache.len() < size {
            cache.len()
        } else {
            size
        }),
        evicted(cache, order, size).0.dom().finite(),
        cache.len() <= size ==> n == 0,
        n > 0 ==> without_oldest(cache, order, n - 1).len() > size,
    decreases order.len(),
{
    if cache.len() <= size {
        assert(order.skip(0) =~= order);
        assert(without_oldest(cache, order, 0) =~= cache);
        0
    } else if order.len() == 0 {
        assert(cache.dom() =~= Set::empty()) by {
            assert forall|k: u64| !cache.dom().contains(k) by {
                assert(cache.contains_key(k) ==> order.contains(k));
            }
        }
        0
    } else {
        let fewer = cache.remove(order[0]);
        let rest = order.skip(1);
        assert(fewer.dom() =~= cache.dom().remove(order[0]));
        assert forall|k: u64| #[trigger] fewer.contains_key(k) implies rest.contains(k) by {
            assert(cache.contains_key(k));
            let i = choose|i: int| 0 <= i < order.len() && order[i] == k;
            assert(rest[i - 1] == k);
        }
        let m = eviction_takes_the_oldest(fewer, rest, size);
        assert(rest.skip(m) =~= order.skip(m + 1));
        without_one_more(cache, order, m);
        if m > 0 {
            without_one_more(cache, order, m - 1);
        } else {
            assert(without_oldest(cache, order, 0) =~= cache);
        }
        m + 1
    }
}

proof fn without_one_more(cache: Map<u64, EntryView>, order: Seq<u64>, m: int)
    requires
        0 <= m < order.len(),
    ensures
        without_oldest(cache.remove(order[0]), order.skip(1), m) == without_oldest(
            cache,
            order,
            m + 1,
        ),
{
    let rest = order.skip(1);
    assert forall|k: u64| #[trigger]
        order.take(m + 1).contains(k) <==> (rest.take(m).contains(k) || k == order[0]) by {
        let longer = order.take(m + 1);
        let shorter = rest.take(m);
        if longer.contains(k) {
            let j = choose|j: int| 0 <= j < longer.len() && longer[j] == k;
            if j > 0 {
                assert(shorter[j - 1] == k);
            }
        }
        if shorter.contains(k) {
            let j = choose|j: int| 0 <= j < shorter.len() && shorter[j] == k;
            assert(longer[j + 1] == k);
        }
        assert(longer[0] == order[0]);
    }
    assert(order.take(m + 1).to_set() =~= rest.take(m).to_set().insert(order[0])) by {
        assert forall|k: u64| #[trigger]
            order.take(m + 1).to_set().contains(k) <==> rest.take(m).to_set().insert(
                order[0],
            ).contains(k) by {
            assert(order.take(m + 1).contains(k) <==> (rest.take(m).contains(k) || k == order[0]));
        }
    }
    assert(without_oldest(cache.remove(order[0]), rest, m) =~= without_oldest(cache, order, m + 1));
}

/// Whether every entry in memory stands in the order of arrival.
pub open spec fn cache_is_ordered(log: LogModel) -> bool {
    &&& log.cache.dom().finite()
    &&& forall|k: u64| #[trigger] log.cache.contains_key(k) ==> log.order.contains(k)
}

/// An append keeps as many entries in memory as there is room for, no fewer: those that were
/// there, with the new one among them, unless there is no room for all. Entries are not changed,
/// and none appears but the new one.
pub proof fn append_keeps_what_there_is_room_for(log: LogModel, entry: EntryView, size: nat)
    requires
        cache_is_ordered(log),
    ensures
        ({
            let after = after_record(log, RecordView::AppendLog(entry), size);
            let all = log.cache.insert(entry.log_id.index, entry);
            &&& after.cache.len() == (if all.len() < size {
                all.len()
            } else {
                size
            })
            &&& all.len() <= size ==> after.cache == all
            &&& forall|k: u64| #[trigger]
                after.cache.contains_key(k) ==> all.contains_key(k) && after.cache[k] == all[k]
            &&& cache_is_ordered(after)
        }),
{
    let index = entry.log_id.index;
    let cache = log.cache.insert(index, entry);
    let order = log.order.push(index);
    assert(cache.dom() =~= log.cache.dom().insert(index));
    assert forall|k: u64| #[trigger] cache.contains_key(k) implies order.contains(k) by {
        if k == index {
            assert(order[order.len() - 1] == k);
        } else {
            let i = choose|i: int| 0 <= i < log.order.len() && log.order[i] == k;
            assert(log.order.contains(k));
            assert(order[i] == k);
        }
    }
    let n = eviction_takes_the_oldest(cache, order, size);
    let left = evicted(cache, order, size);
    if cache.len() <= size {
        assert(without_oldest(cache, order, 0) =~= cache);
    }
    assert forall|k: u64| #[trigger] left.0.contains_key(k) implies left.1.contains(k) by {
        assert(cache.contains_key(k));
        let i = choose|i: int| 0 <= i < order.len() && order[i] == k;
        if i < n {
            assert(order.take(n)[i] == k);
        } else {
            assert(order.skip(n)[i - n] == k);
        }
    }
}

/// Where there is room for an entry at all, the entry that was appended last is in memory, and
/// entries leave in the order in which they came: one that came later stays as long as one that
/// came before it does. An index that comes twice would leave with its first coming.
pub proof fn newest_entries_stay_in_memory(
    log: LogModel,
    entry: EntryView,
    size: nat,
    older: int,
    newer: int,
)
    requires
        cache_is_ordered(log),
        log.order.push(entry.log_id.index).no_duplicates(),
    ensures
        ({
            let after = after_record(log, RecordView::AppendLog(entry), size);
            let all = log.cache.insert(entry.log_id.index, entry);
            let order = log.order.push(entry.log_id.index);
            &&& size > 0 ==> after.cache.contains_key(entry.log_id.index)
                && after.cache[entry.log_id.index] == entry
            &&& 0 <= older <= newer < order.len() && all.contains_key(order[newer])
                && after.cache.contains_key(order[older]) ==> after.cache.contains_key(order[newer])
        }),
{
    let index = entry.log_id.index;
    let cache = log.cache.insert(index, entry);
    let order = log.order.push(index);
    append_keeps_what_there_is_room_for(log, entry, size);
    assert(cache.dom() =~= log.cache.dom().insert(index));
    assert forall|k: u64| #[trigger] cache.contains_key(k) implies order.contains(k) by {
        if k == index {
            assert(order[order.len() - 1] == k);
        } else {
            let i = choose|i: int| 0 <= i < log.order.len() && log.order[i] == k;
            assert(log.order.contains(k));
            assert(order[i] == k);
        }
    }
    let n = eviction_takes_the_oldest(cache, order, size);
    let left = evicted(cache, order, size).0;
    assert forall|i: int| 0 <= i < order.len() && cache.contains_key(order[i]) implies (
    #[trigger] left.contains_key(order[i]) <==> i >= n) by {
        if i < n {
            assert(order.take(n)[i] == order[i]);
        } else if order.take(n).contains(order[i]) {
            let j = choose|j: int| 0 <= j < n && order.take(n)[j] == order[i];
            assert(order[j] == order[i]);
        }
    }
    if size > 0 {
        let last = order.len() - 1;
        if n > last {
            assert(left.dom() =~= Set::empty()) by {
                assert forall|k: u64| !left.dom().contains(k) by {
                    if left.contains_key(k) {
                        assert(cache.contains_key(k));
                        let i = choose|i: int| 0 <= i < order.len() && order[i] == k;
                        assert(!left.contains_key(order[i]));
                    }
                }
            }
            assert(cache.len() > 0) by {
                assert(cache.dom().contains(index));
                if cache.dom().len() == 0 {
                    assert(cache.dom() =~= Set::empty());
                }
            }
            assert(false);
        }
        assert(left.contains_key(order[last]));
    }
    if 0 <= older <= newer < order.len() && cache.contains_key(order[newer]) && left.contains_key(
        order[older],
    ) {
        assert(cache.contains_key(order[older]));
    }
}

/// An append leaves the vote, the snapshot and what was purged alone. What was applied last is
/// the entry, and the members are the entry's where it names members, else those of before.
pub proof fn append_changes_nothing_else(log: LogModel, entry: EntryView, size: nat)
    ensures
        ({
            let after = after_record(log, RecordView::AppendLog(entry), size);
            &&& after.vote == log.vote
            &&& after.snapshot == log.snapshot
            &&& after.last_purged == log.last_purged
            &&& after.last_applied == Some(entry.log_id)
            &&& match entry.payload {
                PayloadView::Membership(members) => {
                    &&& after.last_membership.log_id == Some(entry.log_id)
                    &&& after.last_membership.membership == members
                },
                PayloadView::Blank => after.last_membership == log.last_membership,
                PayloadView::Normal(_) => after.last_membership == log.last_membership,
            }
        }),
{
}

/// A truncation keeps the entries before its index, and a purge those behind it, as they are,
/// in memory and in the log, and neither changes anything else but what was purged.
pub proof fn removal_keeps_the_rest(
    log: LogModel,
    frames: Seq<FrameView>,
    log_id: LogId,
    index: u64,
    size: nat,
)
    ensures
        ({
            let cut = after_record(log, RecordView::Truncate(log_id), size);
            let held = held_entries(frames);
            let held_after = held_entries(frames.push(FrameView::Record(RecordView::Truncate(log_id))));
            &&& index < log_id.index ==> {
                &&& cut.cache.contains_key(index) == log.cache.contains_key(index)
                &&& log.cache.contains_key(index) ==> cut.cache[index] == log.cache[index]
                &&& held_after.contains_key(index) == held.contains_key(index)
                &&& held.contains_key(index) ==> held_after[index] == held[index]
            }
            &&& cut == (LogModel { cache: cut.cache, order: cut.order, ..log })
        }),
        ({
            let purged = after_record(log, RecordView::Purge(log_id), size);
            let held = held_entries(frames);
            let held_after = held_entries(frames.push(FrameView::Record(RecordView::Purge(log_id))));
            &&& index > log_id.index ==> {
                &&& purged.cache.contains_key(index) == log.cache.contains_key(index)
                &&& log.cache.contains_key(index) ==> purged.cache[index] == log.cache[index]
                &&& held_after.contains_key(index) == held.contains_key(index)
                &&& held.contains_key(index) ==> held_after[index] == held[index]
            }
            &&& purged.last_purged == Some(log_id)
            &&& purged == (LogModel {
                cache: purged.cache,
                order: purged.order,
                last_purged: purged.last_purged,
                ..log
            })
        }),
{
    assert(frames.push(FrameView::Record(RecordView::Truncate(log_id))).drop_last() =~= frames);
    assert(frames.push(FrameView::Record(RecordView::Purge(log_id))).drop_last() =~= frames);
}

/// A snapshot is what was applied last, with the members that it names. Entries in memory stay,
/// and the log no longer holds what the snapshot covers.
pub proof fn snapshot_stands_for_what_it_covers(
    log: LogModel,
    frames: Seq<FrameView>,
    meta: SnapshotMetaView,
    index: u64,
    size: nat,
)
    ensures
        ({
            let after = after_record(log, RecordView::SnapshotApplied(meta), size);
            &&& after.snapshot == Some(meta)
            &&& after.last_applied == meta.last_log_id
            &&& after.last_membership == meta.last_membership
            &&& after.cache == log.cache
            &&& after.order == log.order
            &&& after.vote == log.vote
            &&& after.last_purged == log.last_purged
        }),
        ({
            let held = held_entries(frames);
            let after = held_entries(
                frames.push(FrameView::Record(RecordView::SnapshotApplied(meta))),
            );
            &&& after.contains_key(index) <==> held.contains_key(index) && (meta.last_log_id matches Some(
                id,
            ) ==> index > id.index)
            &&& after.contains_key(index) ==> after[index] == held[index]
        }),
{
    assert(frames.push(
        FrameView::Record(RecordView::SnapshotApplied(meta)),
    ).drop_last() =~= frames);
}

/// A vote changes the vote alone, and neither it nor a header takes an entry out of the log.
pub proof fn vote_changes_the_vote_alone(log: LogModel, frames: Seq<FrameView>, vote: Vote, size: nat)
    ensures
        after_record(log, RecordView::Vote(vote), size).vote == Some(vote),
        after_record(log, RecordView::Vote(vote), size) == (LogModel {
            vote: Some(vote),
            ..log
        }),
        held_entries(frames.push(FrameView::Record(RecordView::Vote(vote)))) == held_entries(frames),
        held_entries(Seq::<FrameView>::empty()) == Map::<u64, EntryView>::empty(),
{
    assert(frames.push(FrameView::Record(RecordView::Vote(vote))).drop_last() =~= frames);
}

/// Nothing is known before the first record.
pub proof fn log_begins_empty(version: u32, size: nat)
    ensures
        replayed(Seq::<FrameView>::empty(), version, size) matches Ok(log) && {
            &&& log.vote is None
            &&& log.cache == Map::<u64, EntryView>::empty()
            &&& log.last_purged is None
            &&& log.last_applied is None
            &&& log.snapshot is None
            &&& log.last_membership.log_id is None
        },
{
}

/// A log without the magic bytes is refused, whatever follows.
pub proof fn other_magic_is_refused(magic: Seq<u8>, got: u32, rest: Seq<FrameView>, version: u32, size: nat)
    requires
        magic != seq![82u8, 87u8, 65u8, 76u8],
    ensures
        replayed(seq![FrameView::Header(magic, got)] + rest, version, size) == Err::<
            LogModel,
            WalError,
        >(WalError::InvalidMagic),
{
    let header = seq![FrameView::Header(magic, got)];
    let frames = header + rest;
    assert(frames.take(1) =~= header);
    assert(header.drop_last() =~= Seq::<FrameView>::empty());
    assert(replayed(header.drop_last(), version, size) == Ok::<LogModel, WalError>(empty_log()));
    refusal_stays(frames, 1, version, size);
}

/// One more record leads from the state of the log to the state after the record, whether it is
/// written now or read back later.
pub proof fn replay_goes_record_by_record(
    frames: Seq<FrameView>,
    record: RecordView,
    version: u32,
    size: nat,
)
    ensures
        replayed(frames.push(FrameView::Record(record)), version, size) == (match replayed(
            frames,
            version,
            size,
        ) {
            Ok(log) => Ok::<LogModel, WalError>(after_record(log, record, size)),
            Err(e) => Err(e),
        }),
{
    assert(frames.push(FrameView::Record(record)).drop_last() =~= frames);
}

/// After an entry was appended it is in memory wherever anything is kept there, and as many
/// entries are as there is room for; it is written through at once, or when so many entries are
/// not yet written as may be.
pub proof fn appended_entry_is_in_memory(
    storage: &mut WalRaftStorage,
    entry: Entry,
    flush: bool,
)
    requires
        old(storage).wf(),
        cache_is_ordered(old(storage)@),
        old(storage)@.order.push(entry@.log_id.index).no_duplicates(),
        call_ensures(WalRaftStorage::append_entry, (storage, entry), flush),
    ensures
        old(storage).cache_size() > 0 ==> final(storage)@.cache.contains_key(entry@.log_id.index)
            && final(storage)@.cache[entry@.log_id.index] == entry@,
        ({
            let all = old(storage)@.cache.insert(entry@.log_id.index, entry@);
            &&& all.len() <= old(storage).cache_size() ==> final(storage)@.cache == all
            &&& all.len() > old(storage).cache_size() ==> final(storage)@.cache.len()
                == old(storage).cache_size()
        }),
        final(storage)@.vote == old(storage)@.vote,
        old(storage).interval() == 0 ==> !flush && final(storage).unsynced() == 0,
        old(storage).interval() > 0 && old(storage).unsynced() < usize::MAX
            ==> final(storage).unsynced() == old(storage).unsynced() + 1 && (flush
            <==> old(storage).unsynced() + 1 >= old(storage).interval()),
{
    newest_entries_stay_in_memory(
        old(storage)@,
        entry@,
        old(storage).cache_size(),
        0,
        0,
    );
    append_keeps_what_there_is_room_for(old(storage)@, entry@, old(storage).cache_size());
}

/// Applying an entry makes it the last that was applied, and hands out the command that it
/// carries; an entry with a configuration makes that the last one, and no other does.
pub proof fn applied_entry_is_the_last(
    storage: &mut WalRaftStorage,
    entry: Entry,
    command: Option<Vec<u8>>,
)
    requires
        old(storage).wf(),
        call_ensures(WalRaftStorage::apply, (storage, &entry), command),
    ensures
        final(storage)@.last_applied == Some(entry@.log_id),
        entry@.payload matches PayloadView::Normal(bytes) ==> (command matches Some(c) && c@ == bytes),
        !(entry@.payload is Normal) ==> command is None,
        entry@.payload matches PayloadView::Membership(membership) ==> {
            &&& final(storage)@.last_membership.membership == membership
            &&& final(storage)@.last_membership.log_id == Some(entry@.log_id)
        },
        !(entry@.payload is Membership) ==> final(storage)@.last_membership
            == old(storage)@.last_membership,
        final(storage)@.cache == old(storage)@.cache,
        final(storage)@.vote == old(storage)@.vote,
{
}

/// The log ends with the entry of the highest index that is in memory, and begins behind what was
/// purged last.
pub proof fn log_ends_with_the_highest(
    storage: &WalRaftStorage,
    state: (Option<LogId>, Option<LogId>),
    k: u64,
)
    requires
        storage.wf(),
        call_ensures(WalRaftStorage::get_log_state, (storage,), state),
    ensures
        state.0 == storage@.last_purged,
        storage@.cache.contains_key(k) ==> (state.1 matches Some(last) && k <= last.index
            && storage@.cache.contains_key(last.index)),
        state.1 is Some ==> exists|i: u64| #[trigger] storage@.cache.contains_key(i),
{
    if state.1 is Some {
        assert(storage@.cache.contains_key(state.1->0.index));
    }
}

/// The entries that are read are those in the range, each once and by increasing index; what is in
/// memory goes before what is in the file.
pub proof fn entries_are_read_in_order(
    storage: &WalRaftStorage,
    frames: Vec<WalFrame>,
    start: LogId,
    end: LogId,
    list: Vec<Entry>,
    i: int,
    k: u64,
)
    requires
        storage.wf(),
        call_ensures(WalRaftStorage::get_entries_by_log_id, (storage, frames, start, end), list),
    ensures
        0 <= i < list@.len() ==> start.index <= entry_list(list@)[i].log_id.index <= end.index,
        0 < i < list@.len() ==> entry_list(list@)[i - 1].log_id.index < entry_list(
            list@,
        )[i].log_id.index,
        storage@.cache.contains_key(k) && start.index <= k <= end.index ==> exists|j: int|
            0 <= j < list@.len() && (#[trigger] entry_list(list@)[j]).log_id.index == k && entry_list(
                list@,
            )[j] == storage@.cache[k],
{
    let all = held_entries(frame_views(frames@)).union_prefer_right(storage@.cache);
    let range = IndexRange {
        start: crate::raft::types::Bound::Included(start.index),
        end: crate::raft::types::Bound::Included(end.index),
    };
    let shown = entry_list(list@);
    if 0 <= i < shown.len() {
        assert(range.has(shown[i].log_id.index));
    }
    if storage@.cache.contains_key(k) && start.index <= k <= end.index {
        assert(all.contains_key(k) && all[k] == storage@.cache[k]);
        assert(range.has(k));
        let j = choose|j: int| 0 <= j < shown.len() && #[trigger] shown[j].log_id.index == k;
        assert(shown[j].log_id.index == k);
    }
}

/// A snapshot that is taken stands for what was applied, under a name that tells when.
pub proof fn snapshot_stands_for_what_was_applied(
    storage: &WalRaftStorage,
    now_micros: u64,
    builder: WalSnapshotBuilder,
)
    requires
        call_ensures(WalRaftStorage::get_snapshot_builder, (storage, now_micros), builder),
    ensures
        builder.meta@.last_log_id == storage@.last_applied,
        builder.meta@.last_membership == storage@.last_membership,
        builder.meta@.snapshot_id == "snapshot-"@ + crate::text::decimal(now_micros as nat),
{
}

/// The header of a log names what it is, its version, and the group and node that it belongs to.
pub proof fn header_names_its_log(storage: &WalRaftStorage, created_at: u64, header: WalHeader)
    requires
        call_ensures(WalRaftStorage::build_header, (storage, created_at), header),
    ensures
        header.magic@.len() == 4,
        header.magic@[0] == 82 && header.magic@[1] == 87 && header.magic@[2] == 65
            && header.magic@[3] == 76,
        header.format_version == storage.identity().0.format_version,
        header.group_id == storage.identity().1,
        header.node_id == storage.identity().2,
        header.created_at == created_at,
{
}

/// What is not yet written is written after a batch, and nothing is then left to write.
pub proof fn batch_is_written_through(storage: &WalRaftStorage, flush: bool, each: bool, synced: &mut WalRaftStorage)
    requires
        call_ensures(WalRaftStorage::flushes_after_batch, (storage,), flush),
        call_ensures(WalRaftStorage::flushes_each_append, (storage,), each),
        old(synced).wf(),
        call_ensures(WalRaftStorage::note_synced, (synced,), ()),
    ensures
        each <==> storage.interval() == 0,
        each ==> !flush,
        !each ==> (flush <==> storage.unsynced() > 0),
        final(synced).unsynced() == 0,
        final(synced)@ == old(synced)@,
{
}

/// Each node's log and each group's snapshot lie in the directory for them.
pub proof fn files_lie_in_their_directory(base: Seq<char>, group_id: GroupId, node_id: u64, snapshot_id: Seq<char>)
    ensures
        wal_file_path(base, group_id, node_id).take(base.len() as int) == base,
        snapshot_file_path(base, group_id, snapshot_id).take(base.len() as int) == base,
{
    crate::paths::joined_has_one_slash_between(
        base,
        "raft-"@ + crate::text::decimal(group_id.0 as nat) + "-"@ + crate::text::decimal(
            node_id as nat,
        ) + ".wal"@,
    );
    crate::paths::joined_has_one_slash_between(
        base,
        "snapshot-"@ + crate::text::decimal(group_id.0 as nat) + "-"@ + snapshot_id + ".alopex"@,
    );
}

/// A truncation removes what lies at or behind its index, a purge what lies at or before it, and
/// both keep the rest; a vote is kept as given, and a snapshot stands where it was put.
pub proof fn removals_and_votes_do_what_they_say(
    cutting: &mut WalRaftStorage,
    purging: &mut WalRaftStorage,
    voting: &mut WalRaftStorage,
    installing: &mut WalRaftStorage,
    log_id: LogId,
    vote: Vote,
    meta: SnapshotMeta,
    path: String,
    k: u64,
)
    requires
        old(cutting).wf(),
        old(purging).wf(),
        old(voting).wf(),
        old(installing).wf(),
        call_ensures(WalRaftStorage::truncate, (cutting, log_id), ()),
        call_ensures(WalRaftStorage::purge, (purging, log_id), ()),
        call_ensures(WalRaftStorage::save_vote, (voting, vote), ()),
        call_ensures(WalRaftStorage::install_snapshot, (installing, meta, path), ()),
    ensures
        final(cutting)@.cache.contains_key(k) <==> old(cutting)@.cache.contains_key(k) && k
            < log_id.index,
        final(cutting)@.cache.contains_key(k) ==> final(cutting)@.cache[k] == old(cutting)@.cache[k],
        final(cutting)@.vote == old(cutting)@.vote,
        final(purging)@.cache.contains_key(k) <==> old(purging)@.cache.contains_key(k) && k
            > log_id.index,
        final(purging)@.last_purged == Some(log_id),
        final(purging)@.vote == old(purging)@.vote,
        final(voting)@.vote == Some(vote),
        final(voting)@.cache == old(voting)@.cache,
        final(voting)@.last_applied == old(voting)@.last_applied,
        final(installing)@.snapshot == Some(meta@),
        final(installing)@.last_applied == meta@.last_log_id,
        final(installing)@.last_membership == meta@.last_membership,
        final(installing).snapshot_file() == Some(path),
{
}

/// A snapshot that is built carries what it stands for, and one that is written is the file of its
/// parts.
pub proof fn snapshot_is_built_as_described(
    builder: &WalSnapshotBuilder,
    snapshot: (SnapshotMeta, Vec<u8>),
    storage: &WalRaftStorage,
    vote: Option<Vote>,
    state: (Option<LogId>, StoredMembership),
    valid: u64,
    len: u64,
    r: Result<(), WalError>,
)
    requires
        call_ensures(WalSnapshotBuilder::build_snapshot, (builder,), snapshot),
        call_ensures(WalRaftStorage::read_vote, (storage,), vote),
        call_ensures(WalRaftStorage::applied_state, (storage,), state),
        call_ensures(check_whole, (valid, len), r),
    ensures
        snapshot.0@ == builder.meta@,
        snapshot.1@.len() == 0,
        vote == storage@.vote,
        state.0 == storage@.last_applied,
        state.1@ == storage@.last_membership,
        r is Ok <==> valid == len,
{
}

} // verus!

//! Log entries, votes and snapshots as the storage sees them.

use vstd::prelude::*;

use crate::bytes::copy_range;

verus! {

/// Identifies a Raft group.
#[derive(Debug, Clone, Copy, PartialEq, Eq, Hash, Structural)]
pub struct GroupId(pub u64);

/// The place of an entry in the log, and the leader that proposed it.
#[derive(Debug, Clone, Copy, PartialEq, Eq, Structural)]
pub struct LogId {
    pub term: u64,
    pub node_id: u64,
    pub index: u64,
}

/// A vote for a leader.
#[derive(Debug, Clone, Copy, PartialEq, Eq, Structural)]
pub struct Vote {
    pub term: u64,
    pub node_id: u64,
    pub committed: bool,
}

/// A cluster configuration, kept in its encoded form: the storage carries it and never
/// looks inside.
#[derive(Debug, PartialEq, Eq)]
pub struct Membership {
    pub encoded: Vec<u8>,
}

impl View for Membership {
    type V = Seq<u8>;

    open spec fn view(&self) -> Seq<u8> {
        self.encoded@
    }
}

impl Clone for Membership {
    fn clone(&self) -> (copy: Self)
        ensures
            copy@ == self@,
    {
        let encoded = copy_range(self.encoded.as_slice(), 0, self.encoded.len());
        assert(encoded@ =~= self.encoded@);
        Membership { encoded }
    }
}

/// What an entry carries.
#[derive(Debug, PartialEq, Eq)]
pub enum EntryPayload {
    Blank,
    Normal(Vec<u8>),
    Membership(Membership),
}

/// What an entry carries, seen as byte sequences.
pub enum PayloadView {
    Blank,
    Normal(Seq<u8>),
    Membership(Seq<u8>),
}

impl View for EntryPayload {
    type V = PayloadView;

    open spec fn view(&self) -> PayloadView {
        match self {
            EntryPayload::Blank => PayloadView::Blank,
            EntryPayload::Normal(command) => PayloadView::Normal(command@),
            EntryPayload::Membership(membership) => PayloadView::Membership(membership@),
        }
    }
}

impl Clone for EntryPayload {
    fn clone(&self) -> (copy: Self)
        ensures
            copy@ == self@,
    {
        match self {
            EntryPayload::Blank => EntryPayload::Blank,
            EntryPayload::Normal(command) => {
                let copied = copy_range(command.as_slice(), 0, command.len());
                assert(copied@ =~= command@);
                EntryPayload::Normal(copied)
            },
            EntryPayload::Membership(membership) => EntryPayload::Membership(membership.clone()),
        }
    }
}

/// A log entry.
#[derive(Debug, PartialEq, Eq)]
pub struct Entry {
    pub log_id: LogId,
    pub payload: EntryPayload,
}

/// A log entry, seen as plain values.
pub struct EntryView {
    pub log_id: LogId,
    pub payload: PayloadView,
}

impl View for Entry {
    type V = EntryView;

    open spec fn view(&self) -> EntryView {
        EntryView { log_id: self.log_id, payload: self.payload@ }
    }
}

impl Clone for Entry {
    fn clone(&self) -> (copy: Self)
        ensures
            copy@ == self@,
    {
        Entry { log_id: self.log_id, payload: self.payload.clone() }
    }
}

/// A configuration with the entry that set it.
#[derive(Debug, PartialEq, Eq)]
pub struct StoredMembership {
    pub log_id: Option<LogId>,
    pub membership: Membership,
}

/// A configuration with the entry that set it, seen as plain values.
pub struct StoredMembershipView {
    pub log_id: Option<LogId>,
    pub membership: Seq<u8>,
}

impl View for StoredMembership {
    type V = StoredMembershipView;

    open spec fn view(&self) -> StoredMembershipView {
        StoredMembershipView { log_id: self.log_id, membership: self.membership@ }
    }
}

impl Clone for StoredMembership {
    fn clone(&self) -> (copy: Self)
        ensures
            copy@ == self@,
    {
        StoredMembership { log_id: self.log_id, membership: self.membership.clone() }
    }
}

impl StoredMembership {
    /// The configuration in force before any entry has set one.
    pub open spec fn unset() -> StoredMembershipView {
        StoredMembershipView { log_id: None, membership: Seq::empty() }
    }
}

impl Default for StoredMembership {
    fn default() -> (stored: Self)
        ensures
            stored@ == StoredMembership::unset(),
    {
        let encoded: Vec<u8> = Vec::new();
        assert(encoded@ =~= Seq::<u8>::empty());
        StoredMembership { log_id: None, membership: Membership { encoded } }
    }
}

/// What a snapshot covers.
#[derive(Debug, PartialEq, Eq)]
pub struct SnapshotMeta {
    pub last_log_id: Option<LogId>,
    pub last_membership: StoredMembership,
    pub snapshot_id: String,
}

/// What a snapshot covers, seen as plain values.
pub struct SnapshotMetaView {
    pub last_log_id: Option<LogId>,
    pub last_membership: StoredMembershipView,
    pub snapshot_id: Seq<char>,
}

impl View for SnapshotMeta {
    type V = SnapshotMetaView;

    open spec fn view(&self) -> SnapshotMetaView {
        SnapshotMetaView {
            last_log_id: self.last_log_id,
            last_membership: self.last_membership@,
            snapshot_id: self.snapshot_id@,
        }
    }
}

impl Clone for SnapshotMeta {
    fn clone(&self) -> (copy: Self)
        ensures
            copy@ == self@,
    {
        SnapshotMeta {
            last_log_id: self.last_log_id,
            last_membership: self.last_membership.clone(),
            snapshot_id: self.snapshot_id.clone(),
        }
    }
}

/// One end of a range of log indices.
#[derive(Debug, Clone, Copy, PartialEq, Eq, Structural)]
pub enum Bound {
    Included(u64),
    Excluded(u64),
    Unbounded,
}

/// A range of log indices.
#[derive(Debug, Clone, Copy, PartialEq, Eq, Structural)]
pub struct IndexRange {
    pub start: Bound,
    pub end: Bound,
}

impl IndexRange {
    /// Whether `value` lies in the range.
    pub open spec fn has(self, value: u64) -> bool {
        (match self.start {
            Bound::Included(v) => value >= v,
            Bound::Excluded(v) => value > v,
            Bound::Unbounded => true,
        }) && (match self.end {
            Bound::Included(v) => value <= v,
            Bound::Excluded(v) => value < v,
            Bound::Unbounded => true,
        })
    }

    /// The range from `start` to `end`, both in it.
    pub fn inclusive(start: u64, end: u64) -> (range: Self)
        ensures
            forall|v: u64| #[trigger] range.has(v) <==> start <= v <= end,
    {
        IndexRange { start: Bound::Included(start), end: Bound::Included(end) }
    }
}

/// Whether `value` lies in `range`.
pub fn range_contains(range: &IndexRange, value: u64) -> (inside: bool)
    ensures
        inside == range.has(value),
{
    let start_ok = match range.start {
        Bound::Included(v) => value >= v,
        Bound::Excluded(v) => value > v,
        Bound::Unbounded => true,
    };
    let end_ok = match range.end {
        Bound::Included(v) => value <= v,
        Bound::Excluded(v) => value < v,
        Bound::Unbounded => true,
    };
    start_ok && end_ok
}

/// A range holds what lies between its bounds, with a bound that counts in and without one that
/// does not.
pub proof fn range_holds_what_is_between(range: IndexRange, value: u64, inside: bool)
    requires
        call_ensures(range_contains, (&range, value), inside),
    ensures
        range.start matches Bound::Included(v) ==> inside ==> v <= value,
        range.start matches Bound::Excluded(v) ==> inside ==> v < value,
        range.end matches Bound::Included(v) ==> inside ==> value <= v,
        range.end matches Bound::Excluded(v) ==> inside ==> value < v,
        range.start is Unbounded && range.end is Unbounded ==> inside,
        range.start matches Bound::Included(v) ==> range.end is Unbounded ==> v <= value ==> inside,
        range.start matches Bound::Excluded(v) ==> range.end is Unbounded ==> v < value ==> inside,
        range.end matches Bound::Included(v) ==> range.start is Unbounded ==> value <= v ==> inside,
        range.end matches Bound::Excluded(v) ==> range.start is Unbounded ==> value < v ==> inside,
        range.start matches Bound::Included(a) ==> (range.end matches Bound::Excluded(b) ==> (inside
            <==> a <= value < b)),
        range.start matches Bound::Included(a) ==> (range.end matches Bound::Included(b) ==> (inside
            <==> a <= value <= b)),
        range.start matches Bound::Excluded(a) ==> (range.end matches Bound::Excluded(b) ==> (inside
            <==> a < value < b)),
        range.start matches Bound::Excluded(a) ==> (range.end matches Bound::Included(b) ==> (inside
            <==> a < value <= b)),
{
}

/// A range with both its ends counts them in.
pub proof fn inclusive_range_has_its_ends(start: u64, end: u64, range: IndexRange, value: u64)
    requires
        call_ensures(IndexRange::inclusive, (start, end), range),
    ensures
        range.has(value) <==> start <= value <= end,
{
}

} // verus!

//! Hybrid logical timestamps and contiguous ranges of them.

use vstd::prelude::*;

verus! {

/// A hybrid logical clock value.
#[derive(Debug, Clone, Copy, PartialEq, Eq, PartialOrd, Ord, Hash, Default, Structural)]
pub struct HybridTimestamp {
    /// Milliseconds after the Unix epoch, from an injected wall clock.
    pub physical: u64,
    /// Total ordering within one physical millisecond.
    pub logical: u32,
}

/// How many logical values one physical millisecond has.
pub open spec fn logical_cardinality() -> nat {
    0x1_0000_0000
}

impl HybridTimestamp {
    /// The place of this timestamp among all timestamps.
    pub open spec fn ordinal(self) -> nat {
        self.physical as nat * logical_cardinality() + self.logical as nat
    }

    /// Whether this timestamp comes before `other`: the physical part decides, then the
    /// logical part.
    pub open spec fn before(self, other: Self) -> bool {
        self.physical < other.physical || (self.physical == other.physical && self.logical
            < other.logical)
    }

    /// The timestamp of the given parts.
    pub fn new(physical: u64, logical: u32) -> (t: Self)
        ensures
            t.physical == physical,
            t.logical == logical,
    {
        HybridTimestamp { physical, logical }
    }

    /// Whether this timestamp comes before `other`.
    pub fn is_before(&self, other: &Self) -> (b: bool)
        ensures
            b == self.before(*other),
    {
        self.physical < other.physical || (self.physical == other.physical && self.logical
            < other.logical)
    }

    /// The next timestamp.
    pub fn checked_next(self) -> (r: Result<Self, TimestampError>)
        ensures
            match r {
                Ok(t) => t.ordinal() == self.ordinal() + 1,
                Err(e) => e == TimestampError::Overflow && self.physical == u64::MAX && self.logical
                    == u32::MAX,
            },
    {
        self.checked_add(1)
    }

    /// The timestamp `delta` places later. The logical part carries into the physical
    /// part.
    pub fn checked_add(self, delta: u64) -> (r: Result<Self, TimestampError>)
        requires
            self.logical + delta <= u64::MAX,
        ensures
            match r {
                Ok(t) => t.ordinal() == self.ordinal() + delta,
                Err(e) => e == TimestampError::Overflow && self.ordinal() + delta
                    >= 0x1_0000_0000_0000_0000 * logical_cardinality(),
            },
    {
        let logical: u64 = self.logical as u64 + delta;
        let physical_delta: u64 = logical / 0x1_0000_0000;
        match self.physical.checked_add(physical_delta) {
            None => Err(TimestampError::Overflow),
            Some(physical) => Ok(
                HybridTimestamp { physical, logical: (logical % 0x1_0000_0000) as u32 },
            ),
        }
    }
}

/// An inclusive, contiguous range of timestamps.
#[derive(Debug, Clone, Copy, PartialEq, Eq, Structural)]
pub struct TimestampRange {
    pub start: HybridTimestamp,
    pub end: HybridTimestamp,
    pub count: u32,
}

impl TimestampRange {
    /// The range is not empty, and its ends lie `count - 1` places apart.
    pub open spec fn wf(self) -> bool {
        self.count > 0 && self.end.ordinal() == self.start.ordinal() + self.count - 1
    }

    /// The range of `count` timestamps from `start` on.
    pub fn from_start(start: HybridTimestamp, count: u32) -> (r: Result<Self, TimestampError>)
        ensures
            match r {
                Ok(range) => range.start == start && range.count == count && range.wf(),
                Err(TimestampError::EmptyRange) => count == 0,
                Err(TimestampError::Overflow) => count > 0 && start.ordinal() + count - 1
                    >= 0x1_0000_0000_0000_0000 * logical_cardinality(),
            },
    {
        if count == 0 {
            return Err(TimestampError::EmptyRange);
        }
        match start.checked_add((count - 1) as u64) {
            Ok(end) => Ok(TimestampRange { start, end, count }),
            Err(e) => Err(e),
        }
    }

    /// The timestamp at `offset`, where the range reaches so far.
    pub fn at(self, offset: u32) -> (t: Option<HybridTimestamp>)
        ensures
            match t {
                Some(t) => offset < self.count && t.ordinal() == self.start.ordinal() + offset,
                None => offset >= self.count || self.start.ordinal() + offset
                    >= 0x1_0000_0000_0000_0000 * logical_cardinality(),
            },
            self.wf() ==> (t is Some <==> offset < self.count),
    {
        if offset >= self.count {
            return None;
        }
        match self.start.checked_add(offset as u64) {
            Ok(t) => Some(t),
            Err(_) => None,
        }
    }
}

/// Why a timestamp or a range cannot be had.
#[derive(Debug, Clone, Copy, PartialEq, Eq, Structural)]
pub enum TimestampError {
    EmptyRange,
    Overflow,
}

impl TimestampError {
    /// The text of this error.
    pub open spec fn message_text(self) -> Seq<char> {
        match self {
            TimestampError::EmptyRange => "timestamp range must contain at least one value"@,
            TimestampError::Overflow => "hybrid timestamp overflow"@,
        }
    }

    /// The text of this error.
    pub fn message(&self) -> (text: String)
        ensures
            text@ == self.message_text(),
    {
        match self {
            TimestampError::EmptyRange => String::from_str(
                "timestamp range must contain at least one value",
            ),
            TimestampError::Overflow => String::from_str("hybrid timestamp overflow"),
        }
    }
}

/// Timestamps are ordered as their places are.
pub proof fn order_is_ordinal_order(a: HybridTimestamp, b: HybridTimestamp)
    ensures
        a.before(b) <==> a.ordinal() < b.ordinal(),
        a == b <==> a.ordinal() == b.ordinal(),
{
}

/// No timestamp has a place past the greatest physical and logical values.
pub proof fn ordinal_is_bounded(t: HybridTimestamp)
    ensures
        t.ordinal() < 0x1_0000_0000_0000_0000 * logical_cardinality(),
{
}

/// The timestamps of a range follow each other without a gap, from its start to its
/// end.
pub proof fn range_is_contiguous(range: TimestampRange, offset: nat, t: HybridTimestamp)
    requires
        range.wf(),
        t.ordinal() == range.start.ordinal() + offset,
    ensures
        offset < range.count <==> !range.end.before(t),
        !t.before(range.start),
        offset == 0 ==> t == range.start,
        offset == range.count - 1 ==> t == range.end,
{
}

/// Timestamps are ordered by their place in time, and each place has one.
pub proof fn order_is_by_place_in_time(a: HybridTimestamp, b: HybridTimestamp)
    ensures
        a.before(b) <==> a.ordinal() < b.ordinal(),
        a.ordinal() == b.ordinal() ==> a == b,
        a.ordinal() == a.physical * 0x1_0000_0000 + a.logical,
{
}

/// A range of timestamps is made exactly where it is not empty and time suffices, and has as many
/// as were asked for, one after the other.
pub proof fn range_has_as_many_as_asked_for(
    start: HybridTimestamp,
    count: u32,
    r: Result<TimestampRange, TimestampError>,
)
    requires
        call_ensures(TimestampRange::from_start, (start, count), r),
    ensures
        count == 0 ==> r == Err::<TimestampRange, TimestampError>(TimestampError::EmptyRange),
        r matches Ok(range) ==> count > 0 && range.start == start && range.count == count
            && range.end.ordinal() + 1 == start.ordinal() + count,
        r matches Err(e) ==> (e is EmptyRange <==> count == 0),
{
}

} // verus!

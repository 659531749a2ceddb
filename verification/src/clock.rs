//! Spans of time and readings of a monotonic clock, both as nanosecond counts.

use vstd::prelude::*;

verus! {

/// A span of time.
#[derive(Debug, Clone, Copy, PartialEq, Eq, Structural)]
pub struct Duration {
    pub nanos: u128,
}

impl Duration {
    /// A span of whole seconds.
    pub fn from_secs(secs: u64) -> (d: Self)
        ensures
            d.nanos == secs * 1_000_000_000,
    {
        Duration { nanos: secs as u128 * 1_000_000_000 }
    }

    /// A span of whole milliseconds.
    pub fn from_millis(millis: u64) -> (d: Self)
        ensures
            d.nanos == millis * 1_000_000,
    {
        Duration { nanos: millis as u128 * 1_000_000 }
    }

    /// A span of nanoseconds.
    pub fn from_nanos(nanos: u64) -> (d: Self)
        ensures
            d.nanos == nanos,
    {
        Duration { nanos: nanos as u128 }
    }

    /// The whole milliseconds of the span, as far as they fit.
    pub fn as_millis(&self) -> (millis: u64)
        ensures
            millis == (if self.nanos / 1_000_000 <= u64::MAX {
                self.nanos / 1_000_000
            } else {
                u64::MAX as u128
            }),
    {
        let millis: u128 = self.nanos / 1_000_000;
        if millis <= u64::MAX as u128 {
            millis as u64
        } else {
            u64::MAX
        }
    }

    /// The whole seconds of the span, as far as they fit.
    pub fn as_secs(&self) -> (secs: u64)
        ensures
            secs == (if self.nanos / 1_000_000_000 <= u64::MAX {
                self.nanos / 1_000_000_000
            } else {
                u64::MAX as u128
            }),
    {
        let secs: u128 = self.nanos / 1_000_000_000;
        if secs <= u64::MAX as u128 {
            secs as u64
        } else {
            u64::MAX
        }
    }
}

/// A reading of a monotonic clock.
#[derive(Debug, Clone, Copy, PartialEq, Eq, Structural)]
pub struct Instant {
    pub nanos: u128,
}

impl Instant {
    /// The time from `earlier` to this reading, zero where `earlier` is later.
    pub open spec fn since(self, earlier: Instant) -> nat {
        if self.nanos >= earlier.nanos {
            (self.nanos - earlier.nanos) as nat
        } else {
            0
        }
    }

    /// The time from `earlier` to this reading, zero where `earlier` is later.
    pub fn saturating_duration_since(&self, earlier: Instant) -> (d: Duration)
        ensures
            d.nanos == self.since(earlier),
    {
        if self.nanos >= earlier.nanos {
            Duration { nanos: self.nanos - earlier.nanos }
        } else {
            Duration { nanos: 0 }
        }
    }

    /// The reading `span` later, or the last one that can be told.
    pub fn saturating_add(&self, span: Duration) -> (later: Instant)
        ensures
            later.nanos == (if self.nanos + span.nanos <= u128::MAX {
                self.nanos + span.nanos
            } else {
                u128::MAX as int
            }),
    {
        Instant { nanos: self.nanos.saturating_add(span.nanos) }
    }
}

/// A reading of the wall clock: nanoseconds since the start of the year 1970, in which time
/// before that is negative.
#[derive(Debug, Clone, Copy, PartialEq, Eq, Structural)]
pub struct WallTime {
    pub nanos: i128,
}

impl WallTime {
    /// The time from `earlier` to this reading, none where `earlier` is later.
    pub open spec fn since(self, earlier: WallTime) -> Option<nat> {
        if self.nanos >= earlier.nanos {
            Some((self.nanos - earlier.nanos) as nat)
        } else {
            None
        }
    }

    /// The time from `earlier` to this reading, none where `earlier` is later.
    pub fn duration_since(&self, earlier: WallTime) -> (d: Option<Duration>)
        ensures
            match d {
                Some(d) => self.since(earlier) == Some(d.nanos as nat),
                None => self.since(earlier) is None,
            },
    {
        if self.nanos < earlier.nanos {
            return None;
        }
        if earlier.nanos >= 0 {
            return Some(Duration { nanos: (self.nanos - earlier.nanos) as u128 });
        }
        let before: u128 = if earlier.nanos == i128::MIN {
            0x8000_0000_0000_0000_0000_0000_0000_0000
        } else {
            (-earlier.nanos) as u128
        };
        if self.nanos >= 0 {
            Some(Duration { nanos: before + self.nanos as u128 })
        } else {
            let after: u128 = if self.nanos == i128::MIN {
                0x8000_0000_0000_0000_0000_0000_0000_0000
            } else {
                (-self.nanos) as u128
            };
            Some(Duration { nanos: before - after })
        }
    }

    /// The whole seconds since the start of the year 1970, none before that. Seconds that
    /// sixty-four bits cannot hold count as the greatest that they can.
    pub open spec fn seconds(self) -> Option<u64> {
        if self.nanos < 0 {
            None
        } else if self.nanos as int / 1_000_000_000 <= u64::MAX {
            Some((self.nanos as int / 1_000_000_000) as u64)
        } else {
            Some(u64::MAX)
        }
    }

    /// The whole seconds since the start of the year 1970, none before that.
    pub fn unix_seconds(&self) -> (secs: Option<u64>)
        ensures
            secs == self.seconds(),
    {
        if self.nanos < 0 {
            return None;
        }
        let secs: u128 = self.nanos as u128 / 1_000_000_000;
        if secs <= u64::MAX as u128 {
            Some(secs as u64)
        } else {
            Some(u64::MAX)
        }
    }
}

/// Spans of time are in nanoseconds, whatever they are made from, and are read in whole units of
/// what is asked for, as far as that can be counted.
pub proof fn spans_keep_their_length(
    secs: u64,
    millis: u64,
    a: Duration,
    b: Duration,
    read: Duration,
    m: u64,
    s: u64,
)
    requires
        call_ensures(Duration::from_secs, (secs,), a),
        call_ensures(Duration::from_millis, (millis,), b),
        call_ensures(Duration::as_millis, (&read,), m),
        call_ensures(Duration::as_secs, (&read,), s),
        read.nanos < 1_000_000 * 0x1_0000_0000_0000_0000,
    ensures
        a.nanos == secs * 1000 * 1_000_000,
        b.nanos == millis * 1_000_000,
        m * 1_000_000 <= read.nanos < (m + 1) * 1_000_000,
        s * 1_000_000_000 <= read.nanos < (s + 1) * 1_000_000_000,
{
}

/// The time since an earlier moment is what has to be added to it, and none where it is not
/// earlier.
pub proof fn time_since_is_what_went_by(a: Instant, b: Instant, c: WallTime, d: WallTime)
    ensures
        b.nanos <= a.nanos ==> b.nanos + a.since(b) == a.nanos,
        b.nanos > a.nanos ==> a.since(b) == 0,
        c.since(d) is Some <==> d.nanos <= c.nanos,
        c.since(d) matches Some(span) ==> d.nanos + span == c.nanos,
{
}

/// The seconds of a time are the whole ones since the epoch, and there are none before it.
pub proof fn seconds_are_whole(t: WallTime)
    ensures
        t.seconds() is None <==> t.nanos < 0,
        0 <= t.nanos < 1_000_000_000 * 0x1_0000_0000_0000_0000 ==> t.seconds()->0 * 1_000_000_000
            <= t.nanos < (t.seconds()->0 + 1) * 1_000_000_000,
{
}

/// A moment that is so much later is later by just that much, as far as time goes.
pub proof fn later_is_by_just_that_much(at: Instant, span: Duration, later: Instant)
    requires
        call_ensures(Instant::saturating_add, (&at, span), later),
    ensures
        at.nanos + span.nanos <= u128::MAX ==> later.nanos - at.nanos == span.nanos,
        at.nanos + span.nanos > u128::MAX ==> later.nanos == u128::MAX,
{
}

} // verus!

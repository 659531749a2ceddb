//! A hybrid logical clock with a bound on how far ahead a remote clock may be.

use vstd::prelude::*;

use crate::clock::Duration;
use crate::time::HybridTimestamp;

verus! {

/// A physical clock.
pub trait Clock {
    /// Milliseconds after the Unix epoch.
    fn now_millis(&self) -> u64;
}

/// Why a remote timestamp was refused.
#[derive(Debug, Clone, Copy, PartialEq, Eq, Structural)]
pub enum HlcError {
    ClockSkewTooLarge { remote_physical: u64, wall_physical: u64, max_skew_millis: u64 },
}

impl HlcError {
    /// The text of this error.
    pub open spec fn message_text(self) -> Seq<char> {
        match self {
            HlcError::ClockSkewTooLarge { remote_physical, wall_physical, max_skew_millis } => {
                "remote physical clock "@ + crate::text::decimal(remote_physical as nat)
                    + "ms exceeds wall clock "@ + crate::text::decimal(wall_physical as nat)
                    + "ms by more than "@ + crate::text::decimal(max_skew_millis as nat) + "ms"@
            },
        }
    }

    /// The text of this error.
    pub fn message(&self) -> (text: String)
        ensures
            text@ == self.message_text(),
    {
        match self {
            HlcError::ClockSkewTooLarge { remote_physical, wall_physical, max_skew_millis } => {
                let mut text = String::from_str("remote physical clock ");
                crate::text::push_decimal(&mut text, *remote_physical);
                text.append("ms exceeds wall clock ");
                crate::text::push_decimal(&mut text, *wall_physical);
                text.append("ms by more than ");
                crate::text::push_decimal(&mut text, *max_skew_millis);
                text.append("ms");
                text
            },
        }
    }
}

/// The timestamp after `t`. The greatest timestamp stays where it is.
pub open spec fn successor(t: HybridTimestamp) -> HybridTimestamp {
    if t.logical < u32::MAX {
        HybridTimestamp { physical: t.physical, logical: (t.logical + 1) as u32 }
    } else if t.physical < u64::MAX {
        HybridTimestamp { physical: (t.physical + 1) as u64, logical: 0 }
    } else {
        t
    }
}

/// The greatest timestamp.
pub open spec fn greatest() -> HybridTimestamp {
    HybridTimestamp { physical: u64::MAX, logical: u32::MAX }
}

/// The clock after a local event at wall time `wall`.
pub open spec fn ticked(current: HybridTimestamp, wall: u64) -> HybridTimestamp {
    if wall > current.physical {
        HybridTimestamp { physical: wall, logical: 0 }
    } else {
        successor(current)
    }
}

/// The larger of two numbers.
pub open spec fn larger(a: u64, b: u64) -> u64 {
    if a >= b {
        a
    } else {
        b
    }
}

/// The last physical time that is accepted from a remote clock at wall time `wall`.
pub open spec fn skew_limit(wall: u64, skew_millis: u64) -> nat {
    if wall + skew_millis <= u64::MAX {
        (wall + skew_millis) as nat
    } else {
        u64::MAX as nat
    }
}

/// The milliseconds of a skew bound.
pub open spec fn skew_millis(skew: Duration) -> u64 {
    (if skew.nanos / 1_000_000 <= u64::MAX {
        skew.nanos / 1_000_000
    } else {
        u64::MAX as u128
    }) as u64
}

/// The clock after a message stamped `remote` arrived at wall time `wall`.
pub open spec fn merged(current: HybridTimestamp, remote: HybridTimestamp, wall: u64) -> HybridTimestamp {
    let physical = larger(larger(current.physical, wall), remote.physical);
    if physical == current.physical && physical == remote.physical {
        successor(
            HybridTimestamp {
                physical,
                logical: if current.logical >= remote.logical {
                    current.logical
                } else {
                    remote.logical
                },
            },
        )
    } else if physical == current.physical {
        successor(current)
    } else if physical == remote.physical {
        successor(remote)
    } else {
        HybridTimestamp { physical, logical: 0 }
    }
}

/// The timestamp after `t`.
pub fn next_timestamp(t: HybridTimestamp) -> (next: HybridTimestamp)
    ensures
        next == successor(t),
{
    if t.logical < u32::MAX {
        HybridTimestamp { physical: t.physical, logical: t.logical + 1 }
    } else if t.physical < u64::MAX {
        HybridTimestamp { physical: t.physical + 1, logical: 0 }
    } else {
        t
    }
}

/// The hybrid logical clock of one node.
#[derive(Debug, Clone, Copy)]
pub struct LocalHlc {
    current: HybridTimestamp,
    max_clock_skew: Duration,
}

impl LocalHlc {
    /// The latest timestamp.
    pub closed spec fn now(self) -> HybridTimestamp {
        self.current
    }

    /// How far a remote clock may be ahead of the wall clock.
    pub closed spec fn skew(self) -> Duration {
        self.max_clock_skew
    }

    /// A clock started at wall time `wall`.
    pub fn new(max_clock_skew: Duration, wall: u64) -> (hlc: Self)
        ensures
            hlc.now() == (HybridTimestamp { physical: wall, logical: 0 }),
            hlc.skew() == max_clock_skew,
    {
        LocalHlc { current: HybridTimestamp { physical: wall, logical: 0 }, max_clock_skew }
    }

    /// A clock started at the time that `clock` shows.
    pub fn with_clock<C: Clock>(max_clock_skew: Duration, clock: &C) -> (hlc: Self)
        ensures
            call_ensures(C::now_millis, (clock,), hlc.now().physical),
            hlc.now().logical == 0,
            hlc.skew() == max_clock_skew,
    {
        LocalHlc::new(max_clock_skew, clock.now_millis())
    }

    /// Stamps a local event at wall time `wall`.
    pub fn tick(&mut self, wall: u64) -> (t: HybridTimestamp)
        ensures
            t == ticked(old(self).now(), wall),
            final(self).now() == t,
            final(self).skew() == old(self).skew(),
    {
        self.current = if wall > self.current.physical {
            HybridTimestamp { physical: wall, logical: 0 }
        } else {
            next_timestamp(self.current)
        };
        self.current
    }

    /// Takes in the timestamp of a message that arrived at wall time `wall`. A remote
    /// clock that is too far ahead is refused, and the clock stays as it was.
    pub fn receive(&mut self, remote: HybridTimestamp, wall: u64) -> (r: Result<
        HybridTimestamp,
        HlcError,
    >)
        ensures
            final(self).skew() == old(self).skew(),
            match r {
                Ok(t) => remote.physical <= skew_limit(wall, skew_millis(old(self).skew())) && t
                    == merged(old(self).now(), remote, wall) && final(self).now() == t,
                Err(e) => remote.physical > skew_limit(wall, skew_millis(old(self).skew())) && e
                    == (HlcError::ClockSkewTooLarge {
                    remote_physical: remote.physical,
                    wall_physical: wall,
                    max_skew_millis: skew_millis(old(self).skew()),
                }) && *final(self) == *old(self),
            },
    {
        let max_skew_millis: u64 = self.max_clock_skew.as_millis();
        if remote.physical > wall.saturating_add(max_skew_millis) {
            return Err(
                HlcError::ClockSkewTooLarge {
                    remote_physical: remote.physical,
                    wall_physical: wall,
                    max_skew_millis,
                },
            );
        }
        let local = self.current;
        let mut physical: u64 = local.physical;
        if wall > physical {
            physical = wall;
        }
        if remote.physical > physical {
            physical = remote.physical;
        }
        self.current = if physical == local.physical && physical == remote.physical {
            let logical: u32 = if local.logical >= remote.logical {
                local.logical
            } else {
                remote.logical
            };
            next_timestamp(HybridTimestamp { physical, logical })
        } else if physical == local.physical {
            next_timestamp(local)
        } else if physical == remote.physical {
            next_timestamp(remote)
        } else {
            HybridTimestamp { physical, logical: 0 }
        };
        Ok(self.current)
    }

    /// The latest timestamp.
    pub fn current(&self) -> (t: HybridTimestamp)
        ensures
            t == self.now(),
    {
        self.current
    }
}

/// Every local event gets a later timestamp than all before it.
pub proof fn tick_moves_forward(current: HybridTimestamp, wall: u64)
    requires
        current != greatest(),
    ensures
        current.before(ticked(current, wall)),
        ticked(current, wall).physical >= wall,
{
}

/// After a message the clock is later than it was and later than the message, and not
/// behind the wall clock.
pub proof fn receive_moves_forward(current: HybridTimestamp, remote: HybridTimestamp, wall: u64)
    requires
        current != greatest(),
        remote != greatest(),
    ensures
        current.before(merged(current, remote, wall)),
        remote.before(merged(current, remote, wall)),
        merged(current, remote, wall).physical >= wall,
{
}

/// An accepted message moves the physical part no further than one millisecond past
/// the clock, the wall clock and the skew bound.
pub proof fn receive_stays_within_the_bound(
    current: HybridTimestamp,
    remote: HybridTimestamp,
    wall: u64,
    skew: u64,
)
    requires
        remote.physical <= skew_limit(wall, skew),
    ensures
        merged(current, remote, wall).physical <= larger(
            current.physical,
            skew_limit(wall, skew) as u64,
        ) + 1,
{
}

/// A local event gets the earliest timestamp that is later than all before it and not behind the
/// wall clock.
pub proof fn tick_is_the_earliest(current: HybridTimestamp, wall: u64, t: HybridTimestamp)
    requires
        current.before(t),
        t.physical >= wall,
    ensures
        !t.before(ticked(current, wall)),
{
}

/// A message moves the clock to the earliest timestamp that is later than the clock and the
/// message and not behind the wall clock.
pub proof fn receive_is_the_earliest(
    current: HybridTimestamp,
    remote: HybridTimestamp,
    wall: u64,
    t: HybridTimestamp,
)
    requires
        current.before(t),
        remote.before(t),
        t.physical >= wall,
    ensures
        !t.before(merged(current, remote, wall)),
{
}

/// Nothing lies between a timestamp and the next one, and only the greatest has none after it.
pub proof fn next_timestamp_is_the_next(t: HybridTimestamp, other: HybridTimestamp)
    ensures
        t.before(successor(t)) <==> t != greatest(),
        t == greatest() ==> successor(t) == t,
        !(t.before(other) && other.before(successor(t))),
        !greatest().before(other),
{
}

/// The bound on a remote clock is in whole milliseconds past the wall clock, as far as they can
/// be counted.
pub proof fn skew_is_in_whole_milliseconds(skew: Duration, wall: u64)
    ensures
        skew.nanos < 1_000_000 * 0x1_0000_0000_0000_0000 ==> skew_millis(skew) * 1_000_000
            <= skew.nanos < (skew_millis(skew) + 1) * 1_000_000,
        skew.nanos >= 1_000_000 * 0x1_0000_0000_0000_0000 ==> skew_millis(skew) == u64::MAX,
        wall + skew_millis(skew) <= u64::MAX ==> skew_limit(wall, skew_millis(skew)) - wall
            == skew_millis(skew),
        wall + skew_millis(skew) > u64::MAX ==> skew_limit(wall, skew_millis(skew)) == u64::MAX,
{
}

/// A timestamp from a clock that is too far ahead is refused, and only then; one that is accepted
/// moves the clock on, and a refused one does not.
pub proof fn only_clocks_too_far_ahead_are_refused(
    hlc: &mut LocalHlc,
    remote: HybridTimestamp,
    wall: u64,
    r: Result<HybridTimestamp, HlcError>,
    ticking: &mut LocalHlc,
    t: HybridTimestamp,
)
    requires
        call_ensures(LocalHlc::receive, (hlc, remote, wall), r),
        call_ensures(LocalHlc::tick, (ticking, wall), t),
        old(hlc).now() != greatest(),
        remote != greatest(),
        old(ticking).now() != greatest(),
    ensures
        r is Err <==> remote.physical > skew_limit(wall, skew_millis(old(hlc).skew())),
        r is Err ==> final(hlc).now() == old(hlc).now(),
        r matches Ok(stamp) ==> stamp == final(hlc).now() && old(hlc).now().before(stamp)
            && remote.before(stamp) && stamp.physical >= wall,
        t == final(ticking).now(),
        old(ticking).now().before(t),
        t.physical >= wall,
{
    receive_moves_forward(old(hlc).now(), remote, wall);
    tick_moves_forward(old(ticking).now(), wall);
}

} // verus!

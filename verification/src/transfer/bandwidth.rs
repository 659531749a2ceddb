//! A token bucket that holds a transfer to a number of bytes per second.

use vstd::prelude::*;

use crate::clock::{Duration, Instant};

verus! {

/// A number, or the greatest that sixty-four bits can hold where it is greater.
pub open spec fn capped(n: nat) -> u64 {
    if n <= u64::MAX {
        n as u64
    } else {
        u64::MAX
    }
}

/// The tokens that come in while `nanos` nanoseconds pass. A product too great for a
/// hundred and twenty-eight bits counts as the greatest of them.
pub open spec fn refill(limit: u64, nanos: nat) -> u64 {
    let product = nanos * limit as nat;
    capped(
        (if product <= u128::MAX {
            product
        } else {
            u128::MAX as nat
        }) / 1_000_000_000,
    )
}

/// How long it takes until `missing` tokens have come in: at least a nanosecond.
pub open spec fn wait_for(limit: u64, missing: u64) -> u64 {
    let nanos = missing as nat * 1_000_000_000 / limit as nat;
    capped(
        if nanos == 0 {
            1
        } else {
            nanos
        },
    )
}

/// The tokens that come in while a span passes: none where there is no limit.
pub fn tokens_for_elapsed(limit: u64, elapsed: Duration) -> (tokens: u64)
    ensures
        tokens == (if limit == 0 {
            0
        } else {
            refill(limit, elapsed.nanos as nat)
        }),
{
    if limit == 0 {
        return 0;
    }
    let product: u128 = match elapsed.nanos.checked_mul(limit as u128) {
        Some(product) => product,
        None => u128::MAX,
    };
    let tokens: u128 = product / 1_000_000_000;
    if tokens <= u64::MAX as u128 {
        tokens as u64
    } else {
        u64::MAX
    }
}

/// How long to wait until `missing` tokens have come in: not at all where there is no limit.
pub fn missing_wait(limit: u64, missing: u64) -> (wait: Option<Duration>)
    ensures
        wait == (if limit == 0 {
            None
        } else {
            Some(Duration { nanos: wait_for(limit, missing) as u128 })
        }),
{
    if limit == 0 {
        return None;
    }
    let product: u128 = missing as u128 * 1_000_000_000;
    let mut nanos: u128 = product / limit as u128;
    if nanos == 0 {
        nanos = 1;
    }
    let nanos: u64 = if nanos <= u64::MAX as u128 {
        nanos as u64
    } else {
        u64::MAX
    };
    Some(Duration::from_nanos(nanos))
}

/// A token bucket.
#[derive(Debug, Clone, Copy, PartialEq, Eq, Structural)]
pub struct BandwidthThrottle {
    limit: u64,
    tokens: u64,
    last_refill: Instant,
}

/// A token bucket, seen as plain values.
pub struct ThrottleView {
    pub limit: u64,
    pub tokens: u64,
    pub last_refill: Instant,
}

impl View for BandwidthThrottle {
    type V = ThrottleView;

    closed spec fn view(&self) -> ThrottleView {
        ThrottleView { limit: self.limit, tokens: self.tokens, last_refill: self.last_refill }
    }
}

/// The bucket at a later time. It is not touched while not a single token has come in.
pub open spec fn refilled(v: ThrottleView, now: Instant) -> ThrottleView {
    let added = refill(v.limit, now.since(v.last_refill));
    if added == 0 {
        v
    } else {
        ThrottleView {
            tokens: if v.tokens + added < v.limit {
                (v.tokens + added) as u64
            } else {
                v.limit
            },
            last_refill: now,
            ..v
        }
    }
}

/// The bucket after one try to take `bytes` tokens, and how many of them were taken. Without
/// a limit all are.
pub open spec fn tried(v: ThrottleView, bytes: u64, now: Instant) -> (ThrottleView, u64) {
    if bytes == 0 || v.limit == 0 {
        (v, bytes)
    } else {
        let w = refilled(v, now);
        let taken = if w.tokens >= bytes {
            bytes
        } else {
            w.tokens
        };
        (ThrottleView { tokens: (w.tokens - taken) as u64, ..w }, taken)
    }
}

/// The bucket after several tries, each for so many tokens at such a time, and how many tokens
/// were taken in all.
pub open spec fn all_tried(v: ThrottleView, tries: Seq<(u64, Instant)>) -> (ThrottleView, nat)
    decreases tries.len(),
{
    if tries.len() == 0 {
        (v, 0)
    } else {
        let (before, total) = all_tried(v, tries.drop_last());
        let (after, taken) = tried(before, tries.last().0, tries.last().1);
        (after, total + taken as nat)
    }
}

/// What one try to take tokens came to.
#[derive(Debug, Clone, Copy, PartialEq, Eq, Structural)]
pub enum Acquire {
    /// All are taken.
    Done,
    /// So many are still missing: try again after the wait.
    Wait { remaining: u64, wait: Duration },
}

impl BandwidthThrottle {
    /// The bucket never holds more than one second's worth.
    pub closed spec fn wf(&self) -> bool {
        self.tokens <= self.limit
    }

    /// A full bucket that takes in `limit` tokens a second. A limit of zero is no limit.
    pub fn new(limit: u64, now: Instant) -> (throttle: Self)
        ensures
            throttle.wf(),
            throttle@ == (ThrottleView { limit, tokens: limit, last_refill: now }),
    {
        BandwidthThrottle { limit, tokens: limit, last_refill: now }
    }

    /// A bucket without a limit.
    pub fn unlimited(now: Instant) -> (throttle: Self)
        ensures
            throttle.wf(),
            throttle@ == (ThrottleView { limit: 0, tokens: 0, last_refill: now }),
    {
        Self::new(0, now)
    }

    /// One try to take `bytes` tokens at the time `now`. What is there is taken, and the
    /// caller tries again for the rest after the wait.
    pub fn acquire(&mut self, bytes: u64, now: Instant) -> (r: Acquire)
        requires
            old(self).wf(),
        ensures
            final(self).wf(),
            final(self)@ == tried(old(self)@, bytes, now).0,
            r == ({
                let taken = tried(old(self)@, bytes, now).1;
                if taken == bytes {
                    Acquire::Done
                } else {
                    Acquire::Wait {
                        remaining: (bytes - taken) as u64,
                        wait: Duration {
                            nanos: wait_for(old(self)@.limit, (bytes - taken) as u64) as u128,
                        },
                    }
                }
            }),
    {
        if bytes == 0 || self.limit == 0 {
            return Acquire::Done;
        }
        let elapsed = now.saturating_duration_since(self.last_refill);
        let added: u64 = tokens_for_elapsed(self.limit, elapsed);
        if added > 0 {
            let sum: u64 = self.tokens.saturating_add(added);
            self.tokens = if sum < self.limit {
                sum
            } else {
                self.limit
            };
            self.last_refill = now;
        }
        let available: u64 = self.tokens;
        if available >= bytes {
            self.tokens = available - bytes;
            return Acquire::Done;
        }
        self.tokens = 0;
        let remaining: u64 = bytes - available;
        match missing_wait(self.limit, remaining) {
            Some(wait) => Acquire::Wait { remaining, wait },
            None => Acquire::Done,
        }
    }
}

/// What is taken at one try never exceeds what the bucket may hold, one second's worth.
pub proof fn burst_is_bounded(v: ThrottleView, now: Instant)
    requires
        v.tokens <= v.limit,
    ensures
        refilled(v, now).tokens <= v.limit,
        refilled(v, now).tokens >= v.tokens,
{
}

/// The wait is the time that the missing tokens take, to the nanosecond: not longer, unless
/// it is a single nanosecond, and one nanosecond more is enough.
pub proof fn wait_is_tight(limit: u64, missing: u64)
    requires
        limit > 0,
        missing > 0,
        missing as nat * 1_000_000_000 / limit as nat <= u64::MAX,
    ensures
        wait_for(limit, missing) * limit <= missing * 1_000_000_000 || wait_for(limit, missing) == 1,
        missing * 1_000_000_000 < (wait_for(limit, missing) + 1) * limit,
{
    let product = missing as int * 1_000_000_000;
    let q = product / limit as int;
    vstd::arithmetic::div_mod::lemma_fundamental_div_mod(product, limit as int);
    vstd::arithmetic::div_mod::lemma_mod_bound(product, limit as int);
    assert(q * limit == limit * q) by (nonlinear_arith);
    assert((q + 1) * limit == q * limit + limit) by (nonlinear_arith);
    if q == 0 {
        assert(limit as int * q == 0) by (nonlinear_arith)
            requires
                q == 0,
        ;
        assert((1 + 1) * limit == limit + limit) by (nonlinear_arith);
    }
}

proof fn refill_is_slow(limit: u64, nanos: nat)
    ensures
        refill(limit, nanos) * 1_000_000_000 <= limit * nanos,
{
    let product = nanos * limit as nat;
    let part = if product <= u128::MAX {
        product
    } else {
        u128::MAX as nat
    };
    vstd::arithmetic::div_mod::lemma_fundamental_div_mod(part as int, 1_000_000_000);
    assert(product == limit * nanos) by (nonlinear_arith)
        requires
            product == nanos * limit as nat,
    ;
}

/// A transfer never goes faster than its limit for long: however it tries, up to a time `end`
/// it has taken no more than what the bucket held at first and `limit` tokens for every second
/// since.
pub proof fn rate_is_bounded(v: ThrottleView, tries: Seq<(u64, Instant)>, end: Instant)
    requires
        v.limit > 0,
        v.last_refill.nanos <= end.nanos,
        forall|i: int| 0 <= i < tries.len() ==> (#[trigger] tries[i]).1.nanos <= end.nanos,
    ensures
        all_tried(v, tries).1 * 1_000_000_000 <= v.tokens * 1_000_000_000 + v.limit * (end.nanos
            - v.last_refill.nanos),
{
    takes_are_covered(v, tries, end);
    let after = all_tried(v, tries).0;
    assert(v.limit * (after.last_refill.nanos - v.last_refill.nanos) <= v.limit * (end.nanos
        - v.last_refill.nanos)) by (nonlinear_arith)
        requires
            after.last_refill.nanos <= end.nanos,
    ;
}

proof fn takes_are_covered(v: ThrottleView, tries: Seq<(u64, Instant)>, end: Instant)
    requires
        v.limit > 0,
        v.last_refill.nanos <= end.nanos,
        forall|i: int| 0 <= i < tries.len() ==> (#[trigger] tries[i]).1.nanos <= end.nanos,
    ensures
        ({
            let (after, total) = all_tried(v, tries);
            &&& after.limit == v.limit
            &&& v.last_refill.nanos <= after.last_refill.nanos <= end.nanos
            &&& (total + after.tokens) * 1_000_000_000 <= v.tokens * 1_000_000_000 + v.limit * (
            after.last_refill.nanos - v.last_refill.nanos)
        }),
    decreases tries.len(),
{
    if tries.len() == 0 {
        assert(v.limit * (v.last_refill.nanos - v.last_refill.nanos) == 0) by (nonlinear_arith);
    } else {
        let fewer = tries.drop_last();
        assert forall|i: int| 0 <= i < fewer.len() implies (#[trigger] fewer[i]).1.nanos
            <= end.nanos by {
            assert(fewer[i] == tries[i]);
        }
        takes_are_covered(v, fewer, end);
        let (before, total) = all_tried(v, fewer);
        let (bytes, now) = tries.last();
        assert(tries[tries.len() - 1] == tries.last());
        let since = now.since(before.last_refill);
        refill_is_slow(v.limit, since);
        let old_span = before.last_refill.nanos - v.last_refill.nanos;
        assert(v.limit * (old_span + since) == v.limit * old_span + v.limit * since)
            by (nonlinear_arith);
    }
}

/// So many tokens come in as the limit gives for the time that passes, rounded down.
pub proof fn refill_follows_the_limit(limit: u64, nanos: nat)
    requires
        nanos * limit <= 0xffff_ffff_ffff_ffff * 1_000_000_000,
    ensures
        refill(limit, nanos) * 1_000_000_000 <= nanos * limit,
        nanos * limit < (refill(limit, nanos) + 1) * 1_000_000_000,
{
}

/// Tokens that come in stay until the bucket is full, and time that brings none is not lost.
pub proof fn bucket_fills_up(v: ThrottleView, now: Instant)
    requires
        v.tokens <= v.limit,
    ensures
        ({
            let w = refilled(v, now);
            let added = refill(v.limit, now.since(v.last_refill));
            &&& w.limit == v.limit
            &&& v.tokens <= w.tokens <= v.limit
            &&& w.tokens < v.limit ==> w.tokens == v.tokens + added
            &&& w.tokens == v.limit ==> v.tokens + added >= v.limit
            &&& added == 0 ==> w.last_refill == v.last_refill
            &&& added > 0 ==> w.last_refill == now
        }),
{
}

/// A try takes all that is asked for where it is there, and else all that there is. Without a
/// limit it takes all, and nothing changes.
pub proof fn try_takes_what_is_there(v: ThrottleView, bytes: u64, now: Instant)
    ensures
        ({
            let w = refilled(v, now);
            let (after, taken) = tried(v, bytes, now);
            &&& v.limit == 0 || bytes == 0 ==> taken == bytes && after == v
            &&& v.limit > 0 && bytes > 0 ==> {
                &&& taken <= bytes
                &&& taken + after.tokens == w.tokens
                &&& taken < bytes ==> after.tokens == 0
                &&& after.limit == v.limit
                &&& after.last_refill == w.last_refill
            }
        }),
{
}

/// Who waits is to wait at least a moment, and not so long that one token too many comes in.
pub proof fn wait_is_for_what_is_missing(limit: u64, missing: u64)
    requires
        limit > 0,
        missing as nat * 1_000_000_000 / limit as nat <= u64::MAX,
    ensures
        wait_for(limit, missing) >= 1,
        missing * 1_000_000_000 >= limit ==> wait_for(limit, missing) * limit <= missing * 1_000_000_000,
        missing * 1_000_000_000 < (wait_for(limit, missing) + 1) * limit,
{
    let product = missing as nat * 1_000_000_000;
    let q = product / limit as nat;
    vstd::arithmetic::div_mod::lemma_fundamental_div_mod(product as int, limit as int);
    assert(q * limit <= product < (q + 1) * limit) by (nonlinear_arith)
        requires
            product == limit * q + product as int % limit as int,
            0 <= product as int % limit as int,
            (product as int % limit as int) < limit,
    ;
    if q == 0 {
        assert(product < limit) by (nonlinear_arith)
            requires
                product < (q + 1) * limit,
                q == 0,
        ;
        assert(product < 2 * limit);
    }
}

/// Who takes all that is asked for is done, and who does not waits for what is missing. A limit is
/// one second's worth at first, and without one nobody waits.
pub proof fn who_takes_all_is_done(
    throttle: &mut BandwidthThrottle,
    bytes: u64,
    now: Instant,
    r: Acquire,
    limit: u64,
    fresh: BandwidthThrottle,
    free: BandwidthThrottle,
)
    requires
        old(throttle).wf(),
        call_ensures(BandwidthThrottle::acquire, (throttle, bytes, now), r),
        call_ensures(BandwidthThrottle::new, (limit, now), fresh),
        call_ensures(BandwidthThrottle::unlimited, (now,), free),
    ensures
        ({
            let there = refilled(old(throttle)@, now).tokens;
            let limited = old(throttle)@.limit > 0 && bytes > 0;
            &&& r is Done <==> !limited || there >= bytes
            &&& r matches Acquire::Wait { remaining, wait } ==> remaining == bytes - there
                && final(throttle)@.tokens == 0 && wait.nanos == wait_for(
                old(throttle)@.limit,
                remaining,
            )
            &&& limited && r is Done ==> final(throttle)@.tokens == there - bytes
            &&& !limited ==> final(throttle)@ == old(throttle)@
        }),
        fresh@.limit == limit && fresh@.tokens == limit && fresh@.last_refill == now,
        free@.limit == 0,
{
}

} // verus!

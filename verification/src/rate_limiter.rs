//! Request-rate bookkeeping with auto-throttle: the rate halves on each 429
//! and recovers by a quarter on each success, never above the configured rate.
use vstd::prelude::*;

verus! {

/// The rate after a throttle: half, but at least one request per second.
pub open spec fn throttled_rate(current: nat) -> nat {
    if current / 2 >= 1 {
        current / 2
    } else {
        1
    }
}

/// `(current as f64 * 1.25) as u32`: exact, then truncated and capped at
/// `u32::MAX`.
pub open spec fn raised_rate(current: nat) -> nat {
    let r = current + current / 4;
    if r > u32::MAX {
        u32::MAX as nat
    } else {
        r
    }
}

/// The rate after an unthrottle: raised by a quarter but not above `base`;
/// when that changes nothing and the rate is below `base`, one more.
pub open spec fn unthrottled_rate(current: nat, base: nat) -> nat {
    let r = if raised_rate(current) <= base {
        raised_rate(current)
    } else {
        base
    };
    if r == current && current < base {
        current + 1
    } else {
        r
    }
}

/// The rates of a [`RateLimiter`].
pub struct RateModel {
    pub base: nat,
    pub effective: nat,
}

/// A token-bucket rate: the configured rate and the current, possibly
/// throttled, rate, in requests per second (0 = unlimited).
pub struct RateLimiter {
    base_rate: u32,
    effective_rate: u32,
}

impl View for RateLimiter {
    type V = RateModel;

    closed spec fn view(&self) -> RateModel {
        RateModel { base: self.base_rate as nat, effective: self.effective_rate as nat }
    }
}

impl RateLimiter {
    pub fn new(rate: u32) -> (l: Self)
        ensures
            l@.base == rate as nat,
            l@.effective == rate as nat,
    {
        Self { base_rate: rate, effective_rate: rate }
    }

    /// Halves the current rate, keeping at least one request per second.
    pub fn throttle(&mut self)
        ensures
            final(self)@.base == old(self)@.base,
            final(self)@.effective == throttled_rate(old(self)@.effective),
    {
        let half = self.effective_rate / 2;
        self.effective_rate = if half >= 1 { half } else { 1 };
    }

    /// Raises the current rate by a quarter, never above the configured rate,
    /// and by at least one while below it.
    pub fn unthrottle(&mut self)
        ensures
            final(self)@.base == old(self)@.base,
            final(self)@.effective == unthrottled_rate(old(self)@.effective, old(self)@.base),
    {
        let current = self.effective_rate;
        let raised: u64 = current as u64 + (current / 4) as u64;
        let raised: u32 = if raised > u32::MAX as u64 { u32::MAX } else { raised as u32 };
        let new_rate = if raised <= self.base_rate { raised } else { self.base_rate };
        self.effective_rate = if new_rate == current && current < self.base_rate {
            current + 1
        } else {
            new_rate
        };
    }

    /// The current rate.
    pub fn effective_rate(&self) -> (r: u32)
        ensures
            r == self@.effective,
    {
        self.effective_rate
    }

    /// The configured rate.
    pub fn base_rate(&self) -> (r: u32)
        ensures
            r == self@.base,
    {
        self.base_rate
    }

    /// Whether the current rate is below a configured, limited rate.
    pub fn is_throttled(&self) -> (b: bool)
        ensures
            b == (self@.base > 0 && self@.effective < self@.base),
    {
        self.base_rate > 0 && self.effective_rate < self.base_rate
    }
}

/// How long to wait before the next request, in nanoseconds, given the
/// spacing between requests and the time since the last one: nothing when
/// that much time has passed, else the rest of the spacing.
pub open spec fn wait_nanos(interval: nat, elapsed: nat) -> nat {
    if elapsed < interval {
        (interval - elapsed) as nat
    } else {
        0
    }
}

/// The pacing decision of `acquire`: `None` at an unlimited rate (0), where
/// no request waits; otherwise the wait before the next request.
pub fn acquire_wait(rate: u32, interval_nanos: u64, elapsed_nanos: u64) -> (w: Option<u64>)
    ensures
        rate == 0 ==> w is None,
        rate != 0 ==> w == Some(wait_nanos(interval_nanos as nat, elapsed_nanos as nat) as u64),
{
    if rate == 0 {
        None
    } else if elapsed_nanos < interval_nanos {
        Some(interval_nanos - elapsed_nanos)
    } else {
        Some(0)
    }
}

/// Pacing keeps the spacing: after its wait, a request goes out at least
/// `interval` after the previous one; it waits no longer than that, and not
/// at all once the spacing has passed. (The spacing of a rate `r` is `1/r`
/// seconds, computed by the caller.)
pub proof fn pacing_keeps_the_interval(interval: nat, elapsed: nat)
    ensures
        elapsed + wait_nanos(interval, elapsed) >= interval,
        wait_nanos(interval, elapsed) <= interval,
        elapsed >= interval ==> wait_nanos(interval, elapsed) == 0,
{
}

/// With a configured rate of at least one, the current rate stays between
/// one and the configured rate through every throttle and unthrottle.
pub proof fn rate_stays_in_bounds(current: nat, base: nat)
    requires
        base >= 1,
        1 <= current <= base,
    ensures
        1 <= throttled_rate(current) <= base,
        1 <= unthrottled_rate(current, base) <= base,
{
}

/// A throttle halves the rate, rounding down, but never goes below one; from
/// a rate of two or more it lowers it.
pub proof fn throttle_halves(current: nat)
    ensures
        throttled_rate(current) >= 1,
        current >= 2 ==> 2 * throttled_rate(current) <= current < 2 * throttled_rate(current) + 2,
        current >= 2 ==> throttled_rate(current) < current,
{
}

/// While throttled, every unthrottle raises the rate, so repeated
/// unthrottles restore the configured rate.
pub proof fn unthrottle_makes_progress(current: nat, base: nat)
    requires
        current < base <= u32::MAX,
    ensures
        current < unthrottled_rate(current, base) <= base,
{
}

/// The rate after `n` unthrottles in a row.
pub open spec fn unthrottled_times(current: nat, base: nat, n: nat) -> nat
    decreases n,
{
    if n == 0 {
        current
    } else {
        unthrottled_times(unthrottled_rate(current, base), base, (n - 1) as nat)
    }
}

/// From any rate up to the configured one, as many unthrottles as the rate
/// is short of it restore the configured rate.
pub proof fn unthrottles_restore_base(current: nat, base: nat)
    requires
        current <= base <= u32::MAX,
    ensures
        unthrottled_times(current, base, (base - current) as nat) == base,
    decreases base - current,
{
    if current < base {
        let next = unthrottled_rate(current, base);
        assert(current < next <= base);
        unthrottles_restore_base(next, base);
        lemma_unthrottled_at_base(base, (next - current - 1) as nat);
        lemma_unthrottled_split(next, base, (base - next) as nat, (next - current - 1) as nat);
    }
}

proof fn lemma_unthrottled_at_base(base: nat, n: nat)
    requires
        base <= u32::MAX,
    ensures
        unthrottled_times(base, base, n) == base,
    decreases n,
{
    if n > 0 {
        lemma_unthrottled_at_base(base, (n - 1) as nat);
    }
}

proof fn lemma_unthrottled_split(current: nat, base: nat, a: nat, b: nat)
    ensures
        unthrottled_times(current, base, a + b) == unthrottled_times(
            unthrottled_times(current, base, a),
            base,
            b,
        ),
    decreases a,
{
    if a > 0 {
        lemma_unthrottled_split(unthrottled_rate(current, base), base, (a - 1) as nat, b);
    }
}

/// Once at the configured rate, unthrottling keeps it there.
pub proof fn unthrottle_at_base_is_stable(base: nat)
    requires
        base <= u32::MAX,
    ensures
        unthrottled_rate(base, base) == base,
{
}

} // verus!

//! Simulated time, counted in ticks, with one reserved value for "never".
use vstd::prelude::*;

verus! {

/// The instant that no event ever reaches.
pub const INFINITY: u64 = u64::MAX;

/// The instant `delay` ticks after `t`. Anything at or beyond the last
/// representable tick is `INFINITY`.
pub open spec fn time_after(t: u64, delay: u64) -> u64 {
    if t + delay >= INFINITY {
        INFINITY
    } else {
        (t + delay) as u64
    }
}

/// The ticks that lie between `from` and `to`: zero when `to` is not later
/// than `from`, and `INFINITY` when `to` is never reached from a finite `from`.
pub open spec fn time_between(from: u64, to: u64) -> u64 {
    if to <= from {
        0
    } else if to == INFINITY {
        INFINITY
    } else {
        (to - from) as u64
    }
}

/// What is left of a delay after `e` ticks of it have passed. An infinite
/// delay stays infinite.
pub open spec fn time_left(sigma: u64, e: u64) -> u64 {
    if sigma == INFINITY {
        INFINITY
    } else if e >= sigma {
        0
    } else {
        (sigma - e) as u64
    }
}

/// The earlier of two instants.
pub open spec fn earlier(a: u64, b: u64) -> u64 {
    if a <= b {
        a
    } else {
        b
    }
}

/// Adds a delay to an instant.
pub fn advance(t: u64, delay: u64) -> (r: u64)
    ensures
        r == time_after(t, delay),
{
    t.saturating_add(delay)
}

/// Measures the time elapsed from one instant to a later one.
pub fn elapsed(from: u64, to: u64) -> (r: u64)
    ensures
        r == time_between(from, to),
{
    if to <= from {
        0
    } else if to == INFINITY {
        INFINITY
    } else {
        to - from
    }
}

/// Shortens a delay by the time that has passed.
pub fn remaining(sigma: u64, e: u64) -> (r: u64)
    ensures
        r == time_left(sigma, e),
{
    if sigma == INFINITY {
        INFINITY
    } else if e >= sigma {
        0
    } else {
        sigma - e
    }
}

/// Picks the earlier of two instants.
pub fn min_time(a: u64, b: u64) -> (r: u64)
    ensures
        r == earlier(a, b),
{
    if a <= b {
        a
    } else {
        b
    }
}

/// An instant is never before the instant it was advanced from, and adding
/// nothing changes nothing.
pub proof fn lemma_time_after_monotone(t: u64, delay: u64)
    ensures
        time_after(t, delay) >= t,
        time_after(t, 0) == t,
        time_after(t, INFINITY) == INFINITY,
{
}

} // verus!

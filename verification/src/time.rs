//! Spans and points of time as whole nanoseconds.
//!
//! The schedulers only compare and shift times, so a clock reading is the number of nanoseconds
//! since the epoch that the embedding program chose. A sum that would pass the end of the clock
//! stays at its end.

use vstd::prelude::*;

verus! {

pub const NANOS_PER_MICRO: u64 = 1_000;

pub const NANOS_PER_MILLI: u64 = 1_000_000;

pub const NANOS_PER_SEC: u64 = 1_000_000_000;

/// The value of `x` where it fits a `u64`, the largest `u64` where it is above that.
pub open spec fn clamp_u64(x: int) -> u64 {
    if x > u64::MAX {
        u64::MAX
    } else {
        x as u64
    }
}

/// A span of time.
#[derive(Clone, Copy, Debug, PartialEq, Eq, PartialOrd, Ord, Hash, Structural)]
pub struct Duration {
    pub nanos: u64,
}

/// A point on the monotonic clock.
#[derive(Clone, Copy, Debug, PartialEq, Eq, PartialOrd, Ord, Hash, Structural)]
pub struct Instant {
    pub nanos: u64,
}

fn scaled(count: u64, unit: u64) -> (nanos: u64)
    ensures
        nanos == clamp_u64(count * unit),
{
    match count.checked_mul(unit) {
        Some(nanos) => nanos,
        None => u64::MAX,
    }
}

impl Duration {
    pub fn from_nanos(nanos: u64) -> (d: Duration)
        ensures
            d.nanos == nanos,
    {
        Duration { nanos }
    }

    pub fn from_micros(micros: u64) -> (d: Duration)
        ensures
            d.nanos == clamp_u64(micros * NANOS_PER_MICRO),
    {
        Duration { nanos: scaled(micros, NANOS_PER_MICRO) }
    }

    pub fn from_millis(millis: u64) -> (d: Duration)
        ensures
            d.nanos == clamp_u64(millis * NANOS_PER_MILLI),
    {
        Duration { nanos: scaled(millis, NANOS_PER_MILLI) }
    }

    pub fn from_secs(secs: u64) -> (d: Duration)
        ensures
            d.nanos == clamp_u64(secs * NANOS_PER_SEC),
    {
        Duration { nanos: scaled(secs, NANOS_PER_SEC) }
    }

    /// The whole microseconds in this span.
    pub fn as_micros(&self) -> (micros: u64)
        ensures
            micros == self.nanos / NANOS_PER_MICRO,
    {
        self.nanos / NANOS_PER_MICRO
    }

    /// The whole milliseconds in this span.
    pub fn as_millis(&self) -> (millis: u64)
        ensures
            millis == self.nanos / NANOS_PER_MILLI,
    {
        self.nanos / NANOS_PER_MILLI
    }

    /// What is left of this span once `other` is taken off, or nothing.
    pub fn saturating_sub(self, other: Duration) -> (d: Duration)
        ensures
            d.nanos == (if self.nanos > other.nanos { (self.nanos - other.nanos) as u64 } else { 0 }),
    {
        Duration { nanos: self.nanos.saturating_sub(other.nanos) }
    }

    pub fn min(self, other: Duration) -> (d: Duration)
        ensures
            d == (if other.nanos < self.nanos { other } else { self }),
    {
        if other.nanos < self.nanos {
            other
        } else {
            self
        }
    }
}

impl Instant {
    /// The point that lies `span` later.
    pub open spec fn spec_plus(self, span: Duration) -> Instant {
        Instant { nanos: clamp_u64(self.nanos + span.nanos) }
    }

    /// The time from `earlier` to this point, or nothing if `earlier` is not earlier.
    pub open spec fn spec_since(self, earlier: Instant) -> Duration {
        Duration {
            nanos: if self.nanos > earlier.nanos {
                (self.nanos - earlier.nanos) as u64
            } else {
                0
            },
        }
    }

    pub fn plus(self, span: Duration) -> (t: Instant)
        ensures
            t == self.spec_plus(span),
    {
        Instant { nanos: self.nanos.saturating_add(span.nanos) }
    }

    pub fn since(self, earlier: Instant) -> (d: Duration)
        ensures
            d == self.spec_since(earlier),
    {
        Duration { nanos: self.nanos.saturating_sub(earlier.nanos) }
    }
}

/// Law: the units are a thousand apart, from the nanosecond to the second.
pub proof fn law_units_are_a_thousand_apart()
    ensures
        NANOS_PER_MICRO == 1000,
        NANOS_PER_MILLI == 1000 * NANOS_PER_MICRO,
        NANOS_PER_SEC == 1000 * NANOS_PER_MILLI,
{
}

/// Law: a point that lies a span later lies exactly that span later, or at the end of the clock
/// where the clock does not reach so far. The time between two points is what takes the earlier one
/// to the later one, and nothing the other way round.
pub proof fn law_times_add_up(start: Instant, span: Duration, other: Instant)
    ensures
        start.nanos + span.nanos <= u64::MAX ==> start.spec_plus(span).nanos == start.nanos
            + span.nanos && start.spec_plus(span).spec_since(start) == span,
        start.nanos + span.nanos > u64::MAX ==> start.spec_plus(span).nanos == u64::MAX,
        start.nanos <= other.nanos ==> start.nanos + other.spec_since(start).nanos == other.nanos
            && start.spec_plus(other.spec_since(start)) == other,
        other.nanos <= start.nanos ==> other.spec_since(start).nanos == 0,
{
}

} // verus!

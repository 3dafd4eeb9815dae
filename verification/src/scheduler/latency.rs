//! Largest latency among the latest packets of a class.

use crate::time::{clamp_u64, Duration, NANOS_PER_MICRO};
use std::collections::VecDeque;
use vstd::prelude::*;

verus! {

/// Number of latencies that are looked back on.
pub const WINDOW_SIZE: usize = 1000;

/// Whether `max` is the largest value in `s`, or 0 where there is none.
pub open spec fn is_max(s: Seq<u64>, max: u64) -> bool {
    &&& forall|i: int| 0 <= i < s.len() ==> #[trigger] s[i] <= max
    &&& if s.len() == 0 {
        max == 0
    } else {
        s.contains(max)
    }
}

/// `s` with `value` at the end, and the oldest value gone where there would be too many.
pub open spec fn slid(s: Seq<u64>, value: u64) -> Seq<u64> {
    if s.len() < WINDOW_SIZE {
        s.push(value)
    } else {
        s.push(value).drop_first()
    }
}

/// The latest latencies of a class, in whole microseconds, and the largest of them.
pub struct LatencyTracker {
    max_latency_us: u64,
    latencies: VecDeque<u64>,
}

fn largest(values: &VecDeque<u64>) -> (max: u64)
    ensures
        is_max(values@, max),
{
    let mut max: u64 = 0;
    let mut i: usize = 0;
    while i < values.len()
        invariant
            i <= values@.len(),
            forall|j: int| 0 <= j < i ==> #[trigger] values@[j] <= max,
            i == 0 ==> max == 0,
            i > 0 ==> values@.contains(max),
        decreases values@.len() - i,
    {
        let value: u64 = values[i];
        assert(values@.contains(values@[i as int]));
        if i == 0 || value > max {
            max = value;
        }
        i = i + 1;
    }
    max
}

impl LatencyTracker {
    pub closed spec fn wf(&self) -> bool {
        &&& self.latencies@.len() <= WINDOW_SIZE
        &&& is_max(self.latencies@, self.max_latency_us)
    }

    /// The latest latencies in microseconds, oldest first.
    pub closed spec fn window(&self) -> Seq<u64> {
        self.latencies@
    }

    pub fn new() -> (tracker: LatencyTracker)
        ensures
            tracker.wf(),
            tracker.window() == Seq::<u64>::empty(),
    {
        LatencyTracker { max_latency_us: 0, latencies: VecDeque::new() }
    }

    /// Takes in a latency. Only the latest [`WINDOW_SIZE`] count.
    pub fn record_latency(&mut self, latency: Duration)
        requires
            old(self).wf(),
        ensures
            final(self).wf(),
            final(self).window() == slid(old(self).window(), latency.nanos / NANOS_PER_MICRO),
    {
        let micros: u64 = latency.as_micros();
        let ghost s = self.latencies@;
        self.latencies.push_back(micros);
        let ghost t = self.latencies@;
        if micros > self.max_latency_us {
            self.max_latency_us = micros;
        }
        proof {
            assert(t[s.len() as int] == micros);
            if s.len() > 0 && self.max_latency_us != micros {
                let j = choose|j: int| 0 <= j < s.len() && s[j] == self.max_latency_us;
                assert(t[j] == self.max_latency_us);
            }
            if s.len() == 0 {
                assert(self.max_latency_us == micros);
            }
            assert(is_max(t, self.max_latency_us));
        }
        if self.latencies.len() > WINDOW_SIZE {
            match self.latencies.pop_front() {
                Some(removed) => {
                    proof {
                        assert(self.latencies@ =~= t.drop_first());
                    }
                    if removed == self.max_latency_us {
                        self.max_latency_us = largest(&self.latencies);
                    } else {
                        proof {
                            let j = choose|j: int| 0 <= j < t.len() && t[j] == self.max_latency_us;
                            assert(self.latencies@[j - 1] == self.max_latency_us);
                        }
                    }
                },
                None => {},
            }
        }
    }

    /// The largest of the latest latencies, or zero where there is none.
    pub fn get_p100(&self) -> (max: Duration)
        requires
            self.wf(),
        ensures
            exists|micros: u64| #[trigger]
                is_max(self.window(), micros) && max.nanos == clamp_u64(micros * NANOS_PER_MICRO),
    {
        assert(is_max(self.window(), self.max_latency_us));
        Duration::from_micros(self.max_latency_us)
    }
}

/// Law: the largest latency of a window is one value only.
pub proof fn law_max_is_unique(s: Seq<u64>, a: u64, b: u64)
    requires
        is_max(s, a),
        is_max(s, b),
    ensures
        a == b,
{
    if s.len() > 0 {
        let i = choose|i: int| 0 <= i < s.len() && s[i] == a;
        let j = choose|j: int| 0 <= j < s.len() && s[j] == b;
        assert(s[i] <= b);
        assert(s[j] <= a);
    }
}

/// Law: the window keeps the latest thousand latencies: each new one comes last, and the oldest goes
/// only where there were a thousand.
pub proof fn law_window_keeps_the_latest_thousand(s: Seq<u64>, value: u64)
    requires
        s.len() <= 1000,
    ensures
        slid(s, value).len() == (if s.len() < 1000 {
            s.len() + 1
        } else {
            1000
        }),
        slid(s, value).last() == value,
        s.len() < 1000 ==> slid(s, value) == s.push(value),
        s.len() == 1000 ==> slid(s, value) == s.skip(1).push(value),
{
    if s.len() == 1000 {
        assert(slid(s, value) =~= s.skip(1).push(value));
    }
}

/// Law: the largest latency is one of those in the window and below none of them, and is zero where
/// there are none.
pub proof fn law_largest_latency_bounds_the_window(s: Seq<u64>, max: u64, i: int)
    requires
        is_max(s, max),
    ensures
        0 <= i < s.len() ==> s[i] <= max && s.contains(max),
        s.len() == 0 ==> max == 0,
{
}

} // verus!

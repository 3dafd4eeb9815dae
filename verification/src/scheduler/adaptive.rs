//! Quotas and waiting times of the parallel workers, fitted to what the work costs.

use crate::math::{max_of, max_u64, max_usize, min_of, min_u64, min_usize};
use crate::priority::{Priority, PriorityTable};
use crate::time::{clamp_u64, Duration, NANOS_PER_MICRO};
use vstd::prelude::*;

verus! {

/// Number of workers.
pub const WORKER_COUNT: usize = 3;

/// Most packets of the most critical class that the worker reserved for it holds.
pub const HIGH_PRIMARY_MAX: usize = 64;

/// Most packets of the medium class that the second worker holds.
pub const MEDIUM_W1_MAX: usize = 160;

/// Most packets of the medium class that the third worker holds.
pub const MEDIUM_W2_MAX: usize = 160;

/// Most packets of the low class that the third worker holds.
pub const LOW_MAX: usize = 192;

/// Packets of the best-effort class that the third worker holds.
pub const BEST_EFFORT_MAX: usize = 128;

/// Longest wait of a packet for a more critical one, in microseconds.
pub const GUARD_MAX_US: u64 = 80;

/// Which classes a worker takes: the first only the most critical one, the second the two most
/// critical, the third all.
pub open spec fn handles(worker: int, priority: Priority) -> bool {
    match priority {
        Priority::High => true,
        Priority::Medium => worker >= 1,
        Priority::Low => worker >= 2,
        Priority::BestEffort => worker >= 2,
    }
}

/// Whether `worker` takes packets of class `priority`.
pub fn worker_handles(worker: usize, priority: Priority) -> (yes: bool)
    ensures
        yes == handles(worker as int, priority),
{
    match priority {
        Priority::High => true,
        Priority::Medium => worker >= 1,
        Priority::Low => worker >= 2,
        Priority::BestEffort => worker >= 2,
    }
}

/// Packets that can be worked on within nine tenths of `budget_ns` when one takes `average_ns`,
/// rounded to the nearest count, at least 1 and at most 512.
pub open spec fn safe_backlog(budget_ns: int, average_ns: int) -> int {
    max_of(1, min_of(512, (18 * budget_ns + 10 * average_ns) / (20 * average_ns)))
}

/// Packets to allow for: the safe backlog, or what is queued where that is more, up to twice the
/// safe backlog.
pub open spec fn target_depth(backlog: int, depth: int) -> int {
    max_of(backlog, max_of(min_of(depth, 2 * backlog), 1))
}

/// Most packets of class `priority` that `worker` may hold when `target` packets of the class are
/// to be allowed for. A class without a budget gets no share.
pub open spec fn planned_limit(worker: int, priority: Priority, budget_ns: int, target: int) -> int {
    match priority {
        Priority::High => if budget_ns == 0 {
            0
        } else if worker == 0 {
            min_of(
                HIGH_PRIMARY_MAX as int,
                if target >= 3 {
                    target - 2
                } else {
                    1
                },
            )
        } else if worker == 1 {
            if target >= 2 {
                1
            } else {
                0
            }
        } else {
            if target >= 3 {
                1
            } else {
                0
            }
        },
        Priority::Medium => if budget_ns == 0 || worker == 0 {
            0
        } else if worker == 1 {
            if 1 < target <= MEDIUM_W1_MAX {
                target - 1
            } else {
                min_of(target, MEDIUM_W1_MAX as int)
            }
        } else {
            if 1 < target <= MEDIUM_W1_MAX {
                1
            } else {
                min_of(max_of(target - MEDIUM_W1_MAX, 0), MEDIUM_W2_MAX as int)
            }
        },
        Priority::Low => if budget_ns == 0 || worker <= 1 {
            0
        } else {
            min_of(target, LOW_MAX as int)
        },
        Priority::BestEffort => if worker <= 1 {
            0
        } else {
            BEST_EFFORT_MAX as int
        },
    }
}

/// Least total that a worker may hold.
pub open spec fn least_total(worker: int) -> int {
    if worker == 0 {
        4
    } else if worker == 1 {
        16
    } else {
        64
    }
}

/// Time that a packet of a class may wait for a more critical one, in microseconds: twice what the
/// work takes, but no more than the budget.
pub open spec fn guard_micros(budget_ns: int, average_ns: int) -> int {
    min_of(2 * (average_ns / 1000), max_of(budget_ns / 1000, 1))
}

/// A running average once a further duration is taken in, with a weight of one eighth.
pub open spec fn smoothed(average_ns: int, duration_ns: int) -> int {
    max_of((7 * average_ns + duration_ns) / 8, 1)
}

/// The wait, in microseconds, that is planned for a class whose wait was `before`. A class without a
/// budget and the best-effort class keep theirs.
pub open spec fn planned_guard(
    priority: Priority,
    budget_ns: int,
    average_ns: int,
    before: int,
) -> int {
    if priority == Priority::BestEffort || budget_ns == 0 {
        before
    } else if priority == Priority::High {
        0
    } else {
        min_of(guard_micros(budget_ns, average_ns), GUARD_MAX_US as int)
    }
}

/// Most packets that `worker` may hold in all, where it may hold so many of each class.
pub open spec fn planned_total(
    worker: int,
    high: int,
    medium: int,
    low: int,
    best_effort: int,
) -> int {
    max_of(high + medium + low + best_effort, least_total(worker))
}

/// How long after its arrival a packet may still wait for a more critical one, where packets of its
/// class wait `guard_us` microseconds.
pub open spec fn wait_limit(priority: Priority, guard_us: int, budget: Duration) -> Option<Duration> {
    if priority == Priority::High || priority == Priority::BestEffort || guard_us == 0 {
        None
    } else {
        Some(
            Duration {
                nanos: min_of(
                    clamp_u64(guard_us * NANOS_PER_MICRO) as int,
                    budget.nanos as int,
                ) as u64,
            },
        )
    }
}

/// Quotas and waiting times that the workers go by.
pub struct AdaptiveController {
    total_limits: Vec<usize>,
    priority_limits: Vec<PriorityTable<usize>>,
    guard_slice_us: u64,
    guard_threshold_us: PriorityTable<u64>,
    processing_ema_ns: PriorityTable<u64>,
}

/// Packets that can be worked on within nine tenths of the budget.
pub fn compute_safe_backlog(budget_ns: u64, average_ns: u64) -> (backlog: usize)
    requires
        average_ns >= 1,
    ensures
        backlog == safe_backlog(budget_ns as int, average_ns as int),
        1 <= backlog <= 512,
{
    let rounded: u128 = (18 * (budget_ns as u128) + 10 * (average_ns as u128)) / (20 * (
    average_ns as u128));
    if rounded < 1 {
        1
    } else if rounded > 512 {
        512
    } else {
        rounded as usize
    }
}

/// Packets to allow for, given what is queued.
pub fn compute_target_depth(backlog: usize, depth: usize) -> (target: usize)
    requires
        1 <= backlog <= 512,
    ensures
        target == target_depth(backlog as int, depth as int),
        1 <= target <= 1024,
{
    max_usize(backlog, max_usize(min_usize(depth, backlog * 2), 1))
}

fn compute_limit(worker: usize, priority: Priority, budget_ns: u64, target: usize) -> (limit: usize)
    requires
        1 <= target <= 1024,
    ensures
        limit == planned_limit(worker as int, priority, budget_ns as int, target as int),
        limit <= 1024,
{
    match priority {
        Priority::High => if budget_ns == 0 {
            0
        } else if worker == 0 {
            min_usize(
                HIGH_PRIMARY_MAX,
                if target >= 3 {
                    target - 2
                } else {
                    1
                },
            )
        } else if worker == 1 {
            if target >= 2 {
                1
            } else {
                0
            }
        } else {
            if target >= 3 {
                1
            } else {
                0
            }
        },
        Priority::Medium => if budget_ns == 0 || worker == 0 {
            0
        } else {
            let mut w1: usize = min_usize(target, MEDIUM_W1_MAX);
            let mut w2: usize = min_usize(target - w1, MEDIUM_W2_MAX);
            if target > 1 && w2 == 0 {
                w1 = w1 - 1;
                w2 = 1;
            }
            if worker == 1 {
                w1
            } else {
                w2
            }
        },
        Priority::Low => if budget_ns == 0 || worker <= 1 {
            0
        } else {
            min_usize(target, LOW_MAX)
        },
        Priority::BestEffort => if worker <= 1 {
            0
        } else {
            BEST_EFFORT_MAX
        },
    }
}

fn compute_guard_micros(budget_ns: u64, average_ns: u64) -> (micros: u64)
    ensures
        micros == guard_micros(budget_ns as int, average_ns as int),
{
    min_u64((average_ns / 1000) * 2, max_u64(budget_ns / 1000, 1))
}

impl AdaptiveController {
    pub closed spec fn wf(&self) -> bool {
        &&& self.total_limits@.len() == WORKER_COUNT
        &&& self.priority_limits@.len() == WORKER_COUNT
        &&& self.guard_slice_us >= 1
        &&& forall|w: int| 0 <= w < WORKER_COUNT ==> #[trigger] self.total_limits@[w] >= 1
    }

    /// Most packets that `worker` may hold in all.
    pub closed spec fn total(&self, worker: int) -> int {
        self.total_limits@[worker] as int
    }

    /// Most packets of class `priority` that `worker` may hold.
    pub closed spec fn limit(&self, worker: int, priority: Priority) -> int {
        self.priority_limits@[worker].at(priority) as int
    }

    /// Running average of what the work on a packet of the class takes, in nanoseconds.
    pub closed spec fn average(&self, priority: Priority) -> int {
        max_of(self.processing_ema_ns.at(priority) as int, 1)
    }

    /// How long packets of the class may wait for a more critical one, in microseconds.
    pub closed spec fn guard(&self, priority: Priority) -> int {
        self.guard_threshold_us.at(priority) as int
    }

    /// Time between two looks at the budget during such a wait, in microseconds.
    pub closed spec fn slice(&self) -> int {
        self.guard_slice_us as int
    }

    /// Packets of the class that are to be allowed for with the given budget and queue.
    pub open spec fn target(&self, priority: Priority, budget_ns: int, depth: int) -> int {
        target_depth(safe_backlog(budget_ns, self.average(priority)), depth)
    }

    /// Whether the quotas, the waiting times and the averages are those to start with.
    pub open spec fn is_initial(&self) -> bool {
        &&& self.total(0) == 16
        &&& self.total(1) == 64
        &&& self.total(2) == 256
        &&& self.limit(0, Priority::High) == 16
        &&& self.limit(1, Priority::High) == 4
        &&& self.limit(1, Priority::Medium) == 60
        &&& self.limit(2, Priority::High) == 4
        &&& self.limit(2, Priority::Medium) == 60
        &&& self.limit(2, Priority::Low) == 64
        &&& self.limit(2, Priority::BestEffort) == 128
        &&& forall|w: int, p: Priority|
            0 <= w < WORKER_COUNT && !handles(w, p) ==> #[trigger] self.limit(w, p) == 0
        &&& forall|p: Priority| #[trigger]
            self.guard(p) == (match p {
                Priority::Medium => 80int,
                Priority::Low => 80,
                _ => 0,
            })
        &&& forall|p: Priority| #[trigger]
            self.average(p) == (match p {
                Priority::High => 100_000int,
                Priority::Medium => 120_000,
                _ => 200_000,
            })
        &&& self.slice() == 10
    }

    /// The quotas and waiting times to start with.
    pub fn new() -> (controller: AdaptiveController)
        ensures
            controller.wf(),
            controller.is_initial(),
    {
        let mut total_limits: Vec<usize> = Vec::new();
        total_limits.push(16);
        total_limits.push(64);
        total_limits.push(256);
        let mut priority_limits: Vec<PriorityTable<usize>> = Vec::new();
        priority_limits.push(PriorityTable::of(16, 0, 0, 0));
        priority_limits.push(PriorityTable::of(4, 60, 0, 0));
        priority_limits.push(PriorityTable::of(4, 60, 64, 128));
        let guard_threshold_us = PriorityTable::of(0, GUARD_MAX_US, GUARD_MAX_US, 0);
        let processing_ema_ns = PriorityTable::of(100_000, 120_000, 200_000, 200_000);
        AdaptiveController {
            total_limits,
            priority_limits,
            guard_slice_us: 10,
            guard_threshold_us,
            processing_ema_ns,
        }
    }

    /// Most packets that `worker` may hold in all, at least 1.
    pub fn total_limit(&self, worker: usize) -> (limit: usize)
        requires
            self.wf(),
            worker < WORKER_COUNT,
        ensures
            limit == self.total(worker as int),
            limit >= 1,
    {
        self.total_limits[worker]
    }

    /// Most packets of each class that `worker` may hold.
    pub fn priority_limits(&self, worker: usize) -> (limits: PriorityTable<usize>)
        requires
            self.wf(),
            worker < WORKER_COUNT,
        ensures
            forall|p: Priority| #[trigger] limits.at(p) == self.limit(worker as int, p),
    {
        let table = &self.priority_limits[worker];
        PriorityTable::of(
            *table.get(Priority::High),
            *table.get(Priority::Medium),
            *table.get(Priority::Low),
            *table.get(Priority::BestEffort),
        )
    }

    /// Time between two looks at the budget while a packet waits for a more critical one.
    pub fn guard_slice(&self) -> (slice: Duration)
        requires
            self.wf(),
        ensures
            slice.nanos == clamp_u64(self.slice() * NANOS_PER_MICRO),
    {
        Duration::from_micros(self.guard_slice_us)
    }

    /// How long after its arrival a packet with the given class and budget may still wait for a
    /// more critical one. The most critical class and the best-effort class never wait.
    pub fn guard_threshold(&self, priority: Priority, latency_budget: Duration) -> (threshold: Option<
        Duration,
    >)
        ensures
            threshold == (match priority {
                Priority::High => None::<Duration>,
                Priority::BestEffort => None::<Duration>,
                _ => if self.guard(priority) == 0 {
                    None::<Duration>
                } else {
                    Some(
                        Duration {
                            nanos: min_of(
                                clamp_u64(self.guard(priority) * NANOS_PER_MICRO) as int,
                                latency_budget.nanos as int,
                            ) as u64,
                        },
                    )
                },
            }),
            threshold == wait_limit(priority, self.guard(priority), latency_budget),
    {
        match priority {
            Priority::High => None,
            Priority::BestEffort => None,
            _ => {
                let micros: u64 = *self.guard_threshold_us.get(priority);
                if micros == 0 {
                    None
                } else {
                    Some(Duration::from_micros(micros).min(latency_budget))
                }
            },
        }
    }

    /// Takes a finished piece of work into the running average, with a weight of one eighth.
    pub fn observe_processing_time(&mut self, priority: Priority, duration: Duration)
        requires
            old(self).wf(),
        ensures
            final(self).wf(),
            final(self).average(priority) == max_of(
                (7 * old(self).average(priority) + duration.nanos) / 8,
                1,
            ),
            final(self).average(priority) == smoothed(
                old(self).average(priority),
                duration.nanos as int,
            ),
            forall|p: Priority|
                p != priority ==> #[trigger] final(self).average(p) == old(self).average(p),
            forall|w: int| #[trigger] final(self).total(w) == old(self).total(w),
            forall|w: int, p: Priority| #[trigger]
                final(self).limit(w, p) == old(self).limit(w, p),
            forall|p: Priority| #[trigger] final(self).guard(p) == old(self).guard(p),
            final(self).slice() == old(self).slice(),
    {
        let previous: u64 = max_u64(*self.processing_ema_ns.get(priority), 1);
        let updated: u128 = (7 * (previous as u128) + (duration.nanos as u128)) / 8;
        *self.processing_ema_ns.get_mut(priority) = updated as u64;
    }

    /// Running average of what the work on a packet of the class takes, at least 1 ns.
    pub fn average_processing_ns(&self, priority: Priority) -> (average: u64)
        ensures
            average == self.average(priority),
            average >= 1,
    {
        max_u64(*self.processing_ema_ns.get(priority), 1)
    }

    /// Fits quotas and waiting times to the running averages, given the latency budget of each
    /// class and the number of its packets that the workers hold.
    pub fn autobalance(&mut self, budgets: &PriorityTable<Duration>, depths: &PriorityTable<usize>)
        requires
            old(self).wf(),
        ensures
            final(self).wf(),
            forall|w: int, p: Priority|
                0 <= w < WORKER_COUNT ==> #[trigger] final(self).limit(w, p) == planned_limit(
                    w,
                    p,
                    budgets.at(p).nanos as int,
                    old(self).target(p, budgets.at(p).nanos as int, depths.at(p) as int),
                ),
            forall|w: int|
                0 <= w < WORKER_COUNT ==> #[trigger] final(self).total(w) == max_of(
                    final(self).limit(w, Priority::High) + final(self).limit(w, Priority::Medium)
                        + final(self).limit(w, Priority::Low) + final(self).limit(
                        w,
                        Priority::BestEffort,
                    ),
                    least_total(w),
                ),
            forall|p: Priority| #[trigger]
                final(self).guard(p) == (if p == Priority::BestEffort || budgets.at(p).nanos == 0 {
                    old(self).guard(p)
                } else if p == Priority::High {
                    0
                } else {
                    min_of(
                        guard_micros(budgets.at(p).nanos as int, old(self).average(p)),
                        GUARD_MAX_US as int,
                    )
                }),
            forall|p: Priority| #[trigger]
                final(self).guard(p) == planned_guard(
                    p,
                    budgets.at(p).nanos as int,
                    old(self).average(p),
                    old(self).guard(p),
                ),
            final(self).balanced(*old(self), *budgets, *depths),
            final(self).slice() == old(self).planned_slice(*budgets),
            forall|p: Priority| #[trigger] final(self).average(p) == old(self).average(p),
    {
        let mut shortest: Option<u64> = None;
        let mut targets: PriorityTable<usize> = PriorityTable::of(1, 1, 1, 1);
        let mut i: usize = 0;
        while i < 4
            invariant
                i <= 4,
                self.wf(),
                self.total_limits@ == old(self).total_limits@,
                self.priority_limits@ == old(self).priority_limits@,
                self.guard_slice_us == old(self).guard_slice_us,
                self.processing_ema_ns == old(self).processing_ema_ns,
                forall|p: Priority|
                    p.rank() < i ==> #[trigger] targets.at(p) == old(self).target(
                        p,
                        budgets.at(p).nanos as int,
                        depths.at(p) as int,
                    ),
                forall|p: Priority| 1 <= #[trigger] targets.at(p) <= 1024,
                forall|p: Priority| #[trigger]
                    self.guard(p) == (if p.rank() >= i || p == Priority::BestEffort || budgets.at(
                        p,
                    ).nanos == 0 {
                        old(self).guard(p)
                    } else if p == Priority::High {
                        0
                    } else {
                        min_of(
                            guard_micros(budgets.at(p).nanos as int, old(self).average(p)),
                            GUARD_MAX_US as int,
                        )
                    }),
                shortest == old(self).shortest_guard(*budgets, i as int),
            decreases 4 - i,
        {
            let ghost before = *self;
            let priority = Priority::from_index(i);
            let average: u64 = self.average_processing_ns(priority);
            assert(average == old(self).average(priority));
            let budget: u64 = budgets.get(priority).nanos;
            let backlog: usize = compute_safe_backlog(budget, average);
            *targets.get_mut(priority) = compute_target_depth(backlog, *depths.get(priority));
            if priority != Priority::BestEffort && budget != 0 {
                let micros: u64 = compute_guard_micros(budget, average);
                let candidate: u64 = if priority == Priority::High {
                    micros
                } else {
                    min_u64(micros, GUARD_MAX_US)
                };
                if priority == Priority::High {
                    *self.guard_threshold_us.get_mut(priority) = 0;
                } else {
                    *self.guard_threshold_us.get_mut(priority) = candidate;
                }
                shortest =
                match shortest {
                    None => Some(candidate),
                    Some(least) => Some(min_u64(least, candidate)),
                };
            }
            assert forall|p: Priority| p != priority implies #[trigger] self.guard(p)
                == before.guard(p) by {}
            assert(self.guard(priority) == before.guard(priority) || priority
                != Priority::BestEffort && budget != 0);
            i = i + 1;
        }
        let ghost guarded = *self;
        let mut total_limits: Vec<usize> = Vec::new();
        let mut priority_limits: Vec<PriorityTable<usize>> = Vec::new();
        let mut worker: usize = 0;
        while worker < WORKER_COUNT
            invariant
                worker <= WORKER_COUNT,
                total_limits@.len() == worker,
                priority_limits@.len() == worker,
                forall|p: Priority| 1 <= #[trigger] targets.at(p) <= 1024,
                forall|w: int, p: Priority|
                    0 <= w < worker ==> #[trigger] priority_limits@[w].at(p) == planned_limit(
                        w,
                        p,
                        budgets.at(p).nanos as int,
                        targets.at(p) as int,
                    ),
                forall|w: int|
                    0 <= w < worker ==> #[trigger] total_limits@[w] == max_of(
                        priority_limits@[w].at(Priority::High) + priority_limits@[w].at(
                            Priority::Medium,
                        ) + priority_limits@[w].at(Priority::Low) + priority_limits@[w].at(
                            Priority::BestEffort,
                        ),
                        least_total(w),
                    ),
            decreases WORKER_COUNT - worker,
        {
            let high: usize = compute_limit(
                worker,
                Priority::High,
                budgets.get(Priority::High).nanos,
                *targets.get(Priority::High),
            );
            let medium: usize = compute_limit(
                worker,
                Priority::Medium,
                budgets.get(Priority::Medium).nanos,
                *targets.get(Priority::Medium),
            );
            let low: usize = compute_limit(
                worker,
                Priority::Low,
                budgets.get(Priority::Low).nanos,
                *targets.get(Priority::Low),
            );
            let best_effort: usize = compute_limit(
                worker,
                Priority::BestEffort,
                budgets.get(Priority::BestEffort).nanos,
                *targets.get(Priority::BestEffort),
            );
            let least: usize = if worker == 0 {
                4
            } else if worker == 1 {
                16
            } else {
                64
            };
            total_limits.push(max_usize(high + medium + low + best_effort, least));
            priority_limits.push(PriorityTable::of(high, medium, low, best_effort));
            worker = worker + 1;
        }
        self.total_limits = total_limits;
        self.priority_limits = priority_limits;
        match shortest {
            Some(least) => {
                self.guard_slice_us = max_u64(min_u64(least, 50), 5);
            },
            None => {},
        }
        proof {
            assert forall|w: int, p: Priority| 0 <= w < WORKER_COUNT implies #[trigger] self.limit(
                w,
                p,
            ) == planned_limit(
                w,
                p,
                budgets.at(p).nanos as int,
                old(self).target(p, budgets.at(p).nanos as int, depths.at(p) as int),
            ) by {
                assert(self.priority_limits@[w].at(p) == planned_limit(
                    w,
                    p,
                    budgets.at(p).nanos as int,
                    targets.at(p) as int,
                ));
            }
            assert forall|p: Priority| #[trigger] self.guard(p) == (if p == Priority::BestEffort
                || budgets.at(p).nanos == 0 {
                old(self).guard(p)
            } else if p == Priority::High {
                0
            } else {
                min_of(
                    guard_micros(budgets.at(p).nanos as int, old(self).average(p)),
                    GUARD_MAX_US as int,
                )
            }) by {
                assert(guarded.guard(p) == self.guard(p));
            }
        }
    }

    /// Whether quotas and waits are those planned from what was known before, with the given budgets
    /// and queues.
    pub open spec fn balanced(
        self,
        before: AdaptiveController,
        budgets: PriorityTable<Duration>,
        depths: PriorityTable<usize>,
    ) -> bool {
        &&& forall|w: int, p: Priority|
            0 <= w < WORKER_COUNT ==> #[trigger] self.limit(w, p) == planned_limit(
                w,
                p,
                budgets.at(p).nanos as int,
                before.target(p, budgets.at(p).nanos as int, depths.at(p) as int),
            )
        &&& forall|w: int|
            0 <= w < WORKER_COUNT ==> #[trigger] self.total(w) == planned_total(
                w,
                self.limit(w, Priority::High),
                self.limit(w, Priority::Medium),
                self.limit(w, Priority::Low),
                self.limit(w, Priority::BestEffort),
            )
        &&& forall|p: Priority| #[trigger]
            self.guard(p) == planned_guard(
                p,
                budgets.at(p).nanos as int,
                before.average(p),
                before.guard(p),
            )
        &&& self.slice() == before.planned_slice(budgets)
        &&& forall|p: Priority| #[trigger] self.average(p) == before.average(p)
    }

    /// The shortest wait planned for the first `count` classes that have a budget. The best-effort
    /// class does not count.
    pub open spec fn shortest_guard(&self, budgets: PriorityTable<Duration>, count: int) -> Option<
        u64,
    >
        decreases count,
    {
        if count <= 0 {
            None
        } else {
            let p = Priority::of_rank(count - 1);
            let before = self.shortest_guard(budgets, count - 1);
            if p == Priority::BestEffort || budgets.at(p).nanos == 0 {
                before
            } else {
                let full = guard_micros(budgets.at(p).nanos as int, self.average(p));
                let candidate = if p == Priority::High {
                    full
                } else {
                    min_of(full, GUARD_MAX_US as int)
                };
                match before {
                    None => Some(candidate as u64),
                    Some(least) => Some(min_of(least as int, candidate) as u64),
                }
            }
        }
    }

    /// The slice that suits the shortest wait, between 5 and 50 microseconds. Where no class has a
    /// budget, the slice stays.
    pub open spec fn planned_slice(&self, budgets: PriorityTable<Duration>) -> int {
        match self.shortest_guard(budgets, 4) {
            Some(least) => max_of(min_of(least as int, 50), 5),
            None => self.slice(),
        }
    }
}

/// Law: no quota is planned for a class that a worker does not take, so packets only ever reach the
/// workers meant for them.
pub proof fn law_quotas_follow_the_assignment(
    worker: int,
    priority: Priority,
    budget_ns: int,
    target: int,
)
    requires
        0 <= worker < WORKER_COUNT,
        target >= 1,
        !handles(worker, priority),
    ensures
        planned_limit(worker, priority, budget_ns, target) == 0,
{
}

/// Law: a class with a budget always keeps room somewhere, and the most critical class keeps it on
/// the worker reserved for it.
pub proof fn law_every_class_keeps_room(budget_ns: int, target: int)
    requires
        budget_ns > 0,
        target >= 1,
    ensures
        planned_limit(0, Priority::High, budget_ns, target) >= 1,
        planned_limit(1, Priority::Medium, budget_ns, target) >= 1,
        planned_limit(2, Priority::Low, budget_ns, target) >= 1,
        planned_limit(2, Priority::BestEffort, budget_ns, target) >= 1,
{
}

/// Law: what is planned for a class in all is what is to be allowed for, as far as the workers'
/// ceilings permit.
pub proof fn law_quotas_add_up_to_the_target(budget_ns: int, target: int)
    requires
        budget_ns > 0,
        target >= 1,
    ensures
        target <= 66 ==> planned_limit(0, Priority::High, budget_ns, target) + planned_limit(
            1,
            Priority::High,
            budget_ns,
            target,
        ) + planned_limit(2, Priority::High, budget_ns, target) == target,
        target <= 320 ==> planned_limit(1, Priority::Medium, budget_ns, target) + planned_limit(
            2,
            Priority::Medium,
            budget_ns,
            target,
        ) == target,
        target <= 192 ==> planned_limit(2, Priority::Low, budget_ns, target) == target,
{
}

/// Law: what is planned for a class in all is the lesser of what is to be allowed for and the sum of
/// the workers' ceilings, for every target: 66 for the most critical class, 320 for the medium class
/// and 192 for the low class.
pub proof fn law_quotas_add_up_to_target_or_ceiling(budget_ns: int, target: int)
    requires
        budget_ns > 0,
        target >= 1,
    ensures
        planned_limit(0, Priority::High, budget_ns, target) + planned_limit(
            1,
            Priority::High,
            budget_ns,
            target,
        ) + planned_limit(2, Priority::High, budget_ns, target) == (if target <= 66 {
            target
        } else {
            66
        }),
        planned_limit(0, Priority::Medium, budget_ns, target) + planned_limit(
            1,
            Priority::Medium,
            budget_ns,
            target,
        ) + planned_limit(2, Priority::Medium, budget_ns, target) == (if target <= 320 {
            target
        } else {
            320
        }),
        planned_limit(0, Priority::Low, budget_ns, target) + planned_limit(
            1,
            Priority::Low,
            budget_ns,
            target,
        ) + planned_limit(2, Priority::Low, budget_ns, target) == (if target <= 192 {
            target
        } else {
            192
        }),
        planned_limit(2, Priority::BestEffort, budget_ns, target) == 128,
{
}

/// Law: a quota never falls when more is to be allowed for.
pub proof fn law_quotas_grow_with_the_target(
    worker: int,
    priority: Priority,
    budget_ns: int,
    less: int,
    more: int,
)
    requires
        0 <= worker < 3,
        1 <= less <= more,
    ensures
        planned_limit(worker, priority, budget_ns, less) <= planned_limit(
            worker,
            priority,
            budget_ns,
            more,
        ),
{
}

/// Law: no worker holds more than its ceiling of a class. The reserved worker holds all but two of
/// the most critical packets, and the others take one each from the second and the third packet on;
/// of the medium class the third worker gets one from the second packet on, and more only once the
/// second worker is full. Without a budget no worker holds any.
pub proof fn law_quotas_keep_to_the_ceilings(budget_ns: int, target: int)
    requires
        budget_ns >= 0,
        target >= 1,
    ensures
        0 <= planned_limit(0, Priority::High, budget_ns, target) <= 64,
        0 <= planned_limit(1, Priority::High, budget_ns, target) <= 1,
        0 <= planned_limit(2, Priority::High, budget_ns, target) <= 1,
        0 <= planned_limit(1, Priority::Medium, budget_ns, target) <= 160,
        0 <= planned_limit(2, Priority::Medium, budget_ns, target) <= 160,
        0 <= planned_limit(2, Priority::Low, budget_ns, target) <= 192,
        budget_ns > 0 ==> {
            &&& planned_limit(1, Priority::High, budget_ns, target) == 1 <==> target >= 2
            &&& planned_limit(2, Priority::High, budget_ns, target) == 1 <==> target >= 3
            &&& planned_limit(2, Priority::Medium, budget_ns, target) >= 1 <==> target >= 2
            &&& planned_limit(2, Priority::Medium, budget_ns, target) > 1 ==> planned_limit(
                1,
                Priority::Medium,
                budget_ns,
                target,
            ) == 160
        },
        budget_ns == 0 ==> forall|w: int, p: Priority|
            p != Priority::BestEffort ==> #[trigger] planned_limit(w, p, budget_ns, target) == 0,
{
}

/// Law: every worker takes the classes of the worker before it and more: the first only the most
/// critical class, the second the medium class too, the third all.
pub proof fn law_workers_take_ever_more_classes(worker: int, priority: Priority)
    requires
        0 <= worker,
    ensures
        handles(worker, priority) ==> handles(worker + 1, priority),
        handles(0, priority) <==> priority == Priority::High,
        handles(1, priority) <==> priority == Priority::High || priority == Priority::Medium,
        handles(2, priority),
{
}

/// Law: the safe backlog is the count of packets whose work comes nearest to nine tenths of the
/// budget, unless that is none or more than 512. It grows with the budget and shrinks with the time
/// that the work takes.
pub proof fn law_safe_backlog_fits_the_budget(
    budget_ns: int,
    average_ns: int,
    more_budget_ns: int,
    more_average_ns: int,
)
    requires
        0 <= budget_ns <= more_budget_ns,
        1 <= average_ns <= more_average_ns,
    ensures
        1 <= safe_backlog(budget_ns, average_ns) <= 512,
        1 < safe_backlog(budget_ns, average_ns) ==> 20 * (safe_backlog(budget_ns, average_ns)
            * average_ns) <= 18 * budget_ns + 10 * average_ns,
        safe_backlog(budget_ns, average_ns) < 512 ==> 18 * budget_ns < 20 * (safe_backlog(
            budget_ns,
            average_ns,
        ) * average_ns) + 10 * average_ns,
        safe_backlog(budget_ns, average_ns) <= safe_backlog(more_budget_ns, average_ns),
        safe_backlog(budget_ns, more_average_ns) <= safe_backlog(budget_ns, average_ns),
{
    let n = 18 * budget_ns + 10 * average_ns;
    let d = 20 * average_ns;
    let q = n / d;
    assert(q * d <= n && n < q * d + d) by (nonlinear_arith)
        requires
            d > 0,
            q == n / d,
    ;
    assert(q * d == 20 * (q * average_ns)) by (nonlinear_arith)
        requires
            d == 20 * average_ns,
    ;
    assert(q >= 0) by (nonlinear_arith)
        requires
            n >= 0,
            d > 0,
            n < q * d + d,
    ;
    if q > 512 {
        assert(512 * average_ns <= q * average_ns) by (nonlinear_arith)
            requires
                q > 512,
                average_ns >= 1,
        ;
    }
    if q < 1 {
        assert(q * average_ns == 0) by (nonlinear_arith)
            requires
                q == 0,
        ;
    }
    let n2 = 18 * more_budget_ns + 10 * average_ns;
    vstd::arithmetic::div_mod::lemma_div_is_ordered(n, n2, d);
    let d3 = 20 * more_average_ns;
    let n3 = 18 * budget_ns + 10 * more_average_ns;
    let q3 = n3 / d3;
    assert(q3 <= q) by (nonlinear_arith)
        requires
            q3 == n3 / d3,
            n3 == 18 * budget_ns + 10 * more_average_ns,
            d3 == 20 * more_average_ns,
            n < q * d + d,
            n == 18 * budget_ns + 10 * average_ns,
            d == 20 * average_ns,
            1 <= average_ns <= more_average_ns,
            q >= 0,
            budget_ns >= 0,
    {
        assert(q3 * d3 <= n3);
        // With one packet more than fits, the work would exceed the budget on a slower worker too.
        assert(18 * budget_ns < (20 * q + 10) * average_ns);
        assert((20 * q + 10) * average_ns <= (20 * q + 10) * more_average_ns);
        assert(n3 < (20 * q + 20) * more_average_ns);
        assert(q3 * d3 < (q + 1) * d3);
    }
}

/// Law: what is allowed for lies between the safe backlog and twice as much; between these it is what
/// is queued.
pub proof fn law_target_follows_the_queue(backlog: int, depth: int)
    requires
        backlog >= 1,
        depth >= 0,
    ensures
        backlog <= target_depth(backlog, depth) <= 2 * backlog,
        backlog <= depth <= 2 * backlog ==> target_depth(backlog, depth) == depth,
        depth <= backlog ==> target_depth(backlog, depth) == backlog,
        depth >= 2 * backlog ==> target_depth(backlog, depth) == 2 * backlog,
{
}

/// Law: each worker may hold at least four times as much as the one before it, the first at least 4
/// packets.
pub proof fn law_least_totals_quadruple()
    ensures
        least_total(0) == 4,
        least_total(1) == 4 * least_total(0),
        least_total(2) == 4 * least_total(1),
{
}

/// Law: a wait is as long as it may be: no longer than twice the whole microseconds that the work
/// takes, no longer than the budget, counted as a microsecond at least, and no shorter than both.
pub proof fn law_waits_keep_to_work_and_budget(budget_ns: int, average_ns: int)
    requires
        budget_ns >= 0,
        average_ns >= 0,
    ensures
        guard_micros(budget_ns, average_ns) >= 0,
        500 * guard_micros(budget_ns, average_ns) <= average_ns,
        budget_ns >= 1000 ==> 1000 * guard_micros(budget_ns, average_ns) <= budget_ns,
        budget_ns < 1000 ==> guard_micros(budget_ns, average_ns) <= 1,
        500 * guard_micros(budget_ns, average_ns) + 1000 > average_ns || 1000 * guard_micros(
            budget_ns,
            average_ns,
        ) + 1000 > budget_ns,
        average_ns >= 1000 ==> guard_micros(budget_ns, average_ns) >= 1,
{
}

/// Law: the slice stays where no class that waits has a budget. Otherwise it lies between 5 and 50
/// microseconds, exceeds 5 only where no class has a shorter wait, and falls short of 50 only where
/// some class has no longer one. Waits of the medium and low classes count up to 80 microseconds.
pub proof fn law_slice_suits_the_shortest_wait(
    controller: AdaptiveController,
    budgets: PriorityTable<Duration>,
    priority: Priority,
)
    ensures
        ({
            let slice = controller.planned_slice(budgets);
            let counts = |p: Priority| p != Priority::BestEffort && budgets.at(p).nanos > 0;
            let full = |p: Priority|
                guard_micros(budgets.at(p).nanos as int, controller.average(p));
            let wait = |p: Priority|
                if p == Priority::High || full(p) <= 80 {
                    full(p)
                } else {
                    80
                };
            if counts(Priority::High) || counts(Priority::Medium) || counts(Priority::Low) {
                &&& 5 <= slice <= 50
                &&& counts(priority) && slice > 5 ==> slice <= wait(priority)
                &&& slice < 50 ==> {
                    ||| counts(Priority::High) && wait(Priority::High) <= slice
                    ||| counts(Priority::Medium) && wait(Priority::Medium) <= slice
                    ||| counts(Priority::Low) && wait(Priority::Low) <= slice
                }
            } else {
                slice == controller.slice()
            }
        }),
{
    reveal_with_fuel(AdaptiveController::shortest_guard, 5);
    assert(Priority::of_rank(0) == Priority::High);
    assert(Priority::of_rank(1) == Priority::Medium);
    assert(Priority::of_rank(2) == Priority::Low);
    assert(Priority::of_rank(3) == Priority::BestEffort);
    assert(controller.shortest_guard(budgets, 4) == controller.shortest_guard(budgets, 3));
}

/// Law: a running average moves an eighth of the way towards each duration that it takes in, to the
/// nanosecond below, and never falls under a nanosecond. So it stays between what it was and the
/// duration, and rests only near it.
pub proof fn law_averages_follow_the_durations(average_ns: int, duration_ns: int)
    requires
        average_ns >= 1,
        duration_ns >= 0,
    ensures
        smoothed(average_ns, duration_ns) >= 1,
        smoothed(average_ns, duration_ns) > 1 ==> 0 <= 7 * average_ns + duration_ns - 8 * smoothed(
            average_ns,
            duration_ns,
        ) < 8,
        duration_ns == average_ns ==> smoothed(average_ns, duration_ns) == average_ns,
        1 <= duration_ns <= average_ns ==> duration_ns <= smoothed(average_ns, duration_ns)
            <= average_ns,
        average_ns <= duration_ns ==> average_ns <= smoothed(average_ns, duration_ns)
            <= duration_ns,
        duration_ns >= average_ns + 8 ==> smoothed(average_ns, duration_ns) > average_ns,
        1 <= duration_ns < average_ns ==> smoothed(average_ns, duration_ns) < average_ns,
{
}

/// Law: the most critical class never waits, and the others that have a budget never longer than 80
/// microseconds, twice the time that the work takes or the budget. The wait of a class without a
/// budget stays.
pub proof fn law_planned_waits_are_short(
    priority: Priority,
    budget_ns: int,
    average_ns: int,
    before: int,
)
    requires
        budget_ns >= 0,
        average_ns >= 0,
    ensures
        ({
            let wait = planned_guard(priority, budget_ns, average_ns, before);
            &&& budget_ns > 0 && priority == Priority::High ==> wait == 0
            &&& budget_ns > 0 && (priority == Priority::Medium || priority == Priority::Low) ==> {
                &&& 0 <= wait <= 80
                &&& 500 * wait <= average_ns
                &&& budget_ns >= 1000 ==> 1000 * wait <= budget_ns
                &&& wait == 80 || 500 * wait + 1000 > average_ns || 1000 * wait + 1000 > budget_ns
            }
            &&& budget_ns == 0 || priority == Priority::BestEffort ==> wait == before
        }),
{
}

/// Law: only packets of the medium and low classes wait, for as many microseconds as are planned for
/// their class, and never past their budget.
pub proof fn law_waits_end_with_the_budget(priority: Priority, guard_us: int, budget: Duration)
    requires
        0 <= guard_us <= 1_000_000,
    ensures
        wait_limit(priority, guard_us, budget) is Some <==> guard_us > 0 && (priority
            == Priority::Medium || priority == Priority::Low),
        wait_limit(priority, guard_us, budget) matches Some(limit) ==> {
            &&& limit.nanos <= 1000 * guard_us
            &&& limit.nanos <= budget.nanos
            &&& limit.nanos == 1000 * guard_us || limit.nanos == budget.nanos
        },
{
}

/// Law: a worker may hold as much as its quotas come to, and never less than 4, 16 and 64 packets for
/// the first, second and third worker. So no quota of a worker exceeds what it may hold.
pub proof fn law_totals_cover_the_quotas(
    worker: int,
    high: int,
    medium: int,
    low: int,
    best_effort: int,
)
    requires
        0 <= worker < 3,
        high >= 0,
        medium >= 0,
        low >= 0,
        best_effort >= 0,
    ensures
        ({
            let total = planned_total(worker, high, medium, low, best_effort);
            let least = if worker == 0 {
                4int
            } else if worker == 1 {
                16
            } else {
                64
            };
            &&& total >= high + medium + low + best_effort
            &&& total >= least
            &&& total == high + medium + low + best_effort || total == least
        }),
{
}

/// Law: balancing allows for every class with a budget as many packets as can be worked on within nine
/// tenths of it, or as are queued, up to twice as many; over all workers, and as far as their ceilings
/// of 66, 320 and 192 packets permit. A class without a budget gets no room, but for the best-effort
/// class, which gets 128 on the third worker.
pub proof fn law_balancing_makes_room_for_what_is_safe(
    before: AdaptiveController,
    after: AdaptiveController,
    budgets: PriorityTable<Duration>,
    depths: PriorityTable<usize>,
    priority: Priority,
)
    requires
        after.balanced(before, budgets, depths),
    ensures
        ({
            let room = after.limit(0, priority) + after.limit(1, priority) + after.limit(
                2,
                priority,
            );
            let safe = safe_backlog(budgets.at(priority).nanos as int, before.average(priority));
            let depth = depths.at(priority);
            let wanted = if depth <= safe {
                safe
            } else if depth <= 2 * safe {
                depth as int
            } else {
                2 * safe
            };
            let ceiling = match priority {
                Priority::High => 66int,
                Priority::Medium => 320,
                Priority::Low => 192,
                Priority::BestEffort => 128,
            };
            &&& priority == Priority::BestEffort ==> room == 128
            &&& priority != Priority::BestEffort && budgets.at(priority).nanos == 0 ==> room == 0
            &&& priority != Priority::BestEffort && budgets.at(priority).nanos > 0 ==> room == (
            if wanted <= ceiling {
                wanted
            } else {
                ceiling
            })
        }),
{
    let budget = budgets.at(priority).nanos as int;
    let target = before.target(priority, budget, depths.at(priority) as int);
    assert(after.limit(0, priority) == planned_limit(0, priority, budget, target));
    assert(after.limit(1, priority) == planned_limit(1, priority, budget, target));
    assert(after.limit(2, priority) == planned_limit(2, priority, budget, target));
    assert(before.average(priority) >= 1);
    law_safe_backlog_fits_the_budget(
        budget,
        before.average(priority),
        budget,
        before.average(priority),
    );
}

/// Law: to start with, each worker may hold exactly what its quotas come to, 16 packets for the first and
/// four times as many for each further one. Only the medium and low classes wait, and the work on a
/// class is taken to last 0.1 ms, 0.12 ms or 0.2 ms.
pub proof fn law_initial_quotas_add_up(controller: AdaptiveController, priority: Priority)
    requires
        controller.is_initial(),
    ensures
        controller.total(0) == 16,
        controller.total(1) == 4 * controller.total(0),
        controller.total(2) == 4 * controller.total(1),
        forall|w: int|
            0 <= w < 3 ==> #[trigger] controller.total(w) == controller.limit(w, Priority::High)
                + controller.limit(w, Priority::Medium) + controller.limit(w, Priority::Low)
                + controller.limit(w, Priority::BestEffort),
        controller.limit(1, Priority::High) == controller.limit(2, Priority::High) == 4,
        controller.limit(1, Priority::Medium) == controller.limit(2, Priority::Medium) == 60,
        controller.limit(2, Priority::BestEffort) == 2 * controller.limit(2, Priority::Low),
        controller.guard(priority) == (if priority == Priority::Medium || priority
            == Priority::Low {
            80int
        } else {
            0
        }),
        controller.average(Priority::High) == 100_000,
        controller.average(Priority::Medium) == 120_000,
        controller.average(Priority::Low) == 200_000,
        controller.average(Priority::BestEffort) == 200_000,
        controller.slice() == 10,
{
    assert forall|w: int| 0 <= w < 3 implies #[trigger] controller.total(w) == controller.limit(
        w,
        Priority::High,
    ) + controller.limit(w, Priority::Medium) + controller.limit(w, Priority::Low)
        + controller.limit(w, Priority::BestEffort) by {
        assert(!handles(w, Priority::Medium) ==> controller.limit(w, Priority::Medium) == 0);
        assert(!handles(w, Priority::Low) ==> controller.limit(w, Priority::Low) == 0);
        assert(!handles(w, Priority::BestEffort) ==> controller.limit(w, Priority::BestEffort)
            == 0);
    }
}

} // verus!

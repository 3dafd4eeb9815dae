//! What a worker does next while it waits for a more critical packet, or while it works.
//!
//! The looks themselves, and the clock, are outside: a worker asks for the next step, takes it, and
//! notes what came of it.

use crate::packet::Packet;
use crate::priority::Priority;
use crate::scheduler::cedf::{
    check_is_due, guard_may_go_on, rest_of_budget, QueuedTask, CHECK_INTERVAL, GUARD_SLICE,
};
use crate::scheduler::cost::spec_cost;
use crate::scheduler::multi_worker_edf::{guard_until, guard_window, GuardState, BASE_COST};
use crate::time::{Duration, Instant};
use vstd::prelude::*;

verus! {

/// What to do next in a wait for a more critical packet.
#[derive(Clone, Copy, Debug, PartialEq, Eq, Structural)]
pub enum WaitStep {
    /// Look for a packet.
    Look,
    /// The slice is over: see whether there is another one.
    Renew,
    /// The wait is over.
    Over,
}

/// A wait before the work on a packet starts, by slices after each of which the budget of the
/// packet is looked at.
#[derive(Clone, Copy, Debug, PartialEq, Eq, Structural)]
pub struct GuardWait {
    /// How long the wait may last.
    pub limit: Option<Duration>,
    pub started: Instant,
    /// Until when this slice lasts, unless the wait is over.
    pub until: Option<Instant>,
}

/// Length of a slice.
pub open spec fn guard_slice() -> Duration {
    Duration { nanos: GUARD_SLICE }
}

impl GuardWait {
    /// The next step at `now`.
    pub open spec fn next(self, now: Instant) -> WaitStep {
        match self.until {
            None => WaitStep::Over,
            Some(until) => if now.nanos < until.nanos {
                WaitStep::Look
            } else {
                WaitStep::Renew
            },
        }
    }

    /// The wait once it is to go on at `now`.
    pub open spec fn renewed(self, packet: Packet, now: Instant) -> GuardWait {
        GuardWait {
            until: if rest_of_budget(packet, now) > 2 * spec_cost(BASE_COST, packet).nanos {
                guard_until(self.limit, guard_slice(), self.started, now)
            } else {
                None
            },
            ..self
        }
    }

    /// The wait once a look came to `state`.
    pub open spec fn noted(self, state: GuardState) -> GuardWait {
        GuardWait {
            until: if state == GuardState::Preempted || state == GuardState::Closed {
                None
            } else {
                self.until
            },
            ..self
        }
    }

    /// A wait that begins at `now`.
    pub open spec fn begun(limit: Option<Duration>, now: Instant) -> GuardWait {
        GuardWait { limit, started: now, until: guard_until(limit, guard_slice(), now, now) }
    }

    /// A wait of at most `limit` from `now` on; none at all without a limit.
    pub fn begin(limit: Option<Duration>, now: Instant) -> (wait: GuardWait)
        ensures
            wait == (GuardWait {
                limit,
                started: now,
                until: guard_until(limit, guard_slice(), now, now),
            }),
            wait == GuardWait::begun(limit, now),
    {
        let until = guard_window(limit, Duration { nanos: GUARD_SLICE }, now, now);
        GuardWait { limit, started: now, until }
    }

    /// What to do next.
    pub fn step(&self, now: Instant) -> (step: WaitStep)
        ensures
            step == (match self.until {
                None => WaitStep::Over,
                Some(until) => if now.nanos < until.nanos {
                    WaitStep::Look
                } else {
                    WaitStep::Renew
                },
            }),
            step == self.next(now),
    {
        match self.until {
            None => WaitStep::Over,
            Some(until) => if now.nanos < until.nanos {
                WaitStep::Look
            } else {
                WaitStep::Renew
            },
        }
    }

    /// Begins another slice at `now`, unless the wait has lasted long enough or the budget of the
    /// packet leaves no more than twice the time that the work on it takes.
    pub fn renew(&mut self, packet: &Packet, now: Instant)
        ensures
            *final(self) == (GuardWait {
                until: if rest_of_budget(*packet, now) > 2 * spec_cost(BASE_COST, *packet).nanos {
                    guard_until(old(self).limit, guard_slice(), old(self).started, now)
                } else {
                    None
                },
                ..*old(self)
            }),
            *final(self) == old(self).renewed(*packet, now),
    {
        if guard_may_go_on(packet, now) {
            self.until = guard_window(
                self.limit,
                Duration { nanos: GUARD_SLICE },
                self.started,
                now,
            );
        } else {
            self.until = None;
        }
    }

    /// Notes what a look came to: a packet that takes the place of the waiting one ends the wait, and
    /// so does the news that none can come any more.
    pub fn note(&mut self, state: GuardState)
        ensures
            *final(self) == (GuardWait {
                until: if state == GuardState::Preempted || state == GuardState::Closed {
                    None
                } else {
                    old(self).until
                },
                ..*old(self)
            }),
            *final(self) == old(self).noted(state),
    {
        match state {
            GuardState::Preempted => {
                self.until = None;
            },
            GuardState::Closed => {
                self.until = None;
            },
            _ => {},
        }
    }
}

/// Law: no slice lasts longer than the wait may: whenever one begins, it ends within the limit, and
/// within the length of a slice.
pub proof fn law_wait_keeps_to_its_limit(limit: Duration, started: Instant, now: Instant)
    requires
        started.nanos <= now.nanos,
    ensures
        guard_until(Some(limit), guard_slice(), started, now) matches Some(until) ==> until.nanos
            <= started.nanos + limit.nanos && until.nanos <= now.nanos + GUARD_SLICE,
        now.nanos >= started.nanos + limit.nanos ==> guard_until(
            Some(limit),
            guard_slice(),
            started,
            now,
        ) is None,
{
}

/// What to do next while work goes on.
#[derive(Clone, Copy, Debug, PartialEq, Eq, Structural)]
pub enum WorkStep {
    /// Work on.
    Work,
    /// Look for a more critical packet.
    Look,
    /// The work is done.
    Done,
}

/// Work on a task, with looks for more critical packets in between.
#[derive(Clone, Copy, Debug, PartialEq, Eq, Structural)]
pub struct WorkRun {
    pub started: Instant,
    pub last_check: Instant,
}

impl WorkRun {
    /// The next step at `now` in the work on `task`.
    pub open spec fn next(self, task: QueuedTask, now: Instant) -> WorkStep {
        if now.spec_since(self.started).nanos >= task.estimated_processing.nanos {
            WorkStep::Done
        } else if (task.priority == Priority::Medium || task.priority == Priority::Low)
            && now.spec_since(self.last_check).nanos >= CHECK_INTERVAL {
            WorkStep::Look
        } else {
            WorkStep::Work
        }
    }

    /// The work once a look at `looked` came to `state` by `now`.
    pub open spec fn noted(self, state: GuardState, looked: Instant, now: Instant) -> WorkRun {
        WorkRun {
            started: if state == GuardState::Preempted {
                now
            } else {
                self.started
            },
            last_check: looked,
        }
    }

    /// Work that starts at `now`.
    pub fn begin(now: Instant) -> (run: WorkRun)
        ensures
            run == (WorkRun { started: now, last_check: now }),
    {
        WorkRun { started: now, last_check: now }
    }

    /// What to do next: the work is done when it has lasted as long as the task takes; before, it
    /// is time for a look where the task makes way at all and the last look is long enough ago.
    pub fn step(&self, task: &QueuedTask, now: Instant) -> (step: WorkStep)
        ensures
            step == (if now.spec_since(self.started).nanos >= task.estimated_processing.nanos {
                WorkStep::Done
            } else if (task.priority == Priority::Medium || task.priority == Priority::Low)
                && now.spec_since(self.last_check).nanos >= CHECK_INTERVAL {
                WorkStep::Look
            } else {
                WorkStep::Work
            }),
            step == self.next(*task, now),
    {
        if now.since(self.started).nanos >= task.estimated_processing.nanos {
            WorkStep::Done
        } else if check_is_due(task, self.last_check, now) {
            WorkStep::Look
        } else {
            WorkStep::Work
        }
    }

    /// Notes what a look at `looked` came to. Where another packet took the place of the task, the
    /// work starts anew at `now`.
    pub fn note(&mut self, state: GuardState, looked: Instant, now: Instant)
        ensures
            *final(self) == (WorkRun {
                started: if state == GuardState::Preempted {
                    now
                } else {
                    old(self).started
                },
                last_check: looked,
            }),
            *final(self) == old(self).noted(state, looked, now),
    {
        self.last_check = looked;
        match state {
            GuardState::Preempted => {
                self.started = now;
            },
            _ => {},
        }
    }
}

/// A wait whose slices are set from outside.
#[derive(Clone, Copy, Debug, PartialEq, Eq, Structural)]
pub struct WorkerWait {
    /// Until when this slice lasts, where one has begun.
    pub until: Option<Instant>,
    pub over: bool,
}

impl WorkerWait {
    /// The next step at `now`.
    pub open spec fn next(self, now: Instant) -> WaitStep {
        if self.over {
            WaitStep::Over
        } else {
            match self.until {
                Some(until) => if now.nanos < until.nanos {
                    WaitStep::Look
                } else {
                    WaitStep::Renew
                },
                None => WaitStep::Renew,
            }
        }
    }

    /// The wait once a slice until the given time has begun; without one it is over.
    pub open spec fn renewed(self, until: Option<Instant>) -> WorkerWait {
        WorkerWait { until, over: self.over || until is None }
    }

    /// The wait once a look came to `state`.
    pub open spec fn noted(self, state: GuardState) -> WorkerWait {
        match state {
            GuardState::Preempted => WorkerWait { over: true, ..self },
            GuardState::Closed => WorkerWait { over: true, ..self },
            GuardState::Blocked => WorkerWait { until: None, ..self },
            GuardState::Quiet => self,
        }
    }

    /// A wait without a slice yet.
    pub fn begin() -> (wait: WorkerWait)
        ensures
            wait == (WorkerWait { until: None, over: false }),
    {
        WorkerWait { until: None, over: false }
    }

    /// What to do next.
    pub fn step(&self, now: Instant) -> (step: WaitStep)
        ensures
            step == (if self.over {
                WaitStep::Over
            } else {
                match self.until {
                    Some(until) => if now.nanos < until.nanos {
                        WaitStep::Look
                    } else {
                        WaitStep::Renew
                    },
                    None => WaitStep::Renew,
                }
            }),
            step == self.next(now),
    {
        if self.over {
            return WaitStep::Over;
        }
        match self.until {
            Some(until) => if now.nanos < until.nanos {
                WaitStep::Look
            } else {
                WaitStep::Renew
            },
            None => WaitStep::Renew,
        }
    }

    /// Begins a slice that lasts until the given time; without one the wait is over.
    pub fn renew(&mut self, until: Option<Instant>)
        ensures
            *final(self) == (WorkerWait { until, over: old(self).over || until is None }),
            *final(self) == old(self).renewed(until),
    {
        self.until = until;
        if until.is_none() {
            self.over = true;
        }
    }

    /// Notes what a look came to: a packet that takes the place of the waiting one ends the wait, and
    /// so does the news that none can come any more. Where the quotas left no room, the slice is
    /// over.
    pub fn note(&mut self, state: GuardState)
        ensures
            *final(self) == (match state {
                GuardState::Preempted => WorkerWait { over: true, ..*old(self) },
                GuardState::Closed => WorkerWait { over: true, ..*old(self) },
                GuardState::Blocked => WorkerWait { until: None, ..*old(self) },
                GuardState::Quiet => *old(self),
            }),
            *final(self) == old(self).noted(state),
    {
        match state {
            GuardState::Preempted => {
                self.over = true;
            },
            GuardState::Closed => {
                self.over = true;
            },
            GuardState::Blocked => {
                self.until = None;
            },
            GuardState::Quiet => {},
        }
    }
}

/// Law: a wait looks for packets exactly as long as its slice lasts. It goes on after that only while
/// it has lasted less than it may and the rest of the packet's budget exceeds twice the time that the
/// work takes; the next slice then ends within 50 microseconds and within the wait. Once over, a wait
/// stays over.
pub proof fn law_waits_go_on_slice_by_slice(wait: GuardWait, packet: Packet, now: Instant)
    requires
        wait.started.nanos <= now.nanos,
        now.nanos + 50_000 <= u64::MAX,
    ensures
        wait.next(now) == WaitStep::Over <==> wait.until is None,
        wait.until matches Some(until) ==> (wait.next(now) == WaitStep::Look <==> now.nanos
            < until.nanos) && (wait.next(now) == WaitStep::Renew <==> now.nanos >= until.nanos),
        wait.renewed(packet, now).until is Some <==> {
            &&& rest_of_budget(packet, now) > 2 * spec_cost(BASE_COST, packet).nanos
            &&& wait.limit is Some
            &&& now.nanos < wait.started.nanos + wait.limit.unwrap().nanos
        },
        wait.renewed(packet, now).until matches Some(until) ==> {
            &&& now.nanos <= until.nanos <= now.nanos + 50_000
            &&& until.nanos == now.nanos + 50_000 || until.nanos == wait.started.nanos
                + wait.limit.unwrap().nanos
        },
        wait.renewed(packet, now).started == wait.started,
        wait.renewed(packet, now).limit == wait.limit,
{
}

/// Law: a look ends a wait exactly where another packet goes ahead or none can come any more; any other
/// look leaves it as it was.
pub proof fn law_looks_end_waits(wait: GuardWait, state: GuardState, now: Instant)
    ensures
        state == GuardState::Preempted || state == GuardState::Closed ==> wait.noted(state).next(
            now,
        ) == WaitStep::Over,
        state == GuardState::Quiet || state == GuardState::Blocked ==> wait.noted(state) == wait,
        wait.noted(state).started == wait.started,
        wait.noted(state).limit == wait.limit,
{
}

/// Law: work is done exactly when it has lasted as long as the task takes. Before that, a task of the
/// medium or low class looks for more critical packets every 10 microseconds, and one of the other
/// classes never does.
pub proof fn law_work_lasts_as_long_as_it_takes(run: WorkRun, task: QueuedTask, now: Instant)
    requires
        run.started.nanos <= now.nanos,
        run.last_check.nanos <= now.nanos,
    ensures
        run.next(task, now) == WorkStep::Done <==> now.nanos >= run.started.nanos
            + task.estimated_processing.nanos,
        run.next(task, now) == WorkStep::Look <==> {
            &&& now.nanos < run.started.nanos + task.estimated_processing.nanos
            &&& now.nanos >= run.last_check.nanos + 10_000
            &&& task.priority == Priority::Medium || task.priority == Priority::Low
        },
{
}

/// Law: after a look the next one is counted from it. The work starts anew only where another packet
/// took the place of the task; otherwise it goes on from where it started.
pub proof fn law_a_look_restarts_work_only_for_another_packet(
    run: WorkRun,
    state: GuardState,
    looked: Instant,
    now: Instant,
)
    ensures
        run.noted(state, looked, now).last_check == looked,
        state == GuardState::Preempted ==> run.noted(state, looked, now).started == now,
        state != GuardState::Preempted ==> run.noted(state, looked, now).started == run.started,
{
}

/// Law: a wait whose slices are set from outside asks for a slice where it has none or the last is
/// over, looks while one lasts, and is over once it got none, another packet went ahead or none can
/// come any more; then it stays over. A look that the quotas left out ends the slice alone.
pub proof fn law_workers_wait_slice_by_slice(
    wait: WorkerWait,
    until: Option<Instant>,
    state: GuardState,
    now: Instant,
)
    ensures
        wait.over ==> wait.next(now) == WaitStep::Over && wait.renewed(until).over && wait.noted(
            state,
        ).over,
        !wait.over ==> {
            &&& wait.next(now) != WaitStep::Over
            &&& wait.next(now) == WaitStep::Look <==> wait.until is Some && now.nanos
                < wait.until.unwrap().nanos
            &&& wait.renewed(until).over <==> until is None
            &&& wait.noted(state).over <==> state == GuardState::Preempted || state
                == GuardState::Closed
        },
        wait.renewed(until).until == until,
        state == GuardState::Quiet ==> wait.noted(state) == wait,
        state == GuardState::Blocked && !wait.over ==> wait.noted(state).next(now)
            == WaitStep::Renew,
{
}

/// Law: a wait begins with a slice of 50 microseconds, or with the whole wait where that is shorter; it is
/// over at once where the packet may not wait at all.
pub proof fn law_waits_begin_with_a_slice(limit: Option<Duration>, now: Instant)
    requires
        now.nanos + 50_000 <= u64::MAX,
    ensures
        GuardWait::begun(limit, now).started == now,
        GuardWait::begun(limit, now).limit == limit,
        limit is None || limit.unwrap().nanos == 0 ==> GuardWait::begun(limit, now).next(now)
            == WaitStep::Over,
        limit matches Some(most) ==> most.nanos > 0 ==> {
            &&& GuardWait::begun(limit, now).next(now) == WaitStep::Look
            &&& GuardWait::begun(limit, now).until.unwrap().nanos == now.nanos + (if most.nanos
                < 50_000 {
                most.nanos as int
            } else {
                50_000
            })
        },
{
}

} // verus!

//! Earliest-deadline-first scheduler that looks ahead.
//!
//! A dispatcher estimates how long each packet takes and how much slack that leaves before its
//! deadline, and gives it to the worker on which it fares best. Workers take up what has least
//! slack. Work on the medium and low classes makes way for more critical packets as long as its own
//! budget permits.

use crate::channel;
use crate::channel::{got, RecvFailure};
use crate::heap::{Entry, MinHeap};
use crate::math::{max_of, min_of};
use crate::packet::Packet;
use crate::priority::{Priority, PriorityTable};
use crate::scheduler::cost::{law_cost_grows_with_the_payload, size_cost, spec_cost};
use crate::scheduler::edf::EDFDropCounters;
use crate::scheduler::latency::{is_max, slid, LatencyTracker};
use crate::scheduler::multi_worker_edf::{state_without, GuardState, BASE_COST};
use crate::scheduler::output::{offered, send_packet};
use crate::time::{clamp_u64, Duration, Instant, NANOS_PER_MICRO, NANOS_PER_MILLI};
use crossbeam_channel::{Receiver, Sender};
use vstd::multiset::Multiset;
use vstd::prelude::*;

verus! {

/// Longest wait of a packet of the medium class for a more critical one, in nanoseconds.
pub const MEDIUM_GUARD_CAP: u64 = 3_000_000;

/// Longest wait of a packet of the low class for a more critical one, in nanoseconds.
pub const LOW_GUARD_CAP: u64 = 10_000_000;

/// Time between two looks at the budget during such a wait, in nanoseconds.
pub const GUARD_SLICE: u64 = 50_000;

/// Time between two looks for a more critical packet while work goes on, in nanoseconds.
pub const CHECK_INTERVAL: u64 = 10_000;

/// A packet waiting for a worker.
pub struct QueuedTask {
    /// Time left before the deadline once the work is done, in nanoseconds. Negative where the
    /// deadline will be missed.
    pub slack_time: i128,
    /// When the packet is due.
    pub deadline: Instant,
    pub priority: Priority,
    pub packet: Packet,
    /// Time that the work takes, or the rest of it.
    pub estimated_processing: Duration,
}

/// Time left before the deadline of `packet` if work on it starts at `now`, in nanoseconds.
pub open spec fn slack(packet: Packet, now: Instant) -> int {
    packet.spec_deadline().nanos - now.nanos - spec_cost(BASE_COST, packet).nanos
}

/// The task that a packet received at `now` becomes.
pub open spec fn task_of(priority: Priority, packet: Packet, now: Instant) -> QueuedTask {
    QueuedTask {
        slack_time: slack(packet, now) as i128,
        deadline: packet.spec_deadline(),
        priority,
        packet,
        estimated_processing: spec_cost(BASE_COST, packet),
    }
}

/// A task as it is queued: ordered by its slack.
pub open spec fn by_slack(task: QueuedTask) -> Entry<QueuedTask> {
    Entry { key: task.slack_time, item: task }
}

/// Time left before the deadline of `packet` if work on it starts at `now`, in nanoseconds.
pub fn calculate_slack_time(packet: &Packet, now: Instant) -> (nanos: i128)
    ensures
        nanos == slack(*packet, now),
{
    let deadline: i128 = packet.deadline().nanos as i128;
    let cost: i128 = size_cost(BASE_COST, packet).nanos as i128;
    deadline - (now.nanos as i128) - cost
}

fn make_task(priority: Priority, packet: Packet, now: Instant) -> (task: QueuedTask)
    ensures
        task == task_of(priority, packet, now),
{
    QueuedTask {
        slack_time: calculate_slack_time(&packet, now),
        deadline: packet.deadline(),
        priority,
        estimated_processing: size_cost(BASE_COST, &packet),
        packet,
    }
}

/// Whether `taken` is a task with least slack among `before`, and `after` is what stays.
pub open spec fn took_least(
    before: Multiset<Entry<QueuedTask>>,
    after: Multiset<Entry<QueuedTask>>,
    taken: Option<QueuedTask>,
) -> bool {
    match taken {
        Some(task) => {
            &&& before.count(by_slack(task)) > 0
            &&& after == before.remove(by_slack(task))
            &&& forall|e: Entry<QueuedTask>| #[trigger]
                before.count(e) > 0 ==> task.slack_time <= e.key
        },
        None => before.len() == 0 && after == before,
    }
}

/// The tasks of one worker, least slack first, with the time at which it expects to be done.
pub struct WorkerQueue {
    heap: MinHeap<QueuedTask>,
    estimated_completion: Instant,
}

impl View for WorkerQueue {
    type V = Multiset<Entry<QueuedTask>>;

    closed spec fn view(&self) -> Multiset<Entry<QueuedTask>> {
        self.heap@
    }
}

impl WorkerQueue {
    pub closed spec fn wf(&self) -> bool {
        &&& self.heap.wf()
        &&& forall|e: Entry<QueuedTask>| #[trigger]
            self.heap@.count(e) > 0 ==> e == by_slack(e.item)
    }

    /// When the worker expects to be done with all its tasks.
    pub closed spec fn completion(&self) -> Instant {
        self.estimated_completion
    }

    pub fn new(now: Instant) -> (queue: WorkerQueue)
        ensures
            queue.wf(),
            queue@ == Multiset::<Entry<QueuedTask>>::empty(),
            queue.completion() == now,
    {
        WorkerQueue { heap: MinHeap::new(), estimated_completion: now }
    }

    /// Queues a task and puts the expected completion off by its processing time.
    pub fn push(&mut self, task: QueuedTask)
        requires
            old(self).wf(),
        ensures
            final(self).wf(),
            final(self)@ == old(self)@.insert(by_slack(task)),
            final(self).completion() == old(self).completion().spec_plus(task.estimated_processing),
    {
        broadcast use vstd::multiset::group_multiset_axioms;

        self.estimated_completion = self.estimated_completion.plus(task.estimated_processing);
        self.heap.push(task.slack_time, task);
    }

    /// Takes out a task with least slack.
    pub fn try_pop(&mut self) -> (taken: Option<QueuedTask>)
        requires
            old(self).wf(),
        ensures
            final(self).wf(),
            final(self).completion() == old(self).completion(),
            match taken {
                Some(task) => {
                    &&& old(self)@.count(by_slack(task)) > 0
                    &&& final(self)@ == old(self)@.remove(by_slack(task))
                    &&& forall|e: Entry<QueuedTask>|
                        #[trigger] old(self)@.count(e) > 0 ==> task.slack_time <= e.key
                },
                None => old(self)@.len() == 0 && final(self)@ == old(self)@,
            },
            took_least(old(self)@, final(self)@, taken),
    {
        broadcast use vstd::multiset::group_multiset_axioms;

        match self.heap.pop() {
            Some(entry) => {
                assert(entry == by_slack(entry.item));
                Some(entry.item)
            },
            None => None,
        }
    }

    /// When the worker expects to be done with all its tasks.
    pub fn estimated_completion_time(&self) -> (t: Instant)
        ensures
            t == self.completion(),
    {
        self.estimated_completion
    }

    /// Number of tasks in the queue.
    pub fn depth(&self) -> (n: usize)
        ensures
            n == self@.len(),
    {
        self.heap.len()
    }

    /// Notes that the worker was done with a task at `now`.
    pub fn settle(&mut self, now: Instant)
        requires
            old(self).wf(),
        ensures
            final(self).wf(),
            final(self)@ == old(self)@,
            final(self).completion() == now,
    {
        self.estimated_completion = now;
    }
}

/// How well a task fares on a worker: the milliseconds left before its deadline once the worker is
/// done with it, less 1000 for each task before it.
pub open spec fn score(task: QueuedTask, queue: WorkerQueue) -> int {
    task.deadline.spec_since(queue.completion().spec_plus(task.estimated_processing)).nanos
        / NANOS_PER_MILLI - 1000 * queue@.len()
}

/// Whether `best` is the first of the workers on which `task` fares best.
pub open spec fn is_best(task: QueuedTask, workers: Seq<CedfWorker>, best: int) -> bool {
    &&& 0 <= best < workers.len()
    &&& forall|w: int|
        0 <= w < workers.len() ==> score(task, (#[trigger] workers[w]).queue) <= score(
            task,
            workers[best].queue,
        )
    &&& forall|w: int|
        0 <= w < best ==> score(task, (#[trigger] workers[w]).queue) < score(
            task,
            workers[best].queue,
        )
}

/// One worker: its tasks, and its handles to the inputs that its work makes way for.
pub struct CedfWorker {
    pub queue: WorkerQueue,
    pub high_input: Receiver<Packet>,
    pub medium_input: Receiver<Packet>,
}

/// The first of the workers on which the task fares best.
pub fn find_best_worker(task: &QueuedTask, workers: &Vec<CedfWorker>) -> (best: usize)
    requires
        workers@.len() > 0,
    ensures
        is_best(*task, workers@, best as int),
{
    let mut best: usize = 0;
    let mut best_score: i128 = 0;
    let mut w: usize = 0;
    while w < workers.len()
        invariant
            w <= workers@.len(),
            workers@.len() > 0,
            w == 0 ==> best == 0,
            w > 0 ==> best < w,
            w > 0 ==> best_score == score(*task, workers@[best as int].queue),
            forall|v: int|
                0 <= v < w ==> score(*task, (#[trigger] workers@[v]).queue) <= best_score,
            forall|v: int|
                0 <= v < best ==> score(*task, (#[trigger] workers@[v]).queue) < best_score,
        decreases workers@.len() - w,
    {
        let queue = &workers[w].queue;
        let done = queue.estimated_completion_time().plus(task.estimated_processing);
        let millis: u64 = task.deadline.since(done).as_millis();
        let this_score: i128 = (millis as i128) - 1000 * (queue.depth() as i128);
        assert(this_score == score(*task, workers@[w as int].queue));
        if w == 0 || this_score > best_score {
            best_score = this_score;
            best = w;
        }
        w = w + 1;
    }
    best
}

/// Rest of the budget of `packet` at `now`.
pub open spec fn rest_of_budget(packet: Packet, now: Instant) -> int {
    max_of(packet.latency_budget.nanos - now.spec_since(packet.timestamp).nanos, 0)
}

/// How long a task of the given class may wait for a more critical packet before work on it
/// starts. Only the medium and low classes wait, only once a latency of the class is known, and
/// only where both that latency and the time spent so far leave more than twice the processing
/// time.
pub open spec fn guard_limit(
    priority: Priority,
    packet: Packet,
    p100: Duration,
    now: Instant,
) -> Option<Duration> {
    let budget = packet.latency_budget.nanos as int;
    let rest = rest_of_budget(packet, now);
    let reserve = 2 * spec_cost(BASE_COST, packet).nanos;
    let cap = if priority == Priority::Medium {
        MEDIUM_GUARD_CAP as int
    } else {
        LOW_GUARD_CAP as int
    };
    let wait = min_of(min_of(budget - p100.nanos, max_of(rest - reserve, 0)), cap);
    if (priority == Priority::Medium || priority == Priority::Low) && 0 < p100.nanos < budget
        && wait / NANOS_PER_MICRO as int > 0 && rest > reserve {
        Some(Duration { nanos: wait as u64 })
    } else {
        None
    }
}

/// Computes [`guard_limit`].
pub fn guard_threshold(
    priority: Priority,
    packet: &Packet,
    p100: Duration,
    now: Instant,
) -> (limit: Option<Duration>)
    ensures
        limit == guard_limit(priority, *packet, p100, now),
{
    let cap: u64 = match priority {
        Priority::Medium => MEDIUM_GUARD_CAP,
        Priority::Low => LOW_GUARD_CAP,
        _ => {
            return None;
        },
    };
    let budget = packet.latency_budget;
    if p100.nanos == 0 || p100.nanos >= budget.nanos {
        return None;
    }
    let space = budget.saturating_sub(p100);
    let rest = budget.saturating_sub(now.since(packet.timestamp));
    let reserve: u64 = 2 * size_cost(BASE_COST, packet).nanos;
    let reserve = Duration { nanos: reserve };
    let wait = space.min(rest.saturating_sub(reserve)).min(Duration { nanos: cap });
    if wait.as_micros() > 0 && rest.nanos > reserve.nanos {
        Some(wait)
    } else {
        None
    }
}

/// Whether the budget of a waiting packet still leaves more than twice its processing time.
pub fn guard_may_go_on(packet: &Packet, now: Instant) -> (yes: bool)
    ensures
        yes == (rest_of_budget(*packet, now) > 2 * spec_cost(BASE_COST, *packet).nanos),
{
    let rest = packet.latency_budget.saturating_sub(now.since(packet.timestamp));
    let reserve: u64 = 2 * size_cost(BASE_COST, packet).nanos;
    rest.nanos > reserve
}

/// Rest of the work on `task` at `now` if it started at `started`, in nanoseconds.
pub open spec fn rest_of_work(task: QueuedTask, started: Instant, now: Instant) -> int {
    max_of(task.estimated_processing.nanos - now.spec_since(started).nanos, 0)
}

/// What a task becomes that makes way at `now` after work on it started at `started`: the rest of the
/// work is left.
pub open spec fn put_back(task: QueuedTask, started: Instant, now: Instant) -> QueuedTask {
    QueuedTask {
        estimated_processing: Duration { nanos: rest_of_work(task, started, now) as u64 },
        ..task
    }
}

/// Whether work on `task` may make way for a more critical packet: it belongs to the medium or low
/// class, the last look was long enough ago, and the budget leaves more than 1.2 times the rest of
/// the work, to the nearest nanosecond.
pub open spec fn may_make_way(
    task: QueuedTask,
    started: Instant,
    last_check: Instant,
    now: Instant,
) -> bool {
    &&& task.priority == Priority::Medium || task.priority == Priority::Low
    &&& now.spec_since(last_check).nanos >= CHECK_INTERVAL
    &&& rest_of_budget(task.packet, now) > (12 * rest_of_work(task, started, now) + 5) / 10
}

/// Whether it is time to look for a more critical packet while work on `task` goes on. The most
/// critical class never makes way.
pub fn check_is_due(task: &QueuedTask, last_check: Instant, now: Instant) -> (due: bool)
    ensures
        due == ((task.priority == Priority::Medium || task.priority == Priority::Low)
            && now.spec_since(last_check).nanos >= CHECK_INTERVAL),
{
    (task.priority == Priority::Medium || task.priority == Priority::Low) && now.since(
        last_check,
    ).nanos >= CHECK_INTERVAL
}

fn budget_allows(task: &QueuedTask, started: Instant, now: Instant) -> (yes: bool)
    ensures
        yes == (rest_of_budget(task.packet, now) > (12 * rest_of_work(*task, started, now) + 5)
            / 10),
{
    let rest = task.packet.latency_budget.saturating_sub(now.since(task.packet.timestamp));
    let work = task.estimated_processing.saturating_sub(now.since(started));
    let margin: u128 = (12 * (work.nanos as u128) + 5) / 10;
    (rest.nanos as u128) > margin
}

/// Whether a worker has fresh handles to the high and the medium input.
pub open spec fn fed_by(worker: CedfWorker, inputs: PriorityTable<Receiver<Packet>>) -> bool {
    &&& channel::source_of(worker.high_input) == channel::source_of(inputs.at(Priority::High))
    &&& channel::source_of(worker.medium_input) == channel::source_of(inputs.at(Priority::Medium))
    &&& channel::taken(worker.high_input) == Seq::<Packet>::empty()
    &&& channel::taken(worker.medium_input) == Seq::<Packet>::empty()
}

/// Result of a look for a more critical packet, with the task to go on with.
pub struct TaskOutcome {
    pub state: GuardState,
    pub task: QueuedTask,
}

/// What a look for a more critical packet does. `back` is what the task becomes if it makes way.
pub open spec fn made_way(
    task: QueuedTask,
    back: QueuedTask,
    now: Instant,
    before: CedfWorker,
    after: CedfWorker,
    outcome: TaskOutcome,
) -> bool {
    &&& looked(task, before, after, outcome)
    &&& if outcome.state == GuardState::Preempted {
        &&& after.queue@ == before.queue@.insert(by_slack(back))
        &&& after.queue.completion() == before.queue.completion().spec_plus(
            back.estimated_processing,
        )
        &&& outcome.task == task_of(outcome.task.priority, outcome.task.packet, now)
    } else {
        &&& outcome.task == task
        &&& after.queue@ == before.queue@
        &&& after.queue.completion() == before.queue.completion()
    }
}

/// Whether an input was asked once and gave no packet.
pub open spec fn gave_none(before: Receiver<Packet>, after: Receiver<Packet>) -> bool {
    exists|why: RecvFailure| #[trigger] channel::received(Err(why), before, after)
}

/// Which inputs a worker asked for a more critical packet than `task`, and what they gave: for a
/// task of the medium class the high input, for one of the low class the high input and, where that
/// gave no packet, the medium input. Nothing is asked for the other classes, or where the look was
/// left out.
pub open spec fn looked(
    task: QueuedTask,
    before: CedfWorker,
    after: CedfWorker,
    outcome: TaskOutcome,
) -> bool {
    if outcome.state == GuardState::Blocked || (task.priority != Priority::Medium && task.priority
        != Priority::Low) {
        &&& outcome.state != GuardState::Preempted
        &&& after.high_input == before.high_input
        &&& after.medium_input == before.medium_input
    } else if outcome.state == GuardState::Preempted && outcome.task.priority == Priority::High {
        &&& channel::received(Ok(outcome.task.packet), before.high_input, after.high_input)
        &&& after.medium_input == before.medium_input
    } else if outcome.state == GuardState::Preempted {
        &&& outcome.task.priority == Priority::Medium
        &&& task.priority == Priority::Low
        &&& gave_none(before.high_input, after.high_input)
        &&& channel::received(Ok(outcome.task.packet), before.medium_input, after.medium_input)
    } else if task.priority == Priority::Medium {
        &&& channel::received(
            Err(
                if outcome.state == GuardState::Closed {
                    RecvFailure::Disconnected
                } else {
                    RecvFailure::Empty
                },
            ),
            before.high_input,
            after.high_input,
        )
        &&& after.medium_input == before.medium_input
    } else {
        &&& outcome.state == GuardState::Quiet
        &&& gave_none(before.high_input, after.high_input)
        &&& gave_none(before.medium_input, after.medium_input)
    }
}

/// Whether the inputs of the lower classes were asked once each, most critical class first, up to
/// the first that gave a packet; those after it were left alone.
pub open spec fn took_lower(
    before: PriorityTable<Receiver<Packet>>,
    after: PriorityTable<Receiver<Packet>>,
) -> bool {
    &&& channel::asked_once(before.at(Priority::Medium), after.at(Priority::Medium))
    &&& if got(before.at(Priority::Medium), after.at(Priority::Medium)).len() > 0 {
        &&& after.at(Priority::Low) == before.at(Priority::Low)
        &&& after.at(Priority::BestEffort) == before.at(Priority::BestEffort)
    } else {
        &&& channel::asked_once(before.at(Priority::Low), after.at(Priority::Low))
        &&& if got(before.at(Priority::Low), after.at(Priority::Low)).len() > 0 {
            after.at(Priority::BestEffort) == before.at(Priority::BestEffort)
        } else {
            channel::asked_once(before.at(Priority::BestEffort), after.at(Priority::BestEffort))
        }
    }
}

proof fn lemma_got_none(before: Receiver<Packet>, after: Receiver<Packet>)
    requires
        channel::taken(after) == channel::taken(before),
    ensures
        got(before, after) == Seq::<Packet>::empty(),
{
    assert(got(before, after) =~= Seq::<Packet>::empty());
}

impl CedfWorker {
    /// Looks for a packet that `task` makes way for: one of the high class, or, where the task is
    /// of the low class, one of the medium class. Where there is one, `back` is queued instead of
    /// the task.
    fn make_way(&mut self, task: QueuedTask, remaining: Duration, now: Instant) -> (outcome:
        TaskOutcome)
        requires
            old(self).queue.wf(),
            task.priority == Priority::Medium || task.priority == Priority::Low,
        ensures
            final(self).queue.wf(),
            made_way(
                task,
                QueuedTask { estimated_processing: remaining, ..task },
                now,
                *old(self),
                *final(self),
                outcome,
            ),
            outcome.state != GuardState::Blocked,
            outcome.state == GuardState::Closed ==> task.priority == Priority::Medium,
    {
        let ghost before = *self;
        match channel::try_recv(&mut self.high_input, None) {
            Ok(packet) => {
                return self.give_way(task, remaining, Priority::High, packet, now);
            },
            Err(why) => {
                assert(channel::received(Err(why), before.high_input, self.high_input));
                if task.priority == Priority::Medium {
                    return TaskOutcome { state: state_without(why), task };
                }
            },
        }
        match channel::try_recv(&mut self.medium_input, None) {
            Ok(packet) => self.give_way(task, remaining, Priority::Medium, packet, now),
            Err(why) => {
                assert(channel::received(Err(why), before.medium_input, self.medium_input));
                TaskOutcome { state: GuardState::Quiet, task }
            },
        }
    }

    /// Queues `task` with the work that remains, and takes up a packet of class `priority` in its
    /// place.
    pub fn give_way(
        &mut self,
        task: QueuedTask,
        remaining: Duration,
        priority: Priority,
        packet: Packet,
        now: Instant,
    ) -> (outcome: TaskOutcome)
        requires
            old(self).queue.wf(),
        ensures
            final(self).queue.wf(),
            outcome == (TaskOutcome {
                state: GuardState::Preempted,
                task: task_of(priority, packet, now),
            }),
            final(self).queue@ == old(self).queue@.insert(
                by_slack(QueuedTask { estimated_processing: remaining, ..task }),
            ),
            final(self).queue.completion() == old(self).queue.completion().spec_plus(remaining),
            final(self).high_input == old(self).high_input,
            final(self).medium_input == old(self).medium_input,
    {
        let mut back = task;
        back.estimated_processing = remaining;
        self.queue.push(back);
        TaskOutcome { state: GuardState::Preempted, task: make_task(priority, packet, now) }
    }
}

/// The latencies kept of class `class` once the work on `task` is done at `now`: the one of its packet
/// is added where the task is of that class.
pub open spec fn learnt(
    class: Priority,
    window: Seq<u64>,
    task: QueuedTask,
    now: Instant,
) -> Seq<u64> {
    if task.priority == class {
        slid(window, now.spec_since(task.packet.timestamp).nanos / NANOS_PER_MICRO)
    } else {
        window
    }
}

/// Whether `limit` is how long a task of class `class` may wait at `now` where these are the latencies
/// kept of the class, in microseconds.
pub open spec fn limited_by(
    class: Priority,
    window: Seq<u64>,
    task: QueuedTask,
    now: Instant,
    limit: Option<Duration>,
) -> bool {
    exists|micros: u64| #[trigger]
        is_max(window, micros) && limit == guard_limit(
            class,
            task.packet,
            Duration { nanos: clamp_u64(micros * NANOS_PER_MICRO) },
            now,
        )
}

/// The tasks of all workers.
pub open spec fn pool(workers: Seq<CedfWorker>) -> Multiset<Entry<QueuedTask>>
    decreases workers.len(),
{
    if workers.len() == 0 {
        Multiset::empty()
    } else {
        pool(workers.drop_last()).add(workers.last().queue@)
    }
}

proof fn lemma_pool_insert(
    before: Seq<CedfWorker>,
    after: Seq<CedfWorker>,
    at: int,
    e: Entry<QueuedTask>,
)
    requires
        before.len() == after.len(),
        0 <= at < before.len(),
        after[at].queue@ == before[at].queue@.insert(e),
        forall|w: int| 0 <= w < before.len() && w != at ==> #[trigger] after[w] == before[w],
    ensures
        pool(after) == pool(before).insert(e),
    decreases before.len(),
{
    broadcast use vstd::multiset::group_multiset_axioms;

    let n = before.len() - 1;
    if at == n {
        assert(after.drop_last() =~= before.drop_last());
        assert(pool(after) =~= pool(before).insert(e));
    } else {
        lemma_pool_insert(before.drop_last(), after.drop_last(), at, e);
        assert(after[n] == before[n]);
        assert(pool(after) =~= pool(before).insert(e));
    }
}

/// What giving a task to a worker does: the worker is the first on which the task fares best, and
/// the others stay as they are.
pub open spec fn placed(
    before: Seq<CedfWorker>,
    after: Seq<CedfWorker>,
    task: QueuedTask,
) -> bool {
    exists|chosen: int| #[trigger]
        is_best(task, before, chosen) && {
            &&& after.len() == before.len()
            &&& after[chosen].queue@ == before[chosen].queue@.insert(by_slack(task))
            &&& after[chosen].queue.completion() == before[chosen].queue.completion().spec_plus(
                task.estimated_processing,
            )
            &&& after[chosen].high_input == before[chosen].high_input
            &&& after[chosen].medium_input == before[chosen].medium_input
            &&& forall|w: int|
                0 <= w < before.len() && w != chosen ==> #[trigger] after[w] == before[w]
        }
}

/// What giving tasks to workers, one after the other, does.
pub open spec fn all_placed(
    before: Seq<CedfWorker>,
    after: Seq<CedfWorker>,
    tasks: Seq<QueuedTask>,
) -> bool
    decreases tasks.len(),
{
    if tasks.len() == 0 {
        after == before
    } else {
        exists|middle: Seq<CedfWorker>|
            all_placed(before, middle, tasks.drop_last()) && #[trigger] placed(
                middle,
                after,
                tasks.last(),
            )
    }
}

proof fn lemma_one_more_placed(
    before: Seq<CedfWorker>,
    middle: Seq<CedfWorker>,
    after: Seq<CedfWorker>,
    tasks: Seq<QueuedTask>,
    task: QueuedTask,
)
    requires
        all_placed(before, middle, tasks),
        placed(middle, after, task),
    ensures
        all_placed(before, after, tasks.push(task)),
{
    assert(tasks.push(task).drop_last() =~= tasks);
    assert(tasks.push(task).last() == task);
}

/// The tasks that packets of one class, received at `now`, become.
pub open spec fn tasks_from(
    priority: Priority,
    before: Receiver<Packet>,
    after: Receiver<Packet>,
    now: Instant,
) -> Seq<QueuedTask> {
    got(before, after).map_values(|packet: Packet| task_of(priority, packet, now))
}

/// The tasks that the packets taken from the inputs at `now` become, most critical class first.
pub open spec fn arrived(
    before: PriorityTable<Receiver<Packet>>,
    after: PriorityTable<Receiver<Packet>>,
    now: Instant,
) -> Seq<QueuedTask> {
    tasks_from(Priority::High, before.at(Priority::High), after.at(Priority::High), now)
        + tasks_from(Priority::Medium, before.at(Priority::Medium), after.at(Priority::Medium), now)
        + tasks_from(Priority::Low, before.at(Priority::Low), after.at(Priority::Low), now)
        + tasks_from(
        Priority::BestEffort,
        before.at(Priority::BestEffort),
        after.at(Priority::BestEffort),
        now,
    )
}

proof fn lemma_same_arrived(
    first: PriorityTable<Receiver<Packet>>,
    before: PriorityTable<Receiver<Packet>>,
    after: PriorityTable<Receiver<Packet>>,
    now: Instant,
)
    requires
        forall|p: Priority|
            channel::taken(#[trigger] after.at(p)) == channel::taken(before.at(p)),
    ensures
        arrived(first, after, now) == arrived(first, before, now),
        forall|p: Priority| #[trigger]
            got(first.at(p), after.at(p)) == got(first.at(p), before.at(p)),
{
    assert forall|p: Priority| #[trigger] got(first.at(p), after.at(p)) == got(
        first.at(p),
        before.at(p),
    ) by {
        assert(channel::taken(after.at(p)) == channel::taken(before.at(p)));
    }
    assert(got(first.at(Priority::High), after.at(Priority::High)) == got(
        first.at(Priority::High),
        before.at(Priority::High),
    ));
    assert(got(first.at(Priority::Medium), after.at(Priority::Medium)) == got(
        first.at(Priority::Medium),
        before.at(Priority::Medium),
    ));
    assert(got(first.at(Priority::Low), after.at(Priority::Low)) == got(
        first.at(Priority::Low),
        before.at(Priority::Low),
    ));
    assert(got(first.at(Priority::BestEffort), after.at(Priority::BestEffort)) == got(
        first.at(Priority::BestEffort),
        before.at(Priority::BestEffort),
    ));
}

proof fn lemma_one_arrived(
    first: PriorityTable<Receiver<Packet>>,
    before: PriorityTable<Receiver<Packet>>,
    after: PriorityTable<Receiver<Packet>>,
    priority: Priority,
    packet: Packet,
    now: Instant,
)
    requires
        channel::taken(first.at(priority)).is_prefix_of(channel::taken(before.at(priority))),
        channel::taken(after.at(priority)) == channel::taken(before.at(priority)).push(packet),
        forall|p: Priority| p != priority ==> #[trigger] after.at(p) == before.at(p),
        forall|p: Priority|
            p.rank() > priority.rank() ==> #[trigger] got(first.at(p), before.at(p)).len() == 0,
    ensures
        arrived(first, after, now) == arrived(first, before, now).push(
            task_of(priority, packet, now),
        ),
        got(first.at(priority), after.at(priority)) == got(
            first.at(priority),
            before.at(priority),
        ).push(packet),
        channel::taken(first.at(priority)).is_prefix_of(channel::taken(after.at(priority))),
{
    let g = got(first.at(priority), before.at(priority));
    assert(got(first.at(priority), after.at(priority)) =~= g.push(packet));
    assert(Priority::High != priority ==> after.at(Priority::High) == before.at(Priority::High));
    assert(Priority::Medium != priority ==> after.at(Priority::Medium) == before.at(
        Priority::Medium,
    ));
    assert(Priority::Low != priority ==> after.at(Priority::Low) == before.at(Priority::Low));
    assert(Priority::BestEffort != priority ==> after.at(Priority::BestEffort) == before.at(
        Priority::BestEffort,
    ));
    assert(priority == Priority::High ==> got(
        first.at(Priority::Medium),
        before.at(Priority::Medium),
    ).len() == 0);
    assert(priority.rank() < 2 ==> got(first.at(Priority::Low), before.at(Priority::Low)).len()
        == 0);
    assert(priority.rank() < 3 ==> got(
        first.at(Priority::BestEffort),
        before.at(Priority::BestEffort),
    ).len() == 0);
    assert(arrived(first, after, now) =~= arrived(first, before, now).push(
        task_of(priority, packet, now),
    ));
}

/// Earliest-deadline-first scheduler that looks ahead.
pub struct CEDFScheduler {
    pub input_queues: PriorityTable<Receiver<Packet>>,
    pub output_queues: PriorityTable<Sender<Packet>>,
    pub drop_counters: PriorityTable<u64>,
    pub workers: Vec<CedfWorker>,
    /// Latest latencies of the medium class.
    pub medium_latency_tracker: LatencyTracker,
    /// Latest latencies of the low class.
    pub low_latency_tracker: LatencyTracker,
}

impl CEDFScheduler {
    pub open spec fn wf(&self) -> bool {
        &&& self.medium_latency_tracker.wf()
        &&& self.low_latency_tracker.wf()
        &&& forall|w: int|
            0 <= w < self.workers@.len() ==> (#[trigger] self.workers@[w]).queue.wf()
    }

    /// A scheduler between the given inputs and outputs, without workers yet.
    pub fn new(
        input_queues: PriorityTable<Receiver<Packet>>,
        output_queues: PriorityTable<Sender<Packet>>,
    ) -> (scheduler: CEDFScheduler)
        ensures
            scheduler.wf(),
            scheduler.input_queues == input_queues,
            scheduler.output_queues == output_queues,
            forall|p: Priority| #[trigger] scheduler.drop_counters.at(p) == 0,
            scheduler.workers@.len() == 0,
            scheduler.medium_latency_tracker.window() == Seq::<u64>::empty(),
            scheduler.low_latency_tracker.window() == Seq::<u64>::empty(),
    {
        CEDFScheduler {
            input_queues,
            output_queues,
            drop_counters: PriorityTable::of(0, 0, 0, 0),
            workers: Vec::new(),
            medium_latency_tracker: LatencyTracker::new(),
            low_latency_tracker: LatencyTracker::new(),
        }
    }

    /// Sets up `count` idle workers in place of the present ones.
    pub fn start_workers(&mut self, count: usize, now: Instant)
        requires
            old(self).wf(),
        ensures
            final(self).wf(),
            final(self).workers@.len() == count,
            forall|w: int|
                0 <= w < count ==> (#[trigger] final(self).workers@[w]).queue@ == Multiset::<
                    Entry<QueuedTask>,
                >::empty() && final(self).workers@[w].queue.completion() == now,
            final(self).output_queues == old(self).output_queues,
            final(self).drop_counters == old(self).drop_counters,
            final(self).medium_latency_tracker == old(self).medium_latency_tracker,
            final(self).low_latency_tracker == old(self).low_latency_tracker,
            forall|w: int|
                0 <= w < count ==> fed_by(
                    #[trigger] final(self).workers@[w],
                    old(self).input_queues,
                ),
            forall|p: Priority|
                channel::source_of(#[trigger] final(self).input_queues.at(p)) == channel::source_of(
                    old(self).input_queues.at(p),
                ),
            forall|p: Priority|
                channel::taken(#[trigger] final(self).input_queues.at(p)) == channel::taken(
                    old(self).input_queues.at(p),
                ),
    {
        let mut workers: Vec<CedfWorker> = Vec::new();
        let mut made: usize = 0;
        while made < count
            invariant
                made <= count,
                workers@.len() == made,
                self.output_queues == old(self).output_queues,
                self.drop_counters == old(self).drop_counters,
                self.medium_latency_tracker == old(self).medium_latency_tracker,
                self.low_latency_tracker == old(self).low_latency_tracker,
                forall|w: int|
                    0 <= w < made ==> (#[trigger] workers@[w]).queue.wf() && workers@[w].queue@
                        == Multiset::<Entry<QueuedTask>>::empty()
                        && workers@[w].queue.completion() == now,
                forall|w: int|
                    0 <= w < made ==> fed_by(#[trigger] workers@[w], old(self).input_queues),
                forall|p: Priority|
                    channel::source_of(#[trigger] self.input_queues.at(p)) == channel::source_of(
                        old(self).input_queues.at(p),
                    ),
                forall|p: Priority|
                    channel::taken(#[trigger] self.input_queues.at(p)) == channel::taken(
                        old(self).input_queues.at(p),
                    ),
            decreases count - made,
        {
            let ghost inputs0 = self.input_queues;
            let high_input = channel::clone_receiver(self.input_queues.get_mut(Priority::High));
            let medium_input = channel::clone_receiver(
                self.input_queues.get_mut(Priority::Medium),
            );
            workers.push(CedfWorker { queue: WorkerQueue::new(now), high_input, medium_input });
            proof {
                assert forall|p: Priority| channel::source_of(#[trigger] self.input_queues.at(p))
                    == channel::source_of(old(self).input_queues.at(p)) by {
                    assert(channel::source_of(inputs0.at(p)) == channel::source_of(
                        old(self).input_queues.at(p),
                    ));
                }
                assert forall|p: Priority| channel::taken(#[trigger] self.input_queues.at(p))
                    == channel::taken(old(self).input_queues.at(p)) by {
                    assert(channel::taken(inputs0.at(p)) == channel::taken(
                        old(self).input_queues.at(p),
                    ));
                }
                assert(channel::source_of(inputs0.at(Priority::High)) == channel::source_of(
                    old(self).input_queues.at(Priority::High),
                ));
                assert(channel::source_of(inputs0.at(Priority::Medium)) == channel::source_of(
                    old(self).input_queues.at(Priority::Medium),
                ));
            }
            made = made + 1;
        }
        self.workers = workers;
    }

    /// Gives a task to the first of the workers on which it fares best.
    pub fn assign(&mut self, task: QueuedTask) -> (chosen: usize)
        requires
            old(self).wf(),
            old(self).workers@.len() > 0,
        ensures
            final(self).wf(),
            placed(old(self).workers@, final(self).workers@, task),
            is_best(task, old(self).workers@, chosen as int),
            final(self).workers@.len() == old(self).workers@.len(),
            final(self).workers@[chosen as int].queue@ == old(
                self).workers@[chosen as int].queue@.insert(by_slack(task)),
            final(self).workers@[chosen as int].queue.completion() == old(
                self).workers@[chosen as int].queue.completion().spec_plus(
                task.estimated_processing,
            ),
            final(self).workers@[chosen as int].high_input == old(
                self).workers@[chosen as int].high_input,
            final(self).workers@[chosen as int].medium_input == old(
                self).workers@[chosen as int].medium_input,
            forall|w: int|
                0 <= w < old(self).workers@.len() && w != chosen ==> #[trigger] final(
                    self).workers@[w] == old(self).workers@[w],
            final(self).input_queues == old(self).input_queues,
            final(self).output_queues == old(self).output_queues,
            final(self).drop_counters == old(self).drop_counters,
            final(self).medium_latency_tracker == old(self).medium_latency_tracker,
            final(self).low_latency_tracker == old(self).low_latency_tracker,
    {
        let chosen: usize = find_best_worker(&task, &self.workers);
        assert(self.workers@[chosen as int].queue.wf());
        self.workers[chosen].queue.push(task);
        chosen
    }

    /// Makes a task of a packet of class `priority` that came at `now`, and gives it to a worker.
    pub fn accept(&mut self, priority: Priority, packet: Packet, now: Instant)
        requires
            old(self).wf(),
            old(self).workers@.len() > 0,
        ensures
            final(self).wf(),
            placed(old(self).workers@, final(self).workers@, task_of(priority, packet, now)),
            final(self).input_queues == old(self).input_queues,
            final(self).output_queues == old(self).output_queues,
            final(self).drop_counters == old(self).drop_counters,
            final(self).medium_latency_tracker == old(self).medium_latency_tracker,
            final(self).low_latency_tracker == old(self).low_latency_tracker,
    {
        let task = make_task(priority, packet, now);
        let _ = self.assign(task);
    }

    /// Takes one packet of class `priority` in, if there is one, and gives it to a worker.
    fn dispatch_one(&mut self, priority: Priority, now: Instant) -> (dispatched: bool)
        requires
            old(self).wf(),
            old(self).workers@.len() > 0,
        ensures
            final(self).wf(),
            final(self).workers@.len() == old(self).workers@.len(),
            final(self).output_queues == old(self).output_queues,
            final(self).drop_counters == old(self).drop_counters,
            final(self).medium_latency_tracker == old(self).medium_latency_tracker,
            final(self).low_latency_tracker == old(self).low_latency_tracker,
            forall|p: Priority|
                p != priority ==> #[trigger] final(self).input_queues.at(p) == old(
                    self).input_queues.at(p),
            forall|w: int|
                0 <= w < old(self).workers@.len() ==> (#[trigger] final(
                    self).workers@[w]).high_input == old(self).workers@[w].high_input && final(
                    self).workers@[w].medium_input == old(self).workers@[w].medium_input,
            if dispatched {
                exists|packet: Packet| #[trigger]
                    channel::received(
                        Ok(packet),
                        old(self).input_queues.at(priority),
                        final(self).input_queues.at(priority),
                    ) && placed(
                        old(self).workers@,
                        final(self).workers@,
                        task_of(priority, packet, now),
                    )
            } else {
                &&& exists|why: RecvFailure| #[trigger]
                    channel::received(
                        Err(why),
                        old(self).input_queues.at(priority),
                        final(self).input_queues.at(priority),
                    )
                &&& final(self).workers == old(self).workers
            },
    {
        let received = channel::try_recv(self.input_queues.get_mut(priority), None);
        match received {
            Ok(packet) => {
                self.accept(priority, packet, now);
                assert(channel::received(
                    Ok(packet),
                    old(self).input_queues.at(priority),
                    self.input_queues.at(priority),
                ));
                true
            },
            Err(why) => {
                assert(channel::received(
                    Err(why),
                    old(self).input_queues.at(priority),
                    self.input_queues.at(priority),
                ));
                false
            },
        }
    }

    /// One pass of the dispatcher: takes in all packets of the high class that are there, then at
    /// most one packet of the others, most critical class first, and gives each to the worker on
    /// which it fares best. Tells whether there was any packet.
    pub fn dispatch(&mut self, now: Instant) -> (dispatched: bool)
        requires
            old(self).wf(),
            old(self).workers@.len() > 0,
        ensures
            final(self).wf(),
            final(self).workers@.len() == old(self).workers@.len(),
            final(self).output_queues == old(self).output_queues,
            final(self).drop_counters == old(self).drop_counters,
            final(self).medium_latency_tracker == old(self).medium_latency_tracker,
            final(self).low_latency_tracker == old(self).low_latency_tracker,
            forall|w: int|
                0 <= w < old(self).workers@.len() ==> (#[trigger] final(
                    self).workers@[w]).high_input == old(self).workers@[w].high_input && final(
                    self).workers@[w].medium_input == old(self).workers@[w].medium_input,
            forall|p: Priority|
                channel::taken(old(self).input_queues.at(p)).is_prefix_of(
                    channel::taken(#[trigger] final(self).input_queues.at(p)),
                ),
            all_placed(
                old(self).workers@,
                final(self).workers@,
                arrived(old(self).input_queues, final(self).input_queues, now),
            ),
            got(
                old(self).input_queues.at(Priority::Medium),
                final(self).input_queues.at(Priority::Medium),
            ).len() + got(
                old(self).input_queues.at(Priority::Low),
                final(self).input_queues.at(Priority::Low),
            ).len() + got(
                old(self).input_queues.at(Priority::BestEffort),
                final(self).input_queues.at(Priority::BestEffort),
            ).len() <= 1,
            channel::took_all(
                old(self).input_queues.at(Priority::High),
                final(self).input_queues.at(Priority::High),
            ),
            took_lower(old(self).input_queues, final(self).input_queues),
            dispatched == (arrived(old(self).input_queues, final(self).input_queues, now).len()
                > 0),
    {
        broadcast use vstd::multiset::group_multiset_axioms;

        let ghost first = self.input_queues;
        proof {
            assert forall|p: Priority| #[trigger] got(first.at(p), first.at(p)) == Seq::<
                Packet,
            >::empty() by {
                lemma_got_none(first.at(p), first.at(p));
            }
            assert(got(first.at(Priority::High), first.at(Priority::High)) == Seq::<
                Packet,
            >::empty());
            assert(got(first.at(Priority::Medium), first.at(Priority::Medium)) == Seq::<
                Packet,
            >::empty());
            assert(got(first.at(Priority::Low), first.at(Priority::Low)) == Seq::<
                Packet,
            >::empty());
            assert(got(first.at(Priority::BestEffort), first.at(Priority::BestEffort)) == Seq::<
                Packet,
            >::empty());
            assert(arrived(first, first, now) =~= Seq::empty());
        }
        proof {
            channel::lemma_not_asked(first.at(Priority::High));
        }
        let mut dispatched: bool = false;
        let mut more: bool = true;
        let mut rounds: usize = usize::MAX;
        while more && rounds > 0
            invariant
                first == old(self).input_queues,
                self.wf(),
                self.workers@.len() == old(self).workers@.len(),
                self.workers@.len() > 0,
                self.output_queues == old(self).output_queues,
                self.drop_counters == old(self).drop_counters,
                self.medium_latency_tracker == old(self).medium_latency_tracker,
                self.low_latency_tracker == old(self).low_latency_tracker,
                forall|w: int|
                    0 <= w < old(self).workers@.len() ==> (
                    #[trigger] self.workers@[w]).high_input == old(self).workers@[w].high_input
                        && self.workers@[w].medium_input == old(self).workers@[w].medium_input,
                forall|p: Priority|
                    p != Priority::High ==> #[trigger] self.input_queues.at(p) == first.at(p),
                channel::taken(first.at(Priority::High)).is_prefix_of(
                    channel::taken(self.input_queues.at(Priority::High)),
                ),
                all_placed(
                    old(self).workers@,
                    self.workers@,
                    arrived(first, self.input_queues, now),
                ),
                dispatched == (arrived(first, self.input_queues, now).len() > 0),
                more ==> got(first.at(Priority::High), self.input_queues.at(Priority::High)).len()
                    == usize::MAX - rounds && channel::always_gave(
                    first.at(Priority::High),
                    self.input_queues.at(Priority::High),
                ),
                !more ==> channel::drained(
                    first.at(Priority::High),
                    self.input_queues.at(Priority::High),
                ),
            decreases rounds,
        {
            rounds = rounds - 1;
            let ghost inputs1 = self.input_queues;
            let ghost before = *self;
            if self.dispatch_one(Priority::High, now) {
                dispatched = true;
                proof {
                    let packet = choose|packet: Packet| #[trigger]
                        channel::received(
                            Ok(packet),
                            inputs1.at(Priority::High),
                            self.input_queues.at(Priority::High),
                        ) && placed(
                            before.workers@,
                            self.workers@,
                            task_of(Priority::High, packet, now),
                        );
                    channel::lemma_gave_one_more(
                        first.at(Priority::High),
                        inputs1.at(Priority::High),
                        self.input_queues.at(Priority::High),
                        packet,
                    );
                    assert forall|p: Priority| p.rank() > 0 implies #[trigger] got(
                        first.at(p),
                        inputs1.at(p),
                    ).len() == 0 by {
                        lemma_got_none(first.at(p), inputs1.at(p));
                    }
                    lemma_one_arrived(
                        first,
                        inputs1,
                        self.input_queues,
                        Priority::High,
                        packet,
                        now,
                    );
                    lemma_one_more_placed(
                        old(self).workers@,
                        before.workers@,
                        self.workers@,
                        arrived(first, inputs1, now),
                        task_of(Priority::High, packet, now),
                    );
                }
            } else {
                more = false;
                proof {
                    let why = choose|why: RecvFailure| #[trigger]
                        channel::received(
                            Err(why),
                            inputs1.at(Priority::High),
                            self.input_queues.at(Priority::High),
                        );
                    channel::lemma_gave_no_more(
                        first.at(Priority::High),
                        inputs1.at(Priority::High),
                        self.input_queues.at(Priority::High),
                        why,
                    );
                    lemma_same_arrived(first, inputs1, self.input_queues, now);
                }
            }
            assert forall|w: int| 0 <= w < old(self).workers@.len() implies (
            #[trigger] self.workers@[w]).high_input == old(self).workers@[w].high_input
                && self.workers@[w].medium_input == old(self).workers@[w].medium_input by {
                assert(before.workers@[w].high_input == old(self).workers@[w].high_input);
            }
        }
        let mut i: usize = 1;
        let mut lower: bool = false;
        proof {
            lemma_got_none(
                first.at(Priority::Medium),
                self.input_queues.at(Priority::Medium),
            );
            lemma_got_none(first.at(Priority::Low), self.input_queues.at(Priority::Low));
            lemma_got_none(
                first.at(Priority::BestEffort),
                self.input_queues.at(Priority::BestEffort),
            );
            assert forall|p: Priority| p != Priority::High implies #[trigger] got(
                first.at(p),
                self.input_queues.at(p),
            ).len() == 0 by {
                lemma_got_none(first.at(p), self.input_queues.at(p));
            }
        }
        while i < 4 && !lower
            invariant
                1 <= i <= 4,
                channel::took_all(first.at(Priority::High), self.input_queues.at(Priority::High)),
                forall|p: Priority|
                    1 <= p.rank() < i ==> channel::asked_once(
                        first.at(p),
                        #[trigger] self.input_queues.at(p),
                    ),
                forall|p: Priority|
                    p.rank() >= i ==> #[trigger] self.input_queues.at(p) == first.at(p),
                forall|p: Priority|
                    1 <= p.rank() < i - 1 ==> #[trigger] got(
                        first.at(p),
                        self.input_queues.at(p),
                    ).len() == 0,
                lower ==> i >= 2 && got(
                    first.at(Priority::of_rank(i - 1)),
                    self.input_queues.at(Priority::of_rank(i - 1)),
                ).len() > 0,
                first == old(self).input_queues,
                self.wf(),
                self.workers@.len() == old(self).workers@.len(),
                self.workers@.len() > 0,
                self.output_queues == old(self).output_queues,
                self.drop_counters == old(self).drop_counters,
                self.medium_latency_tracker == old(self).medium_latency_tracker,
                self.low_latency_tracker == old(self).low_latency_tracker,
                forall|w: int|
                    0 <= w < old(self).workers@.len() ==> (
                    #[trigger] self.workers@[w]).high_input == old(self).workers@[w].high_input
                        && self.workers@[w].medium_input == old(self).workers@[w].medium_input,
                forall|p: Priority|
                    channel::taken(first.at(p)).is_prefix_of(
                        channel::taken(#[trigger] self.input_queues.at(p)),
                    ),
                all_placed(
                    old(self).workers@,
                    self.workers@,
                    arrived(first, self.input_queues, now),
                ),
                dispatched == (arrived(first, self.input_queues, now).len() > 0),
                !lower ==> forall|p: Priority|
                    p != Priority::High ==> #[trigger] got(
                        first.at(p),
                        self.input_queues.at(p),
                    ).len() == 0,
                got(first.at(Priority::Medium), self.input_queues.at(Priority::Medium)).len() + got(
                    first.at(Priority::Low),
                    self.input_queues.at(Priority::Low),
                ).len() + got(
                    first.at(Priority::BestEffort),
                    self.input_queues.at(Priority::BestEffort),
                ).len() <= 1,
            decreases 4 - i,
        {
            let priority = Priority::from_index(i);
            let ghost inputs1 = self.input_queues;
            let ghost before = *self;
            assert(channel::taken(first.at(priority)).is_prefix_of(
                channel::taken(inputs1.at(priority)),
            ));
            assert(got(first.at(Priority::Medium), inputs1.at(Priority::Medium)).len() == 0);
            assert(got(first.at(Priority::Low), inputs1.at(Priority::Low)).len() == 0);
            assert(got(first.at(Priority::BestEffort), inputs1.at(Priority::BestEffort)).len()
                == 0);
            if self.dispatch_one(priority, now) {
                dispatched = true;
                lower = true;
                proof {
                    let packet = choose|packet: Packet| #[trigger]
                        channel::received(
                            Ok(packet),
                            inputs1.at(priority),
                            self.input_queues.at(priority),
                        ) && placed(
                            before.workers@,
                            self.workers@,
                            task_of(priority, packet, now),
                        );
                    lemma_one_arrived(
                        first,
                        inputs1,
                        self.input_queues,
                        priority,
                        packet,
                        now,
                    );
                    assert(priority != Priority::Medium ==> self.input_queues.at(Priority::Medium)
                        == inputs1.at(Priority::Medium));
                    assert(priority != Priority::Low ==> self.input_queues.at(Priority::Low)
                        == inputs1.at(Priority::Low));
                    assert(priority != Priority::BestEffort ==> self.input_queues.at(
                        Priority::BestEffort,
                    ) == inputs1.at(Priority::BestEffort));
                    assert(self.input_queues.at(Priority::High) == inputs1.at(Priority::High));
                    lemma_one_more_placed(
                        old(self).workers@,
                        before.workers@,
                        self.workers@,
                        arrived(first, inputs1, now),
                        task_of(priority, packet, now),
                    );
                }
            } else {
                proof {
                    assert forall|p: Priority| channel::taken(
                        #[trigger] self.input_queues.at(p),
                    ) == channel::taken(inputs1.at(p)) by {}
                    lemma_same_arrived(first, inputs1, self.input_queues, now);
                    assert forall|p: Priority| p != Priority::High implies #[trigger] got(
                        first.at(p),
                        self.input_queues.at(p),
                    ).len() == 0 by {
                        assert(got(first.at(p), inputs1.at(p)).len() == 0);
                    }
                }
            }
            assert forall|p: Priority| channel::taken(first.at(p)).is_prefix_of(
                channel::taken(#[trigger] self.input_queues.at(p)),
            ) by {
                assert(channel::taken(first.at(p)).is_prefix_of(channel::taken(inputs1.at(p))));
            }
            assert forall|w: int| 0 <= w < old(self).workers@.len() implies (
            #[trigger] self.workers@[w]).high_input == old(self).workers@[w].high_input
                && self.workers@[w].medium_input == old(self).workers@[w].medium_input by {
                assert(before.workers@[w].high_input == old(self).workers@[w].high_input);
            }
            proof {
                assert(inputs1.at(priority) == first.at(priority));
                assert forall|p: Priority| 1 <= p.rank() < i + 1 implies channel::asked_once(
                    first.at(p),
                    #[trigger] self.input_queues.at(p),
                ) by {
                    if p != priority {
                        assert(self.input_queues.at(p) == inputs1.at(p));
                    }
                }
                assert forall|p: Priority| 1 <= p.rank() < i implies #[trigger] got(
                    first.at(p),
                    self.input_queues.at(p),
                ).len() == 0 by {
                    assert(got(first.at(p), inputs1.at(p)).len() == 0);
                    assert(self.input_queues.at(p) == inputs1.at(p));
                }
                assert forall|p: Priority| p.rank() >= i + 1 implies #[trigger] self.input_queues.at(
                    p,
                ) == first.at(p) by {
                    assert(self.input_queues.at(p) == inputs1.at(p));
                }
                assert(self.input_queues.at(Priority::High) == inputs1.at(Priority::High));
            }
            i = i + 1;
        }
        proof {
            let medium = self.input_queues.at(Priority::Medium);
            let low = self.input_queues.at(Priority::Low);
            let best_effort = self.input_queues.at(Priority::BestEffort);
            assert(channel::asked_once(first.at(Priority::Medium), medium));
            if lower && i == 2 {
                assert(low == first.at(Priority::Low));
                assert(best_effort == first.at(Priority::BestEffort));
            } else {
                assert(channel::asked_once(first.at(Priority::Low), low));
                assert(got(first.at(Priority::Medium), medium).len() == 0);
                if lower && i == 3 {
                    assert(best_effort == first.at(Priority::BestEffort));
                } else {
                    assert(channel::asked_once(first.at(Priority::BestEffort), best_effort));
                    assert(got(first.at(Priority::Low), low).len() == 0);
                }
            }
        }
        dispatched
    }

    /// Takes out a task with least slack for a worker. `None` where it has none.
    pub fn next_task(&mut self, worker: usize) -> (taken: Option<QueuedTask>)
        requires
            old(self).wf(),
            worker < old(self).workers@.len(),
        ensures
            final(self).wf(),
            match taken {
                Some(task) => {
                    &&& old(self).workers@[worker as int].queue@.count(by_slack(task)) > 0
                    &&& final(self).workers@[worker as int].queue@ == old(
                        self).workers@[worker as int].queue@.remove(by_slack(task))
                    &&& forall|e: Entry<QueuedTask>| #[trigger]
                        old(self).workers@[worker as int].queue@.count(e) > 0 ==> task.slack_time
                            <= e.key
                },
                None => old(self).workers@[worker as int].queue@.len() == 0 && final(
                    self).workers@[worker as int].queue@ == old(
                    self).workers@[worker as int].queue@,
            },
            took_least(
                old(self).workers@[worker as int].queue@,
                final(self).workers@[worker as int].queue@,
                taken,
            ),
            final(self).only_worker_changed(*old(self), worker as int),
            final(self).workers@[worker as int].high_input == old(
                self).workers@[worker as int].high_input,
            final(self).workers@[worker as int].medium_input == old(
                self).workers@[worker as int].medium_input,
            final(self).workers@[worker as int].queue.completion() == old(
                self).workers@[worker as int].queue.completion(),
    {
        assert(self.workers@[worker as int].queue.wf());
        self.workers[worker].queue.try_pop()
    }

    /// Whether nothing but one worker differs between two states.
    pub open spec fn only_worker_changed(self, before: CEDFScheduler, worker: int) -> bool {
        &&& self.workers@.len() == before.workers@.len()
        &&& forall|w: int|
            0 <= w < before.workers@.len() && w != worker ==> #[trigger] self.workers@[w]
                == before.workers@[w]
        &&& self.input_queues == before.input_queues
        &&& self.output_queues == before.output_queues
        &&& self.drop_counters == before.drop_counters
        &&& self.medium_latency_tracker == before.medium_latency_tracker
        &&& self.low_latency_tracker == before.low_latency_tracker
    }

    /// How long a task may wait for a more critical packet before work on it starts.
    pub fn guard(&self, task: &QueuedTask, now: Instant) -> (limit: Option<Duration>)
        requires
            self.wf(),
        ensures
            task.priority == Priority::High || task.priority == Priority::BestEffort
                ==> limit is None,
            task.priority == Priority::Medium ==> limited_by(
                Priority::Medium,
                self.medium_latency_tracker.window(),
                *task,
                now,
                limit,
            ),
            task.priority == Priority::Low ==> limited_by(
                Priority::Low,
                self.low_latency_tracker.window(),
                *task,
                now,
                limit,
            ),
            task.priority == Priority::Medium ==> exists|micros: u64| #[trigger]
                is_max(self.medium_latency_tracker.window(), micros) && limit == guard_limit(
                    Priority::Medium,
                    task.packet,
                    Duration { nanos: clamp_u64(micros * NANOS_PER_MICRO) },
                    now,
                ),
            task.priority == Priority::Low ==> exists|micros: u64| #[trigger]
                is_max(self.low_latency_tracker.window(), micros) && limit == guard_limit(
                    Priority::Low,
                    task.packet,
                    Duration { nanos: clamp_u64(micros * NANOS_PER_MICRO) },
                    now,
                ),
    {
        match task.priority {
            Priority::Medium => guard_threshold(
                Priority::Medium,
                &task.packet,
                self.medium_latency_tracker.get_p100(),
                now,
            ),
            Priority::Low => guard_threshold(
                Priority::Low,
                &task.packet,
                self.low_latency_tracker.get_p100(),
                now,
            ),
            _ => None,
        }
    }

    /// Lets a worker look once for a more critical packet before work on `task` starts. A packet
    /// that is there takes its place, and the task is queued again as it is. The high and the
    /// best-effort class make way for nothing.
    pub fn guard_poll(&mut self, worker: usize, task: QueuedTask, now: Instant) -> (outcome:
        TaskOutcome)
        requires
            old(self).wf(),
            worker < old(self).workers@.len(),
        ensures
            final(self).wf(),
            final(self).only_worker_changed(*old(self), worker as int),
            made_way(
                task,
                task,
                now,
                old(self).workers@[worker as int],
                final(self).workers@[worker as int],
                outcome,
            ),
            task.priority == Priority::High || task.priority == Priority::BestEffort
                ==> outcome.state == GuardState::Quiet,
            outcome.state == GuardState::Closed ==> task.priority == Priority::Medium,
            outcome.state != GuardState::Blocked,
    {
        assert(self.workers@[worker as int].queue.wf());
        if task.priority == Priority::Medium || task.priority == Priority::Low {
            let remaining = task.estimated_processing;
            self.workers[worker].make_way(task, remaining, now)
        } else {
            TaskOutcome { state: GuardState::Quiet, task }
        }
    }

    /// Lets a worker look once for a more critical packet while work on `task`, begun at `started`,
    /// goes on. A packet that is there takes its place, and the task is queued again with the rest
    /// of the work. The look is left out where the budget of the task does not permit it; the high
    /// and the best-effort class make way for nothing.
    pub fn run_poll(
        &mut self,
        worker: usize,
        task: QueuedTask,
        started: Instant,
        last_check: Instant,
        now: Instant,
    ) -> (outcome: TaskOutcome)
        requires
            old(self).wf(),
            worker < old(self).workers@.len(),
        ensures
            final(self).wf(),
            final(self).only_worker_changed(*old(self), worker as int),
            made_way(
                task,
                QueuedTask {
                    estimated_processing: Duration {
                        nanos: rest_of_work(task, started, now) as u64,
                    },
                    ..task
                },
                now,
                old(self).workers@[worker as int],
                final(self).workers@[worker as int],
                outcome,
            ),
            made_way(
                task,
                put_back(task, started, now),
                now,
                old(self).workers@[worker as int],
                final(self).workers@[worker as int],
                outcome,
            ),
            (outcome.state == GuardState::Blocked) == !may_make_way(task, started, last_check, now),
            outcome.state == GuardState::Closed ==> task.priority == Priority::Medium,
    {
        assert(self.workers@[worker as int].queue.wf());
        if check_is_due(&task, last_check, now) && budget_allows(&task, started, now) {
            let remaining = task.estimated_processing.saturating_sub(now.since(started));
            self.workers[worker].make_way(task, remaining, now)
        } else {
            TaskOutcome { state: GuardState::Blocked, task }
        }
    }

    /// Notes that a worker was done with `task` at `now`: it is free from then on, the latency of
    /// the packet is taken in where its class is the medium or low one, and the packet is offered
    /// to the output of its class. A packet that the output does not take is counted and handed
    /// back.
    pub fn finish(&mut self, worker: usize, task: QueuedTask, now: Instant) -> (rejected: Option<
        Packet,
    >)
        requires
            old(self).wf(),
            worker < old(self).workers@.len(),
        ensures
            final(self).wf(),
            final(self).workers@.len() == old(self).workers@.len(),
            final(self).workers@[worker as int].queue@ == old(self).workers@[worker as int].queue@,
            final(self).workers@[worker as int].queue.completion() == now,
            final(self).workers@[worker as int].high_input == old(
                self).workers@[worker as int].high_input,
            final(self).workers@[worker as int].medium_input == old(
                self).workers@[worker as int].medium_input,
            forall|w: int|
                0 <= w < old(self).workers@.len() && w != worker ==> #[trigger] final(
                    self).workers@[w] == old(self).workers@[w],
            final(self).input_queues == old(self).input_queues,
            offered(
                task.packet,
                rejected,
                old(self).output_queues.at(task.priority),
                final(self).output_queues.at(task.priority),
                old(self).drop_counters.at(task.priority),
                final(self).drop_counters.at(task.priority),
            ),
            forall|p: Priority|
                p != task.priority ==> #[trigger] final(self).output_queues.at(p) == old(
                    self).output_queues.at(p),
            forall|p: Priority|
                p != task.priority ==> #[trigger] final(self).drop_counters.at(p) == old(
                    self).drop_counters.at(p),
            final(self).medium_latency_tracker.window() == (if task.priority == Priority::Medium {
                slid(
                    old(self).medium_latency_tracker.window(),
                    now.spec_since(task.packet.timestamp).nanos / NANOS_PER_MICRO,
                )
            } else {
                old(self).medium_latency_tracker.window()
            }),
            final(self).low_latency_tracker.window() == (if task.priority == Priority::Low {
                slid(
                    old(self).low_latency_tracker.window(),
                    now.spec_since(task.packet.timestamp).nanos / NANOS_PER_MICRO,
                )
            } else {
                old(self).low_latency_tracker.window()
            }),
            final(self).medium_latency_tracker.window() == learnt(
                Priority::Medium,
                old(self).medium_latency_tracker.window(),
                task,
                now,
            ),
            final(self).low_latency_tracker.window() == learnt(
                Priority::Low,
                old(self).low_latency_tracker.window(),
                task,
                now,
            ),
    {
        assert(self.workers@[worker as int].queue.wf());
        self.workers[worker].queue.settle(now);
        let latency = now.since(task.packet.timestamp);
        match task.priority {
            Priority::Medium => {
                self.medium_latency_tracker.record_latency(latency);
            },
            Priority::Low => {
                self.low_latency_tracker.record_latency(latency);
            },
            _ => {},
        }
        send_packet(
            self.output_queues.get_mut(task.priority),
            self.drop_counters.get_mut(task.priority),
            task.packet,
        )
    }

    /// Packets that the scheduler dropped. It holds no packet back for lack of room of its own.
    pub fn get_drop_counts(&self) -> (counts: EDFDropCounters)
        ensures
            counts.heap == 0,
            counts.output == self.drop_counters,
    {
        EDFDropCounters { heap: 0, output: crate::scheduler::edf::copy_counts(&self.drop_counters) }
    }
}

/// Law: slack falls as time passes, and a task has negative slack exactly where it cannot be done
/// before its deadline any more.
pub proof fn law_slack_tells_missed_deadlines(packet: Packet, now: Instant, later: Instant)
    requires
        now.nanos <= later.nanos,
    ensures
        slack(packet, later) <= slack(packet, now),
        slack(packet, now) < 0 <==> now.nanos + spec_cost(BASE_COST, packet).nanos
            > packet.spec_deadline().nanos,
{
}

/// Law: giving tasks to workers neither loses nor adds any.
pub proof fn law_every_task_is_placed_once(
    before: Seq<CedfWorker>,
    after: Seq<CedfWorker>,
    tasks: Seq<QueuedTask>,
)
    requires
        all_placed(before, after, tasks),
    ensures
        after.len() == before.len(),
        pool(after) == pool(before).add(
            tasks.map_values(|task: QueuedTask| by_slack(task)).to_multiset(),
        ),
    decreases tasks.len(),
{
    broadcast use vstd::multiset::group_multiset_axioms;

    let f = |task: QueuedTask| by_slack(task);
    if tasks.len() == 0 {
        vstd::seq_lib::to_multiset_len(tasks.map_values(f));
        assert(pool(after) =~= pool(before).add(tasks.map_values(f).to_multiset()));
    } else {
        let rest = tasks.drop_last();
        let middle = choose|middle: Seq<CedfWorker>|
            all_placed(before, middle, rest) && #[trigger] placed(middle, after, tasks.last());
        law_every_task_is_placed_once(before, middle, rest);
        let chosen = choose|chosen: int| #[trigger]
            is_best(tasks.last(), middle, chosen) && after[chosen].queue@
                == middle[chosen].queue@.insert(by_slack(tasks.last())) && (forall|w: int|
                0 <= w < middle.len() && w != chosen ==> #[trigger] after[w] == middle[w]);
        lemma_pool_insert(middle, after, chosen, by_slack(tasks.last()));
        assert(tasks.map_values(f) =~= rest.map_values(f).push(f(tasks.last())));
        vstd::seq_lib::to_multiset_build(rest.map_values(f), f(tasks.last()));
        assert(pool(after) =~= pool(before).add(tasks.map_values(f).to_multiset()));
    }
}

/// Law: a task that waits for more critical packets for as long as it may still has time for twice
/// its processing before its budget runs out.
pub proof fn law_waiting_leaves_time_for_the_work(
    priority: Priority,
    packet: Packet,
    p100: Duration,
    now: Instant,
)
    requires
        guard_limit(priority, packet, p100, now) is Some,
    ensures
        guard_limit(priority, packet, p100, now).unwrap().nanos + 2 * spec_cost(
            BASE_COST,
            packet,
        ).nanos <= rest_of_budget(packet, now),
        guard_limit(priority, packet, p100, now).unwrap().nanos <= packet.latency_budget.nanos
            - p100.nanos,
        priority != Priority::High && priority != Priority::BestEffort,
{
}

/// Law: the key that a task made at `now` is queued under is the time from `now` to the deadline of
/// its packet, that is its arrival plus its budget, less the time that the work on it takes. The task
/// keeps packet, class, deadline and that time.
pub proof fn law_tasks_are_queued_by_the_time_left(
    priority: Priority,
    packet: Packet,
    now: Instant,
)
    ensures
        ({
            let task = task_of(priority, packet, now);
            let due = min_of(packet.timestamp.nanos + packet.latency_budget.nanos, u64::MAX as int);
            &&& by_slack(task).item == task
            &&& by_slack(task).key == task.slack_time
            &&& task.slack_time == due - now.nanos - task.estimated_processing.nanos
            &&& task.deadline.nanos == due
            &&& task.packet == packet
            &&& task.priority == priority
            &&& packet.buffer.bytes().len() <= 200 ==> task.estimated_processing.nanos == 50_000
            &&& packet.buffer.bytes().len() >= 1500 ==> task.estimated_processing.nanos == 150_000
            &&& 50_000 <= task.estimated_processing.nanos <= 150_000
        }),
{
    law_cost_grows_with_the_payload(BASE_COST, packet, packet);
}

/// Law: of two packets of equal size that a worker got at the same time, the one that is due earlier
/// has the smaller key, by as much as it is due earlier, whatever their classes. A packet that comes
/// later has a key that is smaller by the time that has passed.
pub proof fn law_keys_differ_as_deadlines_do(
    p: Priority,
    a: Packet,
    q: Priority,
    b: Packet,
    now: Instant,
    later: Instant,
)
    requires
        a.buffer.bytes().len() == b.buffer.bytes().len(),
        a.timestamp.nanos + a.latency_budget.nanos <= u64::MAX,
        b.timestamp.nanos + b.latency_budget.nanos <= u64::MAX,
    ensures
        by_slack(task_of(p, a, now)).key - by_slack(task_of(q, b, now)).key == (a.timestamp.nanos
            + a.latency_budget.nanos) - (b.timestamp.nanos + b.latency_budget.nanos),
        by_slack(task_of(p, a, now)).key - by_slack(task_of(p, a, later)).key == later.nanos
            - now.nanos,
{
}

/// Law: the task that a worker takes is due first among those of packets of equal size that it got at
/// the same time, by arrival plus budget. It leaves the queue, and nothing else does; a worker that has
/// a task takes one.
pub proof fn law_earlier_deadlines_are_taken_first(
    before: Multiset<Entry<QueuedTask>>,
    after: Multiset<Entry<QueuedTask>>,
    p: Priority,
    taken: Packet,
    q: Priority,
    other: Packet,
    now: Instant,
)
    requires
        took_least(before, after, Some(task_of(p, taken, now))),
        before.count(by_slack(task_of(q, other, now))) > 0,
        taken.buffer.bytes().len() == other.buffer.bytes().len(),
        taken.timestamp.nanos + taken.latency_budget.nanos <= u64::MAX,
        other.timestamp.nanos + other.latency_budget.nanos <= u64::MAX,
    ensures
        taken.timestamp.nanos + taken.latency_budget.nanos <= other.timestamp.nanos
            + other.latency_budget.nanos,
        after.insert(by_slack(task_of(p, taken, now))) == before,
        !took_least(before, after, None),
{
    broadcast use vstd::multiset::group_multiset_axioms;

    assert(before.count(by_slack(task_of(q, other, now))) > 0);
    assert(after.insert(by_slack(task_of(p, taken, now))) =~= before);
    if before.len() == 0 {
        assert(before.count(by_slack(task_of(q, other, now))) <= before.len());
    }
}

/// Law: the worker that gets a task is the one that is best for it: on none of the others would the
/// whole milliseconds between being done with the task and its deadline, less 1000 for each task
/// that waits there, come to more, and on those before it they come to less. So of workers with
/// equally many tasks it is one that leaves most milliseconds, and of workers that are done at the
/// same time one with fewest tasks.
pub proof fn law_tasks_go_where_they_fare_best(
    task: QueuedTask,
    workers: Seq<CedfWorker>,
    best: int,
    other: int,
)
    requires
        is_best(task, workers, best),
        0 <= other < workers.len(),
    ensures
        ({
            let done = |w: int|
                min_of(
                    workers[w].queue.completion().nanos + task.estimated_processing.nanos,
                    u64::MAX as int,
                );
            let millis = |w: int| max_of(task.deadline.nanos - done(w), 0) / 1_000_000;
            &&& 0 <= best < workers.len()
            &&& millis(best) - 1000 * workers[best].queue@.len() >= millis(other) - 1000
                * workers[other].queue@.len()
            &&& other < best ==> millis(best) - 1000 * workers[best].queue@.len() > millis(other)
                - 1000 * workers[other].queue@.len()
            &&& workers[other].queue@.len() == workers[best].queue@.len() ==> millis(other)
                <= millis(best)
            &&& workers[other].queue.completion() == workers[best].queue.completion()
                ==> workers[best].queue@.len() <= workers[other].queue@.len()
        }),
{
    assert(score(task, workers[other].queue) <= score(task, workers[best].queue));
}

/// Law: a placed task is queued on exactly one worker, under its slack; that worker expects to be
/// done as much later as the task takes, and keeps its inputs; the other workers are as before.
pub proof fn law_placing_changes_one_worker(
    before: Seq<CedfWorker>,
    after: Seq<CedfWorker>,
    task: QueuedTask,
)
    requires
        placed(before, after, task),
    ensures
        after.len() == before.len(),
        exists|w: int|
            {
                &&& 0 <= w < before.len()
                &&& (#[trigger] after[w]).queue@ == before[w].queue@.insert(
                    Entry { key: task.slack_time, item: task },
                )
                &&& after[w].queue.completion().nanos == min_of(
                    before[w].queue.completion().nanos + task.estimated_processing.nanos,
                    u64::MAX as int,
                )
                &&& after[w].high_input == before[w].high_input
                &&& after[w].medium_input == before[w].medium_input
                &&& forall|v: int|
                    0 <= v < before.len() && v != w ==> #[trigger] after[v] == before[v]
            },
{
}

/// Law: what is left of a budget and of the time since the arrival make up the whole budget, until
/// it is spent.
pub proof fn law_budgets_run_down(packet: Packet, now: Instant)
    requires
        packet.timestamp.nanos <= now.nanos,
    ensures
        now.nanos - packet.timestamp.nanos <= packet.latency_budget.nanos ==> rest_of_budget(
            packet,
            now,
        ) + (now.nanos - packet.timestamp.nanos) == packet.latency_budget.nanos,
        now.nanos - packet.timestamp.nanos >= packet.latency_budget.nanos ==> rest_of_budget(
            packet,
            now,
        ) == 0,
{
}

/// Law: what is left of the work on a task and the time since it started make up its processing
/// time, until it is done.
pub proof fn law_work_runs_down(task: QueuedTask, started: Instant, now: Instant)
    requires
        started.nanos <= now.nanos,
    ensures
        now.nanos - started.nanos <= task.estimated_processing.nanos ==> rest_of_work(
            task,
            started,
            now,
        ) + (now.nanos - started.nanos) == task.estimated_processing.nanos,
        now.nanos - started.nanos >= task.estimated_processing.nanos ==> rest_of_work(
            task,
            started,
            now,
        ) == 0,
{
}

/// Law: a task waits exactly where it is of the medium or low class, a latency of its class is known,
/// and there is at least a microsecond both between that latency and the budget and between the rest
/// of the budget and twice the processing time. It waits as long as these permit, but no longer than
/// 3 ms in the medium class and 10 ms in the low class.
pub proof fn law_waits_are_as_long_as_permitted(
    priority: Priority,
    packet: Packet,
    p100: Duration,
    now: Instant,
)
    ensures
        ({
            let limit = guard_limit(priority, packet, p100, now);
            let space = packet.latency_budget.nanos - p100.nanos;
            let spare = rest_of_budget(packet, now) - 2 * spec_cost(BASE_COST, packet).nanos;
            &&& limit is Some <==> (priority == Priority::Medium || priority == Priority::Low)
                && p100.nanos > 0 && space >= 1000 && spare >= 1000
            &&& limit is Some ==> {
                let wait = limit.unwrap().nanos;
                &&& wait <= space
                &&& wait <= spare
                &&& priority == Priority::Medium ==> wait <= 3_000_000
                &&& priority == Priority::Low ==> wait <= 10_000_000
                &&& wait == space || wait == spare || wait == (if priority == Priority::Medium {
                    3_000_000int
                } else {
                    10_000_000
                })
            }
        }),
{
}

/// Law: work makes way exactly where it is of the medium or low class, 10 microseconds have passed
/// since the last look, and the rest of the budget exceeds 1.2 times the rest of the work by more
/// than half a nanosecond.
pub proof fn law_work_makes_way_within_its_budget(
    task: QueuedTask,
    started: Instant,
    last_check: Instant,
    now: Instant,
)
    requires
        last_check.nanos <= now.nanos,
    ensures
        may_make_way(task, started, last_check, now) <==> {
            &&& task.priority == Priority::Medium || task.priority == Priority::Low
            &&& now.nanos - last_check.nanos >= 10_000
            &&& 10 * rest_of_budget(task.packet, now) > 12 * rest_of_work(task, started, now) + 5
        },
{
}

/// Law: a task only ever makes way for a packet of a more critical class, which came out of the input
/// of that class, and is then queued again. Where it does not make way, it is gone on with, and the
/// queue is as it was.
pub proof fn law_tasks_make_way_for_more_critical_ones(
    task: QueuedTask,
    back: QueuedTask,
    now: Instant,
    before: CedfWorker,
    after: CedfWorker,
    outcome: TaskOutcome,
)
    requires
        made_way(task, back, now, before, after, outcome),
    ensures
        outcome.state == GuardState::Preempted ==> {
            &&& outcome.task.priority.rank() < task.priority.rank() <= 2
            &&& after.queue@ == before.queue@.insert(Entry { key: back.slack_time, item: back })
            &&& outcome.task.deadline == outcome.task.packet.spec_deadline()
            &&& outcome.task.priority == Priority::High ==> channel::taken(after.high_input)
                == channel::taken(before.high_input).push(outcome.task.packet)
                && after.medium_input == before.medium_input
            &&& outcome.task.priority == Priority::Medium ==> channel::taken(after.medium_input)
                == channel::taken(before.medium_input).push(outcome.task.packet) && channel::taken(
                after.high_input,
            ) == channel::taken(before.high_input)
        },
        outcome.state != GuardState::Preempted ==> {
            &&& outcome.task == task
            &&& after.queue@ == before.queue@
            &&& channel::taken(after.high_input) == channel::taken(before.high_input)
            &&& channel::taken(after.medium_input) == channel::taken(before.medium_input)
        },
        task.priority == Priority::High || task.priority == Priority::BestEffort ==> outcome.state
            != GuardState::Preempted && after.high_input == before.high_input && after.medium_input
            == before.medium_input,
{
}

/// Law: the packets that came in become one task each, under the class of the input that they came
/// by, most critical class first and in the order in which they came.
pub proof fn law_every_arrival_becomes_a_task(
    before: PriorityTable<Receiver<Packet>>,
    after: PriorityTable<Receiver<Packet>>,
    now: Instant,
    priority: Priority,
    i: int,
)
    requires
        0 <= i < got(before.at(priority), after.at(priority)).len(),
    ensures
        arrived(before, after, now).map_values(|task: QueuedTask| task.packet) == got(
            before.at(Priority::High),
            after.at(Priority::High),
        ) + got(before.at(Priority::Medium), after.at(Priority::Medium)) + got(
            before.at(Priority::Low),
            after.at(Priority::Low),
        ) + got(before.at(Priority::BestEffort), after.at(Priority::BestEffort)),
        arrived(before, after, now).contains(
            task_of(priority, got(before.at(priority), after.at(priority))[i], now),
        ),
{
    let high = got(before.at(Priority::High), after.at(Priority::High));
    let medium = got(before.at(Priority::Medium), after.at(Priority::Medium));
    let low = got(before.at(Priority::Low), after.at(Priority::Low));
    let rest = got(before.at(Priority::BestEffort), after.at(Priority::BestEffort));
    let all = arrived(before, after, now);
    assert(all.map_values(|task: QueuedTask| task.packet) =~= high + medium + low + rest);
    let at = i + match priority {
        Priority::High => 0,
        Priority::Medium => high.len() as int,
        Priority::Low => (high.len() + medium.len()) as int,
        Priority::BestEffort => (high.len() + medium.len() + low.len()) as int,
    };
    assert(all[at] == task_of(priority, got(before.at(priority), after.at(priority))[i], now));
}

/// Law: one pass takes at most one packet of the lower classes, and one of a less critical class only
/// where the inputs of the more critical ones among them gave none. It takes none only where all three
/// inputs were asked and gave none.
pub proof fn law_one_lower_packet_at_a_time(
    before: PriorityTable<Receiver<Packet>>,
    after: PriorityTable<Receiver<Packet>>,
)
    requires
        took_lower(before, after),
    ensures
        got(before.at(Priority::Medium), after.at(Priority::Medium)).len() + got(
            before.at(Priority::Low),
            after.at(Priority::Low),
        ).len() + got(before.at(Priority::BestEffort), after.at(Priority::BestEffort)).len() <= 1,
        got(before.at(Priority::Low), after.at(Priority::Low)).len() > 0 ==> channel::replies(
            after.at(Priority::Medium),
        ).last() is Err,
        got(before.at(Priority::BestEffort), after.at(Priority::BestEffort)).len() > 0
            ==> channel::replies(after.at(Priority::Medium)).last() is Err && channel::replies(
            after.at(Priority::Low),
        ).last() is Err,
        got(before.at(Priority::Medium), after.at(Priority::Medium)).len() == 0 && got(
            before.at(Priority::Low),
            after.at(Priority::Low),
        ).len() == 0 && got(before.at(Priority::BestEffort), after.at(Priority::BestEffort)).len()
            == 0 ==> channel::replies(after.at(Priority::Medium)).len() == channel::replies(
            before.at(Priority::Medium),
        ).len() + 1 && channel::replies(after.at(Priority::Low)).len() == channel::replies(
            before.at(Priority::Low),
        ).len() + 1 && channel::replies(after.at(Priority::BestEffort)).len() == channel::replies(
            before.at(Priority::BestEffort),
        ).len() + 1,
{
}

/// Law: the latency of a finished task is kept with those of its own class and of no other: the whole
/// microseconds from the arrival of its packet to `now`, as the last of them.
pub proof fn law_latencies_are_kept_by_class(
    class: Priority,
    window: Seq<u64>,
    task: QueuedTask,
    now: Instant,
)
    requires
        task.packet.timestamp.nanos <= now.nanos,
    ensures
        task.priority != class ==> learnt(class, window, task, now) == window,
        task.priority == class ==> {
            let micros = learnt(class, window, task, now).last();
            &&& learnt(class, window, task, now).len() >= 1
            &&& 0 <= now.nanos - task.packet.timestamp.nanos - 1000 * micros < 1000
        },
{
}

/// Law: a task does not wait before a latency of its class is known. Once some are, it waits at all only
/// where its budget exceeds the largest of them, and never longer than by what it exceeds it.
pub proof fn law_waits_learn_from_the_largest_latency(
    class: Priority,
    window: Seq<u64>,
    task: QueuedTask,
    now: Instant,
    limit: Option<Duration>,
    i: int,
)
    requires
        limited_by(class, window, task, now, limit),
    ensures
        window.len() == 0 ==> limit is None,
        0 <= i < window.len() && limit is Some ==> 1000 * window[i] + limit.unwrap().nanos
            <= task.packet.latency_budget.nanos,
{
    let micros = choose|micros: u64| #[trigger]
        is_max(window, micros) && limit == guard_limit(
            class,
            task.packet,
            Duration { nanos: clamp_u64(micros * NANOS_PER_MICRO) },
            now,
        );
    if 0 <= i < window.len() {
        assert(window[i] <= micros);
    }
}

/// Law: a worker takes no task only where it has none, and its queue stays as it is then.
pub proof fn law_a_worker_with_tasks_takes_one(
    before: Multiset<Entry<QueuedTask>>,
    after: Multiset<Entry<QueuedTask>>,
)
    requires
        took_least(before, after, None),
    ensures
        before.len() == 0,
        after == before,
{
}

/// Law: workers look for more critical packets on the very inputs that the scheduler takes the high and
/// the medium class from.
pub proof fn law_workers_share_the_inputs(
    worker: CedfWorker,
    inputs: PriorityTable<Receiver<Packet>>,
)
    requires
        fed_by(worker, inputs),
    ensures
        channel::source_of(worker.high_input) == channel::source_of(inputs.at(Priority::High)),
        channel::source_of(worker.medium_input) == channel::source_of(inputs.at(Priority::Medium)),
        channel::taken(worker.high_input).len() == 0,
        channel::taken(worker.medium_input).len() == 0,
{
}

/// Law: a worker expects to be done later by what the task that makes way still takes, and not at all
/// where none does.
pub proof fn law_making_way_puts_completion_off(
    task: QueuedTask,
    back: QueuedTask,
    now: Instant,
    before: CedfWorker,
    after: CedfWorker,
    outcome: TaskOutcome,
)
    requires
        made_way(task, back, now, before, after, outcome),
        before.queue.completion().nanos + back.estimated_processing.nanos <= u64::MAX,
    ensures
        outcome.state == GuardState::Preempted ==> after.queue.completion().nanos
            == before.queue.completion().nanos + back.estimated_processing.nanos,
        outcome.state != GuardState::Preempted ==> after.queue.completion()
            == before.queue.completion(),
{
}

/// Law: a task that makes way in the middle of its work keeps its place by slack, its packet, class and
/// deadline, and has as much less work left as time has passed since it started.
pub proof fn law_interrupted_work_is_gone_on_with(task: QueuedTask, started: Instant, now: Instant)
    requires
        started.nanos <= now.nanos,
    ensures
        ({
            let back = put_back(task, started, now);
            &&& by_slack(back).key == by_slack(task).key
            &&& back.packet == task.packet
            &&& back.priority == task.priority
            &&& back.deadline == task.deadline
            &&& now.nanos - started.nanos <= task.estimated_processing.nanos
                ==> back.estimated_processing.nanos + (now.nanos - started.nanos)
                == task.estimated_processing.nanos
            &&& now.nanos - started.nanos >= task.estimated_processing.nanos
                ==> back.estimated_processing.nanos == 0
        }),
{
}

/// Law: a look for a task of the medium class asks the high input once; one for a task of the low class
/// asks the medium input too, unless the high input gave a packet. A quiet look met no packet on any
/// input that it asked.
pub proof fn law_looks_ask_all_more_critical_inputs(
    task: QueuedTask,
    before: CedfWorker,
    after: CedfWorker,
    outcome: TaskOutcome,
)
    requires
        looked(task, before, after, outcome),
        outcome.state != GuardState::Blocked,
    ensures
        task.priority == Priority::Medium ==> {
            &&& channel::replies(after.high_input).len() == channel::replies(
                before.high_input,
            ).len() + 1
            &&& after.medium_input == before.medium_input || outcome.task.priority
                == Priority::Medium
            &&& outcome.state != GuardState::Preempted ==> channel::replies(
                after.high_input,
            ).last() is Err
        },
        task.priority == Priority::Low ==> {
            &&& channel::replies(after.high_input).len() == channel::replies(
                before.high_input,
            ).len() + 1
            &&& channel::replies(after.high_input).last() is Err ==> channel::replies(
                after.medium_input,
            ).len() == channel::replies(before.medium_input).len() + 1
            &&& outcome.state != GuardState::Preempted ==> channel::replies(
                after.high_input,
            ).last() is Err && channel::replies(after.medium_input).last() is Err
        },
{
}

} // verus!

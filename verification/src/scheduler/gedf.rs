//! Earliest-deadline-first scheduler whose workers share one queue.

use crate::heap::Entry;
use crate::packet::Packet;
use crate::priority::{Priority, PriorityTable};
use crate::scheduler::edf::EDFDropCounters;
use crate::scheduler::run_queue::{by_deadline, task_of, took_earliest, QueuedTask, RunQueue};
use crossbeam_channel::{Receiver, Sender};
use vstd::multiset::Multiset;
use vstd::prelude::*;

verus! {

/// Scheduler whose workers share one queue, ordered by deadline.
pub struct GEDFScheduler {
    pub shared_queue: RunQueue,
}

impl GEDFScheduler {
    pub open spec fn wf(&self) -> bool {
        &&& self.shared_queue.wf()
        &&& forall|p: Priority| #[trigger] self.shared_queue.scaling.at(p) == 100
    }

    /// A scheduler between the given inputs and outputs, with an empty queue. The whole budget of
    /// every class counts.
    pub fn new(
        input_queues: PriorityTable<Receiver<Packet>>,
        output_queues: PriorityTable<Sender<Packet>>,
    ) -> (scheduler: GEDFScheduler)
        ensures
            scheduler.wf(),
            scheduler.shared_queue.input_queues == input_queues,
            scheduler.shared_queue.output_queues == output_queues,
            scheduler.shared_queue.heap@ == Multiset::<Entry<QueuedTask>>::empty(),
            forall|p: Priority| #[trigger] scheduler.shared_queue.drop_counters.at(p) == 0,
    {
        GEDFScheduler {
            shared_queue: RunQueue::new(
                input_queues,
                output_queues,
                PriorityTable::of(100, 100, 100, 100),
            ),
        }
    }

    /// Packets that the scheduler dropped.
    pub fn get_drop_counts(&self) -> (counts: EDFDropCounters)
        ensures
            counts.heap == 0,
            counts.output == self.shared_queue.drop_counters,
    {
        self.shared_queue.get_drop_counts()
    }
}

/// Law: with the whole budget counting, the shared queue is ordered by the deadlines themselves.
pub proof fn law_order_is_by_deadline(scheduler: GEDFScheduler, priority: Priority, packet: Packet)
    requires
        scheduler.wf(),
    ensures
        crate::scheduler::run_queue::task_of(
            scheduler.shared_queue.scaling,
            priority,
            packet,
        ).deadline == packet.spec_deadline(),
{
    assert(scheduler.shared_queue.scaling.at(priority) == 100);
}

/// Law: the task that a worker takes is due no later than any other in the queue, by arrival plus budget,
/// whatever the classes.
pub proof fn law_workers_take_what_is_due_first(
    before: GEDFScheduler,
    after: GEDFScheduler,
    p: Priority,
    taken: Packet,
    q: Priority,
    other: Packet,
)
    requires
        before.wf(),
        taken.timestamp.nanos + taken.latency_budget.nanos <= u64::MAX,
        other.timestamp.nanos + other.latency_budget.nanos <= u64::MAX,
        took_earliest(
            before.shared_queue.heap@,
            after.shared_queue.heap@,
            Some(task_of(before.shared_queue.scaling, p, taken)),
        ),
        before.shared_queue.heap@.count(
            by_deadline(task_of(before.shared_queue.scaling, q, other)),
        ) > 0,
    ensures
        taken.timestamp.nanos + taken.latency_budget.nanos <= other.timestamp.nanos
            + other.latency_budget.nanos,
{
    law_order_is_by_deadline(before, p, taken);
    law_order_is_by_deadline(before, q, other);
    let e = by_deadline(task_of(before.shared_queue.scaling, q, other));
    assert(before.shared_queue.heap@.count(e) > 0);
}

} // verus!

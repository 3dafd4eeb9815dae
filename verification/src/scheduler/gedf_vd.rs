//! Earliest-deadline-first scheduler whose workers share one queue, with virtual deadlines.
//!
//! A virtual deadline counts only a part of the latency budget, and a smaller one the more critical
//! the class is, so that critical packets go ahead even where deadlines are alike.

use crate::heap::Entry;
use crate::packet::Packet;
use crate::priority::{Priority, PriorityTable};
use crate::scheduler::edf::EDFDropCounters;
use crate::scheduler::run_queue::{part_of, scaled_deadline, QueuedTask, RunQueue};
use crossbeam_channel::{Receiver, Sender};
use vstd::multiset::Multiset;
use vstd::prelude::*;

verus! {

/// Hundredths of the budget of each class that count.
pub open spec fn scaling(priority: Priority) -> u64 {
    match priority {
        Priority::High => 5,
        Priority::Medium => 60,
        Priority::Low => 75,
        Priority::BestEffort => 100,
    }
}

/// Hundredths of the budget of each class that count, as a table.
pub fn scaling_table() -> (table: PriorityTable<u64>)
    ensures
        forall|p: Priority| #[trigger] table.at(p) == scaling(p),
{
    PriorityTable::of(5, 60, 75, 100)
}

/// Scheduler whose workers share one queue, ordered by virtual deadline.
pub struct GEDFVDScheduler {
    pub shared_queue: RunQueue,
}

impl GEDFVDScheduler {
    pub open spec fn wf(&self) -> bool {
        &&& self.shared_queue.wf()
        &&& forall|p: Priority| #[trigger] self.shared_queue.scaling.at(p) == scaling(p)
    }

    /// A scheduler between the given inputs and outputs, with an empty queue.
    pub fn new(
        input_queues: PriorityTable<Receiver<Packet>>,
        output_queues: PriorityTable<Sender<Packet>>,
    ) -> (scheduler: GEDFVDScheduler)
        ensures
            scheduler.wf(),
            scheduler.shared_queue.input_queues == input_queues,
            scheduler.shared_queue.output_queues == output_queues,
            scheduler.shared_queue.heap@ == Multiset::<Entry<QueuedTask>>::empty(),
            forall|p: Priority| #[trigger] scheduler.shared_queue.drop_counters.at(p) == 0,
    {
        GEDFVDScheduler {
            shared_queue: RunQueue::new(input_queues, output_queues, scaling_table()),
        }
    }

    /// Packets that the scheduler dropped.
    pub fn get_drop_counts(&self) -> (counts: EDFDropCounters)
        ensures
            counts.heap == 0,
            counts.output == self.shared_queue.drop_counters,
    {
        self.shared_queue.get_drop_counts()
    }
}

/// Law: a virtual deadline is never later than the deadline, and is the deadline for the
/// best-effort class. Among packets that arrived together with the same budget, a more critical
/// one never comes later.
pub proof fn law_virtual_deadlines_favour_critical_classes(
    critical: Packet,
    other: Packet,
    p: Priority,
    q: Priority,
)
    requires
        critical.timestamp == other.timestamp,
        critical.latency_budget == other.latency_budget,
        p.rank() <= q.rank(),
    ensures
        scaled_deadline(critical, scaling(p) as int).nanos <= scaled_deadline(
            other,
            scaling(q) as int,
        ).nanos,
        scaled_deadline(other, scaling(q) as int).nanos <= other.spec_deadline().nanos,
        scaled_deadline(other, scaling(Priority::BestEffort) as int) == other.spec_deadline(),
{
    let b = critical.latency_budget;
    assert(part_of(b, 5) <= part_of(b, 60) <= part_of(b, 75) <= part_of(b, 100));
    assert(part_of(b, 100) == b.nanos);
}

/// Law: a packet of the high class is queued by its arrival plus a twentieth of its budget, one of the
/// medium class plus three fifths, one of the low class plus three quarters, and one of the
/// best-effort class plus all of it, each to the nearest nanosecond.
pub proof fn law_parts_of_the_budget_count(scheduler: GEDFVDScheduler, p: Priority, packet: Packet)
    requires
        scheduler.wf(),
        packet.timestamp.nanos + packet.latency_budget.nanos <= u64::MAX,
    ensures
        ({
            let task = crate::scheduler::run_queue::task_of(
                scheduler.shared_queue.scaling,
                p,
                packet,
            );
            let part = task.deadline.nanos - packet.timestamp.nanos;
            let budget = packet.latency_budget.nanos;
            &&& p == Priority::High ==> -10 <= budget - 20 * part < 10
            &&& p == Priority::Medium ==> -5 <= 2 * (3 * budget - 5 * part) < 5
            &&& p == Priority::Low ==> -2 <= 3 * budget - 4 * part < 2
            &&& p == Priority::BestEffort ==> part == budget
        }),
{
    assert(scheduler.shared_queue.scaling.at(p) == scaling(p));
    let budget = packet.latency_budget.nanos as int;
    assert(part_of(packet.latency_budget, 5) == (5 * budget + 50) / 100);
    assert(part_of(packet.latency_budget, 60) == (60 * budget + 50) / 100);
    assert(part_of(packet.latency_budget, 75) == (75 * budget + 50) / 100);
    assert(part_of(packet.latency_budget, 100) == (100 * budget + 50) / 100);
    assert(scaled_deadline(packet, scaling(p) as int).nanos == packet.timestamp.nanos + part_of(
        packet.latency_budget,
        scaling(p) as int,
    ));
}

} // verus!

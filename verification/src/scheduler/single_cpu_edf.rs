//! Earliest-deadline-first scheduler that reads the input sockets itself.
//!
//! Each class has a queue of its own. As the packets of a class share one latency budget, each queue
//! is ordered by deadline as it comes. A queue is refilled from the sockets of its class only when
//! it is empty.

use crate::packet::Packet;
use crate::priority::{Priority, PriorityTable};
use crate::scheduler::cost::{size_cost, spec_cost};
use crate::scheduler::edf::{copy_counts, make_task, task_of, EDFDropCounters, EDFTask, BASE_COST};
use crate::scheduler::output::{offered, send_packet};
use crate::time::Duration;
use crossbeam_channel::Sender;
use std::collections::VecDeque;
use vstd::prelude::*;

verus! {

/// The packet of a class that is worked on next, if the class is served and has one. The
/// best-effort class is not served.
pub open spec fn front(queues: PriorityTable<VecDeque<EDFTask>>, priority: Priority) -> Option<
    EDFTask,
> {
    if priority != Priority::BestEffort && queues.at(priority)@.len() > 0 {
        Some(queues.at(priority)@[0])
    } else {
        None
    }
}

/// Whether the front of class `priority` goes first: none is due earlier, and no more critical
/// class has one that is due at the same time.
pub open spec fn leads(queues: PriorityTable<VecDeque<EDFTask>>, priority: Priority) -> bool {
    &&& front(queues, priority) is Some
    &&& forall|p: Priority|
        (#[trigger] front(queues, p)) is Some ==> {
            &&& front(queues, priority).unwrap().deadline.nanos <= front(
                queues,
                p,
            ).unwrap().deadline.nanos
            &&& p.rank() < priority.rank() ==> front(queues, priority).unwrap().deadline.nanos
                < front(queues, p).unwrap().deadline.nanos
        }
}

/// What taking out the packet that goes first does to the queues. Where no class that is served has
/// one, nothing is taken.
pub open spec fn took_lead(
    before: PriorityTable<VecDeque<EDFTask>>,
    after: PriorityTable<VecDeque<EDFTask>>,
    taken: Option<EDFTask>,
) -> bool {
    match taken {
        Some(task) => exists|priority: Priority| #[trigger]
            leads(before, priority) && front(before, priority) == Some(task) && after.at(
                priority,
            )@ == before.at(priority)@.drop_first() && forall|p: Priority|
                p != priority ==> #[trigger] after.at(p) == before.at(p),
        None => (forall|p: Priority| (#[trigger] front(before, p)) is None) && after == before,
    }
}

/// Law: the packet that is taken is due no later than the front of any class that is served, by arrival
/// plus budget; it was at the front of its own queue, and all else stays in its order. Where such a
/// front is there, a packet is taken.
pub proof fn law_first_due_is_taken(
    before: PriorityTable<VecDeque<EDFTask>>,
    after: PriorityTable<VecDeque<EDFTask>>,
    taken: Packet,
    q: Priority,
    other: Packet,
)
    requires
        took_lead(before, after, Some(task_of(taken))),
        q != Priority::BestEffort,
        before.at(q)@.len() > 0,
        before.at(q)@[0] == task_of(other),
        taken.timestamp.nanos + taken.latency_budget.nanos <= u64::MAX,
        other.timestamp.nanos + other.latency_budget.nanos <= u64::MAX,
    ensures
        taken.timestamp.nanos + taken.latency_budget.nanos <= other.timestamp.nanos
            + other.latency_budget.nanos,
        exists|p: Priority|
            {
                &&& p != Priority::BestEffort
                &&& (#[trigger] before.at(p))@ == seq![task_of(taken)] + after.at(p)@
                &&& q != p ==> after.at(q) == before.at(q)
            },
        !took_lead(before, after, None),
{
    assert(front(before, q) is Some);
    let p = choose|priority: Priority| #[trigger]
        leads(before, priority) && front(before, priority) == Some(task_of(taken)) && after.at(
            priority,
        )@ == before.at(priority)@.drop_first() && forall|p: Priority|
            p != priority ==> #[trigger] after.at(p) == before.at(p);
    assert(front(before, p) is Some);
    assert(before.at(p)@ =~= seq![task_of(taken)] + after.at(p)@);
}

/// Whether the sockets of a class are to be read.
pub open spec fn wants(queues: PriorityTable<VecDeque<EDFTask>>, priority: Priority) -> bool {
    priority != Priority::BestEffort && queues.at(priority)@.len() == 0
}

/// Law: the sockets of a class are read exactly where the class is served and none of its packets waits;
/// so whatever of it waits goes first.
pub proof fn law_sockets_are_read_when_nothing_waits(
    queues: PriorityTable<VecDeque<EDFTask>>,
    priority: Priority,
)
    ensures
        priority != Priority::BestEffort ==> (wants(queues, priority) <==> front(queues, priority)
            is None),
        !wants(queues, Priority::BestEffort),
        wants(queues, priority) ==> !leads(queues, priority),
{
}

/// Scheduler with a queue for each class, filled from sockets.
pub struct SingleCPUEDFScheduler {
    pub edf_queues: PriorityTable<VecDeque<EDFTask>>,
    /// Latency budgets of the sockets of each class, in the order in which they were registered.
    pub socket_budgets: PriorityTable<Vec<Duration>>,
    pub output_queues: PriorityTable<Sender<Packet>>,
    pub output_drop_counters: PriorityTable<u64>,
}

impl SingleCPUEDFScheduler {
    /// A scheduler in front of the given outputs, without packets or sockets.
    pub fn new(output_queues: PriorityTable<Sender<Packet>>) -> (scheduler: SingleCPUEDFScheduler)
        ensures
            scheduler.output_queues == output_queues,
            forall|p: Priority| (#[trigger] scheduler.edf_queues.at(p))@.len() == 0,
            forall|p: Priority| (#[trigger] scheduler.socket_budgets.at(p))@.len() == 0,
            forall|p: Priority| #[trigger] scheduler.output_drop_counters.at(p) == 0,
    {
        SingleCPUEDFScheduler {
            edf_queues: PriorityTable::of(
                VecDeque::new(),
                VecDeque::new(),
                VecDeque::new(),
                VecDeque::new(),
            ),
            socket_budgets: PriorityTable::of(Vec::new(), Vec::new(), Vec::new(), Vec::new()),
            output_queues,
            output_drop_counters: PriorityTable::of(0, 0, 0, 0),
        }
    }

    /// Registers a socket for a class and gives its number within the class.
    pub fn add_socket(&mut self, priority: Priority, latency_budget: Duration) -> (socket: usize)
        ensures
            socket == old(self).socket_budgets.at(priority)@.len(),
            final(self).socket_budgets.at(priority)@ == old(self).socket_budgets.at(priority)@.push(
                latency_budget,
            ),
            forall|p: Priority|
                p != priority ==> #[trigger] final(self).socket_budgets.at(p) == old(
                    self).socket_budgets.at(p),
            final(self).edf_queues == old(self).edf_queues,
            final(self).output_queues == old(self).output_queues,
            final(self).output_drop_counters == old(self).output_drop_counters,
    {
        let socket: usize = self.socket_budgets.get(priority).len();
        self.socket_budgets.get_mut(priority).push(latency_budget);
        socket
    }

    /// Packets that the scheduler dropped. It holds no packet back for lack of room of its own.
    pub fn get_drop_counts(&self) -> (counts: EDFDropCounters)
        ensures
            counts.heap == 0,
            counts.output == self.output_drop_counters,
    {
        EDFDropCounters { heap: 0, output: copy_counts(&self.output_drop_counters) }
    }

    /// Whether the sockets of a class are to be read: the class is served and its queue is empty.
    pub fn needs_refill(&self, priority: Priority) -> (yes: bool)
        ensures
            yes == (priority != Priority::BestEffort && self.edf_queues.at(priority)@.len() == 0),
            yes == wants(self.edf_queues, priority),
    {
        priority != Priority::BestEffort && self.edf_queues.get(priority).len() == 0
    }

    /// Puts a packet that a socket gave at the end of the queue of a class.
    pub fn refill_edf(&mut self, priority: Priority, packet: Packet)
        ensures
            final(self).edf_queues.at(priority)@ == old(self).edf_queues.at(priority)@.push(
                task_of(packet),
            ),
            forall|p: Priority|
                p != priority ==> #[trigger] final(self).edf_queues.at(p) == old(
                    self).edf_queues.at(p),
            final(self).socket_budgets == old(self).socket_budgets,
            final(self).output_queues == old(self).output_queues,
            final(self).output_drop_counters == old(self).output_drop_counters,
    {
        self.edf_queues.get_mut(priority).push_back(make_task(packet));
    }

    /// The class whose front goes first, if any class has one.
    fn find_leader(&self) -> (found: Option<Priority>)
        ensures
            match found {
                Some(priority) => leads(self.edf_queues, priority),
                None => forall|p: Priority| (#[trigger] front(self.edf_queues, p)) is None,
            },
    {
        let mut found: Option<Priority> = None;
        let mut least: u64 = 0;
        let mut i: usize = 0;
        while i < 3
            invariant
                i <= 3,
                match found {
                    Some(priority) => {
                        &&& priority.rank() < i
                        &&& front(self.edf_queues, priority) is Some
                        &&& least == front(self.edf_queues, priority).unwrap().deadline.nanos
                        &&& forall|p: Priority|
                            p.rank() < i && (#[trigger] front(self.edf_queues, p)) is Some ==> {
                                &&& least <= front(self.edf_queues, p).unwrap().deadline.nanos
                                &&& p.rank() < priority.rank() ==> least < front(
                                    self.edf_queues,
                                    p,
                                ).unwrap().deadline.nanos
                            }
                    },
                    None => forall|p: Priority|
                        p.rank() < i ==> (#[trigger] front(self.edf_queues, p)) is None,
                },
            decreases 3 - i,
        {
            let priority = Priority::from_index(i);
            let queue = self.edf_queues.get(priority);
            if queue.len() > 0 {
                let deadline: u64 = queue[0].deadline.nanos;
                assert(front(self.edf_queues, priority) is Some);
                if found.is_none() || deadline < least {
                    found = Some(priority);
                    least = deadline;
                }
            }
            i = i + 1;
        }
        found
    }

    /// Takes out the packet that goes first. `None` where no class that is served has one.
    pub fn process_next(&mut self) -> (taken: Option<EDFTask>)
        ensures
            match taken {
                Some(task) => exists|priority: Priority| #[trigger]
                    leads(old(self).edf_queues, priority) && front(old(self).edf_queues, priority)
                        == Some(task) && final(self).edf_queues.at(priority)@ == old(
                        self).edf_queues.at(priority)@.drop_first() && forall|p: Priority|
                        p != priority ==> #[trigger] final(self).edf_queues.at(p) == old(
                            self).edf_queues.at(p),
                None => {
                    &&& forall|p: Priority| (#[trigger] front(old(self).edf_queues, p)) is None
                    &&& final(self).edf_queues == old(self).edf_queues
                },
            },
            took_lead(old(self).edf_queues, final(self).edf_queues, taken),
            final(self).socket_budgets == old(self).socket_budgets,
            final(self).output_queues == old(self).output_queues,
            final(self).output_drop_counters == old(self).output_drop_counters,
    {
        match self.find_leader() {
            None => None,
            Some(priority) => {
                let taken = self.edf_queues.get_mut(priority).pop_front();
                assert(leads(old(self).edf_queues, priority));
                assert(front(old(self).edf_queues, priority) is Some);
                assert(self.edf_queues.at(priority)@ =~= old(self).edf_queues.at(
                    priority,
                )@.drop_first());
                taken
            },
        }
    }

    /// Time that the work on a packet takes: 0.1 ms, and up to 0.1 ms more for large payloads.
    pub fn processing_time(packet: &Packet) -> (cost: Duration)
        ensures
            cost == spec_cost(BASE_COST, *packet),
    {
        size_cost(BASE_COST, packet)
    }

    /// Offers a packet that was worked on to the output of its class. A packet that the output does
    /// not take is counted and handed back.
    pub fn forward(&mut self, packet: Packet) -> (rejected: Option<Packet>)
        ensures
            offered(
                packet,
                rejected,
                old(self).output_queues.at(packet.priority),
                final(self).output_queues.at(packet.priority),
                old(self).output_drop_counters.at(packet.priority),
                final(self).output_drop_counters.at(packet.priority),
            ),
            forall|p: Priority|
                p != packet.priority ==> #[trigger] final(self).output_queues.at(p) == old(
                    self).output_queues.at(p),
            forall|p: Priority|
                p != packet.priority ==> #[trigger] final(self).output_drop_counters.at(p) == old(
                    self).output_drop_counters.at(p),
            final(self).edf_queues == old(self).edf_queues,
            final(self).socket_budgets == old(self).socket_budgets,
    {
        let priority = packet.priority;
        send_packet(
            self.output_queues.get_mut(priority),
            self.output_drop_counters.get_mut(priority),
            packet,
        )
    }
}

/// Whether the tasks of a class are in the order of their deadlines.
pub open spec fn by_deadline(queue: Seq<EDFTask>) -> bool {
    forall|i: int, j: int|
        0 <= i <= j < queue.len() ==> (#[trigger] queue[i]).deadline.nanos <= (
        #[trigger] queue[j]).deadline.nanos
}

/// Law: appending keeps a queue in the order of deadlines as long as packets come in the order of
/// their deadlines, and taking the front keeps it in any case. So the front of a class is always
/// the packet of the class that is due first.
pub proof fn law_queues_stay_in_order(queue: Seq<EDFTask>, packet: Packet)
    requires
        by_deadline(queue),
    ensures
        queue.len() == 0 || queue.last().deadline.nanos <= packet.spec_deadline().nanos
            ==> by_deadline(queue.push(task_of(packet))),
        queue.len() > 0 ==> by_deadline(queue.drop_first()),
        forall|i: int|
            0 <= i < queue.len() ==> queue[0].deadline.nanos <= (#[trigger] queue[i]).deadline.nanos,
{
    if queue.len() > 0 {
        let rest = queue.drop_first();
        assert forall|i: int, j: int| 0 <= i <= j < rest.len() implies (
        #[trigger] rest[i]).deadline.nanos <= (#[trigger] rest[j]).deadline.nanos by {
            assert(rest[i] == queue[i + 1] && rest[j] == queue[j + 1]);
        }
    }
}

/// Law: the class whose front goes first has a packet waiting and is not the best-effort class; its
/// front is due no later than the front of any other class that is served, by arrival plus budget,
/// and earlier than those of more critical classes.
pub proof fn law_first_due_leads(
    queues: PriorityTable<VecDeque<EDFTask>>,
    p: Priority,
    first: Packet,
    q: Priority,
    other: Packet,
)
    requires
        leads(queues, p),
        queues.at(p)@[0] == task_of(first),
        q != Priority::BestEffort,
        queues.at(q)@.len() > 0,
        queues.at(q)@[0] == task_of(other),
        first.timestamp.nanos + first.latency_budget.nanos <= u64::MAX,
        other.timestamp.nanos + other.latency_budget.nanos <= u64::MAX,
    ensures
        p != Priority::BestEffort,
        queues.at(p)@.len() > 0,
        first.timestamp.nanos + first.latency_budget.nanos <= other.timestamp.nanos
            + other.latency_budget.nanos,
        q.rank() < p.rank() ==> first.timestamp.nanos + first.latency_budget.nanos
            < other.timestamp.nanos + other.latency_budget.nanos,
{
    assert(front(queues, q) is Some);
}

/// Law: in a queue in order, no packet of a class is due earlier than the one at its front.
pub proof fn law_the_front_is_due_first_of_its_class(
    queues: PriorityTable<VecDeque<EDFTask>>,
    priority: Priority,
    i: int,
)
    requires
        by_deadline(queues.at(priority)@),
        priority != Priority::BestEffort,
        0 <= i < queues.at(priority)@.len(),
    ensures
        front(queues, priority) is Some,
        front(queues, priority).unwrap() == queues.at(priority)@[0],
        front(queues, priority).unwrap().deadline.nanos <= queues.at(priority)@[i].deadline.nanos,
        front(queues, Priority::BestEffort) is None,
{
}

/// Law: nothing is taken only where no class that is served has a packet, and the queues stay then.
pub proof fn law_where_packets_wait_one_is_taken(
    before: PriorityTable<VecDeque<EDFTask>>,
    after: PriorityTable<VecDeque<EDFTask>>,
    priority: Priority,
)
    requires
        took_lead(before, after, None),
        priority != Priority::BestEffort,
    ensures
        before.at(priority)@.len() == 0,
        after == before,
{
    assert(front(before, priority) is None);
}

} // verus!

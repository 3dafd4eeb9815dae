//! One queue that all workers share, ordered by deadline.

use crate::channel;
use crate::channel::got;
use crate::heap::{Entry, MinHeap};
use crate::packet::Packet;
use crate::priority::{Priority, PriorityTable};
use crate::scheduler::edf::{copy_counts, EDFDropCounters};
use crate::scheduler::intake::{
    grown, intake, lemma_intake_starts_empty, lemma_no_more, lemma_one_more,
};
use crate::scheduler::output::{offered, send_packet};
use crate::time::{Duration, Instant};
use crossbeam_channel::{Receiver, Sender};
use vstd::multiset::Multiset;
use vstd::prelude::*;

verus! {

/// A packet waiting for a worker.
pub struct QueuedTask {
    /// What the queue is ordered by.
    pub deadline: Instant,
    pub priority: Priority,
    pub packet: Packet,
}

/// `percent` hundredths of a span, to the nearest nanosecond.
pub open spec fn part_of(span: Duration, percent: int) -> int {
    (span.nanos * percent + 50) / 100
}

/// When a packet is due if only `percent` hundredths of its budget count.
pub open spec fn scaled_deadline(packet: Packet, percent: int) -> Instant {
    packet.timestamp.spec_plus(
        Duration { nanos: part_of(packet.latency_budget, percent) as u64 },
    )
}

/// The task that a packet becomes.
pub open spec fn task_of(scaling: PriorityTable<u64>, priority: Priority, packet: Packet) -> QueuedTask {
    QueuedTask { deadline: scaled_deadline(packet, scaling.at(priority) as int), priority, packet }
}

/// A task as it is queued.
pub open spec fn by_deadline(task: QueuedTask) -> Entry<QueuedTask> {
    Entry { key: task.deadline.nanos as i128, item: task }
}

/// Whether `taken` is a task that is due first among `before`, and `after` is what stays.
pub open spec fn took_earliest(
    before: Multiset<Entry<QueuedTask>>,
    after: Multiset<Entry<QueuedTask>>,
    taken: Option<QueuedTask>,
) -> bool {
    match taken {
        Some(task) => {
            &&& before.count(by_deadline(task)) > 0
            &&& after == before.remove(by_deadline(task))
            &&& forall|e: Entry<QueuedTask>| #[trigger]
                before.count(e) > 0 ==> task.deadline.nanos <= e.key
        },
        None => before.len() == 0 && after == before,
    }
}

/// How packets are queued.
pub open spec fn queueing(scaling: PriorityTable<u64>) -> spec_fn(Priority, Packet) -> Entry<
    QueuedTask,
> {
    |priority: Priority, packet: Packet| by_deadline(task_of(scaling, priority, packet))
}

/// Computes [`scaled_deadline`].
pub fn compute_deadline(packet: &Packet, percent: u64) -> (deadline: Instant)
    requires
        percent <= 100,
    ensures
        deadline == scaled_deadline(*packet, percent as int),
        percent == 100 ==> deadline == packet.spec_deadline(),
{
    let budget: u64 = packet.latency_budget.nanos;
    assert(budget * percent <= budget * 100) by (nonlinear_arith)
        requires
            percent <= 100,
    ;
    assert((budget as u128) * (percent as u128) == budget * percent);
    let part: u128 = ((budget as u128) * (percent as u128) + 50) / 100;
    packet.timestamp.plus(Duration { nanos: part as u64 })
}

/// Tasks waiting for any worker, with the inputs and outputs of the scheduler.
pub struct RunQueue {
    pub input_queues: PriorityTable<Receiver<Packet>>,
    pub output_queues: PriorityTable<Sender<Packet>>,
    pub drop_counters: PriorityTable<u64>,
    pub heap: MinHeap<QueuedTask>,
    /// Hundredths of the budget of each class that count for the order.
    pub scaling: PriorityTable<u64>,
}

impl RunQueue {
    pub open spec fn wf(&self) -> bool {
        &&& self.heap.wf()
        &&& forall|p: Priority| #[trigger] self.scaling.at(p) <= 100
        &&& forall|e: Entry<QueuedTask>| #[trigger]
            self.heap@.count(e) > 0 ==> e == by_deadline(e.item)
    }

    /// An empty queue between the given inputs and outputs.
    pub fn new(
        input_queues: PriorityTable<Receiver<Packet>>,
        output_queues: PriorityTable<Sender<Packet>>,
        scaling: PriorityTable<u64>,
    ) -> (queue: RunQueue)
        requires
            forall|p: Priority| #[trigger] scaling.at(p) <= 100,
        ensures
            queue.wf(),
            queue.input_queues == input_queues,
            queue.output_queues == output_queues,
            queue.scaling == scaling,
            queue.heap@ == Multiset::<Entry<QueuedTask>>::empty(),
            forall|p: Priority| #[trigger] queue.drop_counters.at(p) == 0,
    {
        RunQueue {
            input_queues,
            output_queues,
            drop_counters: PriorityTable::of(0, 0, 0, 0),
            heap: MinHeap::new(),
            scaling,
        }
    }

    /// Queues a packet of class `priority`.
    pub fn accept(&mut self, priority: Priority, packet: Packet)
        requires
            old(self).wf(),
        ensures
            final(self).wf(),
            final(self).heap@ == old(self).heap@.insert(
                by_deadline(task_of(old(self).scaling, priority, packet)),
            ),
            final(self).input_queues == old(self).input_queues,
            final(self).output_queues == old(self).output_queues,
            final(self).drop_counters == old(self).drop_counters,
            final(self).scaling == old(self).scaling,
    {
        broadcast use vstd::multiset::group_multiset_axioms;

        let percent: u64 = *self.scaling.get(priority);
        let deadline = compute_deadline(&packet, percent);
        self.heap.push(deadline.nanos as i128, QueuedTask { deadline, priority, packet });
    }

    /// One pass of the dispatcher: takes in at most one packet of each class, most critical class
    /// first, and queues it. Tells whether there was any.
    pub fn dispatch(&mut self) -> (dispatched: bool)
        requires
            old(self).wf(),
        ensures
            final(self).wf(),
            grown(old(self).input_queues, final(self).input_queues),
            forall|p: Priority|
                channel::asked_once(
                    old(self).input_queues.at(p),
                    #[trigger] final(self).input_queues.at(p),
                ),
            forall|p: Priority| #[trigger]
                got(old(self).input_queues.at(p), final(self).input_queues.at(p)).len() <= 1,
            dispatched == exists|p: Priority|
                (#[trigger] got(old(self).input_queues.at(p), final(self).input_queues.at(p))).len()
                    > 0,
            final(self).heap@ == old(self).heap@.add(
                intake(
                    queueing(old(self).scaling),
                    old(self).input_queues,
                    final(self).input_queues,
                ),
            ),
            dispatched == (intake(
                queueing(old(self).scaling),
                old(self).input_queues,
                final(self).input_queues,
            ).len() > 0),
            final(self).output_queues == old(self).output_queues,
            final(self).drop_counters == old(self).drop_counters,
            final(self).scaling == old(self).scaling,
    {
        broadcast use vstd::multiset::group_multiset_axioms;

        let ghost first = self.input_queues;
        let ghost make = queueing(self.scaling);
        proof {
            lemma_intake_starts_empty(make, first);
            assert(self.heap@.add(Multiset::empty()) =~= self.heap@);
            assert forall|p: Priority| (#[trigger] got(first.at(p), first.at(p))).len() == 0 by {
                channel::lemma_not_asked(first.at(p));
            }
        }
        let mut dispatched: bool = false;
        let mut i: usize = 0;
        while i < 4
            invariant
                i <= 4,
                first == old(self).input_queues,
                make == queueing(old(self).scaling),
                self.wf(),
                grown(first, self.input_queues),
                forall|p: Priority| #[trigger]
                    got(first.at(p), self.input_queues.at(p)).len() <= (if p.rank() < i {
                        1nat
                    } else {
                        0
                    }),
                forall|p: Priority|
                    p.rank() < i ==> channel::asked_once(
                        first.at(p),
                        #[trigger] self.input_queues.at(p),
                    ),
                forall|p: Priority|
                    p.rank() >= i ==> #[trigger] self.input_queues.at(p) == first.at(p),
                dispatched == exists|p: Priority|
                    (#[trigger] got(first.at(p), self.input_queues.at(p))).len() > 0,
                self.heap@ == old(self).heap@.add(intake(make, first, self.input_queues)),
                dispatched == (intake(make, first, self.input_queues).len() > 0),
                self.output_queues == old(self).output_queues,
                self.drop_counters == old(self).drop_counters,
                self.scaling == old(self).scaling,
            decreases 4 - i,
        {
            let priority = Priority::from_index(i);
            let ghost inputs1 = self.input_queues;
            let ghost heap1 = self.heap@;
            let ghost found = dispatched;
            assert(inputs1.at(priority) == first.at(priority));
            assert(got(first.at(priority), inputs1.at(priority)).len() == 0);
            match channel::try_recv(self.input_queues.get_mut(priority), None) {
                Ok(packet) => {
                    proof {
                        lemma_one_more(
                            make,
                            first,
                            inputs1,
                            self.input_queues,
                            priority,
                            packet,
                        );
                    }
                    assert(channel::received(
                        Ok(packet),
                        first.at(priority),
                        self.input_queues.at(priority),
                    ));
                    self.accept(priority, packet);
                    dispatched = true;
                    proof {
                        assert(got(first.at(priority), self.input_queues.at(priority)).len() > 0);
                        assert(self.heap@ =~= old(self).heap@.add(
                            intake(make, first, self.input_queues),
                        ));
                    }
                },
                Err(why) => {
                    proof {
                        assert(channel::received(
                            Err(why),
                            first.at(priority),
                            self.input_queues.at(priority),
                        ));
                        assert forall|p: Priority| channel::taken(
                            #[trigger] self.input_queues.at(p),
                        ) == channel::taken(inputs1.at(p)) by {}
                        lemma_no_more(make, first, inputs1, self.input_queues);
                        assert forall|p: Priority| #[trigger] got(
                            first.at(p),
                            self.input_queues.at(p),
                        ) == got(first.at(p), inputs1.at(p)) by {}
                        if found {
                            let p = choose|p: Priority|
                                (#[trigger] got(first.at(p), inputs1.at(p))).len() > 0;
                            assert(got(first.at(p), self.input_queues.at(p)).len() > 0);
                        }
                    }
                },
            }
            assert forall|p: Priority| p.rank() < i + 1 implies channel::asked_once(
                first.at(p),
                #[trigger] self.input_queues.at(p),
            ) by {
                if p != priority {
                    assert(self.input_queues.at(p) == inputs1.at(p));
                }
            }
            assert forall|p: Priority| p.rank() >= i + 1 implies #[trigger] self.input_queues.at(p)
                == first.at(p) by {
                assert(self.input_queues.at(p) == inputs1.at(p));
            }
            assert forall|p: Priority| #[trigger] got(
                first.at(p),
                self.input_queues.at(p),
            ).len() <= (if p.rank() < i + 1 {
                1nat
            } else {
                0
            }) by {
                assert(got(first.at(p), inputs1.at(p)).len() <= (if p.rank() < i {
                    1nat
                } else {
                    0
                }));
                if p != priority {
                    assert(channel::taken(self.input_queues.at(p)) == channel::taken(
                        inputs1.at(p),
                    ));
                }
            }
            i = i + 1;
        }
        dispatched
    }

    /// Takes out a task that is due first.
    pub fn pop(&mut self) -> (taken: Option<QueuedTask>)
        requires
            old(self).wf(),
        ensures
            final(self).wf(),
            match taken {
                Some(task) => {
                    &&& old(self).heap@.count(by_deadline(task)) > 0
                    &&& final(self).heap@ == old(self).heap@.remove(by_deadline(task))
                    &&& forall|e: Entry<QueuedTask>|
                        #[trigger] old(self).heap@.count(e) > 0 ==> task.deadline.nanos <= e.key
                },
                None => old(self).heap@.len() == 0 && final(self).heap@ == old(self).heap@,
            },
            took_earliest(old(self).heap@, final(self).heap@, taken),
            final(self).input_queues == old(self).input_queues,
            final(self).output_queues == old(self).output_queues,
            final(self).drop_counters == old(self).drop_counters,
            final(self).scaling == old(self).scaling,
    {
        broadcast use vstd::multiset::group_multiset_axioms;

        match self.heap.pop() {
            Some(entry) => {
                assert(entry == by_deadline(entry.item));
                Some(entry.item)
            },
            None => None,
        }
    }

    /// Offers a packet that was worked on to the output of its class. A packet that the output does
    /// not take is counted and handed back.
    pub fn finish(&mut self, task: QueuedTask) -> (rejected: Option<Packet>)
        requires
            old(self).wf(),
        ensures
            final(self).wf(),
            offered(
                task.packet,
                rejected,
                old(self).output_queues.at(task.priority),
                final(self).output_queues.at(task.priority),
                old(self).drop_counters.at(task.priority),
                final(self).drop_counters.at(task.priority),
            ),
            forall|p: Priority|
                p != task.priority ==> #[trigger] final(self).output_queues.at(p) == old(
                    self).output_queues.at(p),
            forall|p: Priority|
                p != task.priority ==> #[trigger] final(self).drop_counters.at(p) == old(
                    self).drop_counters.at(p),
            final(self).input_queues == old(self).input_queues,
            final(self).heap == old(self).heap,
            final(self).scaling == old(self).scaling,
    {
        send_packet(
            self.output_queues.get_mut(task.priority),
            self.drop_counters.get_mut(task.priority),
            task.packet,
        )
    }

    /// Packets that the scheduler dropped. It holds no packet back for lack of room of its own.
    pub fn get_drop_counts(&self) -> (counts: EDFDropCounters)
        ensures
            counts.heap == 0,
            counts.output == self.drop_counters,
    {
        EDFDropCounters { heap: 0, output: copy_counts(&self.drop_counters) }
    }
}

/// Law: a packet is queued by its arrival plus the hundredths of its budget that count for its class,
/// to the nearest nanosecond. The task keeps packet and class.
pub proof fn law_hundredths_of_the_budget_count(
    scaling: PriorityTable<u64>,
    priority: Priority,
    packet: Packet,
)
    requires
        scaling.at(priority) <= 100,
        packet.timestamp.nanos + packet.latency_budget.nanos <= u64::MAX,
    ensures
        ({
            let task = task_of(scaling, priority, packet);
            let part = task.deadline.nanos - packet.timestamp.nanos;
            &&& -50 <= packet.latency_budget.nanos * scaling.at(priority) - 100 * part < 50
            &&& 0 <= part <= packet.latency_budget.nanos
            &&& task.packet == packet
            &&& task.priority == priority
            &&& by_deadline(task).key == task.deadline.nanos
            &&& by_deadline(task).item == task
            &&& queueing(scaling)(priority, packet) == by_deadline(task)
        }),
{
    let b = packet.latency_budget.nanos as int;
    let s = scaling.at(priority) as int;
    assert(0 <= b * s <= b * 100) by (nonlinear_arith)
        requires
            0 <= b,
            0 <= s <= 100,
    ;
}

/// Law: the task that a worker takes is due no later than any other in the queue, by arrival plus the
/// part of the budget that counts, but for rounding. It leaves the queue, and nothing else does; where
/// there is a task, one is taken.
pub proof fn law_what_is_due_first_is_taken(
    before: Multiset<Entry<QueuedTask>>,
    after: Multiset<Entry<QueuedTask>>,
    scaling: PriorityTable<u64>,
    p: Priority,
    taken: Packet,
    q: Priority,
    other: Packet,
)
    requires
        took_earliest(before, after, Some(task_of(scaling, p, taken))),
        before.count(by_deadline(task_of(scaling, q, other))) > 0,
        scaling.at(p) <= 100,
        scaling.at(q) <= 100,
        taken.timestamp.nanos + taken.latency_budget.nanos <= u64::MAX,
        other.timestamp.nanos + other.latency_budget.nanos <= u64::MAX,
    ensures
        100 * taken.timestamp.nanos + taken.latency_budget.nanos * scaling.at(p) < 100
            * other.timestamp.nanos + other.latency_budget.nanos * scaling.at(q) + 101,
        after.insert(by_deadline(task_of(scaling, p, taken))) == before,
        !took_earliest(before, after, None),
{
    broadcast use vstd::multiset::group_multiset_axioms;

    law_hundredths_of_the_budget_count(scaling, p, taken);
    law_hundredths_of_the_budget_count(scaling, q, other);
    assert(before.count(by_deadline(task_of(scaling, q, other))) > 0);
    assert(after.insert(by_deadline(task_of(scaling, p, taken))) =~= before);
    if before.len() == 0 {
        assert(before.count(by_deadline(task_of(scaling, q, other))) <= before.len());
    }
}

/// Law: no task is taken only where there is none.
pub proof fn law_where_tasks_wait_one_is_taken(
    before: Multiset<Entry<QueuedTask>>,
    after: Multiset<Entry<QueuedTask>>,
)
    requires
        took_earliest(before, after, None),
    ensures
        before.len() == 0,
        after == before,
{
}

} // verus!

//! Earliest-deadline-first scheduler with three workers.
//!
//! Every worker has a queue of its own and takes the classes assigned to it, as far as its quotas
//! allow. Packets of one class leave in the order in which work on them was taken up, whichever
//! worker did it.

use crate::channel;
use crate::channel::{got, RecvFailure};
use crate::heap::Entry;
use crate::math::{max_of, min_of};
use crate::packet::Packet;
use crate::priority::{Priority, PriorityTable};
use crate::scheduler::adaptive::{
    guard_micros, handles, least_total, planned_guard, planned_limit, safe_backlog, smoothed,
    target_depth, wait_limit, worker_handles, AdaptiveController, GUARD_MAX_US, WORKER_COUNT,
};
use crate::scheduler::completion::{splits, CompletionRouter, WorkItem};
use crate::scheduler::cost::{size_cost, spec_cost};
use crate::scheduler::edf::EDFDropCounters;
use crate::scheduler::output::advanced;
use crate::scheduler::sequence::{progressed, released, Progress, SequenceTracker};
use crate::scheduler::worker_queue::{
    count_of, law_work_counts_for_its_class, lemma_count_add, lemma_count_insert, queued,
    WorkerQueue,
};
use crate::time::{clamp_u64, Duration, Instant, NANOS_PER_MICRO};
use crossbeam_channel::{Receiver, Sender};
use vstd::multiset::Multiset;
use vstd::prelude::*;

verus! {

/// Time that the smallest packets take, in nanoseconds.
pub const BASE_COST: u64 = 50_000;

/// Time that the work on a packet takes: 0.05 ms, and up to 0.1 ms more for large payloads.
pub fn processing_duration(packet: &Packet) -> (cost: Duration)
    ensures
        cost == spec_cost(BASE_COST, *packet),
{
    size_cost(BASE_COST, packet)
}

/// Packets of one class as they are queued when their numbers start at `first`.
pub open spec fn admitted(priority: Priority, first: u64, packets: Seq<Packet>) -> Seq<
    Entry<WorkItem>,
> {
    Seq::new(
        packets.len(),
        |i: int|
            queued(WorkItem { priority, sequence: advanced(first, i as nat), packet: packets[i] }),
    )
}

/// The work that the packets taken from one input amount to.
pub open spec fn gain(
    priority: Priority,
    first: u64,
    before: Receiver<Packet>,
    after: Receiver<Packet>,
) -> Multiset<Entry<WorkItem>> {
    admitted(priority, first, got(before, after)).to_multiset()
}

/// The work that the packets taken from the inputs of the `count` most critical classes amount to.
pub open spec fn gains(
    count: int,
    trackers: PriorityTable<SequenceTracker>,
    before: PriorityTable<Receiver<Packet>>,
    after: PriorityTable<Receiver<Packet>>,
) -> Multiset<Entry<WorkItem>>
    decreases count,
{
    if count <= 0 {
        Multiset::empty()
    } else {
        let p = Priority::of_rank(count - 1);
        gains(count - 1, trackers, before, after).add(
            gain(p, trackers.at(p).upcoming(), before.at(p), after.at(p)),
        )
    }
}

/// What taking packets of one class does to its input and to its numbering: the record of the
/// input grows, and the numbering moves on by as many.
pub open spec fn numbered(
    before: Receiver<Packet>,
    after: Receiver<Packet>,
    tracker_before: SequenceTracker,
    tracker_after: SequenceTracker,
) -> bool {
    &&& channel::taken(before).is_prefix_of(channel::taken(after))
    &&& tracker_after.upcoming() == advanced(tracker_before.upcoming(), got(before, after).len())
    &&& tracker_after.progress() == tracker_before.progress()
}

/// Whether a class keeps to its quota while packets are taken in: work that was there already may
/// exceed it, but none is added beyond it.
pub open spec fn within_quota(
    before: Multiset<Entry<WorkItem>>,
    after: Multiset<Entry<WorkItem>>,
    priority: Priority,
    limit: int,
) -> bool {
    count_of(after, priority) <= max_of(count_of(before, priority) as int, limit)
}

/// Whether packets of a class were taken in for as long as they came and the quotas allowed it:
/// until the input gave none, or until the quota of the class or the total is used up by `queue`.
pub open spec fn filled(
    before: Receiver<Packet>,
    after: Receiver<Packet>,
    queue: Multiset<Entry<WorkItem>>,
    priority: Priority,
    limit: int,
    total: int,
) -> bool {
    ||| channel::drained(before, after)
    ||| channel::always_gave(before, after) && (count_of(queue, priority) >= limit || queue.len()
        >= total)
}

/// How a worker looks for packets of the most critical class while it chooses from `choice`: it
/// takes them in, and once more when it has made its choice and `rest` is what stays. The second
/// look is left out where there is no work, and where work of the medium class is chosen while some
/// of the most critical class waits.
pub open spec fn asked_for_high(
    before: Receiver<Packet>,
    after: Receiver<Packet>,
    choice: Multiset<Entry<WorkItem>>,
    rest: Multiset<Entry<WorkItem>>,
    chosen: Option<WorkItem>,
    limit: int,
    total: int,
) -> bool {
    ||| {
        &&& chosen matches Some(item) ==> item.priority == Priority::Medium && count_of(
            rest,
            Priority::High,
        ) > 0
        &&& filled(before, after, choice, Priority::High, limit, total)
    }
    ||| {
        &&& chosen is Some
        &&& exists|middle: Receiver<Packet>| #[trigger]
            filled(before, middle, choice, Priority::High, limit, total) && filled(
                middle,
                after,
                rest,
                Priority::High,
                limit,
                total,
            )
    }
}

proof fn lemma_gains_local(
    count: int,
    trackers: PriorityTable<SequenceTracker>,
    before: PriorityTable<Receiver<Packet>>,
    after: PriorityTable<Receiver<Packet>>,
    other: PriorityTable<Receiver<Packet>>,
)
    requires
        count <= 4,
        forall|p: Priority| p.rank() < count ==> #[trigger] other.at(p) == after.at(p),
    ensures
        gains(count, trackers, before, after) == gains(count, trackers, before, other),
    decreases count,
{
    if count > 0 {
        lemma_gains_local(count - 1, trackers, before, after, other);
        assert(other.at(Priority::of_rank(count - 1)) == after.at(Priority::of_rank(count - 1)));
    }
}

proof fn lemma_nothing_got(rx: Receiver<Packet>, priority: Priority, first: u64)
    ensures
        got(rx, rx) == Seq::<Packet>::empty(),
        gain(priority, first, rx, rx) == Multiset::<Entry<WorkItem>>::empty(),
        advanced(first, 0) == first,
{
    broadcast use vstd::multiset::group_multiset_axioms;

    assert(got(rx, rx) =~= Seq::<Packet>::empty());
    let s = admitted(priority, first, got(rx, rx));
    vstd::seq_lib::to_multiset_len(s);
    assert(s.to_multiset() =~= Multiset::<Entry<WorkItem>>::empty());
}

proof fn lemma_one_more(
    priority: Priority,
    first: u64,
    before: Receiver<Packet>,
    middle: Receiver<Packet>,
    after: Receiver<Packet>,
    packet: Packet,
)
    requires
        channel::taken(before).is_prefix_of(channel::taken(middle)),
        channel::taken(after) == channel::taken(middle).push(packet),
    ensures
        channel::taken(before).is_prefix_of(channel::taken(after)),
        got(before, after) == got(before, middle).push(packet),
        gain(priority, first, before, after) == gain(priority, first, before, middle).insert(
            queued(
                WorkItem {
                    priority,
                    sequence: advanced(first, got(before, middle).len()),
                    packet,
                },
            ),
        ),
        advanced(advanced(first, got(before, middle).len()), 1) == advanced(
            first,
            got(before, after).len(),
        ),
{
    assert(got(before, after) =~= got(before, middle).push(packet));
    let e = queued(
        WorkItem { priority, sequence: advanced(first, got(before, middle).len()), packet },
    );
    let s = admitted(priority, first, got(before, middle));
    assert(admitted(priority, first, got(before, after)) =~= s.push(e));
    vstd::seq_lib::to_multiset_build(s, e);
}

/// How a look for a more critical packet went while another one waits to be worked on.
#[derive(Clone, Copy, Debug, PartialEq, Eq, Structural)]
pub enum GuardState {
    /// The quotas left no room, so there was no look.
    Blocked,
    /// No packet was there.
    Quiet,
    /// No packet was there and none will come.
    Closed,
    /// A packet was there and takes the place of the waiting one.
    Preempted,
}

/// What a look comes to that met no packet.
pub fn state_without(why: RecvFailure) -> (state: GuardState)
    ensures
        state == (match why {
            RecvFailure::Empty => GuardState::Quiet,
            RecvFailure::Disconnected => GuardState::Closed,
        }),
{
    match why {
        RecvFailure::Empty => GuardState::Quiet,
        RecvFailure::Disconnected => GuardState::Closed,
    }
}

/// Result of a look for a more critical packet, with the work to go on with.
pub struct GuardOutcome {
    pub state: GuardState,
    pub item: WorkItem,
}

/// Whether the input of the most critical class was asked once and the outcome is what that gave,
/// or nothing was asked because the quotas left no room.
pub open spec fn looked_once(
    before: Receiver<Packet>,
    after: Receiver<Packet>,
    outcome: GuardOutcome,
) -> bool {
    match outcome.state {
        GuardState::Blocked => after == before,
        GuardState::Quiet => channel::received(Err(RecvFailure::Empty), before, after),
        GuardState::Closed => channel::received(Err(RecvFailure::Disconnected), before, after),
        GuardState::Preempted => channel::received(Ok(outcome.item.packet), before, after),
    }
}

/// The work that a worker has to choose from once it has taken packets in.
pub open spec fn choice(
    before: Worker,
    after: Worker,
    trackers: PriorityTable<SequenceTracker>,
) -> Multiset<Entry<WorkItem>> {
    before.queue@.add(gains(4, trackers, before.inputs, after.inputs))
}

/// Whether `chosen` is something that is due first among `choice`, and `rest` is what stays.
pub open spec fn took_first(
    choice: Multiset<Entry<WorkItem>>,
    rest: Multiset<Entry<WorkItem>>,
    chosen: Option<WorkItem>,
) -> bool {
    match chosen {
        Some(item) => {
            &&& choice.count(queued(item)) > 0
            &&& rest == choice.remove(queued(item))
            &&& forall|e: Entry<WorkItem>|
                #[trigger] choice.count(e) > 0 ==> item.spec_deadline().nanos <= e.key
        },
        None => choice.len() == 0 && rest == choice,
    }
}

/// One worker: its queue, its handles to the inputs, and the queue length that it last reported.
pub struct Worker {
    pub queue: WorkerQueue,
    pub inputs: PriorityTable<Receiver<Packet>>,
    pub backlog: usize,
}

impl Worker {
    pub open spec fn wf(&self) -> bool {
        self.queue.wf()
    }

    /// Queues a packet of class `priority` under the next number of the class.
    pub fn accept(&mut self, priority: Priority, tracker: &mut SequenceTracker, packet: Packet)
        requires
            old(self).wf(),
        ensures
            final(self).wf(),
            final(self).inputs == old(self).inputs,
            final(self).backlog == old(self).backlog,
            final(self).queue@ == old(self).queue@.insert(
                queued(WorkItem { priority, sequence: old(tracker).upcoming(), packet }),
            ),
            final(tracker).upcoming() == advanced(old(tracker).upcoming(), 1),
            final(tracker).progress() == old(tracker).progress(),
    {
        let sequence: u64 = tracker.assign_sequence();
        self.queue.push(WorkItem { priority, sequence, packet });
    }

    /// Takes packets of one class in until its quota or the total is used up, or no packet is
    /// there.
    pub fn drain_class(
        &mut self,
        priority: Priority,
        tracker: &mut SequenceTracker,
        limit: usize,
        total_limit: usize,
    )
        requires
            old(self).wf(),
        ensures
            final(self).wf(),
            final(self).backlog == old(self).backlog,
            numbered(
                old(self).inputs.at(priority),
                final(self).inputs.at(priority),
                *old(tracker),
                *final(tracker),
            ),
            final(self).queue@ == old(self).queue@.add(
                gain(
                    priority,
                    old(tracker).upcoming(),
                    old(self).inputs.at(priority),
                    final(self).inputs.at(priority),
                ),
            ),
            forall|p: Priority|
                p != priority ==> #[trigger] final(self).inputs.at(p) == old(self).inputs.at(p),
            final(self).queue@.len() <= (if old(self).queue@.len() >= total_limit {
                old(self).queue@.len()
            } else {
                total_limit as nat
            }),
            within_quota(old(self).queue@, final(self).queue@, priority, limit as int),
            filled(
                old(self).inputs.at(priority),
                final(self).inputs.at(priority),
                final(self).queue@,
                priority,
                limit as int,
                total_limit as int,
            ),
            forall|p: Priority|
                p != priority ==> #[trigger] count_of(final(self).queue@, p) == count_of(
                    old(self).queue@,
                    p,
                ),
    {
        broadcast use vstd::multiset::group_multiset_axioms;

        let ghost first = tracker.upcoming();
        let ghost rx0 = self.inputs.at(priority);
        proof {
            lemma_nothing_got(rx0, priority, first);
            channel::lemma_not_asked(rx0);
            assert(self.queue@.add(Multiset::empty()) =~= self.queue@);
        }
        let mut more: bool = true;
        while more && self.queue.count(priority) < limit && self.queue.len() < total_limit
            invariant
                self.wf(),
                first == old(tracker).upcoming(),
                rx0 == old(self).inputs.at(priority),
                self.backlog == old(self).backlog,
                numbered(rx0, self.inputs.at(priority), *old(tracker), *tracker),
                more ==> channel::always_gave(rx0, self.inputs.at(priority)),
                !more ==> channel::drained(rx0, self.inputs.at(priority)),
                self.queue@ == old(self).queue@.add(
                    gain(priority, first, rx0, self.inputs.at(priority)),
                ),
                forall|p: Priority|
                    p != priority ==> #[trigger] self.inputs.at(p) == old(self).inputs.at(p),
                self.queue@.len() <= old(self).queue@.len() || self.queue@.len() <= total_limit,
                within_quota(old(self).queue@, self.queue@, priority, limit as int),
                forall|p: Priority|
                    p != priority ==> #[trigger] count_of(self.queue@, p) == count_of(
                        old(self).queue@,
                        p,
                    ),
            decreases (if more { 1int } else { 0 }), limit - count_of(self.queue@, priority),
        {
            let ghost rx1 = self.inputs.at(priority);
            let ghost queue1 = self.queue@;
            match channel::try_recv(self.inputs.get_mut(priority), None) {
                Ok(packet) => {
                    let ghost item = WorkItem { priority, sequence: tracker.upcoming(), packet };
                    proof {
                        lemma_one_more(
                            priority,
                            first,
                            rx0,
                            rx1,
                            self.inputs.at(priority),
                            packet,
                        );
                        channel::lemma_gave_one_more(
                            rx0,
                            rx1,
                            self.inputs.at(priority),
                            packet,
                        );
                    }
                    self.accept(priority, tracker, packet);
                    proof {
                        assert(self.queue@ == queue1.insert(queued(item)));
                        lemma_count_insert(queue1, queued(item), priority);
                        assert forall|p: Priority| p != priority implies #[trigger] count_of(
                            self.queue@,
                            p,
                        ) == count_of(old(self).queue@, p) by {
                            lemma_count_insert(queue1, queued(item), p);
                        }
                    }
                    assert(self.queue@ =~= old(self).queue@.add(
                        gain(priority, first, rx0, self.inputs.at(priority)),
                    ));
                },
                Err(why) => {
                    more = false;
                    proof {
                        channel::lemma_gave_no_more(rx0, rx1, self.inputs.at(priority), why);
                    }
                },
            }
        }
    }

    /// Takes packets of all classes that this worker handles in, most critical class first, as far
    /// as the quotas allow, and reports the length of the queue.
    pub fn drain(
        &mut self,
        worker: usize,
        trackers: &mut PriorityTable<SequenceTracker>,
        limits: &PriorityTable<usize>,
        total_limit: usize,
    )
        requires
            old(self).wf(),
        ensures
            final(self).wf(),
            forall|p: Priority|
                numbered(
                    old(self).inputs.at(p),
                    #[trigger] final(self).inputs.at(p),
                    old(trackers).at(p),
                    final(trackers).at(p),
                ),
            forall|p: Priority|
                !handles(worker as int, p) ==> #[trigger] final(self).inputs.at(p) == old(
                    self).inputs.at(p),
            forall|p: Priority|
                !handles(worker as int, p) ==> #[trigger] final(trackers).at(p) == old(
                    trackers).at(p),
            final(self).queue@ == old(self).queue@.add(
                gains(4, *old(trackers), old(self).inputs, final(self).inputs),
            ),
            final(self).queue@.len() <= (if old(self).queue@.len() >= total_limit {
                old(self).queue@.len()
            } else {
                total_limit as nat
            }),
            forall|p: Priority|
                within_quota(
                    old(self).queue@,
                    final(self).queue@,
                    p,
                    #[trigger] limits.at(p) as int,
                ),
            forall|p: Priority|
                handles(worker as int, p) ==> filled(
                    old(self).inputs.at(p),
                    #[trigger] final(self).inputs.at(p),
                    final(self).queue@,
                    p,
                    limits.at(p) as int,
                    total_limit as int,
                ),
            final(self).backlog == final(self).queue@.len(),
    {
        broadcast use vstd::multiset::group_multiset_axioms;

        proof {
            assert(self.queue@.add(Multiset::empty()) =~= self.queue@);
            assert forall|p: Priority| numbered(
                self.inputs.at(p),
                #[trigger] self.inputs.at(p),
                trackers.at(p),
                trackers.at(p),
            ) by {
                lemma_nothing_got(self.inputs.at(p), p, trackers.at(p).upcoming());
            }
        }
        let mut i: usize = 0;
        while i < 4
            invariant
                i <= 4,
                self.wf(),
                forall|p: Priority|
                    numbered(
                        old(self).inputs.at(p),
                        #[trigger] self.inputs.at(p),
                        old(trackers).at(p),
                        trackers.at(p),
                    ),
                forall|p: Priority|
                    p.rank() >= i || !handles(worker as int, p) ==> #[trigger] self.inputs.at(p)
                        == old(self).inputs.at(p),
                forall|p: Priority|
                    p.rank() >= i || !handles(worker as int, p) ==> #[trigger] trackers.at(p)
                        == old(trackers).at(p),
                forall|p: Priority|
                    p.rank() < i && handles(worker as int, p) ==> filled(
                        old(self).inputs.at(p),
                        #[trigger] self.inputs.at(p),
                        self.queue@,
                        p,
                        limits.at(p) as int,
                        total_limit as int,
                    ),
                self.queue@ == old(self).queue@.add(
                    gains(i as int, *old(trackers), old(self).inputs, self.inputs),
                ),
                self.queue@.len() <= old(self).queue@.len() || self.queue@.len() <= total_limit,
                forall|p: Priority|
                    within_quota(
                        old(self).queue@,
                        self.queue@,
                        p,
                        #[trigger] limits.at(p) as int,
                    ),
                forall|p: Priority|
                    p.rank() >= i ==> #[trigger] count_of(self.queue@, p) == count_of(
                        old(self).queue@,
                        p,
                    ),
            decreases 4 - i,
        {
            let priority = Priority::from_index(i);
            let ghost inputs1 = self.inputs;
            let ghost queue1 = self.queue@;
            let ghost trackers1 = *trackers;
            assert(self.inputs.at(priority) == old(self).inputs.at(priority));
            assert(count_of(queue1, priority) == count_of(old(self).queue@, priority));
            if worker_handles(worker, priority) {
                self.drain_class(
                    priority,
                    trackers.get_mut(priority),
                    *limits.get(priority),
                    total_limit,
                );
            } else {
                proof {
                    lemma_nothing_got(
                        self.inputs.at(priority),
                        priority,
                        trackers.at(priority).upcoming(),
                    );
                    assert(self.queue@ =~= queue1.add(Multiset::empty()));
                }
            }
            proof {
                lemma_gains_local(
                    i as int,
                    *old(trackers),
                    old(self).inputs,
                    inputs1,
                    self.inputs,
                );
                assert(self.queue@ =~= old(self).queue@.add(
                    gains(i + 1, *old(trackers), old(self).inputs, self.inputs),
                ));
                assert forall|p: Priority| numbered(
                    old(self).inputs.at(p),
                    #[trigger] self.inputs.at(p),
                    old(trackers).at(p),
                    trackers.at(p),
                ) by {
                    if p != priority {
                        assert(self.inputs.at(p) == inputs1.at(p));
                    }
                }
                assert forall|p: Priority| p.rank() >= i + 1 || !handles(
                    worker as int,
                    p,
                ) implies #[trigger] self.inputs.at(p) == old(self).inputs.at(p) by {
                    if p != priority {
                        assert(self.inputs.at(p) == inputs1.at(p));
                    }
                }
                assert forall|p: Priority| p.rank() >= i + 1 || !handles(
                    worker as int,
                    p,
                ) implies #[trigger] trackers.at(p) == old(trackers).at(p) by {
                    if p != priority {
                        assert(trackers.at(p) == trackers1.at(p));
                    }
                }
                assert forall|p: Priority| within_quota(
                    old(self).queue@,
                    self.queue@,
                    p,
                    #[trigger] limits.at(p) as int,
                ) by {
                    if p != priority {
                        assert(count_of(self.queue@, p) == count_of(queue1, p));
                    }
                }
                assert(queue1.len() <= self.queue@.len());
                assert forall|p: Priority| p.rank() < i + 1 && handles(
                    worker as int,
                    p,
                ) implies filled(
                    old(self).inputs.at(p),
                    #[trigger] self.inputs.at(p),
                    self.queue@,
                    p,
                    limits.at(p) as int,
                    total_limit as int,
                ) by {
                    if p != priority {
                        assert(self.inputs.at(p) == inputs1.at(p));
                        assert(count_of(self.queue@, p) == count_of(queue1, p));
                    }
                }
            }
            i = i + 1;
        }
        self.backlog = self.queue.len();
    }

    /// What setting newly arrived work against scheduled work does: the one that is due first goes
    /// ahead, the scheduled one where both are due at once, and the other one is queued.
    pub open spec fn weighed(
        self,
        before: Worker,
        scheduled: WorkItem,
        arrival: WorkItem,
        ahead: WorkItem,
    ) -> bool {
        if arrival.spec_deadline().nanos < scheduled.spec_deadline().nanos {
            ahead == arrival && self.queue@ == before.queue@.insert(queued(scheduled))
        } else {
            ahead == scheduled && self.queue@ == before.queue@.insert(queued(arrival))
        }
    }

    /// Sets a newly arrived piece of work against the one that is about to be worked on: the one
    /// that is due first goes ahead, the other one is queued. In a tie the scheduled one goes ahead.
    pub fn weigh(&mut self, scheduled: WorkItem, arrival: WorkItem) -> (ahead: WorkItem)
        requires
            old(self).wf(),
        ensures
            final(self).wf(),
            final(self).inputs == old(self).inputs,
            final(self).backlog == old(self).backlog,
            if arrival.spec_deadline().nanos < scheduled.spec_deadline().nanos {
                ahead == arrival && final(self).queue@ == old(self).queue@.insert(queued(scheduled))
            } else {
                ahead == scheduled && final(self).queue@ == old(self).queue@.insert(queued(arrival))
            },
            final(self).weighed(*old(self), scheduled, arrival, ahead),
    {
        if arrival.deadline().nanos < scheduled.deadline().nanos {
            self.queue.push(scheduled);
            arrival
        } else {
            self.queue.push(arrival);
            scheduled
        }
    }

    /// Looks for packets of the most critical class just before work on `scheduled` starts. As long
    /// as the quotas allow it, each packet that is there is set against the scheduled work.
    pub fn preempt(
        &mut self,
        scheduled: WorkItem,
        tracker: &mut SequenceTracker,
        high_limit: usize,
        total_limit: usize,
    ) -> (ahead: WorkItem)
        requires
            old(self).wf(),
        ensures
            final(self).wf(),
            final(self).backlog == old(self).backlog,
            numbered(
                old(self).inputs.at(Priority::High),
                final(self).inputs.at(Priority::High),
                *old(tracker),
                *final(tracker),
            ),
            forall|p: Priority|
                p != Priority::High ==> #[trigger] final(self).inputs.at(p) == old(self).inputs.at(
                    p,
                ),
            final(self).queue@.insert(queued(ahead)) == old(self).queue@.insert(
                queued(scheduled),
            ).add(
                gain(
                    Priority::High,
                    old(tracker).upcoming(),
                    old(self).inputs.at(Priority::High),
                    final(self).inputs.at(Priority::High),
                ),
            ),
            ahead.spec_deadline().nanos <= scheduled.spec_deadline().nanos,
            forall|e: Entry<WorkItem>| #[trigger]
                gain(
                    Priority::High,
                    old(tracker).upcoming(),
                    old(self).inputs.at(Priority::High),
                    final(self).inputs.at(Priority::High),
                ).count(e) > 0 ==> ahead.spec_deadline().nanos <= e.key,
            ahead == scheduled || ahead.priority == Priority::High,
            final(self).queue@.len() <= (if old(self).queue@.len() >= total_limit {
                old(self).queue@.len()
            } else {
                total_limit as nat
            }),
            within_quota(old(self).queue@, final(self).queue@, Priority::High, high_limit as int),
            filled(
                old(self).inputs.at(Priority::High),
                final(self).inputs.at(Priority::High),
                final(self).queue@,
                Priority::High,
                high_limit as int,
                total_limit as int,
            ),
            forall|p: Priority|
                p != Priority::High ==> #[trigger] count_of(final(self).queue@, p) <= count_of(
                    old(self).queue@.insert(queued(scheduled)),
                    p,
                ),
    {
        broadcast use vstd::multiset::group_multiset_axioms;

        let ghost first = tracker.upcoming();
        let ghost rx0 = self.inputs.at(Priority::High);
        let ghost start = self.queue@.insert(queued(scheduled));
        proof {
            lemma_nothing_got(rx0, Priority::High, first);
            channel::lemma_not_asked(rx0);
            assert(start.add(Multiset::empty()) =~= start);
            assert forall|p: Priority| p != Priority::High implies #[trigger] count_of(
                self.queue@,
                p,
            ) + (if scheduled.priority == p {
                1int
            } else {
                0
            }) == count_of(start, p) by {
                lemma_count_insert(self.queue@, queued(scheduled), p);
            }
        }
        let mut ahead = scheduled;
        let mut more: bool = true;
        while more && self.queue.count(Priority::High) < high_limit && self.queue.len()
            < total_limit
            invariant
                self.wf(),
                first == old(tracker).upcoming(),
                rx0 == old(self).inputs.at(Priority::High),
                start == old(self).queue@.insert(queued(scheduled)),
                self.backlog == old(self).backlog,
                numbered(rx0, self.inputs.at(Priority::High), *old(tracker), *tracker),
                more ==> channel::always_gave(rx0, self.inputs.at(Priority::High)),
                !more ==> channel::drained(rx0, self.inputs.at(Priority::High)),
                forall|p: Priority|
                    p != Priority::High ==> #[trigger] self.inputs.at(p) == old(self).inputs.at(p),
                self.queue@.insert(queued(ahead)) == start.add(
                    gain(Priority::High, first, rx0, self.inputs.at(Priority::High)),
                ),
                ahead.spec_deadline().nanos <= scheduled.spec_deadline().nanos,
                forall|e: Entry<WorkItem>| #[trigger]
                    gain(Priority::High, first, rx0, self.inputs.at(Priority::High)).count(e) > 0
                        ==> ahead.spec_deadline().nanos <= e.key,
                ahead == scheduled || ahead.priority == Priority::High,
                self.queue@.len() <= old(self).queue@.len() || self.queue@.len() <= total_limit,
                within_quota(old(self).queue@, self.queue@, Priority::High, high_limit as int),
                forall|p: Priority|
                    p != Priority::High ==> #[trigger] count_of(self.queue@, p) + (
                    if ahead.priority == p {
                        1int
                    } else {
                        0
                    }) == count_of(start, p),
            decreases (if more { 1int } else { 0 }), total_limit - self.queue@.len(),
        {
            let ghost rx1 = self.inputs.at(Priority::High);
            let ghost queue1 = self.queue@;
            let ghost ahead1 = ahead;
            match channel::try_recv(self.inputs.get_mut(Priority::High), None) {
                Ok(packet) => {
                    let sequence: u64 = tracker.assign_sequence();
                    let arrival = WorkItem { priority: Priority::High, sequence, packet };
                    proof {
                        lemma_one_more(
                            Priority::High,
                            first,
                            rx0,
                            rx1,
                            self.inputs.at(Priority::High),
                            packet,
                        );
                        channel::lemma_gave_one_more(
                            rx0,
                            rx1,
                            self.inputs.at(Priority::High),
                            packet,
                        );
                    }
                    ahead = self.weigh(ahead, arrival);
                    proof {
                        let g0 = gain(Priority::High, first, rx0, rx1);
                        let g1 = gain(Priority::High, first, rx0, self.inputs.at(Priority::High));
                        assert(self.queue@.insert(queued(ahead)) =~= queue1.insert(
                            queued(ahead1),
                        ).insert(queued(arrival)));
                        assert(self.queue@.insert(queued(ahead)) =~= start.add(g1));
                        let behind = if ahead == arrival {
                            ahead1
                        } else {
                            arrival
                        };
                        assert(self.queue@ =~= queue1.insert(queued(behind)));
                        lemma_count_insert(queue1, queued(behind), Priority::High);
                        assert forall|p: Priority| p != Priority::High implies #[trigger] count_of(
                            self.queue@,
                            p,
                        ) + (if ahead.priority == p {
                            1int
                        } else {
                            0
                        }) == count_of(start, p) by {
                            lemma_count_insert(queue1, queued(behind), p);
                            assert(count_of(queue1, p) + (if ahead1.priority == p {
                                1int
                            } else {
                                0
                            }) == count_of(start, p));
                        }
                        assert forall|e: Entry<WorkItem>| #[trigger] g1.count(
                            e,
                        ) > 0 implies ahead.spec_deadline().nanos <= e.key by {
                            if e != queued(arrival) {
                                assert(g0.count(e) > 0);
                            }
                        }
                    }
                },
                Err(why) => {
                    more = false;
                    proof {
                        channel::lemma_gave_no_more(
                            rx0,
                            rx1,
                            self.inputs.at(Priority::High),
                            why,
                        );
                    }
                },
            }
        }
        ahead
    }

    /// Takes packets in and chooses what to work on: something that is due first among all that the
    /// worker holds then. `None` where it holds nothing.
    pub fn choose_work(
        &mut self,
        worker: usize,
        trackers: &mut PriorityTable<SequenceTracker>,
        limits: &PriorityTable<usize>,
        total_limit: usize,
    ) -> (chosen: Option<WorkItem>)
        requires
            old(self).wf(),
            worker < WORKER_COUNT,
        ensures
            final(self).wf(),
            took_first(
                choice(*old(self), *final(self), *old(trackers)),
                final(self).queue@,
                chosen,
            ),
            forall|p: Priority|
                numbered(
                    old(self).inputs.at(p),
                    #[trigger] final(self).inputs.at(p),
                    old(trackers).at(p),
                    final(trackers).at(p),
                ),
            forall|p: Priority|
                !handles(worker as int, p) ==> #[trigger] final(self).inputs.at(p) == old(
                    self).inputs.at(p),
            forall|p: Priority|
                handles(worker as int, p) && p != Priority::High ==> filled(
                    old(self).inputs.at(p),
                    #[trigger] final(self).inputs.at(p),
                    choice(*old(self), *final(self), *old(trackers)),
                    p,
                    limits.at(p) as int,
                    total_limit as int,
                ),
            asked_for_high(
                old(self).inputs.at(Priority::High),
                final(self).inputs.at(Priority::High),
                choice(*old(self), *final(self), *old(trackers)),
                final(self).queue@,
                chosen,
                limits.at(Priority::High) as int,
                total_limit as int,
            ),
            final(self).queue@.len() <= max_of(old(self).queue@.len() as int, total_limit as int),
            forall|p: Priority|
                within_quota(
                    old(self).queue@,
                    final(self).queue@,
                    p,
                    #[trigger] limits.at(p) as int,
                ),
    {
        broadcast use vstd::multiset::group_multiset_axioms;

        let ghost trackers0 = *trackers;
        let ghost worker0 = *self;
        self.drain(worker, trackers, limits, total_limit);
        let ghost trackers1 = *trackers;
        let ghost worker1 = *self;
        match self.queue.pop() {
            None => {
                assert(self.queue@ =~= choice(worker0, *self, trackers0));
                assert(worker1.inputs.at(Priority::High) == self.inputs.at(Priority::High));
                assert forall|p: Priority| numbered(
                    worker0.inputs.at(p),
                    #[trigger] self.inputs.at(p),
                    trackers0.at(p),
                    trackers.at(p),
                ) by {
                    assert(worker1.inputs.at(p) == self.inputs.at(p));
                }
                None
            },
            Some(scheduled) => {
                proof {
                    assert(worker1.queue@ =~= self.queue@.insert(queued(scheduled)));
                    assert forall|p: Priority| #[trigger] count_of(self.queue@, p) <= count_of(
                        worker1.queue@,
                        p,
                    ) by {
                        lemma_count_insert(self.queue@, queued(scheduled), p);
                    }
                    assert(worker1.inputs.at(Priority::High) == self.inputs.at(Priority::High));
                }
                let ghost popped = self.queue@;
                let high_waiting: bool = self.queue.count(Priority::High) > 0;
                let item = if scheduled.priority == Priority::Medium && high_waiting {
                    assert forall|p: Priority| numbered(
                        worker0.inputs.at(p),
                        #[trigger] self.inputs.at(p),
                        trackers0.at(p),
                        trackers.at(p),
                    ) by {
                        assert(worker1.inputs.at(p) == self.inputs.at(p));
                    }
                    assert(worker1.queue@ =~= choice(worker0, *self, trackers0));
                    scheduled
                } else {
                    let ahead = self.preempt(
                        scheduled,
                        trackers.get_mut(Priority::High),
                        *limits.get(Priority::High),
                        total_limit,
                    );
                    proof {
                        let worker2 = *self;
                        let trackers2 = *trackers;
                        assert(numbered(
                            worker0.inputs.at(Priority::High),
                            worker1.inputs.at(Priority::High),
                            trackers0.at(Priority::High),
                            trackers1.at(Priority::High),
                        ));
                        let first = trackers0.at(Priority::High).upcoming();
                        lemma_gain_twice(
                            Priority::High,
                            first,
                            worker0.inputs.at(Priority::High),
                            worker1.inputs.at(Priority::High),
                            worker2.inputs.at(Priority::High),
                        );
                        let extra = gain(
                            Priority::High,
                            trackers1.at(Priority::High).upcoming(),
                            worker1.inputs.at(Priority::High),
                            worker2.inputs.at(Priority::High),
                        );
                        lemma_gains_split(
                            trackers0,
                            worker0.inputs,
                            worker1.inputs,
                            worker2.inputs,
                        );
                        let choice = choice(worker0, worker2, trackers0);
                        assert(choice =~= worker1.queue@.add(extra));
                        assert forall|p: Priority| #[trigger] count_of(worker1.queue@, p)
                            <= count_of(choice, p) by {
                            lemma_count_add(worker1.queue@, extra, p);
                        }
                        assert(worker1.queue@.len() <= choice.len());
                        assert(filled(
                            worker0.inputs.at(Priority::High),
                            worker1.inputs.at(Priority::High),
                            choice,
                            Priority::High,
                            limits.at(Priority::High) as int,
                            total_limit as int,
                        )) by {
                            assert(count_of(worker1.queue@, Priority::High) <= count_of(
                                choice,
                                Priority::High,
                            ));
                        }
                        assert forall|p: Priority| handles(worker as int, p) && p
                            != Priority::High implies filled(
                            worker0.inputs.at(p),
                            #[trigger] worker2.inputs.at(p),
                            choice,
                            p,
                            limits.at(p) as int,
                            total_limit as int,
                        ) by {
                            assert(worker2.inputs.at(p) == worker1.inputs.at(p));
                            assert(count_of(worker1.queue@, p) <= count_of(choice, p));
                        }
                        assert(worker2.queue@.insert(queued(ahead)) =~= choice);
                        assert(worker2.queue@ =~= choice.remove(queued(ahead)));
                        assert forall|e: Entry<WorkItem>| #[trigger] choice.count(
                            e,
                        ) > 0 implies ahead.spec_deadline().nanos <= e.key by {
                            if extra.count(e) == 0 {
                                assert(worker1.queue@.count(e) > 0);
                            }
                        }
                        assert forall|p: Priority| numbered(
                            worker0.inputs.at(p),
                            #[trigger] worker2.inputs.at(p),
                            trackers0.at(p),
                            trackers2.at(p),
                        ) by {
                            assert(numbered(
                                worker0.inputs.at(p),
                                worker1.inputs.at(p),
                                trackers0.at(p),
                                trackers1.at(p),
                            ));
                            if p != Priority::High {
                                assert(worker2.inputs.at(p) == worker1.inputs.at(p));
                            }
                        }
                        assert forall|p: Priority| !handles(
                            worker as int,
                            p,
                        ) implies #[trigger] worker2.inputs.at(p) == worker0.inputs.at(p) by {
                            assert(worker2.inputs.at(p) == worker1.inputs.at(p));
                        }
                    }
                    ahead
                };
                proof {
                    assert forall|p: Priority| within_quota(
                        worker0.queue@,
                        self.queue@,
                        p,
                        #[trigger] limits.at(p) as int,
                    ) by {
                        assert(count_of(popped, p) <= count_of(worker1.queue@, p));
                        if p != Priority::High {
                            assert(count_of(self.queue@, p) <= count_of(worker1.queue@, p));
                        }
                    }
                }
                Some(item)
            },
        }
    }

    /// What a look for a packet of the most critical class does while `scheduled` waits.
    pub open spec fn polled(
        self,
        before: Worker,
        scheduled: WorkItem,
        sequence: u64,
        high_limit: int,
        total_limit: int,
        outcome: GuardOutcome,
    ) -> bool {
        &&& (outcome.state == GuardState::Blocked) == (count_of(before.queue@, Priority::High)
            >= high_limit || before.queue@.len() >= total_limit)
        &&& looked_once(
            before.inputs.at(Priority::High),
            self.inputs.at(Priority::High),
            outcome,
        )
        &&& if outcome.state == GuardState::Preempted {
            &&& outcome.item.priority == Priority::High
            &&& outcome.item.sequence == sequence
            &&& self.queue@ == before.queue@.insert(queued(scheduled))
        } else {
            &&& outcome.item == scheduled
            &&& self.queue@ == before.queue@
        }
    }

    /// Queues `scheduled` again and takes up a packet of the most critical class in its place.
    pub fn give_way(
        &mut self,
        scheduled: WorkItem,
        tracker: &mut SequenceTracker,
        packet: Packet,
    ) -> (outcome: GuardOutcome)
        requires
            old(self).wf(),
        ensures
            final(self).wf(),
            final(self).inputs == old(self).inputs,
            final(self).backlog == old(self).backlog,
            final(self).queue@ == old(self).queue@.insert(queued(scheduled)),
            outcome == (GuardOutcome {
                state: GuardState::Preempted,
                item: WorkItem {
                    priority: Priority::High,
                    sequence: old(tracker).upcoming(),
                    packet,
                },
            }),
            final(tracker).upcoming() == advanced(old(tracker).upcoming(), 1),
            final(tracker).progress() == old(tracker).progress(),
    {
        let sequence: u64 = tracker.assign_sequence();
        self.queue.push(scheduled);
        GuardOutcome {
            state: GuardState::Preempted,
            item: WorkItem { priority: Priority::High, sequence, packet },
        }
    }

    /// Looks once for a packet of the most critical class while `scheduled` waits. A packet that is
    /// there takes its place, and `scheduled` is queued again.
    pub fn guard_poll(
        &mut self,
        scheduled: WorkItem,
        tracker: &mut SequenceTracker,
        high_limit: usize,
        total_limit: usize,
    ) -> (outcome: GuardOutcome)
        requires
            old(self).wf(),
        ensures
            final(self).wf(),
            final(self).backlog == old(self).backlog,
            forall|p: Priority|
                p != Priority::High ==> #[trigger] final(self).inputs.at(p) == old(self).inputs.at(
                    p,
                ),
            numbered(
                old(self).inputs.at(Priority::High),
                final(self).inputs.at(Priority::High),
                *old(tracker),
                *final(tracker),
            ),
            (outcome.state == GuardState::Blocked) == (count_of(old(self).queue@, Priority::High)
                >= high_limit || old(self).queue@.len() >= total_limit),
            looked_once(
                old(self).inputs.at(Priority::High),
                final(self).inputs.at(Priority::High),
                outcome,
            ),
            if outcome.state == GuardState::Preempted {
                &&& got(
                    old(self).inputs.at(Priority::High),
                    final(self).inputs.at(Priority::High),
                ) == seq![outcome.item.packet]
                &&& outcome.item.priority == Priority::High
                &&& outcome.item.sequence == old(tracker).upcoming()
                &&& final(self).queue@ == old(self).queue@.insert(queued(scheduled))
            } else {
                &&& outcome.item == scheduled
                &&& final(self).queue@ == old(self).queue@
                &&& channel::taken(final(self).inputs.at(Priority::High)) == channel::taken(
                    old(self).inputs.at(Priority::High),
                )
            },
            final(self).polled(
                *old(self),
                scheduled,
                old(tracker).upcoming(),
                high_limit as int,
                total_limit as int,
                outcome,
            ),
    {
        let ghost rx0 = self.inputs.at(Priority::High);
        proof {
            lemma_nothing_got(rx0, Priority::High, tracker.upcoming());
        }
        if self.queue.count(Priority::High) >= high_limit || self.queue.len() >= total_limit {
            return GuardOutcome { state: GuardState::Blocked, item: scheduled };
        }
        match channel::try_recv(self.inputs.get_mut(Priority::High), None) {
            Ok(packet) => {
                proof {
                    lemma_one_more(
                        Priority::High,
                        tracker.upcoming(),
                        rx0,
                        rx0,
                        self.inputs.at(Priority::High),
                        packet,
                    );
                    assert(got(rx0, self.inputs.at(Priority::High)) =~= seq![packet]);
                }
                self.give_way(scheduled, tracker, packet)
            },
            Err(why) => {
                proof {
                    assert(got(rx0, self.inputs.at(Priority::High)) =~= Seq::empty());
                }
                GuardOutcome { state: state_without(why), item: scheduled }
            },
        }
    }
}

/// Until when to look for a more critical packet before the budget is looked at again: for one
/// slice, or less where the rest of the permitted wait is shorter. `None` where the packet does not
/// wait, or has waited long enough.
pub open spec fn guard_until(
    threshold: Option<Duration>,
    slice: Duration,
    timestamp: Instant,
    now: Instant,
) -> Option<Instant> {
    match threshold {
        None => None,
        Some(limit) => if now.spec_since(timestamp).nanos >= limit.nanos {
            None
        } else {
            let rest = (limit.nanos - now.spec_since(timestamp).nanos) as u64;
            Some(
                now.spec_plus(
                    Duration {
                        nanos: if slice.nanos < rest {
                            slice.nanos
                        } else {
                            rest
                        },
                    },
                ),
            )
        },
    }
}

/// Computes [`guard_until`].
pub fn guard_window(
    threshold: Option<Duration>,
    slice: Duration,
    timestamp: Instant,
    now: Instant,
) -> (until: Option<Instant>)
    ensures
        until == guard_until(threshold, slice, timestamp, now),
{
    match threshold {
        None => None,
        Some(limit) => {
            let elapsed = now.since(timestamp);
            if elapsed.nanos >= limit.nanos {
                None
            } else {
                Some(now.plus(limit.saturating_sub(elapsed).min(slice)))
            }
        },
    }
}

proof fn lemma_gain_twice(
    priority: Priority,
    first: u64,
    a: Receiver<Packet>,
    b: Receiver<Packet>,
    c: Receiver<Packet>,
)
    requires
        channel::taken(a).is_prefix_of(channel::taken(b)),
        channel::taken(b).is_prefix_of(channel::taken(c)),
    ensures
        channel::taken(a).is_prefix_of(channel::taken(c)),
        got(a, c) == got(a, b) + got(b, c),
        advanced(advanced(first, got(a, b).len()), got(b, c).len()) == advanced(
            first,
            got(a, c).len(),
        ),
        gain(priority, first, a, c) == gain(priority, first, a, b).add(
            gain(priority, advanced(first, got(a, b).len()), b, c),
        ),
{
    assert(got(a, c) =~= got(a, b) + got(b, c));
    let n = got(a, b).len();
    let left = admitted(priority, first, got(a, b));
    let right = admitted(priority, advanced(first, n), got(b, c));
    assert forall|i: nat| #[trigger] advanced(advanced(first, n), i) == advanced(
        first,
        (n + i) as nat,
    ) by {}
    assert(admitted(priority, first, got(a, c)) =~= left + right);
    vstd::seq_lib::lemma_multiset_commutative(left, right);
}

/// Load of the workers, for monitoring.
#[derive(Debug, Clone)]
pub struct MultiWorkerStats {
    /// Length of each worker's queue when the worker last reported it.
    pub worker_queue_depths: Vec<usize>,
    /// Most packets that each worker may hold.
    pub worker_queue_capacities: Vec<usize>,
    /// Packets waiting between the inputs and the workers.
    pub dispatcher_backlog: usize,
    /// Packets of each class in each worker's queue, most critical class first.
    pub worker_priority_depths: Vec<Vec<usize>>,
}

/// The quotas of a worker that count in a look for more critical packets, as they were when its
/// round began. They stay in force for the round, whatever becomes of the quotas meanwhile.
#[derive(Debug, Clone, Copy, PartialEq, Eq, Structural)]
pub struct Quotas {
    /// Most packets of the most critical class that the worker may hold.
    pub high: usize,
    /// Most packets that the worker may hold in all.
    pub total: usize,
}

/// What a worker's round begins with.
pub struct Round {
    /// What to work on, where the worker holds anything.
    pub item: Option<WorkItem>,
    pub quotas: Quotas,
}

/// Earliest-deadline-first scheduler with three workers and quotas that follow the load.
pub struct MultiWorkerScheduler {
    pub workers: Vec<Worker>,
    pub completion: CompletionRouter,
    pub adaptive: AdaptiveController,
    pub expected_latencies: PriorityTable<Duration>,
}

fn clone_inputs(inputs: &mut PriorityTable<Receiver<Packet>>) -> (copy: PriorityTable<
    Receiver<Packet>,
>)
    ensures
        forall|p: Priority| channel::taken(#[trigger] copy.at(p)) == Seq::<Packet>::empty(),
        forall|p: Priority|
            channel::taken(#[trigger] final(inputs).at(p)) == channel::taken(old(inputs).at(p)),
        forall|p: Priority|
            channel::source_of(#[trigger] copy.at(p)) == channel::source_of(old(inputs).at(p)),
        forall|p: Priority|
            channel::source_of(#[trigger] final(inputs).at(p)) == channel::source_of(
                old(inputs).at(p),
            ),
{
    let high = channel::clone_receiver(inputs.get_mut(Priority::High));
    let medium = channel::clone_receiver(inputs.get_mut(Priority::Medium));
    let low = channel::clone_receiver(inputs.get_mut(Priority::Low));
    let best_effort = channel::clone_receiver(inputs.get_mut(Priority::BestEffort));
    PriorityTable::of(high, medium, low, best_effort)
}

impl MultiWorkerScheduler {
    pub open spec fn wf(&self) -> bool {
        &&& self.workers@.len() == WORKER_COUNT
        &&& forall|w: int| 0 <= w < WORKER_COUNT ==> (#[trigger] self.workers@[w]).wf()
        &&& self.adaptive.wf()
    }

    /// A scheduler between the given inputs and outputs, with empty queues.
    pub fn new(
        input_queues: PriorityTable<Receiver<Packet>>,
        output_queues: PriorityTable<Sender<Packet>>,
        expected_latencies: PriorityTable<Duration>,
    ) -> (scheduler: MultiWorkerScheduler)
        ensures
            scheduler.wf(),
            scheduler.completion.output_queues == output_queues,
            scheduler.expected_latencies == expected_latencies,
            forall|w: int|
                0 <= w < WORKER_COUNT ==> (#[trigger] scheduler.workers@[w]).queue@
                    == Multiset::<Entry<WorkItem>>::empty() && scheduler.workers@[w].backlog == 0,
            forall|p: Priority| (#[trigger] scheduler.completion.trackers.at(p)).upcoming() == 0,
            forall|p: Priority|
                (#[trigger] scheduler.completion.trackers.at(p)).progress() == (Progress {
                    next_emit: 0,
                    pending: Map::empty(),
                }),
            forall|p: Priority| #[trigger] scheduler.completion.drop_counters.at(p) == 0,
            scheduler.adaptive.is_initial(),
            forall|w: int, p: Priority|
                0 <= w < WORKER_COUNT - 1 ==> channel::taken(
                    #[trigger] scheduler.workers@[w].inputs.at(p),
                ) == Seq::<Packet>::empty(),
            forall|p: Priority|
                channel::taken(#[trigger] scheduler.workers@[WORKER_COUNT - 1].inputs.at(p))
                    == channel::taken(input_queues.at(p)),
            forall|w: int, p: Priority|
                0 <= w < WORKER_COUNT ==> channel::source_of(
                    #[trigger] scheduler.workers@[w].inputs.at(p),
                ) == channel::source_of(input_queues.at(p)),
    {
        let mut inputs = input_queues;
        let first = clone_inputs(&mut inputs);
        let ghost once = inputs;
        let second = clone_inputs(&mut inputs);
        assert forall|p: Priority| channel::source_of(#[trigger] inputs.at(p))
            == channel::source_of(input_queues.at(p)) by {
            assert(channel::source_of(once.at(p)) == channel::source_of(input_queues.at(p)));
        }
        assert forall|p: Priority| channel::source_of(#[trigger] second.at(p))
            == channel::source_of(input_queues.at(p)) by {
            assert(channel::source_of(once.at(p)) == channel::source_of(input_queues.at(p)));
        }
        assert forall|p: Priority| channel::taken(#[trigger] inputs.at(p)) == channel::taken(
            input_queues.at(p),
        ) by {
            assert(channel::taken(once.at(p)) == channel::taken(input_queues.at(p)));
        }
        let mut workers: Vec<Worker> = Vec::new();
        workers.push(Worker { queue: WorkerQueue::new(), inputs: first, backlog: 0 });
        workers.push(Worker { queue: WorkerQueue::new(), inputs: second, backlog: 0 });
        workers.push(Worker { queue: WorkerQueue::new(), inputs, backlog: 0 });
        MultiWorkerScheduler {
            workers,
            completion: CompletionRouter::new(output_queues),
            adaptive: AdaptiveController::new(),
            expected_latencies,
        }
    }

    /// Begins a round of a worker: it takes packets in, as far as its quotas allow at this moment,
    /// and chooses what to work on: something that is due first among all that it holds then.
    pub fn next_work(&mut self, worker: usize) -> (round: Round)
        requires
            old(self).wf(),
            worker < WORKER_COUNT,
        ensures
            final(self).wf(),
            round.quotas.high == old(self).adaptive.limit(worker as int, Priority::High),
            round.quotas.total == old(self).adaptive.total(worker as int),
            took_first(
                choice(
                    old(self).workers@[worker as int],
                    final(self).workers@[worker as int],
                    old(self).completion.trackers,
                ),
                final(self).workers@[worker as int].queue@,
                round.item,
            ),
            forall|p: Priority|
                handles(worker as int, p) && p != Priority::High ==> filled(
                    old(self).workers@[worker as int].inputs.at(p),
                    #[trigger] final(self).workers@[worker as int].inputs.at(p),
                    choice(
                        old(self).workers@[worker as int],
                        final(self).workers@[worker as int],
                        old(self).completion.trackers,
                    ),
                    p,
                    old(self).adaptive.limit(worker as int, p),
                    old(self).adaptive.total(worker as int),
                ),
            asked_for_high(
                old(self).workers@[worker as int].inputs.at(Priority::High),
                final(self).workers@[worker as int].inputs.at(Priority::High),
                choice(
                    old(self).workers@[worker as int],
                    final(self).workers@[worker as int],
                    old(self).completion.trackers,
                ),
                final(self).workers@[worker as int].queue@,
                round.item,
                old(self).adaptive.limit(worker as int, Priority::High),
                old(self).adaptive.total(worker as int),
            ),
            forall|p: Priority|
                numbered(
                    old(self).workers@[worker as int].inputs.at(p),
                    #[trigger] final(self).workers@[worker as int].inputs.at(p),
                    old(self).completion.trackers.at(p),
                    final(self).completion.trackers.at(p),
                ),
            forall|p: Priority|
                !handles(worker as int, p) ==> #[trigger] final(
                    self).workers@[worker as int].inputs.at(p) == old(
                    self).workers@[worker as int].inputs.at(p),
            final(self).workers@[worker as int].queue@.len() <= max_of(
                old(self).workers@[worker as int].queue@.len() as int,
                old(self).adaptive.total(worker as int),
            ),
            forall|p: Priority|
                within_quota(
                    old(self).workers@[worker as int].queue@,
                    final(self).workers@[worker as int].queue@,
                    p,
                    #[trigger] old(self).adaptive.limit(worker as int, p),
                ),
            forall|w: int|
                0 <= w < WORKER_COUNT && w != worker ==> #[trigger] final(self).workers@[w] == old(
                    self).workers@[w],
            final(self).completion.output_queues == old(self).completion.output_queues,
            final(self).completion.drop_counters == old(self).completion.drop_counters,
            final(self).adaptive == old(self).adaptive,
            final(self).expected_latencies == old(self).expected_latencies,
    {
        let limits = self.adaptive.priority_limits(worker);
        let total_limit: usize = self.adaptive.total_limit(worker);
        let chosen = self.workers[worker].choose_work(
            worker,
            &mut self.completion.trackers,
            &limits,
            total_limit,
        );
        proof {
            assert forall|p: Priority| within_quota(
                old(self).workers@[worker as int].queue@,
                self.workers@[worker as int].queue@,
                p,
                #[trigger] self.adaptive.limit(worker as int, p),
            ) by {
                assert(limits.at(p) == self.adaptive.limit(worker as int, p));
            }
            assert forall|p: Priority| handles(worker as int, p) && p != Priority::High implies filled(
                old(self).workers@[worker as int].inputs.at(p),
                #[trigger] self.workers@[worker as int].inputs.at(p),
                choice(
                    old(self).workers@[worker as int],
                    self.workers@[worker as int],
                    old(self).completion.trackers,
                ),
                p,
                self.adaptive.limit(worker as int, p),
                self.adaptive.total(worker as int),
            ) by {
                assert(limits.at(p) == self.adaptive.limit(worker as int, p));
            }
            assert(limits.at(Priority::High) == self.adaptive.limit(worker as int, Priority::High));
        }
        Round {
            item: chosen,
            quotas: Quotas { high: *limits.get(Priority::High), total: total_limit },
        }
    }

    /// How long after `item` came work on it may be put off for a more critical packet. `None`
    /// where the work is to start at once. What is told when the wait begins stays in force for it.
    pub fn guard_limit(&self, item: &WorkItem) -> (limit: Option<Duration>)
        requires
            self.wf(),
        ensures
            limit == (if item.priority == Priority::High || item.priority == Priority::BestEffort
                || self.adaptive.guard(item.priority) == 0 {
                None
            } else {
                Some(
                    Duration {
                        nanos: min_of(
                            clamp_u64(self.adaptive.guard(item.priority) * NANOS_PER_MICRO) as int,
                            item.packet.latency_budget.nanos as int,
                        ) as u64,
                    },
                )
            }),
            limit == wait_limit(
                item.priority,
                self.adaptive.guard(item.priority),
                item.packet.latency_budget,
            ),
    {
        self.adaptive.guard_threshold(item.priority, item.packet.latency_budget)
    }

    /// Until when to look for a more critical packet before work on `item` starts or its budget is
    /// looked at again, where `limit` is how long the work may be put off. `None` where the work is
    /// to start at once.
    pub fn guard(&self, limit: Option<Duration>, item: &WorkItem, now: Instant) -> (until: Option<
        Instant,
    >)
        requires
            self.wf(),
        ensures
            until == guard_until(
                limit,
                Duration { nanos: clamp_u64(self.adaptive.slice() * NANOS_PER_MICRO) },
                item.packet.timestamp,
                now,
            ),
    {
        guard_window(limit, self.adaptive.guard_slice(), item.packet.timestamp, now)
    }

    /// Lets a worker look once for a packet of the most critical class while `item` waits. The
    /// quotas are those that the worker's round began with.
    pub fn guard_poll(&mut self, worker: usize, item: WorkItem, quotas: Quotas) -> (outcome:
        GuardOutcome)
        requires
            old(self).wf(),
            worker < WORKER_COUNT,
        ensures
            final(self).wf(),
            (outcome.state == GuardState::Blocked) == (count_of(
                old(self).workers@[worker as int].queue@,
                Priority::High,
            ) >= quotas.high || old(self).workers@[worker as int].queue@.len() >= quotas.total),
            looked_once(
                old(self).workers@[worker as int].inputs.at(Priority::High),
                final(self).workers@[worker as int].inputs.at(Priority::High),
                outcome,
            ),
            if outcome.state == GuardState::Preempted {
                &&& got(
                    old(self).workers@[worker as int].inputs.at(Priority::High),
                    final(self).workers@[worker as int].inputs.at(Priority::High),
                ) == seq![outcome.item.packet]
                &&& outcome.item.priority == Priority::High
                &&& outcome.item.sequence == old(self).completion.trackers.at(
                    Priority::High,
                ).upcoming()
                &&& final(self).workers@[worker as int].queue@ == old(
                    self).workers@[worker as int].queue@.insert(queued(item))
            } else {
                &&& outcome.item == item
                &&& final(self).workers@[worker as int].queue@ == old(
                    self).workers@[worker as int].queue@
                &&& channel::taken(final(self).workers@[worker as int].inputs.at(Priority::High))
                    == channel::taken(old(self).workers@[worker as int].inputs.at(Priority::High))
            },
            final(self).workers@[worker as int].polled(
                old(self).workers@[worker as int],
                item,
                old(self).completion.trackers.at(Priority::High).upcoming(),
                quotas.high as int,
                quotas.total as int,
                outcome,
            ),
            numbered(
                old(self).workers@[worker as int].inputs.at(Priority::High),
                final(self).workers@[worker as int].inputs.at(Priority::High),
                old(self).completion.trackers.at(Priority::High),
                final(self).completion.trackers.at(Priority::High),
            ),
            forall|p: Priority|
                p != Priority::High ==> #[trigger] final(self).workers@[worker as int].inputs.at(p)
                    == old(self).workers@[worker as int].inputs.at(p),
            forall|p: Priority|
                p != Priority::High ==> #[trigger] final(self).completion.trackers.at(p) == old(
                    self).completion.trackers.at(p),
            forall|w: int|
                0 <= w < WORKER_COUNT && w != worker ==> #[trigger] final(self).workers@[w] == old(
                    self).workers@[w],
            final(self).completion.output_queues == old(self).completion.output_queues,
            final(self).completion.drop_counters == old(self).completion.drop_counters,
            final(self).adaptive == old(self).adaptive,
            final(self).expected_latencies == old(self).expected_latencies,
    {
        self.workers[worker].guard_poll(
            item,
            self.completion.trackers.get_mut(Priority::High),
            quotas.high,
            quotas.total,
        )
    }

    /// Notes that the work on `item` is done: its cost goes into the running average of its class,
    /// and all packets of the class that may leave now are offered to the output. Those that it
    /// does not take are counted and handed back.
    pub fn finish(&mut self, item: WorkItem) -> (rejected: Vec<Packet>)
        requires
            old(self).wf(),
        ensures
            final(self).wf(),
            final(self).workers == old(self).workers,
            final(self).expected_latencies == old(self).expected_latencies,
            final(self).completion.trackers.at(item.priority).upcoming() == old(
                self).completion.trackers.at(item.priority).upcoming(),
            final(self).completion.trackers.at(item.priority).progress() == progressed(
                old(self).completion.trackers.at(item.priority).progress(),
                item.sequence,
                item.packet,
            ),
            channel::offers(final(self).completion.output_queues.at(item.priority))
                == channel::offers(old(self).completion.output_queues.at(item.priority))
                + released(
                old(self).completion.trackers.at(item.priority).progress(),
                item.sequence,
                item.packet,
            ),
            splits(
                released(
                    old(self).completion.trackers.at(item.priority).progress(),
                    item.sequence,
                    item.packet,
                ),
                channel::sent(final(self).completion.output_queues.at(item.priority)).skip(
                    channel::sent(old(self).completion.output_queues.at(item.priority)).len() as int,
                ),
                rejected@,
            ),
            final(self).completion.drop_counters.at(item.priority) == advanced(
                old(self).completion.drop_counters.at(item.priority),
                rejected@.len(),
            ),
            channel::sent(old(self).completion.output_queues.at(item.priority)).is_prefix_of(
                channel::sent(final(self).completion.output_queues.at(item.priority)),
            ),
            forall|p: Priority|
                p != item.priority ==> #[trigger] final(self).completion.trackers.at(p) == old(
                    self).completion.trackers.at(p),
            forall|p: Priority|
                p != item.priority ==> #[trigger] final(self).completion.output_queues.at(p) == old(
                    self).completion.output_queues.at(p),
            forall|p: Priority|
                p != item.priority ==> #[trigger] final(self).completion.drop_counters.at(p) == old(
                    self).completion.drop_counters.at(p),
            final(self).adaptive.average(item.priority) == max_of(
                (7 * old(self).adaptive.average(item.priority) + spec_cost(
                    BASE_COST,
                    item.packet,
                ).nanos) / 8,
                1,
            ),
            final(self).adaptive.average(item.priority) == smoothed(
                old(self).adaptive.average(item.priority),
                spec_cost(BASE_COST, item.packet).nanos as int,
            ),
            forall|p: Priority|
                p != item.priority ==> #[trigger] final(self).adaptive.average(p) == old(
                    self).adaptive.average(p),
            forall|w: int, p: Priority| #[trigger]
                final(self).adaptive.limit(w, p) == old(self).adaptive.limit(w, p),
            forall|w: int| #[trigger]
                final(self).adaptive.total(w) == old(self).adaptive.total(w),
            forall|p: Priority| #[trigger]
                final(self).adaptive.guard(p) == old(self).adaptive.guard(p),
            final(self).adaptive.slice() == old(self).adaptive.slice(),
    {
        let cost = processing_duration(&item.packet);
        self.adaptive.observe_processing_time(item.priority, cost);
        self.completion.complete(item)
    }

    /// Packets of class `priority` in the queues of the first `count` workers.
    pub open spec fn depth(workers: Seq<Worker>, priority: Priority, count: int) -> int
        decreases count,
    {
        if count <= 0 {
            0
        } else {
            Self::depth(workers, priority, count - 1) + count_of(
                workers[count - 1].queue@,
                priority,
            )
        }
    }

    /// Packets of class `priority` in the queues of all workers.
    fn total_depth(&self, priority: Priority) -> (depth: usize)
        requires
            self.wf(),
        ensures
            depth == min_of(
                Self::depth(self.workers@, priority, WORKER_COUNT as int),
                usize::MAX as int,
            ),
    {
        let mut depth: usize = 0;
        let mut worker: usize = 0;
        while worker < WORKER_COUNT
            invariant
                self.wf(),
                worker <= WORKER_COUNT,
                depth == min_of(
                    Self::depth(self.workers@, priority, worker as int),
                    usize::MAX as int,
                ),
            decreases WORKER_COUNT - worker,
        {
            assert(self.workers@[worker as int].wf());
            depth = depth.saturating_add(self.workers[worker].queue.count(priority));
            worker = worker + 1;
        }
        depth
    }

    /// Fits the quotas to the running averages, the latency budgets and the load.
    pub fn autobalance(&mut self)
        requires
            old(self).wf(),
        ensures
            final(self).wf(),
            final(self).workers == old(self).workers,
            final(self).completion == old(self).completion,
            final(self).expected_latencies == old(self).expected_latencies,
            forall|w: int, p: Priority|
                0 <= w < WORKER_COUNT ==> #[trigger] final(self).adaptive.limit(w, p)
                    == planned_limit(
                    w,
                    p,
                    old(self).expected_latencies.at(p).nanos as int,
                    old(self).adaptive.target(
                        p,
                        old(self).expected_latencies.at(p).nanos as int,
                        Self::depth(old(self).workers@, p, WORKER_COUNT as int),
                    ),
                ),
            forall|w: int|
                0 <= w < WORKER_COUNT ==> #[trigger] final(self).adaptive.total(w) == max_of(
                    final(self).adaptive.limit(w, Priority::High) + final(self).adaptive.limit(
                        w,
                        Priority::Medium,
                    ) + final(self).adaptive.limit(w, Priority::Low) + final(self).adaptive.limit(
                        w,
                        Priority::BestEffort,
                    ),
                    least_total(w),
                ),
            final(self).adaptive.slice() == old(self).adaptive.planned_slice(
                old(self).expected_latencies,
            ),
            forall|p: Priority| #[trigger]
                final(self).adaptive.guard(p) == planned_guard(
                    p,
                    old(self).expected_latencies.at(p).nanos as int,
                    old(self).adaptive.average(p),
                    old(self).adaptive.guard(p),
                ),
            forall|p: Priority| #[trigger]
                final(self).adaptive.guard(p) == (if p == Priority::BestEffort || old(
                    self).expected_latencies.at(p).nanos == 0 {
                    old(self).adaptive.guard(p)
                } else if p == Priority::High {
                    0
                } else {
                    min_of(
                        guard_micros(
                            old(self).expected_latencies.at(p).nanos as int,
                            old(self).adaptive.average(p),
                        ),
                        GUARD_MAX_US as int,
                    )
                }),
    {
        let depths = PriorityTable::of(
            self.total_depth(Priority::High),
            self.total_depth(Priority::Medium),
            self.total_depth(Priority::Low),
            self.total_depth(Priority::BestEffort),
        );
        self.adaptive.autobalance(&self.expected_latencies, &depths);
        proof {
            assert forall|w: int, p: Priority| 0 <= w < WORKER_COUNT implies #[trigger] self.adaptive.limit(
                w,
                p,
            ) == planned_limit(
                w,
                p,
                old(self).expected_latencies.at(p).nanos as int,
                old(self).adaptive.target(
                    p,
                    old(self).expected_latencies.at(p).nanos as int,
                    Self::depth(old(self).workers@, p, WORKER_COUNT as int),
                ),
            ) by {
                let budget = old(self).expected_latencies.at(p).nanos as int;
                let full = Self::depth(old(self).workers@, p, WORKER_COUNT as int);
                assert(depths.at(p) == min_of(full, usize::MAX as int));
                let backlog = safe_backlog(budget, old(self).adaptive.average(p));
                assert(1 <= backlog <= 512);
                assert(target_depth(backlog, full) == target_depth(backlog, depths.at(p) as int));
            }
        }
    }

    /// Packets that the scheduler dropped. It holds no packet back for lack of room of its own.
    pub fn get_drop_counts(&self) -> (counts: EDFDropCounters)
        ensures
            counts.heap == 0,
            counts.output == self.completion.drop_counters,
    {
        EDFDropCounters { heap: 0, output: self.completion.drop_counts() }
    }

    /// Notes that a worker has stopped: its reported queue length is zero from then on.
    pub fn retire(&mut self, worker: usize)
        requires
            old(self).wf(),
            worker < WORKER_COUNT,
        ensures
            final(self).wf(),
            final(self).workers@ == old(self).workers@.update(
                worker as int,
                Worker { backlog: 0, ..old(self).workers@[worker as int] },
            ),
            final(self).completion == old(self).completion,
            final(self).adaptive == old(self).adaptive,
            final(self).expected_latencies == old(self).expected_latencies,
    {
        self.workers[worker].backlog = 0;
    }

    /// Whether statistics show the load of the workers as it is.
    pub open spec fn shown_by(self, stats: MultiWorkerStats) -> bool {
        &&& stats.worker_queue_depths@.len() == WORKER_COUNT
        &&& stats.worker_queue_capacities@.len() == WORKER_COUNT
        &&& stats.worker_priority_depths@.len() == WORKER_COUNT
        &&& stats.dispatcher_backlog == 0
        &&& forall|w: int|
            0 <= w < WORKER_COUNT ==> #[trigger] stats.worker_queue_depths@[w]
                == self.workers@[w].backlog
        &&& forall|w: int|
            0 <= w < WORKER_COUNT ==> #[trigger] stats.worker_queue_capacities@[w]
                == self.adaptive.total(w)
        &&& forall|w: int|
            0 <= w < WORKER_COUNT ==> (#[trigger] stats.worker_priority_depths@[w])@.len() == 4
        &&& forall|w: int, p: Priority|
            0 <= w < WORKER_COUNT ==> stats.worker_priority_depths@[w]@[#[trigger] p.rank()]
                == #[trigger] count_of(self.workers@[w].queue@, p)
    }

    /// Load of the workers.
    pub fn stats(&self) -> (stats: MultiWorkerStats)
        requires
            self.wf(),
        ensures
            self.shown_by(stats),
            stats.worker_queue_depths@.len() == WORKER_COUNT,
            stats.worker_queue_capacities@.len() == WORKER_COUNT,
            stats.worker_priority_depths@.len() == WORKER_COUNT,
            stats.dispatcher_backlog == 0,
            forall|w: int|
                0 <= w < WORKER_COUNT ==> #[trigger] stats.worker_queue_depths@[w]
                    == self.workers@[w].backlog,
            forall|w: int|
                0 <= w < WORKER_COUNT ==> #[trigger] stats.worker_queue_capacities@[w]
                    == self.adaptive.total(w),
            forall|w: int|
                0 <= w < WORKER_COUNT ==> (#[trigger] stats.worker_priority_depths@[w])@.len() == 4,
            forall|w: int, p: Priority|
                0 <= w < WORKER_COUNT ==> stats.worker_priority_depths@[w]@[#[trigger] p.rank()]
                    == #[trigger] count_of(self.workers@[w].queue@, p),
    {
        let mut worker_queue_depths: Vec<usize> = Vec::new();
        let mut worker_queue_capacities: Vec<usize> = Vec::new();
        let mut worker_priority_depths: Vec<Vec<usize>> = Vec::new();
        let mut worker: usize = 0;
        while worker < WORKER_COUNT
            invariant
                self.wf(),
                worker <= WORKER_COUNT,
                worker_queue_depths@.len() == worker,
                worker_queue_capacities@.len() == worker,
                worker_priority_depths@.len() == worker,
                forall|w: int|
                    0 <= w < worker ==> #[trigger] worker_queue_depths@[w]
                        == self.workers@[w].backlog,
                forall|w: int|
                    0 <= w < worker ==> #[trigger] worker_queue_capacities@[w]
                        == self.adaptive.total(w),
                forall|w: int|
                    0 <= w < worker ==> (#[trigger] worker_priority_depths@[w])@.len() == 4,
                forall|w: int, p: Priority|
                    0 <= w < worker ==> worker_priority_depths@[w]@[#[trigger] p.rank()]
                        == #[trigger] count_of(self.workers@[w].queue@, p),
            decreases WORKER_COUNT - worker,
        {
            assert(self.workers@[worker as int].wf());
            let queue = &self.workers[worker].queue;
            let mut depths: Vec<usize> = Vec::new();
            depths.push(queue.count(Priority::High));
            depths.push(queue.count(Priority::Medium));
            depths.push(queue.count(Priority::Low));
            depths.push(queue.count(Priority::BestEffort));
            worker_queue_depths.push(self.workers[worker].backlog);
            worker_queue_capacities.push(self.adaptive.total_limit(worker));
            worker_priority_depths.push(depths);
            worker = worker + 1;
        }
        MultiWorkerStats {
            worker_queue_depths,
            worker_queue_capacities,
            dispatcher_backlog: 0,
            worker_priority_depths,
        }
    }
}

proof fn lemma_gains_split(
    trackers: PriorityTable<SequenceTracker>,
    a: PriorityTable<Receiver<Packet>>,
    b: PriorityTable<Receiver<Packet>>,
    c: PriorityTable<Receiver<Packet>>,
)
    requires
        channel::taken(a.at(Priority::High)).is_prefix_of(channel::taken(b.at(Priority::High))),
        channel::taken(b.at(Priority::High)).is_prefix_of(channel::taken(c.at(Priority::High))),
        forall|p: Priority| p != Priority::High ==> #[trigger] c.at(p) == b.at(p),
    ensures
        gains(4, trackers, a, c) == gains(4, trackers, a, b).add(
            gain(
                Priority::High,
                advanced(
                    trackers.at(Priority::High).upcoming(),
                    got(a.at(Priority::High), b.at(Priority::High)).len(),
                ),
                b.at(Priority::High),
                c.at(Priority::High),
            ),
        ),
{
    broadcast use vstd::multiset::group_multiset_axioms;

    reveal_with_fuel(gains, 5);
    lemma_gain_twice(
        Priority::High,
        trackers.at(Priority::High).upcoming(),
        a.at(Priority::High),
        b.at(Priority::High),
        c.at(Priority::High),
    );
    let extra = gain(
        Priority::High,
        advanced(
            trackers.at(Priority::High).upcoming(),
            got(a.at(Priority::High), b.at(Priority::High)).len(),
        ),
        b.at(Priority::High),
        c.at(Priority::High),
    );
    assert(c.at(Priority::Medium) == b.at(Priority::Medium));
    assert(c.at(Priority::Low) == b.at(Priority::Low));
    assert(c.at(Priority::BestEffort) == b.at(Priority::BestEffort));
    assert(gains(1, trackers, a, c) =~= gains(1, trackers, a, b).add(extra));
    assert(gains(2, trackers, a, c) =~= gains(2, trackers, a, b).add(extra));
    assert(gains(3, trackers, a, c) =~= gains(3, trackers, a, b).add(extra));
    assert(gains(4, trackers, a, c) =~= gains(4, trackers, a, b).add(extra));
}

/// Law: work chosen is due no later than any other work that the worker could choose, by arrival plus
/// budget; it is taken off, and all else stays. Only a worker without work chooses none.
pub proof fn law_work_due_first_is_chosen(
    choice: Multiset<Entry<WorkItem>>,
    rest: Multiset<Entry<WorkItem>>,
    chosen: WorkItem,
    other: WorkItem,
)
    requires
        took_first(choice, rest, Some(chosen)),
        choice.count(queued(other)) > 0,
        chosen.packet.timestamp.nanos + chosen.packet.latency_budget.nanos <= u64::MAX,
        other.packet.timestamp.nanos + other.packet.latency_budget.nanos <= u64::MAX,
    ensures
        chosen.packet.timestamp.nanos + chosen.packet.latency_budget.nanos
            <= other.packet.timestamp.nanos + other.packet.latency_budget.nanos,
        rest.insert(queued(chosen)) == choice,
        !took_first(choice, rest, None),
{
    broadcast use vstd::multiset::group_multiset_axioms;

    assert(choice.count(queued(other)) > 0);
    assert(rest.insert(queued(chosen)) =~= choice);
    if choice.len() == 0 {
        assert(choice.count(queued(other)) <= choice.len());
    }
}

/// Law: newly arrived work goes ahead of scheduled work only where it is due earlier, by arrival plus
/// budget; either way the other one is queued, so that neither is lost.
pub proof fn law_arrivals_go_ahead_only_when_due_earlier(
    before: Worker,
    after: Worker,
    scheduled: WorkItem,
    arrival: WorkItem,
    ahead: WorkItem,
)
    requires
        after.weighed(before, scheduled, arrival, ahead),
        scheduled.packet.timestamp.nanos + scheduled.packet.latency_budget.nanos <= u64::MAX,
        arrival.packet.timestamp.nanos + arrival.packet.latency_budget.nanos <= u64::MAX,
    ensures
        arrival.packet.timestamp.nanos + arrival.packet.latency_budget.nanos
            < scheduled.packet.timestamp.nanos + scheduled.packet.latency_budget.nanos ==> ahead
            == arrival,
        arrival.packet.timestamp.nanos + arrival.packet.latency_budget.nanos
            >= scheduled.packet.timestamp.nanos + scheduled.packet.latency_budget.nanos ==> ahead
            == scheduled,
        after.queue@.insert(queued(ahead)) == before.queue@.insert(queued(scheduled)).insert(
            queued(arrival),
        ),
{
    assert(after.queue@.insert(queued(ahead)) =~= before.queue@.insert(queued(scheduled)).insert(
        queued(arrival),
    ));
}

/// Law: packets of a class are queued under its class and numbered one after the other from the
/// number that was due, in the order in which they came.
pub proof fn law_arrivals_are_numbered_in_order(
    priority: Priority,
    first: u64,
    packets: Seq<Packet>,
    i: int,
)
    requires
        0 <= i < packets.len(),
        first + packets.len() <= u64::MAX,
    ensures
        admitted(priority, first, packets).len() == packets.len(),
        admitted(priority, first, packets)[i].item.sequence == first + i,
        admitted(priority, first, packets)[i].item.packet == packets[i],
        admitted(priority, first, packets)[i].item.priority == priority,
        admitted(priority, first, packets)[i] == queued(
            admitted(priority, first, packets)[i].item,
        ),
{
}

/// Law: numbering goes on by one for each packet taken, and what leaves is left to the order of
/// release.
pub proof fn law_numbering_goes_on(
    before: Receiver<Packet>,
    after: Receiver<Packet>,
    tracker_before: SequenceTracker,
    tracker_after: SequenceTracker,
)
    requires
        numbered(before, after, tracker_before, tracker_after),
        tracker_before.upcoming() + got(before, after).len() <= u64::MAX,
    ensures
        tracker_after.upcoming() - tracker_before.upcoming() == channel::taken(after).len()
            - channel::taken(before).len(),
        channel::taken(after) == channel::taken(before) + got(before, after),
        tracker_after.progress() == tracker_before.progress(),
{
    assert(channel::taken(after) =~= channel::taken(before) + got(before, after));
}

/// Law: a class that is within its quota stays within it, and one that is beyond it gets no more.
pub proof fn law_quotas_hold(
    before: Multiset<Entry<WorkItem>>,
    after: Multiset<Entry<WorkItem>>,
    priority: Priority,
    limit: int,
)
    requires
        within_quota(before, after, priority, limit),
    ensures
        count_of(before, priority) <= limit ==> count_of(after, priority) <= limit,
        count_of(before, priority) > limit ==> count_of(after, priority) <= count_of(
            before,
            priority,
        ),
{
}

/// Law: a worker stops taking packets of a class only where the input gave none, or where the class
/// or the worker holds all that it may.
pub proof fn law_workers_fill_their_quotas(
    before: Receiver<Packet>,
    after: Receiver<Packet>,
    queue: Multiset<Entry<WorkItem>>,
    priority: Priority,
    limit: int,
    total: int,
)
    requires
        filled(before, after, queue, priority, limit, total),
        count_of(queue, priority) < limit,
        queue.len() < total,
    ensures
        channel::replies(after).len() > 0,
        channel::replies(after).last() is Err,
{
}

/// Law: a slice of a wait ends where the wait does or after the slice's length, whichever comes first,
/// and there is none once the packet has waited as long as it may.
pub proof fn law_slices_end_with_the_wait(
    limit: Duration,
    slice: Duration,
    timestamp: Instant,
    now: Instant,
)
    requires
        timestamp.nanos <= now.nanos,
        now.nanos + slice.nanos <= u64::MAX,
    ensures
        guard_until(None, slice, timestamp, now) is None,
        guard_until(Some(limit), slice, timestamp, now) is None <==> now.nanos
            >= timestamp.nanos + limit.nanos,
        guard_until(Some(limit), slice, timestamp, now) matches Some(until) ==> {
            &&& until.nanos <= timestamp.nanos + limit.nanos
            &&& until.nanos <= now.nanos + slice.nanos
            &&& until.nanos == timestamp.nanos + limit.nanos || until.nanos == now.nanos
                + slice.nanos
        },
{
}

/// Law: the depth of a class is what all three workers hold of it, and the smallest packets take 0.05
/// ms, the largest 0.15 ms.
pub proof fn law_depth_is_over_all_workers(
    workers: Seq<Worker>,
    priority: Priority,
    packet: Packet,
)
    requires
        workers.len() == 3,
    ensures
        MultiWorkerScheduler::depth(workers, priority, 3) == count_of(workers[0].queue@, priority)
            + count_of(workers[1].queue@, priority) + count_of(workers[2].queue@, priority),
        packet.buffer.bytes().len() <= 200 ==> spec_cost(BASE_COST, packet).nanos == 50_000,
        packet.buffer.bytes().len() >= 1500 ==> spec_cost(BASE_COST, packet).nanos == 150_000,
{
    reveal_with_fuel(MultiWorkerScheduler::depth, 4);
    crate::scheduler::cost::law_cost_grows_with_the_payload(BASE_COST, packet, packet);
}

/// Law: what a look comes to tells what the input gave: a packet where the look led to another one
/// going ahead, none where it was quiet, none and none to come where it was closed; and a look that
/// was left out leaves the input alone.
pub proof fn law_looks_tell_what_the_input_gave(
    before: Receiver<Packet>,
    after: Receiver<Packet>,
    outcome: GuardOutcome,
)
    requires
        looked_once(before, after, outcome),
    ensures
        outcome.state == GuardState::Blocked ==> channel::replies(after) == channel::replies(before),
        outcome.state == GuardState::Quiet ==> channel::replies(after) == channel::replies(
            before,
        ).push(Err(RecvFailure::Empty)) && channel::taken(after) == channel::taken(before),
        outcome.state == GuardState::Closed ==> channel::replies(after) == channel::replies(
            before,
        ).push(Err(RecvFailure::Disconnected)) && channel::taken(after) == channel::taken(before),
        outcome.state == GuardState::Preempted ==> channel::taken(after) == channel::taken(
            before,
        ).push(outcome.item.packet),
{
}

/// Law: what a worker chooses from is what it held and one piece of work for each packet that it took
/// in, under the packet's class and the next number of that class.
pub proof fn law_everything_taken_in_can_be_chosen(
    before: Worker,
    after: Worker,
    trackers: PriorityTable<SequenceTracker>,
    priority: Priority,
    i: int,
)
    requires
        0 <= i < got(before.inputs.at(priority), after.inputs.at(priority)).len(),
        trackers.at(priority).upcoming() + got(
            before.inputs.at(priority),
            after.inputs.at(priority),
        ).len() <= u64::MAX,
    ensures
        before.queue@.subset_of(choice(before, after, trackers)),
        choice(before, after, trackers).count(
            queued(
                WorkItem {
                    priority,
                    sequence: (trackers.at(priority).upcoming() + i) as u64,
                    packet: got(before.inputs.at(priority), after.inputs.at(priority))[i],
                },
            ),
        ) > 0,
        choice(before, after, trackers).len() == before.queue@.len() + got(
            before.inputs.at(Priority::High),
            after.inputs.at(Priority::High),
        ).len() + got(
            before.inputs.at(Priority::Medium),
            after.inputs.at(Priority::Medium),
        ).len() + got(before.inputs.at(Priority::Low), after.inputs.at(Priority::Low)).len() + got(
            before.inputs.at(Priority::BestEffort),
            after.inputs.at(Priority::BestEffort),
        ).len(),
{
    broadcast use vstd::multiset::group_multiset_axioms;

    reveal_with_fuel(gains, 5);
    let part = |p: Priority|
        gain(p, trackers.at(p).upcoming(), before.inputs.at(p), after.inputs.at(p));
    assert(Priority::of_rank(0) == Priority::High);
    assert(Priority::of_rank(1) == Priority::Medium);
    assert(Priority::of_rank(2) == Priority::Low);
    assert(Priority::of_rank(3) == Priority::BestEffort);
    assert(gains(4, trackers, before.inputs, after.inputs) == Multiset::empty().add(
        part(Priority::High),
    ).add(part(Priority::Medium)).add(part(Priority::Low)).add(part(Priority::BestEffort)));
    lemma_gain_counts(before, after, trackers, Priority::High);
    lemma_gain_counts(before, after, trackers, Priority::Medium);
    lemma_gain_counts(before, after, trackers, Priority::Low);
    lemma_gain_counts(before, after, trackers, Priority::BestEffort);
    let s = admitted(
        priority,
        trackers.at(priority).upcoming(),
        got(before.inputs.at(priority), after.inputs.at(priority)),
    );
    law_arrivals_are_numbered_in_order(
        priority,
        trackers.at(priority).upcoming(),
        got(before.inputs.at(priority), after.inputs.at(priority)),
        i,
    );
    assert(s.contains(s[i]));
    vstd::seq_lib::to_multiset_contains(s, s[i]);
    assert(part(priority).count(s[i]) > 0);
}

proof fn lemma_gain_counts(
    before: Worker,
    after: Worker,
    trackers: PriorityTable<SequenceTracker>,
    p: Priority,
)
    ensures
        gain(p, trackers.at(p).upcoming(), before.inputs.at(p), after.inputs.at(p)).len() == got(
            before.inputs.at(p),
            after.inputs.at(p),
        ).len(),
{
    vstd::seq_lib::to_multiset_len(
        admitted(
            p,
            trackers.at(p).upcoming(),
            got(before.inputs.at(p), after.inputs.at(p)),
        ),
    );
}

/// Law: a worker that has room for packets of the most critical class, before and after it has chosen,
/// leaves none of them on the input: the last time it asked, none came.
pub proof fn law_critical_packets_are_not_left_waiting(
    before: Receiver<Packet>,
    after: Receiver<Packet>,
    choice: Multiset<Entry<WorkItem>>,
    rest: Multiset<Entry<WorkItem>>,
    chosen: Option<WorkItem>,
    limit: int,
    total: int,
)
    requires
        asked_for_high(before, after, choice, rest, chosen, limit, total),
        count_of(choice, Priority::High) < limit,
        choice.len() < total,
        count_of(rest, Priority::High) < limit,
        rest.len() < total,
    ensures
        channel::replies(after).len() > 0,
        channel::replies(after).last() is Err,
{
}

/// Law: statistics show for each worker the length of its queue as last reported, what it may hold, and
/// its queue by class, most critical class first; the classes of a worker add up to its queue.
pub proof fn law_statistics_show_each_worker(
    scheduler: MultiWorkerScheduler,
    stats: MultiWorkerStats,
    worker: int,
    item: WorkItem,
)
    requires
        scheduler.shown_by(stats),
        0 <= worker < 3,
    ensures
        ({
            let row = stats.worker_priority_depths@[worker]@;
            &&& stats.worker_queue_depths@.len() == 3
            &&& stats.worker_queue_capacities@.len() == 3
            &&& stats.worker_priority_depths@.len() == 3
            &&& stats.dispatcher_backlog == 0
            &&& stats.worker_queue_depths@[worker] == scheduler.workers@[worker].backlog
            &&& stats.worker_queue_capacities@[worker] == scheduler.adaptive.total(worker)
            &&& row.len() == 4
            &&& row[0] == count_of(scheduler.workers@[worker].queue@, Priority::High)
            &&& row[1] == count_of(scheduler.workers@[worker].queue@, Priority::Medium)
            &&& row[2] == count_of(scheduler.workers@[worker].queue@, Priority::Low)
            &&& row[3] == count_of(scheduler.workers@[worker].queue@, Priority::BestEffort)
            &&& row[0] + row[1] + row[2] + row[3] == scheduler.workers@[worker].queue@.len()
        }),
{
    let queue = scheduler.workers@[worker].queue@;
    assert(Priority::High.rank() == 0);
    assert(Priority::Medium.rank() == 1);
    assert(Priority::Low.rank() == 2);
    assert(Priority::BestEffort.rank() == 3);
    assert(count_of(queue, Priority::High) >= 0);
    assert(count_of(queue, Priority::Medium) >= 0);
    assert(count_of(queue, Priority::Low) >= 0);
    assert(count_of(queue, Priority::BestEffort) >= 0);
    law_work_counts_for_its_class(queue, item, Priority::High);
}

/// Law: a worker looks for a packet of the most critical class exactly where it has room for one, within
/// its quota for the class and in all. A packet that is there goes ahead as work of that class, and the
/// scheduled work is queued again; otherwise the scheduled work goes on and the queue stays. No more
/// than the packet that goes ahead is taken in.
pub proof fn law_looks_keep_to_the_quotas(
    before: Worker,
    after: Worker,
    scheduled: WorkItem,
    sequence: u64,
    high_limit: int,
    total_limit: int,
    outcome: GuardOutcome,
)
    requires
        after.polled(before, scheduled, sequence, high_limit, total_limit, outcome),
    ensures
        count_of(before.queue@, Priority::High) >= high_limit || before.queue@.len() >= total_limit
            ==> channel::replies(after.inputs.at(Priority::High)) == channel::replies(
            before.inputs.at(Priority::High),
        ) && outcome.item == scheduled,
        count_of(before.queue@, Priority::High) < high_limit && before.queue@.len() < total_limit
            ==> channel::replies(after.inputs.at(Priority::High)).len() == channel::replies(
            before.inputs.at(Priority::High),
        ).len() + 1,
        outcome.state == GuardState::Preempted ==> {
            &&& outcome.item.priority == Priority::High
            &&& outcome.item.sequence == sequence
            &&& channel::taken(after.inputs.at(Priority::High)) == channel::taken(
                before.inputs.at(Priority::High),
            ).push(outcome.item.packet)
            &&& after.queue@.count(queued(scheduled)) > 0
            &&& after.queue@.len() == before.queue@.len() + 1
            &&& after.queue@.len() <= total_limit
        },
        outcome.state != GuardState::Preempted ==> outcome.item == scheduled && after.queue@
            == before.queue@ && channel::taken(after.inputs.at(Priority::High)) == channel::taken(
            before.inputs.at(Priority::High),
        ),
{
    broadcast use vstd::multiset::group_multiset_axioms;

}

/// Law: a worker chooses nothing only where it has nothing to choose from.
pub proof fn law_where_work_waits_some_is_chosen(
    choice: Multiset<Entry<WorkItem>>,
    rest: Multiset<Entry<WorkItem>>,
)
    requires
        took_first(choice, rest, None),
    ensures
        choice.len() == 0,
        rest == choice,
{
}

/// Law: a worker that has chosen work looks for packets of the most critical class once more before it
/// starts, unless the work is of the medium class and some of the most critical class waits already.
pub proof fn law_chosen_work_is_preceded_by_another_look(
    before: Receiver<Packet>,
    after: Receiver<Packet>,
    choice: Multiset<Entry<WorkItem>>,
    rest: Multiset<Entry<WorkItem>>,
    chosen: WorkItem,
    limit: int,
    total: int,
)
    requires
        asked_for_high(before, after, choice, rest, Some(chosen), limit, total),
        chosen.priority != Priority::Medium || count_of(rest, Priority::High) == 0,
    ensures
        exists|middle: Receiver<Packet>| #[trigger]
            filled(before, middle, choice, Priority::High, limit, total) && filled(
                middle,
                after,
                rest,
                Priority::High,
                limit,
                total,
            ),
{
}

} // verus!

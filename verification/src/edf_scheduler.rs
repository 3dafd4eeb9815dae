//! Earliest-deadline-first scheduler with a heap of bounded size.
//!
//! Each step merges what came on the inputs into the heap and works on the task that is due first.

use crate::channel;
use crate::heap::{Entry, MinHeap};
use crate::packet::Packet;
use crate::priority::{Priority, PriorityTable};
use crate::scheduler::edf;
use crate::scheduler::edf::{copy_counts, make_task, task_of, EDFDropCounters, EDFTask};
use crate::scheduler::output::{advanced, bump};
use crate::time::Duration;
use crossbeam_channel::{Receiver, Sender};
use vstd::multiset::Multiset;
use vstd::prelude::*;

verus! {

/// Time that the smallest packets take, in nanoseconds.
pub const BASE_COST: u64 = 200_000;

/// Hash of a payload: each byte is added to 31 times what came before, modulo 2^64.
pub open spec fn payload_hash(bytes: Seq<u8>) -> u64
    decreases bytes.len(),
{
    if bytes.len() == 0 {
        0
    } else {
        ((payload_hash(bytes.drop_last()) * 31 + bytes.last()) % 0x1_0000_0000_0000_0000) as u64
    }
}

/// Surcharge for a payload of `len` bytes, in nanoseconds: nothing up to 200 bytes, then growing
/// evenly to 0.2 ms at 1400 bytes and staying there, rounded to the nearest nanosecond.
pub open spec fn surcharge(len: int) -> int {
    if len <= 200 {
        0
    } else if len < 1400 {
        (1000 * (len - 200) + 3) / 6
    } else {
        200_000
    }
}

/// Nanoseconds that each unit of the payload's hash, taken modulo 1000, adds.
pub open spec fn jitter_step(priority: Priority) -> int {
    match priority {
        Priority::High => 2,
        Priority::Medium => 4,
        _ => 6,
    }
}

/// Time that the work on a packet takes, in nanoseconds.
pub open spec fn spec_processing_time(packet: Packet) -> int {
    BASE_COST + surcharge(packet.spec_len() as int) + jitter_step(packet.priority) * (payload_hash(
        packet.spec_payload(),
    ) % 1000)
}

/// Computes [`payload_hash`].
pub fn hash_payload(bytes: &[u8]) -> (hash: u64)
    ensures
        hash == payload_hash(bytes@),
{
    let mut hash: u64 = 0;
    let mut i: usize = 0;
    while i < bytes.len()
        invariant
            i <= bytes@.len(),
            hash == payload_hash(bytes@.take(i as int)),
        decreases bytes@.len() - i,
    {
        assert(bytes@.take(i + 1).drop_last() =~= bytes@.take(i as int));
        proof {
            let h = hash as int;
            let b = bytes@[i as int] as int;
            let m = 0x1_0000_0000_0000_0000int;
            vstd::arithmetic::div_mod::lemma_add_mod_noop(h * 31, b, m);
        }
        hash = hash.wrapping_mul(31).wrapping_add(bytes[i] as u64);
        i = i + 1;
    }
    assert(bytes@.take(i as int) =~= bytes@);
    hash
}

/// A task as it is queued.
pub open spec fn by_deadline(task: EDFTask) -> Entry<EDFTask> {
    Entry { key: task.deadline.nanos as i128, item: task }
}

/// Whether `taken` is a task that is due first among `before`, and `after` is what stays.
pub open spec fn took_earliest(
    before: Multiset<Entry<EDFTask>>,
    after: Multiset<Entry<EDFTask>>,
    taken: Option<EDFTask>,
) -> bool {
    match taken {
        Some(task) => {
            &&& before.count(by_deadline(task)) > 0
            &&& after == before.remove(by_deadline(task))
            &&& forall|e: Entry<EDFTask>| #[trigger]
                before.count(e) > 0 ==> task.deadline.nanos <= e.key
        },
        None => before.len() == 0 && after == before,
    }
}

/// What putting a task into a heap for at most `most` tasks does: where there is no room, a task
/// that is due first leaves for it. There is none to leave where the heap is empty, however small
/// it is.
pub open spec fn inserted(
    before: Multiset<Entry<EDFTask>>,
    after: Multiset<Entry<EDFTask>>,
    most: usize,
    task: EDFTask,
    dropped: Option<EDFTask>,
) -> bool {
    if before.len() < most {
        after == before.insert(by_deadline(task)) && dropped is None
    } else {
        exists|left: Multiset<Entry<EDFTask>>| #[trigger]
            took_earliest(before, left, dropped) && after == left.insert(by_deadline(task))
    }
}

/// Scheduler with a heap of bounded size.
pub struct EDFScheduler {
    /// Inputs, outputs and their counters. Its places merge the inputs by deadline.
    pub merge: edf::EDFScheduler,
    pub tasks: MinHeap<EDFTask>,
    /// Tasks that left the heap for others.
    pub heap_drops: u64,
}

/// What a step comes to.
pub struct Step {
    /// The task to work on, if there is one.
    pub taken: Option<EDFTask>,
    /// The tasks that left the heap for others, in the order in which they left.
    pub dropped: Vec<EDFTask>,
}

/// What taking in `task` from the inputs does to the scheduler.
pub open spec fn absorbed(
    before: EDFScheduler,
    after: EDFScheduler,
    task: EDFTask,
    dropped: Option<EDFTask>,
) -> bool {
    &&& exists|priority: Priority| #[trigger]
        after.merge.took(before.merge, Some((priority, task)))
    &&& inserted(before.tasks@, after.tasks@, before.merge.max_heap_size, task, dropped)
    &&& after.heap_drops == if before.tasks@.len() < before.merge.max_heap_size {
        before.heap_drops
    } else {
        advanced(before.heap_drops, 1)
    }
}

/// The tasks with one more, if there is one.
pub open spec fn with_any(tasks: Seq<EDFTask>, one: Option<EDFTask>) -> Seq<EDFTask> {
    match one {
        Some(task) => tasks.push(task),
        None => tasks,
    }
}

/// What taking in `tasks` from the inputs, one after the other, does to the scheduler. The tasks
/// that leave the heap for them are `dropped`.
pub open spec fn all_absorbed(
    before: EDFScheduler,
    after: EDFScheduler,
    tasks: Seq<EDFTask>,
    dropped: Seq<EDFTask>,
) -> bool
    decreases tasks.len(),
{
    if tasks.len() == 0 {
        after == before && dropped.len() == 0
    } else {
        exists|middle: EDFScheduler, earlier: Seq<EDFTask>, last: Option<EDFTask>|
            all_absorbed(before, middle, tasks.drop_last(), earlier) && #[trigger] absorbed(
                middle,
                after,
                tasks.last(),
                last,
            ) && dropped == #[trigger] with_any(earlier, last)
    }
}

proof fn lemma_one_more_absorbed(
    before: EDFScheduler,
    middle: EDFScheduler,
    after: EDFScheduler,
    tasks: Seq<EDFTask>,
    dropped: Seq<EDFTask>,
    task: EDFTask,
    last: Option<EDFTask>,
)
    requires
        all_absorbed(before, middle, tasks, dropped),
        absorbed(middle, after, task, last),
    ensures
        all_absorbed(before, after, tasks.push(task), with_any(dropped, last)),
{
    let more = tasks.push(task);
    assert(more.drop_last() =~= tasks);
    assert(more.last() == task);
    assert(absorbed(middle, after, more.last(), last));
}

impl EDFScheduler {
    pub open spec fn wf(&self) -> bool {
        &&& self.tasks.wf()
        &&& forall|e: Entry<EDFTask>| #[trigger]
            self.tasks@.count(e) > 0 ==> e == by_deadline(e.item)
    }

    /// A scheduler between the given inputs and outputs that holds no packet.
    pub fn new(
        input_queues: PriorityTable<Receiver<Packet>>,
        output_queues: PriorityTable<Sender<Packet>>,
        max_heap_size: usize,
    ) -> (scheduler: EDFScheduler)
        ensures
            scheduler.wf(),
            scheduler.merge.input_queues == input_queues,
            scheduler.merge.output_queues == output_queues,
            scheduler.merge.max_heap_size == max_heap_size,
            forall|p: Priority| (#[trigger] scheduler.merge.pending.at(p)) is None,
            forall|p: Priority| #[trigger] scheduler.merge.output_drop_counters.at(p) == 0,
            scheduler.tasks@ == Multiset::<Entry<EDFTask>>::empty(),
            scheduler.heap_drops == 0,
    {
        broadcast use vstd::multiset::group_multiset_axioms;

        EDFScheduler {
            merge: edf::EDFScheduler::new(input_queues, output_queues, max_heap_size),
            tasks: MinHeap::new(),
            heap_drops: 0,
        }
    }

    /// Packets that the scheduler dropped.
    pub fn get_drop_counts(&self) -> (counts: EDFDropCounters)
        ensures
            counts.heap == self.heap_drops,
            counts.output == self.merge.output_drop_counters,
    {
        EDFDropCounters {
            heap: self.heap_drops,
            output: copy_counts(&self.merge.output_drop_counters),
        }
    }

    /// Puts a packet into the heap directly, whatever its size. This never fails.
    pub fn enqueue_packet(&mut self, packet: Packet) -> (outcome: Result<(), String>)
        requires
            old(self).wf(),
        ensures
            final(self).wf(),
            outcome is Ok,
            final(self).tasks@ == old(self).tasks@.insert(by_deadline(task_of(packet))),
            final(self).merge == old(self).merge,
            final(self).heap_drops == old(self).heap_drops,
    {
        broadcast use vstd::multiset::group_multiset_axioms;

        let task = make_task(packet);
        let key: i128 = task.deadline.nanos as i128;
        self.tasks.push(key, task);
        Ok(())
    }

    /// Takes a task that is due first out of the heap.
    fn pop_earliest(&mut self) -> (taken: Option<EDFTask>)
        requires
            old(self).wf(),
        ensures
            final(self).wf(),
            took_earliest(old(self).tasks@, final(self).tasks@, taken),
            final(self).merge == old(self).merge,
            final(self).heap_drops == old(self).heap_drops,
    {
        broadcast use vstd::multiset::group_multiset_axioms;

        match self.tasks.pop() {
            Some(entry) => {
                assert(entry == by_deadline(entry.item));
                Some(entry.item)
            },
            None => None,
        }
    }

    /// Puts a task into the heap. Where there is no room, a task that is due first leaves for it,
    /// is counted and handed back.
    pub fn insert(&mut self, task: EDFTask) -> (dropped: Option<EDFTask>)
        requires
            old(self).wf(),
        ensures
            final(self).wf(),
            inserted(
                old(self).tasks@,
                final(self).tasks@,
                old(self).merge.max_heap_size,
                task,
                dropped,
            ),
            final(self).merge == old(self).merge,
            final(self).heap_drops == if old(self).tasks@.len() < old(self).merge.max_heap_size {
                old(self).heap_drops
            } else {
                advanced(old(self).heap_drops, 1)
            },
    {
        broadcast use vstd::multiset::group_multiset_axioms;

        let mut dropped: Option<EDFTask> = None;
        if self.tasks.len() >= self.merge.max_heap_size {
            self.heap_drops = bump(self.heap_drops);
            dropped = self.pop_earliest();
            assert(took_earliest(old(self).tasks@, self.tasks@, dropped));
        }
        let key: i128 = task.deadline.nanos as i128;
        self.tasks.push(key, task);
        dropped
    }

    /// Takes in all packets that wait on the inputs, in the order of their deadlines, and takes out
    /// the task that is due first then, if there is one. The tasks that leave the heap on the way
    /// are handed back. Packets may go on coming while they are taken in; a step takes in no more
    /// than `usize` can count.
    pub fn process_next(&mut self) -> (step: Step)
        requires
            old(self).wf(),
        ensures
            final(self).wf(),
            exists|came: Seq<EDFTask>, full: EDFScheduler| #[trigger]
                all_absorbed(*old(self), full, came, step.dropped@) && {
                    &&& final(self).merge.took(full.merge, None) || came.len() == usize::MAX
                        && final(self).merge == full.merge
                    &&& took_earliest(full.tasks@, final(self).tasks@, step.taken)
                    &&& final(self).heap_drops == full.heap_drops
                },
    {
        let ghost mut came = Seq::<EDFTask>::empty();
        let mut dropped: Vec<EDFTask> = Vec::new();
        let mut more: bool = true;
        let mut rounds: usize = usize::MAX;
        let ghost mut full = *self;
        while more && rounds > 0
            invariant
                self.wf(),
                all_absorbed(*old(self), full, came, dropped@),
                came.len() + rounds == usize::MAX,
                full.tasks == self.tasks,
                full.heap_drops == self.heap_drops,
                more ==> *self == full,
                !more ==> self.merge.took(full.merge, None),
            decreases rounds, (if more { 1int } else { 0 }),
        {
            match self.merge.process_next() {
                Some((priority, task)) => {
                    assert(self.merge.took(full.merge, Some((priority, task))));
                    let ghost before = dropped@;
                    let left = self.insert(task);
                    rounds = rounds - 1;
                    proof {
                        assert(absorbed(full, *self, task, left));
                        lemma_one_more_absorbed(
                            *old(self),
                            full,
                            *self,
                            came,
                            before,
                            task,
                            left,
                        );
                        came = came.push(task);
                        full = *self;
                    }
                    match left {
                        Some(left) => {
                            dropped.push(left);
                        },
                        None => {},
                    }
                },
                None => {
                    more = false;
                },
            }
        }
        let taken = self.pop_earliest();
        let step = Step { taken, dropped };
        assert(all_absorbed(*old(self), full, came, step.dropped@));
        step
    }

    /// Time that the work on a packet takes: 0.2 ms, up to 0.2 ms more for large payloads, and a
    /// little that depends on what the payload holds.
    pub fn processing_time(packet: &Packet) -> (cost: Duration)
        ensures
            cost.nanos == spec_processing_time(*packet),
    {
        let hash: u64 = hash_payload(packet.payload());
        let len: usize = packet.len();
        let extra: u64 = if len <= 200 {
            0
        } else if len < 1400 {
            (1000 * ((len - 200) as u64) + 3) / 6
        } else {
            200_000
        };
        let jitter: u64 = match packet.priority {
            Priority::High => 2 * (hash % 1000),
            Priority::Medium => 4 * (hash % 1000),
            _ => 6 * (hash % 1000),
        };
        Duration { nanos: BASE_COST + extra + jitter }
    }

    /// Offers a packet that was worked on to the output of its class. A packet that the output does
    /// not take is counted and handed back.
    pub fn forward(&mut self, packet: Packet) -> (rejected: Option<Packet>)
        requires
            old(self).wf(),
        ensures
            final(self).wf(),
            final(self).merge.forwarded(old(self).merge, packet.priority, packet, rejected),
            final(self).tasks == old(self).tasks,
            final(self).heap_drops == old(self).heap_drops,
    {
        self.merge.forward(packet)
    }

    /// Whether there is work, given which inputs have packets waiting.
    pub fn holds_work(&self, waiting: &PriorityTable<bool>) -> (yes: bool)
        requires
            self.wf(),
        ensures
            yes == (self.tasks@.len() > 0 || exists|p: Priority| #[trigger] waiting.at(p)),
    {
        let any: bool = *waiting.get(Priority::High) || *waiting.get(Priority::Medium)
            || *waiting.get(Priority::Low) || *waiting.get(Priority::BestEffort);
        !self.tasks.is_empty() || any
    }

    /// Whether there is work: a task in the heap, or a packet waiting on an input at some moment of
    /// the call. What waits on an input is known to a caller that holds its sending end and shares
    /// neither end.
    pub fn has_tasks(&self, peers: &PriorityTable<Option<&Sender<Packet>>>) -> (yes: bool)
        requires
            self.wf(),
        ensures
            self.tasks@.len() > 0 ==> yes,
            forall|p: Priority|
                known_to_wait(#[trigger] peers.at(p), self.merge.input_queues.at(p)) ==> yes,
            yes ==> self.tasks@.len() > 0 || exists|p: Priority|
                !known_to_be_empty(#[trigger] peers.at(p), self.merge.input_queues.at(p)),
            (forall|p: Priority|
                is_known(#[trigger] peers.at(p), self.merge.input_queues.at(p))) ==> yes == (
            self.tasks@.len() > 0 || exists|p: Priority|
                known_to_wait(#[trigger] peers.at(p), self.merge.input_queues.at(p))),
    {
        let inputs = &self.merge.input_queues;
        let waiting = PriorityTable::of(
            !channel::is_empty(inputs.get(Priority::High), *peers.get(Priority::High)),
            !channel::is_empty(inputs.get(Priority::Medium), *peers.get(Priority::Medium)),
            !channel::is_empty(inputs.get(Priority::Low), *peers.get(Priority::Low)),
            !channel::is_empty(inputs.get(Priority::BestEffort), *peers.get(Priority::BestEffort)),
        );
        let yes: bool = self.holds_work(&waiting);
        proof {
            assert forall|p: Priority| known_to_wait(
                #[trigger] peers.at(p),
                self.merge.input_queues.at(p),
            ) implies yes by {
                assert(waiting.at(p));
            }
            if yes && self.tasks@.len() == 0 {
                let p = choose|p: Priority| #[trigger] waiting.at(p);
                assert(!known_to_be_empty(peers.at(p), self.merge.input_queues.at(p)));
                if is_known(peers.at(p), self.merge.input_queues.at(p)) {
                    assert(known_to_wait(peers.at(p), self.merge.input_queues.at(p)));
                }
            }
        }
        yes
    }
}

/// Whether the sending end of an input is at hand and neither end is shared.
pub open spec fn is_known(peer: Option<&Sender<Packet>>, input: Receiver<Packet>) -> bool {
    peer matches Some(tx) && channel::sole_ends(*tx, input)
}

/// Whether the sending end shows that a packet waits on an input.
pub open spec fn known_to_wait(peer: Option<&Sender<Packet>>, input: Receiver<Packet>) -> bool {
    is_known(peer, input) && channel::in_flight(*peer->0, input).len() > 0
}

/// Whether the sending end shows that no packet waits on an input.
pub open spec fn known_to_be_empty(peer: Option<&Sender<Packet>>, input: Receiver<Packet>) -> bool {
    is_known(peer, input) && channel::in_flight(*peer->0, input).len() == 0
}

/// Law: the heap stays within its bound once it is, unless the bound is zero.
pub proof fn law_heap_stays_bounded(
    before: Multiset<Entry<EDFTask>>,
    after: Multiset<Entry<EDFTask>>,
    most: usize,
    task: EDFTask,
    dropped: Option<EDFTask>,
)
    requires
        inserted(before, after, most, task, dropped),
        0 < most,
        before.len() <= most,
    ensures
        after.len() <= most,
{
    broadcast use vstd::multiset::group_multiset_axioms;

}

/// Law: a new task always gets its place in the heap.
pub proof fn law_newcomers_are_queued(
    before: Multiset<Entry<EDFTask>>,
    after: Multiset<Entry<EDFTask>>,
    most: usize,
    task: EDFTask,
    dropped: Option<EDFTask>,
)
    requires
        inserted(before, after, most, task, dropped),
    ensures
        after.count(by_deadline(task)) > 0,
{
    broadcast use vstd::multiset::group_multiset_axioms;

}

/// Law: no task vanishes: what the heap holds after a task came, and the task that left for it, are
/// what it held before and that task.
pub proof fn law_no_task_vanishes(
    before: Multiset<Entry<EDFTask>>,
    after: Multiset<Entry<EDFTask>>,
    most: usize,
    task: EDFTask,
    dropped: Option<EDFTask>,
)
    requires
        inserted(before, after, most, task, dropped),
    ensures
        match dropped {
            Some(left) => after.insert(by_deadline(left)),
            None => after,
        } == before.insert(by_deadline(task)),
{
    broadcast use vstd::multiset::group_multiset_axioms;

    assert(match dropped {
        Some(left) => after.insert(by_deadline(left)),
        None => after,
    } =~= before.insert(by_deadline(task)));
}

/// Law: the hash of a payload takes in one byte after the other: 31 times the hash so far plus the byte,
/// as far as a `u64` holds it.
pub proof fn law_hash_takes_in_byte_by_byte(bytes: Seq<u8>, byte: u8)
    ensures
        payload_hash(Seq::empty()) == 0,
        payload_hash(bytes.push(byte)) == (31 * payload_hash(bytes) + byte)
            % 0x1_0000_0000_0000_0000,
        31 * payload_hash(bytes) + byte <= u64::MAX ==> payload_hash(bytes.push(byte)) == 31
            * payload_hash(bytes) + byte,
{
    assert(bytes.push(byte).drop_last() =~= bytes);
}

/// Law: the work on a packet takes 0.2 ms; from 200 to 1400 bytes it takes 500/3 ns more for each byte,
/// to the nearest nanosecond, and no more beyond; and it takes the payload's hash modulo 1000 times 2
/// ns more in the high class, 4 ns in the medium class and 6 ns in the others.
pub proof fn law_work_takes_size_and_content(packet: Packet)
    ensures
        ({
            let len = packet.spec_len();
            let units = payload_hash(packet.spec_payload()) % 1000;
            let step = match packet.priority {
                Priority::High => 2int,
                Priority::Medium => 4,
                Priority::Low => 6,
                Priority::BestEffort => 6,
            };
            let extra = spec_processing_time(packet) - 200_000 - step * units;
            &&& len <= 200 ==> extra == 0
            &&& 200 < len < 1400 ==> -3 <= 6 * extra - 1000 * (len - 200) <= 3
            &&& len >= 1400 ==> extra == 200_000
            &&& 200_000 <= spec_processing_time(packet) <= 405_994
        }),
{
    let units = (payload_hash(packet.spec_payload()) % 1000) as int;
    assert(jitter_step(packet.priority) * units == (match packet.priority {
        Priority::High => 2 * units,
        Priority::Medium => 4 * units,
        _ => 6 * units,
    }));
}

/// Law: a task only leaves the heap for another where there is no room, and then it is due no later
/// than any other that was there, by arrival plus budget. Where there is room, none leaves.
pub proof fn law_what_is_due_first_makes_room(
    before: Multiset<Entry<EDFTask>>,
    after: Multiset<Entry<EDFTask>>,
    most: usize,
    task: EDFTask,
    left: Packet,
    other: Packet,
)
    requires
        inserted(before, after, most, task, Some(task_of(left))),
        before.count(by_deadline(task_of(other))) > 0,
        left.timestamp.nanos + left.latency_budget.nanos <= u64::MAX,
        other.timestamp.nanos + other.latency_budget.nanos <= u64::MAX,
    ensures
        before.len() >= most,
        before.count(by_deadline(task_of(left))) > 0,
        left.timestamp.nanos + left.latency_budget.nanos <= other.timestamp.nanos
            + other.latency_budget.nanos,
{
    assert(before.count(by_deadline(task_of(other))) > 0);
}

/// Law: a heap without room loses a task to every newcomer, unless it is empty.
pub proof fn law_a_full_heap_loses_a_task(
    before: Multiset<Entry<EDFTask>>,
    after: Multiset<Entry<EDFTask>>,
    most: usize,
    task: EDFTask,
    dropped: Option<EDFTask>,
)
    requires
        inserted(before, after, most, task, dropped),
    ensures
        dropped is Some <==> before.len() >= most && before.len() > 0,
        before.len() < most ==> after.len() == before.len() + 1,
{
    broadcast use vstd::multiset::group_multiset_axioms;

}

/// Law: the task that is worked on is due no later than any that stays in the heap, by arrival plus
/// budget, and nothing but it leaves the heap.
pub proof fn law_what_is_due_first_is_worked_on(
    before: Multiset<Entry<EDFTask>>,
    after: Multiset<Entry<EDFTask>>,
    taken: Packet,
    other: Packet,
)
    requires
        took_earliest(before, after, Some(task_of(taken))),
        after.count(by_deadline(task_of(other))) > 0,
        taken.timestamp.nanos + taken.latency_budget.nanos <= u64::MAX,
        other.timestamp.nanos + other.latency_budget.nanos <= u64::MAX,
    ensures
        taken.timestamp.nanos + taken.latency_budget.nanos <= other.timestamp.nanos
            + other.latency_budget.nanos,
        after.insert(by_deadline(task_of(taken))) == before,
{
    broadcast use vstd::multiset::group_multiset_axioms;

    assert(before.count(by_deadline(task_of(other))) > 0);
    assert(after.insert(by_deadline(task_of(taken))) =~= before);
}

/// Law: every task taken in while the heap is full counts as a drop, and none while it is not.
pub proof fn law_drops_count_full_heaps(
    before: EDFScheduler,
    after: EDFScheduler,
    task: EDFTask,
    dropped: Option<EDFTask>,
)
    requires
        absorbed(before, after, task, dropped),
        before.heap_drops < u64::MAX,
        before.merge.max_heap_size > 0,
    ensures
        after.heap_drops - before.heap_drops == (if dropped is Some {
            1int
        } else {
            0
        }),
        after.heap_drops - before.heap_drops == (if before.tasks@.len()
            >= before.merge.max_heap_size {
            1int
        } else {
            0
        }),
{
    law_a_full_heap_loses_a_task(
        before.tasks@,
        after.tasks@,
        before.merge.max_heap_size,
        task,
        dropped,
    );
}

/// Law: there is work exactly where the heap holds a task or some input holds a packet, as far as the
/// sending ends tell: an input of which they tell is known either to hold one or to hold none.
pub proof fn law_known_inputs_hold_a_packet_or_none(
    peer: Option<&Sender<Packet>>,
    input: Receiver<Packet>,
)
    ensures
        is_known(peer, input) <==> known_to_wait(peer, input) || known_to_be_empty(peer, input),
        !(known_to_wait(peer, input) && known_to_be_empty(peer, input)),
        known_to_wait(peer, input) ==> channel::in_flight(*peer->0, input).len() > 0,
{
}

/// Law: taking in tasks loses none and makes none up: what the heap holds then and what left it for them
/// are what it held before and the tasks. Each that left counts as a drop, unless the heap has no
/// room at all.
pub proof fn law_taking_in_accounts_for_all(
    before: EDFScheduler,
    after: EDFScheduler,
    tasks: Seq<EDFTask>,
    dropped: Seq<EDFTask>,
)
    requires
        all_absorbed(before, after, tasks, dropped),
        before.merge.max_heap_size > 0,
    ensures
        after.tasks@.add(dropped.map_values(|task: EDFTask| by_deadline(task)).to_multiset())
            == before.tasks@.add(
            tasks.map_values(|task: EDFTask| by_deadline(task)).to_multiset(),
        ),
        after.heap_drops == advanced(before.heap_drops, dropped.len()),
        after.merge.max_heap_size == before.merge.max_heap_size,
    decreases tasks.len(),
{
    broadcast use vstd::multiset::group_multiset_axioms;

    let f = |task: EDFTask| by_deadline(task);
    if tasks.len() == 0 {
        assert(tasks.map_values(f) =~= Seq::empty());
        assert(dropped.map_values(f) =~= Seq::empty());
        assert(after.tasks@.add(dropped.map_values(f).to_multiset()) =~= before.tasks@.add(
            tasks.map_values(f).to_multiset(),
        ));
    } else {
        let (middle, earlier, last) = choose|
            middle: EDFScheduler,
            earlier: Seq<EDFTask>,
            last: Option<EDFTask>,
        |
            all_absorbed(before, middle, tasks.drop_last(), earlier) && #[trigger] absorbed(
                middle,
                after,
                tasks.last(),
                last,
            ) && dropped == #[trigger] with_any(earlier, last);
        law_taking_in_accounts_for_all(before, middle, tasks.drop_last(), earlier);
        law_no_task_vanishes(
            middle.tasks@,
            after.tasks@,
            middle.merge.max_heap_size,
            tasks.last(),
            last,
        );
        law_a_full_heap_loses_a_task(
            middle.tasks@,
            after.tasks@,
            middle.merge.max_heap_size,
            tasks.last(),
            last,
        );
        crate::scheduler::output::law_counters_go_on(before.heap_drops, earlier.len(), 1);
        assert(tasks.map_values(f) =~= tasks.drop_last().map_values(f).push(f(tasks.last())));
        vstd::seq_lib::to_multiset_build(tasks.drop_last().map_values(f), f(tasks.last()));
        match last {
            Some(left) => {
                assert(dropped.map_values(f) =~= earlier.map_values(f).push(f(left)));
                vstd::seq_lib::to_multiset_build(earlier.map_values(f), f(left));
            },
            None => {},
        }
        let gone = dropped.map_values(f).to_multiset();
        let come = tasks.map_values(f).to_multiset();
        assert forall|e: Entry<EDFTask>| #[trigger]
            after.tasks@.add(gone).count(e) == before.tasks@.add(come).count(e) by {
            let earlier_gone = earlier.map_values(f).to_multiset();
            let earlier_come = tasks.drop_last().map_values(f).to_multiset();
            assert(middle.tasks@.add(earlier_gone).count(e) == before.tasks@.add(
                earlier_come,
            ).count(e));
            assert(match last {
                Some(left) => after.tasks@.insert(by_deadline(left)),
                None => after.tasks@,
            }.count(e) == middle.tasks@.insert(by_deadline(tasks.last())).count(e));
        }
        assert(after.tasks@.add(gone) =~= before.tasks@.add(come));
    }
}

/// Law: no task is worked on only where the heap holds none.
pub proof fn law_where_tasks_wait_one_is_worked_on(
    before: Multiset<Entry<EDFTask>>,
    after: Multiset<Entry<EDFTask>>,
)
    requires
        took_earliest(before, after, None),
    ensures
        before.len() == 0,
        after == before,
{
}

} // verus!

//! Single-threaded earliest-deadline-first scheduler.
//!
//! The scheduler holds at most one packet of each class and works on the one that is due first.

use crate::channel;
use crate::channel::RecvFailure;
use crate::packet::Packet;
use crate::priority::{Priority, PriorityTable};
use crate::scheduler::completion::{lemma_splits_push, splits};
use crate::scheduler::cost::{size_cost, spec_cost};
use crate::scheduler::output::{advanced, offered, send_packet};
use crate::time::{Duration, Instant};
use crossbeam_channel::{Receiver, Sender};
use vstd::prelude::*;

verus! {

/// Time that the smallest packets take, in nanoseconds.
pub const BASE_COST: u64 = 100_000;

/// Packets that a scheduler dropped.
#[derive(Debug)]
pub struct EDFDropCounters {
    /// Packets dropped because the scheduler itself had no room.
    pub heap: u64,
    /// Packets of each class that the output did not take.
    pub output: PriorityTable<u64>,
}

/// The values of a table of counters.
pub fn copy_counts(counters: &PriorityTable<u64>) -> (counts: PriorityTable<u64>)
    ensures
        counts == *counters,
{
    broadcast use PriorityTable::lemma_ext;

    let counts = PriorityTable::of(
        *counters.get(Priority::High),
        *counters.get(Priority::Medium),
        *counters.get(Priority::Low),
        *counters.get(Priority::BestEffort),
    );
    assert(counts.agrees(*counters));
    counts
}

/// A packet with the time at which it is due.
#[derive(Debug)]
pub struct EDFTask {
    pub packet: Packet,
    pub deadline: Instant,
}

/// The task that a packet becomes.
pub open spec fn task_of(packet: Packet) -> EDFTask {
    EDFTask { packet, deadline: packet.spec_deadline() }
}

/// Makes a task of a packet.
pub fn make_task(packet: Packet) -> (task: EDFTask)
    ensures
        task == task_of(packet),
{
    EDFTask { deadline: packet.deadline(), packet }
}

/// Whether `priority` holds the task that goes first: none is due earlier, and no more critical
/// class holds one that is due at the same time.
pub open spec fn goes_first(pending: PriorityTable<Option<EDFTask>>, priority: Priority) -> bool {
    &&& pending.at(priority) is Some
    &&& forall|p: Priority|
        (#[trigger] pending.at(p)) is Some ==> {
            &&& pending.at(priority).unwrap().deadline.nanos <= pending.at(
                p,
            ).unwrap().deadline.nanos
            &&& p.rank() < priority.rank() ==> pending.at(priority).unwrap().deadline.nanos
                < pending.at(p).unwrap().deadline.nanos
        }
}

/// Law: at most one class holds the task that goes first.
pub proof fn law_choice_is_unique(
    pending: PriorityTable<Option<EDFTask>>,
    a: Priority,
    b: Priority,
)
    requires
        goes_first(pending, a),
        goes_first(pending, b),
    ensures
        a == b,
{
    assert(pending.at(a) is Some);
    assert(pending.at(b) is Some);
}

/// The class whose task goes first, if any task is there.
pub fn find_earliest(pending: &PriorityTable<Option<EDFTask>>) -> (found: Option<Priority>)
    ensures
        match found {
            Some(priority) => goes_first(*pending, priority),
            None => forall|p: Priority| (#[trigger] pending.at(p)) is None,
        },
{
    let mut found: Option<Priority> = None;
    let mut least: u64 = 0;
    let mut i: usize = 0;
    while i < 4
        invariant
            i <= 4,
            match found {
                Some(priority) => {
                    &&& priority.rank() < i
                    &&& pending.at(priority) is Some
                    &&& least == pending.at(priority).unwrap().deadline.nanos
                    &&& forall|p: Priority|
                        p.rank() < i && (#[trigger] pending.at(p)) is Some ==> {
                            &&& least <= pending.at(p).unwrap().deadline.nanos
                            &&& p.rank() < priority.rank() ==> least < pending.at(
                                p,
                            ).unwrap().deadline.nanos
                        }
                },
                None => forall|p: Priority| p.rank() < i ==> (#[trigger] pending.at(p)) is None,
            },
        decreases 4 - i,
    {
        let priority = Priority::from_index(i);
        match pending.get(priority) {
            Some(task) => {
                if found.is_none() || task.deadline.nanos < least {
                    found = Some(priority);
                    least = task.deadline.nanos;
                }
            },
            None => {},
        }
        i = i + 1;
    }
    found
}

/// What refilling does to the place of one class: a place that is taken stays as it is; a free one
/// gets the packet that its input gives when it is asked once, if it gives one.
pub open spec fn refilled(
    before: Option<EDFTask>,
    after: Option<EDFTask>,
    rx_before: Receiver<Packet>,
    rx_after: Receiver<Packet>,
) -> bool {
    match before {
        Some(_) => after == before && rx_after == rx_before,
        None => match after {
            None => exists|why: RecvFailure|
                #[trigger] channel::received(Err(why), rx_before, rx_after),
            Some(task) => {
                &&& task == task_of(task.packet)
                &&& channel::received(Ok(task.packet), rx_before, rx_after)
            },
        },
    }
}

/// Whether the task of class `priority` is the one that goes first among `before`, and `after` is
/// what stays.
pub open spec fn chosen_at(
    before: PriorityTable<Option<EDFTask>>,
    after: PriorityTable<Option<EDFTask>>,
    priority: Priority,
    task: EDFTask,
) -> bool {
    &&& goes_first(before, priority)
    &&& before.at(priority) == Some(task)
    &&& after.at(priority) is None
    &&& forall|p: Priority| p != priority ==> #[trigger] after.at(p) == before.at(p)
}

/// Whether `taken` is the task that goes first among `before`, with its class, and `after` is what
/// stays.
pub open spec fn chosen(
    before: PriorityTable<Option<EDFTask>>,
    after: PriorityTable<Option<EDFTask>>,
    taken: Option<(Priority, EDFTask)>,
) -> bool {
    match taken {
        Some((priority, task)) => chosen_at(before, after, priority, task),
        None => after == before && forall|p: Priority| (#[trigger] before.at(p)) is None,
    }
}

/// Law: the chosen task is due no later than any that stays, so work is always taken up in the
/// order of deadlines.
pub proof fn law_nothing_due_earlier_stays(
    before: PriorityTable<Option<EDFTask>>,
    after: PriorityTable<Option<EDFTask>>,
    priority: Priority,
    task: EDFTask,
)
    requires
        chosen(before, after, Some((priority, task))),
    ensures
        forall|p: Priority|
            (#[trigger] after.at(p)) is Some ==> task.deadline.nanos <= after.at(
                p,
            ).unwrap().deadline.nanos,
{
    assert forall|p: Priority| (#[trigger] after.at(p)) is Some implies task.deadline.nanos
        <= after.at(p).unwrap().deadline.nanos by {
        assert(p != priority);
        assert(before.at(p) is Some);
    }
}

/// Takes out the task that goes first, with its class.
pub fn take_earliest(pending: &mut PriorityTable<Option<EDFTask>>) -> (taken: Option<
    (Priority, EDFTask),
>)
    ensures
        chosen(*old(pending), *final(pending), taken),
{
    match find_earliest(pending) {
        Some(priority) => {
            let slot = pending.get_mut(priority);
            match slot.take() {
                Some(task) => Some((priority, task)),
                None => None,
            }
        },
        None => None,
    }
}

/// Scheduler with one place for each class.
pub struct EDFScheduler {
    pub input_queues: PriorityTable<Receiver<Packet>>,
    pub output_queues: PriorityTable<Sender<Packet>>,
    pub output_drop_counters: PriorityTable<u64>,
    /// The packet of each class that waits to be worked on.
    pub pending: PriorityTable<Option<EDFTask>>,
    /// Kept for configurations that set it; one packet of each class is held whatever it says.
    pub max_heap_size: usize,
}

impl EDFScheduler {
    /// A scheduler between the given inputs and outputs that holds no packet.
    pub fn new(
        input_queues: PriorityTable<Receiver<Packet>>,
        output_queues: PriorityTable<Sender<Packet>>,
        max_heap_size: usize,
    ) -> (scheduler: EDFScheduler)
        ensures
            scheduler.input_queues == input_queues,
            scheduler.output_queues == output_queues,
            scheduler.max_heap_size == max_heap_size,
            forall|p: Priority| (#[trigger] scheduler.pending.at(p)) is None,
            forall|p: Priority| #[trigger] scheduler.output_drop_counters.at(p) == 0,
    {
        EDFScheduler {
            input_queues,
            output_queues,
            output_drop_counters: PriorityTable::of(0, 0, 0, 0),
            pending: PriorityTable::of(None, None, None, None),
            max_heap_size,
        }
    }

    /// Packets that the scheduler dropped. It holds no packet back for lack of room of its own.
    pub fn get_drop_counts(&self) -> (counts: EDFDropCounters)
        ensures
            counts.heap == 0,
            counts.output == self.output_drop_counters,
    {
        EDFDropCounters { heap: 0, output: copy_counts(&self.output_drop_counters) }
    }

    /// Puts a packet into the free place of class `priority`.
    pub fn accept(&mut self, priority: Priority, packet: Packet)
        requires
            old(self).pending.at(priority) is None,
        ensures
            final(self).pending.at(priority) == Some(task_of(packet)),
            forall|p: Priority|
                p != priority ==> #[trigger] final(self).pending.at(p) == old(self).pending.at(p),
            final(self).input_queues == old(self).input_queues,
            final(self).output_queues == old(self).output_queues,
            final(self).output_drop_counters == old(self).output_drop_counters,
            final(self).max_heap_size == old(self).max_heap_size,
    {
        *self.pending.get_mut(priority) = Some(make_task(packet));
    }

    /// Fills the free places from the inputs, at most one packet for each class.
    pub fn refill(&mut self)
        ensures
            forall|p: Priority|
                refilled(
                    old(self).pending.at(p),
                    #[trigger] final(self).pending.at(p),
                    old(self).input_queues.at(p),
                    final(self).input_queues.at(p),
                ),
            final(self).output_queues == old(self).output_queues,
            final(self).output_drop_counters == old(self).output_drop_counters,
            final(self).max_heap_size == old(self).max_heap_size,
    {
        let mut i: usize = 0;
        while i < 4
            invariant
                i <= 4,
                forall|p: Priority|
                    p.rank() < i ==> refilled(
                        old(self).pending.at(p),
                        #[trigger] self.pending.at(p),
                        old(self).input_queues.at(p),
                        self.input_queues.at(p),
                    ),
                forall|p: Priority|
                    p.rank() >= i ==> #[trigger] self.pending.at(p) == old(self).pending.at(p),
                forall|p: Priority|
                    p.rank() >= i ==> #[trigger] self.input_queues.at(p) == old(
                        self).input_queues.at(p),
                self.output_queues == old(self).output_queues,
                self.output_drop_counters == old(self).output_drop_counters,
                self.max_heap_size == old(self).max_heap_size,
            decreases 4 - i,
        {
            let priority = Priority::from_index(i);
            let ghost pending1 = self.pending;
            let ghost inputs1 = self.input_queues;
            assert(pending1.at(priority) == old(self).pending.at(priority));
            if self.pending.get(priority).is_none() {
                match channel::try_recv(self.input_queues.get_mut(priority), None) {
                    Ok(packet) => {
                        self.accept(priority, packet);
                    },
                    Err(why) => {
                        assert(channel::received(
                            Err(why),
                            inputs1.at(priority),
                            self.input_queues.at(priority),
                        ));
                    },
                }
            }
            assert forall|p: Priority| p.rank() < i + 1 implies refilled(
                old(self).pending.at(p),
                #[trigger] self.pending.at(p),
                old(self).input_queues.at(p),
                self.input_queues.at(p),
            ) by {
                if p != priority {
                    assert(self.pending.at(p) == pending1.at(p));
                    assert(self.input_queues.at(p) == inputs1.at(p));
                }
            }
            assert forall|p: Priority| p.rank() >= i + 1 implies #[trigger] self.pending.at(p)
                == old(self).pending.at(p) by {
                assert(self.pending.at(p) == pending1.at(p));
            }
            assert forall|p: Priority| p.rank() >= i + 1 implies #[trigger] self.input_queues.at(p)
                == old(self).input_queues.at(p) by {
                assert(self.input_queues.at(p) == inputs1.at(p));
            }
            i = i + 1;
        }
    }

    /// What taking up the next task does to the scheduler: the free places are filled from the
    /// inputs, and the task that goes first then leaves its place.
    pub open spec fn took(self, before: EDFScheduler, taken: Option<(Priority, EDFTask)>) -> bool {
        &&& exists|filled: PriorityTable<Option<EDFTask>>| #[trigger]
            chosen(filled, self.pending, taken) && forall|p: Priority|
                refilled(
                    before.pending.at(p),
                    #[trigger] filled.at(p),
                    before.input_queues.at(p),
                    self.input_queues.at(p),
                )
        &&& self.output_queues == before.output_queues
        &&& self.output_drop_counters == before.output_drop_counters
        &&& self.max_heap_size == before.max_heap_size
    }

    /// Fills the free places from the inputs and takes out the task that goes first then, with the
    /// class whose place it had. `None` where no packet is there.
    pub fn process_next(&mut self) -> (taken: Option<(Priority, EDFTask)>)
        ensures
            final(self).took(*old(self), taken),
    {
        self.refill();
        let ghost filled = self.pending;
        let taken = take_earliest(&mut self.pending);
        assert(chosen(filled, self.pending, taken));
        taken
    }

    /// Time that the work on a packet takes: 0.1 ms, and up to 0.1 ms more for large payloads.
    pub fn processing_time(packet: &Packet) -> (cost: Duration)
        ensures
            cost == spec_cost(BASE_COST, *packet),
    {
        size_cost(BASE_COST, packet)
    }

    /// Offers a packet that was worked on to the output of its class. A packet that the output does
    /// not take is counted and handed back.
    pub fn forward(&mut self, packet: Packet) -> (rejected: Option<Packet>)
        ensures
            final(self).forwarded(*old(self), packet.priority, packet, rejected),
    {
        let priority = packet.priority;
        send_packet(
            self.output_queues.get_mut(priority),
            self.output_drop_counters.get_mut(priority),
            packet,
        )
    }

    /// What offering a packet to the output of class `priority` does to the scheduler.
    pub open spec fn forwarded(
        self,
        before: EDFScheduler,
        priority: Priority,
        packet: Packet,
        rejected: Option<Packet>,
    ) -> bool {
        &&& offered(
            packet,
            rejected,
            before.output_queues.at(priority),
            self.output_queues.at(priority),
            before.output_drop_counters.at(priority),
            self.output_drop_counters.at(priority),
        )
        &&& forall|p: Priority|
            p != priority ==> #[trigger] self.output_queues.at(p) == before.output_queues.at(p)
        &&& forall|p: Priority|
            p != priority ==> #[trigger] self.output_drop_counters.at(p)
                == before.output_drop_counters.at(p)
        &&& self.input_queues == before.input_queues
        &&& self.pending == before.pending
        &&& self.max_heap_size == before.max_heap_size
    }
}

/// What working on the next packet does: the task that goes first is taken up, and its packet is
/// offered to the output of its class. Where no packet is there, nothing is offered.
pub open spec fn worked(before: EDFScheduler, after: EDFScheduler) -> bool {
    ||| after.took(before, None)
    ||| exists|middle: EDFScheduler, priority: Priority, task: EDFTask, rejected: Option<Packet>|
        #![trigger middle.took(before, Some((priority, task))), after.forwarded(
            middle,
            task.packet.priority,
            task.packet,
            rejected,
        )]
        middle.took(before, Some((priority, task))) && after.forwarded(
            middle,
            task.packet.priority,
            task.packet,
            rejected,
        )
}

/// Whether `steps` times working on the next packet leads from `first` to `last`.
pub open spec fn ran(first: EDFScheduler, last: EDFScheduler, steps: nat) -> bool
    decreases steps,
{
    if steps == 0 {
        last == first
    } else {
        exists|middle: EDFScheduler|
            ran(first, middle, (steps - 1) as nat) && #[trigger] worked(middle, last)
    }
}

/// The packets that were offered to an output between two moments, oldest first.
pub open spec fn handed(before: Sender<Packet>, after: Sender<Packet>) -> Seq<Packet> {
    channel::offers(after).skip(channel::offers(before).len() as int)
}

/// The packets that an output took between two moments, oldest first.
pub open spec fn put(before: Sender<Packet>, after: Sender<Packet>) -> Seq<Packet> {
    channel::sent(after).skip(channel::sent(before).len() as int)
}

/// The packet in a place, if there is one.
pub open spec fn waiting(place: Option<EDFTask>) -> Seq<Packet> {
    match place {
        Some(task) => seq![task.packet],
        None => Seq::empty(),
    }
}

/// Whether all packets of a class that came in are accounted for, in order: they were handed out but
/// for the one that waits, and of those handed out the output took all but the ones that were
/// counted as dropped.
pub open spec fn accounts(first: EDFScheduler, last: EDFScheduler, p: Priority) -> bool {
    let tx0 = first.output_queues.at(p);
    let tx1 = last.output_queues.at(p);
    &&& channel::taken(first.input_queues.at(p)).is_prefix_of(
        channel::taken(last.input_queues.at(p)),
    )
    &&& channel::offers(tx0).is_prefix_of(channel::offers(tx1))
    &&& channel::sent(tx0).is_prefix_of(channel::sent(tx1))
    &&& channel::got(first.input_queues.at(p), last.input_queues.at(p)) == handed(tx0, tx1)
        + waiting(last.pending.at(p))
    &&& exists|lost: Seq<Packet>| #[trigger]
        splits(handed(tx0, tx1), put(tx0, tx1), lost) && last.output_drop_counters.at(p)
            == advanced(first.output_drop_counters.at(p), lost.len())
}

/// Whether every packet that came in came in on the input of its class.
pub open spec fn in_class(first: EDFScheduler, last: EDFScheduler) -> bool {
    forall|p: Priority, i: int|
        0 <= i < channel::got(first.input_queues.at(p), last.input_queues.at(p)).len() ==> (
        #[trigger] channel::got(first.input_queues.at(p), last.input_queues.at(p))[i]).priority == p
}

proof fn lemma_takes_in(before: EDFScheduler, after: EDFScheduler, p: Priority)
    requires
        worked(before, after),
    ensures
        channel::taken(before.input_queues.at(p)).is_prefix_of(
            channel::taken(after.input_queues.at(p)),
        ),
{
    if after.took(before, None) {
        let filled = choose|filled: PriorityTable<Option<EDFTask>>| #[trigger]
            chosen(filled, after.pending, None) && forall|p: Priority|
                refilled(
                    before.pending.at(p),
                    #[trigger] filled.at(p),
                    before.input_queues.at(p),
                    after.input_queues.at(p),
                );
        assert(refilled(
            before.pending.at(p),
            filled.at(p),
            before.input_queues.at(p),
            after.input_queues.at(p),
        ));
    } else {
        let (middle, priority, task, rejected) = choose|
            middle: EDFScheduler,
            priority: Priority,
            task: EDFTask,
            rejected: Option<Packet>,
        |
            #![trigger middle.took(before, Some((priority, task))), after.forwarded(
                middle,
                task.packet.priority,
                task.packet,
                rejected,
            )]
            middle.took(before, Some((priority, task))) && after.forwarded(
                middle,
                task.packet.priority,
                task.packet,
                rejected,
            );
        let filled = choose|filled: PriorityTable<Option<EDFTask>>| #[trigger]
            chosen(filled, middle.pending, Some((priority, task))) && forall|p: Priority|
                refilled(
                    before.pending.at(p),
                    #[trigger] filled.at(p),
                    before.input_queues.at(p),
                    middle.input_queues.at(p),
                );
        assert(refilled(
            before.pending.at(p),
            filled.at(p),
            before.input_queues.at(p),
            middle.input_queues.at(p),
        ));
    }
}

proof fn lemma_run_takes_in(first: EDFScheduler, last: EDFScheduler, steps: nat, p: Priority)
    requires
        ran(first, last, steps),
    ensures
        channel::taken(first.input_queues.at(p)).is_prefix_of(
            channel::taken(last.input_queues.at(p)),
        ),
    decreases steps,
{
    if steps > 0 {
        let middle = choose|middle: EDFScheduler|
            ran(first, middle, (steps - 1) as nat) && #[trigger] worked(middle, last);
        lemma_run_takes_in(first, middle, (steps - 1) as nat, p);
        lemma_takes_in(middle, last, p);
    }
}

proof fn lemma_place_is_filled(
    rx0: Receiver<Packet>,
    rx1: Receiver<Packet>,
    rx2: Receiver<Packet>,
    before: Option<EDFTask>,
    after: Option<EDFTask>,
    out: Seq<Packet>,
)
    requires
        channel::taken(rx0).is_prefix_of(channel::taken(rx1)),
        channel::got(rx0, rx1) == out + waiting(before),
        refilled(before, after, rx1, rx2),
    ensures
        channel::taken(rx0).is_prefix_of(channel::taken(rx2)),
        channel::got(rx0, rx2) == out + waiting(after),
{
    match before {
        Some(_) => {},
        None => {
            match after {
                None => {
                    assert(channel::got(rx0, rx2) =~= channel::got(rx0, rx1));
                },
                Some(task) => {
                    assert(channel::got(rx0, rx2) =~= channel::got(rx0, rx1).push(task.packet));
                    assert(out + waiting(after) =~= (out + waiting(before)).push(task.packet));
                },
            }
        },
    }
}

proof fn lemma_output_accounts(
    tx0: Sender<Packet>,
    tx1: Sender<Packet>,
    tx2: Sender<Packet>,
    drops0: u64,
    drops1: u64,
    drops2: u64,
    packet: Packet,
    rejected: Option<Packet>,
    lost: Seq<Packet>,
)
    requires
        channel::offers(tx0).is_prefix_of(channel::offers(tx1)),
        channel::sent(tx0).is_prefix_of(channel::sent(tx1)),
        splits(handed(tx0, tx1), put(tx0, tx1), lost),
        drops1 == advanced(drops0, lost.len()),
        offered(packet, rejected, tx1, tx2, drops1, drops2),
    ensures
        channel::offers(tx0).is_prefix_of(channel::offers(tx2)),
        channel::sent(tx0).is_prefix_of(channel::sent(tx2)),
        handed(tx0, tx2) == handed(tx0, tx1).push(packet),
        exists|gone: Seq<Packet>| #[trigger]
            splits(handed(tx0, tx2), put(tx0, tx2), gone) && drops2 == advanced(
                drops0,
                gone.len(),
            ),
{
    assert(handed(tx0, tx2) =~= handed(tx0, tx1).push(packet));
    lemma_splits_push(handed(tx0, tx1), put(tx0, tx1), lost, packet);
    match rejected {
        None => {
            assert(put(tx0, tx2) =~= put(tx0, tx1).push(packet));
            assert(splits(handed(tx0, tx2), put(tx0, tx2), lost));
        },
        Some(_) => {
            assert(put(tx0, tx2) =~= put(tx0, tx1));
            assert(splits(handed(tx0, tx2), put(tx0, tx2), lost.push(packet)));
        },
    }
}

proof fn lemma_step_accounts(
    first: EDFScheduler,
    before: EDFScheduler,
    after: EDFScheduler,
    p: Priority,
)
    requires
        forall|q: Priority| #[trigger] accounts(first, before, q),
        worked(before, after),
        in_class(first, after),
    ensures
        accounts(first, after, p),
{
    assert(accounts(first, before, p));
    let rx0 = first.input_queues.at(p);
    let rx1 = before.input_queues.at(p);
    let tx0 = first.output_queues.at(p);
    let tx1 = before.output_queues.at(p);
    let out = handed(tx0, tx1);
    if after.took(before, None) {
        let filled = choose|filled: PriorityTable<Option<EDFTask>>| #[trigger]
            chosen(filled, after.pending, None) && forall|p: Priority|
                refilled(
                    before.pending.at(p),
                    #[trigger] filled.at(p),
                    before.input_queues.at(p),
                    after.input_queues.at(p),
                );
        assert(refilled(before.pending.at(p), filled.at(p), rx1, after.input_queues.at(p)));
        lemma_place_is_filled(
            rx0,
            rx1,
            after.input_queues.at(p),
            before.pending.at(p),
            filled.at(p),
            out,
        );
    } else {
        let (middle, priority, task, rejected) = choose|
            middle: EDFScheduler,
            priority: Priority,
            task: EDFTask,
            rejected: Option<Packet>,
        |
            #![trigger middle.took(before, Some((priority, task))), after.forwarded(
                middle,
                task.packet.priority,
                task.packet,
                rejected,
            )]
            middle.took(before, Some((priority, task))) && after.forwarded(
                middle,
                task.packet.priority,
                task.packet,
                rejected,
            );
        let filled = choose|filled: PriorityTable<Option<EDFTask>>| #[trigger]
            chosen(filled, middle.pending, Some((priority, task))) && forall|p: Priority|
                refilled(
                    before.pending.at(p),
                    #[trigger] filled.at(p),
                    before.input_queues.at(p),
                    middle.input_queues.at(p),
                );
        assert(accounts(first, before, priority));
        assert(refilled(
            before.pending.at(priority),
            filled.at(priority),
            before.input_queues.at(priority),
            middle.input_queues.at(priority),
        ));
        let own = handed(
            first.output_queues.at(priority),
            before.output_queues.at(priority),
        );
        lemma_place_is_filled(
            first.input_queues.at(priority),
            before.input_queues.at(priority),
            middle.input_queues.at(priority),
            before.pending.at(priority),
            filled.at(priority),
            own,
        );
        let came = channel::got(
            first.input_queues.at(priority),
            after.input_queues.at(priority),
        );
        assert(came == own + seq![task.packet]);
        assert(came[own.len() as int] == task.packet);
        assert(task.packet.priority == priority);
        assert(refilled(before.pending.at(p), filled.at(p), rx1, middle.input_queues.at(p)));
        lemma_place_is_filled(
            rx0,
            rx1,
            middle.input_queues.at(p),
            before.pending.at(p),
            filled.at(p),
            out,
        );
        if p == priority {
            let lost = choose|lost: Seq<Packet>| #[trigger]
                splits(out, put(tx0, tx1), lost) && before.output_drop_counters.at(p) == advanced(
                    first.output_drop_counters.at(p),
                    lost.len(),
                );
            lemma_output_accounts(
                tx0,
                tx1,
                after.output_queues.at(p),
                first.output_drop_counters.at(p),
                before.output_drop_counters.at(p),
                after.output_drop_counters.at(p),
                task.packet,
                rejected,
                lost,
            );
            assert(out + seq![task.packet] =~= out.push(task.packet) + Seq::<Packet>::empty());
        } else {
            assert(after.output_queues.at(p) == tx1);
            assert(after.output_drop_counters.at(p) == before.output_drop_counters.at(p));
            assert(after.pending.at(p) == filled.at(p));
        }
    }
}

/// Law: no packet is lost on the way and none overtakes another of its class. However often the
/// scheduler works on the next packet, what came in on the input of a class is what was handed to
/// its output, in the same order, and then what still waits; and of what was handed over, the output
/// has all but what was counted as dropped.
pub proof fn law_every_packet_is_accounted_for(
    first: EDFScheduler,
    last: EDFScheduler,
    steps: nat,
    p: Priority,
)
    requires
        ran(first, last, steps),
        forall|q: Priority| (#[trigger] first.pending.at(q)) is None,
        in_class(first, last),
    ensures
        accounts(first, last, p),
    decreases steps,
{
    if steps == 0 {
        let rx = first.input_queues.at(p);
        let tx = first.output_queues.at(p);
        channel::lemma_not_asked(rx);
        assert(first.pending.at(p) is None);
        assert(handed(tx, tx) =~= Seq::<Packet>::empty());
        assert(put(tx, tx) =~= Seq::<Packet>::empty());
        assert(handed(tx, tx) + waiting(first.pending.at(p)) =~= Seq::<Packet>::empty());
        let none = Seq::<Packet>::empty();
        assert(splits(handed(tx, tx), put(tx, tx), none));
        assert(first.output_drop_counters.at(p) == advanced(
            first.output_drop_counters.at(p),
            none.len(),
        ));
    } else {
        let middle = choose|middle: EDFScheduler|
            ran(first, middle, (steps - 1) as nat) && #[trigger] worked(middle, last);
        assert(in_class(first, middle)) by {
            assert forall|q: Priority, i: int|
                0 <= i < channel::got(
                    first.input_queues.at(q),
                    middle.input_queues.at(q),
                ).len() implies (#[trigger] channel::got(
                first.input_queues.at(q),
                middle.input_queues.at(q),
            )[i]).priority == q by {
                lemma_run_takes_in(first, middle, (steps - 1) as nat, q);
                lemma_takes_in(middle, last, q);
                assert(channel::got(first.input_queues.at(q), last.input_queues.at(q))[i]
                    == channel::got(first.input_queues.at(q), middle.input_queues.at(q))[i]);
            }
        }
        assert forall|q: Priority| #[trigger] accounts(first, middle, q) by {
            law_every_packet_is_accounted_for(first, middle, (steps - 1) as nat, q);
        }
        lemma_step_accounts(first, middle, last, p);
    }
}

/// Law: the task that goes first is due no later than any other that waits, by arrival plus budget; and
/// where another is due at the same time, its class is the more critical one. It leaves its place, and
/// the others keep theirs.
pub proof fn law_first_due_goes_first(
    before: PriorityTable<Option<EDFTask>>,
    after: PriorityTable<Option<EDFTask>>,
    p: Priority,
    taken: Packet,
    q: Priority,
    other: Packet,
)
    requires
        chosen(before, after, Some((p, task_of(taken)))),
        before.at(q) == Some(task_of(other)),
        q != p,
        taken.timestamp.nanos + taken.latency_budget.nanos <= u64::MAX,
        other.timestamp.nanos + other.latency_budget.nanos <= u64::MAX,
    ensures
        taken.timestamp.nanos + taken.latency_budget.nanos <= other.timestamp.nanos
            + other.latency_budget.nanos,
        taken.timestamp.nanos + taken.latency_budget.nanos == other.timestamp.nanos
            + other.latency_budget.nanos ==> p.rank() < q.rank(),
        after.at(p) is None,
        after.at(q) == Some(task_of(other)),
        !chosen(before, after, None),
{
    assert(before.at(q) is Some);
}

/// Law: a free place gets the packet that its input gives, to be due its budget after its arrival, and
/// stays free only where the input gives none; a place that is taken keeps its packet and its input
/// is left alone.
pub proof fn law_free_places_are_filled(
    before: Option<EDFTask>,
    after: Option<EDFTask>,
    rx_before: Receiver<Packet>,
    rx_after: Receiver<Packet>,
)
    requires
        refilled(before, after, rx_before, rx_after),
    ensures
        before is Some ==> after == before && channel::replies(rx_after) == channel::replies(
            rx_before,
        ),
        before is None ==> match after {
            Some(task) => {
                &&& channel::taken(rx_after) == channel::taken(rx_before).push(task.packet)
                &&& task.packet.timestamp.nanos + task.packet.latency_budget.nanos <= u64::MAX
                    ==> task.deadline.nanos == task.packet.timestamp.nanos
                    + task.packet.latency_budget.nanos
            },
            None => {
                &&& channel::taken(rx_after) == channel::taken(rx_before)
                &&& channel::replies(rx_after).last() is Err
            },
        },
{
}

/// Law: the work on a packet takes 0.1 ms up to 200 bytes and 0.2 ms from 1500 bytes on, and never less
/// or more.
pub proof fn law_work_takes_a_tenth_of_a_millisecond(packet: Packet)
    ensures
        100_000 <= spec_cost(BASE_COST, packet).nanos <= 200_000,
        packet.buffer.bytes().len() <= 200 ==> spec_cost(BASE_COST, packet).nanos == 100_000,
        packet.buffer.bytes().len() >= 1500 ==> spec_cost(BASE_COST, packet).nanos == 200_000,
{
    crate::scheduler::cost::law_cost_grows_with_the_payload(BASE_COST, packet, packet);
}

/// Law: nothing is chosen only where no class has a task.
pub proof fn law_where_tasks_wait_one_is_chosen(
    before: PriorityTable<Option<EDFTask>>,
    after: PriorityTable<Option<EDFTask>>,
    priority: Priority,
)
    requires
        chosen(before, after, None),
    ensures
        before.at(priority) is None,
        after == before,
{
}

/// Law: a packet that was worked on is offered to the output of the class named, and to no other; inputs
/// and places stay as they are.
pub proof fn law_forwarding_touches_one_output(
    before: EDFScheduler,
    after: EDFScheduler,
    priority: Priority,
    packet: Packet,
    rejected: Option<Packet>,
    other: Priority,
)
    requires
        after.forwarded(before, priority, packet, rejected),
    ensures
        channel::offers(after.output_queues.at(priority)) == channel::offers(
            before.output_queues.at(priority),
        ).push(packet),
        other != priority ==> after.output_queues.at(other) == before.output_queues.at(other)
            && after.output_drop_counters.at(other) == before.output_drop_counters.at(other),
        after.input_queues == before.input_queues,
        after.pending == before.pending,
{
}

} // verus!

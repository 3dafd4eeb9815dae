//! Releasing finished work to the outputs, in order within each class.

use crate::channel;
use crate::packet::Packet;
use crate::priority::{Priority, PriorityTable};
use crate::scheduler::edf::copy_counts;
use crate::scheduler::output::{advanced, send_packet};
use crate::scheduler::sequence::{progressed, released, SequenceTracker};
use crate::time::Instant;
use crossbeam_channel::Sender;
use std::collections::VecDeque;
use vstd::prelude::*;

verus! {

/// A packet that a worker is to work on, with its place in the order of its class.
pub struct WorkItem {
    pub priority: Priority,
    /// Number of the packet within its class.
    pub sequence: u64,
    pub packet: Packet,
}

impl WorkItem {
    /// When the work is due.
    pub open spec fn spec_deadline(&self) -> Instant {
        self.packet.spec_deadline()
    }

    pub fn deadline(&self) -> (t: Instant)
        ensures
            t == self.spec_deadline(),
    {
        self.packet.deadline()
    }
}

/// Whether `kept` and `lost` are what becomes of `all` when each packet in turn goes to the end of
/// one or the other.
pub open spec fn splits(all: Seq<Packet>, kept: Seq<Packet>, lost: Seq<Packet>) -> bool
    decreases all.len(),
{
    if all.len() == 0 {
        kept.len() == 0 && lost.len() == 0
    } else {
        ||| kept.len() > 0 && kept.last() == all.last() && splits(
            all.drop_last(),
            kept.drop_last(),
            lost,
        )
        ||| lost.len() > 0 && lost.last() == all.last() && splits(
            all.drop_last(),
            kept,
            lost.drop_last(),
        )
    }
}

pub proof fn lemma_splits_push(all: Seq<Packet>, kept: Seq<Packet>, lost: Seq<Packet>, packet: Packet)
    requires
        splits(all, kept, lost),
    ensures
        splits(all.push(packet), kept.push(packet), lost),
        splits(all.push(packet), kept, lost.push(packet)),
{
    assert(all.push(packet).drop_last() =~= all);
    assert(kept.push(packet).drop_last() =~= kept);
    assert(lost.push(packet).drop_last() =~= lost);
}

/// Law: a split loses no packet and makes none up.
pub proof fn law_split_accounts_for_all(all: Seq<Packet>, kept: Seq<Packet>, lost: Seq<Packet>)
    requires
        splits(all, kept, lost),
    ensures
        all.len() == kept.len() + lost.len(),
        all.to_multiset() =~= kept.to_multiset().add(lost.to_multiset()),
    decreases all.len(),
{
    broadcast use vstd::multiset::group_multiset_axioms;

    if all.len() == 0 {
        vstd::seq_lib::to_multiset_len(all);
        vstd::seq_lib::to_multiset_len(kept);
        vstd::seq_lib::to_multiset_len(lost);
        assert(all =~= Seq::empty());
        assert(kept =~= Seq::empty());
        assert(lost =~= Seq::empty());
        assert(all.to_multiset() =~= kept.to_multiset().add(lost.to_multiset()));
    } else {
        let x = all.last();
        assert(all.drop_last().push(x) =~= all);
        vstd::seq_lib::to_multiset_build(all.drop_last(), x);
        if kept.len() > 0 && kept.last() == x && splits(all.drop_last(), kept.drop_last(), lost) {
            law_split_accounts_for_all(all.drop_last(), kept.drop_last(), lost);
            assert(kept.drop_last().push(x) =~= kept);
            vstd::seq_lib::to_multiset_build(kept.drop_last(), x);
        } else {
            law_split_accounts_for_all(all.drop_last(), kept, lost.drop_last());
            assert(lost.drop_last().push(x) =~= lost);
            vstd::seq_lib::to_multiset_build(lost.drop_last(), x);
        }
    }
}

/// Offers packets to an output in turn. Those that it does not take are counted and handed back.
pub fn send_all(tx: &mut Sender<Packet>, drops: &mut u64, packets: VecDeque<Packet>) -> (rejected: Vec<
    Packet,
>)
    ensures
        channel::sent(*old(tx)).is_prefix_of(channel::sent(*final(tx))),
        splits(
            packets@,
            channel::sent(*final(tx)).skip(channel::sent(*old(tx)).len() as int),
            rejected@,
        ),
        channel::offers(*final(tx)) == channel::offers(*old(tx)) + packets@,
        *final(drops) == advanced(*old(drops), rejected@.len()),
        channel::channel_of(*final(tx)) == channel::channel_of(*old(tx)),
        channel::limit(*final(tx)) == channel::limit(*old(tx)),
{
    let mut waiting = packets;
    let mut rejected: Vec<Packet> = Vec::new();
    let ghost before = channel::sent(*tx);
    let ghost mut done: Seq<Packet> = Seq::empty();
    proof {
        assert(packets@.skip(0) =~= packets@);
        assert(channel::offers(*tx) + done =~= channel::offers(*tx));
        assert(before.skip(before.len() as int) =~= Seq::empty());
    }
    while waiting.len() > 0
        invariant
            before == channel::sent(*old(tx)),
            before.is_prefix_of(channel::sent(*tx)),
            done + waiting@ =~= packets@,
            splits(done, channel::sent(*tx).skip(before.len() as int), rejected@),
            channel::offers(*tx) == channel::offers(*old(tx)) + done,
            channel::channel_of(*tx) == channel::channel_of(*old(tx)),
            *drops == advanced(*old(drops), rejected@.len()),
            channel::limit(*tx) == channel::limit(*old(tx)),
        decreases waiting@.len(),
    {
        let ghost sent_now = channel::sent(*tx);
        let ghost rejected_now = rejected@;
        let ghost waiting_now = waiting@;
        match waiting.pop_front() {
            Some(packet) => {
                proof {
                    lemma_splits_push(
                        done,
                        sent_now.skip(before.len() as int),
                        rejected_now,
                        packet,
                    );
                    done = done.push(packet);
                    assert(channel::offers(*old(tx)) + done =~= channel::offers(*tx).push(packet));
                }
                match send_packet(tx, drops, packet) {
                    Some(back) => {
                        rejected.push(back);
                    },
                    None => {
                        assert(channel::sent(*tx).skip(before.len() as int) =~= sent_now.skip(
                            before.len() as int,
                        ).push(packet));
                    },
                }
            },
            None => {},
        }
    }
    assert(done =~= packets@);
    rejected
}

/// Gives work its place in the order of its class and releases finished work in that order.
pub struct CompletionRouter {
    pub trackers: PriorityTable<SequenceTracker>,
    pub output_queues: PriorityTable<Sender<Packet>>,
    pub drop_counters: PriorityTable<u64>,
}

impl CompletionRouter {
    /// A router onto the given outputs. Every class starts with number 0.
    pub fn new(output_queues: PriorityTable<Sender<Packet>>) -> (router: CompletionRouter)
        ensures
            router.output_queues == output_queues,
            forall|p: Priority| (#[trigger] router.trackers.at(p)).upcoming() == 0,
            forall|p: Priority|
                (#[trigger] router.trackers.at(p)).progress() == (
                crate::scheduler::sequence::Progress { next_emit: 0, pending: Map::empty() }),
            forall|p: Priority| #[trigger] router.drop_counters.at(p) == 0,
    {
        CompletionRouter {
            trackers: PriorityTable::of(
                SequenceTracker::new(),
                SequenceTracker::new(),
                SequenceTracker::new(),
                SequenceTracker::new(),
            ),
            output_queues,
            drop_counters: PriorityTable::of(0, 0, 0, 0),
        }
    }

    /// Gives a packet the next number of its class.
    pub fn prepare(&mut self, priority: Priority, packet: Packet) -> (item: WorkItem)
        ensures
            item == (WorkItem {
                priority,
                sequence: old(self).trackers.at(priority).upcoming(),
                packet,
            }),
            final(self).trackers.at(priority).upcoming() == advanced(item.sequence, 1),
            final(self).trackers.at(priority).progress() == old(self).trackers.at(
                priority,
            ).progress(),
            forall|p: Priority|
                p != priority ==> #[trigger] final(self).trackers.at(p) == old(self).trackers.at(p),
            final(self).output_queues == old(self).output_queues,
            final(self).drop_counters == old(self).drop_counters,
    {
        let sequence: u64 = self.trackers.get_mut(priority).assign_sequence();
        WorkItem { priority, sequence, packet }
    }

    /// Notes that a piece of work is done and offers all packets that may leave now to the output
    /// of the class. Those that it does not take are counted and handed back.
    pub fn complete(&mut self, item: WorkItem) -> (rejected: Vec<Packet>)
        ensures
            final(self).trackers.at(item.priority).upcoming() == old(self).trackers.at(
                item.priority,
            ).upcoming(),
            final(self).trackers.at(item.priority).progress() == progressed(
                old(self).trackers.at(item.priority).progress(),
                item.sequence,
                item.packet,
            ),
            channel::sent(old(self).output_queues.at(item.priority)).is_prefix_of(
                channel::sent(final(self).output_queues.at(item.priority)),
            ),
            channel::offers(final(self).output_queues.at(item.priority)) == channel::offers(
                old(self).output_queues.at(item.priority),
            ) + released(
                old(self).trackers.at(item.priority).progress(),
                item.sequence,
                item.packet,
            ),
            splits(
                released(
                    old(self).trackers.at(item.priority).progress(),
                    item.sequence,
                    item.packet,
                ),
                channel::sent(final(self).output_queues.at(item.priority)).skip(
                    channel::sent(old(self).output_queues.at(item.priority)).len() as int,
                ),
                rejected@,
            ),
            final(self).drop_counters.at(item.priority) == advanced(
                old(self).drop_counters.at(item.priority),
                rejected@.len(),
            ),
            forall|p: Priority|
                p != item.priority ==> #[trigger] final(self).trackers.at(p) == old(
                    self,
                ).trackers.at(p),
            forall|p: Priority|
                p != item.priority ==> #[trigger] final(self).output_queues.at(p) == old(
                    self,
                ).output_queues.at(p),
            forall|p: Priority|
                p != item.priority ==> #[trigger] final(self).drop_counters.at(p) == old(
                    self,
                ).drop_counters.at(p),
    {
        let priority = item.priority;
        let emitted = self.trackers.get_mut(priority).complete(item.sequence, item.packet);
        send_all(
            self.output_queues.get_mut(priority),
            self.drop_counters.get_mut(priority),
            emitted,
        )
    }

    /// Packets of each class that its output did not take.
    pub fn drop_counts(&self) -> (counts: PriorityTable<u64>)
        ensures
            counts == self.drop_counters,
    {
        copy_counts(&self.drop_counters)
    }
}

/// Law: work is due when its packet is: its budget after its arrival.
pub proof fn law_work_is_due_with_its_packet(item: WorkItem)
    requires
        item.packet.timestamp.nanos + item.packet.latency_budget.nanos <= u64::MAX,
    ensures
        item.spec_deadline().nanos == item.packet.timestamp.nanos
            + item.packet.latency_budget.nanos,
{
}

/// Law: a split keeps the order: where all packets were kept, they are as they came, and where all
/// were lost, those are; the last packet is the last of either part.
pub proof fn law_split_keeps_the_order(all: Seq<Packet>, kept: Seq<Packet>, lost: Seq<Packet>)
    requires
        splits(all, kept, lost),
    ensures
        lost.len() == 0 ==> kept == all,
        kept.len() == 0 ==> lost == all,
        all.len() > 0 ==> {
            ||| kept.len() > 0 && kept.last() == all.last()
            ||| lost.len() > 0 && lost.last() == all.last()
        },
    decreases all.len(),
{
    if all.len() > 0 {
        let x = all.last();
        assert(all.drop_last().push(x) =~= all);
        if kept.len() > 0 && kept.last() == x && splits(all.drop_last(), kept.drop_last(), lost) {
            law_split_keeps_the_order(all.drop_last(), kept.drop_last(), lost);
            assert(kept.drop_last().push(x) =~= kept);
        } else {
            law_split_keeps_the_order(all.drop_last(), kept, lost.drop_last());
            assert(lost.drop_last().push(x) =~= lost);
        }
    } else {
        assert(kept =~= all);
        assert(lost =~= all);
    }
}

} // verus!

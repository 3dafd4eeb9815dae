//! A packet queue of one place.

use crate::channel;
use crate::channel::RecvFailure;
use crate::packet::Packet;
use crossbeam_channel::{Receiver, Sender};
use vstd::prelude::*;

verus! {

/// Bounded queue of packets whose ends can be handed to other threads.
///
/// Until an end is handed out, the queue behaves as a plain first-in first-out queue. After that
/// other threads may put packets in and take them out at any time.
pub struct Queue {
    sender: Sender<Packet>,
    receiver: Receiver<Packet>,
    capacity: usize,
}

impl Queue {
    pub closed spec fn wf(&self) -> bool {
        &&& self.capacity == 1
        &&& channel::channel_of(self.sender) == channel::source_of(self.receiver)
        &&& channel::limit(self.sender) == Some(self.capacity as nat)
        &&& self.unshared() ==> channel::taken(self.receiver).is_prefix_of(
            channel::sent(self.sender),
        )
    }

    /// Whether neither end has been handed out.
    pub closed spec fn unshared(&self) -> bool {
        channel::sole_ends(self.sender, self.receiver)
    }

    /// The packets in a queue neither end of which has been handed out, oldest first.
    pub closed spec fn contents(&self) -> Seq<Packet> {
        channel::in_flight(self.sender, self.receiver)
    }

    /// The channel that holds the packets.
    pub closed spec fn channel(&self) -> int {
        channel::channel_of(self.sender)
    }

    /// The packets that were put in through the queue itself, oldest first.
    pub closed spec fn put_in(&self) -> Seq<Packet> {
        channel::sent(self.sender)
    }

    /// The packets that were taken out through the queue itself, oldest first.
    pub closed spec fn taken_out(&self) -> Seq<Packet> {
        channel::taken(self.receiver)
    }

    /// The packets that were offered through the queue itself, taken or not, oldest first.
    pub closed spec fn offered(&self) -> Seq<Packet> {
        channel::offers(self.sender)
    }

    /// What the calls that took packets out through the queue itself gave, oldest first.
    pub closed spec fn replies(&self) -> Seq<Result<Packet, RecvFailure>> {
        channel::replies(self.receiver)
    }

    /// The number of packets that the queue holds at most.
    pub closed spec fn spec_capacity(&self) -> nat {
        self.capacity as nat
    }

    /// An empty queue with room for one packet.
    pub fn new() -> (queue: Queue)
        ensures
            queue.wf(),
            queue.unshared(),
            queue.contents() == Seq::<Packet>::empty(),
            queue.put_in() == Seq::<Packet>::empty(),
            queue.taken_out() == Seq::<Packet>::empty(),
            queue.spec_capacity() == 1,
    {
        let capacity: usize = 1;
        let (sender, receiver) = channel::bounded(capacity);
        let queue = Queue { sender, receiver, capacity };
        assert(queue.contents() =~= Seq::<Packet>::empty());
        queue
    }

    /// Another handle to the sending end.
    pub fn sender(&mut self) -> (tx: Sender<Packet>)
        requires
            old(self).wf(),
        ensures
            final(self).wf(),
            final(self).spec_capacity() == old(self).spec_capacity(),
            !final(self).unshared(),
            final(self).put_in() == old(self).put_in(),
            final(self).taken_out() == old(self).taken_out(),
            final(self).channel() == old(self).channel(),
            channel::channel_of(tx) == old(self).channel(),
            channel::sent(tx) == Seq::<Packet>::empty(),
            channel::limit(tx) == Some(old(self).spec_capacity()),
    {
        channel::clone_sender(&mut self.sender)
    }

    /// Another handle to the receiving end.
    pub fn receiver(&mut self) -> (rx: Receiver<Packet>)
        requires
            old(self).wf(),
        ensures
            final(self).wf(),
            final(self).spec_capacity() == old(self).spec_capacity(),
            !final(self).unshared(),
            final(self).put_in() == old(self).put_in(),
            final(self).taken_out() == old(self).taken_out(),
            final(self).channel() == old(self).channel(),
            channel::source_of(rx) == old(self).channel(),
            channel::taken(rx) == Seq::<Packet>::empty(),
    {
        channel::clone_receiver(&mut self.receiver)
    }

    /// Puts a packet in at the back, waiting for room where another thread can make some. Where
    /// nobody else can, there must be room.
    pub fn send(&mut self, packet: Packet) -> (outcome: Result<(), Packet>)
        requires
            old(self).wf(),
            old(self).unshared() ==> old(self).contents().len() < old(self).spec_capacity(),
        ensures
            final(self).wf(),
            final(self).spec_capacity() == old(self).spec_capacity(),
            final(self).unshared() == old(self).unshared(),
            final(self).channel() == old(self).channel(),
            final(self).taken_out() == old(self).taken_out(),
            final(self).replies() == old(self).replies(),
            final(self).offered() == old(self).offered().push(packet),
            match outcome {
                Ok(()) => final(self).put_in() == old(self).put_in().push(packet),
                Err(back) => back == packet && final(self).put_in() == old(self).put_in(),
            },
            old(self).unshared() ==> outcome is Ok && final(self).contents() == old(
                self,
            ).contents().push(packet),
    {
        let outcome = channel::send(&mut self.sender, &self.receiver, packet);
        assert(old(self).unshared() ==> self.contents() =~= old(self).contents().push(packet));
        outcome
    }

    /// Takes the oldest packet out, if there is one.
    pub fn try_recv(&mut self) -> (outcome: Result<Packet, RecvFailure>)
        requires
            old(self).wf(),
        ensures
            final(self).wf(),
            final(self).spec_capacity() == old(self).spec_capacity(),
            final(self).unshared() == old(self).unshared(),
            final(self).channel() == old(self).channel(),
            final(self).put_in() == old(self).put_in(),
            final(self).offered() == old(self).offered(),
            final(self).replies() == old(self).replies().push(outcome),
            match outcome {
                Ok(packet) => final(self).taken_out() == old(self).taken_out().push(packet),
                Err(_) => final(self).taken_out() == old(self).taken_out(),
            },
            old(self).unshared() ==> if old(self).contents().len() > 0 {
                &&& outcome == Ok::<Packet, RecvFailure>(old(self).contents()[0])
                &&& final(self).contents() == old(self).contents().drop_first()
            } else {
                &&& outcome == Err::<Packet, RecvFailure>(RecvFailure::Empty)
                &&& final(self).contents() == old(self).contents()
            },
    {
        let outcome = channel::try_recv(&mut self.receiver, Some(&self.sender));
        assert(old(self).unshared() && outcome is Ok ==> self.contents() =~= old(
            self,
        ).contents().drop_first());
        outcome
    }

    /// Takes the oldest packet out, waiting for one where another thread can send it. Where nobody
    /// else can, there must be one.
    pub fn recv(&mut self) -> (outcome: Result<Packet, RecvFailure>)
        requires
            old(self).wf(),
            old(self).unshared() ==> old(self).contents().len() > 0,
        ensures
            final(self).wf(),
            final(self).spec_capacity() == old(self).spec_capacity(),
            final(self).unshared() == old(self).unshared(),
            final(self).channel() == old(self).channel(),
            final(self).put_in() == old(self).put_in(),
            final(self).offered() == old(self).offered(),
            final(self).replies() == old(self).replies().push(outcome),
            match outcome {
                Ok(packet) => final(self).taken_out() == old(self).taken_out().push(packet),
                Err(why) => why is Disconnected && final(self).taken_out() == old(
                    self,
                ).taken_out(),
            },
            old(self).unshared() ==> {
                &&& outcome == Ok::<Packet, RecvFailure>(old(self).contents()[0])
                &&& final(self).contents() == old(self).contents().drop_first()
            },
    {
        let outcome = channel::recv(&mut self.receiver, &self.sender);
        assert(old(self).unshared() && outcome is Ok ==> self.contents() =~= old(
            self,
        ).contents().drop_first());
        outcome
    }

    pub fn is_empty(&self) -> (empty: bool)
        requires
            self.wf(),
        ensures
            self.unshared() ==> empty == (self.contents().len() == 0),
    {
        channel::is_empty(&self.receiver, Some(&self.sender))
    }

    /// Number of packets in the queue.
    pub fn len(&self) -> (count: usize)
        requires
            self.wf(),
        ensures
            self.unshared() ==> count == self.contents().len(),
    {
        channel::len(&self.receiver, &self.sender)
    }

    /// The number of packets that the queue holds at most.
    pub fn capacity(&self) -> (capacity: usize)
        ensures
            capacity == self.spec_capacity(),
    {
        self.capacity
    }

    /// Number of packets in the queue.
    pub fn occupancy(&self) -> (count: usize)
        requires
            self.wf(),
        ensures
            self.unshared() ==> count == self.contents().len(),
    {
        channel::len(&self.receiver, &self.sender)
    }

    /// Share of the places that are taken, in percent.
    pub fn occupancy_percent(&self) -> (percent: u128)
        requires
            self.wf(),
        ensures
            self.unshared() ==> percent * self.spec_capacity() == self.contents().len() * 100,
    {
        let count: usize = self.occupancy();
        let percent: u128 = (count as u128) * 100 / (self.capacity as u128);
        assert(percent == count * 100);
        assert(percent * self.spec_capacity() == percent) by (nonlinear_arith)
            requires
                self.spec_capacity() == 1,
        ;
        percent
    }
}

/// Law: packets leave a queue in the order in which they came, and none is lost or doubled: those
/// that were taken out, followed by those inside, are those that were put in.
pub proof fn law_queue_is_first_in_first_out(queue: Queue)
    requires
        queue.wf(),
        queue.unshared(),
    ensures
        queue.taken_out() + queue.contents() == queue.put_in(),
{
    assert(queue.taken_out() + queue.contents() =~= queue.put_in());
}

impl Default for Queue {
    fn default() -> (queue: Queue)
        ensures
            queue.wf(),
            queue.unshared(),
            queue.contents() == Seq::<Packet>::empty(),
            queue.put_in() == Seq::<Packet>::empty(),
            queue.taken_out() == Seq::<Packet>::empty(),
            queue.spec_capacity() == 1,
    {
        Queue::new()
    }
}

/// Law: a queue has one place.
pub proof fn law_a_queue_has_one_place(queue: Queue)
    requires
        queue.wf(),
    ensures
        queue.spec_capacity() == 1,
{
}

} // verus!

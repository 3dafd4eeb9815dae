//! Sending finished packets out, most critical class first.

use crate::channel;
use crate::channel::RecvFailure;
use crate::packet::Packet;
use crate::priority::{Priority, PriorityTable};
use crate::time::{Duration, Instant};
use crossbeam_channel::Receiver;
use vstd::prelude::*;

verus! {

/// A packet on its way out, with what the metrics record of it.
pub struct Emission {
    pub priority: Priority,
    pub packet: Packet,
    /// Time since the packet entered the pipeline.
    pub latency: Duration,
    /// Whether the packet was due before now.
    pub deadline_missed: bool,
    /// Whether a packet with the same or a larger identifier left before.
    pub out_of_order: bool,
    /// The socket of the class that the packet goes to. `None` where the class has no socket; the
    /// packet is dropped then.
    pub socket: Option<usize>,
}

/// What a look at the queue of one class gave.
pub enum EgressEvent {
    /// A packet to send.
    Emit(Emission),
    /// No packet.
    Idle,
    /// No packet, and none will come.
    Closed,
}

/// Sends the packets of each class round robin over the sockets of the class.
pub struct EgressDRRScheduler {
    pub priority_receivers: PriorityTable<Receiver<Packet>>,
    /// Number of sockets of each class.
    pub output_sockets: PriorityTable<usize>,
    /// The socket of each class that the next packet goes to.
    pub socket_indices: PriorityTable<usize>,
    /// Identifier of the last packet of each class.
    pub last_packet_ids: PriorityTable<Option<u64>>,
}

/// The emission that a packet becomes at `now`.
pub open spec fn emission(
    priority: Priority,
    packet: Packet,
    now: Instant,
    last_id: Option<u64>,
    sockets: usize,
    index: usize,
) -> Emission {
    Emission {
        priority,
        packet,
        latency: now.spec_since(packet.timestamp),
        deadline_missed: now.nanos > packet.spec_deadline().nanos,
        out_of_order: last_id matches Some(id) && packet.id <= id,
        socket: if sockets == 0 {
            None
        } else {
            Some((index % sockets) as usize)
        },
    }
}

impl EgressDRRScheduler {
    /// A scheduler behind the given queues, without sockets.
    pub fn new(priority_receivers: PriorityTable<Receiver<Packet>>) -> (scheduler:
        EgressDRRScheduler)
        ensures
            scheduler.priority_receivers == priority_receivers,
            forall|p: Priority| #[trigger] scheduler.output_sockets.at(p) == 0,
            forall|p: Priority| #[trigger] scheduler.socket_indices.at(p) == 0,
            forall|p: Priority| (#[trigger] scheduler.last_packet_ids.at(p)) is None,
    {
        EgressDRRScheduler {
            priority_receivers,
            output_sockets: PriorityTable::of(0, 0, 0, 0),
            socket_indices: PriorityTable::of(0, 0, 0, 0),
            last_packet_ids: PriorityTable::of(None, None, None, None),
        }
    }

    /// Registers one more socket for a class and gives its number within the class.
    pub fn add_output_socket(&mut self, priority: Priority) -> (socket: usize)
        requires
            old(self).output_sockets.at(priority) < usize::MAX,
        ensures
            socket == old(self).output_sockets.at(priority),
            final(self).output_sockets.at(priority) == socket + 1,
            forall|p: Priority|
                p != priority ==> #[trigger] final(self).output_sockets.at(p) == old(
                    self).output_sockets.at(p),
            final(self).priority_receivers == old(self).priority_receivers,
            final(self).socket_indices == old(self).socket_indices,
            final(self).last_packet_ids == old(self).last_packet_ids,
    {
        let socket: usize = *self.output_sockets.get(priority);
        *self.output_sockets.get_mut(priority) = socket + 1;
        socket
    }

    /// Prepares a packet for sending: takes its figures for the metrics, notes its identifier and
    /// picks the socket whose turn it is.
    pub fn emit(&mut self, priority: Priority, packet: Packet, now: Instant) -> (out: Emission)
        ensures
            out == emission(
                priority,
                packet,
                now,
                old(self).last_packet_ids.at(priority),
                old(self).output_sockets.at(priority),
                old(self).socket_indices.at(priority),
            ),
            out.socket matches Some(socket) ==> socket < old(self).output_sockets.at(priority),
            final(self).last_packet_ids.at(priority) == Some(packet.id),
            final(self).socket_indices.at(priority) == (if old(self).output_sockets.at(priority)
                == 0 {
                old(self).socket_indices.at(priority) as int
            } else {
                (old(self).socket_indices.at(priority) + 1) % (old(self).output_sockets.at(
                    priority,
                ) as int)
            }),
            forall|p: Priority|
                p != priority ==> #[trigger] final(self).last_packet_ids.at(p) == old(
                    self).last_packet_ids.at(p),
            forall|p: Priority|
                p != priority ==> #[trigger] final(self).socket_indices.at(p) == old(
                    self).socket_indices.at(p),
            final(self).priority_receivers == old(self).priority_receivers,
            final(self).output_sockets == old(self).output_sockets,
    {
        let previous: Option<u64> = *self.last_packet_ids.get(priority);
        let out_of_order: bool = match previous {
            Some(id) => packet.id <= id,
            None => false,
        };
        *self.last_packet_ids.get_mut(priority) = Some(packet.id);
        let sockets: usize = *self.output_sockets.get(priority);
        let socket: Option<usize> = if sockets == 0 {
            None
        } else {
            let at: usize = *self.socket_indices.get(priority);
            let picked: usize = at % sockets;
            proof {
                let x = at as int;
                assert((x + 1) % (sockets as int) == (if x % (sockets as int) + 1 == sockets {
                    0
                } else {
                    x % (sockets as int) + 1
                })) by (nonlinear_arith)
                    requires
                        sockets > 0,
                        x >= 0,
                ;
            }
            let next: usize = if picked + 1 == sockets {
                0
            } else {
                picked + 1
            };
            *self.socket_indices.get_mut(priority) = next;
            Some(picked)
        };
        Emission {
            priority,
            latency: now.since(packet.timestamp),
            deadline_missed: now.nanos > packet.deadline().nanos,
            out_of_order,
            socket,
            packet,
        }
    }

    /// What taking a packet of one class out does: it is prepared for sending with the figures for
    /// the metrics, its identifier is noted, and the turn of the sockets moves on.
    pub open spec fn emitted(
        self,
        before: EgressDRRScheduler,
        priority: Priority,
        out: Emission,
        now: Instant,
    ) -> bool {
        &&& channel::received(
            Ok(out.packet),
            before.priority_receivers.at(priority),
            self.priority_receivers.at(priority),
        )
        &&& out == emission(
            priority,
            out.packet,
            now,
            before.last_packet_ids.at(priority),
            before.output_sockets.at(priority),
            before.socket_indices.at(priority),
        )
        &&& out.socket matches Some(socket) ==> socket < before.output_sockets.at(priority)
        &&& self.last_packet_ids.at(priority) == Some(out.packet.id)
        &&& self.socket_indices.at(priority) == (if before.output_sockets.at(priority) == 0 {
            before.socket_indices.at(priority) as int
        } else {
            (before.socket_indices.at(priority) + 1) % (before.output_sockets.at(priority) as int)
        })
        &&& forall|p: Priority|
            p != priority ==> #[trigger] self.last_packet_ids.at(p) == before.last_packet_ids.at(p)
        &&& forall|p: Priority|
            p != priority ==> #[trigger] self.socket_indices.at(p) == before.socket_indices.at(p)
    }

    /// Whether the queue of one class was asked once and gave no packet, for the given reason.
    pub open spec fn met_none(
        self,
        before: EgressDRRScheduler,
        priority: Priority,
        why: RecvFailure,
    ) -> bool {
        channel::received(
            Err(why),
            before.priority_receivers.at(priority),
            self.priority_receivers.at(priority),
        )
    }

    /// Whether the queues of all classes before the one with index `rank` were asked once each and
    /// were empty, and those after it were left alone.
    pub open spec fn decided_at(self, before: EgressDRRScheduler, rank: int) -> bool {
        &&& forall|p: Priority|
            p.rank() < rank ==> #[trigger] self.met_none(before, p, RecvFailure::Empty)
        &&& forall|p: Priority|
            p.rank() > rank ==> #[trigger] self.priority_receivers.at(p)
                == before.priority_receivers.at(p)
    }

    /// What a look at the queues in strict priority came to.
    pub open spec fn looked(
        self,
        before: EgressDRRScheduler,
        event: EgressEvent,
        now: Instant,
    ) -> bool {
        match event {
            EgressEvent::Emit(out) => {
                &&& self.decided_at(before, out.priority.rank())
                &&& self.emitted(before, out.priority, out, now)
            },
            EgressEvent::Idle => self.decided_at(before, 4),
            EgressEvent::Closed => exists|p: Priority| #[trigger]
                self.met_none(before, p, RecvFailure::Disconnected) && self.decided_at(
                    before,
                    p.rank(),
                ),
        }
    }

    /// Looks at the queue of one class and prepares the packet that is there for sending.
    pub fn poll(&mut self, priority: Priority, now: Instant) -> (event: EgressEvent)
        ensures
            match event {
                EgressEvent::Emit(out) => final(self).emitted(*old(self), priority, out, now),
                EgressEvent::Idle => {
                    &&& final(self).met_none(*old(self), priority, RecvFailure::Empty)
                    &&& final(self).last_packet_ids == old(self).last_packet_ids
                    &&& final(self).socket_indices == old(self).socket_indices
                },
                EgressEvent::Closed => {
                    &&& final(self).met_none(*old(self), priority, RecvFailure::Disconnected)
                    &&& final(self).last_packet_ids == old(self).last_packet_ids
                    &&& final(self).socket_indices == old(self).socket_indices
                },
            },
            forall|p: Priority|
                p != priority ==> #[trigger] final(self).priority_receivers.at(p) == old(
                    self).priority_receivers.at(p),
            final(self).output_sockets == old(self).output_sockets,
    {
        match channel::try_recv(self.priority_receivers.get_mut(priority), None) {
            Ok(packet) => EgressEvent::Emit(self.emit(priority, packet, now)),
            Err(RecvFailure::Empty) => EgressEvent::Idle,
            Err(RecvFailure::Disconnected) => EgressEvent::Closed,
        }
    }

    /// Looks at the queues in strict priority, most critical class first, and prepares the first
    /// packet that it meets for sending. A queue that gives nothing and to which nothing can come any
    /// more ends the search.
    pub fn next_emission(&mut self, now: Instant) -> (event: EgressEvent)
        ensures
            match event {
                EgressEvent::Emit(out) => {
                    &&& final(self).decided_at(*old(self), out.priority.rank())
                    &&& final(self).emitted(*old(self), out.priority, out, now)
                },
                EgressEvent::Idle => {
                    &&& final(self).decided_at(*old(self), 4)
                    &&& final(self).last_packet_ids == old(self).last_packet_ids
                    &&& final(self).socket_indices == old(self).socket_indices
                },
                EgressEvent::Closed => {
                    &&& exists|p: Priority| #[trigger]
                        final(self).met_none(*old(self), p, RecvFailure::Disconnected) && final(
                            self).decided_at(*old(self), p.rank())
                    &&& final(self).last_packet_ids == old(self).last_packet_ids
                    &&& final(self).socket_indices == old(self).socket_indices
                },
            },
            final(self).looked(*old(self), event, now),
            final(self).output_sockets == old(self).output_sockets,
    {
        let mut i: usize = 0;
        while i < 4
            invariant
                i <= 4,
                forall|p: Priority|
                    p.rank() < i ==> #[trigger] self.met_none(*old(self), p, RecvFailure::Empty),
                forall|p: Priority|
                    p.rank() >= i ==> #[trigger] self.priority_receivers.at(p) == old(
                        self).priority_receivers.at(p),
                self.last_packet_ids == old(self).last_packet_ids,
                self.socket_indices == old(self).socket_indices,
                self.output_sockets == old(self).output_sockets,
            decreases 4 - i,
        {
            let priority = Priority::from_index(i);
            let ghost before = *self;
            assert(before.priority_receivers.at(priority) == old(self).priority_receivers.at(
                priority,
            ));
            let event = self.poll(priority, now);
            proof {
                assert forall|p: Priority| p.rank() < i implies #[trigger] self.met_none(
                    *old(self),
                    p,
                    RecvFailure::Empty,
                ) by {
                    assert(before.met_none(*old(self), p, RecvFailure::Empty));
                    assert(self.priority_receivers.at(p) == before.priority_receivers.at(p));
                }
                assert forall|p: Priority| p.rank() > i implies #[trigger] self.priority_receivers.at(
                    p,
                ) == old(self).priority_receivers.at(p) by {
                    assert(self.priority_receivers.at(p) == before.priority_receivers.at(p));
                }
            }
            match event {
                EgressEvent::Emit(out) => {
                    return EgressEvent::Emit(out);
                },
                EgressEvent::Closed => {
                    assert(self.met_none(*old(self), priority, RecvFailure::Disconnected));
                    return EgressEvent::Closed;
                },
                EgressEvent::Idle => {},
            }
            i = i + 1;
        }
        EgressEvent::Idle
    }
}

/// Law: the way out is strict: a packet leaves only where the queues of all more critical classes
/// were asked in the same look and were empty.
pub proof fn law_more_critical_packets_leave_first(
    before: EgressDRRScheduler,
    after: EgressDRRScheduler,
    out: Emission,
    priority: Priority,
    now: Instant,
)
    requires
        after.decided_at(before, out.priority.rank()),
        after.emitted(before, out.priority, out, now),
        priority.rank() < out.priority.rank(),
    ensures
        channel::replies(after.priority_receivers.at(priority)) == channel::replies(
            before.priority_receivers.at(priority),
        ).push(Err(RecvFailure::Empty)),
{
    assert(after.met_none(before, priority, RecvFailure::Empty));
}

/// The socket that the packet after `sent` others of a class goes to.
pub open spec fn socket_after(index: int, sockets: int, sent: nat) -> int
    decreases sent,
{
    if sent == 0 {
        index % sockets
    } else {
        socket_after((index + 1) % sockets, sockets, (sent - 1) as nat)
    }
}

/// Law: the packets of a class go to its sockets in turn: after `sent` packets it is the turn of
/// the socket that many places on.
pub proof fn law_sockets_take_turns(index: int, sockets: int, sent: nat)
    requires
        sockets > 0,
        index >= 0,
    ensures
        socket_after(index, sockets, sent) == (index + sent) % sockets,
        socket_after(index, sockets, sent + sockets as nat) == socket_after(index, sockets, sent),
    decreases sent,
{
    lemma_socket_after(index, sockets, sent);
    lemma_socket_after(index, sockets, sent + sockets as nat);
    vstd::arithmetic::div_mod::lemma_mod_add_multiples_vanish(index + sent, sockets);
}

proof fn lemma_socket_after(index: int, sockets: int, sent: nat)
    requires
        sockets > 0,
        index >= 0,
    ensures
        socket_after(index, sockets, sent) == (index + sent) % sockets,
    decreases sent,
{
    if sent > 0 {
        vstd::arithmetic::div_mod::lemma_mod_bound(index + 1, sockets);
        lemma_socket_after((index + 1) % sockets, sockets, (sent - 1) as nat);
        vstd::arithmetic::div_mod::lemma_add_mod_noop(index + 1, sent - 1, sockets);
        vstd::arithmetic::div_mod::lemma_add_mod_noop((index + 1) % sockets, sent - 1, sockets);
        vstd::arithmetic::div_mod::lemma_mod_twice(index + 1, sockets);
    }
}

/// Law: for every class, what is said of a packet on its way out is what its own times say: its
/// latency is the time since it entered the pipeline, and it missed its deadline exactly where `now`
/// is later than its arrival plus its budget, that is, where its latency exceeds its budget. At the
/// end of the clock, which nothing is later than, no deadline is missed.
pub proof fn law_missed_deadlines_are_told_for_every_class(
    priority: Priority,
    packet: Packet,
    now: Instant,
    last_id: Option<u64>,
    sockets: usize,
    index: usize,
)
    ensures
        ({
            let out = emission(priority, packet, now, last_id, sockets, index);
            &&& out.priority == priority
            &&& out.packet == packet
            &&& packet.timestamp.nanos <= now.nanos ==> packet.timestamp.nanos + out.latency.nanos
                == now.nanos
            &&& packet.timestamp.nanos > now.nanos ==> out.latency.nanos == 0
            &&& out.deadline_missed <==> now.nanos > packet.timestamp.nanos
                + packet.latency_budget.nanos
            &&& out.deadline_missed <==> out.latency.nanos > packet.latency_budget.nanos
        }),
{
}

/// Law: a packet is out of order exactly where one of its class left before and its identifier is no
/// larger than that of the last one.
pub proof fn law_order_is_told_by_identifiers(
    priority: Priority,
    packet: Packet,
    now: Instant,
    last_id: Option<u64>,
    sockets: usize,
    index: usize,
)
    ensures
        ({
            let out = emission(priority, packet, now, last_id, sockets, index);
            &&& last_id is None ==> !out.out_of_order
            &&& last_id matches Some(id) ==> (out.out_of_order <==> packet.id <= id)
        }),
{
}

/// Law: what leaves is the packet that came out of the queue of its class, told as its own times say;
/// and it is what the next packet of the class is held against: that one is out of order exactly
/// where its identifier is no larger, and it goes to the next socket of the class, the first after
/// the last. A class without sockets names none.
pub proof fn law_packets_of_a_class_follow_each_other(
    first: EgressDRRScheduler,
    second: EgressDRRScheduler,
    third: EgressDRRScheduler,
    priority: Priority,
    a: Emission,
    b: Emission,
    now: Instant,
    later: Instant,
)
    requires
        second.emitted(first, priority, a, now),
        second.output_sockets == first.output_sockets,
        third.emitted(second, priority, b, later),
    ensures
        a.priority == priority,
        b.priority == priority,
        channel::taken(third.priority_receivers.at(priority)) == channel::taken(
            first.priority_receivers.at(priority),
        ).push(a.packet).push(b.packet),
        a.deadline_missed <==> now.nanos > a.packet.timestamp.nanos
            + a.packet.latency_budget.nanos,
        b.deadline_missed <==> later.nanos > b.packet.timestamp.nanos
            + b.packet.latency_budget.nanos,
        b.out_of_order <==> b.packet.id <= a.packet.id,
        first.output_sockets.at(priority) == 0 ==> a.socket is None && b.socket is None,
        first.output_sockets.at(priority) > 0 ==> {
            &&& a.socket is Some
            &&& b.socket is Some
            &&& a.socket.unwrap() < first.output_sockets.at(priority)
            &&& b.socket.unwrap() == (if a.socket.unwrap() + 1 == first.output_sockets.at(
                priority,
            ) {
                0
            } else {
                a.socket.unwrap() + 1
            })
        },
{
    let sockets = first.output_sockets.at(priority) as int;
    if sockets > 0 {
        let x = first.socket_indices.at(priority) as int;
        assert((x + 1) % sockets == (if x % sockets + 1 == sockets {
            0
        } else {
            x % sockets + 1
        })) by (nonlinear_arith)
            requires
                sockets > 0,
                x >= 0,
        ;
        vstd::arithmetic::div_mod::lemma_mod_bound(x, sockets);
        vstd::arithmetic::div_mod::lemma_mod_bound(x + 1, sockets);
        vstd::arithmetic::div_mod::lemma_small_mod(
            ((x + 1) % sockets) as nat,
            sockets as nat,
        );
    }
}

/// Law: a look finds nothing to send only where the queues of all four classes were asked and were empty,
/// and finds the way closed only where some queue was closed for good while all more critical ones were
/// empty and none less critical was asked.
pub proof fn law_nothing_is_passed_over(
    before: EgressDRRScheduler,
    after: EgressDRRScheduler,
    event: EgressEvent,
    now: Instant,
    priority: Priority,
)
    requires
        after.looked(before, event, now),
    ensures
        event is Idle ==> channel::replies(after.priority_receivers.at(priority))
            == channel::replies(before.priority_receivers.at(priority)).push(
            Err(RecvFailure::Empty),
        ),
        event is Closed ==> exists|p: Priority|
            {
                &&& channel::replies(#[trigger] after.priority_receivers.at(p))
                    == channel::replies(before.priority_receivers.at(p)).push(
                    Err(RecvFailure::Disconnected),
                )
                &&& priority.rank() < p.rank() ==> channel::replies(
                    after.priority_receivers.at(priority),
                ) == channel::replies(before.priority_receivers.at(priority)).push(
                    Err(RecvFailure::Empty),
                )
                &&& priority.rank() > p.rank() ==> after.priority_receivers.at(priority)
                    == before.priority_receivers.at(priority)
            },
        event matches EgressEvent::Emit(out) ==> priority.rank() > out.priority.rank()
            ==> after.priority_receivers.at(priority) == before.priority_receivers.at(priority),
{
    if event is Idle {
        assert(after.met_none(before, priority, RecvFailure::Empty));
    }
    if event is Closed {
        let p = choose|p: Priority| #[trigger]
            after.met_none(before, p, RecvFailure::Disconnected) && after.decided_at(
                before,
                p.rank(),
            );
        assert(channel::replies(after.priority_receivers.at(p)) == channel::replies(
            before.priority_receivers.at(p),
        ).push(Err(RecvFailure::Disconnected)));
        if priority.rank() < p.rank() {
            assert(after.met_none(before, priority, RecvFailure::Empty));
        }
    }
}

/// Law: a packet goes to the socket whose turn it is; a class without sockets has none to go to.
pub proof fn law_packets_go_to_the_socket_whose_turn_it_is(
    priority: Priority,
    packet: Packet,
    now: Instant,
    last_id: Option<u64>,
    sockets: usize,
    index: usize,
)
    ensures
        sockets == 0 <==> emission(priority, packet, now, last_id, sockets, index).socket is None,
        index < sockets ==> emission(priority, packet, now, last_id, sockets, index).socket == Some(
            index,
        ),
{
    if index < sockets {
        vstd::arithmetic::div_mod::lemma_small_mod(index as nat, sockets as nat);
    }
}

} // verus!

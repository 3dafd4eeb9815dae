//! Packets travelling through the pipeline.

use crate::buffer_pool::{
    after_lease, class_for, lease, recycled, BufferHandle, BufferPool, CLASS_COUNT,
};
use crate::priority::Priority;
use crate::time::{Duration, Instant};
use vstd::prelude::*;

verus! {

/// Largest payload that the pipeline handles, in bytes.
pub const MAX_PACKET_SIZE: usize = 1500;

/// Source of packet identifiers: 0, 1, 2 and so on, starting over after the largest `u64`.
pub struct PacketIds {
    next: u64,
}

impl PacketIds {
    /// The identifier that the next packet gets.
    pub closed spec fn upcoming(&self) -> u64 {
        self.next
    }

    pub fn new() -> (ids: PacketIds)
        ensures
            ids.upcoming() == 0,
    {
        PacketIds { next: 0 }
    }

    /// Hands out the next identifier.
    pub fn assign(&mut self) -> (id: u64)
        ensures
            id == old(self).upcoming(),
            final(self).upcoming() == (if id == u64::MAX {
                0
            } else {
                (id + 1) as u64
            }),
    {
        let id: u64 = self.next;
        self.next = self.next.wrapping_add(1);
        id
    }
}

/// A unit of work: payload bytes with their class and the latency that they may take.
#[derive(Debug)]
pub struct Packet {
    /// Identifier of the packet, assigned when it is created.
    pub id: u64,
    /// The buffer that holds the payload.
    pub buffer: BufferHandle,
    /// When the packet entered the pipeline.
    pub timestamp: Instant,
    /// Latency that the packet may take from ingress to egress.
    pub latency_budget: Duration,
    /// Class of the packet.
    pub priority: Priority,
}

impl Packet {
    /// Number of payload bytes: those of the buffer, up to [`MAX_PACKET_SIZE`].
    pub open spec fn spec_len(&self) -> nat {
        if self.buffer.bytes().len() <= MAX_PACKET_SIZE {
            self.buffer.bytes().len()
        } else {
            MAX_PACKET_SIZE as nat
        }
    }

    /// The payload bytes.
    pub open spec fn spec_payload(&self) -> Seq<u8> {
        self.buffer.bytes().subrange(0, self.spec_len() as int)
    }

    /// When the packet is due: its budget after it entered the pipeline.
    pub open spec fn spec_deadline(&self) -> Instant {
        self.timestamp.spec_plus(self.latency_budget)
    }

    /// Makes a packet of a frozen buffer, with the next identifier.
    pub fn from_buffer(
        ids: &mut PacketIds,
        priority: Priority,
        buffer: BufferHandle,
        latency_budget: Duration,
        now: Instant,
    ) -> (packet: Packet)
        ensures
            packet.id == old(ids).upcoming(),
            final(ids).upcoming() == (if packet.id == u64::MAX {
                0
            } else {
                (packet.id + 1) as u64
            }),
            packet.buffer == buffer,
            packet.timestamp == now,
            packet.latency_budget == latency_budget,
            packet.priority == priority,
    {
        Packet { id: ids.assign(), buffer, timestamp: now, latency_budget, priority }
    }

    /// Makes a packet that holds a copy of `data`.
    pub fn new(
        ids: &mut PacketIds,
        pool: &mut BufferPool,
        priority: Priority,
        data: &[u8],
        latency_budget: Duration,
        now: Instant,
    ) -> (packet: Packet)
        requires
            old(pool).wf(),
        ensures
            final(pool).wf(),
            packet.id == old(ids).upcoming(),
            final(ids).upcoming() == (if packet.id == u64::MAX {
                0
            } else {
                (packet.id + 1) as u64
            }),
            packet.spec_payload() == (if data@.len() <= MAX_PACKET_SIZE {
                data@
            } else {
                data@.subrange(0, MAX_PACKET_SIZE as int)
            }),
            packet.buffer.class() == class_for(data@.len(), 0),
            forall|c: int|
                0 <= c < CLASS_COUNT ==> #[trigger] final(pool).free(c) == (if c
                    == packet.buffer.class() {
                    after_lease(old(pool).free(c))
                } else {
                    old(pool).free(c)
                }),
            packet.timestamp == now,
            packet.latency_budget == latency_budget,
            packet.priority == priority,
    {
        proof {
            crate::buffer_pool::law_class_is_the_smallest_that_fits(data@.len());
        }
        let mut lease = lease(pool, data.len());
        lease.fill(data);
        let buffer = lease.freeze(data.len());
        let packet = Packet::from_buffer(ids, priority, buffer, latency_budget, now);
        assert(packet.spec_payload() =~= (if data@.len() <= MAX_PACKET_SIZE {
            data@
        } else {
            data@.subrange(0, MAX_PACKET_SIZE as int)
        }));
        packet
    }

    /// The payload bytes.
    pub fn payload(&self) -> (slice: &[u8])
        ensures
            slice@ == self.spec_payload(),
    {
        let slice = self.buffer.as_slice();
        if slice.len() <= MAX_PACKET_SIZE {
            assert(slice@.subrange(0, slice@.len() as int) =~= slice@);
            slice
        } else {
            vstd::slice::slice_subrange(slice, 0, MAX_PACKET_SIZE)
        }
    }

    /// Number of payload bytes.
    pub fn len(&self) -> (n: usize)
        ensures
            n == self.spec_len(),
            n == self.spec_payload().len(),
            n <= MAX_PACKET_SIZE,
    {
        let n: usize = self.buffer.len();
        if n <= MAX_PACKET_SIZE {
            n
        } else {
            MAX_PACKET_SIZE
        }
    }

    /// Numeric identifier of the packet's class.
    pub fn flow_id(&self) -> (id: u64)
        ensures
            id == self.priority.rank() + 1,
    {
        self.priority.flow_id()
    }

    /// When the packet is due.
    pub fn deadline(&self) -> (t: Instant)
        ensures
            t == self.spec_deadline(),
    {
        self.timestamp.plus(self.latency_budget)
    }

    /// Drops the packet. Where it was the last one on its buffer, the buffer goes back to the pool
    /// and `true` is returned.
    pub fn recycle(self, pool: &mut BufferPool) -> (returned: bool)
        requires
            old(pool).wf(),
        ensures
            final(pool).wf(),
            recycled(*old(pool), *final(pool), self.buffer, returned),
    {
        self.buffer.recycle(pool)
    }
}

impl Clone for Packet {
    fn clone(&self) -> (packet: Self)
        ensures
            packet == *self,
    {
        Packet {
            id: self.id,
            buffer: self.buffer.clone(),
            timestamp: self.timestamp,
            latency_budget: self.latency_budget,
            priority: self.priority,
        }
    }
}

/// Law: a packet is due its whole budget after it entered the pipeline, or at the end of the clock
/// where that is past it. Of two packets with one budget the earlier one is due no later, and so is
/// the one with the smaller budget of two that entered together.
pub proof fn law_deadline_is_the_budget_after_arrival(packet: Packet, other: Packet)
    ensures
        packet.timestamp.nanos + packet.latency_budget.nanos <= u64::MAX
            ==> packet.spec_deadline().nanos == packet.timestamp.nanos
            + packet.latency_budget.nanos,
        packet.timestamp.nanos + packet.latency_budget.nanos > u64::MAX
            ==> packet.spec_deadline().nanos == u64::MAX,
        packet.timestamp.nanos <= other.timestamp.nanos && packet.latency_budget.nanos
            <= other.latency_budget.nanos ==> packet.spec_deadline().nanos
            <= other.spec_deadline().nanos,
{
}

/// Law: the payload is the front of the buffer, byte for byte: the whole buffer where it holds no
/// more than 1500 bytes, the first 1500 bytes where it holds more.
pub proof fn law_payload_is_the_front_of_the_buffer(packet: Packet)
    ensures
        packet.spec_payload().len() == packet.spec_len(),
        packet.spec_payload().is_prefix_of(packet.buffer.bytes()),
        packet.buffer.bytes().len() <= 1500 ==> packet.spec_payload() == packet.buffer.bytes(),
        packet.buffer.bytes().len() > 1500 ==> packet.spec_len() == 1500,
{
    assert(packet.spec_payload().is_prefix_of(packet.buffer.bytes()));
    if packet.buffer.bytes().len() <= 1500 {
        assert(packet.spec_payload() =~= packet.buffer.bytes());
    }
}

} // verus!

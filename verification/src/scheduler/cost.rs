//! Simulated cost of working on a packet.

use crate::packet::Packet;
use crate::time::Duration;
use vstd::prelude::*;

verus! {

/// Payload size up to which a packet costs the base time only, in bytes.
pub const SMALL_PAYLOAD: usize = 200;

/// Surcharge for a payload of `len` bytes, in nanoseconds: nothing up to 200 bytes, then growing
/// evenly to 0.1 ms at 1500 bytes, rounded to the nearest nanosecond.
pub open spec fn surcharge(len: int) -> int {
    if len <= SMALL_PAYLOAD {
        0
    } else {
        (200_000 * (len - SMALL_PAYLOAD) + 1300) / 2600
    }
}

/// Time that a packet takes when the smallest packets take `base_nanos`.
pub open spec fn spec_cost(base_nanos: u64, packet: Packet) -> Duration {
    Duration { nanos: (base_nanos + surcharge(packet.spec_len() as int)) as u64 }
}

/// Computes [`spec_cost`].
pub fn size_cost(base_nanos: u64, packet: &Packet) -> (cost: Duration)
    requires
        base_nanos <= 1_000_000,
    ensures
        cost == spec_cost(base_nanos, *packet),
        cost.nanos == base_nanos + surcharge(packet.spec_len() as int),
{
    let len: usize = packet.len();
    let extra: u64 = if len > SMALL_PAYLOAD {
        (200_000 * ((len - SMALL_PAYLOAD) as u64) + 1300) / 2600
    } else {
        0
    };
    Duration { nanos: base_nanos + extra }
}

/// Law: the surcharge is the exact one, 0.1 ms times the part of the way from 200 to 1500 bytes, to
/// the nearest nanosecond. It grows with the size and is at most 0.1 ms.
pub proof fn law_surcharge_is_linear(len: int)
    requires
        len <= 1500,
    ensures
        len <= SMALL_PAYLOAD ==> surcharge(len) == 0,
        len > SMALL_PAYLOAD ==> -1300 <= 2 * (1300 * surcharge(len) - 100_000 * (len
            - SMALL_PAYLOAD)) <= 1300,
        0 <= surcharge(len) <= 100_000,
        surcharge(len) <= surcharge(len + 1),
        surcharge(1500) == 100_000,
{
}

/// Law: a packet takes the base time, and up to 0.1 ms more the more bytes its buffer holds: nothing
/// more up to 200 bytes, 1000/13 ns for each byte from 200 to 1500, to the nearest nanosecond, and no
/// more for any bytes beyond. So a larger packet never takes less time.
pub proof fn law_cost_grows_with_the_payload(base_nanos: u64, packet: Packet, larger: Packet)
    requires
        base_nanos <= 1_000_000,
    ensures
        ({
            let len = packet.buffer.bytes().len();
            let extra = spec_cost(base_nanos, packet).nanos - base_nanos;
            &&& len <= 200 ==> extra == 0
            &&& 200 < len <= 1500 ==> -13 <= 2 * (13 * extra - 1000 * (len - 200)) <= 13
            &&& 1500 <= len ==> extra == 100_000
        }),
        packet.buffer.bytes().len() <= larger.buffer.bytes().len() ==> spec_cost(
            base_nanos,
            packet,
        ).nanos <= spec_cost(base_nanos, larger).nanos,
{
}

} // verus!

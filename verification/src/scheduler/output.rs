//! Handing finished packets to the next stage.

use crate::channel;
use crate::channel::SendOutcome;
use crate::packet::Packet;
use crossbeam_channel::Sender;
use vstd::prelude::*;

verus! {

/// A counter `n` steps on, starting over after the largest `u64`.
pub open spec fn advanced(counter: u64, n: nat) -> u64 {
    ((counter + n) % 0x1_0000_0000_0000_0000) as u64
}

/// The counter one step on.
pub fn bump(counter: u64) -> (next: u64)
    ensures
        next == advanced(counter, 1),
{
    counter.wrapping_add(1)
}

/// What offering `packet` to an output does: it is offered once, and either the output holds it, or
/// it comes back and is counted as dropped. Only an output with a limit is ever full.
pub open spec fn offered(
    packet: Packet,
    rejected: Option<Packet>,
    tx_before: Sender<Packet>,
    tx_after: Sender<Packet>,
    drops_before: u64,
    drops_after: u64,
) -> bool {
    &&& channel::offers(tx_after) == channel::offers(tx_before).push(packet)
    &&& channel::limit(tx_after) == channel::limit(tx_before)
    &&& channel::channel_of(tx_after) == channel::channel_of(tx_before)
    &&& channel::verdicts(tx_after).len() == channel::verdicts(tx_before).len() + 1
    &&& channel::verdicts(tx_after).drop_last() == channel::verdicts(tx_before)
    &&& (channel::verdicts(tx_after).last() is Taken) == (rejected is None)
    &&& channel::verdicts(tx_after).last() is Full ==> channel::limit(tx_before) is Some
    &&& match rejected {
        None => {
            &&& channel::sent(tx_after) == channel::sent(tx_before).push(packet)
            &&& drops_after == drops_before
        },
        Some(back) => {
            &&& back == packet
            &&& channel::sent(tx_after) == channel::sent(tx_before)
            &&& drops_after == advanced(drops_before, 1)
        },
    }
}

/// Deals with what became of an offered packet: one that comes back is counted as dropped.
pub fn settle(drops: &mut u64, outcome: SendOutcome) -> (rejected: Option<Packet>)
    ensures
        match outcome {
            SendOutcome::Sent => rejected is None && *final(drops) == *old(drops),
            SendOutcome::Full(back) => rejected == Some(back) && *final(drops) == advanced(
                *old(drops),
                1,
            ),
            SendOutcome::Disconnected(back) => rejected == Some(back) && *final(drops) == advanced(
                *old(drops),
                1,
            ),
        },
{
    match outcome {
        SendOutcome::Sent => None,
        SendOutcome::Full(back) => {
            *drops = bump(*drops);
            Some(back)
        },
        SendOutcome::Disconnected(back) => {
            *drops = bump(*drops);
            Some(back)
        },
    }
}

/// Offers a packet to an output without waiting. A packet that the output does not take is counted
/// and handed back.
pub fn send_packet(tx: &mut Sender<Packet>, drops: &mut u64, packet: Packet) -> (rejected: Option<
    Packet,
>)
    ensures
        offered(packet, rejected, *old(tx), *final(tx), *old(drops), *final(drops)),
        channel::limit(*final(tx)) == channel::limit(*old(tx)),
{
    let outcome = channel::try_send(tx, None, packet);
    proof {
        assert(channel::verdicts(*tx).drop_last() =~= channel::verdicts(*old(tx)));
    }
    settle(drops, outcome)
}

/// Law: a counter goes on by exactly as many steps as are taken, as long as a `u64` holds them, and
/// starts over at zero after the largest. Steps taken in two goes are taken all the same.
pub proof fn law_counters_go_on(counter: u64, n: nat, m: nat)
    ensures
        counter + n <= u64::MAX ==> advanced(counter, n) == counter + n,
        advanced(u64::MAX, 1) == 0,
        advanced(advanced(counter, n), m) == advanced(counter, n + m),
{
    let size = 0x1_0000_0000_0000_0000int;
    vstd::arithmetic::div_mod::lemma_mod_bound(counter + n, size);
    vstd::arithmetic::div_mod::lemma_mod_bound(counter + n + m, size);
    vstd::arithmetic::div_mod::lemma_add_mod_noop_right(m as int, counter + n, size);
    assert((m + (counter + n) % size) % size == (m + (counter + n)) % size);
}

/// Law: a packet that is offered is either there or handed back and counted, never both and never
/// neither.
pub proof fn law_an_offered_packet_is_kept_or_counted(
    packet: Packet,
    rejected: Option<Packet>,
    tx_before: Sender<Packet>,
    tx_after: Sender<Packet>,
    drops_before: u64,
    drops_after: u64,
)
    requires
        offered(packet, rejected, tx_before, tx_after, drops_before, drops_after),
        drops_before < u64::MAX,
    ensures
        (channel::sent(tx_after).len() - channel::sent(tx_before).len()) + (drops_after
            - drops_before) == 1,
        rejected is None ==> channel::sent(tx_after).last() == packet,
        rejected is None <==> drops_after == drops_before,
        rejected matches Some(back) ==> back == packet && drops_after == drops_before + 1,
        channel::offers(tx_after).last() == packet,
{
}

} // verus!

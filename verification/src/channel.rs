//! Packet channels between the pipeline's threads.
//!
//! The channels are those of `crossbeam_channel`. Other threads may hold the other end, so what a
//! call meets is in general open; what a handle itself has put in and taken out is not, and the
//! contracts here are stated over that record, and over what the handle offered and what its calls
//! gave. Where one owner holds both ends and has shared neither, the outcome of every call is fixed.

use crate::packet::Packet;
use crate::time::Duration;
use crossbeam_channel::{
    Receiver, RecvTimeoutError, Sender, TryRecvError, TrySendError,
};
use vstd::prelude::*;

verus! {

/// Largest capacity that a channel is made with. The places of a channel are allocated when it is
/// made, 64 bytes or fewer for each, and an allocation holds at most half of what a `usize` counts.
pub const MAX_CHANNEL_CAPACITY: usize = usize::MAX / 128;

#[verifier::external_type_specification]
#[verifier::external_body]
#[verifier::reject_recursive_types(T)]
pub struct ExSender<T>(crossbeam_channel::Sender<T>);

#[verifier::external_type_specification]
#[verifier::external_body]
#[verifier::reject_recursive_types(T)]
pub struct ExReceiver<T>(crossbeam_channel::Receiver<T>);

/// The packets that this sending handle has put into its channel, oldest first.
pub uninterp spec fn sent(tx: Sender<Packet>) -> Seq<Packet>;

/// The packets that this receiving handle has taken out of its channel, oldest first.
pub uninterp spec fn taken(rx: Receiver<Packet>) -> Seq<Packet>;

/// The packets that this sending handle has offered to its channel, taken or not, oldest first.
pub uninterp spec fn offers(tx: Sender<Packet>) -> Seq<Packet>;

/// How the channel of this sending handle answered each offer, oldest first.
pub uninterp spec fn verdicts(tx: Sender<Packet>) -> Seq<Verdict>;

/// What the calls that took packets out through this receiving handle gave, oldest first: a packet
/// each, or why there was none.
pub uninterp spec fn replies(rx: Receiver<Packet>) -> Seq<Result<Packet, RecvFailure>>;

/// The channel that this sending handle leads into.
pub uninterp spec fn channel_of(tx: Sender<Packet>) -> int;

/// The channel that this receiving handle leads out of.
pub uninterp spec fn source_of(rx: Receiver<Packet>) -> int;

/// The number of packets that the channel of this handle holds at most, or `None` where it has no
/// limit.
pub uninterp spec fn limit(tx: Sender<Packet>) -> Option<nat>;

/// Whether these are the two handles that a channel was made with and neither has been cloned.
pub uninterp spec fn sole_ends(tx: Sender<Packet>, rx: Receiver<Packet>) -> bool;

/// The packets in the channel of a pair of sole ends, oldest first.
pub open spec fn in_flight(tx: Sender<Packet>, rx: Receiver<Packet>) -> Seq<Packet> {
    sent(tx).skip(taken(rx).len() as int)
}

/// Whether a channel with this limit has room for one more than `count` packets.
pub open spec fn has_room(limit: Option<nat>, count: nat) -> bool {
    match limit {
        Some(most) => count < most,
        None => true,
    }
}

/// The packets that a receiving handle took between two moments, oldest first.
pub open spec fn got(before: Receiver<Packet>, after: Receiver<Packet>) -> Seq<Packet> {
    taken(after).skip(taken(before).len() as int)
}

/// What became of a packet that was offered to a channel.
pub enum SendOutcome {
    /// The channel holds the packet.
    Sent,
    /// The channel was full; the packet comes back.
    Full(Packet),
    /// No receiving handle is left; the packet comes back.
    Disconnected(Packet),
}

/// How a channel answered an offer.
#[derive(Debug, Clone, Copy, PartialEq, Eq, Structural)]
pub enum Verdict {
    /// The channel took the packet.
    Taken,
    /// The channel was full.
    Full,
    /// No receiving handle was left.
    Disconnected,
}

/// Why a channel gave no packet.
#[derive(Debug, Clone, Copy, PartialEq, Eq, Structural)]
pub enum RecvFailure {
    /// The channel is empty.
    Empty,
    /// The channel is empty and no sending handle is left.
    Disconnected,
}

impl SendOutcome {
    pub open spec fn verdict(self) -> Verdict {
        match self {
            SendOutcome::Sent => Verdict::Taken,
            SendOutcome::Full(_) => Verdict::Full,
            SendOutcome::Disconnected(_) => Verdict::Disconnected,
        }
    }

    /// The packet that came back, if one did.
    pub open spec fn returned(self) -> Option<Packet> {
        match self {
            SendOutcome::Sent => None,
            SendOutcome::Full(back) => Some(back),
            SendOutcome::Disconnected(back) => Some(back),
        }
    }

    /// Gives the packet that came back, if one did.
    pub fn into_returned(self) -> (back: Option<Packet>)
        ensures
            back == self.returned(),
    {
        match self {
            SendOutcome::Sent => None,
            SendOutcome::Full(back) => Some(back),
            SendOutcome::Disconnected(back) => Some(back),
        }
    }

    /// What the outcome says of the packet that was offered and of the record of the handle.
    pub open spec fn accounts_for(
        self,
        packet: Packet,
        before: Sender<Packet>,
        after: Sender<Packet>,
    ) -> bool {
        &&& limit(after) == limit(before)
        &&& channel_of(after) == channel_of(before)
        &&& offers(after) == offers(before).push(packet)
        &&& verdicts(after) == verdicts(before).push(self.verdict())
        &&& match self {
            SendOutcome::Sent => sent(after) == sent(before).push(packet),
            SendOutcome::Full(back) => back == packet && sent(after) == sent(before)
                && limit(before) is Some,
            SendOutcome::Disconnected(back) => back == packet && sent(after) == sent(before),
        }
    }
}

/// Whether a receiving handle was asked once, and its records grew by exactly what that gave.
pub open spec fn received(
    outcome: Result<Packet, RecvFailure>,
    before: Receiver<Packet>,
    after: Receiver<Packet>,
) -> bool {
    &&& source_of(after) == source_of(before)
    &&& replies(after) == replies(before).push(outcome)
    &&& match outcome {
        Ok(packet) => taken(after) == taken(before).push(packet),
        Err(_) => taken(after) == taken(before),
    }
}

/// Whether a receiving handle was asked once between two moments, whatever that gave.
pub open spec fn asked_once(before: Receiver<Packet>, after: Receiver<Packet>) -> bool {
    exists|outcome: Result<Packet, RecvFailure>| #[trigger] received(outcome, before, after)
}

/// The replies that give these packets.
pub open spec fn as_replies(packets: Seq<Packet>) -> Seq<Result<Packet, RecvFailure>> {
    packets.map_values(|packet: Packet| Ok::<Packet, RecvFailure>(packet))
}

/// Whether a receiving handle gave a packet every time that it was asked between two moments.
pub open spec fn always_gave(before: Receiver<Packet>, after: Receiver<Packet>) -> bool {
    &&& source_of(after) == source_of(before)
    &&& replies(after) == replies(before) + as_replies(got(before, after))
}

/// Whether a receiving handle was asked until it gave no packet, and then no more.
pub open spec fn drained(before: Receiver<Packet>, after: Receiver<Packet>) -> bool {
    &&& source_of(after) == source_of(before)
    &&& exists|why: RecvFailure|
        replies(after) == #[trigger] (replies(before) + as_replies(got(before, after))).push(
            Err::<Packet, RecvFailure>(why),
        )
}

/// Whether a receiving handle was asked until it gave no packet. One pass takes no more packets than
/// a `usize` counts.
pub open spec fn took_all(before: Receiver<Packet>, after: Receiver<Packet>) -> bool {
    ||| drained(before, after)
    ||| got(before, after).len() == usize::MAX && always_gave(before, after)
}

pub proof fn lemma_not_asked(rx: Receiver<Packet>)
    ensures
        got(rx, rx) == Seq::<Packet>::empty(),
        always_gave(rx, rx),
{
    assert(got(rx, rx) =~= Seq::<Packet>::empty());
    assert(replies(rx) + as_replies(got(rx, rx)) =~= replies(rx));
}

pub proof fn lemma_gave_one_more(
    before: Receiver<Packet>,
    middle: Receiver<Packet>,
    after: Receiver<Packet>,
    packet: Packet,
)
    requires
        taken(before).is_prefix_of(taken(middle)),
        always_gave(before, middle),
        received(Ok(packet), middle, after),
    ensures
        taken(before).is_prefix_of(taken(after)),
        got(before, after) == got(before, middle).push(packet),
        always_gave(before, after),
{
    assert(got(before, after) =~= got(before, middle).push(packet));
    assert(as_replies(got(before, after)) =~= as_replies(got(before, middle)).push(Ok(packet)));
    assert(replies(before) + as_replies(got(before, after)) =~= (replies(before) + as_replies(
        got(before, middle),
    )).push(Ok(packet)));
}

pub proof fn lemma_gave_no_more(
    before: Receiver<Packet>,
    middle: Receiver<Packet>,
    after: Receiver<Packet>,
    why: RecvFailure,
)
    requires
        taken(before).is_prefix_of(taken(middle)),
        always_gave(before, middle),
        received(Err(why), middle, after),
    ensures
        taken(before).is_prefix_of(taken(after)),
        got(before, after) == got(before, middle),
        drained(before, after),
{
    assert(got(before, after) =~= got(before, middle));
    assert(replies(after) == (replies(before) + as_replies(got(before, after))).push(
        Err::<Packet, RecvFailure>(why),
    ));
}

/// Calls `crossbeam_channel::bounded`: a new channel that holds at most `capacity` packets. Neither
/// end has been used or cloned. The outside function panics on a capacity whose buffer cannot be
/// addressed, so the capacity is bounded.
#[verifier::external_body]
pub(crate) fn bounded(capacity: usize) -> (ends: (Sender<Packet>, Receiver<Packet>))
    requires
        capacity <= MAX_CHANNEL_CAPACITY,
    ensures
        sent(ends.0) == Seq::<Packet>::empty(),
        taken(ends.1) == Seq::<Packet>::empty(),
        offers(ends.0) == Seq::<Packet>::empty(),
        verdicts(ends.0).len() == 0,
        replies(ends.1).len() == 0,
        limit(ends.0) == Some(capacity as nat),
        channel_of(ends.0) == source_of(ends.1),
        sole_ends(ends.0, ends.1),
{
    crossbeam_channel::bounded(capacity)
}

/// Calls `crossbeam_channel::unbounded`: a new channel without a limit. Neither end has been used
/// or cloned.
#[verifier::external_body]
pub(crate) fn unbounded() -> (ends: (Sender<Packet>, Receiver<Packet>))
    ensures
        sent(ends.0) == Seq::<Packet>::empty(),
        taken(ends.1) == Seq::<Packet>::empty(),
        offers(ends.0) == Seq::<Packet>::empty(),
        verdicts(ends.0).len() == 0,
        replies(ends.1).len() == 0,
        limit(ends.0) == None::<nat>,
        channel_of(ends.0) == source_of(ends.1),
        sole_ends(ends.0, ends.1),
{
    crossbeam_channel::unbounded()
}

/// Calls `Sender::try_send`: puts the packet into the channel, or gives it back at once. Either way
/// it counts as offered. Only a channel with a limit is ever full. Where the caller also holds the
/// receiving end and neither end was cloned, the packet is taken exactly if there is room.
#[verifier::external_body]
pub(crate) fn try_send(
    tx: &mut Sender<Packet>,
    peer: Option<&Receiver<Packet>>,
    packet: Packet,
) -> (outcome: SendOutcome)
    ensures
        outcome.accounts_for(packet, *old(tx), *final(tx)),
        forall|rx: Receiver<Packet>|
            #[trigger] sole_ends(*final(tx), rx) == sole_ends(*old(tx), rx),
        peer matches Some(rx) ==> (sole_ends(*old(tx), *rx) ==> if has_room(
            limit(*old(tx)),
            in_flight(*old(tx), *rx).len(),
        ) {
            outcome is Sent
        } else {
            outcome is Full
        }),
{
    match tx.try_send(packet) {
        Ok(()) => SendOutcome::Sent,
        Err(TrySendError::Full(back)) => SendOutcome::Full(back),
        Err(TrySendError::Disconnected(back)) => SendOutcome::Disconnected(back),
    }
}

/// Calls `Sender::send`: waits until the channel takes the packet, and gives it back only where no
/// receiving handle is left. The caller holds the receiving end too; where neither end was cloned
/// nobody else can make room, so there must be some. Where an end was cloned, the call waits for as
/// long as the holders of the clones make no room.
#[verifier::external_body]
pub(crate) fn send(tx: &mut Sender<Packet>, peer: &Receiver<Packet>, packet: Packet) -> (outcome:
    Result<(), Packet>)
    requires
        sole_ends(*old(tx), *peer) ==> has_room(
            limit(*old(tx)),
            in_flight(*old(tx), *peer).len(),
        ),
    ensures
        limit(*final(tx)) == limit(*old(tx)),
        channel_of(*final(tx)) == channel_of(*old(tx)),
        offers(*final(tx)) == offers(*old(tx)).push(packet),
        verdicts(*final(tx)) == verdicts(*old(tx)).push(
            if outcome is Ok {
                Verdict::Taken
            } else {
                Verdict::Disconnected
            },
        ),
        outcome is Ok ==> sent(*final(tx)) == sent(*old(tx)).push(packet),
        outcome matches Err(back) ==> back == packet && sent(*final(tx)) == sent(*old(tx)),
        forall|rx: Receiver<Packet>|
            #[trigger] sole_ends(*final(tx), rx) == sole_ends(*old(tx), rx),
        sole_ends(*old(tx), *peer) ==> outcome is Ok,
{
    tx.send(packet).map_err(|failed| failed.into_inner())
}

/// Calls `Receiver::try_recv`: takes the oldest packet out of the channel, if there is one. Where
/// the caller also holds the sending end and neither end was cloned, it is the oldest packet that
/// was sent and not taken, and there is none exactly if all were taken.
#[verifier::external_body]
pub(crate) fn try_recv(rx: &mut Receiver<Packet>, peer: Option<&Sender<Packet>>) -> (outcome:
    Result<Packet, RecvFailure>)
    ensures
        received(outcome, *old(rx), *final(rx)),
        forall|tx: Sender<Packet>|
            #[trigger] sole_ends(tx, *final(rx)) == sole_ends(tx, *old(rx)),
        peer matches Some(tx) ==> (sole_ends(*tx, *old(rx)) ==> match outcome {
            Ok(packet) => taken(*old(rx)).len() < sent(*tx).len() && packet == sent(
                *tx,
            )[taken(*old(rx)).len() as int],
            Err(why) => why is Empty && taken(*old(rx)).len() >= sent(*tx).len(),
        }),
{
    rx.try_recv().map_err(
        |why| match why {
            TryRecvError::Empty => RecvFailure::Empty,
            TryRecvError::Disconnected => RecvFailure::Disconnected,
        },
    )
}

/// Calls `Receiver::recv`: waits for the oldest packet, and gives none only where the channel is
/// empty and no sending handle is left. The caller holds the sending end too; where neither end
/// was cloned nobody else can send, so there must be a packet. Where an end was cloned, the call
/// waits for as long as the holders of the clones send none.
#[verifier::external_body]
pub(crate) fn recv(rx: &mut Receiver<Packet>, peer: &Sender<Packet>) -> (outcome: Result<
    Packet,
    RecvFailure,
>)
    requires
        sole_ends(*peer, *old(rx)) ==> taken(*old(rx)).len() < sent(*peer).len(),
    ensures
        received(outcome, *old(rx), *final(rx)),
        forall|tx: Sender<Packet>|
            #[trigger] sole_ends(tx, *final(rx)) == sole_ends(tx, *old(rx)),
        outcome matches Err(why) ==> why is Disconnected,
        sole_ends(*peer, *old(rx)) ==> (outcome matches Ok(packet) && packet == sent(*peer)[taken(
            *old(rx),
        ).len() as int]),
{
    rx.recv().map_err(|_| RecvFailure::Disconnected)
}

/// Calls `Receiver::recv_timeout`: waits at most `timeout` for the oldest packet. How long that
/// takes and whether one comes depends on the other threads.
#[verifier::external_body]
pub(crate) fn recv_timeout(rx: &mut Receiver<Packet>, timeout: Duration) -> (outcome: Result<
    Packet,
    RecvFailure,
>)
    ensures
        received(outcome, *old(rx), *final(rx)),
        forall|tx: Sender<Packet>|
            #[trigger] sole_ends(tx, *final(rx)) == sole_ends(tx, *old(rx)),
{
    rx.recv_timeout(std::time::Duration::from_nanos(timeout.nanos)).map_err(
        |why| match why {
            RecvTimeoutError::Timeout => RecvFailure::Empty,
            RecvTimeoutError::Disconnected => RecvFailure::Disconnected,
        },
    )
}

/// Calls `Receiver::len`: the number of packets in the channel at some moment of the call. With
/// sole ends that is what was sent and not taken.
#[verifier::external_body]
pub(crate) fn len(rx: &Receiver<Packet>, peer: &Sender<Packet>) -> (count: usize)
    ensures
        sole_ends(*peer, *rx) ==> count == in_flight(*peer, *rx).len(),
{
    rx.len()
}

/// Calls `Receiver::is_empty`: whether the channel was empty at some moment of the call. With sole
/// ends that is whether all that was sent was taken.
#[verifier::external_body]
pub(crate) fn is_empty(rx: &Receiver<Packet>, peer: Option<&Sender<Packet>>) -> (empty: bool)
    ensures
        peer matches Some(tx) ==> (sole_ends(*tx, *rx) ==> empty == (in_flight(*tx, *rx).len()
            == 0)),
{
    rx.is_empty()
}

/// Calls `Sender::clone`: another handle to the same channel, which has sent nothing yet. Neither
/// handle is a sole end from then on.
#[verifier::external_body]
pub(crate) fn clone_sender(tx: &mut Sender<Packet>) -> (other: Sender<Packet>)
    ensures
        sent(*final(tx)) == sent(*old(tx)),
        limit(*final(tx)) == limit(*old(tx)),
        channel_of(*final(tx)) == channel_of(*old(tx)),
        channel_of(other) == channel_of(*old(tx)),
        offers(*final(tx)) == offers(*old(tx)),
        verdicts(*final(tx)) == verdicts(*old(tx)),
        verdicts(other).len() == 0,
        sent(other) == Seq::<Packet>::empty(),
        offers(other) == Seq::<Packet>::empty(),
        limit(other) == limit(*old(tx)),
        forall|rx: Receiver<Packet>| !(#[trigger] sole_ends(*final(tx), rx)),
        forall|rx: Receiver<Packet>| !(#[trigger] sole_ends(other, rx)),
{
    tx.clone()
}

/// Calls `Receiver::clone`: another handle to the same channel, which has taken nothing yet.
/// Neither handle is a sole end from then on.
#[verifier::external_body]
pub(crate) fn clone_receiver(rx: &mut Receiver<Packet>) -> (other: Receiver<Packet>)
    ensures
        taken(*final(rx)) == taken(*old(rx)),
        replies(*final(rx)) == replies(*old(rx)),
        source_of(*final(rx)) == source_of(*old(rx)),
        source_of(other) == source_of(*old(rx)),
        taken(other) == Seq::<Packet>::empty(),
        replies(other).len() == 0,
        forall|tx: Sender<Packet>| !(#[trigger] sole_ends(tx, *final(rx))),
        forall|tx: Sender<Packet>| !(#[trigger] sole_ends(tx, other)),
{
    rx.clone()
}

/// Law: what a handle gave between two moments is what its record gained, and asking once adds the one
/// packet that came, or none.
pub proof fn law_records_grow_by_what_came(
    outcome: Result<Packet, RecvFailure>,
    before: Receiver<Packet>,
    after: Receiver<Packet>,
)
    requires
        received(outcome, before, after),
    ensures
        got(before, after).len() <= 1,
        outcome matches Ok(packet) ==> got(before, after) == seq![packet],
        outcome is Err ==> got(before, after) == Seq::<Packet>::empty(),
        replies(after).len() == replies(before).len() + 1,
        replies(after).last() == outcome,
        asked_once(before, after),
{
    match outcome {
        Ok(packet) => {
            assert(got(before, after) =~= seq![packet]);
        },
        Err(_) => {
            assert(got(before, after) =~= Seq::<Packet>::empty());
        },
    }
}

/// Law: a handle that was asked until it gave no packet gave no packet at last, and one before each
/// time.
pub proof fn law_draining_ends_with_no_packet(
    before: Receiver<Packet>,
    after: Receiver<Packet>,
    i: int,
)
    requires
        drained(before, after),
        0 <= i < got(before, after).len(),
    ensures
        replies(after).len() == replies(before).len() + got(before, after).len() + 1,
        replies(after).last() is Err,
        replies(after)[replies(before).len() + i] == Ok::<Packet, RecvFailure>(
            got(before, after)[i],
        ),
{
}

/// Law: a packet that is sent comes back exactly where the channel did not take it, and is the one that
/// was sent.
pub proof fn law_what_is_not_taken_comes_back(
    outcome: SendOutcome,
    packet: Packet,
    before: Sender<Packet>,
    after: Sender<Packet>,
)
    requires
        outcome.accounts_for(packet, before, after),
    ensures
        outcome.returned() is None <==> outcome.verdict() is Taken,
        outcome.returned() is None ==> sent(after) == sent(before).push(packet),
        outcome.returned() matches Some(back) ==> back == packet && sent(after) == sent(before),
        offers(after) == offers(before).push(packet),
{
}

} // verus!

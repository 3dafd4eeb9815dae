//! Channels that carry measurements and reports.
//!
//! As with the packet channels, the contracts are stated over what a handle itself has put in and
//! taken out.

use crate::channel::{RecvFailure, MAX_CHANNEL_CAPACITY};
use crate::metrics::{MetricsEvent, MetricsSnapshot};
use crossbeam_channel::{Receiver, Sender, TryRecvError};
use std::collections::HashMap;
use vstd::prelude::*;

verus! {

/// The events that this sending handle has put into its channel, oldest first.
pub uninterp spec fn events_sent(tx: Sender<MetricsEvent>) -> Seq<MetricsEvent>;

/// The events that this sending handle has offered to its channel, taken or not, oldest first.
pub uninterp spec fn events_offered(tx: Sender<MetricsEvent>) -> Seq<MetricsEvent>;

/// The events that this receiving handle has taken out of its channel, oldest first.
pub uninterp spec fn events_taken(rx: Receiver<MetricsEvent>) -> Seq<MetricsEvent>;

/// What the calls that took events out through this receiving handle gave, oldest first: an event
/// each, or why there was none.
pub uninterp spec fn event_replies(rx: Receiver<MetricsEvent>) -> Seq<
    Result<MetricsEvent, RecvFailure>,
>;

/// The number of events that the channel of this handle holds at most.
pub uninterp spec fn event_limit(tx: Sender<MetricsEvent>) -> nat;

/// Whether these are the two handles that an event channel was made with and neither has been
/// cloned.
pub uninterp spec fn event_ends(tx: Sender<MetricsEvent>, rx: Receiver<MetricsEvent>) -> bool;

/// The reports that this sending handle has put into its channel, oldest first.
pub uninterp spec fn reports_sent(tx: Sender<HashMap<u64, MetricsSnapshot>>) -> Seq<
    Map<u64, MetricsSnapshot>,
>;

/// The reports that this sending handle has offered to its channel, taken or not, oldest first.
pub uninterp spec fn reports_offered(tx: Sender<HashMap<u64, MetricsSnapshot>>) -> Seq<
    Map<u64, MetricsSnapshot>,
>;

/// Whether these are the two handles that a report channel without a limit was made with and
/// neither has been cloned.
pub uninterp spec fn report_ends(
    tx: Sender<HashMap<u64, MetricsSnapshot>>,
    rx: Receiver<HashMap<u64, MetricsSnapshot>>,
) -> bool;

/// The events in the channel of a pair of sole ends.
pub open spec fn events_in_flight(tx: Sender<MetricsEvent>, rx: Receiver<MetricsEvent>) -> Seq<
    MetricsEvent,
> {
    events_sent(tx).skip(events_taken(rx).len() as int)
}

/// Calls `crossbeam_channel::bounded`: a new channel that holds at most `capacity` events. Neither
/// end has been used or cloned. The outside function panics on a capacity whose buffer cannot be
/// addressed, so the capacity is bounded.
#[verifier::external_body]
pub(crate) fn event_channel(capacity: usize) -> (ends: (
    Sender<MetricsEvent>,
    Receiver<MetricsEvent>,
))
    requires
        capacity <= MAX_CHANNEL_CAPACITY,
    ensures
        events_sent(ends.0) == Seq::<MetricsEvent>::empty(),
        events_taken(ends.1) == Seq::<MetricsEvent>::empty(),
        events_offered(ends.0) == Seq::<MetricsEvent>::empty(),
        event_replies(ends.1).len() == 0,
        event_limit(ends.0) == capacity,
        event_ends(ends.0, ends.1),
{
    crossbeam_channel::bounded(capacity)
}

/// Calls `Sender::try_send`: puts the event into the channel, or drops it at once where the channel
/// is full or no receiving handle is left. Either way it counts as offered. Where the caller also
/// holds the receiving end and neither end was cloned, the event is taken exactly if there is room.
#[verifier::external_body]
pub(crate) fn try_send_event(
    tx: &mut Sender<MetricsEvent>,
    peer: Option<&Receiver<MetricsEvent>>,
    event: MetricsEvent,
) -> (sent: bool)
    ensures
        event_limit(*final(tx)) == event_limit(*old(tx)),
        events_offered(*final(tx)) == events_offered(*old(tx)).push(event),
        sent ==> events_sent(*final(tx)) == events_sent(*old(tx)).push(event),
        !sent ==> events_sent(*final(tx)) == events_sent(*old(tx)),
        forall|rx: Receiver<MetricsEvent>| #[trigger]
            event_ends(*final(tx), rx) == event_ends(*old(tx), rx),
        peer matches Some(rx) ==> (event_ends(*old(tx), *rx) ==> sent == (events_in_flight(
            *old(tx),
            *rx,
        ).len() < event_limit(*old(tx)))),
{
    tx.try_send(event).is_ok()
}

/// Calls `Receiver::try_recv`: takes the oldest event out of the channel, if there is one. Where the
/// caller also holds the sending end and neither end was cloned, it is the oldest event that was
/// sent and not taken, and there is none exactly if all were taken.
#[verifier::external_body]
pub(crate) fn try_recv_event(
    rx: &mut Receiver<MetricsEvent>,
    peer: Option<&Sender<MetricsEvent>>,
) -> (outcome: Result<MetricsEvent, RecvFailure>)
    ensures
        match outcome {
            Ok(event) => events_taken(*final(rx)) == events_taken(*old(rx)).push(event),
            Err(_) => events_taken(*final(rx)) == events_taken(*old(rx)),
        },
        event_replies(*final(rx)) == event_replies(*old(rx)).push(outcome),
        forall|tx: Sender<MetricsEvent>| #[trigger]
            event_ends(tx, *final(rx)) == event_ends(tx, *old(rx)),
        peer matches Some(tx) ==> (event_ends(*tx, *old(rx)) ==> match outcome {
            Ok(event) => events_taken(*old(rx)).len() < events_sent(*tx).len() && event
                == events_sent(*tx)[events_taken(*old(rx)).len() as int],
            Err(why) => why is Empty && events_taken(*old(rx)).len() >= events_sent(*tx).len(),
        }),
{
    rx.try_recv().map_err(
        |why| match why {
            TryRecvError::Empty => RecvFailure::Empty,
            TryRecvError::Disconnected => RecvFailure::Disconnected,
        },
    )
}

/// Calls `crossbeam_channel::unbounded`: a new channel for reports, without a limit. Neither end has
/// been used or cloned.
#[verifier::external_body]
pub(crate) fn report_channel() -> (ends: (
    Sender<HashMap<u64, MetricsSnapshot>>,
    Receiver<HashMap<u64, MetricsSnapshot>>,
))
    ensures
        reports_sent(ends.0).len() == 0,
        reports_offered(ends.0).len() == 0,
        report_ends(ends.0, ends.1),
{
    crossbeam_channel::unbounded()
}

/// Whether a sending handle belongs to the same receiving handle as before.
pub open spec fn same_report_ends(
    before: Sender<HashMap<u64, MetricsSnapshot>>,
    after: Sender<HashMap<u64, MetricsSnapshot>>,
) -> bool {
    forall|rx: Receiver<HashMap<u64, MetricsSnapshot>>| #[trigger]
        report_ends(after, rx) == report_ends(before, rx)
}

/// Calls `Sender::try_send`: puts the report into the channel, or drops it at once where the channel
/// is full or no receiving handle is left. Either way it counts as offered. Where the caller also
/// holds the receiving end of a channel without a limit, the report is taken.
#[verifier::external_body]
pub(crate) fn try_send_report(
    tx: &mut Sender<HashMap<u64, MetricsSnapshot>>,
    peer: Option<&Receiver<HashMap<u64, MetricsSnapshot>>>,
    report: HashMap<u64, MetricsSnapshot>,
) -> (sent: bool)
    ensures
        reports_offered(*final(tx)) == reports_offered(*old(tx)).push(report@),
        same_report_ends(*old(tx), *final(tx)),
        peer matches Some(rx) ==> (report_ends(*old(tx), *rx) ==> sent),
        sent ==> reports_sent(*final(tx)) == reports_sent(*old(tx)).push(report@),
        !sent ==> reports_sent(*final(tx)) == reports_sent(*old(tx)),
{
    tx.try_send(report).is_ok()
}

} // verus!

//! Earliest-deadline-first scheduler with three channels.
//!
//! Each of the three channels has a worker of its own. Packets of the high class are spread over all
//! channels, so that a burst of them does not pile up on one; the medium class goes to the second
//! channel, the others to the third. Before a worker takes up a packet of a lower class it waits a
//! moment for one of the high class. A last stage merges what the channels give by deadline.

use crate::channel;
use crate::channel::{got, RecvFailure, SendOutcome};
use crate::heap::{Entry, MinHeap};
use crate::math::{min_of, min_u64};
use crate::packet::Packet;
use crate::priority::{Priority, PriorityTable};
use crate::scheduler::edf::{EDFDropCounters, EDFScheduler, EDFTask};
use crate::scheduler::intake::{
    grown, intake, lemma_intake_chains, lemma_intake_starts_empty, lemma_no_more, lemma_one_more,
};
use crate::scheduler::output::{advanced, offered, send_packet};
use crate::time::{clamp_u64, Duration, Instant, NANOS_PER_MICRO};
use crossbeam_channel::{Receiver, Sender};
use std::collections::VecDeque;
use vstd::multiset::Multiset;
use vstd::prelude::*;

verus! {

/// Most packets of the high class that one pass of the dispatcher takes in.
pub const HIGH_BATCH: usize = 32;

/// Longest wait for a packet of the high class, in microseconds.
pub const MAX_WAIT_US: u64 = 50;

/// One of the three channels.
#[derive(Clone, Copy, Debug, PartialEq, Eq, Structural)]
pub enum EdfChannel {
    High,
    Medium,
    Low,
}

/// The part of the budget that counts for the virtual deadline, to the nearest nanosecond: a
/// fortieth for the high class, half for the medium class, all of it for the others.
pub open spec fn virtual_budget(budget: Duration, priority: Priority) -> int {
    match priority {
        Priority::High => (budget.nanos + 20) / 40,
        Priority::Medium => (budget.nanos + 1) / 2,
        _ => budget.nanos as int,
    }
}

/// When a packet is due if only that part of its budget counts.
pub open spec fn virtual_deadline(priority: Priority, packet: Packet) -> Instant {
    packet.timestamp.spec_plus(
        Duration { nanos: virtual_budget(packet.latency_budget, priority) as u64 },
    )
}

/// A packet waiting for the worker of a channel.
pub struct ChannelTask {
    pub packet: Packet,
    /// What the channel is ordered by.
    pub virtual_deadline: Instant,
    /// When the packet is due.
    pub real_deadline: Instant,
    /// Whether the packet came in as one of the high class.
    pub high: bool,
}

/// The task that a packet becomes that comes by the queue of class `priority`. The third channel
/// gets best-effort packets by its queue for the low class, which treats them alike.
pub open spec fn task_of(priority: Priority, packet: Packet) -> ChannelTask {
    ChannelTask {
        packet,
        virtual_deadline: virtual_deadline(priority, packet),
        real_deadline: packet.spec_deadline(),
        high: priority == Priority::High,
    }
}

/// A task as it is queued.
pub open spec fn by_virtual_deadline(task: ChannelTask) -> Entry<ChannelTask> {
    Entry { key: task.virtual_deadline.nanos as i128, item: task }
}

/// How packets are queued.
pub open spec fn queueing() -> spec_fn(Priority, Packet) -> Entry<ChannelTask> {
    |priority: Priority, packet: Packet| by_virtual_deadline(task_of(priority, packet))
}

fn make_task(priority: Priority, packet: Packet) -> (task: ChannelTask)
    ensures
        task == task_of(priority, packet),
{
    let budget: u64 = packet.latency_budget.nanos;
    let part: u64 = match priority {
        Priority::High => ((budget as u128 + 20) / 40) as u64,
        Priority::Medium => ((budget as u128 + 1) / 2) as u64,
        _ => budget,
    };
    ChannelTask {
        virtual_deadline: packet.timestamp.plus(Duration { nanos: part }),
        real_deadline: packet.deadline(),
        high: priority == Priority::High,
        packet,
    }
}

/// Law: a virtual deadline is never later than the deadline, and is the deadline but for the high
/// and medium classes.
pub proof fn law_virtual_deadline_is_no_later(priority: Priority, packet: Packet)
    ensures
        virtual_deadline(priority, packet).nanos <= packet.spec_deadline().nanos,
        priority == Priority::Low || priority == Priority::BestEffort ==> virtual_deadline(
            priority,
            packet,
        ) == packet.spec_deadline(),
        virtual_deadline(Priority::High, packet).nanos <= virtual_deadline(
            Priority::Medium,
            packet,
        ).nanos <= virtual_deadline(Priority::Low, packet).nanos,
{
}

/// Packets of the high class that a channel got so far.
#[derive(Clone, Copy, Debug, PartialEq, Eq, Structural)]
pub struct ChannelLoad {
    pub count: u64,
    /// Sum of the times that they had left before their deadlines.
    pub slack: Duration,
}

impl ChannelLoad {
    /// How loaded the channel is: a thousand for each packet, and the sum of the times left in
    /// microseconds.
    pub open spec fn score(&self) -> int {
        1000 * self.count + self.slack.nanos / NANOS_PER_MICRO
    }

    fn compute_score(&self) -> (score: u128)
        ensures
            score == self.score(),
    {
        1000 * (self.count as u128) + (self.slack.as_micros() as u128)
    }

    /// The load with one packet more.
    pub open spec fn with_one_more(self, slack: Duration) -> ChannelLoad {
        ChannelLoad {
            count: advanced(self.count, 1),
            slack: Duration { nanos: clamp_u64(self.slack.nanos + slack.nanos) },
        }
    }
}

/// How the packets of the high class were spread over the channels.
#[derive(Clone, Copy, Debug, PartialEq, Eq, Structural)]
pub struct HighDistributionStats {
    pub high: ChannelLoad,
    pub medium: ChannelLoad,
    pub low: ChannelLoad,
}

impl HighDistributionStats {
    pub open spec fn load(&self, channel: EdfChannel) -> ChannelLoad {
        match channel {
            EdfChannel::High => self.high,
            EdfChannel::Medium => self.medium,
            EdfChannel::Low => self.low,
        }
    }

    /// The statistics with one packet more on `channel`.
    pub open spec fn with(self, channel: EdfChannel, slack: Duration) -> HighDistributionStats {
        match channel {
            EdfChannel::High => HighDistributionStats {
                high: self.high.with_one_more(slack),
                ..self
            },
            EdfChannel::Medium => HighDistributionStats {
                medium: self.medium.with_one_more(slack),
                ..self
            },
            EdfChannel::Low => HighDistributionStats {
                low: self.low.with_one_more(slack),
                ..self
            },
        }
    }

    /// The least loaded channel, the first of them where several are.
    pub open spec fn best(&self) -> EdfChannel {
        if self.high.score() <= self.medium.score() && self.high.score() <= self.low.score() {
            EdfChannel::High
        } else if self.medium.score() <= self.low.score() {
            EdfChannel::Medium
        } else {
            EdfChannel::Low
        }
    }

    pub fn new() -> (stats: HighDistributionStats)
        ensures
            forall|c: EdfChannel| (#[trigger] stats.load(c)).count == 0 && stats.load(
                c,
            ).slack.nanos == 0,
    {
        let none = ChannelLoad { count: 0, slack: Duration { nanos: 0 } };
        HighDistributionStats { high: none, medium: none, low: none }
    }

    /// The channel for the next packets of the high class.
    pub fn find_best_channel(&self) -> (channel: EdfChannel)
        ensures
            channel == self.best(),
    {
        let high: u128 = self.high.compute_score();
        let medium: u128 = self.medium.compute_score();
        let low: u128 = self.low.compute_score();
        if high <= medium && high <= low {
            EdfChannel::High
        } else if medium <= low {
            EdfChannel::Medium
        } else {
            EdfChannel::Low
        }
    }

    /// Notes that a channel got a packet that had `slack` left before its deadline.
    pub fn record_distribution(&mut self, channel: EdfChannel, slack: Duration)
        ensures
            *final(self) == old(self).with(channel, slack),
            final(self).load(channel) == old(self).load(channel).with_one_more(slack),
            forall|c: EdfChannel|
                c != channel ==> #[trigger] final(self).load(c) == old(self).load(c),
    {
        let before: ChannelLoad = match channel {
            EdfChannel::High => self.high,
            EdfChannel::Medium => self.medium,
            EdfChannel::Low => self.low,
        };
        let after = ChannelLoad {
            count: before.count.wrapping_add(1),
            slack: Duration { nanos: before.slack.nanos.saturating_add(slack.nanos) },
        };
        match channel {
            EdfChannel::High => {
                self.high = after;
            },
            EdfChannel::Medium => {
                self.medium = after;
            },
            EdfChannel::Low => {
                self.low = after;
            },
        }
    }
}

/// Law: the channel for the next packets is no more loaded than any other.
pub proof fn law_packets_go_to_the_least_loaded_channel(
    stats: HighDistributionStats,
    other: EdfChannel,
)
    ensures
        stats.load(stats.best()).score() <= stats.load(other).score(),
{
}

/// The statistics after a burst of packets, weighed at `now`, each of which goes to the channel that
/// is least loaded then. `taken` tells which of them their channels took; only those count.
pub open spec fn spread(
    stats: HighDistributionStats,
    packets: Seq<Packet>,
    taken: Seq<bool>,
    now: Instant,
) -> HighDistributionStats
    decreases packets.len(),
{
    if packets.len() == 0 {
        stats
    } else {
        let before = spread(stats, packets.drop_last(), taken.drop_last(), now);
        if taken.last() {
            before.with(before.best(), packets.last().spec_deadline().spec_since(now))
        } else {
            before
        }
    }
}

/// The packets of such a burst that go to `channel`.
pub open spec fn share_of(
    channel: EdfChannel,
    stats: HighDistributionStats,
    packets: Seq<Packet>,
    taken: Seq<bool>,
    now: Instant,
) -> Seq<Packet>
    decreases packets.len(),
{
    if packets.len() == 0 {
        Seq::empty()
    } else {
        let before = share_of(channel, stats, packets.drop_last(), taken.drop_last(), now);
        if spread(stats, packets.drop_last(), taken.drop_last(), now).best() == channel {
            before.push(packets.last())
        } else {
            before
        }
    }
}

/// The packets of such a burst that `channel` takes.
pub open spec fn kept_by(
    channel: EdfChannel,
    stats: HighDistributionStats,
    packets: Seq<Packet>,
    taken: Seq<bool>,
    now: Instant,
) -> Seq<Packet>
    decreases packets.len(),
{
    if packets.len() == 0 {
        Seq::empty()
    } else {
        let before = kept_by(channel, stats, packets.drop_last(), taken.drop_last(), now);
        if taken.last() && spread(stats, packets.drop_last(), taken.drop_last(), now).best()
            == channel {
            before.push(packets.last())
        } else {
            before
        }
    }
}

/// The packets of a burst that no channel took.
pub open spec fn left_over(packets: Seq<Packet>, taken: Seq<bool>) -> Seq<Packet>
    decreases packets.len(),
{
    if packets.len() == 0 {
        Seq::empty()
    } else {
        let before = left_over(packets.drop_last(), taken.drop_last());
        if taken.last() {
            before
        } else {
            before.push(packets.last())
        }
    }
}

/// Law: every packet of a burst is taken by one channel, or is left over.
pub proof fn law_no_packet_of_a_burst_vanishes(
    stats: HighDistributionStats,
    packets: Seq<Packet>,
    taken: Seq<bool>,
    now: Instant,
)
    ensures
        kept_by(EdfChannel::High, stats, packets, taken, now).to_multiset().add(
            kept_by(EdfChannel::Medium, stats, packets, taken, now).to_multiset(),
        ).add(kept_by(EdfChannel::Low, stats, packets, taken, now).to_multiset()).add(
            left_over(packets, taken).to_multiset(),
        ) == packets.to_multiset(),
    decreases packets.len(),
{
    broadcast use vstd::multiset::group_multiset_axioms;
    broadcast use vstd::seq_lib::group_to_multiset_ensures;

    let high = kept_by(EdfChannel::High, stats, packets, taken, now);
    let medium = kept_by(EdfChannel::Medium, stats, packets, taken, now);
    let low = kept_by(EdfChannel::Low, stats, packets, taken, now);
    let over = left_over(packets, taken);
    if packets.len() > 0 {
        law_no_packet_of_a_burst_vanishes(stats, packets.drop_last(), taken.drop_last(), now);
        assert(packets =~= packets.drop_last().push(packets.last()));
    }
    assert(high.to_multiset().add(medium.to_multiset()).add(low.to_multiset()).add(
        over.to_multiset(),
    ) =~= packets.to_multiset());
}

/// What sending a burst does: every packet is offered to the channel that is least loaded then.
pub open spec fn burst(
    before: Dispatcher,
    after: Dispatcher,
    packets: Seq<Packet>,
    taken: Seq<bool>,
    now: Instant,
) -> bool {
    &&& taken.len() == packets.len()
    &&& after.stats == spread(before.stats, packets, taken, now)
    &&& forall|c: EdfChannel|
        channel::offers(#[trigger] after.high_to(c)) == channel::offers(before.high_to(c))
            + share_of(c, before.stats, packets, taken, now)
    &&& forall|c: EdfChannel|
        channel::sent(#[trigger] after.high_to(c)) == channel::sent(before.high_to(c)) + kept_by(
            c,
            before.stats,
            packets,
            taken,
            now,
        )
    &&& forall|c: EdfChannel|
        channel::limit(#[trigger] after.high_to(c)) == channel::limit(before.high_to(c))
    &&& forall|c: EdfChannel|
        channel::channel_of(#[trigger] after.high_to(c)) == channel::channel_of(before.high_to(c))
}

/// What sending one packet to `channel` does.
pub open spec fn sent_to(
    before: Dispatcher,
    after: Dispatcher,
    channel: EdfChannel,
    packet: Packet,
    taken: bool,
    now: Instant,
) -> bool {
    &&& after.stats == (if taken {
        before.stats.with(channel, packet.spec_deadline().spec_since(now))
    } else {
        before.stats
    })
    &&& forall|c: EdfChannel| c != channel ==> #[trigger] after.high_to(c) == before.high_to(c)
    &&& channel::offers(after.high_to(channel)) == channel::offers(before.high_to(channel)).push(
        packet,
    )
    &&& channel::sent(after.high_to(channel)) == (if taken {
        channel::sent(before.high_to(channel)).push(packet)
    } else {
        channel::sent(before.high_to(channel))
    })
    &&& channel::limit(after.high_to(channel)) == channel::limit(before.high_to(channel))
    &&& channel::channel_of(after.high_to(channel)) == channel::channel_of(
        before.high_to(channel),
    )
}

proof fn lemma_burst_starts(before: Dispatcher, now: Instant)
    ensures
        burst(before, before, Seq::empty(), Seq::empty(), now),
{
    let none = Seq::<Packet>::empty();
    let taken = Seq::<bool>::empty();
    assert forall|c: EdfChannel| channel::offers(#[trigger] before.high_to(c)) == channel::offers(
        before.high_to(c),
    ) + share_of(c, before.stats, none, taken, now) by {
        assert(channel::offers(before.high_to(c)) + Seq::<Packet>::empty() =~= channel::offers(
            before.high_to(c),
        ));
    }
    assert forall|c: EdfChannel| channel::sent(#[trigger] before.high_to(c)) == channel::sent(
        before.high_to(c),
    ) + kept_by(c, before.stats, none, taken, now) by {
        assert(channel::sent(before.high_to(c)) + Seq::<Packet>::empty() =~= channel::sent(
            before.high_to(c),
        ));
    }
}

proof fn lemma_burst_goes_on(
    before: Dispatcher,
    middle: Dispatcher,
    after: Dispatcher,
    packets: Seq<Packet>,
    taken: Seq<bool>,
    packet: Packet,
    last: bool,
    now: Instant,
)
    requires
        burst(before, middle, packets, taken, now),
        sent_to(middle, after, middle.stats.best(), packet, last, now),
    ensures
        burst(before, after, packets.push(packet), taken.push(last), now),
{
    let all = packets.push(packet);
    let each = taken.push(last);
    let best = middle.stats.best();
    assert(all.drop_last() =~= packets);
    assert(each.drop_last() =~= taken);
    assert forall|c: EdfChannel| channel::offers(#[trigger] after.high_to(c)) == channel::offers(
        before.high_to(c),
    ) + share_of(c, before.stats, all, each, now) by {
        assert(channel::offers(middle.high_to(c)) == channel::offers(before.high_to(c)) + share_of(
            c,
            before.stats,
            packets,
            taken,
            now,
        ));
        assert(channel::offers(after.high_to(c)) =~= channel::offers(before.high_to(c)) + share_of(
            c,
            before.stats,
            all,
            each,
            now,
        ));
    }
    assert forall|c: EdfChannel| channel::sent(#[trigger] after.high_to(c)) == channel::sent(
        before.high_to(c),
    ) + kept_by(c, before.stats, all, each, now) by {
        assert(channel::sent(middle.high_to(c)) == channel::sent(before.high_to(c)) + kept_by(
            c,
            before.stats,
            packets,
            taken,
            now,
        ));
        assert(channel::sent(after.high_to(c)) =~= channel::sent(before.high_to(c)) + kept_by(
            c,
            before.stats,
            all,
            each,
            now,
        ));
    }
    assert forall|c: EdfChannel| channel::limit(#[trigger] after.high_to(c)) == channel::limit(
        before.high_to(c),
    ) by {
        assert(channel::limit(middle.high_to(c)) == channel::limit(before.high_to(c)));
    }
    assert forall|c: EdfChannel| channel::channel_of(#[trigger] after.high_to(c))
        == channel::channel_of(before.high_to(c)) by {
        assert(channel::channel_of(middle.high_to(c)) == channel::channel_of(before.high_to(c)));
    }
}

proof fn lemma_same_burst(
    start: Dispatcher,
    before: Dispatcher,
    after: Dispatcher,
    packets: Seq<Packet>,
    taken: Seq<bool>,
    now: Instant,
)
    requires
        burst(start, before, packets, taken, now),
        after.stats == before.stats,
        after.high_to_high == before.high_to_high,
        after.high_to_medium == before.high_to_medium,
        after.high_to_low == before.high_to_low,
    ensures
        burst(start, after, packets, taken, now),
{
    assert forall|c: EdfChannel| #[trigger] after.high_to(c) == before.high_to(c) by {}
    assert forall|c: EdfChannel| channel::offers(#[trigger] after.high_to(c)) == channel::offers(
        start.high_to(c),
    ) + share_of(c, start.stats, packets, taken, now) by {
        assert(after.high_to(c) == before.high_to(c));
    }
    assert forall|c: EdfChannel| channel::sent(#[trigger] after.high_to(c)) == channel::sent(
        start.high_to(c),
    ) + kept_by(c, start.stats, packets, taken, now) by {
        assert(after.high_to(c) == before.high_to(c));
    }
    assert forall|c: EdfChannel| channel::limit(#[trigger] after.high_to(c)) == channel::limit(
        start.high_to(c),
    ) && channel::channel_of(after.high_to(c)) == channel::channel_of(start.high_to(c)) by {
        assert(after.high_to(c) == before.high_to(c));
    }
}

/// Whether every packet on a channel had `slack` left, and no channel has two packets more than
/// another.
pub open spec fn is_level(stats: HighDistributionStats, slack: Duration) -> bool {
    &&& forall|c: EdfChannel|
        (#[trigger] stats.load(c)).slack.nanos == clamp_u64(stats.load(c).count * slack.nanos)
    &&& forall|a: EdfChannel, b: EdfChannel|
        (#[trigger] stats.load(a)).count <= (#[trigger] stats.load(b)).count + 1
}

proof fn lemma_more_packets_weigh_more(few: ChannelLoad, many: ChannelLoad, slack: Duration)
    requires
        few.slack.nanos == clamp_u64(few.count * slack.nanos),
        many.slack.nanos == clamp_u64(many.count * slack.nanos),
        few.count < many.count,
    ensures
        few.score() < many.score(),
{
    assert(few.count * slack.nanos <= many.count * slack.nanos) by (nonlinear_arith)
        requires
            few.count < many.count,
    ;
}

proof fn lemma_level_stays_level(stats: HighDistributionStats, slack: Duration)
    requires
        is_level(stats, slack),
        stats.load(stats.best()).count < u64::MAX,
    ensures
        is_level(stats.with(stats.best(), slack), slack),
{
    let best = stats.best();
    let after = stats.with(best, slack);
    assert forall|c: EdfChannel| stats.load(best).count <= (#[trigger] stats.load(c)).count by {
        law_packets_go_to_the_least_loaded_channel(stats, c);
        if stats.load(best).count > stats.load(c).count {
            lemma_more_packets_weigh_more(stats.load(c), stats.load(best), slack);
        }
    }
    let n = stats.load(best).count as int;
    let d = slack.nanos as int;
    assert((n + 1) * d == n * d + d && n * d >= 0) by (nonlinear_arith)
        requires
            n >= 0,
            d >= 0,
    ;
    assert(after.load(best) == stats.load(best).with_one_more(slack));
    assert(after.load(best).count == n + 1);
    assert(stats.load(best).slack.nanos == clamp_u64(n * d));
    assert(after.load(best).slack.nanos == clamp_u64((n + 1) * d));
    assert forall|c: EdfChannel| (#[trigger] after.load(c)).slack.nanos == clamp_u64(
        after.load(c).count * slack.nanos,
    ) by {
        if c != best {
            assert(after.load(c) == stats.load(c));
        }
    }
    assert forall|a: EdfChannel, b: EdfChannel| (#[trigger] after.load(a)).count <= (
    #[trigger] after.load(b)).count + 1 by {
        assert(stats.load(a).count <= stats.load(b).count + 1);
        assert(stats.load(best).count <= stats.load(b).count);
        assert(a != best ==> after.load(a) == stats.load(a));
        assert(b != best ==> after.load(b) == stats.load(b));
    }
}

proof fn lemma_kept_is_part(
    channel: EdfChannel,
    stats: HighDistributionStats,
    packets: Seq<Packet>,
    taken: Seq<bool>,
    now: Instant,
)
    ensures
        kept_by(channel, stats, packets, taken, now).len() <= packets.len(),
    decreases packets.len(),
{
    if packets.len() > 0 {
        lemma_kept_is_part(channel, stats, packets.drop_last(), taken.drop_last(), now);
    }
}

/// Law: the count of a channel grows by the packets of a burst that it takes.
pub proof fn law_every_packet_taken_counts(
    channel: EdfChannel,
    stats: HighDistributionStats,
    packets: Seq<Packet>,
    taken: Seq<bool>,
    now: Instant,
)
    requires
        stats.load(channel).count + packets.len() < u64::MAX,
    ensures
        spread(stats, packets, taken, now).load(channel).count == stats.load(channel).count
            + kept_by(channel, stats, packets, taken, now).len(),
    decreases packets.len(),
{
    if packets.len() > 0 {
        let fewer = packets.drop_last();
        let each = taken.drop_last();
        law_every_packet_taken_counts(channel, stats, fewer, each, now);
        lemma_kept_is_part(channel, stats, fewer, each, now);
        let before = spread(stats, fewer, each, now);
        let count = before.load(channel).count;
        assert(advanced(count, 1) == count + 1);
        let slack = packets.last().spec_deadline().spec_since(now);
        let after = before.with(before.best(), slack);
        assert(before.best() != channel ==> after.load(channel) == before.load(channel));
        assert(before.best() == channel ==> after.load(channel).count == count + 1);
        assert(spread(stats, packets, taken, now) == (if taken.last() {
            after
        } else {
            before
        }));
    }
}

/// Law: a burst of packets that have the same time left is spread evenly: where the channels were
/// level and take the packets, no channel has two packets more than another afterwards.
pub proof fn law_burst_is_spread_evenly(
    stats: HighDistributionStats,
    packets: Seq<Packet>,
    taken: Seq<bool>,
    slack: Duration,
    now: Instant,
)
    requires
        is_level(stats, slack),
        taken.len() == packets.len(),
        forall|i: int|
            0 <= i < packets.len() ==> (#[trigger] packets[i]).spec_deadline().spec_since(now)
                == slack,
        forall|i: int| 0 <= i < taken.len() ==> #[trigger] taken[i],
        forall|c: EdfChannel| (#[trigger] stats.load(c)).count + packets.len() < u64::MAX,
    ensures
        is_level(spread(stats, packets, taken, now), slack),
    decreases packets.len(),
{
    if packets.len() > 0 {
        let fewer = packets.drop_last();
        let each = taken.drop_last();
        assert forall|i: int| 0 <= i < fewer.len() implies (
        #[trigger] fewer[i]).spec_deadline().spec_since(now) == slack by {
            assert(fewer[i] == packets[i]);
        }
        assert forall|i: int| 0 <= i < each.len() implies #[trigger] each[i] by {
            assert(each[i] == taken[i]);
        }
        law_burst_is_spread_evenly(stats, fewer, each, slack, now);
        let before = spread(stats, fewer, each, now);
        let best = before.best();
        assert(stats.load(best).count + packets.len() < u64::MAX);
        law_every_packet_taken_counts(best, stats, fewer, each, now);
        lemma_kept_is_part(best, stats, fewer, each, now);
        lemma_level_stays_level(before, slack);
        assert(taken[taken.len() - 1]);
        assert(packets[packets.len() - 1].spec_deadline().spec_since(now) == slack);
    }
}

/// Law: three packets for channels that have none yet go to one channel each, whatever the times
/// that they have left.
pub proof fn law_three_packets_go_three_ways(
    stats: HighDistributionStats,
    packets: Seq<Packet>,
    taken: Seq<bool>,
    now: Instant,
)
    requires
        packets.len() == 3,
        taken == seq![true, true, true],
        forall|c: EdfChannel|
            (#[trigger] stats.load(c)).count == 0 && stats.load(c).slack.nanos == 0,
    ensures
        kept_by(EdfChannel::High, stats, packets, taken, now) == seq![packets[0]],
        kept_by(EdfChannel::Medium, stats, packets, taken, now) == seq![packets[1]],
        kept_by(EdfChannel::Low, stats, packets, taken, now) == seq![packets[2]],
{
    assert(stats.load(EdfChannel::High).count == 0);
    assert(stats.load(EdfChannel::Medium).count == 0);
    assert(stats.load(EdfChannel::Low).count == 0);
    reveal_with_fuel(spread, 4);
    reveal_with_fuel(kept_by, 4);
    let two = packets.drop_last();
    let one = two.drop_last();
    assert(one.drop_last() =~= Seq::<Packet>::empty());
    assert(taken.drop_last() =~= seq![true, true]);
    assert(taken.drop_last().drop_last() =~= seq![true]);
    assert(taken.drop_last().drop_last().drop_last() =~= Seq::<bool>::empty());
    assert(kept_by(EdfChannel::High, stats, packets, taken, now) =~= seq![packets[0]]);
    assert(kept_by(EdfChannel::Medium, stats, packets, taken, now) =~= seq![packets[1]]);
    assert(kept_by(EdfChannel::Low, stats, packets, taken, now) =~= seq![packets[2]]);
}

/// Spreads packets over the channels.
pub struct Dispatcher {
    pub input_queues: PriorityTable<Receiver<Packet>>,
    /// To the queues for the high class of the three channels.
    pub high_to_high: Sender<Packet>,
    pub high_to_medium: Sender<Packet>,
    pub high_to_low: Sender<Packet>,
    /// To the queue for the medium class of the second channel.
    pub medium_to_medium: Sender<Packet>,
    /// To the queue for the low class of the third channel.
    pub low_to_low: Sender<Packet>,
    pub stats: HighDistributionStats,
}

impl Dispatcher {
    /// The way to the queue for the high class of a channel.
    pub open spec fn high_to(&self, channel: EdfChannel) -> Sender<Packet> {
        match channel {
            EdfChannel::High => self.high_to_high,
            EdfChannel::Medium => self.high_to_medium,
            EdfChannel::Low => self.high_to_low,
        }
    }

    /// Sends a packet of the high class to a channel and takes it into the statistics, unless the
    /// channel is gone; then the packet comes back.
    fn send_high(&mut self, channel: EdfChannel, packet: Packet, now: Instant) -> (lost: Option<
        Packet,
    >)
        ensures
            sent_to(*old(self), *final(self), channel, packet, lost is None, now),
            lost matches Some(back) ==> back == packet,
            final(self).input_queues == old(self).input_queues,
            final(self).medium_to_medium == old(self).medium_to_medium,
            final(self).low_to_low == old(self).low_to_low,
    {
        let slack = packet.deadline().since(now);
        let outcome = match channel {
            EdfChannel::High => channel::try_send(&mut self.high_to_high, None, packet),
            EdfChannel::Medium => channel::try_send(&mut self.high_to_medium, None, packet),
            EdfChannel::Low => channel::try_send(&mut self.high_to_low, None, packet),
        };
        self.note_sent(channel, slack, outcome)
    }

    /// Takes a packet of the high class into the statistics where the channel took it. A packet
    /// that came back is handed on.
    pub fn note_sent(&mut self, channel: EdfChannel, slack: Duration, outcome: SendOutcome) -> (lost:
        Option<Packet>)
        ensures
            lost == outcome.returned(),
            final(self).stats == (if lost is None {
                old(self).stats.with(channel, slack)
            } else {
                old(self).stats
            }),
            forall|c: EdfChannel| #[trigger] final(self).high_to(c) == old(self).high_to(c),
            final(self).input_queues == old(self).input_queues,
            final(self).medium_to_medium == old(self).medium_to_medium,
            final(self).low_to_low == old(self).low_to_low,
    {
        let lost = outcome.into_returned();
        if lost.is_none() {
            self.stats.record_distribution(channel, slack);
        }
        lost
    }

    /// Takes in up to [`HIGH_BATCH`] packets of the high class and sends each to the channel that is
    /// least loaded then. Those whose channels are gone are handed back.
    fn dispatch_high(&mut self, now: Instant) -> (lost: Vec<Packet>)
        ensures
            final(self).medium_to_medium == old(self).medium_to_medium,
            final(self).low_to_low == old(self).low_to_low,
            forall|p: Priority|
                p != Priority::High ==> #[trigger] final(self).input_queues.at(p) == old(
                    self).input_queues.at(p),
            channel::taken(old(self).input_queues.at(Priority::High)).is_prefix_of(
                channel::taken(final(self).input_queues.at(Priority::High)),
            ),
            got(
                old(self).input_queues.at(Priority::High),
                final(self).input_queues.at(Priority::High),
            ).len() <= HIGH_BATCH,
            took_batch(
                old(self).input_queues.at(Priority::High),
                final(self).input_queues.at(Priority::High),
            ),
            exists|taken: Seq<bool>| #[trigger]
                burst(
                    *old(self),
                    *final(self),
                    got(
                        old(self).input_queues.at(Priority::High),
                        final(self).input_queues.at(Priority::High),
                    ),
                    taken,
                    now,
                ) && lost@ == left_over(
                    got(
                        old(self).input_queues.at(Priority::High),
                        final(self).input_queues.at(Priority::High),
                    ),
                    taken,
                ),
    {
        let ghost start = *self;
        let ghost rx0 = self.input_queues.at(Priority::High);
        let ghost mut taken: Seq<bool> = Seq::empty();
        let mut lost: Vec<Packet> = Vec::new();
        let mut count: usize = 0;
        let mut more: bool = true;
        proof {
            channel::lemma_not_asked(rx0);
            lemma_burst_starts(start, now);
        }
        while count < HIGH_BATCH && more
            invariant
                count <= HIGH_BATCH,
                start == *old(self),
                rx0 == old(self).input_queues.at(Priority::High),
                self.medium_to_medium == old(self).medium_to_medium,
                self.low_to_low == old(self).low_to_low,
                forall|p: Priority|
                    p != Priority::High ==> #[trigger] self.input_queues.at(p) == old(
                        self).input_queues.at(p),
                channel::taken(rx0).is_prefix_of(
                    channel::taken(self.input_queues.at(Priority::High)),
                ),
                got(rx0, self.input_queues.at(Priority::High)).len() == count,
                more ==> channel::always_gave(rx0, self.input_queues.at(Priority::High)),
                !more ==> channel::drained(rx0, self.input_queues.at(Priority::High)),
                burst(start, *self, got(rx0, self.input_queues.at(Priority::High)), taken, now),
                lost@ == left_over(got(rx0, self.input_queues.at(Priority::High)), taken),
            decreases HIGH_BATCH - count, (if more { 1int } else { 0 }),
        {
            let ghost rx1 = self.input_queues.at(Priority::High);
            let ghost before = *self;
            match channel::try_recv(self.input_queues.get_mut(Priority::High), None) {
                Ok(packet) => {
                    let ghost middle = *self;
                    let channel = self.stats.find_best_channel();
                    let back = self.send_high(channel, packet, now);
                    let ghost took = back is None;
                    match back {
                        Some(packet) => {
                            lost.push(packet);
                        },
                        None => {},
                    }
                    count = count + 1;
                    proof {
                        channel::lemma_gave_one_more(
                            rx0,
                            rx1,
                            self.input_queues.at(Priority::High),
                            packet,
                        );
                        assert forall|c: EdfChannel| #[trigger] middle.high_to(c)
                            == before.high_to(c) by {}
                        assert forall|c: EdfChannel| c != channel implies #[trigger] self.high_to(c)
                            == before.high_to(c) by {
                            assert(middle.high_to(c) == before.high_to(c));
                        }
                        assert(middle.high_to(channel) == before.high_to(channel));
                        lemma_burst_goes_on(
                            start,
                            before,
                            *self,
                            got(rx0, rx1),
                            taken,
                            packet,
                            took,
                            now,
                        );
                        let packets = got(rx0, rx1);
                        assert(packets.push(packet).drop_last() =~= packets);
                        assert(taken.push(took).drop_last() =~= taken);
                        assert(lost@ =~= left_over(packets.push(packet), taken.push(took)));
                        taken = taken.push(took);
                    }
                },
                Err(why) => {
                    more = false;
                    proof {
                        channel::lemma_gave_no_more(
                            rx0,
                            rx1,
                            self.input_queues.at(Priority::High),
                            why,
                        );
                        lemma_same_burst(start, before, *self, got(rx0, rx1), taken, now);
                    }
                },
            }
        }
        lost
    }

    /// Takes in a packet of a lower class, if there is one, and sends it to its channel: the second
    /// for the medium class, the third for the others. Where the channel is gone, the packet is
    /// handed back.
    fn dispatch_lower(&mut self, priority: Priority) -> (lost: Option<Packet>)
        requires
            priority != Priority::High,
        ensures
            final(self).stats == old(self).stats,
            final(self).high_to_high == old(self).high_to_high,
            final(self).high_to_medium == old(self).high_to_medium,
            final(self).high_to_low == old(self).high_to_low,
            forall|p: Priority|
                p != priority ==> #[trigger] final(self).input_queues.at(p) == old(
                    self).input_queues.at(p),
            lower_step(
                old(self).input_queues.at(priority),
                final(self).input_queues.at(priority),
                if priority == Priority::Medium {
                    old(self).medium_to_medium
                } else {
                    old(self).low_to_low
                },
                if priority == Priority::Medium {
                    final(self).medium_to_medium
                } else {
                    final(self).low_to_low
                },
                lost,
            ),
            priority == Priority::Medium ==> final(self).low_to_low == old(self).low_to_low,
            priority != Priority::Medium ==> final(self).medium_to_medium == old(
                self).medium_to_medium,
    {
        match channel::try_recv(self.input_queues.get_mut(priority), None) {
            Ok(packet) => {
                let outcome = if priority == Priority::Medium {
                    channel::try_send(&mut self.medium_to_medium, None, packet)
                } else {
                    channel::try_send(&mut self.low_to_low, None, packet)
                };
                assert(channel::received(
                    Ok(packet),
                    old(self).input_queues.at(priority),
                    self.input_queues.at(priority),
                ));
                outcome.into_returned()
            },
            Err(why) => {
                assert(channel::received(
                    Err(why),
                    old(self).input_queues.at(priority),
                    self.input_queues.at(priority),
                ));
                None
            },
        }
    }

    /// One pass: up to [`HIGH_BATCH`] packets of the high class, each to the channel that is least
    /// loaded then, and at most one packet of each other class to its channel. The packets whose
    /// channels are gone are handed back.
    pub fn dispatch(&mut self, now: Instant) -> (lost: Vec<Packet>)
        ensures
            channel::taken(old(self).input_queues.at(Priority::High)).is_prefix_of(
                channel::taken(final(self).input_queues.at(Priority::High)),
            ),
            got(
                old(self).input_queues.at(Priority::High),
                final(self).input_queues.at(Priority::High),
            ).len() <= HIGH_BATCH,
            took_batch(
                old(self).input_queues.at(Priority::High),
                final(self).input_queues.at(Priority::High),
            ),
            exists|
                taken: Seq<bool>,
                medium: Option<Packet>,
                low: Option<Packet>,
                best_effort: Option<Packet>,
                between: Sender<Packet>,
            | #[trigger]
                one_pass(
                    *old(self),
                    *final(self),
                    now,
                    taken,
                    medium,
                    low,
                    best_effort,
                    between,
                ) && lost@ == left_over(
                    got(
                        old(self).input_queues.at(Priority::High),
                        final(self).input_queues.at(Priority::High),
                    ),
                    taken,
                ) + if_any(medium) + if_any(low) + if_any(best_effort),
    {
        let mut lost = self.dispatch_high(now);
        let ghost first = *self;
        let ghost over = lost@;
        let medium = self.dispatch_lower(Priority::Medium);
        let low = self.dispatch_lower(Priority::Low);
        let ghost between = self.low_to_low;
        let best_effort = self.dispatch_lower(Priority::BestEffort);
        let ghost came_back = (medium, low, best_effort);
        proof {
            let packets = got(
                old(self).input_queues.at(Priority::High),
                self.input_queues.at(Priority::High),
            );
            let taken = choose|taken: Seq<bool>| #[trigger]
                burst(*old(self), first, packets, taken, now) && over == left_over(packets, taken);
            lemma_same_burst(*old(self), first, *self, packets, taken, now);
            assert(one_pass(*old(self), *self, now, taken, medium, low, best_effort, between));
        }
        push_any(&mut lost, medium);
        push_any(&mut lost, low);
        push_any(&mut lost, best_effort);
        assert(lost@ =~= over + if_any(came_back.0) + if_any(came_back.1) + if_any(came_back.2));
        lost
    }
}

/// The packet, if there is one.
pub open spec fn if_any(packet: Option<Packet>) -> Seq<Packet> {
    match packet {
        Some(packet) => seq![packet],
        None => Seq::empty(),
    }
}

fn push_any(packets: &mut Vec<Packet>, packet: Option<Packet>)
    ensures
        final(packets)@ == old(packets)@ + if_any(packet),
{
    match packet {
        Some(packet) => {
            packets.push(packet);
        },
        None => {},
    }
    assert(packets@ =~= old(packets)@ + if_any(packet));
}

/// What one pass of the dispatcher does: `taken` tells which packets of the high class their channels
/// took, the packets given are those of the other classes that came back, and `between` is the way
/// to the third channel before the best-effort class has its turn.
pub open spec fn one_pass(
    before: Dispatcher,
    after: Dispatcher,
    now: Instant,
    taken: Seq<bool>,
    medium: Option<Packet>,
    low: Option<Packet>,
    best_effort: Option<Packet>,
    between: Sender<Packet>,
) -> bool {
    &&& burst(
        before,
        after,
        got(before.input_queues.at(Priority::High), after.input_queues.at(Priority::High)),
        taken,
        now,
    )
    &&& lower_step(
        before.input_queues.at(Priority::Medium),
        after.input_queues.at(Priority::Medium),
        before.medium_to_medium,
        after.medium_to_medium,
        medium,
    )
    &&& lower_step(
        before.input_queues.at(Priority::Low),
        after.input_queues.at(Priority::Low),
        before.low_to_low,
        between,
        low,
    )
    &&& lower_step(
        before.input_queues.at(Priority::BestEffort),
        after.input_queues.at(Priority::BestEffort),
        between,
        after.low_to_low,
        best_effort,
    )
}

/// Whether the input of the high class was asked for a full batch, or until it gave no packet.
pub open spec fn took_batch(before: Receiver<Packet>, after: Receiver<Packet>) -> bool {
    ||| channel::drained(before, after)
    ||| got(before, after).len() == HIGH_BATCH && channel::always_gave(before, after)
}

/// What taking in a packet of a lower class does: the input is asked once, and a packet that it
/// gives is offered to the channel, which takes it unless it is gone; then the packet is lost.
pub open spec fn lower_step(
    rx_before: Receiver<Packet>,
    rx_after: Receiver<Packet>,
    tx_before: Sender<Packet>,
    tx_after: Sender<Packet>,
    lost: Option<Packet>,
) -> bool {
    ||| tx_after == tx_before && lost is None && exists|why: RecvFailure| #[trigger]
        channel::received(Err(why), rx_before, rx_after)
    ||| exists|packet: Packet| #[trigger]
        channel::received(Ok(packet), rx_before, rx_after) && offered_once(
            packet,
            tx_before,
            tx_after,
            lost,
        )
}

/// What offering a packet to a channel does: the channel takes it, or it comes back.
pub open spec fn offered_once(
    packet: Packet,
    before: Sender<Packet>,
    after: Sender<Packet>,
    lost: Option<Packet>,
) -> bool {
    &&& channel::channel_of(after) == channel::channel_of(before)
    &&& channel::limit(after) == channel::limit(before)
    &&& channel::offers(after) == channel::offers(before).push(packet)
    &&& match lost {
        None => channel::sent(after) == channel::sent(before).push(packet),
        Some(back) => back == packet && channel::sent(after) == channel::sent(before),
    }
}

/// The channel that serves only packets of the high class, in the order in which they come.
pub struct HighChannel {
    pub input: Receiver<Packet>,
    pub output: Sender<Packet>,
    /// Packets that the output did not take.
    pub drops: u64,
    pub fifo: VecDeque<ChannelTask>,
}

/// What taking a task out of a first-in-first-out queue does. For an empty queue the input is asked
/// once, and a packet that it gives is taken up.
pub open spec fn took_front(
    before: HighChannel,
    after: HighChannel,
    taken: Option<ChannelTask>,
) -> bool {
    if before.fifo@.len() > 0 {
        &&& taken == Some(before.fifo@[0])
        &&& after.fifo@ == before.fifo@.drop_first()
        &&& after.input == before.input
    } else {
        &&& after.fifo@.len() == 0
        &&& match taken {
            Some(task) => task == task_of(Priority::High, task.packet) && channel::received(
                Ok(task.packet),
                before.input,
                after.input,
            ),
            None => exists|why: RecvFailure| #[trigger]
                channel::received(Err(why), before.input, after.input),
        }
    }
}

impl HighChannel {
    /// Puts a packet at the end of the queue.
    pub fn accept(&mut self, packet: Packet)
        ensures
            final(self).fifo@ == old(self).fifo@.push(task_of(Priority::High, packet)),
            final(self).input == old(self).input,
            final(self).output == old(self).output,
            final(self).drops == old(self).drops,
    {
        self.fifo.push_back(make_task(Priority::High, packet));
    }

    /// Takes up the next task: the one that waits longest, or the packet that comes in where none
    /// waits.
    pub fn next_task(&mut self) -> (taken: Option<ChannelTask>)
        ensures
            took_front(*old(self), *final(self), taken),
            final(self).output == old(self).output,
            final(self).drops == old(self).drops,
    {
        if self.fifo.len() == 0 {
            match channel::try_recv(&mut self.input, None) {
                Ok(packet) => {
                    self.accept(packet);
                    assert(self.fifo@ =~= seq![task_of(Priority::High, packet)]);
                    assert(channel::received(Ok(packet), old(self).input, self.input));
                },
                Err(why) => {
                    assert(channel::received(Err(why), old(self).input, self.input));
                    return None;
                },
            }
        }
        self.fifo.pop_front()
    }

    /// Offers a packet that was worked on to the last stage. A packet that it does not take is
    /// counted and handed back.
    pub fn finish(&mut self, task: ChannelTask) -> (rejected: Option<Packet>)
        ensures
            offered(
                task.packet,
                rejected,
                old(self).output,
                final(self).output,
                old(self).drops,
                final(self).drops,
            ),
            final(self).input == old(self).input,
            final(self).fifo == old(self).fifo,
    {
        send_packet(&mut self.output, &mut self.drops, task.packet)
    }
}

/// A channel that serves packets of several classes by virtual deadline.
pub struct MixedChannel {
    pub input_queues: PriorityTable<Receiver<Packet>>,
    pub output: Sender<Packet>,
    /// Packets that the output did not take.
    pub drops: u64,
    pub heap: MinHeap<ChannelTask>,
}

/// What going on with a task after a wait does to the tasks of a channel: where a packet of the high
/// class came, both are queued and nothing is left in hand; otherwise the task is.
pub open spec fn resumed(
    before: Multiset<Entry<ChannelTask>>,
    after: Multiset<Entry<ChannelTask>>,
    task: ChannelTask,
    arrival: Option<Packet>,
    left: Option<ChannelTask>,
) -> bool {
    match arrival {
        Some(packet) => {
            &&& left is None
            &&& after == before.insert(by_virtual_deadline(task_of(Priority::High, packet))).insert(
                by_virtual_deadline(task),
            )
        },
        None => left == Some(task) && after == before,
    }
}

/// What waiting for the high class does: a task of that class does not wait; for any other the input is
/// asked once.
pub open spec fn awaited(
    before: MixedChannel,
    after: MixedChannel,
    task: ChannelTask,
    left: Option<ChannelTask>,
) -> bool {
    if task.high {
        &&& left == Some(task)
        &&& after.heap@ == before.heap@
        &&& after.input_queues == before.input_queues
    } else {
        ||| exists|packet: Packet| #[trigger]
            channel::received(
                Ok(packet),
                before.input_queues.at(Priority::High),
                after.input_queues.at(Priority::High),
            ) && resumed(before.heap@, after.heap@, task, Some(packet), left)
        ||| exists|why: RecvFailure| #[trigger]
            channel::received(
                Err(why),
                before.input_queues.at(Priority::High),
                after.input_queues.at(Priority::High),
            ) && resumed(before.heap@, after.heap@, task, None, left)
    }
}

/// What taking up the next task does to a mixed channel.
pub open spec fn took_next(before: MixedChannel, after: MixedChannel, next: NextTask) -> bool {
    &&& channel::asked_once(
        before.input_queues.at(Priority::High),
        after.input_queues.at(Priority::High),
    )
    &&& got(before.input_queues.at(Priority::High), after.input_queues.at(Priority::High)).len()
        == (if next.high_arrived {
        1nat
    } else {
        0
    })
    &&& forall|p: Priority|
        p != Priority::High ==> if next.high_arrived {
            #[trigger] after.input_queues.at(p) == before.input_queues.at(p)
        } else {
            channel::took_all(before.input_queues.at(p), after.input_queues.at(p))
        }
    &&& took_earliest(
        before.heap@.add(intake(queueing(), before.input_queues, after.input_queues)),
        after.heap@,
        next.task,
    )
}

/// Microseconds to wait for a packet of the high class, where such packets came `mean_gap_us`
/// microseconds apart lately.
pub open spec fn wait_micros(mean_gap_us: Option<u64>) -> int {
    match mean_gap_us {
        Some(gap) => min_of(gap as int, MAX_WAIT_US as int),
        None => MAX_WAIT_US as int,
    }
}

/// How long to wait for a packet of the high class, where such packets came `mean_gap_us`
/// microseconds apart lately.
pub fn wait_for_high(mean_gap_us: Option<u64>) -> (timeout: Duration)
    ensures
        timeout.nanos == NANOS_PER_MICRO * match mean_gap_us {
            Some(gap) => min_of(gap as int, MAX_WAIT_US as int),
            None => MAX_WAIT_US as int,
        },
        timeout.nanos == 1000 * wait_micros(mean_gap_us),
{
    match mean_gap_us {
        Some(gap) => Duration::from_micros(min_u64(gap, MAX_WAIT_US)),
        None => Duration::from_micros(MAX_WAIT_US),
    }
}

impl MixedChannel {
    pub open spec fn wf(&self) -> bool {
        &&& self.heap.wf()
        &&& forall|e: Entry<ChannelTask>| #[trigger]
            self.heap@.count(e) > 0 ==> e == by_virtual_deadline(e.item)
    }

    /// An empty channel between the given inputs and output.
    pub fn new(input_queues: PriorityTable<Receiver<Packet>>, output: Sender<Packet>) -> (channel:
        MixedChannel)
        ensures
            channel.wf(),
            channel.input_queues == input_queues,
            channel.output == output,
            channel.drops == 0,
            channel.heap@ == Multiset::<Entry<ChannelTask>>::empty(),
    {
        broadcast use vstd::multiset::group_multiset_axioms;

        MixedChannel { input_queues, output, drops: 0, heap: MinHeap::new() }
    }

    /// Queues a packet that came by the queue of class `priority`.
    pub fn accept(&mut self, priority: Priority, packet: Packet)
        requires
            old(self).wf(),
        ensures
            final(self).wf(),
            final(self).heap@ == old(self).heap@.insert(
                by_virtual_deadline(task_of(priority, packet)),
            ),
            final(self).input_queues == old(self).input_queues,
            final(self).output == old(self).output,
            final(self).drops == old(self).drops,
    {
        broadcast use vstd::multiset::group_multiset_axioms;

        let task = make_task(priority, packet);
        let key: i128 = task.virtual_deadline.nanos as i128;
        self.heap.push(key, task);
    }

    /// Takes in at most `most` packets of a class, stopping where none is there. Gives their number.
    fn take_in(&mut self, priority: Priority, most: usize) -> (count: usize)
        requires
            old(self).wf(),
        ensures
            final(self).wf(),
            grown(old(self).input_queues, final(self).input_queues),
            forall|p: Priority|
                p != priority ==> #[trigger] final(self).input_queues.at(p) == old(
                    self).input_queues.at(p),
            got(old(self).input_queues.at(priority), final(self).input_queues.at(priority)).len()
                == count,
            count <= most,
            if count == most {
                channel::always_gave(
                    old(self).input_queues.at(priority),
                    final(self).input_queues.at(priority),
                )
            } else {
                channel::drained(
                    old(self).input_queues.at(priority),
                    final(self).input_queues.at(priority),
                )
            },
            final(self).heap@ == old(self).heap@.add(
                intake(queueing(), old(self).input_queues, final(self).input_queues),
            ),
            final(self).output == old(self).output,
            final(self).drops == old(self).drops,
    {
        broadcast use vstd::multiset::group_multiset_axioms;

        let ghost first = self.input_queues;
        let ghost heap0 = self.heap@;
        let ghost make = queueing();
        proof {
            lemma_intake_starts_empty(make, first);
            assert(heap0.add(Multiset::empty()) =~= heap0);
            channel::lemma_not_asked(first.at(priority));
        }
        let mut count: usize = 0;
        let mut more: bool = true;
        while more && count < most
            invariant
                count <= most,
                first == old(self).input_queues,
                heap0 == old(self).heap@,
                make == queueing(),
                self.wf(),
                grown(first, self.input_queues),
                forall|p: Priority|
                    p != priority ==> #[trigger] self.input_queues.at(p) == first.at(p),
                got(first.at(priority), self.input_queues.at(priority)).len() == count,
                more ==> channel::always_gave(first.at(priority), self.input_queues.at(priority)),
                !more ==> count < most && channel::drained(
                    first.at(priority),
                    self.input_queues.at(priority),
                ),
                self.heap@ == heap0.add(intake(make, first, self.input_queues)),
                self.output == old(self).output,
                self.drops == old(self).drops,
            decreases most - count, (if more { 1int } else { 0 }),
        {
            let ghost inputs1 = self.input_queues;
            let ghost heap1 = self.heap@;
            match channel::try_recv(self.input_queues.get_mut(priority), None) {
                Ok(packet) => {
                    proof {
                        lemma_one_more(make, first, inputs1, self.input_queues, priority, packet);
                        channel::lemma_gave_one_more(
                            first.at(priority),
                            inputs1.at(priority),
                            self.input_queues.at(priority),
                            packet,
                        );
                    }
                    self.accept(priority, packet);
                    count = count + 1;
                    proof {
                        assert(self.heap@ =~= heap0.add(intake(make, first, self.input_queues)));
                    }
                },
                Err(why) => {
                    more = false;
                    proof {
                        channel::lemma_gave_no_more(
                            first.at(priority),
                            inputs1.at(priority),
                            self.input_queues.at(priority),
                            why,
                        );
                        assert forall|p: Priority| channel::taken(
                            #[trigger] self.input_queues.at(p),
                        ) == channel::taken(inputs1.at(p)) by {}
                        lemma_no_more(make, first, inputs1, self.input_queues);
                        assert(got(first.at(priority), self.input_queues.at(priority)) == got(
                            first.at(priority),
                            inputs1.at(priority),
                        ));
                    }
                },
            }
        }
        count
    }

    /// Takes in what came for the lower classes.
    fn take_in_lower(&mut self)
        requires
            old(self).wf(),
        ensures
            final(self).wf(),
            grown(old(self).input_queues, final(self).input_queues),
            final(self).input_queues.at(Priority::High) == old(self).input_queues.at(
                Priority::High,
            ),
            forall|p: Priority|
                p != Priority::High ==> channel::took_all(
                    old(self).input_queues.at(p),
                    #[trigger] final(self).input_queues.at(p),
                ),
            final(self).heap@ == old(self).heap@.add(
                intake(queueing(), old(self).input_queues, final(self).input_queues),
            ),
            final(self).output == old(self).output,
            final(self).drops == old(self).drops,
    {
        let ghost inputs0 = self.input_queues;
        let ghost heap0 = self.heap@;
        let _ = self.take_in(Priority::Medium, usize::MAX);
        let ghost inputs1 = self.input_queues;
        let _ = self.take_in(Priority::Low, usize::MAX);
        let ghost inputs2 = self.input_queues;
        let _ = self.take_in(Priority::BestEffort, usize::MAX);
        proof {
            lemma_intake_chains(queueing(), inputs0, inputs1, inputs2);
            lemma_intake_chains(queueing(), inputs0, inputs2, self.input_queues);
            broadcast use vstd::multiset::group_multiset_axioms;

            assert(self.heap@ =~= heap0.add(intake(queueing(), inputs0, self.input_queues)));
            assert forall|p: Priority| p != Priority::High implies channel::took_all(
                inputs0.at(p),
                #[trigger] self.input_queues.at(p),
            ) by {
                assert(p == Priority::Medium || p == Priority::Low || p == Priority::BestEffort);
                assert(p != Priority::Medium ==> inputs1.at(p) == inputs0.at(p));
                assert(p != Priority::Low ==> inputs2.at(p) == inputs1.at(p));
                assert(p != Priority::BestEffort ==> self.input_queues.at(p) == inputs2.at(p));
            }
        }
    }

    /// Takes up the task with the earliest virtual deadline. First a packet of the high class is
    /// taken in, or, where none is there, all packets of the lower classes.
    pub fn next_task(&mut self) -> (next: NextTask)
        requires
            old(self).wf(),
        ensures
            final(self).wf(),
            grown(old(self).input_queues, final(self).input_queues),
            got(
                old(self).input_queues.at(Priority::High),
                final(self).input_queues.at(Priority::High),
            ).len() == (if next.high_arrived { 1nat } else { 0 }),
            channel::asked_once(
                old(self).input_queues.at(Priority::High),
                final(self).input_queues.at(Priority::High),
            ),
            next.high_arrived ==> forall|p: Priority|
                p != Priority::High ==> #[trigger] final(self).input_queues.at(p) == old(
                    self).input_queues.at(p),
            !next.high_arrived ==> forall|p: Priority|
                p != Priority::High ==> channel::took_all(
                    old(self).input_queues.at(p),
                    #[trigger] final(self).input_queues.at(p),
                ),
            took_earliest(
                old(self).heap@.add(
                    intake(queueing(), old(self).input_queues, final(self).input_queues),
                ),
                final(self).heap@,
                next.task,
            ),
            took_next(*old(self), *final(self), next),
            final(self).output == old(self).output,
            final(self).drops == old(self).drops,
    {
        let ghost inputs0 = self.input_queues;
        let ghost heap0 = self.heap@;
        let arrived: usize = self.take_in(Priority::High, 1);
        let ghost inputs1 = self.input_queues;
        proof {
            lemma_one_look(inputs0.at(Priority::High), inputs1.at(Priority::High));
        }
        if arrived == 0 {
            self.take_in_lower();
            proof {
                broadcast use vstd::multiset::group_multiset_axioms;

                lemma_intake_chains(queueing(), inputs0, inputs1, self.input_queues);
                assert(self.heap@ =~= heap0.add(intake(queueing(), inputs0, self.input_queues)));
            }
        }
        broadcast use vstd::multiset::group_multiset_axioms;

        let task = match self.heap.pop() {
            Some(entry) => {
                assert(entry == by_virtual_deadline(entry.item));
                Some(entry.item)
            },
            None => None,
        };
        NextTask { task, high_arrived: arrived > 0 }
    }

    /// Goes on with a task after the wait for the high class. Where a packet came in the meantime,
    /// both are queued and nothing is left in hand; otherwise the task is handed back.
    pub fn resume(&mut self, task: ChannelTask, arrival: Option<Packet>) -> (left: Option<ChannelTask>)
        requires
            old(self).wf(),
        ensures
            final(self).wf(),
            match arrival {
                Some(packet) => {
                    &&& left is None
                    &&& final(self).heap@ == old(self).heap@.insert(
                        by_virtual_deadline(task_of(Priority::High, packet)),
                    ).insert(by_virtual_deadline(task))
                },
                None => left == Some(task) && final(self).heap@ == old(self).heap@,
            },
            resumed(old(self).heap@, final(self).heap@, task, arrival, left),
            final(self).input_queues == old(self).input_queues,
            final(self).output == old(self).output,
            final(self).drops == old(self).drops,
    {
        broadcast use vstd::multiset::group_multiset_axioms;

        match arrival {
            Some(packet) => {
                self.accept(Priority::High, packet);
                let key: i128 = task.virtual_deadline.nanos as i128;
                self.heap.push(key, task);
                None
            },
            None => Some(task),
        }
    }

    /// Waits at most `timeout` for a packet of the high class before `task` is worked on, unless
    /// the task is of the high class itself. Where one comes, both are queued and nothing is left
    /// in hand; otherwise the task is handed back.
    pub fn await_high(&mut self, task: ChannelTask, timeout: Duration) -> (left: Option<
        ChannelTask,
    >)
        requires
            old(self).wf(),
        ensures
            final(self).wf(),
            match left {
                Some(back) => {
                    &&& back == task
                    &&& final(self).heap@ == old(self).heap@
                    &&& !task.high ==> exists|why: RecvFailure| #[trigger]
                        channel::received(
                            Err(why),
                            old(self).input_queues.at(Priority::High),
                            final(self).input_queues.at(Priority::High),
                        )
                },
                None => {
                    &&& !task.high
                    &&& exists|packet: Packet| #[trigger]
                        channel::received(
                            Ok(packet),
                            old(self).input_queues.at(Priority::High),
                            final(self).input_queues.at(Priority::High),
                        ) && final(self).heap@ == old(self).heap@.insert(
                            by_virtual_deadline(task_of(Priority::High, packet)),
                        ).insert(by_virtual_deadline(task))
                },
            },
            forall|p: Priority|
                p != Priority::High ==> #[trigger] final(self).input_queues.at(p) == old(
                    self).input_queues.at(p),
            task.high ==> final(self).input_queues == old(self).input_queues,
            awaited(*old(self), *final(self), task, left),
            final(self).output == old(self).output,
            final(self).drops == old(self).drops,
    {
        if task.high {
            return Some(task);
        }
        match channel::recv_timeout(self.input_queues.get_mut(Priority::High), timeout) {
            Ok(packet) => {
                assert(channel::received(
                    Ok(packet),
                    old(self).input_queues.at(Priority::High),
                    self.input_queues.at(Priority::High),
                ));
                self.resume(task, Some(packet))
            },
            Err(why) => {
                assert(channel::received(
                    Err(why),
                    old(self).input_queues.at(Priority::High),
                    self.input_queues.at(Priority::High),
                ));
                self.resume(task, None)
            },
        }
    }

    /// Offers a packet that was worked on to the last stage. A packet that it does not take is
    /// counted and handed back.
    pub fn finish(&mut self, task: ChannelTask) -> (rejected: Option<Packet>)
        requires
            old(self).wf(),
        ensures
            final(self).wf(),
            offered(
                task.packet,
                rejected,
                old(self).output,
                final(self).output,
                old(self).drops,
                final(self).drops,
            ),
            final(self).input_queues == old(self).input_queues,
            final(self).heap == old(self).heap,
    {
        send_packet(&mut self.output, &mut self.drops, task.packet)
    }
}

proof fn lemma_one_look(before: Receiver<Packet>, after: Receiver<Packet>)
    requires
        channel::taken(before).is_prefix_of(channel::taken(after)),
        channel::drained(before, after) && got(before, after).len() == 0 || got(
            before,
            after,
        ).len() == 1 && channel::always_gave(before, after),
    ensures
        channel::asked_once(before, after),
{
    let gave = channel::as_replies(got(before, after));
    if got(before, after).len() == 0 {
        let why = choose|why: RecvFailure|
            channel::replies(after) == #[trigger] (channel::replies(before) + gave).push(
                Err::<Packet, RecvFailure>(why),
            );
        assert(channel::replies(before) + gave =~= channel::replies(before));
        assert(channel::taken(after) =~= channel::taken(before));
        assert(channel::received(Err(why), before, after));
    } else {
        let packet = got(before, after)[0];
        assert(channel::replies(before) + gave =~= channel::replies(before).push(Ok(packet)));
        assert(channel::taken(after) =~= channel::taken(before).push(packet));
        assert(channel::received(Ok(packet), before, after));
    }
}

/// The task that a worker takes up.
pub struct NextTask {
    pub task: Option<ChannelTask>,
    /// Whether a packet of the high class was taken in.
    pub high_arrived: bool,
}

/// Whether `taken` is a task with the earliest virtual deadline among `before`, and `after` is what
/// stays.
pub open spec fn took_earliest(
    before: Multiset<Entry<ChannelTask>>,
    after: Multiset<Entry<ChannelTask>>,
    taken: Option<ChannelTask>,
) -> bool {
    match taken {
        Some(task) => {
            &&& before.count(by_virtual_deadline(task)) > 0
            &&& after == before.remove(by_virtual_deadline(task))
            &&& forall|e: Entry<ChannelTask>| #[trigger]
                before.count(e) > 0 ==> task.virtual_deadline.nanos <= e.key
        },
        None => before.len() == 0 && after == before,
    }
}

/// The last stage: merges what the channels give by deadline.
pub struct Reorder {
    /// The place of a class holds a packet that its channel gave; the best-effort class has none.
    pub merge: EDFScheduler,
}

/// What a step of the last stage does: it takes up the packet that is due first and offers it to the
/// output of the packet's own class.
pub open spec fn stepped(
    before: EDFScheduler,
    after: EDFScheduler,
    done: Option<(Priority, Option<Packet>)>,
) -> bool {
    match done {
        Some((priority, rejected)) => exists|
            middle: EDFScheduler,
            channel: Priority,
            task: EDFTask,
        |
            #![trigger middle.took(before, Some((channel, task)))]
            middle.took(before, Some((channel, task))) && priority == task.packet.priority
                && after.forwarded(middle, priority, task.packet, rejected),
        None => after.took(before, None),
    }
}

impl Reorder {
    /// Takes up the packet that is due first and offers it to the output of its class. Gives the
    /// class, and the packet where the output did not take it. `None` where no packet is there.
    pub fn step(&mut self) -> (done: Option<(Priority, Option<Packet>)>)
        ensures
            match done {
                Some((priority, rejected)) => exists|
                    middle: EDFScheduler,
                    channel: Priority,
                    task: EDFTask,
                |
                    #![trigger middle.took(old(self).merge, Some((channel, task)))]
                    middle.took(old(self).merge, Some((channel, task))) && priority
                        == task.packet.priority && final(self).merge.forwarded(
                        middle,
                        priority,
                        task.packet,
                        rejected,
                    ),
                None => final(self).merge.took(old(self).merge, None),
            },
            stepped(old(self).merge, final(self).merge, done),
    {
        match self.merge.process_next() {
            Some((channel, task)) => {
                let ghost middle = self.merge;
                let priority = task.packet.priority;
                let rejected = self.merge.forward(task.packet);
                assert(middle.took(old(self).merge, Some((channel, task))));
                Some((priority, rejected))
            },
            None => None,
        }
    }
}

/// Packets of a class dropped by the worker of its channel and by the last stage together. The
/// best-effort class has no channel of its own.
pub open spec fn merged_at(
    high: u64,
    medium: u64,
    low: u64,
    last: PriorityTable<u64>,
    priority: Priority,
) -> u64 {
    advanced(
        last.at(priority),
        match priority {
            Priority::High => high as nat,
            Priority::Medium => medium as nat,
            Priority::Low => low as nat,
            Priority::BestEffort => 0,
        },
    )
}

/// Packets dropped by the workers of the three channels and by the last stage together.
pub fn merged_drops(high: u64, medium: u64, low: u64, reorder: &EDFScheduler) -> (counts:
    EDFDropCounters)
    ensures
        counts.heap == 0,
        forall|p: Priority| #[trigger]
            counts.output.at(p) == merged_at(
                high,
                medium,
                low,
                reorder.output_drop_counters,
                p,
            ),
        counts.output.at(Priority::High) == advanced(
            reorder.output_drop_counters.at(Priority::High),
            high as nat,
        ),
        counts.output.at(Priority::Medium) == advanced(
            reorder.output_drop_counters.at(Priority::Medium),
            medium as nat,
        ),
        counts.output.at(Priority::Low) == advanced(
            reorder.output_drop_counters.at(Priority::Low),
            low as nat,
        ),
        counts.output.at(Priority::BestEffort) == reorder.output_drop_counters.at(
            Priority::BestEffort,
        ),
{
    let drops = &reorder.output_drop_counters;
    EDFDropCounters {
        heap: 0,
        output: PriorityTable::of(
            drops.get(Priority::High).wrapping_add(high),
            drops.get(Priority::Medium).wrapping_add(medium),
            drops.get(Priority::Low).wrapping_add(low),
            *drops.get(Priority::BestEffort),
        ),
    }
}

/// Whether nothing has been sent or taken through these ends of a queue without a limit.
pub open spec fn is_empty_queue(tx: Sender<Packet>, rx: Receiver<Packet>) -> bool {
    &&& channel::limit(tx) is None
    &&& channel::sent(tx) == Seq::<Packet>::empty()
    &&& channel::taken(rx) == Seq::<Packet>::empty()
}

/// Scheduler with three channels. The parts share nothing but the queues between them, so each can
/// be run on a thread of its own.
pub struct MCEDFElasticScheduler {
    pub dispatcher: Dispatcher,
    pub high: HighChannel,
    pub medium: MixedChannel,
    pub low: MixedChannel,
    pub reorder: Reorder,
}

impl MCEDFElasticScheduler {
    /// Whether the parts are linked: what the dispatcher sends, the channels take, and what they
    /// send, the last stage takes.
    pub open spec fn linked(&self) -> bool {
        let merged = self.reorder.merge.input_queues;
        &&& channel::sole_ends(self.dispatcher.high_to_high, self.high.input)
        &&& channel::sole_ends(
            self.dispatcher.high_to_medium,
            self.medium.input_queues.at(Priority::High),
        )
        &&& channel::sole_ends(
            self.dispatcher.high_to_low,
            self.low.input_queues.at(Priority::High),
        )
        &&& channel::sole_ends(
            self.dispatcher.medium_to_medium,
            self.medium.input_queues.at(Priority::Medium),
        )
        &&& channel::sole_ends(
            self.dispatcher.low_to_low,
            self.low.input_queues.at(Priority::Low),
        )
        &&& channel::sole_ends(self.high.output, merged.at(Priority::High))
        &&& channel::sole_ends(self.medium.output, merged.at(Priority::Medium))
        &&& channel::sole_ends(self.low.output, merged.at(Priority::Low))
    }

    /// Whether the queues between the parts are empty and without limits, and no packet of the high
    /// class has been spread yet.
    pub open spec fn is_fresh(&self) -> bool {
        let merged = self.reorder.merge.input_queues;
        &&& is_empty_queue(self.dispatcher.high_to_high, self.high.input)
        &&& is_empty_queue(
            self.dispatcher.high_to_medium,
            self.medium.input_queues.at(Priority::High),
        )
        &&& is_empty_queue(self.dispatcher.high_to_low, self.low.input_queues.at(Priority::High))
        &&& is_empty_queue(
            self.dispatcher.medium_to_medium,
            self.medium.input_queues.at(Priority::Medium),
        )
        &&& is_empty_queue(self.dispatcher.low_to_low, self.low.input_queues.at(Priority::Low))
        &&& is_empty_queue(self.high.output, merged.at(Priority::High))
        &&& is_empty_queue(self.medium.output, merged.at(Priority::Medium))
        &&& is_empty_queue(self.low.output, merged.at(Priority::Low))
        &&& forall|c: EdfChannel|
            (#[trigger] self.dispatcher.stats.load(c)).count == 0 && self.dispatcher.stats.load(
                c,
            ).slack.nanos == 0
    }

    /// A scheduler between the given inputs and outputs that holds no packet.
    pub fn new(
        input_queues: PriorityTable<Receiver<Packet>>,
        output_queues: PriorityTable<Sender<Packet>>,
    ) -> (scheduler: MCEDFElasticScheduler)
        ensures
            scheduler.linked(),
            scheduler.is_fresh(),
            scheduler.dispatcher.input_queues == input_queues,
            scheduler.high.fifo@.len() == 0,
            scheduler.high.drops == 0,
            scheduler.medium.wf(),
            scheduler.medium.heap@ == Multiset::<Entry<ChannelTask>>::empty(),
            scheduler.medium.drops == 0,
            scheduler.low.wf(),
            scheduler.low.heap@ == Multiset::<Entry<ChannelTask>>::empty(),
            scheduler.low.drops == 0,
            scheduler.reorder.merge.output_queues == output_queues,
            forall|p: Priority| (#[trigger] scheduler.reorder.merge.pending.at(p)) is None,
            forall|p: Priority| #[trigger] scheduler.reorder.merge.output_drop_counters.at(p) == 0,
    {
        let (high_to_high, high_high) = channel::unbounded();
        let (high_to_medium, medium_high) = channel::unbounded();
        let (medium_to_medium, medium_medium) = channel::unbounded();
        let (high_to_low, low_high) = channel::unbounded();
        let (low_to_low, low_low) = channel::unbounded();
        let (high_output, high_merged) = channel::unbounded();
        let (medium_output, medium_merged) = channel::unbounded();
        let (low_output, low_merged) = channel::unbounded();
        let (_, no_medium_low) = channel::unbounded();
        let (_, no_medium_best_effort) = channel::unbounded();
        let (_, no_low_medium) = channel::unbounded();
        let (_, no_low_best_effort) = channel::unbounded();
        let (_, no_merged_best_effort) = channel::unbounded();
        MCEDFElasticScheduler {
            dispatcher: Dispatcher {
                input_queues,
                high_to_high,
                high_to_medium,
                high_to_low,
                medium_to_medium,
                low_to_low,
                stats: HighDistributionStats::new(),
            },
            high: HighChannel {
                input: high_high,
                output: high_output,
                drops: 0,
                fifo: VecDeque::new(),
            },
            medium: MixedChannel::new(
                PriorityTable::of(medium_high, medium_medium, no_medium_low, no_medium_best_effort),
                medium_output,
            ),
            low: MixedChannel::new(
                PriorityTable::of(low_high, no_low_medium, low_low, no_low_best_effort),
                low_output,
            ),
            reorder: Reorder {
                merge: EDFScheduler::new(
                    PriorityTable::of(
                        high_merged,
                        medium_merged,
                        low_merged,
                        no_merged_best_effort,
                    ),
                    output_queues,
                    1,
                ),
            },
        }
    }

    /// Packets that the scheduler dropped. It holds no packet back for lack of room of its own.
    pub fn get_drop_counts(&self) -> (counts: EDFDropCounters)
        ensures
            counts.heap == 0,
            forall|p: Priority| #[trigger]
                counts.output.at(p) == merged_at(
                    self.high.drops,
                    self.medium.drops,
                    self.low.drops,
                    self.reorder.merge.output_drop_counters,
                    p,
                ),
            counts.output.at(Priority::High) == advanced(
                self.reorder.merge.output_drop_counters.at(Priority::High),
                self.high.drops as nat,
            ),
            counts.output.at(Priority::Medium) == advanced(
                self.reorder.merge.output_drop_counters.at(Priority::Medium),
                self.medium.drops as nat,
            ),
            counts.output.at(Priority::Low) == advanced(
                self.reorder.merge.output_drop_counters.at(Priority::Low),
                self.low.drops as nat,
            ),
            counts.output.at(Priority::BestEffort)
                == self.reorder.merge.output_drop_counters.at(Priority::BestEffort),
    {
        merged_drops(self.high.drops, self.medium.drops, self.low.drops, &self.reorder.merge)
    }
}

/// Law: the task that a mixed channel takes up has a virtual deadline no later than any that stays.
pub proof fn law_channel_order_is_by_virtual_deadline(
    before: Multiset<Entry<ChannelTask>>,
    after: Multiset<Entry<ChannelTask>>,
    taken: ChannelTask,
    other: ChannelTask,
)
    requires
        took_earliest(before, after, Some(taken)),
        after.count(by_virtual_deadline(other)) > 0,
    ensures
        taken.virtual_deadline.nanos <= other.virtual_deadline.nanos,
{
    broadcast use vstd::multiset::group_multiset_axioms;

    assert(before.count(by_virtual_deadline(other)) > 0);
}

/// Law: interrupting a task for a packet of the high class loses neither; both wait in the channel
/// afterwards, and nothing else is added.
pub proof fn law_interrupted_task_is_kept(
    before: Multiset<Entry<ChannelTask>>,
    after: Multiset<Entry<ChannelTask>>,
    task: ChannelTask,
    packet: Packet,
)
    requires
        after == before.insert(by_virtual_deadline(task_of(Priority::High, packet))).insert(
            by_virtual_deadline(task),
        ),
    ensures
        after.count(by_virtual_deadline(task)) > 0,
        after.count(by_virtual_deadline(task_of(Priority::High, packet))) > 0,
        after.len() == before.len() + 2,
{
    broadcast use vstd::multiset::group_multiset_axioms;

}

/// Law: the next packet of the high class goes to a channel for which a thousand times the packets
/// that it got, plus the sum of the times that they had left in whole microseconds, is least; to the
/// first of them where there are several. So of channels that got equally many packets it goes to one
/// whose sum of times left is least.
pub proof fn law_next_channel_has_least_count_and_time_left(stats: HighDistributionStats)
    ensures
        ({
            let high = 1000 * stats.high.count + stats.high.slack.nanos / 1000;
            let medium = 1000 * stats.medium.count + stats.medium.slack.nanos / 1000;
            let low = 1000 * stats.low.count + stats.low.slack.nanos / 1000;
            &&& stats.best() == EdfChannel::High <==> high <= medium && high <= low
            &&& stats.best() == EdfChannel::Medium <==> medium < high && medium <= low
            &&& stats.best() == EdfChannel::Low <==> low < high && low < medium
        }),
        stats.best() == EdfChannel::High ==> {
            &&& stats.high.count == stats.medium.count ==> stats.high.slack.nanos / 1000
                <= stats.medium.slack.nanos / 1000
            &&& stats.high.count == stats.low.count ==> stats.high.slack.nanos / 1000
                <= stats.low.slack.nanos / 1000
        },
        stats.best() == EdfChannel::Medium ==> {
            &&& stats.medium.count == stats.high.count ==> stats.medium.slack.nanos / 1000
                < stats.high.slack.nanos / 1000
            &&& stats.medium.count == stats.low.count ==> stats.medium.slack.nanos / 1000
                <= stats.low.slack.nanos / 1000
        },
        stats.best() == EdfChannel::Low ==> {
            &&& stats.low.count == stats.high.count ==> stats.low.slack.nanos / 1000
                < stats.high.slack.nanos / 1000
            &&& stats.low.count == stats.medium.count ==> stats.low.slack.nanos / 1000
                < stats.medium.slack.nanos / 1000
        },
{
}

/// Law: a packet that goes to a channel adds one to what the channel got and the time that the packet
/// had left to its sum, as far as the clock reaches; the other channels stay as they are.
pub proof fn law_a_packet_weighs_on_its_channel_alone(
    stats: HighDistributionStats,
    channel: EdfChannel,
    other: EdfChannel,
    slack: Duration,
)
    requires
        stats.load(channel).count < u64::MAX,
    ensures
        stats.load(EdfChannel::High) == stats.high,
        stats.load(EdfChannel::Medium) == stats.medium,
        stats.load(EdfChannel::Low) == stats.low,
        stats.with(channel, slack).load(channel).count == stats.load(channel).count + 1,
        stats.load(channel).slack.nanos + slack.nanos <= u64::MAX ==> stats.with(
            channel,
            slack,
        ).load(channel).slack.nanos == stats.load(channel).slack.nanos + slack.nanos,
        stats.load(channel).slack.nanos + slack.nanos > u64::MAX ==> stats.with(
            channel,
            slack,
        ).load(channel).slack.nanos == u64::MAX,
        other != channel ==> stats.with(channel, slack).load(other) == stats.load(other),
{
}

/// Law: each packet of a burst is offered to the one channel that is least loaded by what went before
/// it, counts and times left together; where that channel takes it, the channel counts it with the
/// time from `now` to its deadline, and where it does not, nothing counts it.
pub proof fn law_bursts_go_packet_by_packet(
    stats: HighDistributionStats,
    packets: Seq<Packet>,
    taken: Seq<bool>,
    packet: Packet,
    took: bool,
    now: Instant,
    channel: EdfChannel,
)
    requires
        taken.len() == packets.len(),
    ensures
        ({
            let before = spread(stats, packets, taken, now);
            let after = spread(stats, packets.push(packet), taken.push(took), now);
            let high = 1000 * before.high.count + before.high.slack.nanos / 1000;
            let medium = 1000 * before.medium.count + before.medium.slack.nanos / 1000;
            let low = 1000 * before.low.count + before.low.slack.nanos / 1000;
            let goes = match channel {
                EdfChannel::High => high <= medium && high <= low,
                EdfChannel::Medium => medium < high && medium <= low,
                EdfChannel::Low => low < high && low < medium,
            };
            let due = min_of(packet.timestamp.nanos + packet.latency_budget.nanos, u64::MAX as int);
            &&& share_of(channel, stats, packets.push(packet), taken.push(took), now) == (if goes {
                share_of(channel, stats, packets, taken, now).push(packet)
            } else {
                share_of(channel, stats, packets, taken, now)
            })
            &&& kept_by(channel, stats, packets.push(packet), taken.push(took), now) == (if goes
                && took {
                kept_by(channel, stats, packets, taken, now).push(packet)
            } else {
                kept_by(channel, stats, packets, taken, now)
            })
            &&& left_over(packets.push(packet), taken.push(took)) == (if took {
                left_over(packets, taken)
            } else {
                left_over(packets, taken).push(packet)
            })
            &&& goes && took && before.load(channel).count < u64::MAX ==> {
                &&& after.load(channel).count == before.load(channel).count + 1
                &&& after.load(channel).slack.nanos == min_of(
                    before.load(channel).slack.nanos + if due > now.nanos {
                        due - now.nanos
                    } else {
                        0
                    },
                    u64::MAX as int,
                )
            }
            &&& !goes || !took ==> after.load(channel) == before.load(channel)
        }),
{
    assert(packets.push(packet).drop_last() =~= packets);
    assert(taken.push(took).drop_last() =~= taken);
    assert(packets.push(packet).last() == packet);
    assert(taken.push(took).last() == took);
    law_next_channel_has_least_count_and_time_left(spread(stats, packets, taken, now));
}

/// Law: before any packet of a burst nothing has changed.
pub proof fn law_empty_bursts_change_nothing(
    stats: HighDistributionStats,
    now: Instant,
    channel: EdfChannel,
)
    ensures
        spread(stats, Seq::empty(), Seq::empty(), now) == stats,
        share_of(channel, stats, Seq::empty(), Seq::empty(), now) == Seq::<Packet>::empty(),
        kept_by(channel, stats, Seq::empty(), Seq::empty(), now) == Seq::<Packet>::empty(),
        left_over(Seq::empty(), Seq::empty()) == Seq::<Packet>::empty(),
{
}

/// Law: a packet is queued by its arrival plus the part of its budget that counts, to the nearest
/// nanosecond: a fortieth in the high class, half in the medium class, all of it in the others. The
/// task keeps the packet, when it is due by its whole budget, and whether it is of the high class.
pub proof fn law_parts_of_the_budget_count(priority: Priority, packet: Packet)
    ensures
        ({
            let task = task_of(priority, packet);
            let part = task.virtual_deadline.nanos - packet.timestamp.nanos;
            let budget = packet.latency_budget.nanos;
            &&& by_virtual_deadline(task).key == task.virtual_deadline.nanos
            &&& by_virtual_deadline(task).item == task
            &&& queueing()(priority, packet) == by_virtual_deadline(task)
            &&& task.packet == packet
            &&& task.high <==> priority == Priority::High
            &&& packet.timestamp.nanos + budget <= u64::MAX ==> {
                &&& task.real_deadline.nanos == packet.timestamp.nanos + budget
                &&& priority == Priority::High ==> -20 <= budget - 40 * part < 20
                &&& priority == Priority::Medium ==> -1 <= budget - 2 * part <= 0
                &&& priority == Priority::Low || priority == Priority::BestEffort ==> part
                    == budget
            }
        }),
{
}

/// Law: a mixed channel that takes up a packet of a class leaves no packet of the high class behind
/// that arrived plus a fortieth of its budget earlier than that packet arrived plus its part, but for
/// rounding; likewise with half the budget for the medium class and the whole of it for the low
/// class. What it takes up leaves the channel, and nothing else does.
pub proof fn law_mixed_channels_weigh_classes(
    before: Multiset<Entry<ChannelTask>>,
    after: Multiset<Entry<ChannelTask>>,
    p: Priority,
    taken: Packet,
    q: Priority,
    other: Packet,
)
    requires
        took_earliest(before, after, Some(task_of(p, taken))),
        after.count(by_virtual_deadline(task_of(q, other))) > 0,
        taken.timestamp.nanos + taken.latency_budget.nanos <= u64::MAX,
        other.timestamp.nanos + other.latency_budget.nanos <= u64::MAX,
    ensures
        ({
            let fortieths = |priority: Priority|
                match priority {
                    Priority::High => 1int,
                    Priority::Medium => 20,
                    _ => 40,
                };
            40 * taken.timestamp.nanos + fortieths(p) * taken.latency_budget.nanos <= 40
                * other.timestamp.nanos + fortieths(q) * other.latency_budget.nanos + 40
        }),
        after.insert(by_virtual_deadline(task_of(p, taken))) == before,
{
    broadcast use vstd::multiset::group_multiset_axioms;

    law_parts_of_the_budget_count(p, taken);
    law_parts_of_the_budget_count(q, other);
    assert(before.count(by_virtual_deadline(task_of(q, other))) > 0);
    assert(after.insert(by_virtual_deadline(task_of(p, taken))) =~= before);
}

/// Law: the high channel gives its packets in the order in which they came: the task that it takes up
/// is the front of those that wait and those that came in, and the others stay in their order.
pub proof fn law_high_channel_keeps_the_order(
    before: HighChannel,
    after: HighChannel,
    taken: ChannelTask,
)
    requires
        took_front(before, after, Some(taken)),
    ensures
        seq![taken.packet] + after.fifo@.map_values(|task: ChannelTask| task.packet)
            == before.fifo@.map_values(|task: ChannelTask| task.packet) + channel::taken(
            after.input,
        ).skip(channel::taken(before.input).len() as int),
        before.fifo@.len() > 0 ==> channel::taken(after.input) == channel::taken(before.input),
{
    let f = |task: ChannelTask| task.packet;
    assert(seq![taken.packet] + after.fifo@.map_values(f) =~= before.fifo@.map_values(f)
        + channel::taken(after.input).skip(channel::taken(before.input).len() as int));
}

/// Law: a wait for the high class lasts as long as the gap between its packets, but never longer than
/// 50 microseconds, and that long where the gap is not known.
pub proof fn law_waits_for_high_are_short(mean_gap_us: Option<u64>)
    ensures
        0 <= wait_micros(mean_gap_us) <= 50,
        mean_gap_us is None ==> wait_micros(mean_gap_us) == 50,
        mean_gap_us matches Some(gap) ==> wait_micros(mean_gap_us) <= gap && (gap <= 50
            ==> wait_micros(mean_gap_us) == gap) && (gap > 50 ==> wait_micros(mean_gap_us) == 50),
{
}

/// Law: one pass takes no more than 32 packets of the high class, and fewer only where the input gave
/// no more.
pub proof fn law_a_batch_holds_thirty_two(before: Receiver<Packet>, after: Receiver<Packet>)
    requires
        took_batch(before, after),
        got(before, after).len() != 32,
    ensures
        channel::replies(after).len() > 0,
        channel::replies(after).last() is Err,
{
}

/// Law: the drops of a class are those behind its own channel and those behind the last stage, summed
/// up; what is dropped behind another channel does not count.
pub proof fn law_drops_add_up_by_class(
    high: u64,
    medium: u64,
    low: u64,
    last: PriorityTable<u64>,
)
    ensures
        last.at(Priority::High) + high <= u64::MAX ==> merged_at(
            high,
            medium,
            low,
            last,
            Priority::High,
        ) == last.at(Priority::High) + high,
        last.at(Priority::Medium) + medium <= u64::MAX ==> merged_at(
            high,
            medium,
            low,
            last,
            Priority::Medium,
        ) == last.at(Priority::Medium) + medium,
        last.at(Priority::Low) + low <= u64::MAX ==> merged_at(
            high,
            medium,
            low,
            last,
            Priority::Low,
        ) == last.at(Priority::Low) + low,
        merged_at(high, medium, low, last, Priority::BestEffort) == last.at(Priority::BestEffort),
{
}

/// Law: a packet of a lower class that came in is offered to its channel, and is then either there or
/// handed back, never both; where none came in, nothing is offered.
pub proof fn law_lower_packets_are_handed_on(
    rx_before: Receiver<Packet>,
    rx_after: Receiver<Packet>,
    tx_before: Sender<Packet>,
    tx_after: Sender<Packet>,
    lost: Option<Packet>,
)
    requires
        lower_step(rx_before, rx_after, tx_before, tx_after, lost),
    ensures
        got(rx_before, rx_after).len() <= 1,
        channel::offers(tx_after) == channel::offers(tx_before) + got(rx_before, rx_after),
        channel::sent(tx_after) + if_any(lost) == channel::sent(tx_before) + got(
            rx_before,
            rx_after,
        ),
{
    assert(channel::offers(tx_after) =~= channel::offers(tx_before) + got(rx_before, rx_after));
    assert(channel::sent(tx_after) + if_any(lost) =~= channel::sent(tx_before) + got(
        rx_before,
        rx_after,
    ));
}

/// Law: each packet of a burst is offered to exactly one of the three channels, and what a channel takes
/// is part of what it is offered.
pub proof fn law_each_packet_is_offered_once(
    stats: HighDistributionStats,
    packets: Seq<Packet>,
    taken: Seq<bool>,
    now: Instant,
)
    ensures
        share_of(EdfChannel::High, stats, packets, taken, now).to_multiset().add(
            share_of(EdfChannel::Medium, stats, packets, taken, now).to_multiset(),
        ).add(share_of(EdfChannel::Low, stats, packets, taken, now).to_multiset())
            == packets.to_multiset(),
        forall|c: EdfChannel| #[trigger]
            kept_by(c, stats, packets, taken, now).len() <= share_of(
                c,
                stats,
                packets,
                taken,
                now,
            ).len(),
    decreases packets.len(),
{
    broadcast use vstd::multiset::group_multiset_axioms;
    broadcast use vstd::seq_lib::group_to_multiset_ensures;

    let high = share_of(EdfChannel::High, stats, packets, taken, now);
    let medium = share_of(EdfChannel::Medium, stats, packets, taken, now);
    let low = share_of(EdfChannel::Low, stats, packets, taken, now);
    if packets.len() > 0 {
        law_each_packet_is_offered_once(stats, packets.drop_last(), taken.drop_last(), now);
        assert(packets =~= packets.drop_last().push(packets.last()));
        assert forall|c: EdfChannel| #[trigger]
            kept_by(c, stats, packets, taken, now).len() <= share_of(
                c,
                stats,
                packets,
                taken,
                now,
            ).len() by {
            assert(kept_by(c, stats, packets.drop_last(), taken.drop_last(), now).len() <= share_of(
                c,
                stats,
                packets.drop_last(),
                taken.drop_last(),
                now,
            ).len());
        }
    }
    assert(high.to_multiset().add(medium.to_multiset()).add(low.to_multiset())
        =~= packets.to_multiset());
}

/// Law: one pass offers what came of the high class to the three queues for it, what came of the medium
/// class to the second channel, and what came of the low class and then of the best-effort class to
/// the third; nothing else is offered anywhere.
pub proof fn law_one_pass_offers_what_came(
    before: Dispatcher,
    after: Dispatcher,
    now: Instant,
    taken: Seq<bool>,
    medium: Option<Packet>,
    low: Option<Packet>,
    best_effort: Option<Packet>,
    between: Sender<Packet>,
)
    requires
        one_pass(before, after, now, taken, medium, low, best_effort, between),
    ensures
        ({
            let high = got(
                before.input_queues.at(Priority::High),
                after.input_queues.at(Priority::High),
            );
            let first = channel::offers(after.high_to_high).skip(
                channel::offers(before.high_to_high).len() as int,
            );
            let second = channel::offers(after.high_to_medium).skip(
                channel::offers(before.high_to_medium).len() as int,
            );
            let third = channel::offers(after.high_to_low).skip(
                channel::offers(before.high_to_low).len() as int,
            );
            first.to_multiset().add(second.to_multiset()).add(third.to_multiset())
                == high.to_multiset()
        }),
        channel::offers(after.medium_to_medium) == channel::offers(before.medium_to_medium) + got(
            before.input_queues.at(Priority::Medium),
            after.input_queues.at(Priority::Medium),
        ),
        channel::offers(after.low_to_low) == channel::offers(before.low_to_low) + got(
            before.input_queues.at(Priority::Low),
            after.input_queues.at(Priority::Low),
        ) + got(
            before.input_queues.at(Priority::BestEffort),
            after.input_queues.at(Priority::BestEffort),
        ),
{
    let high = got(before.input_queues.at(Priority::High), after.input_queues.at(Priority::High));
    law_each_packet_is_offered_once(before.stats, high, taken, now);
    assert(after.high_to(EdfChannel::High) == after.high_to_high);
    assert(after.high_to(EdfChannel::Medium) == after.high_to_medium);
    assert(after.high_to(EdfChannel::Low) == after.high_to_low);
    assert(channel::offers(after.high_to_high).skip(
        channel::offers(before.high_to_high).len() as int,
    ) =~= share_of(EdfChannel::High, before.stats, high, taken, now));
    assert(channel::offers(after.high_to_medium).skip(
        channel::offers(before.high_to_medium).len() as int,
    ) =~= share_of(EdfChannel::Medium, before.stats, high, taken, now));
    assert(channel::offers(after.high_to_low).skip(
        channel::offers(before.high_to_low).len() as int,
    ) =~= share_of(EdfChannel::Low, before.stats, high, taken, now));
    law_lower_packets_are_handed_on(
        before.input_queues.at(Priority::Medium),
        after.input_queues.at(Priority::Medium),
        before.medium_to_medium,
        after.medium_to_medium,
        medium,
    );
    law_lower_packets_are_handed_on(
        before.input_queues.at(Priority::Low),
        after.input_queues.at(Priority::Low),
        before.low_to_low,
        between,
        low,
    );
    law_lower_packets_are_handed_on(
        before.input_queues.at(Priority::BestEffort),
        after.input_queues.at(Priority::BestEffort),
        between,
        after.low_to_low,
        best_effort,
    );
}

/// Law: what the dispatcher sends to a channel's queue is what that channel takes from it, and what a
/// channel sends on is what the last stage takes in its place: the high channel's in that of the high
/// class, the mixed channels' in those of the medium and the low class.
pub proof fn law_channels_are_linked_in_a_row(
    scheduler: MCEDFElasticScheduler,
    channel: EdfChannel,
)
    requires
        scheduler.linked(),
    ensures
        ({
            let inlet = match channel {
                EdfChannel::High => scheduler.high.input,
                EdfChannel::Medium => scheduler.medium.input_queues.at(Priority::High),
                EdfChannel::Low => scheduler.low.input_queues.at(Priority::High),
            };
            let outlet = match channel {
                EdfChannel::High => scheduler.high.output,
                EdfChannel::Medium => scheduler.medium.output,
                EdfChannel::Low => scheduler.low.output,
            };
            let place = match channel {
                EdfChannel::High => Priority::High,
                EdfChannel::Medium => Priority::Medium,
                EdfChannel::Low => Priority::Low,
            };
            &&& crate::channel::sole_ends(scheduler.dispatcher.high_to(channel), inlet)
            &&& crate::channel::sole_ends(
                outlet,
                scheduler.reorder.merge.input_queues.at(place),
            )
        }),
{
}

/// Law: a wait for the high class loses no task: what the channel holds then and what is left in hand are
/// what it held, the task, and the packet that came, if one did. The task goes on at once exactly where
/// none came.
pub proof fn law_a_wait_loses_no_task(
    before: Multiset<Entry<ChannelTask>>,
    after: Multiset<Entry<ChannelTask>>,
    task: ChannelTask,
    arrival: Option<Packet>,
    left: Option<ChannelTask>,
)
    requires
        resumed(before, after, task, arrival, left),
    ensures
        left is Some <==> arrival is None,
        left matches Some(back) ==> back == task && after == before,
        arrival matches Some(packet) ==> {
            &&& after.len() == before.len() + 2
            &&& after.remove(by_virtual_deadline(task)).remove(
                by_virtual_deadline(task_of(Priority::High, packet)),
            ) == before
        },
{
    broadcast use vstd::multiset::group_multiset_axioms;

    match arrival {
        Some(packet) => {
            assert(after.remove(by_virtual_deadline(task)).remove(
                by_virtual_deadline(task_of(Priority::High, packet)),
            ) =~= before);
        },
        None => {},
    }
}

/// Law: a task of the high class never waits for its own class; any other asks for it once, and is handed
/// back exactly where the input gave no packet.
pub proof fn law_only_lower_classes_wait(
    before: MixedChannel,
    after: MixedChannel,
    priority: Priority,
    packet: Packet,
    left: Option<ChannelTask>,
)
    requires
        awaited(before, after, task_of(priority, packet), left),
    ensures
        priority == Priority::High ==> left is Some && channel::replies(
            after.input_queues.at(Priority::High),
        ) == channel::replies(before.input_queues.at(Priority::High)),
        priority != Priority::High ==> {
            &&& channel::replies(after.input_queues.at(Priority::High)).len() == channel::replies(
                before.input_queues.at(Priority::High),
            ).len() + 1
            &&& left is Some <==> channel::replies(
                after.input_queues.at(Priority::High),
            ).last() is Err
            &&& left is None ==> after.heap@.len() == before.heap@.len() + 2
        },
{
    broadcast use vstd::multiset::group_multiset_axioms;

}

/// Law: a mixed channel takes in packets of the lower classes only where none of the high class is there,
/// and then all that there are; what it takes up has the earliest virtual deadline of all that it holds
/// then.
pub proof fn law_high_packets_are_taken_in_first(
    before: MixedChannel,
    after: MixedChannel,
    next: NextTask,
    p: Priority,
    other: ChannelTask,
)
    requires
        took_next(before, after, next),
        p != Priority::High,
    ensures
        next.high_arrived ==> channel::replies(after.input_queues.at(Priority::High)).last() is Ok
            && after.input_queues.at(p) == before.input_queues.at(p),
        !next.high_arrived ==> channel::replies(
            after.input_queues.at(Priority::High),
        ).last() is Err && (got(before.input_queues.at(p), after.input_queues.at(p)).len()
            < usize::MAX ==> channel::replies(after.input_queues.at(p)).last() is Err),
        next.task is None ==> after.heap@.len() == 0,
        before.heap@.count(by_virtual_deadline(other)) > 0 ==> next.task is Some
            && next.task.unwrap().virtual_deadline.nanos <= other.virtual_deadline.nanos,
{
    broadcast use vstd::multiset::group_multiset_axioms;

    let held = before.heap@.add(intake(queueing(), before.input_queues, after.input_queues));
    let outcome = choose|outcome: Result<Packet, RecvFailure>| #[trigger]
        channel::received(
            outcome,
            before.input_queues.at(Priority::High),
            after.input_queues.at(Priority::High),
        );
    channel::law_records_grow_by_what_came(
        outcome,
        before.input_queues.at(Priority::High),
        after.input_queues.at(Priority::High),
    );
    assert(next.high_arrived ==> after.input_queues.at(p) == before.input_queues.at(p));
    if before.heap@.count(by_virtual_deadline(other)) > 0 {
        assert(held.count(by_virtual_deadline(other)) > 0);
        if held.len() == 0 {
            assert(held.count(by_virtual_deadline(other)) <= held.len());
        }
    }
}

/// Law: the last stage offers the packet that it takes up to the output of the packet's class and to no
/// other, whichever channel it came by; a packet that comes back is the one that was offered.
pub proof fn law_packets_leave_by_their_own_class(
    before: EDFScheduler,
    after: EDFScheduler,
    priority: Priority,
    rejected: Option<Packet>,
    other: Priority,
)
    requires
        stepped(before, after, Some((priority, rejected))),
    ensures
        channel::offers(after.output_queues.at(priority)).len() == channel::offers(
            before.output_queues.at(priority),
        ).len() + 1,
        channel::offers(after.output_queues.at(priority)).last().priority == priority,
        rejected matches Some(back) ==> back == channel::offers(
            after.output_queues.at(priority),
        ).last(),
        other != priority ==> after.output_queues.at(other) == before.output_queues.at(other),
{
    let (middle, channel, task) = choose|middle: EDFScheduler, channel: Priority, task: EDFTask|
        #![trigger middle.took(before, Some((channel, task)))]
        middle.took(before, Some((channel, task))) && priority == task.packet.priority
            && after.forwarded(middle, priority, task.packet, rejected);
    assert(middle.output_queues == before.output_queues);
    if other != priority {
        assert(after.output_queues.at(other) == middle.output_queues.at(other));
    }
}

/// Law: a mixed channel takes up no task only where it holds none.
pub proof fn law_where_tasks_wait_one_is_taken_up(
    before: Multiset<Entry<ChannelTask>>,
    after: Multiset<Entry<ChannelTask>>,
)
    requires
        took_earliest(before, after, None),
    ensures
        before.len() == 0,
        after == before,
{
}

} // verus!

//! Latency statistics of each class, and the snapshots that are reported to listeners.
//!
//! The way out of the pipeline records an event for every packet. The events go through a channel to
//! a collector, which keeps the measurements of the last seconds and reports on them.

use crate::channel::RecvFailure;
use crate::event_channel::{
    event_channel, event_ends, event_limit, event_replies, events_in_flight, events_offered,
    events_sent, events_taken, report_ends, reports_offered, reports_sent, same_report_ends,
    try_recv_event, try_send_event, try_send_report,
};
use crate::math::min_of;
use crate::priority::{Priority, PriorityTable};
use crate::scheduler::multi_worker_edf::MultiWorkerStats;
use crate::scheduler::output::{advanced, bump};
use crate::statistics::{
    at_most, compute_deviation, compute_mean, compute_rank, find_greatest, find_least,
    is_deviation, is_greatest, is_least, law_deviation_is_the_nearest, law_mean_is_the_nearest,
    law_order_runs_from_least_to_greatest, law_rank_marks_the_share, law_ranks_are_ordered,
    law_sorting_keeps_the_numbers, mean, rank, scaled_variance, sort, sorted, sum,
};
use crate::time::{Duration, Instant, NANOS_PER_SEC};
use crossbeam_channel::{Receiver, Sender};
use std::collections::{HashMap, VecDeque};
use vstd::prelude::*;

verus! {

/// How long a measurement counts, in seconds.
pub const TIME_WINDOW_SECS: u64 = 10;

/// Share of the numbers that the median does not exceed, in thousandths.
pub const P50: u64 = 500;

pub const P95: u64 = 950;

pub const P99: u64 = 990;

pub const P999: u64 = 999;

/// A latency and the time at which it was measured.
#[derive(Debug, Clone, Copy, PartialEq, Eq, Structural)]
pub struct LatencyMeasurement {
    pub latency: Duration,
    pub timestamp: Instant,
}

impl LatencyMeasurement {
    /// Whether the measurement counts at `now`.
    pub open spec fn counts_at(self, now: Instant, window: Duration) -> bool {
        now.nanos <= self.timestamp.nanos + window.nanos
    }
}

/// What stays of a history, oldest first, once the old measurements at its front are dropped.
pub open spec fn recent(
    history: Seq<LatencyMeasurement>,
    now: Instant,
    window: Duration,
) -> Seq<LatencyMeasurement>
    decreases history.len(),
{
    if history.len() == 0 || history[0].counts_at(now, window) {
        history
    } else {
        recent(history.drop_first(), now, window)
    }
}

/// Law: in a history in order of time, exactly the measurements that count stay, in their order.
pub proof fn law_window_keeps_what_counts(
    history: Seq<LatencyMeasurement>,
    now: Instant,
    window: Duration,
)
    requires
        forall|i: int, j: int|
            0 <= i <= j < history.len() ==> #[trigger] history[i].timestamp.nanos
                <= #[trigger] history[j].timestamp.nanos,
    ensures
        recent(history, now, window) == history.filter(
            |m: LatencyMeasurement| m.counts_at(now, window),
        ),
    decreases history.len(),
{
    let counts = |m: LatencyMeasurement| m.counts_at(now, window);
    if history.len() == 0 {
        reveal(Seq::filter);
    } else if history[0].counts_at(now, window) {
        assert forall|i: int| 0 <= i < history.len() implies #[trigger] counts(history[i]) by {
            assert(history[0].timestamp.nanos <= history[i].timestamp.nanos);
        }
        lemma_filter_of_all(history, counts);
    } else {
        let rest = history.drop_first();
        assert forall|i: int, j: int| 0 <= i <= j < rest.len() implies #[trigger] rest[i].timestamp.nanos
            <= #[trigger] rest[j].timestamp.nanos by {
            assert(history[i + 1].timestamp.nanos <= history[j + 1].timestamp.nanos);
        }
        law_window_keeps_what_counts(rest, now, window);
        assert(history =~= seq![history[0]] + rest);
        lemma_filter_of_one_less(history, counts);
    }
}

proof fn lemma_filter_of_all<A>(s: Seq<A>, keep: spec_fn(A) -> bool)
    requires
        forall|i: int| 0 <= i < s.len() ==> #[trigger] keep(s[i]),
    ensures
        s.filter(keep) == s,
    decreases s.len(),
{
    reveal(Seq::filter);
    if s.len() > 0 {
        let front = s.drop_last();
        assert forall|i: int| 0 <= i < front.len() implies #[trigger] keep(front[i]) by {
            assert(keep(s[i]));
        }
        lemma_filter_of_all(front, keep);
        assert(keep(s[s.len() - 1]));
        assert(front.push(s.last()) =~= s);
    }
}

proof fn lemma_filter_of_one_less<A>(s: Seq<A>, keep: spec_fn(A) -> bool)
    requires
        s.len() > 0,
        !keep(s[0]),
    ensures
        s.filter(keep) == s.drop_first().filter(keep),
    decreases s.len(),
{
    reveal(Seq::filter);
    if s.len() > 1 {
        let front = s.drop_last();
        lemma_filter_of_one_less(front, keep);
        assert(s.drop_first().drop_last() =~= front.drop_first());
        assert(s.drop_first().last() == s.last());
    } else {
        assert(s.drop_first() =~= Seq::<A>::empty());
        assert(s.drop_last() =~= Seq::<A>::empty());
    }
}

/// The latencies of a history, in nanoseconds.
pub open spec fn latencies_of(history: Seq<LatencyMeasurement>) -> Seq<u64> {
    history.map_values(|m: LatencyMeasurement| m.latency.nanos)
}

/// The latency that `per_mille` thousandths of the latencies do not exceed.
pub open spec fn percentile_of(values: Seq<u64>, per_mille: int) -> Option<Duration> {
    if values.len() == 0 {
        None
    } else {
        Some(Duration { nanos: sorted(values)[rank(values.len() as int, per_mille)] })
    }
}

/// Law: a percentile is the least held latency that the named share of the held latencies does not
/// exceed.
pub proof fn law_percentile_covers_its_share(values: Seq<u64>, per_mille: int)
    requires
        values.len() > 0,
        0 < per_mille <= 1000,
    ensures
        percentile_of(values, per_mille) is Some,
        values.contains(percentile_of(values, per_mille).unwrap().nanos),
        1000 * at_most(values, percentile_of(values, per_mille).unwrap().nanos) >= per_mille
            * values.len(),
        forall|latency: u64| #[trigger]
            values.contains(latency) && latency < percentile_of(values, per_mille).unwrap().nanos
                ==> 1000 * at_most(values, latency) < per_mille * values.len(),
{
    law_rank_marks_the_share(values, per_mille);
}

/// Law: the percentiles lie in order between the least and the greatest latency.
pub proof fn law_percentiles_are_ordered(values: Seq<u64>, least: u64, greatest: u64)
    requires
        is_least(least, values),
        is_greatest(greatest, values),
    ensures
        least <= percentile_of(values, P50 as int).unwrap().nanos,
        percentile_of(values, P50 as int).unwrap().nanos <= percentile_of(
            values,
            P95 as int,
        ).unwrap().nanos,
        percentile_of(values, P95 as int).unwrap().nanos <= percentile_of(
            values,
            P99 as int,
        ).unwrap().nanos,
        percentile_of(values, P99 as int).unwrap().nanos <= percentile_of(
            values,
            P999 as int,
        ).unwrap().nanos,
        percentile_of(values, P999 as int).unwrap().nanos <= greatest,
{
    let n = values.len() as int;
    assert(n > 0);
    law_ranks_are_ordered(n, P50 as int, P95 as int);
    law_ranks_are_ordered(n, P95 as int, P99 as int);
    law_ranks_are_ordered(n, P99 as int, P999 as int);
    law_order_runs_from_least_to_greatest(values, least, greatest, rank(n, P50 as int));
    law_order_runs_from_least_to_greatest(values, least, greatest, rank(n, P999 as int));
    law_sorting_keeps_the_numbers(values);
}

/// Statistics of one class.
#[derive(Debug, Clone)]
pub struct Metrics {
    pub priority: Priority,
    /// Packets measured since the start.
    pub packet_count: u64,
    /// The measurements that count, oldest first.
    pub latencies: VecDeque<LatencyMeasurement>,
    /// Packets since the start that came out after their deadline.
    pub deadline_misses: u64,
    /// How long a measurement counts.
    pub time_window: Duration,
}

/// What the statistics of a class hold.
pub struct MetricsView {
    pub priority: Priority,
    pub packet_count: u64,
    pub latencies: Seq<LatencyMeasurement>,
    pub deadline_misses: u64,
    pub time_window: Duration,
}

impl MetricsView {
    /// Statistics of a class before any measurement.
    pub open spec fn fresh(priority: Priority) -> MetricsView {
        MetricsView {
            priority,
            packet_count: 0,
            latencies: Seq::empty(),
            deadline_misses: 0,
            time_window: Duration { nanos: (TIME_WINDOW_SECS * NANOS_PER_SEC) as u64 },
        }
    }

    /// The latencies that count, in nanoseconds, oldest first.
    pub open spec fn values(self) -> Seq<u64> {
        latencies_of(self.latencies)
    }

    /// The statistics once the old measurements are dropped at `now`.
    pub open spec fn cleaned(self, now: Instant) -> MetricsView {
        MetricsView { latencies: recent(self.latencies, now, self.time_window), ..self }
    }

    /// The statistics once a latency measured at `now` is taken in.
    pub open spec fn recorded(
        self,
        latency: Duration,
        deadline_missed: bool,
        now: Instant,
    ) -> MetricsView {
        MetricsView {
            packet_count: advanced(self.packet_count, 1),
            latencies: recent(
                self.latencies.push(LatencyMeasurement { latency, timestamp: now }),
                now,
                self.time_window,
            ),
            deadline_misses: if deadline_missed {
                advanced(self.deadline_misses, 1)
            } else {
                self.deadline_misses
            },
            ..self
        }
    }
}

impl View for Metrics {
    type V = MetricsView;

    open spec fn view(&self) -> MetricsView {
        MetricsView {
            priority: self.priority,
            packet_count: self.packet_count,
            latencies: self.latencies@,
            deadline_misses: self.deadline_misses,
            time_window: self.time_window,
        }
    }
}

impl Metrics {

    /// Empty statistics of a class, for measurements of the last ten seconds.
    pub fn new(priority: Priority) -> (metrics: Metrics)
        ensures
            metrics@ == MetricsView::fresh(priority),
    {
        Metrics {
            priority,
            packet_count: 0,
            latencies: VecDeque::new(),
            deadline_misses: 0,
            time_window: Duration::from_secs(TIME_WINDOW_SECS),
        }
    }

    /// Takes in a latency measured at `now`, and drops the measurements that no longer count.
    pub fn record_latency(&mut self, latency: Duration, deadline_missed: bool, now: Instant)
        ensures
            final(self)@ == old(self)@.recorded(latency, deadline_missed, now),
    {
        self.packet_count = bump(self.packet_count);
        self.latencies.push_back(LatencyMeasurement { latency, timestamp: now });
        self.cleanup_old_measurements(now);
        if deadline_missed {
            self.deadline_misses = bump(self.deadline_misses);
        }
    }

    /// Drops the measurements that no longer count at `now`.
    pub fn cleanup_old_measurements(&mut self, now: Instant)
        ensures
            final(self)@ == old(self)@.cleaned(now),
    {
        let mut more: bool = true;
        while more
            invariant
                recent(self.latencies@, now, self.time_window) == recent(
                    old(self).latencies@,
                    now,
                    old(self).time_window,
                ),
                !more ==> self.latencies@ == recent(self.latencies@, now, self.time_window),
                self.priority == old(self).priority,
                self.packet_count == old(self).packet_count,
                self.deadline_misses == old(self).deadline_misses,
                self.time_window == old(self).time_window,
            decreases self.latencies@.len(), (if more { 1int } else { 0 }),
        {
            if self.latencies.len() == 0 {
                more = false;
            } else {
                let timestamp: u64 = self.latencies[0].timestamp.nanos;
                if now.nanos <= timestamp || now.nanos - timestamp <= self.time_window.nanos {
                    more = false;
                } else {
                    let ghost before = self.latencies@;
                    let _ = self.latencies.pop_front();
                    assert(self.latencies@ =~= before.drop_first());
                }
            }
        }
    }

    /// The latencies that count, in nanoseconds, oldest first.
    fn collect(&self) -> (values: Vec<u64>)
        ensures
            values@ == self@.values(),
    {
        let mut values: Vec<u64> = Vec::new();
        let mut i: usize = 0;
        while i < self.latencies.len()
            invariant
                i <= self.latencies@.len(),
                values@ == latencies_of(self.latencies@.take(i as int)),
            decreases self.latencies@.len() - i,
        {
            let nanos: u64 = self.latencies[i].latency.nanos;
            values.push(nanos);
            assert(latencies_of(self.latencies@.take(i + 1)) =~= latencies_of(
                self.latencies@.take(i as int),
            ).push(nanos));
            i = i + 1;
        }
        assert(self.latencies@.take(i as int) =~= self.latencies@);
        values
    }

    /// Mean of the latencies, or zero where there is none.
    pub fn average_latency(&self) -> (average: Duration)
        ensures
            self@.values().len() > 0 ==> average.nanos == mean(self@.values()),
            self@.values().len() == 0 ==> average.nanos == 0,
    {
        let values = self.collect();
        if values.len() == 0 {
            Duration { nanos: 0 }
        } else {
            Duration { nanos: compute_mean(&values) }
        }
    }

    /// Standard deviation of the latencies, where there are at least two.
    pub fn standard_deviation(&self) -> (deviation: Option<Duration>)
        ensures
            match deviation {
                Some(d) => self@.values().len() >= 2 && is_deviation(d.nanos as int, self@.values()),
                None => self@.values().len() < 2,
            },
    {
        let values = self.collect();
        if values.len() < 2 {
            None
        } else {
            Some(Duration { nanos: compute_deviation(&values) })
        }
    }

    /// The least latency, where there is any.
    pub fn min_latency(&self) -> (least: Option<Duration>)
        ensures
            match least {
                Some(d) => is_least(d.nanos, self@.values()),
                None => self@.values().len() == 0,
            },
    {
        let values = self.collect();
        if values.len() == 0 {
            None
        } else {
            Some(Duration { nanos: find_least(&values) })
        }
    }

    /// The greatest latency, where there is any.
    pub fn max_latency(&self) -> (greatest: Option<Duration>)
        ensures
            match greatest {
                Some(d) => is_greatest(d.nanos, self@.values()),
                None => self@.values().len() == 0,
            },
    {
        let values = self.collect();
        if values.len() == 0 {
            None
        } else {
            Some(Duration { nanos: find_greatest(&values) })
        }
    }

    /// The latencies in order.
    fn ordered(&self) -> (values: Vec<u64>)
        ensures
            values@ == sorted(self@.values()),
            values@.len() == self@.values().len(),
    {
        let values = self.collect();
        proof {
            law_sorting_keeps_the_numbers(values@);
        }
        sort(&values)
    }

    /// The median latency, where there is any.
    pub fn p50(&self) -> (latency: Option<Duration>)
        ensures
            latency == percentile_of(self@.values(), P50 as int),
    {
        pick(&self.ordered(), P50)
    }

    /// The latency that 95 of 100 latencies do not exceed, where there is any.
    pub fn p95(&self) -> (latency: Option<Duration>)
        ensures
            latency == percentile_of(self@.values(), P95 as int),
    {
        pick(&self.ordered(), P95)
    }

    /// The latency that 99 of 100 latencies do not exceed, where there is any.
    pub fn p99(&self) -> (latency: Option<Duration>)
        ensures
            latency == percentile_of(self@.values(), P99 as int),
    {
        pick(&self.ordered(), P99)
    }

    /// The latency that 999 of 1000 latencies do not exceed, where there is any.
    pub fn p999(&self) -> (latency: Option<Duration>)
        ensures
            latency == percentile_of(self@.values(), P999 as int),
    {
        pick(&self.ordered(), P999)
    }
}

/// The latency of a rank among latencies in order.
fn pick(ordered: &Vec<u64>, per_mille: u64) -> (latency: Option<Duration>)
    requires
        0 < per_mille <= 1000,
    ensures
        match latency {
            Some(d) => ordered@.len() > 0 && d.nanos == ordered@[rank(
                ordered@.len() as int,
                per_mille as int,
            )],
            None => ordered@.len() == 0,
        },
{
    if ordered.len() == 0 {
        None
    } else {
        let at: usize = compute_rank(ordered.len(), per_mille);
        Some(Duration { nanos: ordered[at] })
    }
}

impl Default for Metrics {
    fn default() -> (metrics: Metrics)
        ensures
            metrics@ == MetricsView::fresh(Priority::High),
    {
        Metrics::new(Priority::High)
    }
}

/// What is recorded of a packet on its way out.
#[derive(Debug, Clone, Copy, PartialEq, Eq, Structural)]
pub struct MetricsEvent {
    pub priority: Priority,
    /// Time from the packet's arrival to its departure.
    pub latency: Duration,
    /// Whether the packet came out after its deadline.
    pub deadline_missed: bool,
}

/// Report on one class.
#[derive(Debug, Clone)]
pub struct MetricsSnapshot {
    pub priority: Priority,
    pub packet_count: u64,
    pub avg_latency: Duration,
    pub min_latency: Option<Duration>,
    pub max_latency: Option<Duration>,
    pub p50: Option<Duration>,
    pub p95: Option<Duration>,
    pub p99: Option<Duration>,
    pub p999: Option<Duration>,
    /// The greatest latency.
    pub p100: Option<Duration>,
    pub std_dev: Option<Duration>,
    pub deadline_misses: u64,
    /// Latency budget of the class.
    pub expected_max_latency: Duration,
    pub queue1_occupancy: usize,
    pub queue1_capacity: usize,
    pub queue2_occupancy: usize,
    pub queue2_capacity: usize,
    pub worker_queue_depths: Vec<usize>,
    pub worker_queue_capacities: Vec<usize>,
    pub dispatcher_backlog: usize,
    pub worker_priority_depths: Vec<Vec<usize>>,
    /// Packets of the class lost between the sockets and the scheduler.
    pub ingress_drops: u64,
    /// Packets lost inside the scheduler, of whatever class.
    pub edf_heap_drops: u64,
    /// Packets of the class lost behind the scheduler.
    pub edf_output_drops: u64,
    pub total_drops: u64,
}

/// Report on the workers of a scheduler that has several.
#[derive(Debug, Clone)]
pub struct WorkerLoadSnapshot {
    pub worker_queue_depths: Vec<usize>,
    pub worker_queue_capacities: Vec<usize>,
    pub dispatcher_backlog: usize,
    pub worker_priority_depths: Vec<Vec<usize>>,
}

impl Default for WorkerLoadSnapshot {
    fn default() -> (load: WorkerLoadSnapshot)
        ensures
            load.worker_queue_depths@.len() == 0,
            load.worker_queue_capacities@.len() == 0,
            load.dispatcher_backlog == 0,
            load.worker_priority_depths@.len() == 0,
    {
        WorkerLoadSnapshot {
            worker_queue_depths: Vec::new(),
            worker_queue_capacities: Vec::new(),
            dispatcher_backlog: 0,
            worker_priority_depths: Vec::new(),
        }
    }
}

/// The rows of a table.
pub open spec fn rows(table: Vec<Vec<usize>>) -> Seq<Seq<usize>> {
    table@.map_values(|row: Vec<usize>| row@)
}

fn copy_row(row: &Vec<usize>) -> (copy: Vec<usize>)
    ensures
        copy@ == row@,
{
    let mut copy: Vec<usize> = Vec::new();
    let mut i: usize = 0;
    while i < row.len()
        invariant
            i <= row@.len(),
            copy@ == row@.take(i as int),
        decreases row@.len() - i,
    {
        copy.push(row[i]);
        i = i + 1;
        assert(copy@ =~= row@.take(i as int));
    }
    assert(row@.take(i as int) =~= row@);
    copy
}

fn copy_rows(table: &Vec<Vec<usize>>) -> (copy: Vec<Vec<usize>>)
    ensures
        rows(copy) == rows(*table),
{
    let mut copy: Vec<Vec<usize>> = Vec::new();
    let mut i: usize = 0;
    while i < table.len()
        invariant
            i <= table@.len(),
            copy@.len() == i,
            forall|j: int| 0 <= j < i ==> (#[trigger] copy@[j])@ == table@[j]@,
        decreases table@.len() - i,
    {
        copy.push(copy_row(&table[i]));
        i = i + 1;
    }
    assert(rows(copy) =~= rows(*table));
    copy
}

/// Packets lost of a class and what to expect of it.
#[derive(Debug, Clone, Copy)]
pub struct ClassReport {
    pub expected_max_latency: Duration,
    pub ingress_drops: u64,
    pub edf_heap_drops: u64,
    pub edf_output_drops: u64,
}

/// Sum of counters, starting over after the largest `u64`.
pub open spec fn total_drops(report: ClassReport) -> u64 {
    advanced(report.ingress_drops, (report.edf_heap_drops + report.edf_output_drops) as nat)
}

impl MetricsSnapshot {
    /// Whether the snapshot repeats the report on the workers; without one it shows none.
    pub open spec fn shows_workers(self, workers: Option<WorkerLoadSnapshot>) -> bool {
        match workers {
            Some(load) => {
                &&& self.worker_queue_depths@ == load.worker_queue_depths@
                &&& self.worker_queue_capacities@ == load.worker_queue_capacities@
                &&& self.dispatcher_backlog == load.dispatcher_backlog
                &&& rows(self.worker_priority_depths) == rows(load.worker_priority_depths)
            },
            None => {
                &&& self.worker_queue_depths@.len() == 0
                &&& self.worker_queue_capacities@.len() == 0
                &&& self.dispatcher_backlog == 0
                &&& self.worker_priority_depths@.len() == 0
            },
        }
    }

    /// Whether the snapshot shows these statistics and this report.
    pub open spec fn shows(
        self,
        metrics: MetricsView,
        report: ClassReport,
        workers: Option<WorkerLoadSnapshot>,
    ) -> bool {
        let values = metrics.values();
        &&& self.priority == metrics.priority
        &&& self.packet_count == metrics.packet_count
        &&& self.avg_latency.nanos == if values.len() > 0 {
            mean(values)
        } else {
            0
        }
        &&& match self.min_latency {
            Some(d) => is_least(d.nanos, values),
            None => values.len() == 0,
        }
        &&& match self.max_latency {
            Some(d) => is_greatest(d.nanos, values),
            None => values.len() == 0,
        }
        &&& self.p50 == percentile_of(values, P50 as int)
        &&& self.p95 == percentile_of(values, P95 as int)
        &&& self.p99 == percentile_of(values, P99 as int)
        &&& self.p999 == percentile_of(values, P999 as int)
        &&& self.p100 == self.max_latency
        &&& match self.std_dev {
            Some(d) => values.len() >= 2 && is_deviation(d.nanos as int, values),
            None => values.len() < 2,
        }
        &&& self.deadline_misses == metrics.deadline_misses
        &&& self.expected_max_latency == report.expected_max_latency
        &&& self.queue1_occupancy == 0 && self.queue1_capacity == 0
        &&& self.queue2_occupancy == 0 && self.queue2_capacity == 0
        &&& self.shows_workers(workers)
        &&& self.ingress_drops == report.ingress_drops
        &&& self.edf_heap_drops == report.edf_heap_drops
        &&& self.edf_output_drops == report.edf_output_drops
        &&& self.total_drops == total_drops(report)
    }
}

/// Makes a snapshot of the statistics of a class.
pub fn take_snapshot(
    metrics: &Metrics,
    report: ClassReport,
    workers: &Option<WorkerLoadSnapshot>,
) -> (snapshot: MetricsSnapshot)
    ensures
        snapshot.shows(metrics@, report, *workers),
{
    let ordered = metrics.ordered();
    let load = match workers {
        Some(load) => WorkerLoadSnapshot {
            worker_queue_depths: copy_row(&load.worker_queue_depths),
            worker_queue_capacities: copy_row(&load.worker_queue_capacities),
            dispatcher_backlog: load.dispatcher_backlog,
            worker_priority_depths: copy_rows(&load.worker_priority_depths),
        },
        None => WorkerLoadSnapshot::default(),
    };
    let greatest = metrics.max_latency();
    MetricsSnapshot {
        priority: metrics.priority,
        packet_count: metrics.packet_count,
        avg_latency: metrics.average_latency(),
        min_latency: metrics.min_latency(),
        max_latency: greatest,
        p50: pick(&ordered, P50),
        p95: pick(&ordered, P95),
        p99: pick(&ordered, P99),
        p999: pick(&ordered, P999),
        p100: greatest,
        std_dev: metrics.standard_deviation(),
        deadline_misses: metrics.deadline_misses,
        expected_max_latency: report.expected_max_latency,
        queue1_occupancy: 0,
        queue1_capacity: 0,
        queue2_occupancy: 0,
        queue2_capacity: 0,
        worker_queue_depths: load.worker_queue_depths,
        worker_queue_capacities: load.worker_queue_capacities,
        dispatcher_backlog: load.dispatcher_backlog,
        worker_priority_depths: load.worker_priority_depths,
        ingress_drops: report.ingress_drops,
        edf_heap_drops: report.edf_heap_drops,
        edf_output_drops: report.edf_output_drops,
        total_drops: report.ingress_drops.wrapping_add(report.edf_heap_drops).wrapping_add(
            report.edf_output_drops,
        ),
    }
}

/// Most events that wait to be taken in.
pub const EVENT_CAPACITY: usize = 10_000;

/// Most events that are taken in at once.
pub const EVENT_BATCH: usize = 100;

/// What the statistics of a class hold once `events`, of whatever class, are taken in at `now`. They
/// start with the first event of the class.
pub open spec fn after_events(
    before: Option<MetricsView>,
    priority: Priority,
    events: Seq<MetricsEvent>,
    now: Instant,
) -> Option<MetricsView>
    decreases events.len(),
{
    if events.len() == 0 {
        before
    } else {
        after_event(
            after_events(before, priority, events.drop_last(), now),
            priority,
            events.last(),
            now,
        )
    }
}

/// What the statistics of a class hold once an event, of whatever class, is taken in at `now`.
pub open spec fn after_event(
    before: Option<MetricsView>,
    priority: Priority,
    event: MetricsEvent,
    now: Instant,
) -> Option<MetricsView> {
    if event.priority == priority {
        let metrics = match before {
            Some(metrics) => metrics,
            None => MetricsView::fresh(priority),
        };
        Some(metrics.recorded(event.latency, event.deadline_missed, now))
    } else {
        before
    }
}

/// Whether these are the only ends of an event channel that carries what one sends to the other.
pub open spec fn paired(tx: Sender<MetricsEvent>, rx: Receiver<MetricsEvent>) -> bool {
    event_ends(tx, rx) && events_taken(rx).len() <= events_sent(tx).len()
}

/// The views of a table of statistics.
pub open spec fn view_at(table: PriorityTable<Option<Metrics>>, priority: Priority) -> Option<
    MetricsView,
> {
    match table.at(priority) {
        Some(metrics) => Some(metrics@),
        None => None,
    }
}

/// Where events are recorded.
pub struct MetricsRecorder {
    pub events_tx: Sender<MetricsEvent>,
}

impl MetricsRecorder {
    /// Records a packet without waiting. Where too many events wait already, this one is left out.
    pub fn record_packet(&mut self, priority: Priority, latency: Duration, deadline_missed: bool)
        ensures
            events_offered(final(self).events_tx) == events_offered(old(self).events_tx).push(
                (MetricsEvent { priority, latency, deadline_missed }),
            ),
            events_sent(final(self).events_tx) == events_sent(old(self).events_tx).push(
                (MetricsEvent { priority, latency, deadline_missed }),
            ) || events_sent(final(self).events_tx) == events_sent(old(self).events_tx),
            event_limit(final(self).events_tx) == event_limit(old(self).events_tx),
    {
        let _ = try_send_event(
            &mut self.events_tx,
            None,
            MetricsEvent { priority, latency, deadline_missed },
        );
    }
}

/// Where events are taken in and reported on.
pub struct MetricsAggregator {
    pub events_rx: Receiver<MetricsEvent>,
    /// Statistics of each class of which an event was taken in.
    pub metrics: PriorityTable<Option<Metrics>>,
    pub metrics_tx: Sender<HashMap<u64, MetricsSnapshot>>,
    /// Report on the workers, where the scheduler has several.
    pub worker_stats: Option<WorkerLoadSnapshot>,
}

/// What taking in a batch came to.
#[derive(Debug, Clone, Copy, PartialEq, Eq, Structural)]
pub struct Batch {
    pub count: usize,
    /// Whether no event can come any more.
    pub closed: bool,
}

/// The events that a receiving handle took between two moments, oldest first.
pub open spec fn events_got(
    before: Receiver<MetricsEvent>,
    after: Receiver<MetricsEvent>,
) -> Seq<MetricsEvent> {
    events_taken(after).skip(events_taken(before).len() as int)
}

/// What a receiving handle gave when it was asked for events between two moments, where every call
/// gave one.
pub open spec fn replies_so_far(
    before: Receiver<MetricsEvent>,
    after: Receiver<MetricsEvent>,
) -> Seq<Result<MetricsEvent, RecvFailure>> {
    event_replies(before) + events_got(before, after).map_values(
        |event: MetricsEvent| Ok::<MetricsEvent, RecvFailure>(event),
    )
}

/// Whether events were asked for until a batch was full, or until none came; `closed` tells whether
/// none can come any more.
pub open spec fn took_batch(
    before: Receiver<MetricsEvent>,
    after: Receiver<MetricsEvent>,
    closed: bool,
) -> bool {
    ||| events_got(before, after).len() == EVENT_BATCH && !closed && event_replies(after)
        == replies_so_far(before, after)
    ||| event_replies(after) == replies_so_far(before, after).push(
        Err(
            if closed {
                RecvFailure::Disconnected
            } else {
                RecvFailure::Empty
            },
        ),
    )
}

/// The report on the workers that their statistics make.
pub open spec fn reported(stats: Option<MultiWorkerStats>) -> Option<WorkerLoadSnapshot> {
    match stats {
        Some(load) => Some(
            WorkerLoadSnapshot {
                worker_queue_depths: load.worker_queue_depths,
                worker_queue_capacities: load.worker_queue_capacities,
                dispatcher_backlog: load.dispatcher_backlog,
                worker_priority_depths: load.worker_priority_depths,
            },
        ),
        None => None,
    }
}

impl MetricsAggregator {
    /// Takes an event into the statistics of its class.
    pub fn apply(&mut self, event: MetricsEvent, now: Instant)
        ensures
            forall|p: Priority| #[trigger]
                view_at(final(self).metrics, p) == after_event(
                    view_at(old(self).metrics, p),
                    p,
                    event,
                    now,
                ),
            final(self).events_rx == old(self).events_rx,
            final(self).metrics_tx == old(self).metrics_tx,
            final(self).worker_stats == old(self).worker_stats,
    {
        let slot = self.metrics.get_mut(event.priority);
        let mut metrics = match slot.take() {
            Some(metrics) => metrics,
            None => Metrics::new(event.priority),
        };
        metrics.record_latency(event.latency, event.deadline_missed, now);
        *slot = Some(metrics);
        proof {
            assert forall|p: Priority| #[trigger] view_at(self.metrics, p) == after_event(
                view_at(old(self).metrics, p),
                p,
                event,
                now,
            ) by {
                if p != event.priority {
                    assert(self.metrics.at(p) == old(self).metrics.at(p));
                }
            }
        }
    }

    /// Takes in up to [`EVENT_BATCH`] events that wait. With the sending end at hand, and neither
    /// end cloned, these are the oldest ones.
    pub fn process_events(&mut self, peer: Option<&Sender<MetricsEvent>>, now: Instant) -> (batch:
        Batch)
        ensures
            events_taken(old(self).events_rx).is_prefix_of(events_taken(final(self).events_rx)),
            batch.count <= EVENT_BATCH,
            batch.count == events_got(old(self).events_rx, final(self).events_rx).len(),
            took_batch(old(self).events_rx, final(self).events_rx, batch.closed),
            forall|p: Priority| #[trigger]
                view_at(final(self).metrics, p) == after_events(
                    view_at(old(self).metrics, p),
                    p,
                    events_got(old(self).events_rx, final(self).events_rx),
                    now,
                ),
            peer matches Some(tx) ==> (paired(*tx, old(self).events_rx) ==> {
                &&& paired(*tx, final(self).events_rx)
                &&& events_got(old(self).events_rx, final(self).events_rx) == events_in_flight(
                    *tx,
                    old(self).events_rx,
                ).take(batch.count as int)
                &&& batch.count == min_of(
                    events_in_flight(*tx, old(self).events_rx).len() as int,
                    EVENT_BATCH as int,
                )
                &&& !batch.closed
            }),
            final(self).metrics_tx == old(self).metrics_tx,
            final(self).worker_stats == old(self).worker_stats,
    {
        let ghost rx0 = self.events_rx;
        let ghost table0 = self.metrics;
        let ghost linked = peer matches Some(tx) && paired(*tx, rx0);
        let mut count: usize = 0;
        let mut closed: bool = false;
        let mut more: bool = true;
        proof {
            assert(events_got(rx0, rx0) =~= Seq::<MetricsEvent>::empty());
            assert(replies_so_far(rx0, rx0) =~= event_replies(rx0));
            if linked {
                assert(events_in_flight(*peer.unwrap(), rx0).take(0) =~= Seq::<
                    MetricsEvent,
                >::empty());
            }
        }
        while more && count < EVENT_BATCH
            invariant
                count <= EVENT_BATCH,
                rx0 == old(self).events_rx,
                table0 == old(self).metrics,
                events_taken(rx0).is_prefix_of(events_taken(self.events_rx)),
                count == events_got(rx0, self.events_rx).len(),
                more ==> !closed && event_replies(self.events_rx) == replies_so_far(
                    rx0,
                    self.events_rx,
                ),
                !more ==> event_replies(self.events_rx) == replies_so_far(
                    rx0,
                    self.events_rx,
                ).push(
                    Err(
                        if closed {
                            RecvFailure::Disconnected
                        } else {
                            RecvFailure::Empty
                        },
                    ),
                ),
                forall|p: Priority| #[trigger]
                    view_at(self.metrics, p) == after_events(
                        view_at(table0, p),
                        p,
                        events_got(rx0, self.events_rx),
                        now,
                    ),
                linked == (peer matches Some(tx) && paired(*tx, rx0)),
                linked ==> {
                    let tx = *peer.unwrap();
                    &&& paired(tx, self.events_rx)
                    &&& events_got(rx0, self.events_rx) == events_in_flight(tx, rx0).take(
                        count as int,
                    )
                    &&& count <= events_in_flight(tx, rx0).len()
                    &&& !more ==> count == events_in_flight(tx, rx0).len()
                    &&& !closed
                },
                self.metrics_tx == old(self).metrics_tx,
                self.worker_stats == old(self).worker_stats,
            decreases EVENT_BATCH - count, (if more { 1int } else { 0 }),
        {
            let ghost rx1 = self.events_rx;
            let ghost table1 = self.metrics;
            match try_recv_event(&mut self.events_rx, peer) {
                Ok(event) => {
                    self.apply(event, now);
                    count = count + 1;
                    proof {
                        let rx2 = self.events_rx;
                        assert(events_got(rx0, rx2) =~= events_got(rx0, rx1).push(event));
                        assert(replies_so_far(rx0, rx2) =~= replies_so_far(rx0, rx1).push(
                            Ok(event),
                        ));
                        assert forall|p: Priority| #[trigger]
                            view_at(self.metrics, p) == after_events(
                                view_at(table0, p),
                                p,
                                events_got(rx0, rx2),
                                now,
                            ) by {
                            let came = events_got(rx0, rx1);
                            assert(came.push(event).drop_last() =~= came);
                            assert(view_at(table1, p) == after_events(
                                view_at(table0, p),
                                p,
                                came,
                                now,
                            ));
                        }
                        if linked {
                            let tx = *peer.unwrap();
                            assert(events_got(rx0, rx2) =~= events_in_flight(tx, rx0).take(
                                count as int,
                            ));
                        }
                    }
                },
                Err(why) => {
                    more = false;
                    closed = why == RecvFailure::Disconnected;
                    proof {
                        assert(events_got(rx0, self.events_rx) =~= events_got(rx0, rx1));
                    }
                },
            }
        }
        Batch { count, closed }
    }

    /// Replaces the report on the workers.
    pub fn update_worker_stats(&mut self, stats: Option<MultiWorkerStats>)
        ensures
            final(self).worker_stats == reported(stats),
            match stats {
                Some(load) => {
                    &&& final(self).worker_stats is Some
                    &&& final(self).worker_stats.unwrap().worker_queue_depths
                        == load.worker_queue_depths
                    &&& final(self).worker_stats.unwrap().worker_queue_capacities
                        == load.worker_queue_capacities
                    &&& final(self).worker_stats.unwrap().dispatcher_backlog
                        == load.dispatcher_backlog
                    &&& final(self).worker_stats.unwrap().worker_priority_depths
                        == load.worker_priority_depths
                },
                None => final(self).worker_stats is None,
            },
            final(self).events_rx == old(self).events_rx,
            final(self).metrics == old(self).metrics,
            final(self).metrics_tx == old(self).metrics_tx,
    {
        self.worker_stats = match stats {
            Some(load) => Some(
                WorkerLoadSnapshot {
                    worker_queue_depths: load.worker_queue_depths,
                    worker_queue_capacities: load.worker_queue_capacities,
                    dispatcher_backlog: load.dispatcher_backlog,
                    worker_priority_depths: load.worker_priority_depths,
                },
            ),
            None => None,
        };
    }
}

/// What is reported of the drops of a class.
pub open spec fn class_report(
    priority: Priority,
    expected_latencies: PriorityTable<Duration>,
    ingress_drops: Option<PriorityTable<u64>>,
    edf_drops: Option<(u64, PriorityTable<u64>)>,
) -> ClassReport {
    ClassReport {
        expected_max_latency: expected_latencies.at(priority),
        ingress_drops: match ingress_drops {
            Some(table) => table.at(priority),
            None => 0,
        },
        edf_heap_drops: match edf_drops {
            Some((heap, _)) => heap,
            None => 0,
        },
        edf_output_drops: match edf_drops {
            Some((_, table)) => table.at(priority),
            None => 0,
        },
    }
}

fn make_class_report(
    priority: Priority,
    expected_latencies: &PriorityTable<Duration>,
    ingress_drops: &Option<PriorityTable<u64>>,
    edf_drops: &Option<(u64, PriorityTable<u64>)>,
) -> (report: ClassReport)
    ensures
        report == class_report(priority, *expected_latencies, *ingress_drops, *edf_drops),
{
    ClassReport {
        expected_max_latency: *expected_latencies.get(priority),
        ingress_drops: match ingress_drops {
            Some(table) => *table.get(priority),
            None => 0,
        },
        edf_heap_drops: match edf_drops {
            Some((heap, _)) => *heap,
            None => 0,
        },
        edf_output_drops: match edf_drops {
            Some((_, table)) => *table.get(priority),
            None => 0,
        },
    }
}

/// Whether a report holds a snapshot of each class that has statistics, under the class's number,
/// and nothing else.
pub open spec fn covers(
    report: Map<u64, MetricsSnapshot>,
    metrics: PriorityTable<Option<Metrics>>,
    expected_latencies: PriorityTable<Duration>,
    ingress_drops: Option<PriorityTable<u64>>,
    edf_drops: Option<(u64, PriorityTable<u64>)>,
    workers: Option<WorkerLoadSnapshot>,
    classes: int,
) -> bool {
    &&& forall|p: Priority|
        p.rank() < classes && (#[trigger] metrics.at(p)) is Some ==> {
            &&& report.contains_key((p.rank() + 1) as u64)
            &&& report[(p.rank() + 1) as u64].shows(
                metrics.at(p).unwrap()@,
                class_report(p, expected_latencies, ingress_drops, edf_drops),
                workers,
            )
        }
    &&& forall|id: u64| #[trigger]
        report.contains_key(id) ==> exists|p: Priority|
            p.rank() < classes && p.rank() + 1 == id && (#[trigger] metrics.at(p)) is Some
}

impl MetricsAggregator {
    /// Drops the measurements that no longer count at `now`.
    fn clean(&mut self, now: Instant)
        ensures
            forall|p: Priority| #[trigger]
                view_at(final(self).metrics, p) == match view_at(old(self).metrics, p) {
                    Some(metrics) => Some(metrics.cleaned(now)),
                    None => None,
                },
            final(self).events_rx == old(self).events_rx,
            final(self).metrics_tx == old(self).metrics_tx,
            final(self).worker_stats == old(self).worker_stats,
    {
        let mut i: usize = 0;
        while i < 4
            invariant
                i <= 4,
                forall|p: Priority| #[trigger]
                    view_at(self.metrics, p) == if p.rank() < i {
                        match view_at(old(self).metrics, p) {
                            Some(metrics) => Some(metrics.cleaned(now)),
                            None => None,
                        }
                    } else {
                        view_at(old(self).metrics, p)
                    },
                self.events_rx == old(self).events_rx,
                self.metrics_tx == old(self).metrics_tx,
                self.worker_stats == old(self).worker_stats,
            decreases 4 - i,
        {
            let priority = Priority::from_index(i);
            let ghost table1 = self.metrics;
            assert(view_at(table1, priority) == view_at(old(self).metrics, priority));
            let slot = self.metrics.get_mut(priority);
            match slot.take() {
                Some(mut metrics) => {
                    metrics.cleanup_old_measurements(now);
                    *slot = Some(metrics);
                },
                None => {},
            }
            assert forall|p: Priority| #[trigger]
                view_at(self.metrics, p) == if p.rank() < i + 1 {
                    match view_at(old(self).metrics, p) {
                        Some(metrics) => Some(metrics.cleaned(now)),
                        None => None,
                    }
                } else {
                    view_at(old(self).metrics, p)
                } by {
                if p != priority {
                    assert(view_at(self.metrics, p) == view_at(table1, p));
                }
            }
            i = i + 1;
        }
    }

    /// Drops the measurements that no longer count at `now`, and reports on each class that has
    /// statistics, under the class's number.
    pub fn report(
        &mut self,
        expected_latencies: &PriorityTable<Duration>,
        ingress_drops: &Option<PriorityTable<u64>>,
        edf_drops: &Option<(u64, PriorityTable<u64>)>,
        now: Instant,
    ) -> (report: HashMap<u64, MetricsSnapshot>)
        ensures
            forall|p: Priority| #[trigger]
                view_at(final(self).metrics, p) == match view_at(old(self).metrics, p) {
                    Some(metrics) => Some(metrics.cleaned(now)),
                    None => None,
                },
            covers(
                report@,
                final(self).metrics,
                *expected_latencies,
                *ingress_drops,
                *edf_drops,
                old(self).worker_stats,
                4,
            ),
            final(self).events_rx == old(self).events_rx,
            final(self).metrics_tx == old(self).metrics_tx,
            final(self).worker_stats == old(self).worker_stats,
    {
        broadcast use vstd::std_specs::hash::group_hash_axioms;

        self.clean(now);
        let mut report: HashMap<u64, MetricsSnapshot> = HashMap::new();
        let mut i: usize = 0;
        while i < 4
            invariant
                i <= 4,
                covers(
                    report@,
                    self.metrics,
                    *expected_latencies,
                    *ingress_drops,
                    *edf_drops,
                    self.worker_stats,
                    i as int,
                ),
            decreases 4 - i,
        {
            let priority = Priority::from_index(i);
            let ghost report1 = report@;
            match self.metrics.get(priority) {
                Some(metrics) => {
                    let class = make_class_report(
                        priority,
                        expected_latencies,
                        ingress_drops,
                        edf_drops,
                    );
                    let snapshot = take_snapshot(metrics, class, &self.worker_stats);
                    let id: u64 = priority.flow_id();
                    report.insert(id, snapshot);
                    assert(report@ == report1.insert(id, snapshot));
                    assert(self.metrics.at(priority) is Some);
                },
                None => {},
            }
            proof {
                assert forall|id: u64| #[trigger] report@.contains_key(id) implies exists|p: Priority|
                    p.rank() < i + 1 && p.rank() + 1 == id && (#[trigger] self.metrics.at(p)) is Some by {
                    if report1.contains_key(id) {
                        let p = choose|p: Priority|
                            p.rank() < i && p.rank() + 1 == id && (#[trigger] self.metrics.at(
                                p,
                            )) is Some;
                        assert(self.metrics.at(p) is Some);
                    } else {
                        assert(self.metrics.at(priority) is Some);
                    }
                }
            }
            i = i + 1;
        }
        report
    }

    /// Sends a report on all classes to the listeners, without waiting. Where they do not keep up,
    /// it is left out; with the receiving end of a channel without a limit at hand, it is not.
    pub fn send_current_metrics(
        &mut self,
        expected_latencies: &PriorityTable<Duration>,
        ingress_drops: Option<PriorityTable<u64>>,
        edf_drops: Option<(u64, PriorityTable<u64>)>,
        peer: Option<&Receiver<HashMap<u64, MetricsSnapshot>>>,
        now: Instant,
    )
        ensures
            forall|p: Priority| #[trigger]
                view_at(final(self).metrics, p) == match view_at(old(self).metrics, p) {
                    Some(metrics) => Some(metrics.cleaned(now)),
                    None => None,
                },
            exists|report: Map<u64, MetricsSnapshot>| #[trigger]
                covers(
                    report,
                    final(self).metrics,
                    *expected_latencies,
                    ingress_drops,
                    edf_drops,
                    old(self).worker_stats,
                    4,
                ) && offered_report(
                    old(self).metrics_tx,
                    final(self).metrics_tx,
                    report,
                    peer is Some && report_ends(old(self).metrics_tx, *peer.unwrap()),
                ),
            final(self).events_rx == old(self).events_rx,
            final(self).worker_stats == old(self).worker_stats,
    {
        let report = self.report(expected_latencies, &ingress_drops, &edf_drops, now);
        let ghost table = self.metrics;
        let ghost sent = report@;
        let _ = try_send_report(&mut self.metrics_tx, peer, report);
        assert(self.metrics == table);
        assert(covers(
            sent,
            self.metrics,
            *expected_latencies,
            ingress_drops,
            edf_drops,
            old(self).worker_stats,
            4,
        ));
    }
}

/// What sending a report does: it is offered to the channel once, and the channel takes it, unless
/// it is full or closed, which it is not where `room` holds.
pub open spec fn offered_report(
    before: Sender<HashMap<u64, MetricsSnapshot>>,
    after: Sender<HashMap<u64, MetricsSnapshot>>,
    report: Map<u64, MetricsSnapshot>,
    room: bool,
) -> bool {
    &&& reports_offered(after) == reports_offered(before).push(report)
    &&& same_report_ends(before, after)
    &&& {
        ||| reports_sent(after) == reports_sent(before).push(report)
        ||| !room && reports_sent(after) == reports_sent(before)
    }
}

/// Events of a class among `events`.
pub open spec fn events_of(priority: Priority, events: Seq<MetricsEvent>) -> Seq<MetricsEvent> {
    events.filter(|event: MetricsEvent| event.priority == priority)
}

/// Packets that statistics count, if there are any.
pub open spec fn counted(metrics: Option<MetricsView>) -> u64 {
    match metrics {
        Some(metrics) => metrics.packet_count,
        None => 0,
    }
}

/// Law: every event of a class counts as one packet of the class, and events of other classes do
/// not. A class has statistics once it had an event.
pub proof fn law_every_event_counts(
    before: Option<MetricsView>,
    priority: Priority,
    events: Seq<MetricsEvent>,
    now: Instant,
)
    ensures
        counted(after_events(before, priority, events, now)) == advanced(
            counted(before),
            events_of(priority, events).len(),
        ),
        after_events(before, priority, events, now) is Some == (before is Some || events_of(
            priority,
            events,
        ).len() > 0),
    decreases events.len(),
{
    reveal(Seq::filter);
    if events.len() > 0 {
        law_every_event_counts(before, priority, events.drop_last(), now);
    }
}

/// Collects what is recorded and reports on it. The two parts share nothing but the channel between
/// them, so each can be used on a thread of its own.
pub struct MetricsCollector {
    pub recorder: MetricsRecorder,
    pub aggregator: MetricsAggregator,
}

impl MetricsCollector {
    /// Whether what is recorded comes in.
    pub open spec fn linked(&self) -> bool {
        paired(self.recorder.events_tx, self.aggregator.events_rx)
    }

    /// Events that were recorded and not taken in yet.
    pub open spec fn waiting(&self) -> Seq<MetricsEvent> {
        events_in_flight(self.recorder.events_tx, self.aggregator.events_rx)
    }

    /// A collector without statistics, whose reports go to `metrics_tx`.
    pub fn new(metrics_tx: Sender<HashMap<u64, MetricsSnapshot>>) -> (collector: MetricsCollector)
        ensures
            collector.linked(),
            collector.waiting() == Seq::<MetricsEvent>::empty(),
            event_limit(collector.recorder.events_tx) == EVENT_CAPACITY,
            forall|p: Priority| (#[trigger] collector.aggregator.metrics.at(p)) is None,
            collector.aggregator.metrics_tx == metrics_tx,
            collector.aggregator.worker_stats is None,
    {
        let (events_tx, events_rx) = event_channel(EVENT_CAPACITY);
        assert(events_in_flight(events_tx, events_rx) =~= Seq::<MetricsEvent>::empty());
        MetricsCollector {
            recorder: MetricsRecorder { events_tx },
            aggregator: MetricsAggregator {
                events_rx,
                metrics: PriorityTable::of(None, None, None, None),
                metrics_tx,
                worker_stats: None,
            },
        }
    }

    /// Records a packet without waiting. The event is left out exactly where as many wait as the
    /// channel holds.
    pub fn record_packet(&mut self, priority: Priority, latency: Duration, deadline_missed: bool)
        requires
            old(self).linked(),
        ensures
            final(self).linked(),
            final(self).waiting() == if old(self).waiting().len() < event_limit(
                old(self).recorder.events_tx,
            ) {
                old(self).waiting().push((MetricsEvent { priority, latency, deadline_missed }))
            } else {
                old(self).waiting()
            },
            event_limit(final(self).recorder.events_tx) == event_limit(
                old(self).recorder.events_tx,
            ),
            final(self).aggregator == old(self).aggregator,
    {
        let event = MetricsEvent { priority, latency, deadline_missed };
        let sent = try_send_event(
            &mut self.recorder.events_tx,
            Some(&self.aggregator.events_rx),
            event,
        );
        proof {
            if sent {
                assert(self.waiting() =~= old(self).waiting().push(event));
            } else {
                assert(self.waiting() =~= old(self).waiting());
            }
        }
    }

    /// Takes in the oldest events that wait, up to [`EVENT_BATCH`] of them. Gives their number.
    pub fn process_events(&mut self, now: Instant) -> (count: usize)
        requires
            old(self).linked(),
        ensures
            final(self).linked(),
            count == min_of(old(self).waiting().len() as int, EVENT_BATCH as int),
            final(self).waiting() == old(self).waiting().skip(count as int),
            forall|p: Priority| #[trigger]
                view_at(final(self).aggregator.metrics, p) == after_events(
                    view_at(old(self).aggregator.metrics, p),
                    p,
                    old(self).waiting().take(count as int),
                    now,
                ),
            final(self).recorder == old(self).recorder,
            final(self).aggregator.metrics_tx == old(self).aggregator.metrics_tx,
            final(self).aggregator.worker_stats == old(self).aggregator.worker_stats,
    {
        let batch = self.aggregator.process_events(Some(&self.recorder.events_tx), now);
        assert(self.waiting() =~= old(self).waiting().skip(batch.count as int));
        batch.count
    }

    /// Replaces the report on the workers.
    pub fn update_worker_stats(&mut self, stats: Option<MultiWorkerStats>)
        ensures
            final(self).aggregator.worker_stats == reported(stats),
            final(self).aggregator.worker_stats is Some == stats is Some,
            stats matches Some(load) ==> {
                &&& final(self).aggregator.worker_stats.unwrap().worker_queue_depths
                    == load.worker_queue_depths
                &&& final(self).aggregator.worker_stats.unwrap().worker_queue_capacities
                    == load.worker_queue_capacities
                &&& final(self).aggregator.worker_stats.unwrap().dispatcher_backlog
                    == load.dispatcher_backlog
                &&& final(self).aggregator.worker_stats.unwrap().worker_priority_depths
                    == load.worker_priority_depths
            },
            final(self).recorder == old(self).recorder,
            final(self).aggregator.events_rx == old(self).aggregator.events_rx,
            final(self).aggregator.metrics == old(self).aggregator.metrics,
            final(self).aggregator.metrics_tx == old(self).aggregator.metrics_tx,
    {
        self.aggregator.update_worker_stats(stats);
    }

    /// Sends a report on all classes to the listeners, without waiting. Where they do not keep up,
    /// it is left out; with the receiving end of a channel without a limit at hand, it is not.
    pub fn send_current_metrics(
        &mut self,
        expected_latencies: &PriorityTable<Duration>,
        ingress_drops: Option<PriorityTable<u64>>,
        edf_drops: Option<(u64, PriorityTable<u64>)>,
        peer: Option<&Receiver<HashMap<u64, MetricsSnapshot>>>,
        now: Instant,
    )
        ensures
            forall|p: Priority| #[trigger]
                view_at(final(self).aggregator.metrics, p) == match view_at(
                    old(self).aggregator.metrics,
                    p,
                ) {
                    Some(metrics) => Some(metrics.cleaned(now)),
                    None => None,
                },
            exists|report: Map<u64, MetricsSnapshot>| #[trigger]
                covers(
                    report,
                    final(self).aggregator.metrics,
                    *expected_latencies,
                    ingress_drops,
                    edf_drops,
                    old(self).aggregator.worker_stats,
                    4,
                ) && offered_report(
                    old(self).aggregator.metrics_tx,
                    final(self).aggregator.metrics_tx,
                    report,
                    peer is Some && report_ends(
                        old(self).aggregator.metrics_tx,
                        *peer.unwrap(),
                    ),
                ),
            final(self).recorder == old(self).recorder,
            final(self).aggregator.events_rx == old(self).aggregator.events_rx,
            final(self).aggregator.worker_stats == old(self).aggregator.worker_stats,
    {
        self.aggregator.send_current_metrics(
            expected_latencies,
            ingress_drops,
            edf_drops,
            peer,
            now,
        );
    }
}

/// Law: a report holds, for each class that has statistics and under its number from 1 for the high
/// class to 4 for the best-effort class, what the tables given to it hold for the class: its drops on
/// the way in, its drops behind the scheduler and its expected latency, each the entry of that very
/// table, and the drops inside the scheduler; nothing dropped where no table is given. The total is
/// their sum.
pub proof fn law_reports_repeat_the_tables(
    report: Map<u64, MetricsSnapshot>,
    metrics: PriorityTable<Option<Metrics>>,
    expected_latencies: PriorityTable<Duration>,
    ingress_drops: Option<PriorityTable<u64>>,
    edf_drops: Option<(u64, PriorityTable<u64>)>,
    workers: Option<WorkerLoadSnapshot>,
    priority: Priority,
)
    requires
        covers(report, metrics, expected_latencies, ingress_drops, edf_drops, workers, 4),
        metrics.at(priority) is Some,
    ensures
        ({
            let number: u64 = match priority {
                Priority::High => 1,
                Priority::Medium => 2,
                Priority::Low => 3,
                Priority::BestEffort => 4,
            };
            let snapshot = report[number];
            &&& report.contains_key(number)
            &&& ingress_drops matches Some(table) ==> snapshot.ingress_drops == table.at(priority)
            &&& ingress_drops is None ==> snapshot.ingress_drops == 0
            &&& edf_drops matches Some((heap, table)) ==> snapshot.edf_heap_drops == heap
                && snapshot.edf_output_drops == table.at(priority)
            &&& edf_drops is None ==> snapshot.edf_heap_drops == 0 && snapshot.edf_output_drops == 0
            &&& snapshot.ingress_drops + snapshot.edf_heap_drops + snapshot.edf_output_drops
                <= u64::MAX ==> snapshot.total_drops == snapshot.ingress_drops
                + snapshot.edf_heap_drops + snapshot.edf_output_drops
            &&& snapshot.expected_max_latency == expected_latencies.at(priority)
            &&& snapshot.priority == metrics.at(priority).unwrap().priority
            &&& snapshot.packet_count == metrics.at(priority).unwrap().packet_count
            &&& snapshot.deadline_misses == metrics.at(priority).unwrap().deadline_misses
        }),
{
    assert(metrics.at(priority) is Some);
}

/// Law: a class without statistics is not reported on, and nothing but the four classes is.
pub proof fn law_only_measured_classes_are_reported(
    report: Map<u64, MetricsSnapshot>,
    metrics: PriorityTable<Option<Metrics>>,
    expected_latencies: PriorityTable<Duration>,
    ingress_drops: Option<PriorityTable<u64>>,
    edf_drops: Option<(u64, PriorityTable<u64>)>,
    workers: Option<WorkerLoadSnapshot>,
    number: u64,
)
    requires
        covers(report, metrics, expected_latencies, ingress_drops, edf_drops, workers, 4),
        report.contains_key(number),
    ensures
        1 <= number <= 4,
        number == 1 ==> metrics.at(Priority::High) is Some,
        number == 2 ==> metrics.at(Priority::Medium) is Some,
        number == 3 ==> metrics.at(Priority::Low) is Some,
        number == 4 ==> metrics.at(Priority::BestEffort) is Some,
{
    let p = choose|p: Priority|
        p.rank() < 4 && p.rank() + 1 == number && (#[trigger] metrics.at(p)) is Some;
    assert(metrics.at(p) is Some);
}

/// Law: the figures of a snapshot are those of the latencies that count. The mean is the nearest to
/// their sum by their number. The least and the greatest are among them, with none below or above.
/// Half of them do not exceed `p50`, 95 of 100 do not exceed `p95`, 99 of 100 `p99` and 999 of 1000
/// `p999`, and each of these is the least among them of which that holds; `p100` is the greatest. The
/// deviation is within half a nanosecond of the exact one.
pub proof fn law_snapshots_show_the_latencies(
    snapshot: MetricsSnapshot,
    metrics: MetricsView,
    report: ClassReport,
    workers: Option<WorkerLoadSnapshot>,
    other: u64,
)
    requires
        snapshot.shows(metrics, report, workers),
        metrics.values().contains(other),
    ensures
        ({
            let values = metrics.values();
            let n = values.len() as int;
            &&& -n < 2 * (snapshot.avg_latency.nanos * n - sum(values)) <= n
            &&& snapshot.min_latency is Some
            &&& values.contains(snapshot.min_latency.unwrap().nanos)
            &&& snapshot.min_latency.unwrap().nanos <= other
            &&& snapshot.max_latency is Some
            &&& values.contains(snapshot.max_latency.unwrap().nanos)
            &&& other <= snapshot.max_latency.unwrap().nanos
            &&& snapshot.p100 == snapshot.max_latency
            &&& snapshot.p50 is Some && snapshot.p95 is Some && snapshot.p99 is Some
                && snapshot.p999 is Some
            &&& 2 * at_most(values, snapshot.p50.unwrap().nanos) >= n
            &&& other < snapshot.p50.unwrap().nanos ==> 2 * at_most(values, other) < n
            &&& 100 * at_most(values, snapshot.p95.unwrap().nanos) >= 95 * n
            &&& other < snapshot.p95.unwrap().nanos ==> 100 * at_most(values, other) < 95 * n
            &&& 100 * at_most(values, snapshot.p99.unwrap().nanos) >= 99 * n
            &&& other < snapshot.p99.unwrap().nanos ==> 100 * at_most(values, other) < 99 * n
            &&& 1000 * at_most(values, snapshot.p999.unwrap().nanos) >= 999 * n
            &&& other < snapshot.p999.unwrap().nanos ==> 1000 * at_most(values, other) < 999 * n
            &&& snapshot.std_dev is Some <==> n >= 2
            &&& snapshot.std_dev matches Some(d) ==> 4 * scaled_variance(values) < (2 * d.nanos + 1)
                * (2 * d.nanos + 1) * (n * n) && (d.nanos > 0 ==> (2 * d.nanos - 1) * (2 * d.nanos
                - 1) * (n * n) <= 4 * scaled_variance(values))
        }),
{
    let values = metrics.values();
    let at = choose|i: int| 0 <= i < values.len() && values[i] == other;
    assert(values[at] == other);
    law_mean_is_the_nearest(values);
    match snapshot.std_dev {
        Some(d) => {
            law_deviation_is_the_nearest(d.nanos as int, values);
        },
        None => {},
    }
    law_percentile_covers_its_share(values, P50 as int);
    law_percentile_covers_its_share(values, P95 as int);
    law_percentile_covers_its_share(values, P99 as int);
    law_percentile_covers_its_share(values, P999 as int);
}

/// Law: where no latency counts, a snapshot shows none.
pub proof fn law_snapshots_without_latencies_are_empty(
    snapshot: MetricsSnapshot,
    metrics: MetricsView,
    report: ClassReport,
    workers: Option<WorkerLoadSnapshot>,
)
    requires
        snapshot.shows(metrics, report, workers),
        metrics.values().len() == 0,
    ensures
        snapshot.avg_latency.nanos == 0,
        snapshot.min_latency is None,
        snapshot.max_latency is None,
        snapshot.p50 is None,
        snapshot.p95 is None,
        snapshot.p99 is None,
        snapshot.p999 is None,
        snapshot.p100 is None,
        snapshot.std_dev is None,
{
    if snapshot.min_latency is Some {
        assert(is_least(snapshot.min_latency.unwrap().nanos, metrics.values()));
    }
    if snapshot.max_latency is Some {
        assert(is_greatest(snapshot.max_latency.unwrap().nanos, metrics.values()));
    }
}

/// Law: what the workers' statistics say is what every snapshot shows: queue lengths as queue lengths,
/// capacities as capacities, the backlog, and each worker's queue by class.
pub proof fn law_snapshots_repeat_the_workers_statistics(
    snapshot: MetricsSnapshot,
    stats: MultiWorkerStats,
    worker: int,
)
    requires
        snapshot.shows_workers(reported(Some(stats))),
        0 <= worker < stats.worker_priority_depths@.len(),
    ensures
        snapshot.worker_queue_depths@ == stats.worker_queue_depths@,
        snapshot.worker_queue_capacities@ == stats.worker_queue_capacities@,
        snapshot.dispatcher_backlog == stats.dispatcher_backlog,
        snapshot.worker_priority_depths@.len() == stats.worker_priority_depths@.len(),
        snapshot.worker_priority_depths@[worker]@ == stats.worker_priority_depths@[worker]@,
{
    assert(rows(snapshot.worker_priority_depths).len() == rows(stats.worker_priority_depths).len());
    assert(rows(snapshot.worker_priority_depths)[worker] == rows(
        stats.worker_priority_depths,
    )[worker]);
}

/// Law: a measurement counts for exactly as long as the window lasts from when it was made. New
/// statistics have a window of ten seconds and count nothing.
pub proof fn law_measurements_count_for_the_window(
    measurement: LatencyMeasurement,
    now: Instant,
    window: Duration,
    priority: Priority,
)
    requires
        measurement.timestamp.nanos <= now.nanos,
    ensures
        measurement.counts_at(now, window) <==> now.nanos - measurement.timestamp.nanos
            <= window.nanos,
        MetricsView::fresh(priority).time_window.nanos == 10_000_000_000,
        MetricsView::fresh(priority).priority == priority,
        MetricsView::fresh(priority).packet_count == 0,
        MetricsView::fresh(priority).deadline_misses == 0,
        MetricsView::fresh(priority).values().len() == 0,
{
}

/// Law: cleaning up drops measurements from the front only, each of which was made longer ago than
/// the window, and stops at the first that was not. It changes nothing else.
pub proof fn law_only_old_measurements_are_dropped(metrics: MetricsView, now: Instant, i: int)
    requires
        0 <= i < metrics.latencies.len() - metrics.cleaned(now).latencies.len(),
    ensures
        metrics.latencies[i].timestamp.nanos + metrics.time_window.nanos < now.nanos,
{
    lemma_recent_is_a_tail(metrics.latencies, now, metrics.time_window);
    let dropped = metrics.latencies.len() - metrics.cleaned(now).latencies.len();
    assert(!metrics.latencies[i].counts_at(now, metrics.time_window));
}

/// Law: what is left of a cleaned-up history is its tail, unchanged, and the first measurement of it
/// still counts. The counters stay.
pub proof fn law_cleaning_keeps_the_tail(metrics: MetricsView, now: Instant)
    ensures
        metrics.cleaned(now).latencies.len() <= metrics.latencies.len(),
        metrics.cleaned(now).latencies == metrics.latencies.skip(
            metrics.latencies.len() - metrics.cleaned(now).latencies.len(),
        ),
        metrics.cleaned(now).latencies.len() > 0 ==> now.nanos <= metrics.cleaned(
            now,
        ).latencies[0].timestamp.nanos + metrics.time_window.nanos,
        metrics.cleaned(now).packet_count == metrics.packet_count,
        metrics.cleaned(now).deadline_misses == metrics.deadline_misses,
        metrics.cleaned(now).priority == metrics.priority,
        metrics.cleaned(now).time_window == metrics.time_window,
{
    lemma_recent_is_a_tail(metrics.latencies, now, metrics.time_window);
}

proof fn lemma_recent_is_a_tail(
    history: Seq<LatencyMeasurement>,
    now: Instant,
    window: Duration,
)
    ensures
        recent(history, now, window).len() <= history.len(),
        recent(history, now, window) == history.skip(
            history.len() - recent(history, now, window).len(),
        ),
        recent(history, now, window).len() > 0 ==> recent(history, now, window)[0].counts_at(
            now,
            window,
        ),
        forall|i: int|
            0 <= i < history.len() - recent(history, now, window).len() ==> !(
            #[trigger] history[i]).counts_at(now, window),
    decreases history.len(),
{
    let kept = recent(history, now, window);
    if history.len() == 0 || history[0].counts_at(now, window) {
        assert(history.skip(0) =~= history);
    } else {
        let rest = history.drop_first();
        lemma_recent_is_a_tail(rest, now, window);
        assert(rest.skip(rest.len() - kept.len()) =~= history.skip(history.len() - kept.len()));
        assert forall|i: int| 0 <= i < history.len() - kept.len() implies !(
        #[trigger] history[i]).counts_at(now, window) by {
            if i > 0 {
                assert(rest[i - 1] == history[i]);
            }
        }
    }
}

/// Law: a recorded packet counts once, counts as missed exactly where it missed its deadline, and its
/// latency is the last of those that count. Class and window stay.
pub proof fn law_recording_counts_one_packet(
    metrics: MetricsView,
    latency: Duration,
    deadline_missed: bool,
    now: Instant,
)
    requires
        metrics.packet_count < u64::MAX,
        metrics.deadline_misses < u64::MAX,
    ensures
        ({
            let after = metrics.recorded(latency, deadline_missed, now);
            &&& after.packet_count == metrics.packet_count + 1
            &&& after.deadline_misses - metrics.deadline_misses == (if deadline_missed {
                1int
            } else {
                0
            })
            &&& after.values().len() >= 1
            &&& after.values().last() == latency.nanos
            &&& after.latencies.last().timestamp == now
            &&& after.latencies == metrics.latencies.push(
                LatencyMeasurement { latency, timestamp: now },
            ).skip(metrics.latencies.len() + 1 - after.latencies.len())
            &&& after.priority == metrics.priority
            &&& after.time_window == metrics.time_window
        }),
{
    let grown = metrics.latencies.push(LatencyMeasurement { latency, timestamp: now });
    lemma_recent_is_a_tail(grown, now, metrics.time_window);
    assert(grown[metrics.latencies.len() as int].counts_at(now, metrics.time_window));
}

/// Packets that statistics count as missed, if there are any.
pub open spec fn missed(metrics: Option<MetricsView>) -> u64 {
    match metrics {
        Some(metrics) => metrics.deadline_misses,
        None => 0,
    }
}

proof fn lemma_advanced_further(counter: u64, n: nat, m: nat)
    requires
        m <= 1,
    ensures
        advanced(advanced(counter, n), m) == advanced(counter, n + m),
{
}

/// Law: an event of a class counts as missed exactly where it missed its deadline, and events of other
/// classes never do. So the misses grow by the number of events of the class that missed it.
pub proof fn law_every_miss_counts(
    before: Option<MetricsView>,
    priority: Priority,
    events: Seq<MetricsEvent>,
    now: Instant,
)
    ensures
        missed(after_events(before, priority, events, now)) == advanced(
            missed(before),
            events.filter(
                |event: MetricsEvent| event.priority == priority && event.deadline_missed,
            ).len(),
        ),
    decreases events.len(),
{
    let counts = |event: MetricsEvent| event.priority == priority && event.deadline_missed;
    if events.len() > 0 {
        let rest = events.drop_last();
        law_every_miss_counts(before, priority, rest, now);
        let more = if counts(events.last()) {
            1nat
        } else {
            0
        };
        assert(events.filter(counts).len() == rest.filter(counts).len() + more) by {
            reveal(Seq::filter);
        }
        let middle = after_events(before, priority, rest, now);
        assert(missed(after_event(middle, priority, events.last(), now)) == advanced(
            missed(middle),
            more,
        )) by {
            assert(advanced(missed(middle), 0) == missed(middle));
        }
        lemma_advanced_further(missed(before), rest.filter(counts).len(), more);
    } else {
        assert(events.filter(counts).len() == 0) by {
            reveal(Seq::filter);
        }
    }
}

/// Law: statistics take in one event after the other; one of another class leaves them alone, and one
/// of their class leaves its latency last.
pub proof fn law_events_are_taken_in_one_by_one(
    before: Option<MetricsView>,
    priority: Priority,
    events: Seq<MetricsEvent>,
    event: MetricsEvent,
    now: Instant,
)
    ensures
        after_events(before, priority, Seq::empty(), now) == before,
        event.priority != priority ==> after_events(before, priority, events.push(event), now)
            == after_events(before, priority, events, now),
        event.priority == priority ==> {
            &&& after_events(before, priority, events.push(event), now) is Some
            &&& after_events(before, priority, events.push(event), now).unwrap().values().last()
                == event.latency.nanos
        },
        before is None && event.priority == priority ==> after_events(
            before,
            priority,
            seq![event],
            now,
        ).unwrap().priority == priority,
{
    assert(events.push(event).drop_last() =~= events);
    assert(seq![event].drop_last() =~= Seq::empty());
    if event.priority == priority {
        let metrics = match after_events(before, priority, events, now) {
            Some(metrics) => metrics,
            None => MetricsView::fresh(priority),
        };
        let grown = metrics.latencies.push(
            LatencyMeasurement { latency: event.latency, timestamp: now },
        );
        lemma_recent_is_a_tail(grown, now, metrics.time_window);
        assert(grown[metrics.latencies.len() as int].counts_at(now, metrics.time_window));
    }
}

/// Law: a batch holds 100 events, and fewer only where no more came; the channel has room for a
/// hundred batches. The last reply tells whether any can still come.
pub proof fn law_batches_hold_a_hundred_events(
    before: Receiver<MetricsEvent>,
    after: Receiver<MetricsEvent>,
    closed: bool,
)
    requires
        took_batch(before, after, closed),
    ensures
        EVENT_CAPACITY == 100 * EVENT_BATCH,
        events_got(before, after).len() != 100 ==> event_replies(after).len() > 0 && event_replies(
            after,
        ).last() is Err,
        closed ==> event_replies(after).last() == Err::<MetricsEvent, RecvFailure>(
            RecvFailure::Disconnected,
        ),
{
}

/// Law: without statistics of workers a snapshot shows none.
pub proof fn law_without_workers_none_are_shown(snapshot: MetricsSnapshot)
    requires
        snapshot.shows_workers(reported(None)),
    ensures
        snapshot.worker_queue_depths@.len() == 0,
        snapshot.worker_queue_capacities@.len() == 0,
        snapshot.dispatcher_backlog == 0,
        snapshot.worker_priority_depths@.len() == 0,
{
}

/// Law: a report that is sent is offered once, as it is, and is left out only where there is no room for
/// it.
pub proof fn law_reports_are_offered_once(
    before: Sender<HashMap<u64, MetricsSnapshot>>,
    after: Sender<HashMap<u64, MetricsSnapshot>>,
    report: Map<u64, MetricsSnapshot>,
    room: bool,
)
    requires
        offered_report(before, after, report, room),
    ensures
        reports_offered(after).len() == reports_offered(before).len() + 1,
        reports_offered(after).last() == report,
        room ==> reports_sent(after).len() == reports_sent(before).len() + 1 && reports_sent(
            after,
        ).last() == report,
        !room ==> reports_sent(after) == reports_sent(before) || reports_sent(after).last()
            == report,
{
}

} // verus!

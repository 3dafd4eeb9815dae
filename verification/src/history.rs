//! What a monitor keeps of the reports it gets: for each flow a series of points to plot.

use crate::math::{max_of, max_u64};
use crate::metrics::MetricsSnapshot;
use crate::time::{clamp_u64, Duration, Instant, NANOS_PER_MILLI, NANOS_PER_SEC};
use std::collections::{HashMap, VecDeque};
use vstd::prelude::*;

verus! {

/// Points that a monitor inside the pipeline keeps of a flow.
pub const LOCAL_POINTS: usize = 1_000;

/// Points that a monitor outside the pipeline keeps of a flow.
pub const REMOTE_POINTS: usize = 10_000;

/// Time that two points of a flow are apart at least, in milliseconds.
pub const POINT_GAP_MS: u64 = 50;

/// What is plotted of a report.
#[derive(Debug, Clone, Copy, PartialEq, Eq, Structural)]
pub struct StatisticsPoint {
    /// Time since the flow was first seen.
    pub time: Duration,
    pub avg: Duration,
    pub min: Duration,
    pub max: Duration,
    pub p50: Duration,
    pub p95: Duration,
    pub p99: Duration,
    pub p100: Duration,
    pub std_dev: Duration,
    pub ingress_drops: u64,
    pub edf_heap_drops: u64,
    pub edf_output_drops: u64,
    pub total_drops: u64,
}

/// The span, or none where it is not known.
pub open spec fn or_zero(span: Option<Duration>) -> Duration {
    match span {
        Some(span) => span,
        None => Duration { nanos: 0 },
    }
}

fn get_or_zero(span: Option<Duration>) -> (known: Duration)
    ensures
        known == or_zero(span),
{
    match span {
        Some(span) => span,
        None => Duration { nanos: 0 },
    }
}

/// The point that a report becomes.
pub open spec fn point_of(snapshot: MetricsSnapshot, time: Duration) -> StatisticsPoint {
    StatisticsPoint {
        time,
        avg: snapshot.avg_latency,
        min: or_zero(snapshot.min_latency),
        max: or_zero(snapshot.max_latency),
        p50: or_zero(snapshot.p50),
        p95: or_zero(snapshot.p95),
        p99: or_zero(snapshot.p99),
        p100: or_zero(snapshot.p100),
        std_dev: or_zero(snapshot.std_dev),
        ingress_drops: snapshot.ingress_drops,
        edf_heap_drops: snapshot.edf_heap_drops,
        edf_output_drops: snapshot.edf_output_drops,
        total_drops: snapshot.total_drops,
    }
}

fn make_point(snapshot: &MetricsSnapshot, time: Duration) -> (point: StatisticsPoint)
    ensures
        point == point_of(*snapshot, time),
{
    StatisticsPoint {
        time,
        avg: snapshot.avg_latency,
        min: get_or_zero(snapshot.min_latency),
        max: get_or_zero(snapshot.max_latency),
        p50: get_or_zero(snapshot.p50),
        p95: get_or_zero(snapshot.p95),
        p99: get_or_zero(snapshot.p99),
        p100: get_or_zero(snapshot.p100),
        std_dev: get_or_zero(snapshot.std_dev),
        ingress_drops: snapshot.ingress_drops,
        edf_heap_drops: snapshot.edf_heap_drops,
        edf_output_drops: snapshot.edf_output_drops,
        total_drops: snapshot.total_drops,
    }
}

/// A series once a point is offered to it: a point too close behind the last one is left out, and
/// of more than `most` points the oldest is dropped.
pub open spec fn extended(
    points: Seq<StatisticsPoint>,
    point: StatisticsPoint,
    most: int,
) -> Seq<StatisticsPoint> {
    if points.len() > 0 && points.last().time.nanos + POINT_GAP_MS * NANOS_PER_MILLI
        >= point.time.nanos {
        points
    } else if points.len() + 1 > most {
        points.push(point).drop_first()
    } else {
        points.push(point)
    }
}

/// The series of one flow.
#[derive(Debug, Clone)]
pub struct FlowStatistics {
    /// When the flow was first seen.
    pub start_time: Instant,
    /// Oldest first.
    pub points: VecDeque<StatisticsPoint>,
    pub max_points: usize,
}

/// The last time to plot of a series: that of its last point, and a second at least.
pub open spec fn last_time(points: Seq<StatisticsPoint>) -> int {
    if points.len() > 0 {
        max_of(points.last().time.nanos as int, NANOS_PER_SEC as int)
    } else {
        NANOS_PER_SEC as int
    }
}

impl FlowStatistics {
    /// A series without points.
    pub fn new(start_time: Instant, max_points: usize) -> (series: FlowStatistics)
        ensures
            series.start_time == start_time,
            series.points@.len() == 0,
            series.max_points == max_points,
    {
        FlowStatistics { start_time, points: VecDeque::new(), max_points }
    }

    /// Takes in a report that came at `now`.
    pub fn record(&mut self, snapshot: &MetricsSnapshot, now: Instant)
        ensures
            final(self).points@ == extended(
                old(self).points@,
                point_of(*snapshot, now.spec_since(old(self).start_time)),
                old(self).max_points as int,
            ),
            final(self).start_time == old(self).start_time,
            final(self).max_points == old(self).max_points,
    {
        let time = now.since(self.start_time);
        let point = make_point(snapshot, time);
        let count: usize = self.points.len();
        if count > 0 {
            let last: u64 = self.points[count - 1].time.nanos;
            if time.nanos <= last || time.nanos - last <= POINT_GAP_MS * NANOS_PER_MILLI {
                return;
            }
        }
        self.points.push_back(point);
        if self.points.len() > self.max_points {
            let ghost full = self.points@;
            let _ = self.points.pop_front();
            assert(self.points@ =~= full.drop_first());
        }
    }

    /// The last time to plot: that of the last point, and a second at least.
    pub fn time_range(&self) -> (range: Duration)
        ensures
            range.nanos == if self.points@.len() > 0 {
                max_of(self.points@.last().time.nanos as int, NANOS_PER_SEC as int)
            } else {
                NANOS_PER_SEC as int
            },
            range.nanos == last_time(self.points@),
    {
        let count: usize = self.points.len();
        if count > 0 {
            Duration { nanos: max_u64(self.points[count - 1].time.nanos, NANOS_PER_SEC) }
        } else {
            Duration { nanos: NANOS_PER_SEC }
        }
    }

    /// The greatest latency to plot for a monitor inside the pipeline: the greatest that any line
    /// shows, a fifth more than what is expected at most, and a millisecond at least.
    pub fn latency_range(&self, expected_max: Duration) -> (range: Duration)
        ensures
            range.nanos == at_least(greatest_latency(self.points@, true), expected_max),
    {
        fit(self.find_greatest(true), expected_max)
    }

    /// The greatest latency to plot for a monitor outside the pipeline, which goes by the lines for
    /// the maximum, the 100th percentile and the deviation alone.
    pub fn remote_latency_range(&self, expected_max: Duration) -> (range: Duration)
        ensures
            range.nanos == at_least(greatest_latency(self.points@, false), expected_max),
    {
        fit(self.find_greatest(false), expected_max)
    }

    fn find_greatest(&self, all_lines: bool) -> (greatest: u64)
        ensures
            greatest == greatest_latency(self.points@, all_lines),
    {
        let mut greatest: u64 = 0;
        let mut i: usize = 0;
        while i < self.points.len()
            invariant
                i <= self.points@.len(),
                greatest == greatest_latency(self.points@.take(i as int), all_lines),
            decreases self.points@.len() - i,
        {
            assert(self.points@.take(i + 1).drop_last() =~= self.points@.take(i as int));
            greatest = max_u64(greatest, self.points[i].find_peak(all_lines));
            i = i + 1;
        }
        assert(self.points@.take(i as int) =~= self.points@);
        greatest
    }

    /// The greatest count of dropped packets to plot, one at least.
    pub fn drop_range(&self) -> (range: u64)
        ensures
            range == max_of(greatest_drops(self.points@), 1),
    {
        let mut greatest: u64 = 0;
        let mut i: usize = 0;
        while i < self.points.len()
            invariant
                i <= self.points@.len(),
                greatest == greatest_drops(self.points@.take(i as int)),
            decreases self.points@.len() - i,
        {
            assert(self.points@.take(i + 1).drop_last() =~= self.points@.take(i as int));
            let point = self.points[i];
            let high: u64 = max_u64(
                max_u64(point.ingress_drops, point.edf_heap_drops),
                max_u64(point.edf_output_drops, point.total_drops),
            );
            greatest = max_u64(greatest, high);
            i = i + 1;
        }
        assert(self.points@.take(i as int) =~= self.points@);
        max_u64(greatest, 1)
    }
}

impl StatisticsPoint {
    /// The greatest latency or deviation of the point, in nanoseconds: of all lines, or of the
    /// maximum, the 100th percentile and the deviation.
    pub open spec fn peak(&self, all_lines: bool) -> int {
        let outer = max_of(
            self.max.nanos as int,
            max_of(self.p100.nanos as int, self.std_dev.nanos as int),
        );
        if all_lines {
            max_of(
                max_of(outer, self.avg.nanos as int),
                max_of(
                    self.p50.nanos as int,
                    max_of(self.p95.nanos as int, self.p99.nanos as int),
                ),
            )
        } else {
            outer
        }
    }

    fn find_peak(&self, all_lines: bool) -> (peak: u64)
        ensures
            peak == self.peak(all_lines),
    {
        let outer: u64 = max_u64(self.max.nanos, max_u64(self.p100.nanos, self.std_dev.nanos));
        if all_lines {
            max_u64(
                max_u64(outer, self.avg.nanos),
                max_u64(self.p50.nanos, max_u64(self.p95.nanos, self.p99.nanos)),
            )
        } else {
            outer
        }
    }
}

/// The greatest latency or deviation of the points, in nanoseconds.
pub open spec fn greatest_latency(points: Seq<StatisticsPoint>, all_lines: bool) -> int
    decreases points.len(),
{
    if points.len() == 0 {
        0
    } else {
        max_of(greatest_latency(points.drop_last(), all_lines), points.last().peak(all_lines))
    }
}

/// What is plotted up to: the greatest latency, a fifth more than what is expected at most, and a
/// millisecond at least.
pub open spec fn at_least(greatest: int, expected_max: Duration) -> int {
    max_of(
        greatest,
        max_of(clamp_u64((expected_max.nanos * 12 + 5) / 10) as int, NANOS_PER_MILLI as int),
    )
}

fn fit(greatest: u64, expected_max: Duration) -> (range: Duration)
    ensures
        range.nanos == at_least(greatest as int, expected_max),
{
    let margin: u128 = ((expected_max.nanos as u128) * 12 + 5) / 10;
    let expected: u64 = if margin > u64::MAX as u128 {
        u64::MAX
    } else {
        margin as u64
    };
    Duration { nanos: max_u64(greatest, max_u64(expected, NANOS_PER_MILLI)) }
}

/// Law: a monitor inside the pipeline plots every line in full: no latency of a point is above the
/// range.
pub proof fn law_every_line_is_in_range(
    points: Seq<StatisticsPoint>,
    expected_max: Duration,
    i: int,
)
    requires
        0 <= i < points.len(),
    ensures
        points[i].peak(true) <= at_least(greatest_latency(points, true), expected_max),
    decreases points.len(),
{
    if i < points.len() - 1 {
        law_every_line_is_in_range(points.drop_last(), expected_max, i);
        assert(points.drop_last()[i] == points[i]);
    }
}

/// The greatest count of dropped packets of the points.
pub open spec fn greatest_drops(points: Seq<StatisticsPoint>) -> int
    decreases points.len(),
{
    if points.len() == 0 {
        0
    } else {
        max_of(
            greatest_drops(points.drop_last()),
            max_of(
                max_of(points.last().ingress_drops as int, points.last().edf_heap_drops as int),
                max_of(points.last().edf_output_drops as int, points.last().total_drops as int),
            ),
        )
    }
}

/// Law: a series never outgrows its bound, and a point more than the gap behind the last is always
/// taken up.
pub proof fn law_series_stays_bounded(
    points: Seq<StatisticsPoint>,
    point: StatisticsPoint,
    most: int,
)
    requires
        0 < most,
        points.len() <= most,
    ensures
        extended(points, point, most).len() <= most,
        points.len() == 0 || points.last().time.nanos + POINT_GAP_MS * NANOS_PER_MILLI
            < point.time.nanos ==> extended(points, point, most).last() == point,
{
}

/// Law: the points of a series are more than the gap apart, and stay so.
pub proof fn law_points_stay_apart(points: Seq<StatisticsPoint>, point: StatisticsPoint, most: int)
    requires
        forall|i: int, j: int|
            0 <= i < j < points.len() ==> #[trigger] points[i].time.nanos + POINT_GAP_MS
                * NANOS_PER_MILLI < #[trigger] points[j].time.nanos,
    ensures
        forall|i: int, j: int|
            0 <= i < j < extended(points, point, most).len() ==> #[trigger] extended(
                points,
                point,
                most,
            )[i].time.nanos + POINT_GAP_MS * NANOS_PER_MILLI < #[trigger] extended(
                points,
                point,
                most,
            )[j].time.nanos,
{
    let longer = points.push(point);
    if points.len() > 0 && points.last().time.nanos + POINT_GAP_MS * NANOS_PER_MILLI
        < point.time.nanos {
        assert forall|i: int, j: int| 0 <= i < j < longer.len() implies #[trigger] longer[i].time.nanos
            + POINT_GAP_MS * NANOS_PER_MILLI < #[trigger] longer[j].time.nanos by {
            if j == points.len() && i < points.len() - 1 {
                assert(points[i].time.nanos + POINT_GAP_MS * NANOS_PER_MILLI < points[points.len()
                    - 1].time.nanos);
            }
        }
        let shorter = longer.drop_first();
        assert forall|i: int, j: int| 0 <= i < j < shorter.len() implies #[trigger] shorter[i].time.nanos
            + POINT_GAP_MS * NANOS_PER_MILLI < #[trigger] shorter[j].time.nanos by {
            assert(longer[i + 1].time.nanos + POINT_GAP_MS * NANOS_PER_MILLI < longer[j
                + 1].time.nanos);
        }
    }
}

/// The series of all flows.
pub struct History {
    pub flows: HashMap<u64, FlowStatistics>,
    /// Points that are kept of each flow.
    pub max_points: usize,
}

impl History {
    /// A history without flows.
    pub fn new(max_points: usize) -> (history: History)
        ensures
            history.flows@ == Map::<u64, FlowStatistics>::empty(),
            history.max_points == max_points,
    {
        History { flows: HashMap::new(), max_points }
    }

    /// Takes in a report on a flow that came at `now`. The series of a flow starts with its first
    /// report.
    pub fn record(&mut self, flow_id: u64, snapshot: &MetricsSnapshot, now: Instant)
        ensures
            final(self).flows@.dom() == old(self).flows@.dom().insert(flow_id),
            forall|id: u64|
                id != flow_id && #[trigger] old(self).flows@.contains_key(id)
                    ==> final(self).flows@[id] == old(self).flows@[id],
            old(self).flows@.contains_key(flow_id) ==> {
                let before = old(self).flows@[flow_id];
                let after = final(self).flows@[flow_id];
                &&& after.start_time == before.start_time
                &&& after.max_points == before.max_points
                &&& after.points@ == extended(
                    before.points@,
                    point_of(*snapshot, now.spec_since(before.start_time)),
                    before.max_points as int,
                )
            },
            !old(self).flows@.contains_key(flow_id) ==> {
                let after = final(self).flows@[flow_id];
                &&& after.start_time == now
                &&& after.max_points == old(self).max_points
                &&& after.points@ == extended(
                    Seq::empty(),
                    point_of(*snapshot, now.spec_since(now)),
                    old(self).max_points as int,
                )
            },
            final(self).max_points == old(self).max_points,
    {
        broadcast use vstd::std_specs::hash::group_hash_axioms;

        let mut series = match self.flows.remove(&flow_id) {
            Some(series) => series,
            None => FlowStatistics::new(now, self.max_points),
        };
        series.record(snapshot, now);
        self.flows.insert(flow_id, series);
        proof {
            assert(self.flows@.dom() =~= old(self).flows@.dom().insert(flow_id));
        }
    }
}

/// Law: a point shows what the report says, each figure under its own name, and nothing for what the
/// report does not know; its time is when the report came, from the flow's first on.
pub proof fn law_points_repeat_the_report(snapshot: MetricsSnapshot, time: Duration)
    ensures
        ({
            let point = point_of(snapshot, time);
            &&& point.time == time
            &&& point.avg == snapshot.avg_latency
            &&& snapshot.min_latency matches Some(span) ==> point.min == span
            &&& snapshot.max_latency matches Some(span) ==> point.max == span
            &&& snapshot.p50 matches Some(span) ==> point.p50 == span
            &&& snapshot.p95 matches Some(span) ==> point.p95 == span
            &&& snapshot.p99 matches Some(span) ==> point.p99 == span
            &&& snapshot.p100 matches Some(span) ==> point.p100 == span
            &&& snapshot.std_dev matches Some(span) ==> point.std_dev == span
            &&& snapshot.min_latency is None ==> point.min.nanos == 0
            &&& snapshot.max_latency is None ==> point.max.nanos == 0
            &&& snapshot.p50 is None ==> point.p50.nanos == 0
            &&& snapshot.p95 is None ==> point.p95.nanos == 0
            &&& snapshot.p99 is None ==> point.p99.nanos == 0
            &&& snapshot.p100 is None ==> point.p100.nanos == 0
            &&& snapshot.std_dev is None ==> point.std_dev.nanos == 0
            &&& point.ingress_drops == snapshot.ingress_drops
            &&& point.edf_heap_drops == snapshot.edf_heap_drops
            &&& point.edf_output_drops == snapshot.edf_output_drops
            &&& point.total_drops == snapshot.total_drops
        }),
{
}

/// Law: a point is taken up exactly where the series is empty or the last point is more than 50 ms
/// earlier; it comes last then, behind the points there, of which the oldest goes where there would
/// be too many. Otherwise the series stays as it is.
pub proof fn law_points_are_taken_up_fifty_milliseconds_apart(
    points: Seq<StatisticsPoint>,
    point: StatisticsPoint,
    most: int,
)
    requires
        most >= 1,
        points.len() <= most,
    ensures
        points.len() == 0 || points.last().time.nanos + 50_000_000 < point.time.nanos ==> {
            &&& extended(points, point, most).last() == point
            &&& points.len() < most ==> extended(points, point, most) == points.push(point)
            &&& points.len() == most ==> extended(points, point, most) == points.skip(1).push(point)
        },
        points.len() > 0 && points.last().time.nanos + 50_000_000 >= point.time.nanos ==> extended(
            points,
            point,
            most,
        ) == points,
        LOCAL_POINTS == 1_000,
        REMOTE_POINTS == 10 * LOCAL_POINTS,
{
    if points.len() > 0 {
        assert(points.push(point).drop_first() =~= points.skip(1).push(point));
    }
}

/// Law: the peak of a point is one of its lines and below none that count: the maximum, the 100th
/// percentile and the deviation, and for a monitor inside the pipeline the mean and the other
/// percentiles too.
pub proof fn law_peak_tops_the_lines(point: StatisticsPoint, all_lines: bool)
    ensures
        ({
            let peak = point.peak(all_lines);
            &&& peak >= point.max.nanos
            &&& peak >= point.p100.nanos
            &&& peak >= point.std_dev.nanos
            &&& all_lines ==> peak >= point.avg.nanos && peak >= point.p50.nanos && peak
                >= point.p95.nanos && peak >= point.p99.nanos
            &&& {
                ||| peak == point.max.nanos
                ||| peak == point.p100.nanos
                ||| peak == point.std_dev.nanos
                ||| all_lines && (peak == point.avg.nanos || peak == point.p50.nanos || peak
                    == point.p95.nanos || peak == point.p99.nanos)
            }
        }),
{
}

/// Law: the greatest latency and the greatest count of drops of a series are reached by some of its
/// points and exceeded by none; a series without points has none.
pub proof fn law_greatest_tops_the_points(points: Seq<StatisticsPoint>, all_lines: bool)
    ensures
        points.len() == 0 ==> greatest_latency(points, all_lines) == 0 && greatest_drops(points)
            == 0,
        forall|i: int|
            0 <= i < points.len() ==> (#[trigger] points[i]).peak(all_lines) <= greatest_latency(
                points,
                all_lines,
            ),
        forall|i: int|
            0 <= i < points.len() ==> (#[trigger] points[i]).ingress_drops <= greatest_drops(points)
                && points[i].edf_heap_drops <= greatest_drops(points) && points[i].edf_output_drops
                <= greatest_drops(points) && points[i].total_drops <= greatest_drops(points),
        points.len() > 0 ==> exists|i: int|
            0 <= i < points.len() && (#[trigger] points[i]).peak(all_lines) == greatest_latency(
                points,
                all_lines,
            ),
        points.len() > 0 ==> exists|i: int|
            0 <= i < points.len() && ((#[trigger] points[i]).ingress_drops == greatest_drops(points)
                || points[i].edf_heap_drops == greatest_drops(points) || points[i].edf_output_drops
                == greatest_drops(points) || points[i].total_drops == greatest_drops(points)),
    decreases points.len(),
{
    if points.len() > 0 {
        let rest = points.drop_last();
        let n = points.len() - 1;
        law_greatest_tops_the_points(rest, all_lines);
        assert forall|i: int| 0 <= i < points.len() implies (#[trigger] points[i]).peak(all_lines)
            <= greatest_latency(points, all_lines) && points[i].ingress_drops <= greatest_drops(
            points,
        ) && points[i].edf_heap_drops <= greatest_drops(points) && points[i].edf_output_drops
            <= greatest_drops(points) && points[i].total_drops <= greatest_drops(points) by {
            if i < n {
                assert(rest[i] == points[i]);
            }
        }
        assert(points[n] == points.last());
        if points[n].peak(all_lines) != greatest_latency(points, all_lines) {
            if rest.len() > 0 {
                let i = choose|i: int|
                    0 <= i < rest.len() && (#[trigger] rest[i]).peak(all_lines) == greatest_latency(
                        rest,
                        all_lines,
                    );
                assert(points[i] == rest[i]);
            }
        }
        let last = points[n];
        let reached = last.ingress_drops == greatest_drops(points) || last.edf_heap_drops
            == greatest_drops(points) || last.edf_output_drops == greatest_drops(points)
            || last.total_drops == greatest_drops(points);
        if !reached && rest.len() > 0 {
            let i = choose|i: int|
                0 <= i < rest.len() && ((#[trigger] rest[i]).ingress_drops == greatest_drops(rest)
                    || rest[i].edf_heap_drops == greatest_drops(rest) || rest[i].edf_output_drops
                    == greatest_drops(rest) || rest[i].total_drops == greatest_drops(rest));
            assert(points[i] == rest[i]);
        }
    }
}

/// Law: what is plotted reaches a millisecond, the greatest latency, and 1.2 times what is expected at
/// most, to the nearest nanosecond and as far as a `u64` holds it; and no further than one of these.
pub proof fn law_range_fits_latency_and_expectation(greatest: int, expected_max: Duration)
    requires
        expected_max.nanos <= 1_000_000_000_000_000_000,
    ensures
        ({
            let range = at_least(greatest, expected_max);
            &&& range >= 1_000_000
            &&& range >= greatest
            &&& 10 * range + 5 >= 12 * expected_max.nanos
            &&& range == 1_000_000 || range == greatest || -5 <= 12 * expected_max.nanos - 10
                * range < 5
        }),
{
}

/// Law: time is plotted to the last point, and for a second at least.
pub proof fn law_time_is_plotted_to_the_last_point(points: Seq<StatisticsPoint>)
    ensures
        last_time(points) >= 1_000_000_000,
        points.len() == 0 ==> last_time(points) == 1_000_000_000,
        points.len() > 0 ==> last_time(points) >= points.last().time.nanos && (last_time(points)
            == points.last().time.nanos || last_time(points) == 1_000_000_000),
{
}

} // verus!

use aiedf_pipeline::history::{History, LOCAL_POINTS};
use aiedf_pipeline::metrics::{
    take_snapshot, ClassReport, Metrics, MetricsCollector, EVENT_BATCH, EVENT_CAPACITY,
};
use aiedf_pipeline::priority::{Priority, PriorityTable};
use aiedf_pipeline::scheduler::multi_worker_edf::MultiWorkerStats;
use aiedf_pipeline::statistics::{compute_rank, sort, square_root};
use aiedf_pipeline::time::{Duration, Instant};

fn at(millis: u64) -> Instant {
    Instant { nanos: millis * 1_000_000 }
}

#[test]
fn test_metrics_creation() {
    let metrics = Metrics::new(Priority::High);
    assert_eq!(metrics.priority, Priority::High);
    assert_eq!(metrics.packet_count, 0);
}

#[test]
fn test_record_latency() {
    let mut metrics = Metrics::new(Priority::High);
    metrics.record_latency(Duration::from_millis(10), false, at(0));
    metrics.record_latency(Duration::from_millis(20), false, at(1));
    metrics.record_latency(Duration::from_millis(5), true, at(2));

    assert_eq!(metrics.packet_count, 3);
    assert_eq!(metrics.deadline_misses, 1);
    let min = metrics.min_latency().unwrap();
    let max = metrics.max_latency().unwrap();
    assert!(
        min <= Duration::from_millis(6) && min >= Duration::from_millis(4),
        "Min latency should be around 5ms, got {:?}",
        min
    );
    assert!(
        max <= Duration::from_millis(21) && max >= Duration::from_millis(19),
        "Max latency should be around 20ms, got {:?}",
        max
    );
}

#[test]
fn test_average_latency() {
    let mut metrics = Metrics::new(Priority::High);
    metrics.record_latency(Duration::from_millis(10), false, at(0));
    metrics.record_latency(Duration::from_millis(20), false, at(1));

    let avg = metrics.average_latency();
    assert!(
        avg >= Duration::from_millis(14) && avg <= Duration::from_millis(16),
        "Average latency should be around 15ms, got {:?}",
        avg
    );
}

#[test]
fn test_standard_deviation() {
    let mut metrics = Metrics::new(Priority::High);
    metrics.record_latency(Duration::from_millis(10), false, at(0));
    metrics.record_latency(Duration::from_millis(20), false, at(1));
    metrics.record_latency(Duration::from_millis(15), false, at(2));

    let std_dev = metrics.standard_deviation();
    assert!(std_dev.is_some());
    let std = std_dev.unwrap();
    assert!(
        std.as_millis() >= 3 && std.as_millis() <= 7,
        "Standard deviation should be around 4-5ms, got {:?}",
        std
    );
}

#[test]
fn test_metrics_collector() {
    let (tx, _rx) = crossbeam_channel::unbounded();
    let mut collector = MetricsCollector::new(tx);

    collector.record_packet(Priority::High, Duration::from_millis(10), false);
    assert_eq!(collector.process_events(at(10)), 1);

    let metrics = collector.aggregator.metrics.get(Priority::High);
    assert!(metrics.is_some());
    assert_eq!(metrics.as_ref().unwrap().packet_count, 1);
}

#[test]
fn deviation_is_exact() {
    let mut metrics = Metrics::new(Priority::Low);
    assert!(metrics.standard_deviation().is_none());
    metrics.record_latency(Duration::from_nanos(10), false, at(0));
    assert!(metrics.standard_deviation().is_none());
    metrics.record_latency(Duration::from_nanos(20), false, at(0));
    metrics.record_latency(Duration::from_nanos(15), false, at(0));
    // The variance is 50 / 3, its root a little over 4.08.
    assert_eq!(metrics.standard_deviation().unwrap().nanos, 4);
    metrics.record_latency(Duration::from_nanos(35), false, at(0));
    // Mean 20, squares 100, 0, 25 and 225: the root of 87.5 is 9.35.
    assert_eq!(metrics.standard_deviation().unwrap().nanos, 9);
}

#[test]
fn deviation_is_taken_from_the_exact_mean() {
    let deviation = |latencies: &[u64]| {
        let mut metrics = Metrics::new(Priority::Low);
        for latency in latencies {
            metrics.record_latency(Duration::from_nanos(*latency), false, at(0));
        }
        metrics.standard_deviation().unwrap().nanos
    };
    // The root of 2 / 9 is 0.47.
    assert_eq!(deviation(&[0, 0, 1]), 0);
    assert_eq!(deviation(&[0, 0, 2]), 1);
    assert_eq!(deviation(&[7, 7, 7, 7, 7]), 0);
    // Half the way between the least and the greatest number.
    assert_eq!(deviation(&[0, u64::MAX]), u64::MAX / 2 + 1);
    assert_eq!(deviation(&[1, u64::MAX]), u64::MAX / 2);
}

#[test]
fn percentiles_cover_their_share() {
    let mut metrics = Metrics::new(Priority::Low);
    for latency in [5u64, 1, 4, 2, 3] {
        metrics.record_latency(Duration::from_nanos(latency), false, at(0));
    }
    // Three of five are at most 3, two at most 2.
    assert_eq!(metrics.p50(), Some(Duration::from_nanos(3)));
    assert_eq!(metrics.p95(), Some(Duration::from_nanos(5)));
}

#[test]
fn mean_is_rounded_to_the_nearest_nanosecond() {
    let mut metrics = Metrics::new(Priority::Low);
    assert_eq!(metrics.average_latency().nanos, 0);
    metrics.record_latency(Duration::from_nanos(1), false, at(0));
    metrics.record_latency(Duration::from_nanos(2), false, at(0));
    assert_eq!(metrics.average_latency().nanos, 2);
    metrics.record_latency(Duration::from_nanos(1), false, at(0));
    assert_eq!(metrics.average_latency().nanos, 1);
}

#[test]
fn percentiles_lie_in_order() {
    let mut metrics = Metrics::new(Priority::Medium);
    assert!(metrics.p50().is_none());
    assert!(metrics.min_latency().is_none());
    assert!(metrics.max_latency().is_none());
    for i in 0..1000u64 {
        metrics.record_latency(Duration::from_nanos((i * 7) % 1000 + 1), false, at(0));
    }
    assert_eq!(metrics.p50().unwrap().nanos, 500);
    assert_eq!(metrics.p95().unwrap().nanos, 950);
    assert_eq!(metrics.p99().unwrap().nanos, 990);
    assert_eq!(metrics.p999().unwrap().nanos, 999);
    assert_eq!(metrics.min_latency().unwrap().nanos, 1);
    assert_eq!(metrics.max_latency().unwrap().nanos, 1000);
}

#[test]
fn old_measurements_stop_counting() {
    let mut metrics = Metrics::default();
    metrics.record_latency(Duration::from_millis(30), false, at(0));
    metrics.record_latency(Duration::from_millis(10), false, at(6_000));
    assert_eq!(metrics.latencies.len(), 2);
    metrics.cleanup_old_measurements(at(10_000));
    assert_eq!(metrics.latencies.len(), 2);
    metrics.cleanup_old_measurements(at(10_001));
    assert_eq!(metrics.latencies.len(), 1);
    assert_eq!(metrics.max_latency(), Some(Duration::from_millis(10)));
    metrics.record_latency(Duration::from_millis(20), true, at(16_001));
    assert_eq!(metrics.latencies.len(), 1);
    assert_eq!(metrics.packet_count, 3);
    assert_eq!(metrics.p50(), Some(Duration::from_millis(20)));
}

#[test]
fn numbers_are_sorted_and_ranked() {
    assert_eq!(sort(&vec![5, 1, 4, 1, 3]), vec![1, 1, 3, 4, 5]);
    assert_eq!(sort(&vec![]), Vec::<u64>::new());
    assert_eq!(compute_rank(1, 500), 0);
    assert_eq!(compute_rank(3, 500), 1);
    assert_eq!(compute_rank(4, 500), 1);
    assert_eq!(compute_rank(1000, 999), 998);
    assert_eq!(compute_rank(1001, 999), 999);
    assert_eq!(square_root(0), 0);
    assert_eq!(square_root(99), 9);
    assert_eq!(square_root(100), 10);
    assert_eq!(square_root(u128::MAX), u64::MAX);
}

#[test]
fn events_are_taken_in_by_batches() {
    let (tx, _rx) = crossbeam_channel::unbounded();
    let mut collector = MetricsCollector::new(tx);
    for i in 0..(EVENT_BATCH + 5) {
        let priority = if i % 2 == 0 { Priority::High } else { Priority::Low };
        collector.record_packet(priority, Duration::from_nanos(i as u64), i % 5 == 0);
    }
    assert_eq!(collector.process_events(at(1)), EVENT_BATCH);
    assert_eq!(collector.process_events(at(1)), 5);
    assert_eq!(collector.process_events(at(1)), 0);
    let high = collector.aggregator.metrics[Priority::High].as_ref().unwrap();
    assert_eq!(high.packet_count, 53);
    let low = collector.aggregator.metrics[Priority::Low].as_ref().unwrap();
    assert_eq!(low.packet_count, 52);
    assert_eq!(high.deadline_misses + low.deadline_misses, 21);
    assert!(collector.aggregator.metrics[Priority::Medium].is_none());
}

#[test]
fn events_beyond_the_capacity_are_left_out() {
    let (tx, _rx) = crossbeam_channel::unbounded();
    let mut collector = MetricsCollector::new(tx);
    for _ in 0..(EVENT_CAPACITY + 50) {
        collector.record_packet(Priority::Medium, Duration::from_nanos(1), false);
    }
    let mut total = 0;
    loop {
        let count = collector.process_events(at(1));
        if count == 0 {
            break;
        }
        total += count;
    }
    assert_eq!(total, EVENT_CAPACITY);
}

#[test]
fn parts_of_a_collector_work_apart() {
    let (tx, _rx) = crossbeam_channel::unbounded();
    let MetricsCollector { mut recorder, mut aggregator } = MetricsCollector::new(tx);
    recorder.record_packet(Priority::Low, Duration::from_nanos(3), true);
    let batch = aggregator.process_events(None, at(1));
    assert_eq!(batch.count, 1);
    assert!(!batch.closed);
    drop(recorder);
    let batch = aggregator.process_events(None, at(2));
    assert_eq!(batch.count, 0);
    assert!(batch.closed);
    assert_eq!(aggregator.metrics[Priority::Low].as_ref().unwrap().deadline_misses, 1);
}

#[test]
fn reports_cover_the_classes_that_were_seen() {
    let (tx, rx) = crossbeam_channel::unbounded();
    let mut collector = MetricsCollector::new(tx);
    collector.record_packet(Priority::High, Duration::from_millis(2), true);
    collector.record_packet(Priority::Low, Duration::from_millis(4), false);
    collector.process_events(at(0));
    collector.update_worker_stats(Some(MultiWorkerStats {
        worker_queue_depths: vec![1, 2, 3],
        worker_queue_capacities: vec![16, 64, 256],
        dispatcher_backlog: 0,
        worker_priority_depths: vec![vec![1, 0, 0, 0], vec![1, 1, 0, 0], vec![0, 0, 3, 0]],
    }));
    let expected = PriorityTable::of(
        Duration::from_millis(1),
        Duration::from_millis(50),
        Duration::from_millis(100),
        Duration::from_millis(200),
    );
    collector.send_current_metrics(
        &expected,
        Some(PriorityTable::of(3, 0, 1, 0)),
        Some((5, PriorityTable::of(2, 0, 0, 0))),
        Some(&rx),
        at(1),
    );
    let report = rx.try_recv().unwrap();
    assert_eq!(report.len(), 2);
    let high = &report[&1];
    assert_eq!(high.priority, Priority::High);
    assert_eq!(high.packet_count, 1);
    assert_eq!(high.deadline_misses, 1);
    assert_eq!(high.p100, Some(Duration::from_millis(2)));
    assert_eq!(high.expected_max_latency, Duration::from_millis(1));
    assert_eq!(high.total_drops, 10);
    assert_eq!(high.worker_queue_capacities, vec![16, 64, 256]);
    assert_eq!(high.worker_priority_depths[2], vec![0, 0, 3, 0]);
    let low = &report[&3];
    assert_eq!(low.avg_latency, Duration::from_millis(4));
    assert_eq!(low.std_dev, None);
    assert_eq!(low.total_drops, 6);

    collector.update_worker_stats(None);
    collector.send_current_metrics(&expected, None, None, None, at(20_000));
    let report = rx.try_recv().unwrap();
    assert_eq!(report[&1].packet_count, 1);
    assert_eq!(report[&1].p50, None);
    assert_eq!(report[&1].total_drops, 0);
    assert!(report[&3].worker_queue_depths.is_empty());
    assert!(rx.try_recv().is_err());
}

#[test]
fn history_keeps_points_apart_and_bounded() {
    let metrics = Metrics::new(Priority::High);
    let report = ClassReport {
        expected_max_latency: Duration::from_millis(1),
        ingress_drops: 2,
        edf_heap_drops: 0,
        edf_output_drops: 4,
    };
    let mut snapshot = take_snapshot(&metrics, report, &None);
    snapshot.max_latency = Some(Duration::from_millis(7));
    let mut history = History::new(3);
    history.record(1, &snapshot, at(1_000));
    history.record(1, &snapshot, at(1_050));
    assert_eq!(history.flows[&1].points.len(), 1);
    history.record(1, &snapshot, at(1_051));
    history.record(1, &snapshot, at(2_000));
    history.record(1, &snapshot, at(4_500));
    history.record(2, &snapshot, at(4_500));
    let flow = &history.flows[&1];
    assert_eq!(flow.points.len(), 3);
    assert_eq!(flow.points[0].time, Duration::from_millis(51));
    assert_eq!(flow.time_range(), Duration::from_millis(3_500));
    assert_eq!(flow.latency_range(Duration::from_millis(1)), Duration::from_millis(7));
    assert_eq!(flow.latency_range(Duration::from_millis(10)), Duration::from_millis(12));
    assert_eq!(flow.remote_latency_range(Duration::from_millis(1)), Duration::from_millis(7));
    assert_eq!(flow.drop_range(), 6);
    assert_eq!(history.flows[&2].time_range(), Duration::from_secs(1));
    assert_eq!(History::new(LOCAL_POINTS).flows.len(), 0);
}

#[test]
fn monitors_plot_up_to_the_greatest_line() {
    let metrics = Metrics::new(Priority::High);
    let report = ClassReport {
        expected_max_latency: Duration::from_millis(1),
        ingress_drops: 0,
        edf_heap_drops: 0,
        edf_output_drops: 0,
    };
    let mut snapshot = take_snapshot(&metrics, report, &None);
    snapshot.max_latency = Some(Duration::from_millis(7));
    snapshot.p95 = Some(Duration::from_millis(9));
    snapshot.avg_latency = Duration::from_millis(8);
    let mut history = History::new(3);
    history.record(1, &snapshot, at(1_000));
    let flow = &history.flows[&1];
    let expected = Duration::from_millis(1);
    assert_eq!(flow.latency_range(expected), Duration::from_millis(9));
    assert_eq!(flow.remote_latency_range(expected), Duration::from_millis(7));
}

use aiedf_pipeline::buffer_pool::BufferPool;
use aiedf_pipeline::packet::{Packet, PacketIds};
use aiedf_pipeline::priority::{Priority, PriorityTable};
use aiedf_pipeline::scheduler::adaptive::{compute_safe_backlog, compute_target_depth};
use aiedf_pipeline::scheduler::cedf::{calculate_slack_time, guard_threshold, CEDFScheduler};
use aiedf_pipeline::scheduler::egress_drr::{EgressDRRScheduler, EgressEvent};
use aiedf_pipeline::scheduler::gedf::GEDFScheduler;
use aiedf_pipeline::scheduler::gedf_vd::GEDFVDScheduler;
use aiedf_pipeline::scheduler::ingress_drr::{datagram_size_hint, IngressDRRScheduler, Reading};
use aiedf_pipeline::scheduler::latency::LatencyTracker;
use aiedf_pipeline::scheduler::mc_edf_elastic::{
    wait_for_high, EdfChannel, HighDistributionStats, MCEDFElasticScheduler, HIGH_BATCH,
};
use aiedf_pipeline::scheduler::multi_worker_edf::{
    guard_window, processing_duration, GuardState, MultiWorkerScheduler, Quotas,
};
use aiedf_pipeline::scheduler::sequence::SequenceTracker;
use aiedf_pipeline::scheduler::single_cpu_edf::SingleCPUEDFScheduler;
use aiedf_pipeline::time::{Duration, Instant};
use crossbeam_channel::{bounded, Receiver, Sender};

struct Ends {
    inputs: PriorityTable<Sender<Packet>>,
    outputs: PriorityTable<Receiver<Packet>>,
}

type Queues = (PriorityTable<Receiver<Packet>>, PriorityTable<Sender<Packet>>);

fn queues(capacity: usize) -> (Ends, Queues) {
    let mut input_senders = Vec::new();
    let mut input_receivers = Vec::new();
    let mut output_senders = Vec::new();
    let mut output_receivers = Vec::new();
    for _ in Priority::ALL {
        let (tx, rx) = bounded(capacity);
        input_senders.push(tx);
        input_receivers.push(rx);
        let (tx, rx) = bounded(capacity);
        output_senders.push(tx);
        output_receivers.push(rx);
    }
    (
        Ends {
            inputs: PriorityTable::from_vec(input_senders),
            outputs: PriorityTable::from_vec(output_receivers),
        },
        (
            PriorityTable::from_vec(input_receivers),
            PriorityTable::from_vec(output_senders),
        ),
    )
}

fn packet(priority: Priority, tag: u8, budget_ms: u64, at_ns: u64) -> Packet {
    let mut pool = BufferPool::new();
    let mut ids = PacketIds::new();
    Packet::new(
        &mut ids,
        &mut pool,
        priority,
        &[tag],
        Duration::from_millis(budget_ms),
        Instant { nanos: at_ns },
    )
}

fn numbered(count: u64, priority: Priority) -> Vec<Packet> {
    let mut pool = BufferPool::new();
    let mut ids = PacketIds::new();
    (0..count)
        .map(|i| {
            Packet::new(
                &mut ids,
                &mut pool,
                priority,
                &[i as u8],
                Duration::from_millis(10),
                Instant { nanos: i },
            )
        })
        .collect()
}

fn tags(rx: &Receiver<Packet>) -> Vec<u8> {
    let mut tags = Vec::new();
    while let Ok(packet) = rx.try_recv() {
        tags.push(packet.payload()[0]);
    }
    tags
}

#[test]
fn ingress_gives_each_class_its_quantum() {
    let (ends, (inputs, outputs)) = queues(8);
    let mut scheduler = IngressDRRScheduler::new(ends.inputs);
    drop((outputs, ends.outputs));
    assert!(scheduler.begin_turn(Priority::High).is_none());
    assert_eq!(scheduler.add_socket(Priority::Low, Duration::from_millis(9), 1), 0);
    assert_eq!(scheduler.add_socket(Priority::High, Duration::from_millis(1), 3), 0);
    assert_eq!(scheduler.add_socket(Priority::High, Duration::from_millis(2), 7), 1);
    // The more critical class has its turn first, though it was registered second.
    assert_eq!(scheduler.active_flows(), vec![Priority::High, Priority::Low]);
    assert_eq!(scheduler.round_order(), vec![Priority::High, Priority::Low]);

    let mut turn = scheduler.begin_turn(Priority::High).unwrap();
    assert_eq!(turn.deficit, 3);
    assert_eq!(turn.latency_budget, Duration::from_millis(1));
    assert_eq!(turn.pick(), Some(0));
    assert!(scheduler.forward(&mut turn, packet(Priority::High, 1, 1, 0)).is_none());
    assert_eq!(turn.pick(), Some(1));
    turn.note(Reading::Nothing);
    assert_eq!(turn.pick(), Some(0));
    turn.note(Reading::Nothing);
    assert_eq!(turn.pick(), Some(1));
    turn.note(Reading::Nothing);
    assert_eq!(turn.pick(), None);
    scheduler.end_turn(turn);
    scheduler.end_round();
    assert_eq!(scheduler.flows[Priority::High].unwrap().deficit, 2);
    assert_eq!(scheduler.begin_turn(Priority::High).unwrap().deficit, 5);
    assert_eq!(scheduler.round_order(), vec![Priority::Low, Priority::High]);
    assert_eq!(tags(&inputs[Priority::High]), vec![1]);
}

#[test]
fn ingress_moves_on_when_the_queue_is_full() {
    let (ends, (inputs, outputs)) = queues(1);
    let mut scheduler = IngressDRRScheduler::new(ends.inputs);
    drop((outputs, ends.outputs));
    scheduler.add_socket(Priority::Medium, Duration::from_millis(9), 4);
    let mut turn = scheduler.begin_turn(Priority::Medium).unwrap();
    turn.pick();
    assert!(scheduler.forward(&mut turn, packet(Priority::Medium, 1, 1, 0)).is_none());
    turn.pick();
    let back = scheduler.forward(&mut turn, packet(Priority::Medium, 2, 1, 0)).unwrap();
    assert_eq!(back.payload(), &[2]);
    assert_eq!(turn.pick(), None);
    assert_eq!(scheduler.get_drop_counts()[Priority::Medium], 1);
    assert_eq!(inputs[Priority::Medium].len(), 1);
}

#[test]
fn datagram_sizes() {
    assert_eq!(datagram_size_hint(Some(700)), 700);
    assert_eq!(datagram_size_hint(Some(0)), 1500);
    assert_eq!(datagram_size_hint(None), 1500);
}

#[test]
fn egress_takes_sockets_in_turn() {
    let (ends, (inputs, outputs)) = queues(8);
    drop((inputs, ends.inputs));
    let mut scheduler = EgressDRRScheduler::new(ends.outputs);
    assert_eq!(scheduler.add_output_socket(Priority::High), 0);
    assert_eq!(scheduler.add_output_socket(Priority::High), 1);
    for packet in numbered(3, Priority::High) {
        outputs[Priority::High].send(packet).unwrap();
    }
    outputs[Priority::Low].send(packet(Priority::Low, 9, 1, 0)).unwrap();
    let now = Instant { nanos: 10_000_001 };
    let mut sockets = Vec::new();
    for _ in 0..3 {
        match scheduler.poll(Priority::High, now) {
            EgressEvent::Emit(out) => {
                sockets.push(out.socket);
                assert!(!out.out_of_order);
                assert_eq!(out.latency.nanos, now.nanos - out.packet.timestamp.nanos);
                assert_eq!(out.deadline_missed, out.packet.timestamp.nanos == 0);
            }
            _ => panic!("expected a packet"),
        }
    }
    assert_eq!(sockets, vec![Some(0), Some(1), Some(0)]);
    assert!(matches!(scheduler.poll(Priority::High, now), EgressEvent::Idle));
    match scheduler.poll(Priority::Low, now) {
        EgressEvent::Emit(out) => assert_eq!(out.socket, None),
        _ => panic!("expected a packet"),
    }
    drop(outputs);
    assert!(matches!(scheduler.poll(Priority::High, now), EgressEvent::Closed));
}

#[test]
fn the_way_out_is_strict() {
    let (ends, (inputs, outputs)) = queues(8);
    drop((inputs, ends.inputs));
    let mut scheduler = EgressDRRScheduler::new(ends.outputs);
    for packet in numbered(2, Priority::High) {
        outputs[Priority::High].send(packet).unwrap();
    }
    outputs[Priority::Medium].send(packet(Priority::Medium, 9, 1, 0)).unwrap();
    let now = Instant { nanos: 5 };
    let mut order = Vec::new();
    while let EgressEvent::Emit(out) = scheduler.next_emission(now) {
        order.push(out.priority);
        if order.len() == 1 {
            outputs[Priority::High].send(packet(Priority::High, 3, 1, 0)).unwrap();
        }
    }
    assert_eq!(
        order,
        vec![Priority::High, Priority::High, Priority::High, Priority::Medium]
    );
    assert!(matches!(scheduler.next_emission(now), EgressEvent::Idle));
    drop(outputs);
    assert!(matches!(scheduler.next_emission(now), EgressEvent::Closed));
}

#[test]
fn sequences_release_packets_in_order() {
    let mut tracker = SequenceTracker::new();
    let mut packets = numbered(3, Priority::High);
    let c = packets.pop().unwrap();
    let b = packets.pop().unwrap();
    let a = packets.pop().unwrap();
    assert_eq!(tracker.assign_sequence(), 0);
    assert_eq!(tracker.assign_sequence(), 1);
    assert_eq!(tracker.assign_sequence(), 2);
    assert!(tracker.complete(2, c).is_empty());
    let out: Vec<u64> = tracker.complete(0, a).iter().map(|packet| packet.id).collect();
    assert_eq!(out, vec![0]);
    let out: Vec<u64> = tracker.complete(1, b).iter().map(|packet| packet.id).collect();
    assert_eq!(out, vec![1, 2]);
}

#[test]
fn quotas_follow_budget_and_cost() {
    assert_eq!(compute_safe_backlog(1_000_000, 100_000), 9);
    assert_eq!(compute_safe_backlog(100_000_000, 1), 512);
    assert_eq!(compute_safe_backlog(10, 1_000), 1);
    assert_eq!(compute_target_depth(9, 0), 9);
    assert_eq!(compute_target_depth(9, 12), 12);
    assert_eq!(compute_target_depth(9, 50), 18);
}

fn multi(ends_capacity: usize) -> (Ends, MultiWorkerScheduler) {
    let (ends, (inputs, outputs)) = queues(ends_capacity);
    let latencies = PriorityTable::of(
        Duration::from_millis(1),
        Duration::from_millis(50),
        Duration::from_millis(100),
        Duration::from_millis(200),
    );
    (ends, MultiWorkerScheduler::new(inputs, outputs, latencies))
}

#[test]
fn workers_take_their_classes_by_deadline() {
    let (ends, mut scheduler) = multi(8);
    ends.inputs[Priority::Low].send(packet(Priority::Low, 1, 100, 0)).unwrap();
    ends.inputs[Priority::Medium].send(packet(Priority::Medium, 2, 50, 0)).unwrap();
    assert!(scheduler.next_work(0).item.is_none());
    let first = scheduler.next_work(2).item.unwrap();
    assert_eq!(first.priority, Priority::Medium);
    let second = scheduler.next_work(2).item.unwrap();
    assert_eq!(second.priority, Priority::Low);
    assert!(scheduler.finish(first).is_empty());
    assert!(scheduler.finish(second).is_empty());
    assert_eq!(tags(&ends.outputs[Priority::Medium]), vec![2]);
    assert_eq!(tags(&ends.outputs[Priority::Low]), vec![1]);
    assert_eq!(scheduler.get_drop_counts().output[Priority::Low], 0);
}

#[test]
fn finished_packets_of_a_class_leave_in_order() {
    let (ends, mut scheduler) = multi(8);
    ends.inputs[Priority::High].send(packet(Priority::High, 1, 10, 0)).unwrap();
    let first = scheduler.next_work(0).item.unwrap();
    ends.inputs[Priority::High].send(packet(Priority::High, 2, 10, 0)).unwrap();
    let second = scheduler.next_work(1).item.unwrap();
    assert!(scheduler.finish(second).is_empty());
    assert!(tags(&ends.outputs[Priority::High]).is_empty());
    scheduler.finish(first);
    assert_eq!(tags(&ends.outputs[Priority::High]), vec![1, 2]);
}

#[test]
fn waiting_work_makes_way_for_the_high_class() {
    let (ends, mut scheduler) = multi(8);
    ends.inputs[Priority::Medium].send(packet(Priority::Medium, 1, 50, 0)).unwrap();
    let round = scheduler.next_work(1);
    let (item, quotas) = (round.item.unwrap(), round.quotas);
    assert_eq!(quotas, Quotas { high: 4, total: 64 });
    let limit = scheduler.guard_limit(&item);
    assert_eq!(limit, Some(Duration::from_micros(80)));
    let until = scheduler.guard(limit, &item, Instant { nanos: 1_000 });
    assert_eq!(until, Some(Instant { nanos: 11_000 }));
    assert_eq!(scheduler.guard(limit, &item, Instant { nanos: 80_000 }), None);
    let quiet = scheduler.guard_poll(1, item, quotas);
    assert_eq!(quiet.state, GuardState::Quiet);
    ends.inputs[Priority::High].send(packet(Priority::High, 2, 1, 0)).unwrap();
    let outcome = scheduler.guard_poll(1, quiet.item, quotas);
    assert_eq!(outcome.state, GuardState::Preempted);
    assert_eq!(outcome.item.priority, Priority::High);
    let again = scheduler.next_work(1).item.unwrap();
    assert_eq!(again.priority, Priority::Medium);
}

#[test]
fn a_round_keeps_the_quotas_that_it_began_with() {
    let (ends, mut scheduler) = multi(8);
    ends.inputs[Priority::Medium].send(packet(Priority::Medium, 1, 50, 0)).unwrap();
    let round = scheduler.next_work(1);
    // From now on the worker may hold one packet of the high class only.
    scheduler.autobalance();
    assert_eq!(scheduler.adaptive.priority_limits(1)[Priority::High], 1);
    assert_eq!(round.quotas.high, 4);
    let tracker = scheduler.completion.trackers.get_mut(Priority::High);
    scheduler.workers[1].accept(Priority::High, tracker, packet(Priority::High, 2, 9, 0));
    let outcome = scheduler.guard_poll(1, round.item.unwrap(), round.quotas);
    assert_eq!(outcome.state, GuardState::Quiet);
    let later = Quotas { high: 1, total: 64 };
    assert_eq!(scheduler.guard_poll(1, outcome.item, later).state, GuardState::Blocked);
}

#[test]
fn worker_statistics_show_the_limits() {
    let (ends, mut scheduler) = multi(8);
    let stats = scheduler.stats();
    assert_eq!(stats.worker_queue_capacities, vec![16, 64, 256]);
    assert_eq!(stats.worker_queue_depths, vec![0, 0, 0]);
    assert_eq!(stats.dispatcher_backlog, 0);
    ends.inputs[Priority::Low].send(packet(Priority::Low, 1, 100, 0)).unwrap();
    ends.inputs[Priority::Low].send(packet(Priority::Low, 2, 200, 0)).unwrap();
    let item = scheduler.next_work(2).item.unwrap();
    assert_eq!(scheduler.stats().worker_priority_depths[2], vec![0, 0, 1, 0]);
    scheduler.finish(item);
    scheduler.autobalance();
    assert_eq!(scheduler.stats().worker_queue_capacities[0], 7);
    scheduler.retire(2);
    assert_eq!(scheduler.stats().worker_queue_depths[2], 0);
}

#[test]
fn guard_windows_end_with_the_permitted_wait() {
    let at = |nanos: u64| Instant { nanos };
    let slice = Duration::from_micros(10);
    assert_eq!(guard_window(None, slice, at(0), at(0)), None);
    let limit = Some(Duration::from_micros(25));
    assert_eq!(guard_window(limit, slice, at(0), at(0)), Some(at(10_000)));
    assert_eq!(guard_window(limit, slice, at(0), at(20_000)), Some(at(25_000)));
    assert_eq!(guard_window(limit, slice, at(0), at(25_000)), None);
    assert_eq!(processing_duration(&packet(Priority::Low, 1, 1, 0)).nanos, 50_000);
}

#[test]
fn shared_queue_is_ordered_by_deadline() {
    let (ends, (inputs, outputs)) = queues(8);
    let mut scheduler = GEDFScheduler::new(inputs, outputs);
    assert!(!scheduler.shared_queue.dispatch());
    ends.inputs[Priority::High].send(packet(Priority::High, 1, 40, 0)).unwrap();
    ends.inputs[Priority::Low].send(packet(Priority::Low, 2, 30, 0)).unwrap();
    ends.inputs[Priority::Low].send(packet(Priority::Low, 3, 20, 0)).unwrap();
    assert!(scheduler.shared_queue.dispatch());
    let first = scheduler.shared_queue.pop().unwrap();
    assert_eq!(first.packet.payload(), &[2]);
    assert!(scheduler.shared_queue.dispatch());
    let second = scheduler.shared_queue.pop().unwrap();
    assert_eq!(second.packet.payload(), &[3]);
    let third = scheduler.shared_queue.pop().unwrap();
    assert_eq!(third.priority, Priority::High);
    assert!(scheduler.shared_queue.pop().is_none());
    assert!(scheduler.shared_queue.finish(first).is_none());
    assert_eq!(tags(&ends.outputs[Priority::Low]), vec![2]);
    drop(ends);
    assert!(scheduler.shared_queue.finish(second).is_some());
    assert_eq!(scheduler.get_drop_counts().output[Priority::Low], 1);
}

#[test]
fn virtual_deadlines_favour_the_high_class() {
    let (ends, (inputs, outputs)) = queues(8);
    let mut scheduler = GEDFVDScheduler::new(inputs, outputs);
    ends.inputs[Priority::High].send(packet(Priority::High, 1, 100, 0)).unwrap();
    ends.inputs[Priority::Medium].send(packet(Priority::Medium, 2, 10, 0)).unwrap();
    ends.inputs[Priority::Low].send(packet(Priority::Low, 3, 20, 0)).unwrap();
    ends.inputs[Priority::BestEffort].send(packet(Priority::BestEffort, 4, 9, 0)).unwrap();
    scheduler.shared_queue.dispatch();
    let mut order = Vec::new();
    while let Some(task) = scheduler.shared_queue.pop() {
        order.push((task.packet.payload()[0], task.deadline.nanos));
    }
    assert_eq!(
        order,
        vec![(1, 5_000_000), (2, 6_000_000), (4, 9_000_000), (3, 15_000_000)]
    );
    assert_eq!(scheduler.get_drop_counts().heap, 0);
}

#[test]
fn slack_may_be_negative() {
    let task = packet(Priority::High, 1, 1, 0);
    assert_eq!(calculate_slack_time(&task, Instant { nanos: 0 }), 950_000);
    assert_eq!(calculate_slack_time(&task, Instant { nanos: 2_000_000 }), -1_050_000);
}

#[test]
fn least_slack_goes_first() {
    let (ends, (inputs, outputs)) = queues(8);
    let mut scheduler = CEDFScheduler::new(inputs, outputs);
    scheduler.start_workers(2, Instant { nanos: 0 });
    ends.inputs[Priority::Low].send(packet(Priority::Low, 1, 100, 0)).unwrap();
    ends.inputs[Priority::Medium].send(packet(Priority::Medium, 2, 10, 0)).unwrap();
    ends.inputs[Priority::High].send(packet(Priority::High, 3, 1, 0)).unwrap();
    assert!(scheduler.dispatch(Instant { nanos: 0 }));
    assert_eq!(ends.inputs[Priority::Low].len(), 1);
    assert!(scheduler.dispatch(Instant { nanos: 0 }));
    assert!(!scheduler.dispatch(Instant { nanos: 0 }));
    let first = scheduler.next_task(0).unwrap();
    assert_eq!(first.priority, Priority::High);
    let other = scheduler.next_task(1).unwrap();
    assert_eq!(other.priority, Priority::Medium);
    assert!(scheduler.finish(0, first, Instant { nanos: 60_000 }).is_none());
    assert_eq!(tags(&ends.outputs[Priority::High]), vec![3]);
    ends.inputs[Priority::High].send(packet(Priority::High, 4, 1, 0)).unwrap();
    let start = Instant { nanos: 60_000 };
    let outcome = scheduler.run_poll(1, other, start, start, Instant { nanos: 80_000 });
    assert_eq!(outcome.state, GuardState::Preempted);
    assert_eq!(outcome.task.packet.payload(), &[4]);
    let back = scheduler.next_task(1).unwrap();
    assert_eq!(back.priority, Priority::Medium);
    assert_eq!(back.estimated_processing, Duration::from_nanos(30_000));
}

#[test]
fn high_class_is_never_interrupted() {
    let (ends, (inputs, outputs)) = queues(8);
    let mut scheduler = CEDFScheduler::new(inputs, outputs);
    scheduler.start_workers(1, Instant { nanos: 0 });
    ends.inputs[Priority::High].send(packet(Priority::High, 1, 10, 0)).unwrap();
    scheduler.dispatch(Instant { nanos: 0 });
    let task = scheduler.next_task(0).unwrap();
    ends.inputs[Priority::High].send(packet(Priority::High, 2, 1, 0)).unwrap();
    let start = Instant { nanos: 0 };
    let outcome = scheduler.run_poll(0, task, start, start, Instant { nanos: 40_000 });
    assert_eq!(outcome.task.packet.payload(), &[1]);
    assert_eq!(scheduler.guard(&outcome.task, start), None);
}

#[test]
fn waits_leave_time_for_the_work() {
    let now = Instant { nanos: 0 };
    let medium = packet(Priority::Medium, 1, 50, 0);
    assert_eq!(
        guard_threshold(Priority::Medium, &medium, Duration::from_millis(49), now),
        Some(Duration::from_millis(1))
    );
    assert_eq!(
        guard_threshold(Priority::Medium, &medium, Duration::from_millis(1), now),
        Some(Duration::from_millis(3))
    );
    assert_eq!(
        guard_threshold(Priority::Medium, &medium, Duration::from_millis(50), now),
        None
    );
    assert_eq!(
        guard_threshold(Priority::High, &medium, Duration::from_millis(1), now),
        None
    );
}

#[test]
fn largest_recent_latency_is_known() {
    let mut tracker = LatencyTracker::new();
    assert_eq!(tracker.get_p100(), Duration::from_nanos(0));
    tracker.record_latency(Duration::from_micros(900));
    for _ in 0..999 {
        tracker.record_latency(Duration::from_nanos(5_999));
    }
    assert_eq!(tracker.get_p100(), Duration::from_micros(900));
    tracker.record_latency(Duration::from_micros(1));
    assert_eq!(tracker.get_p100(), Duration::from_micros(5));
}

#[test]
fn high_packets_are_spread_over_the_channels() {
    let mut stats = HighDistributionStats::new();
    assert_eq!(stats.find_best_channel(), EdfChannel::High);
    stats.record_distribution(EdfChannel::High, Duration::from_micros(10));
    assert_eq!(stats.find_best_channel(), EdfChannel::Medium);
    stats.record_distribution(EdfChannel::Medium, Duration::from_micros(500));
    assert_eq!(stats.find_best_channel(), EdfChannel::Low);
    stats.record_distribution(EdfChannel::Low, Duration::from_micros(20));
    assert_eq!(stats.find_best_channel(), EdfChannel::High);
}

#[test]
fn channels_hand_packets_to_the_merge() {
    let (ends, (inputs, outputs)) = queues(64);
    let mut scheduler = MCEDFElasticScheduler::new(inputs, outputs);
    let now = Instant { nanos: 0 };
    ends.inputs[Priority::High].send(packet(Priority::High, 1, 8, 0)).unwrap();
    ends.inputs[Priority::Medium].send(packet(Priority::Medium, 2, 3, 0)).unwrap();
    ends.inputs[Priority::Low].send(packet(Priority::Low, 3, 7, 0)).unwrap();
    ends.inputs[Priority::BestEffort].send(packet(Priority::BestEffort, 4, 5, 0)).unwrap();
    assert!(scheduler.dispatcher.dispatch(now).is_empty());
    let high = scheduler.high.next_task().unwrap();
    assert_eq!(high.virtual_deadline, Instant { nanos: 200_000 });
    assert_eq!(high.real_deadline, Instant { nanos: 8_000_000 });
    assert!(scheduler.high.next_task().is_none());
    let next = scheduler.medium.next_task();
    assert!(!next.high_arrived);
    let medium = next.task.unwrap();
    assert_eq!(medium.virtual_deadline, Instant { nanos: 1_500_000 });
    let low = scheduler.low.next_task().task.unwrap();
    assert_eq!(low.packet.payload(), &[4]);
    assert_eq!(low.virtual_deadline, Instant { nanos: 5_000_000 });

    let timeout = wait_for_high(Some(0));
    let low = scheduler.low.await_high(low, timeout).unwrap();
    assert!(scheduler.high.finish(high).is_none());
    assert!(scheduler.medium.finish(medium).is_none());
    assert!(scheduler.low.finish(low).is_none());
    assert_eq!(scheduler.reorder.step().unwrap().0, Priority::Medium);
    assert_eq!(scheduler.reorder.step().unwrap().0, Priority::BestEffort);
    assert_eq!(scheduler.reorder.step().unwrap().0, Priority::High);
    assert!(scheduler.reorder.step().is_none());
    assert_eq!(tags(&ends.outputs[Priority::High]), vec![1]);
    assert_eq!(tags(&ends.outputs[Priority::Medium]), vec![2]);
    assert_eq!(tags(&ends.outputs[Priority::BestEffort]), vec![4]);
    assert_eq!(scheduler.get_drop_counts().output[Priority::Low], 0);
}

#[test]
fn late_high_packet_interrupts_a_mixed_channel() {
    let (ends, (inputs, outputs)) = queues(64);
    let mut scheduler = MCEDFElasticScheduler::new(inputs, outputs);
    let now = Instant { nanos: 0 };
    ends.inputs[Priority::Medium].send(packet(Priority::Medium, 2, 3, 0)).unwrap();
    scheduler.dispatcher.dispatch(now);
    let medium = scheduler.medium.next_task().task.unwrap();
    // The first channel has a packet already, so the next one goes to the second.
    scheduler.dispatcher.stats.record_distribution(EdfChannel::High, Duration::from_micros(1));
    ends.inputs[Priority::High].send(packet(Priority::High, 1, 8, 0)).unwrap();
    scheduler.dispatcher.dispatch(now);
    assert!(scheduler.medium.await_high(medium, wait_for_high(None)).is_none());
    let next = scheduler.medium.next_task();
    assert!(!next.high_arrived);
    assert!(next.task.unwrap().high);
    assert!(!scheduler.medium.next_task().task.unwrap().high);
    assert!(scheduler.medium.next_task().task.is_none());
}

#[test]
fn dispatcher_takes_high_packets_by_batches() {
    let (ends, (inputs, outputs)) = queues(64);
    let mut scheduler = MCEDFElasticScheduler::new(inputs, outputs);
    let now = Instant { nanos: 1_000_000 };
    for packet in numbered(40, Priority::High) {
        ends.inputs[Priority::High].send(packet).unwrap();
    }
    scheduler.dispatcher.dispatch(now);
    assert_eq!(ends.inputs[Priority::High].len(), 40 - HIGH_BATCH);
    let counts = |scheduler: &MCEDFElasticScheduler| {
        let stats = &scheduler.dispatcher.stats;
        (stats.high.count, stats.medium.count, stats.low.count)
    };
    assert_eq!(counts(&scheduler), (11, 11, 10));
    assert_eq!(scheduler.high.input.len(), 11);
    scheduler.dispatcher.dispatch(now);
    assert_eq!(ends.inputs[Priority::High].len(), 0);
    assert_eq!(counts(&scheduler), (14, 13, 13));
    let next = scheduler.medium.next_task();
    assert!(next.high_arrived);
    assert_eq!(next.task.unwrap().packet.payload(), &[1]);
}

#[test]
fn a_burst_goes_to_all_three_channels() {
    let (ends, (inputs, outputs)) = queues(64);
    let mut scheduler = MCEDFElasticScheduler::new(inputs, outputs);
    for tag in 1..4 {
        ends.inputs[Priority::High].send(packet(Priority::High, tag, 10, 0)).unwrap();
    }
    scheduler.dispatcher.dispatch(Instant { nanos: 0 });
    assert_eq!(scheduler.high.next_task().unwrap().packet.payload(), &[1]);
    assert_eq!(scheduler.medium.next_task().task.unwrap().packet.payload(), &[2]);
    assert_eq!(scheduler.low.next_task().task.unwrap().packet.payload(), &[3]);
    assert!(scheduler.high.next_task().is_none());
    assert_eq!(scheduler.dispatcher.stats.low.slack, Duration::from_millis(10));
}

#[test]
fn high_packets_leave_by_the_high_output() {
    let (ends, (inputs, outputs)) = queues(64);
    let mut scheduler = MCEDFElasticScheduler::new(inputs, outputs);
    scheduler.medium.accept(Priority::High, packet(Priority::High, 7, 10, 0));
    let task = scheduler.medium.next_task().task.unwrap();
    assert!(scheduler.medium.finish(task).is_none());
    assert_eq!(scheduler.reorder.step().unwrap().0, Priority::High);
    assert_eq!(tags(&ends.outputs[Priority::High]), vec![7]);
    assert!(tags(&ends.outputs[Priority::Medium]).is_empty());
}

#[test]
fn queues_decide_how_packets_are_treated() {
    let (ends, (inputs, outputs)) = queues(64);
    let mut scheduler = MCEDFElasticScheduler::new(inputs, outputs);
    let now = Instant { nanos: 0 };
    // A packet of the low class on the queue for the high class, and one the other way round.
    ends.inputs[Priority::High].send(packet(Priority::Low, 1, 8, 0)).unwrap();
    ends.inputs[Priority::Low].send(packet(Priority::High, 2, 8, 0)).unwrap();
    assert!(scheduler.dispatcher.dispatch(now).is_empty());
    let first = scheduler.high.next_task().unwrap();
    assert!(first.high);
    assert_eq!(first.virtual_deadline, Instant { nanos: 200_000 });
    let second = scheduler.low.next_task().task.unwrap();
    assert!(!second.high);
    assert_eq!(second.virtual_deadline, Instant { nanos: 8_000_000 });
}

#[test]
fn packets_for_channels_that_are_gone_come_back() {
    let (ends, (inputs, outputs)) = queues(64);
    let MCEDFElasticScheduler { mut dispatcher, high, medium, low, .. } =
        MCEDFElasticScheduler::new(inputs, outputs);
    drop((high, medium, low));
    ends.inputs[Priority::BestEffort].send(packet(Priority::BestEffort, 4, 9, 0)).unwrap();
    ends.inputs[Priority::Low].send(packet(Priority::Low, 3, 9, 0)).unwrap();
    ends.inputs[Priority::Medium].send(packet(Priority::Medium, 2, 9, 0)).unwrap();
    ends.inputs[Priority::High].send(packet(Priority::High, 0, 9, 0)).unwrap();
    ends.inputs[Priority::High].send(packet(Priority::High, 1, 9, 0)).unwrap();
    let lost = dispatcher.dispatch(Instant { nanos: 0 });
    let tags: Vec<u8> = lost.iter().map(|packet| packet.payload()[0]).collect();
    assert_eq!(tags, vec![0, 1, 2, 3, 4]);
    assert_eq!(dispatcher.stats, HighDistributionStats::new());
}

#[test]
fn waits_for_the_high_class_are_short() {
    assert_eq!(wait_for_high(None), Duration::from_micros(50));
    assert_eq!(wait_for_high(Some(7)), Duration::from_micros(7));
    assert_eq!(wait_for_high(Some(700)), Duration::from_micros(50));
}

#[test]
fn single_cpu_scheduler_reads_empty_queues_only() {
    let (ends, (inputs, outputs)) = queues(1);
    drop((inputs, ends.inputs));
    let mut scheduler = SingleCPUEDFScheduler::new(outputs);
    assert_eq!(scheduler.add_socket(Priority::High, Duration::from_millis(1)), 0);
    assert_eq!(scheduler.add_socket(Priority::High, Duration::from_millis(2)), 1);
    assert!(scheduler.needs_refill(Priority::High));
    assert!(!scheduler.needs_refill(Priority::BestEffort));
    scheduler.refill_edf(Priority::High, packet(Priority::High, 1, 5, 0));
    scheduler.refill_edf(Priority::Medium, packet(Priority::Medium, 2, 4, 0));
    assert!(!scheduler.needs_refill(Priority::High));
    let task = scheduler.process_next().unwrap();
    assert_eq!(task.packet.payload(), &[2]);
    assert_eq!(SingleCPUEDFScheduler::processing_time(&task.packet).nanos, 100_000);
    assert!(scheduler.forward(task.packet).is_none());
    assert_eq!(scheduler.process_next().unwrap().packet.payload(), &[1]);
    assert!(scheduler.process_next().is_none());
    let extra = packet(Priority::Medium, 3, 4, 0);
    assert!(scheduler.forward(extra).is_some());
    assert_eq!(scheduler.get_drop_counts().output[Priority::Medium], 1);
}

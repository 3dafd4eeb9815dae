use aiedf_pipeline::buffer_pool::BufferPool;
use aiedf_pipeline::channel::SendOutcome;
use aiedf_pipeline::packet::{Packet, PacketIds};
use aiedf_pipeline::priority::{Priority, PriorityTable};
use aiedf_pipeline::scheduler::cedf::CEDFScheduler;
use aiedf_pipeline::scheduler::completion::{CompletionRouter, WorkItem};
use aiedf_pipeline::scheduler::edf::EDFScheduler;
use aiedf_pipeline::scheduler::mc_edf_elastic::{EdfChannel, MCEDFElasticScheduler};
use aiedf_pipeline::scheduler::multi_worker_edf::{GuardState, MultiWorkerScheduler};
use aiedf_pipeline::scheduler::output::{settle, send_packet};
use aiedf_pipeline::scheduler::waiting::{GuardWait, WaitStep, WorkRun, WorkStep, WorkerWait};
use aiedf_pipeline::scheduler::worker_queue::WorkerQueue;
use aiedf_pipeline::time::{Duration, Instant};
use crossbeam_channel::{bounded, Receiver, Sender};

fn packet(priority: Priority, tag: u8, budget_ms: u64) -> Packet {
    let mut pool = BufferPool::new();
    let mut ids = PacketIds::new();
    Packet::new(
        &mut ids,
        &mut pool,
        priority,
        &[tag],
        Duration::from_millis(budget_ms),
        Instant { nanos: 0 },
    )
}

fn item(priority: Priority, sequence: u64, budget_ms: u64) -> WorkItem {
    WorkItem {
        priority,
        sequence,
        packet: packet(priority, sequence as u8, budget_ms),
    }
}

fn ends(capacity: usize) -> (PriorityTable<Sender<Packet>>, PriorityTable<Receiver<Packet>>) {
    let mut senders = Vec::new();
    let mut receivers = Vec::new();
    for _ in Priority::ALL {
        let (tx, rx) = bounded(capacity);
        senders.push(tx);
        receivers.push(rx);
    }
    (PriorityTable::from_vec(senders), PriorityTable::from_vec(receivers))
}

#[test]
fn quotas_keep_work_out() {
    let mut queue = WorkerQueue::new();
    let limits = PriorityTable::of(1, 2, 0, 4);
    assert!(queue.push_with_capacity(item(Priority::High, 0, 10), &limits, 3).is_ok());
    // The class has used up its quota.
    let back = queue.push_with_capacity(item(Priority::High, 1, 10), &limits, 3).unwrap_err();
    assert_eq!(back.sequence, 1);
    // The class has no quota.
    assert!(queue.push_with_capacity(item(Priority::Low, 2, 10), &limits, 3).is_err());
    assert!(queue.push_with_capacity(item(Priority::Medium, 3, 5), &limits, 3).is_ok());
    assert!(queue.push_with_capacity(item(Priority::Medium, 4, 7), &limits, 3).is_ok());
    // The queue is full.
    assert!(queue.push_with_capacity(item(Priority::BestEffort, 5, 1), &limits, 3).is_err());
    assert_eq!(queue.len(), 3);
    assert_eq!(queue.count(Priority::Medium), 2);
    assert_eq!(queue.pop().unwrap().sequence, 3);
    assert_eq!(queue.pop().unwrap().sequence, 4);
    assert_eq!(queue.pop().unwrap().sequence, 0);
    assert!(queue.pop().is_none());
}

#[test]
fn router_numbers_each_class_by_itself() {
    let (outputs, receivers) = ends(4);
    let mut router = CompletionRouter::new(outputs);
    let first = router.prepare(Priority::Low, packet(Priority::Low, 1, 10));
    let second = router.prepare(Priority::Low, packet(Priority::Low, 2, 10));
    let other = router.prepare(Priority::High, packet(Priority::High, 3, 10));
    assert_eq!((first.sequence, second.sequence, other.sequence), (0, 1, 0));
    assert!(router.complete(second).is_empty());
    assert!(receivers[Priority::Low].try_recv().is_err());
    assert!(router.complete(other).is_empty());
    assert!(router.complete(first).is_empty());
    assert_eq!(receivers[Priority::High].try_recv().unwrap().payload(), &[3]);
    assert_eq!(receivers[Priority::Low].try_recv().unwrap().payload(), &[1]);
    assert_eq!(receivers[Priority::Low].try_recv().unwrap().payload(), &[2]);
}

#[test]
fn packets_that_come_back_are_counted() {
    let mut drops = u64::MAX;
    assert!(settle(&mut drops, SendOutcome::Sent).is_none());
    assert_eq!(drops, u64::MAX);
    let back = settle(&mut drops, SendOutcome::Full(packet(Priority::High, 1, 10)));
    assert_eq!(back.unwrap().payload(), &[1]);
    assert_eq!(drops, 0);
    let back = settle(&mut drops, SendOutcome::Disconnected(packet(Priority::High, 2, 10)));
    assert_eq!(back.unwrap().payload(), &[2]);
    assert_eq!(drops, 1);
}

#[test]
fn offers_fail_when_full_or_closed() {
    let (mut tx, rx) = bounded(1);
    let mut drops = 0;
    assert!(send_packet(&mut tx, &mut drops, packet(Priority::High, 1, 10)).is_none());
    let back = send_packet(&mut tx, &mut drops, packet(Priority::High, 2, 10));
    assert_eq!(back.unwrap().payload(), &[2]);
    assert_eq!(rx.try_recv().unwrap().payload(), &[1]);
    drop(rx);
    assert!(send_packet(&mut tx, &mut drops, packet(Priority::High, 3, 10)).is_some());
    assert_eq!(drops, 2);
}

#[test]
fn accepted_packets_are_scheduled_by_deadline() {
    let (_inputs, input_queues) = ends(4);
    let (outputs, _receivers) = ends(4);
    let mut scheduler = EDFScheduler::new(input_queues, outputs, 16);
    scheduler.accept(Priority::High, packet(Priority::High, 1, 10));
    scheduler.accept(Priority::Low, packet(Priority::Low, 2, 5));
    assert_eq!(scheduler.process_next().unwrap().0, Priority::Low);
    assert_eq!(scheduler.process_next().unwrap().0, Priority::High);
    assert!(scheduler.process_next().is_none());
}

#[test]
fn accepted_packets_get_the_next_number() {
    let (_inputs, input_queues) = ends(4);
    let (outputs, _receivers) = ends(4);
    let mut scheduler =
        MultiWorkerScheduler::new(input_queues, outputs, PriorityTable::of(
            Duration::from_millis(1),
            Duration::from_millis(50),
            Duration::from_millis(100),
            Duration::from_millis(100),
        ));
    let tracker = scheduler.completion.trackers.get_mut(Priority::Medium);
    scheduler.workers[1].accept(Priority::Medium, tracker, packet(Priority::Medium, 1, 50));
    scheduler.workers[1].accept(Priority::Medium, tracker, packet(Priority::Medium, 2, 40));
    let first = scheduler.next_work(1).item.unwrap();
    assert_eq!((first.sequence, first.packet.payload()), (1, &[2][..]));
    let second = scheduler.next_work(1).item.unwrap();
    assert_eq!((second.sequence, second.packet.payload()), (0, &[1][..]));
}

#[test]
fn channels_order_accepted_packets() {
    let (_inputs, input_queues) = ends(4);
    let (outputs, _receivers) = ends(4);
    let mut scheduler = MCEDFElasticScheduler::new(input_queues, outputs);
    scheduler.high.accept(packet(Priority::High, 1, 8));
    scheduler.high.accept(packet(Priority::High, 2, 4));
    // The first channel works in the order of arrival.
    assert_eq!(scheduler.high.next_task().unwrap().packet.payload(), &[1]);
    assert_eq!(scheduler.high.next_task().unwrap().packet.payload(), &[2]);
    scheduler.medium.accept(Priority::Medium, packet(Priority::Medium, 3, 3));
    scheduler.medium.accept(Priority::High, packet(Priority::High, 4, 8));
    assert_eq!(scheduler.medium.next_task().task.unwrap().packet.payload(), &[4]);
    assert_eq!(scheduler.medium.next_task().task.unwrap().packet.payload(), &[3]);
}

#[test]
fn accepted_packets_go_to_a_worker() {
    let (_inputs, input_queues) = ends(4);
    let (outputs, _receivers) = ends(4);
    let mut scheduler = CEDFScheduler::new(input_queues, outputs);
    scheduler.start_workers(2, Instant { nanos: 0 });
    scheduler.accept(Priority::Low, packet(Priority::Low, 1, 100), Instant { nanos: 0 });
    scheduler.accept(Priority::Low, packet(Priority::Low, 2, 90), Instant { nanos: 0 });
    assert!(scheduler.next_task(0).is_some());
    assert!(scheduler.next_task(1).is_some());
    assert!(scheduler.next_task(0).is_none());
    assert!(scheduler.next_task(1).is_none());
}

#[test]
fn only_packets_that_a_channel_took_count_as_load() {
    let (_inputs, input_queues) = ends(4);
    let (outputs, _receivers) = ends(4);
    let mut scheduler = MCEDFElasticScheduler::new(input_queues, outputs);
    let slack = Duration::from_micros(7);
    let back = SendOutcome::Disconnected(packet(Priority::High, 1, 10));
    let lost = scheduler.dispatcher.note_sent(EdfChannel::Medium, slack, back);
    assert_eq!(lost.unwrap().payload(), &[1]);
    assert_eq!(scheduler.dispatcher.stats.medium.count, 0);
    let lost = scheduler.dispatcher.note_sent(EdfChannel::Medium, slack, SendOutcome::Sent);
    assert!(lost.is_none());
    assert_eq!(scheduler.dispatcher.stats.medium.count, 1);
    assert_eq!(scheduler.dispatcher.stats.medium.slack, slack);
    assert_eq!(scheduler.dispatcher.stats.high.count, 0);
}

#[test]
fn a_pass_takes_all_high_packets_and_one_other() {
    let (inputs, input_queues) = ends(8);
    let (outputs, _receivers) = ends(8);
    let mut scheduler = CEDFScheduler::new(input_queues, outputs);
    scheduler.start_workers(1, Instant { nanos: 0 });
    for tag in 0..3 {
        inputs[Priority::High].send(packet(Priority::High, tag, 10)).unwrap();
    }
    inputs[Priority::Low].send(packet(Priority::Low, 3, 10)).unwrap();
    inputs[Priority::BestEffort].send(packet(Priority::BestEffort, 4, 10)).unwrap();
    assert!(scheduler.dispatch(Instant { nanos: 0 }));
    assert_eq!(inputs[Priority::High].len(), 0);
    assert_eq!(inputs[Priority::Low].len(), 0);
    assert_eq!(inputs[Priority::BestEffort].len(), 1);
}

#[test]
fn waits_go_by_slices() {
    let at = |micros: u64| Instant { nanos: 1000 * micros };
    let waiting = packet(Priority::Medium, 1, 10);
    let mut wait = GuardWait::begin(Some(Duration::from_micros(70)), at(0));
    assert_eq!(wait.step(at(49)), WaitStep::Look);
    wait.note(GuardState::Quiet);
    assert_eq!(wait.step(at(50)), WaitStep::Renew);
    wait.renew(&waiting, at(50));
    // The second slice is cut short by the limit.
    assert_eq!(wait.until, Some(at(70)));
    wait.renew(&waiting, at(70));
    assert_eq!(wait.step(at(70)), WaitStep::Over);

    let mut wait = GuardWait::begin(Some(Duration::from_micros(70)), at(0));
    wait.note(GuardState::Preempted);
    assert_eq!(wait.step(at(1)), WaitStep::Over);
    // The budget of ten milliseconds leaves twice the work of 50 us no more.
    let mut wait = GuardWait::begin(Some(Duration::from_millis(20)), at(0));
    wait.renew(&waiting, at(9_900));
    assert_eq!(wait.step(at(9_900)), WaitStep::Over);
    assert_eq!(GuardWait::begin(None, at(0)).step(at(0)), WaitStep::Over);
}

#[test]
fn quotas_end_a_slice_but_not_the_wait() {
    let mut wait = WorkerWait::begin();
    let now = Instant { nanos: 5 };
    assert_eq!(wait.step(now), WaitStep::Renew);
    wait.renew(Some(Instant { nanos: 9 }));
    assert_eq!(wait.step(now), WaitStep::Look);
    wait.note(GuardState::Blocked);
    assert_eq!(wait.step(now), WaitStep::Renew);
    wait.renew(Some(Instant { nanos: 9 }));
    wait.note(GuardState::Closed);
    assert_eq!(wait.step(now), WaitStep::Over);
    let mut wait = WorkerWait::begin();
    wait.renew(None);
    assert_eq!(wait.step(now), WaitStep::Over);
}

#[test]
fn work_is_looked_after_at_intervals() {
    let (_inputs, input_queues) = ends(4);
    let (outputs, _receivers) = ends(4);
    let mut scheduler = CEDFScheduler::new(input_queues, outputs);
    scheduler.start_workers(1, Instant { nanos: 0 });
    scheduler.accept(Priority::Low, packet(Priority::Low, 1, 100), Instant { nanos: 0 });
    let task = scheduler.next_task(0).unwrap();
    let at = |nanos: u64| Instant { nanos };
    let mut run = WorkRun::begin(at(0));
    assert_eq!(run.step(&task, at(9_999)), WorkStep::Work);
    assert_eq!(run.step(&task, at(10_000)), WorkStep::Look);
    run.note(GuardState::Quiet, at(10_000), at(10_500));
    assert_eq!(run.step(&task, at(19_999)), WorkStep::Work);
    assert_eq!(run.step(&task, at(50_000)), WorkStep::Done);
    run.note(GuardState::Preempted, at(20_000), at(20_100));
    assert_eq!((run.started, run.last_check), (at(20_100), at(20_000)));
}

#[test]
fn packets_of_a_class_keep_their_order_and_are_counted() {
    let (inputs, input_queues) = ends(8);
    let (outputs, receivers) = ends(3);
    let mut scheduler = EDFScheduler::new(input_queues, outputs, 16);
    for tag in 0..5 {
        inputs[Priority::Low].send(packet(Priority::Low, tag, 10)).unwrap();
    }
    for _ in 0..4 {
        let (_, task) = scheduler.process_next().unwrap();
        scheduler.forward(task.packet);
    }
    // Four of five were handed over: three were taken and one was dropped. The last one waits.
    let out: Vec<u8> = receivers[Priority::Low].try_iter().map(|p| p.payload()[0]).collect();
    assert_eq!(out, vec![0, 1, 2]);
    assert_eq!(scheduler.get_drop_counts().output[Priority::Low], 1);
    assert_eq!(inputs[Priority::Low].len(), 1);
}

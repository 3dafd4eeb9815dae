use aiedf_pipeline::buffer_pool::BufferPool;
use aiedf_pipeline::edf_scheduler::{hash_payload, EDFScheduler};
use aiedf_pipeline::packet::{Packet, PacketIds};
use aiedf_pipeline::priority::{Priority, PriorityTable};
use aiedf_pipeline::time::{Duration, Instant};
use crossbeam_channel::{bounded, Receiver, Sender};

struct SchedulerHarness {
    scheduler: EDFScheduler,
    inputs: PriorityTable<Sender<Packet>>,
    outputs: PriorityTable<Receiver<Packet>>,
    pool: BufferPool,
    ids: PacketIds,
}

impl SchedulerHarness {
    fn new(capacity: usize, max_heap: usize) -> Self {
        let mut input_senders = Vec::new();
        let mut input_receivers = Vec::new();
        let mut output_senders = Vec::new();
        let mut output_receivers = Vec::new();
        for _ in Priority::ALL {
            let (tx, rx) = bounded(capacity);
            input_senders.push(tx);
            input_receivers.push(rx);
            let (tx, rx) = bounded(capacity);
            output_senders.push(tx);
            output_receivers.push(rx);
        }
        let scheduler = EDFScheduler::new(
            PriorityTable::from_vec(input_receivers),
            PriorityTable::from_vec(output_senders),
            max_heap,
        );
        SchedulerHarness {
            scheduler,
            inputs: PriorityTable::from_vec(input_senders),
            outputs: PriorityTable::from_vec(output_receivers),
            pool: BufferPool::new(),
            ids: PacketIds::new(),
        }
    }

    fn packet(
        &mut self,
        priority: Priority,
        data: Vec<u8>,
        latency_budget: Duration,
        timestamp: Instant,
    ) -> Packet {
        Packet::new(&mut self.ids, &mut self.pool, priority, &data, latency_budget, timestamp)
    }

    fn enqueue(
        &mut self,
        priority: Priority,
        data: Vec<u8>,
        latency_budget: Duration,
        timestamp: Instant,
    ) {
        let packet = self.packet(priority, data, latency_budget, timestamp);
        self.inputs[priority].send(packet).unwrap();
    }

    fn step(&mut self) {
        if let Some(task) = self.scheduler.process_next().taken {
            let _ = self.scheduler.forward(task.packet);
        }
    }

    fn has_tasks(&self) -> bool {
        self.scheduler.has_tasks(&PriorityTable::of(
            Some(&self.inputs[Priority::High]),
            Some(&self.inputs[Priority::Medium]),
            Some(&self.inputs[Priority::Low]),
            Some(&self.inputs[Priority::BestEffort]),
        ))
    }
}

#[test]
fn edf_scheduler_scheduler_initializes_empty() {
    let harness = SchedulerHarness::new(4, 16);
    assert!(harness.scheduler.tasks.is_empty());
}

#[test]
fn edf_scheduler_scheduler_processes_single_packet() {
    let mut harness = SchedulerHarness::new(4, 16);
    let now = Instant { nanos: 1_000 };
    harness.enqueue(Priority::High, vec![1], Duration::from_millis(10), now);
    harness.step();

    let mut observed = Vec::new();
    for priority in Priority::ALL {
        while let Ok(packet) = harness.outputs[priority].try_recv() {
            observed.push(packet.priority);
        }
    }
    assert_eq!(observed, vec![Priority::High]);
}

#[test]
fn full_heap_drops_what_is_due_first() {
    let mut harness = SchedulerHarness::new(4, 2);
    let now = Instant { nanos: 0 };
    harness.enqueue(Priority::High, vec![1], Duration::from_millis(1), now);
    harness.enqueue(Priority::Medium, vec![2], Duration::from_millis(2), now);
    harness.enqueue(Priority::Low, vec![3], Duration::from_millis(3), now);
    let step = harness.scheduler.process_next();
    assert_eq!(step.taken.unwrap().packet.payload(), &[2]);
    // The task that left its place comes back, so its buffer can be used again.
    assert_eq!(step.dropped.len(), 1);
    assert_eq!(step.dropped[0].packet.payload(), &[1]);
    assert_eq!(harness.scheduler.get_drop_counts().heap, 1);
    assert_eq!(harness.scheduler.tasks.len(), 1);
}

#[test]
fn enqueued_packets_ignore_the_bound() {
    let mut harness = SchedulerHarness::new(4, 1);
    let now = Instant { nanos: 0 };
    let late = harness.packet(Priority::Low, vec![1], Duration::from_millis(9), now);
    let early = harness.packet(Priority::Low, vec![2], Duration::from_millis(3), now);
    harness.scheduler.enqueue_packet(late).unwrap();
    harness.scheduler.enqueue_packet(early).unwrap();
    assert_eq!(harness.scheduler.tasks.len(), 2);
    assert_eq!(harness.scheduler.process_next().taken.unwrap().packet.payload(), &[2]);
    assert_eq!(harness.scheduler.process_next().taken.unwrap().packet.payload(), &[1]);
    assert!(harness.scheduler.process_next().taken.is_none());
    assert_eq!(harness.scheduler.get_drop_counts().heap, 0);
}

#[test]
fn work_is_seen_in_the_heap_and_on_the_inputs() {
    let mut harness = SchedulerHarness::new(4, 4);
    let now = Instant { nanos: 0 };
    assert!(!harness.has_tasks());
    harness.enqueue(Priority::BestEffort, vec![1], Duration::from_millis(9), now);
    assert!(harness.has_tasks());
    harness.step();
    assert!(!harness.has_tasks());
    let packet = harness.packet(Priority::Low, vec![2], Duration::from_millis(9), now);
    harness.scheduler.enqueue_packet(packet).unwrap();
    assert!(harness.has_tasks());
    assert!(harness.scheduler.has_tasks(&PriorityTable::of(None, None, None, None)));
    assert!(harness.scheduler.holds_work(&PriorityTable::of(false, false, false, false)));
}

#[test]
fn payload_decides_the_time_of_the_work() {
    let mut harness = SchedulerHarness::new(4, 4);
    let now = Instant { nanos: 0 };
    assert_eq!(hash_payload(&[1, 2, 3]), (31 + 2) * 31 + 3);
    assert_eq!(hash_payload(&[]), 0);
    let budget = Duration::from_millis(1);
    let high = harness.packet(Priority::High, vec![1, 2], budget, now);
    assert_eq!(EDFScheduler::processing_time(&high).nanos, 200_000 + 2 * 33);
    let medium = harness.packet(Priority::Medium, vec![1, 2], budget, now);
    assert_eq!(EDFScheduler::processing_time(&medium).nanos, 200_000 + 4 * 33);
    let low = harness.packet(Priority::Low, vec![0; 800], budget, now);
    assert_eq!(EDFScheduler::processing_time(&low).nanos, 300_000);
    let large = harness.packet(Priority::Low, vec![0; 1450], budget, now);
    assert_eq!(EDFScheduler::processing_time(&large).nanos, 400_000);
}

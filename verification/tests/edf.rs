use aiedf_pipeline::buffer_pool::{lease, BufferPool};
use aiedf_pipeline::packet::{Packet, PacketIds};
use aiedf_pipeline::priority::{Priority, PriorityTable};
use aiedf_pipeline::scheduler::edf::EDFScheduler;
use aiedf_pipeline::time::{Duration, Instant};
use crossbeam_channel::{bounded, Receiver, Sender};

struct SchedulerHarness {
    scheduler: EDFScheduler,
    inputs: PriorityTable<Sender<Packet>>,
    outputs: PriorityTable<Receiver<Packet>>,
    pool: BufferPool,
    ids: PacketIds,
}

impl SchedulerHarness {
    fn new(capacity: usize, max_heap: usize) -> Self {
        let mut input_senders = Vec::new();
        let mut input_receivers = Vec::new();
        let mut output_senders = Vec::new();
        let mut output_receivers = Vec::new();
        for _ in Priority::ALL {
            let (tx, rx) = bounded(capacity);
            input_senders.push(tx);
            input_receivers.push(rx);
            let (tx, rx) = bounded(capacity);
            output_senders.push(tx);
            output_receivers.push(rx);
        }
        let scheduler = EDFScheduler::new(
            PriorityTable::from_vec(input_receivers),
            PriorityTable::from_vec(output_senders),
            max_heap,
        );
        SchedulerHarness {
            scheduler,
            inputs: PriorityTable::from_vec(input_senders),
            outputs: PriorityTable::from_vec(output_receivers),
            pool: BufferPool::new(),
            ids: PacketIds::new(),
        }
    }

    fn enqueue(
        &mut self,
        priority: Priority,
        data: Vec<u8>,
        latency_budget: Duration,
        timestamp: Instant,
    ) {
        let len = data.len();
        let mut lease = lease(&mut self.pool, len);
        lease.as_mut_slice()[..len].copy_from_slice(&data);
        let packet = Packet::from_buffer(
            &mut self.ids,
            priority,
            lease.freeze(len),
            latency_budget,
            timestamp,
        );
        self.inputs[priority].send(packet).unwrap();
    }

    fn step(&mut self) {
        if let Some((_, task)) = self.scheduler.process_next() {
            let _ = self.scheduler.forward(task.packet);
        }
    }
}

#[test]
fn edf_scheduler_initializes_empty() {
    let harness = SchedulerHarness::new(4, 16);
    let pending = &harness.scheduler.pending;
    assert!(Priority::ALL
        .iter()
        .all(|priority| pending[*priority].is_none()));
}

#[test]
fn edf_scheduler_processes_single_packet() {
    let mut harness = SchedulerHarness::new(4, 16);
    let now = Instant { nanos: 1_000 };
    harness.enqueue(Priority::High, vec![1], Duration::from_millis(10), now);
    harness.step();

    let mut observed = Vec::new();
    for priority in Priority::ALL {
        while let Ok(packet) = harness.outputs[priority].try_recv() {
            observed.push(packet.priority);
        }
    }
    assert_eq!(observed, vec![Priority::High]);
}

#[test]
fn scheduler_picks_earliest_deadline() {
    let mut harness = SchedulerHarness::new(4, 16);
    let now = Instant { nanos: 1_000 };

    harness.enqueue(Priority::High, vec![1], Duration::from_millis(100), now);
    harness.enqueue(Priority::Medium, vec![2], Duration::from_millis(5), now);

    harness.step();

    let medium_packet = harness.outputs[Priority::Medium]
        .try_recv()
        .expect("expected medium priority packet first");
    assert_eq!(medium_packet.priority, Priority::Medium);

    harness.step();
    let high_packet = harness.outputs[Priority::High]
        .try_recv()
        .expect("expected high priority packet afterwards");
    assert_eq!(high_packet.priority, Priority::High);
}

#[test]
fn scheduler_counts_drops_when_output_full() {
    let mut harness = SchedulerHarness::new(1, 16);
    let now = Instant { nanos: 1_000 };

    harness.enqueue(Priority::High, vec![1], Duration::from_millis(5), now);
    harness.step();

    // The first packet stays in the output, which is full then.
    harness.enqueue(Priority::High, vec![2], Duration::from_millis(5), now);
    harness.step();

    let drop_counts = harness.scheduler.get_drop_counts();
    assert_eq!(drop_counts.output[Priority::High], 1);
}

#[test]
fn more_critical_class_wins_a_tie() {
    let mut harness = SchedulerHarness::new(4, 1);
    let now = Instant { nanos: 0 };
    harness.enqueue(Priority::Low, vec![1], Duration::from_millis(5), now);
    harness.enqueue(Priority::Medium, vec![2], Duration::from_millis(5), now);
    let (priority, task) = harness.scheduler.process_next().unwrap();
    assert_eq!(priority, Priority::Medium);
    assert_eq!(task.packet.payload(), &[2]);
    assert_eq!(task.deadline, Instant { nanos: 5_000_000 });
    let (priority, _) = harness.scheduler.process_next().unwrap();
    assert_eq!(priority, Priority::Low);
    assert!(harness.scheduler.process_next().is_none());
}

#[test]
fn one_packet_of_each_class_is_held() {
    let mut harness = SchedulerHarness::new(4, 1);
    let now = Instant { nanos: 0 };
    harness.enqueue(Priority::High, vec![1], Duration::from_millis(50), now);
    harness.enqueue(Priority::High, vec![2], Duration::from_millis(1), now);
    harness.scheduler.refill();
    let held = harness.scheduler.pending[Priority::High].as_ref().unwrap();
    assert_eq!(held.packet.payload(), &[1]);
    assert!(harness.scheduler.pending[Priority::Medium].is_none());
}

#[test]
fn rejected_packet_is_handed_back() {
    let mut harness = SchedulerHarness::new(1, 1);
    let now = Instant { nanos: 0 };
    harness.enqueue(Priority::Low, vec![1], Duration::from_millis(5), now);
    let (_, task) = harness.scheduler.process_next().unwrap();
    assert!(harness.scheduler.forward(task.packet).is_none());
    harness.enqueue(Priority::Low, vec![2], Duration::from_millis(5), now);
    let (_, task) = harness.scheduler.process_next().unwrap();
    let back = harness.scheduler.forward(task.packet).unwrap();
    assert_eq!(back.payload(), &[2]);
    assert_eq!(harness.scheduler.get_drop_counts().heap, 0);
}

#[test]
fn work_costs_more_for_large_payloads() {
    let mut harness = SchedulerHarness::new(4, 1);
    let now = Instant { nanos: 0 };
    harness.enqueue(Priority::High, vec![0; 200], Duration::from_millis(5), now);
    harness.enqueue(Priority::Medium, vec![0; 850], Duration::from_millis(5), now);
    harness.enqueue(Priority::Low, vec![0; 1500], Duration::from_millis(5), now);
    harness.scheduler.refill();
    let cost = |priority: Priority| {
        let task = harness.scheduler.pending[priority].as_ref().unwrap();
        EDFScheduler::processing_time(&task.packet).nanos
    };
    assert_eq!(cost(Priority::High), 100_000);
    assert_eq!(cost(Priority::Medium), 150_000);
    assert_eq!(cost(Priority::Low), 200_000);
}

use aiedf_pipeline::buffer_pool::BufferPool;
use aiedf_pipeline::channel::RecvFailure;
use aiedf_pipeline::packet::{Packet, PacketIds};
use aiedf_pipeline::priority::Priority;
use aiedf_pipeline::queue::Queue;
use aiedf_pipeline::time::{Duration, Instant};

fn packet(priority: Priority, data: &[u8]) -> Packet {
    let mut pool = BufferPool::new();
    let mut ids = PacketIds::new();
    Packet::new(
        &mut ids,
        &mut pool,
        priority,
        data,
        Duration::from_millis(1),
        Instant { nanos: 0 },
    )
}

#[test]
fn test_queue_creation() {
    let queue = Queue::new();
    assert!(queue.is_empty());
}

#[test]
fn test_queue_send_recv() {
    let mut queue = Queue::new();

    let packet = packet(Priority::High, &[1, 2, 3]);

    queue.send(packet.clone()).unwrap();
    assert!(!queue.is_empty());

    let received = queue.recv().unwrap();
    assert_eq!(received.priority, packet.priority);
    assert_eq!(received.payload(), packet.payload());
}

#[test]
fn test_queue_operations() {
    let mut queue = Queue::new();
    assert!(queue.is_empty());

    let packet = packet(Priority::High, &[1, 2, 3]);

    queue.send(packet.clone()).unwrap();
    assert!(!queue.is_empty());
    assert_eq!(queue.len(), 1);

    let received = queue.try_recv().unwrap();
    assert_eq!(received.priority, packet.priority);
    assert_eq!(received.payload(), packet.payload());
}

#[test]
fn empty_queue_gives_nothing() {
    let mut queue = Queue::default();
    assert!(matches!(queue.try_recv(), Err(RecvFailure::Empty)));
    assert_eq!(queue.len(), 0);
    assert_eq!(queue.capacity(), 1);
    assert_eq!(queue.occupancy(), 0);
    assert_eq!(queue.occupancy_percent(), 0);
}

#[test]
fn full_queue_reports_its_occupancy() {
    let mut queue = Queue::new();
    queue.send(packet(Priority::Low, &[9])).unwrap();
    assert_eq!(queue.occupancy(), 1);
    assert_eq!(queue.occupancy_percent(), 100);
}

#[test]
fn handles_reach_the_same_queue() {
    let mut queue = Queue::new();
    let sender = queue.sender();
    let receiver = queue.receiver();
    sender.send(packet(Priority::Medium, &[4, 5])).unwrap();
    assert_eq!(queue.len(), 1);
    assert!(sender.try_send(packet(Priority::Medium, &[6])).is_err());
    let received = receiver.recv().unwrap();
    assert_eq!(received.payload(), &[4, 5]);
    assert!(queue.is_empty());
}

use aiedf_pipeline::buffer_pool::{class_index_for, lease, size_class_for, size_of_class, BufferPool};
use aiedf_pipeline::drr_scheduler;
use aiedf_pipeline::packet::{Packet, PacketIds};
use aiedf_pipeline::priority::{Priority, PriorityTable};
use aiedf_pipeline::time::{Duration, Instant};

#[test]
fn priority_index_is_stable() {
    assert_eq!(Priority::High.index(), 0);
    assert_eq!(Priority::Medium.index(), 1);
    assert_eq!(Priority::Low.index(), 2);
    assert_eq!(Priority::BestEffort.index(), 3);
}

#[test]
fn priority_table_builds_and_indexes() {
    let table = PriorityTable::from_fn(|p: Priority| p.index());
    assert_eq!(table[Priority::High], 0);
    assert_eq!(table[Priority::BestEffort], 3);
}

#[test]
fn packet_builder_sets_priority() {
    let mut pool = BufferPool::new();
    let mut ids = PacketIds::new();
    let mut lease = lease(&mut pool, 3);
    lease.as_mut_slice()[..3].copy_from_slice(&[1, 2, 3]);
    let buffer = lease.freeze(3);
    let p = Packet::from_buffer(
        &mut ids,
        Priority::Medium,
        buffer,
        Duration::from_millis(10),
        Instant { nanos: 0 },
    );
    assert_eq!(p.priority, Priority::Medium);
    assert_eq!(p.payload(), &[1, 2, 3]);
}

#[test]
fn packet_priority_roundtrip() {
    let mut pool = BufferPool::new();
    let mut ids = PacketIds::new();
    let packet = drr_scheduler::Packet::new(
        &mut ids,
        &mut pool,
        drr_scheduler::Priority::High,
        &[1, 2, 3],
        Duration::from_millis(1),
        Instant { nanos: 0 },
    );
    assert_eq!(packet.priority, Priority::High);
    assert_eq!(packet.flow_id(), Priority::High.flow_id());
}

#[test]
fn classes_have_numbers_and_names() {
    assert_eq!(Priority::ALL.len(), 4);
    for (i, priority) in Priority::ALL.iter().enumerate() {
        assert_eq!(priority.index(), i);
        assert_eq!(priority.flow_id(), i as u64 + 1);
        assert_eq!(Priority::from_index(i), *priority);
    }
    assert_eq!(Priority::High.label(), "high");
    assert_eq!(Priority::BestEffort.label(), "best_effort");
}

#[test]
fn tables_change_one_class_at_a_time() {
    let mut table = PriorityTable::from_vec(vec![1, 2, 3, 4]);
    *table.get_mut(Priority::Low) = 30;
    assert_eq!(*table.get(Priority::Low), 30);
    assert_eq!(table[Priority::Medium], 2);
    let copy = table.clone();
    assert_eq!(copy[Priority::BestEffort], 4);
}

#[test]
fn buffers_come_in_powers_of_two() {
    assert_eq!(size_class_for(0), 64);
    assert_eq!(size_class_for(64), 64);
    assert_eq!(size_class_for(65), 128);
    assert_eq!(size_class_for(1500), 2048);
    assert_eq!(class_index_for(1), 0);
    assert_eq!(size_of_class(class_index_for(1000)), 1024);
}

#[test]
fn buffers_come_back_from_their_last_packet() {
    let mut pool = BufferPool::new();
    let mut ids = PacketIds::new();
    let first = Packet::new(
        &mut ids,
        &mut pool,
        Priority::High,
        &[7; 100],
        Duration::from_millis(1),
        Instant { nanos: 5 },
    );
    let second = first.clone();
    let third = second.clone();
    assert_eq!(second.id, first.id);
    assert!(!first.recycle(&mut pool));
    assert_eq!(second.payload(), &[7; 100]);
    assert!(!second.recycle(&mut pool));
    assert_eq!(third.payload(), &[7; 100]);
    assert!(third.recycle(&mut pool));
    // A recycled buffer comes back blank.
    let mut again = lease(&mut pool, 100);
    assert_eq!(again.as_mut_slice(), &[0; 128]);
    again.discard(&mut pool);
}

#[test]
fn packets_are_numbered_and_due() {
    let mut pool = BufferPool::new();
    let mut ids = PacketIds::new();
    let now = Instant { nanos: 1_000 };
    let budget = Duration::from_micros(3);
    let a = Packet::new(&mut ids, &mut pool, Priority::Low, &[1], budget, now);
    let b = Packet::new(&mut ids, &mut pool, Priority::Low, &[2; 1600], budget, now);
    assert_eq!(a.id, 0);
    assert_eq!(b.id, 1);
    assert_eq!(a.deadline(), Instant { nanos: 4_000 });
    assert_eq!(a.len(), 1);
    assert_eq!(b.len(), 1500);
    assert_eq!(b.payload().len(), 1500);
}

#[test]
fn times_stop_at_the_end_of_the_clock() {
    let end = Instant { nanos: u64::MAX };
    assert_eq!(end.plus(Duration::from_secs(1)), end);
    assert_eq!(Instant { nanos: 1 }.since(end), Duration::from_nanos(0));
    assert_eq!(end.since(Instant { nanos: u64::MAX - 7 }), Duration::from_nanos(7));
    assert_eq!(Duration::from_secs(u64::MAX).nanos, u64::MAX);
    assert_eq!(Duration::from_micros(1_999).as_millis(), 1);
    assert_eq!(Duration::from_nanos(1_999).as_micros(), 1);
    assert_eq!(
        Duration::from_nanos(5).saturating_sub(Duration::from_nanos(9)),
        Duration::from_nanos(0)
    );
    assert_eq!(Duration::from_nanos(5).min(Duration::from_nanos(9)).nanos, 5);
}

#[test]
fn more_critical_classes_are_lesser() {
    for (i, a) in Priority::ALL.into_iter().enumerate() {
        assert_eq!(a.index(), i);
        for b in Priority::ALL {
            assert_eq!(a < b, a.index() < b.index());
            assert_eq!(a.cmp(&b), a.index().cmp(&b.index()));
        }
    }
}

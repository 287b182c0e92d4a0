use armature_collab::{LogicalClock, Operation, ReplicaId, Uuid, VectorClock};

fn replica(n: u128) -> ReplicaId {
    ReplicaId::from_uuid(Uuid { bits: n })
}

#[test]
fn test_replica_id() {
    let id1 = ReplicaId::new();
    let id2 = ReplicaId::new();
    assert_ne!(id1, id2);
}

#[test]
fn test_logical_clock() {
    let replica = ReplicaId::new();
    let mut clock = LogicalClock::new(0, replica);

    assert_eq!(clock.counter, 0);
    clock.tick();
    assert_eq!(clock.counter, 1);
}

#[test]
fn test_vector_clock() {
    let replica1 = ReplicaId::new();
    let replica2 = ReplicaId::new();

    let mut vc1 = VectorClock::new();
    vc1.increment(replica1);
    vc1.increment(replica1);

    let mut vc2 = VectorClock::new();
    vc2.increment(replica2);

    assert!(vc1.is_concurrent(&vc2));

    vc1.merge(&vc2);
    assert_eq!(vc1.get(&replica1), 2);
    assert_eq!(vc1.get(&replica2), 1);
}

#[test]
fn test_happens_before() {
    let replica = ReplicaId::new();

    let mut vc1 = VectorClock::new();
    vc1.increment(replica);

    let mut vc2 = vc1.clone();
    vc2.increment(replica);

    assert!(vc1.happens_before(&vc2));
    assert!(!vc2.happens_before(&vc1));
}

#[test]
fn random_ids_carry_version_and_variant() {
    for _ in 0..50 {
        let id = Uuid::new_v4();
        assert_eq!((id.bits >> 76) & 0xf, 4);
        assert_eq!((id.bits >> 62) & 0x3, 2);
        assert_ne!(id, Uuid::nil());
    }
}

#[test]
fn ids_are_written_in_hyphenated_form() {
    let id = Uuid { bits: 0x0123_4567_89ab_cdef_0011_2233_4455_6677 };
    assert_eq!(id.to_string(), "01234567-89ab-cdef-0011-223344556677");
    assert_eq!(ReplicaId::from_uuid(id).to_string(), "01234567-89ab-cdef-0011-223344556677");
    assert_eq!(Uuid::nil().to_string(), "00000000-0000-0000-0000-000000000000");
    assert_eq!(
        Uuid { bits: u128::MAX }.to_string(),
        "ffffffff-ffff-ffff-ffff-ffffffffffff"
    );
    assert_eq!(id.to_string(), uuid::Uuid::from_u128(id.bits).to_string());
}

#[test]
fn ids_are_ordered_by_their_bytes() {
    let low = Uuid { bits: 0x00ff_0000_0000_0000_0000_0000_0000_0000 };
    let high = Uuid { bits: 0x0100_0000_0000_0000_0000_0000_0000_0000 };
    assert!(low < high);
    assert!(ReplicaId(low) < ReplicaId(high));
    assert_eq!(
        low.partial_cmp(&high),
        uuid::Uuid::from_u128(low.bits).partial_cmp(&uuid::Uuid::from_u128(high.bits))
    );
}

#[test]
fn default_replicas_are_random() {
    assert_ne!(ReplicaId::default(), ReplicaId::default());
}

#[test]
fn timestamps_are_ordered_by_counter_then_replica() {
    let early = LogicalClock::new(1, replica(9));
    let late = LogicalClock::new(2, replica(1));
    let tie = LogicalClock::new(1, replica(10));
    assert!(early < late);
    assert!(early < tie);
    assert!(late.is_after(&early));
    assert!(tie.is_after(&early));
    assert!(!early.is_after(&early));
}

#[test]
fn ticking_returns_the_new_timestamp() {
    let mut clock = LogicalClock::new(41, replica(3));
    assert_eq!(clock.tick(), LogicalClock::new(42, replica(3)));
    assert_eq!(clock, LogicalClock::new(42, replica(3)));
}

#[test]
fn merging_clocks_keeps_the_replica() {
    let mut clock = LogicalClock::new(4, replica(1));
    clock.merge(&LogicalClock::new(9, replica(2)));
    assert_eq!(clock, LogicalClock::new(9, replica(1)));
    clock.merge(&LogicalClock::new(3, replica(2)));
    assert_eq!(clock, LogicalClock::new(9, replica(1)));
}

#[test]
fn equal_vector_clocks_are_concurrent() {
    let mut a = VectorClock::new();
    a.increment(replica(1));
    let b = a.clone();
    assert!(a.is_concurrent(&b));
    assert!(!a.happens_before(&b));
    assert!(!b.happens_before(&a));
    assert!(VectorClock::new().is_concurrent(&VectorClock::default()));
}

#[test]
fn an_unseen_replica_counts_as_zero() {
    let empty = VectorClock::new();
    assert_eq!(empty.get(&replica(1)), 0);
    let mut one = VectorClock::new();
    assert_eq!(one.increment(replica(1)), 1);
    assert_eq!(one.increment(replica(1)), 2);
    assert!(empty.happens_before(&one));
    assert!(!one.happens_before(&empty));
}

#[test]
fn happening_before_is_transitive() {
    let mut a = VectorClock::new();
    a.increment(replica(1));
    let mut b = a.clone();
    b.increment(replica(2));
    let mut c = b.clone();
    c.increment(replica(1));
    assert!(a.happens_before(&b));
    assert!(b.happens_before(&c));
    assert!(a.happens_before(&c));
    assert!(!c.happens_before(&a));
}

#[test]
fn merged_vector_clocks_follow_both() {
    let mut a = VectorClock::new();
    a.increment(replica(1));
    let mut b = VectorClock::new();
    b.increment(replica(2));
    let mut merged = a.clone();
    merged.merge(&b);
    assert!(a.happens_before(&merged));
    assert!(b.happens_before(&merged));
    let mut other_way = b.clone();
    other_way.merge(&a);
    assert_eq!(merged, other_way);
}

#[test]
fn vector_clocks_are_rebuilt_from_their_entries() {
    let mut clock = VectorClock::new();
    clock.increment(replica(1));
    clock.increment(replica(2));
    clock.increment(replica(2));
    assert_eq!(VectorClock::from_entries(&clock.entries()), clock);
    let doubled = vec![(replica(1), 5), (replica(1), 3)];
    assert_eq!(VectorClock::from_entries(&doubled).get(&replica(1)), 3);
}

#[test]
fn operations_collect_their_dependencies() {
    let clock = LogicalClock::new(7, replica(1));
    let dep = Uuid { bits: 11 };
    let more = vec![Uuid { bits: 12 }, Uuid { bits: 13 }];
    let op = Operation::new(replica(1), clock, "data");
    assert_eq!(op.replica, replica(1));
    assert_eq!(op.timestamp, clock);
    assert_eq!(op.data, "data");
    assert!(op.deps.is_empty());
    let id = op.id;
    let op = op.with_dep(dep).with_deps(more);
    assert_eq!(op.id, id);
    assert_eq!(op.deps, vec![Uuid { bits: 11 }, Uuid { bits: 12 }, Uuid { bits: 13 }]);
}

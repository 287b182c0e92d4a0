use armature_collab::{
    Crdt, GCounter, GSet, LogicalClock, LwwMap, LwwRegister, OrSet, PnCounter, ReplicaId, Uuid,
};

fn replica(n: u128) -> ReplicaId {
    ReplicaId::from_uuid(Uuid { bits: n })
}

fn at(counter: u64) -> LogicalClock {
    LogicalClock::new(counter, replica(1))
}

#[test]
fn test_lww_register() {
    let replica = ReplicaId::new();
    let mut reg = LwwRegister::new("a", LogicalClock::new(1, replica));

    assert_eq!(reg.get(), &"a");

    // Higher timestamp wins
    reg.set("b", LogicalClock::new(2, replica));
    assert_eq!(reg.get(), &"b");

    // Lower timestamp loses
    reg.set("c", LogicalClock::new(1, replica));
    assert_eq!(reg.get(), &"b");
}

#[test]
fn test_gcounter() {
    let replica1 = ReplicaId::new();
    let replica2 = ReplicaId::new();

    let mut counter1 = GCounter::new();
    counter1.increment(replica1);
    counter1.increment(replica1);

    let mut counter2 = GCounter::new();
    counter2.increment(replica2);

    counter1.merge(&counter2);
    assert_eq!(counter1.value(), 3);
}

#[test]
fn test_pncounter() {
    let replica = ReplicaId::new();
    let mut counter = PnCounter::new();

    counter.increment(replica);
    counter.increment(replica);
    counter.decrement(replica);

    assert_eq!(counter.value(), 1);
}

#[test]
fn test_gset() {
    let mut set1 = GSet::new();
    set1.add("a");
    set1.add("b");

    let mut set2 = GSet::new();
    set2.add("b");
    set2.add("c");

    set1.merge(&set2);
    assert!(set1.contains(&"a"));
    assert!(set1.contains(&"b"));
    assert!(set1.contains(&"c"));
}

#[test]
fn test_orset() {
    let replica = ReplicaId::new();
    let mut clock = LogicalClock::new(0, replica);

    let mut set = OrSet::new();
    set.add("a", clock.tick());
    set.add("b", clock.tick());

    assert!(set.contains(&"a"));
    assert!(set.contains(&"b"));

    set.remove(&"a");
    assert!(!set.contains(&"a"));
    assert!(set.contains(&"b"));
}

#[test]
fn test_lwwmap() {
    let replica = ReplicaId::new();
    let mut clock = LogicalClock::new(0, replica);

    let mut map = LwwMap::new();
    map.set("name", "Alice", clock.tick());
    map.set("age", "30", clock.tick());

    assert_eq!(map.get(&"name"), Some(&"Alice"));
    assert_eq!(map.get(&"age"), Some(&"30"));

    map.remove(&"age", clock.tick());
    assert_eq!(map.get(&"age"), None);
}

#[test]
fn test_lwwmap_remove_before_add_is_not_lost() {
    let replica = ReplicaId::new();
    let mut map: LwwMap<&str, &str> = LwwMap::new();

    // The remove happens at t=2 but is delivered first.
    map.remove(&"name", LogicalClock::new(2, replica));
    assert_eq!(map.get(&"name"), None);

    // The causally earlier add arrives afterwards and must not resurrect
    // the key.
    map.set("name", "Alice", LogicalClock::new(1, replica));
    assert_eq!(map.get(&"name"), None);
    assert!(!map.contains_key(&"name"));
    assert!(map.is_empty());

    // A genuinely later add does take effect.
    map.set("name", "Bob", LogicalClock::new(3, replica));
    assert_eq!(map.get(&"name"), Some(&"Bob"));
}

#[test]
fn test_lwwmap_unobserved_remove_survives_merge() {
    let replica = ReplicaId::new();

    let mut remover: LwwMap<&str, &str> = LwwMap::new();
    remover.remove(&"name", LogicalClock::new(2, replica));

    let mut adder: LwwMap<&str, &str> = LwwMap::new();
    adder.set("name", "Alice", LogicalClock::new(1, replica));
    assert_eq!(adder.get(&"name"), Some(&"Alice"));

    adder.merge(&remover);
    assert_eq!(adder.get(&"name"), None);

    // Convergence: merging the other direction agrees.
    remover.merge(&adder);
    assert_eq!(remover.get(&"name"), None);
}

#[test]
fn a_write_at_the_same_time_loses() {
    let mut reg = LwwRegister::new(1u64, at(5));
    assert!(!reg.set(2, at(5)));
    assert_eq!(*reg.get(), 1);
    assert!(reg.set(3, at(6)));
    assert_eq!(*reg.get(), 3);
    assert_eq!(reg.timestamp(), at(6));
}

#[test]
fn ties_of_counters_go_to_the_later_replica() {
    let mut a = LwwRegister::new("a", LogicalClock::new(5, replica(1)));
    let mut b = LwwRegister::new("b", LogicalClock::new(5, replica(2)));
    let before = a.clone();
    a.merge(&b);
    b.merge(&before);
    assert_eq!(a.get(), &"b");
    assert_eq!(b.get(), &"b");
}

#[test]
fn writes_win_by_timestamp_in_any_order() {
    let mut one = LwwRegister::new("start", at(0));
    one.set("first", at(1));
    one.set("second", at(2));
    let mut other = LwwRegister::new("start", at(0));
    other.set("second", at(2));
    other.set("first", at(1));
    assert_eq!(one.get(), other.get());
    assert_eq!(one.get(), &"second");
}

#[test]
fn counters_take_the_larger_count_of_a_replica() {
    let mut a = GCounter::new();
    a.increment_by(replica(1), 10);
    let mut b = a.clone();
    b.increment_by(replica(1), 5);
    b.increment(replica(2));
    a.merge(&b);
    a.merge(&b);
    assert_eq!(a.get_replica_count(&replica(1)), 15);
    assert_eq!(a.get_replica_count(&replica(2)), 1);
    assert_eq!(a.get_replica_count(&replica(3)), 0);
    assert_eq!(a.value(), 16);
    assert_eq!(GCounter::default().value(), 0);
}

#[test]
fn counters_converge() {
    let mut a = PnCounter::new();
    a.increment(replica(1));
    a.increment(replica(1));
    let mut b = PnCounter::new();
    b.decrement(replica(2));
    b.decrement(replica(2));
    b.decrement(replica(2));
    let before = a.clone();
    a.merge(&b);
    b.merge(&before);
    assert_eq!(a.value(), -1);
    assert_eq!(b.value(), -1);
    a.increment(replica(3));
    assert_eq!(a.value(), 0);
    assert_eq!(PnCounter::default().value(), 0);
}

#[test]
fn sums_past_the_signed_range_count_as_negative() {
    let mut up = GCounter::new();
    up.increment_by(replica(1), u64::MAX);
    let counter = PnCounter::from_halves(up, GCounter::new());
    assert_eq!(counter.value(), -1);
}

#[test]
fn counters_are_rebuilt_from_their_entries() {
    let mut counter = GCounter::new();
    counter.increment_by(replica(1), 3);
    counter.increment_by(replica(2), 4);
    let copy = GCounter::from_entries(&counter.entries());
    assert_eq!(copy.value(), 7);
    assert_eq!(copy.get_replica_count(&replica(2)), 4);
    let both = PnCounter::from_halves(copy, GCounter::new());
    assert_eq!(both.positive().value(), 7);
    assert_eq!(both.negative().value(), 0);
}

#[test]
fn grow_only_sets_hold_each_element_once() {
    let mut set: GSet<String> = GSet::default();
    assert!(set.is_empty());
    set.add("a".to_string());
    set.add("a".to_string());
    set.add("\u{e9}".to_string());
    assert_eq!(set.len(), 2);
    assert!(!set.is_empty());
    let mut listed: Vec<&String> = set.iter();
    listed.sort();
    assert_eq!(listed, vec!["a", "\u{e9}"]);
    let copy = set.clone();
    set.merge(&copy);
    assert_eq!(set.len(), 2);
}

#[test]
fn texts_are_elements_by_their_characters() {
    let mut set = GSet::new();
    set.add("abc");
    assert!(set.contains(&"abc"));
    assert!(!set.contains(&"abd"));
    assert!(!set.contains(&"ab"));
    assert!(!set.contains(&"abcd"));
    assert!(!set.contains(&""));
    let numbers: &mut GSet<Option<i64>> = &mut GSet::new();
    numbers.add(Some(1));
    numbers.add(None);
    assert!(numbers.contains(&None));
    assert!(numbers.contains(&Some(1)));
    assert!(!numbers.contains(&Some(2)));
}

#[test]
fn a_removed_tag_adds_nothing() {
    let mut set = OrSet::new();
    set.add("a", at(1));
    set.remove(&"a");
    set.add("a", at(1));
    assert!(!set.contains(&"a"));
    assert!(set.is_empty());
    set.add("a", at(2));
    assert!(set.contains(&"a"));
    assert_eq!(set.len(), 1);
    set.remove(&"b");
    assert_eq!(set.len(), 1);
}

#[test]
fn concurrent_addition_beats_removal() {
    let mut a: OrSet<&str> = OrSet::new();
    a.add("x", LogicalClock::new(1, replica(1)));
    let mut b = a.clone();
    b.remove(&"x");
    a.add("x", LogicalClock::new(2, replica(1)));
    let before = a.clone();
    a.merge(&b);
    b.merge(&before);
    assert!(a.contains(&"x"));
    assert!(b.contains(&"x"));
}

#[test]
fn observed_addition_is_removed_everywhere() {
    let mut a: OrSet<&str> = OrSet::default();
    a.add("x", at(1));
    a.add("y", at(2));
    let mut b = a.clone();
    b.remove(&"x");
    let before = a.clone();
    a.merge(&b);
    b.merge(&before);
    assert!(!a.contains(&"x"));
    assert!(!b.contains(&"x"));
    assert_eq!(a.elements(), vec![&"y"]);
    assert_eq!(b.elements(), vec![&"y"]);
    assert_eq!(a.len(), 1);
}

#[test]
fn sets_are_rebuilt_from_their_parts() {
    let mut set: OrSet<String> = OrSet::new();
    set.add("a".to_string(), at(1));
    set.add("b".to_string(), at(2));
    set.add("b".to_string(), at(3));
    set.remove(&"a".to_string());
    let elements: Vec<(String, Vec<LogicalClock>)> = set
        .tagged()
        .into_iter()
        .map(|(element, tags)| (element.clone(), tags))
        .collect();
    assert_eq!(elements.len(), 1);
    assert_eq!(elements[0].1.len(), 2);
    let mut copy = OrSet::from_parts(elements, &set.tombstones());
    assert!(copy.contains(&"b".to_string()));
    assert!(!copy.contains(&"a".to_string()));
    copy.add("a".to_string(), at(1));
    assert!(!copy.contains(&"a".to_string()));
}

#[test]
fn maps_show_only_what_is_set() {
    let mut map: LwwMap<String, u64> = LwwMap::default();
    map.set("a".to_string(), 1, at(1));
    map.set("b".to_string(), 2, at(2));
    map.remove(&"b".to_string(), at(3));
    map.set("c".to_string(), 3, at(4));
    map.set("c".to_string(), 4, at(3));
    assert_eq!(map.len(), 2);
    let mut keys = map.keys();
    keys.sort();
    assert_eq!(keys, vec!["a", "c"]);
    let mut pairs: Vec<(String, u64)> =
        map.iter().into_iter().map(|(k, v)| (k.clone(), *v)).collect();
    pairs.sort();
    assert_eq!(pairs, vec![("a".to_string(), 1), ("c".to_string(), 3)]);
    let copy = map.clone();
    map.merge(&copy);
    assert_eq!(map.len(), 2);
}

#[test]
fn map_writes_commute() {
    let mut one: LwwMap<&str, &str> = LwwMap::new();
    one.set("k", "early", at(1));
    one.remove(&"k", at(2));
    let mut other: LwwMap<&str, &str> = LwwMap::new();
    other.remove(&"k", at(2));
    other.set("k", "early", at(1));
    assert_eq!(one.get(&"k"), None);
    assert_eq!(other.get(&"k"), None);
    assert_eq!(one.registers().len(), 1);
    assert_eq!(other.registers()[0].1.timestamp(), at(2));
}

#[test]
fn maps_are_rebuilt_from_their_registers() {
    let mut map: LwwMap<String, String> = LwwMap::new();
    map.set("a".to_string(), "1".to_string(), at(1));
    map.remove(&"b".to_string(), at(2));
    let registers = map
        .registers()
        .into_iter()
        .map(|(key, register)| (key.clone(), register.clone()))
        .collect();
    let mut copy: LwwMap<String, String> = LwwMap::from_registers(registers);
    assert_eq!(copy.get(&"a".to_string()), Some(&"1".to_string()));
    copy.set("b".to_string(), "late".to_string(), at(1));
    assert_eq!(copy.get(&"b".to_string()), None);
}

#[test]
fn collections_hold_integers_characters_pairs_and_lists() {
    let mut numbers = GSet::new();
    numbers.add(7i32);
    numbers.add(7i32);
    numbers.add(-1i32);
    assert_eq!(numbers.len(), 2);
    let mut letters = GSet::new();
    letters.add('a');
    assert!(letters.contains(&'a'));
    assert!(!letters.contains(&'b'));
    let mut pairs = GSet::new();
    pairs.add((1u8, "x".to_string()));
    assert!(pairs.contains(&(1u8, "x".to_string())));
    assert!(!pairs.contains(&(1u8, "y".to_string())));
    let mut lists = GSet::new();
    lists.add(vec![1u32, 2]);
    let mut others = GSet::new();
    others.add(vec![1u32, 2]);
    others.add(vec![1u32, 2, 3]);
    others.add(vec![2u32, 1]);
    lists.merge(&others);
    assert_eq!(lists.len(), 3);
    assert!(lists.contains(&vec![2u32, 1]));
    assert!(!lists.contains(&Vec::new()));
}

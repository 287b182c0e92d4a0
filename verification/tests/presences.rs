use armature_collab::{
    CursorPosition, PresenceEvent, PresenceManager, PresenceStatus, ReplicaId, SelectionDirection,
    SelectionRange, Span, Timestamp, UserPresence, Uuid,
};

fn replica(n: u128) -> ReplicaId {
    ReplicaId::from_uuid(Uuid { bits: n })
}

fn second(secs: i64) -> Timestamp {
    Timestamp { secs, nanos: 0 }
}

fn seen_at(n: u128, name: &str, secs: i64) -> UserPresence {
    UserPresence::new_at(replica(n), name, name, second(secs))
}

#[test]
fn test_user_presence() {
    let replica = ReplicaId::new();
    let mut presence = UserPresence::new(replica, "user1", "Alice");

    assert_eq!(presence.name, "Alice");
    assert_eq!(presence.status, PresenceStatus::Active);

    presence.set_cursor(CursorPosition::new(10));
    assert!(presence.cursor.is_some());
}

#[test]
fn test_presence_manager() {
    let mut manager = PresenceManager::new();

    let replica1 = ReplicaId::new();
    let replica2 = ReplicaId::new();

    manager.update(UserPresence::new(replica1, "user1", "Alice"));
    manager.update(UserPresence::new(replica2, "user2", "Bob"));

    assert_eq!(manager.count(), 2);
    assert_eq!(manager.online_count(), 2);

    manager.remove(&replica1);
    assert_eq!(manager.count(), 1);
}

#[test]
fn test_selection_range() {
    let start = CursorPosition::new(5);
    let end = CursorPosition::new(10);
    let selection = SelectionRange::new(start, end);

    assert_eq!(selection.len(), 5);
    assert!(!selection.is_collapsed());
}

#[test]
fn positions_hold_what_they_are_made_of() {
    let offset = CursorPosition::new(7);
    assert_eq!((offset.line, offset.column, offset.offset), (0, 7, 7));
    assert_eq!(offset.field, None);
    let line = CursorPosition::at(2, 3).with_field(4);
    assert_eq!((line.line, line.column, line.offset), (2, 3, 0));
    assert_eq!(line.field, Some(4));
}

#[test]
fn selections_have_no_negative_length() {
    let back = SelectionRange::new(CursorPosition::new(9), CursorPosition::new(4));
    assert_eq!(back.len(), 0);
    assert!(back.is_empty());
    assert!(!back.is_collapsed());
    assert_eq!(back.direction, SelectionDirection::Backward);
    assert_eq!((back.start.offset, back.end.offset), (9, 4));
    let ahead = SelectionRange::new(CursorPosition::new(4), CursorPosition::new(9));
    assert_eq!(ahead.direction, SelectionDirection::Forward);
    let point = SelectionRange::new(CursorPosition::new(4), CursorPosition::new(4));
    assert_eq!(point.direction, SelectionDirection::Undirected);
    // Positions without offsets are told apart by line and column.
    let lines = |a, b| SelectionRange::new(a, b).direction;
    let (top, low) = (CursorPosition::at(0, 4), CursorPosition::at(3, 1));
    assert_eq!(lines(top, low), SelectionDirection::Forward);
    assert_eq!(lines(low, top), SelectionDirection::Backward);
    let right = CursorPosition::at(0, 5);
    assert_eq!(lines(top, right), SelectionDirection::Forward);
    assert_eq!(lines(right, top), SelectionDirection::Backward);
    assert_eq!(lines(top, top), SelectionDirection::Undirected);
    let none = SelectionRange::collapsed(CursorPosition::new(4));
    assert!(none.is_collapsed());
    assert!(none.is_empty());
    assert_eq!(none.direction, SelectionDirection::Undirected);
}

#[test]
fn colors_follow_the_replica() {
    let user = |bits: u128| UserPresence::new(replica(bits), "u", "n").color;
    // The first two bytes are 0x0102 = 258.
    assert_eq!(user(0x0102u128 << 112), "hsl(258, 70%, 50%)");
    // 0xffff = 65535, which leaves 15 modulo 360.
    assert_eq!(user(u128::MAX), "hsl(15, 70%, 50%)");
    assert_eq!(user(0), "hsl(0, 70%, 50%)");
    assert_eq!(user(1), "hsl(0, 70%, 50%)");
    assert_eq!(user(359u128 << 112), "hsl(359, 70%, 50%)");
    assert_eq!(user(360u128 << 112), "hsl(0, 70%, 50%)");
}

#[test]
fn every_edit_of_a_presence_is_an_activity() {
    let mut user = seen_at(1, "u", 0);
    assert_eq!(user.last_seen, second(0));
    user.set_selection(SelectionRange::collapsed(CursorPosition::new(1)));
    assert!(user.selection.is_some());
    assert!(user.last_seen.secs > 1_500_000_000);
    user.last_seen = second(0);
    user.set_status(PresenceStatus::Away);
    assert_eq!(user.status, PresenceStatus::Away);
    assert!(user.last_seen.secs > 1_500_000_000);
    user.set_cursor(CursorPosition::new(1));
    user.clear_cursor();
    assert!(user.cursor.is_none());
    user.clear_selection();
    assert!(user.selection.is_none());
    user.last_seen = second(0);
    user.touch();
    assert!(user.last_seen.secs > 1_500_000_000);
    assert_eq!(PresenceStatus::default(), PresenceStatus::Active);
}

#[test]
fn metadata_is_kept_with_the_user() {
    let mut user = seen_at(1, "u", 0);
    user.set_metadata("role", serde_json::Value::String("editor".to_string()));
    user.set_metadata("level", serde_json::Value::from(3));
    user.set_metadata("level", serde_json::Value::from(4));
    let copy = user.clone();
    assert_eq!(copy.metadata.len(), 2);
    let level = copy.metadata.get(&"level".to_string()).unwrap();
    assert_eq!(level.0, serde_json::Value::from(4));
    let role = copy.metadata.get(&"role".to_string()).unwrap();
    assert_eq!(role.0.as_str(), Some("editor"));
}

#[test]
fn users_are_online_until_the_timeout() {
    let user = seen_at(1, "u", 100);
    let timeout = Span::from_secs(30);
    assert!(user.is_online_at(timeout, second(100)));
    assert!(user.is_online_at(timeout, Timestamp { secs: 129, nanos: 999_999_999 }));
    assert!(!user.is_online_at(timeout, second(130)));
    assert!(user.is_online_at(timeout, second(0)));
    assert!(!user.is_online_at(Span::from_secs(0), second(100)));
    // A timeout beyond every difference of times counts as thirty seconds.
    let endless = Span { nanos: u128::MAX };
    assert!(user.is_online_at(endless, second(129)));
    assert!(!user.is_online_at(endless, second(130)));
    let longest = Span { nanos: 9_223_372_036_854_775_807_000_000 };
    assert!(user.is_online_at(longest, second(4_000_000_000)));
    assert!(!user.is_online(Span::from_secs(1)));
    assert!(UserPresence::new(replica(1), "u", "n").is_online(Span::from_secs(30)));
}

#[test]
fn managers_tell_online_users_apart() {
    let mut manager = PresenceManager::with_timeout(Span::from_secs(10));
    manager.update(seen_at(1, "a", 100));
    manager.update(seen_at(2, "b", 105));
    manager.update(seen_at(3, "c", 50));
    assert_eq!(manager.count(), 3);
    assert_eq!(manager.online_count_at(second(109)), 2);
    assert_eq!(manager.online_count_at(second(112)), 1);
    assert_eq!(manager.online_count(), 0);
    assert!(manager.online_users().is_empty());
    let online = manager.online_users_at(second(112));
    assert_eq!(online.len(), 1);
    assert_eq!(online[0].name, "b");
    assert_eq!(manager.all_users().len(), 3);
    assert_eq!(manager.get(&replica(3)).unwrap().name, "c");
    assert!(manager.get(&replica(4)).is_none());
    manager.update(seen_at(3, "c2", 110));
    assert_eq!(manager.count(), 3);
    assert_eq!(manager.get(&replica(3)).unwrap().name, "c2");
}

#[test]
fn cursors_and_selections_go_to_present_users_only() {
    let mut manager = PresenceManager::default();
    manager.update(seen_at(1, "a", 0));
    manager.update_cursor(&replica(1), CursorPosition::new(3));
    manager.update_selection(
        &replica(1),
        SelectionRange::new(CursorPosition::new(1), CursorPosition::new(2)),
    );
    manager.update_cursor(&replica(2), CursorPosition::new(3));
    manager.update_selection(&replica(2), SelectionRange::collapsed(CursorPosition::new(3)));
    assert_eq!(manager.count(), 1);
    let user = manager.get(&replica(1)).unwrap();
    assert_eq!(user.cursor.unwrap().offset, 3);
    assert_eq!(user.selection.unwrap().len(), 1);
    assert!(user.last_seen.secs > 1_500_000_000);
}

#[test]
fn stale_users_are_taken_out() {
    let mut manager = PresenceManager::new();
    manager.update(seen_at(1, "a", 100));
    manager.update(seen_at(2, "b", 90));
    manager.update(seen_at(3, "c", 80));
    manager.cleanup_stale_at(Span::from_secs(10), second(100));
    assert_eq!(manager.count(), 1);
    assert!(manager.get(&replica(1)).is_some());
    manager.cleanup_stale_at(Span { nanos: u128::MAX }, second(3_699));
    assert_eq!(manager.count(), 1);
    manager.cleanup_stale_at(Span { nanos: u128::MAX }, second(3_700));
    assert_eq!(manager.count(), 0);
    manager.update(UserPresence::new(replica(1), "a", "a"));
    manager.cleanup_stale(Span::from_secs(60));
    assert_eq!(manager.count(), 1);
}

#[test]
fn snapshots_are_searched_in_order() {
    let mut manager = PresenceManager::new();
    manager.update(seen_at(1, "a", 100));
    let mut snapshot = manager.broadcast();
    assert_eq!(snapshot.users.len(), 1);
    assert!(snapshot.timestamp.secs > 1_500_000_000);
    snapshot.users.push(seen_at(2, "b", 200));
    snapshot.users.push(seen_at(3, "b", 300));
    assert_eq!(snapshot.find_user("b").unwrap().replica_id, replica(2));
    assert!(snapshot.find_user("c").is_none());
    assert_eq!(snapshot.find_replica(&replica(3)).unwrap().name, "b");
    assert!(snapshot.find_replica(&replica(4)).is_none());
    let online = snapshot.online_at(Span::from_secs(100), second(250));
    let names: Vec<ReplicaId> = online.iter().map(|user| user.replica_id).collect();
    assert_eq!(names, vec![replica(2), replica(3)]);
    assert!(snapshot.online(Span::from_secs(1)).is_empty());
}

#[test]
fn presence_events_carry_their_replica() {
    let event = PresenceEvent::CursorMove { replica_id: replica(4), cursor: CursorPosition::new(1) };
    match event {
        PresenceEvent::CursorMove { replica_id, cursor } => {
            assert_eq!(replica_id, replica(4));
            assert_eq!(cursor.offset, 1);
        }
        _ => unreachable!(),
    }
}

#[test]
fn the_clock_shows_the_present() {
    let before = chrono::Utc::now().timestamp();
    let now = Timestamp::now();
    let after = chrono::Utc::now().timestamp();
    assert!(before <= now.secs && now.secs <= after);
    assert!(now.nanos < 1_000_000_000);
}

#[test]
fn elapsed_time_is_counted_in_whole_units() {
    let start = Timestamp { secs: 10, nanos: 500_000_000 };
    let end = Timestamp { secs: 12, nanos: 499_999_999 };
    assert_eq!(end.nanos_since(&start), 1_999_999_999);
    assert_eq!(end.millis_since(&start), 1_999);
    assert_eq!(end.secs_since(&start), 1);
    assert_eq!(start.secs_since(&end), 0);
    assert_eq!(start.millis_since(&end), 0);
    assert_eq!(start.nanos_since(&end), -1_999_999_999);
    assert!(start.is_before(&end));
    assert!(!end.is_before(&end));
    let earliest = Timestamp { secs: i64::MIN, nanos: 0 };
    let latest = Timestamp { secs: i64::MAX, nanos: 999_999_999 };
    assert_eq!(latest.secs_since(&earliest), u64::MAX as u128);
}

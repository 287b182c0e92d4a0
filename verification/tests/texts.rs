use armature_collab::{
    CharId, CharNode, Crdt, LogicalClock, ReplicaId, RgaText, TextCursor, TextOp, TextSelection,
    Uuid,
};

fn replica(n: u128) -> ReplicaId {
    ReplicaId::from_uuid(Uuid { bits: n })
}

fn uuids(from: u128, count: u128) -> Vec<Uuid> {
    (0..count).map(|i| Uuid { bits: from + i }).collect()
}

#[test]
fn test_rga_insert() {
    let replica = ReplicaId::new();
    let mut text = RgaText::new(replica);

    text.insert(0, 'H');
    text.insert(1, 'i');

    assert_eq!(text.to_string(), "Hi");
}

#[test]
fn test_rga_delete() {
    let replica = ReplicaId::new();
    let mut text = RgaText::new(replica);

    text.insert(0, 'H');
    text.insert(1, 'e');
    text.insert(2, 'y');

    assert_eq!(text.to_string(), "Hey");

    text.delete(1); // Delete 'e'
    assert_eq!(text.to_string(), "Hy");
}

#[test]
fn test_rga_merge() {
    let replica1 = ReplicaId::new();
    let replica2 = ReplicaId::new();

    let mut text1 = RgaText::new(replica1);
    let mut text2 = RgaText::new(replica2);

    text1.insert(0, 'A');
    text2.insert(0, 'B');

    text1.merge(&text2);
    text2.merge(&text1);

    // Both should converge to the same state
    assert_eq!(text1.to_string(), text2.to_string());
    assert_eq!(text1.len(), 2);
}

#[test]
fn test_rga_concurrent_insert() {
    let replica1 = ReplicaId::new();
    let replica2 = ReplicaId::new();

    let mut text1 = RgaText::new(replica1);
    let mut text2 = RgaText::new(replica2);

    // Both insert at position 0
    let op1 = text1.insert(0, 'X');
    let op2 = text2.insert(0, 'Y');

    // Apply each other's operations
    text1.apply(op2);
    text2.apply(op1);

    // Should converge
    assert_eq!(text1.to_string(), text2.to_string());
}

#[test]
fn test_text_cursor() {
    let replica = ReplicaId::new();
    let mut text = RgaText::new(replica);

    text.insert_str(0, "Hello");

    let mut cursor = TextCursor::at(2, &text);
    assert_eq!(cursor.offset, 2);

    cursor.move_right(&text);
    assert_eq!(cursor.offset, 3);

    cursor.move_left(&text);
    assert_eq!(cursor.offset, 2);
}

#[test]
fn test_text_selection() {
    let sel = TextSelection::range(2, 5);
    assert_eq!(sel.start(), 2);
    assert_eq!(sel.end(), 5);
    assert_eq!(sel.len(), 3);
    assert!(!sel.is_collapsed());
}

#[test]
fn test_operations_delete_replays_as_delete() {
    let replica = ReplicaId::new();
    let mut text = RgaText::new(replica);
    text.insert_str(0, "Hello");
    text.delete(1); // delete 'e' -> "Hllo"
    assert_eq!(text.to_string(), "Hllo");

    // Replay the exported operation log onto a fresh peer.
    let ops = text.operations();
    // No insert in the log may carry a NUL placeholder.
    for op in &ops {
        if let TextOp::Insert { value, .. } = op {
            assert_ne!(*value, '\0', "tombstone exported as Insert '\\0'");
        }
    }
    // A real Delete must be present.
    assert!(
        ops.iter().any(|op| matches!(op, TextOp::Delete { .. })),
        "no Delete op emitted for the tombstone"
    );

    let mut peer = RgaText::new(ReplicaId::new());
    for op in ops {
        peer.apply(op);
    }
    assert_eq!(peer.to_string(), "Hllo");
    assert!(!peer.to_string().contains('\0'));
}

#[test]
fn test_merge_converges_multichar_interleave() {
    let r1 = ReplicaId::new();
    let r2 = ReplicaId::new();
    let mut a = RgaText::new(r1);
    let mut b = RgaText::new(r2);

    // Concurrent multi-character edits at the same position.
    a.insert_str(0, "abc");
    b.insert_str(0, "xyz");

    // Merge both directions; both must reach the same state.
    let a_before = a.clone();
    a.merge(&b);
    b.merge(&a_before);

    assert_eq!(
        a.to_string(),
        b.to_string(),
        "replicas diverged after interleaved merge"
    );
    assert_eq!(a.len(), 6);
}

#[test]
fn test_merge_is_deterministic() {
    let r1 = ReplicaId::new();
    let r2 = ReplicaId::new();

    let mut base = RgaText::new(r1);
    base.insert_str(0, "Hello");

    // Capture the peer's insert ops once, then replay them in many orders.
    let mut origin = RgaText::new(r2);
    let peer_ops = origin.insert_str(0, "World");
    assert_eq!(origin.to_string(), "World");

    // Distinct application orders of the same ops: every rotation plus the
    // reverse. Each rebuild yields the identical node set in a fresh map.
    let mut orderings: Vec<Vec<TextOp>> = Vec::new();
    for k in 0..peer_ops.len() {
        let mut o = peer_ops.clone();
        o.rotate_left(k);
        orderings.push(o);
    }
    let mut rev = peer_ops.clone();
    rev.reverse();
    orderings.push(rev);

    let mut results = Vec::new();
    for ord in &orderings {
        // Rebuild the peer from this application order.
        let mut peer = RgaText::new(r2);
        for op in ord.iter().cloned() {
            peer.apply(op);
        }
        // Same logical content reached via every order.
        assert_eq!(peer.to_string(), "World");

        // Merge both directions; both must land on the same string.
        let mut lhs = base.clone();
        lhs.merge(&peer);
        results.push(lhs.to_string());

        let mut rhs = peer.clone();
        rhs.merge(&base);
        results.push(rhs.to_string());
    }

    let first = &results[0];
    for r in &results {
        assert_eq!(
            r, first,
            "merge produced HashMap-iteration-order-dependent output"
        );
    }
    // All ten characters must survive in every result.
    assert_eq!(first.chars().count(), 10);
}

#[test]
fn test_apply_delete_before_insert_does_not_resurrect() {
    // Author a character on one replica to get a concrete Insert op.
    let author = ReplicaId::new();
    let mut src = RgaText::new(author);
    let insert_op = src.insert(0, 'Z');
    let id = match insert_op {
        TextOp::Insert { id, .. } => id,
        _ => unreachable!(),
    };
    let delete_op = TextOp::Delete { id };

    // Peer receives them OUT OF ORDER: Delete first, then Insert.
    let mut peer = RgaText::new(ReplicaId::new());
    peer.apply(delete_op);
    peer.apply(insert_op);

    assert!(
        !peer.to_string().contains('Z'),
        "deleted character resurrected after out-of-order Delete/Insert"
    );
    assert_eq!(peer.len(), 0);

    // And the tombstone must replay faithfully to a third peer.
    let mut third = RgaText::new(ReplicaId::new());
    third.apply_many(peer.operations());
    assert!(!third.to_string().contains('Z'));
    assert_eq!(third.len(), 0);
}

#[test]
fn test_apply_many_matches_per_op_apply() {
    let author = ReplicaId::new();
    let mut src = RgaText::new(author);
    src.insert_str(0, "Hello, world");
    src.delete(5); // drop the comma
    let expected = src.to_string();
    let ops = src.operations();

    // Per-op replay.
    let mut a = RgaText::new(ReplicaId::new());
    for op in ops.clone() {
        a.apply(op);
    }

    // Batch replay.
    let mut b = RgaText::new(ReplicaId::new());
    b.apply_many(ops);

    assert_eq!(a.to_string(), expected);
    assert_eq!(b.to_string(), expected);
    assert_eq!(a.to_string(), b.to_string());
}

#[test]
fn test_merge_preserves_deletes() {
    let r1 = ReplicaId::new();
    let mut a = RgaText::new(r1);
    a.insert_str(0, "Hello");
    let del_op = a.delete(0).expect("delete should return an op"); // -> "ello"
    let deleted_id = match del_op {
        TextOp::Delete { id } => id,
        _ => unreachable!("delete must return a Delete op"),
    };
    assert_eq!(a.to_string(), "ello");

    // The exported log must carry a REAL Delete for the tombstoned id and
    // must never re-insert that character as a NUL placeholder.
    let ops = a.operations();
    assert!(
        ops.iter()
            .any(|op| matches!(op, TextOp::Delete { id } if *id == deleted_id)),
        "no real Delete emitted for the tombstoned character"
    );
    for op in &ops {
        if let TextOp::Insert { value, .. } = op {
            assert_ne!(*value, '\0', "tombstone re-exported as Insert '\\0'");
        }
    }

    // Replaying that log onto a peer preserves the deletion faithfully.
    let mut b = RgaText::new(ReplicaId::new());
    b.apply_many(ops);
    assert_eq!(b.to_string(), "ello");
    assert!(!b.to_string().contains('\0'));
}

#[test]
fn insertion_goes_to_its_position() {
    let mut text = RgaText::new(replica(1));
    text.insert_str(0, "Held");
    text.insert_str(3, "lo Wor");
    assert_eq!(text.to_string(), "Hello Word");
    text.insert(9, 'l');
    assert_eq!(text.to_string(), "Hello World");
    text.insert_str(0, ">> ");
    assert_eq!(text.to_string(), ">> Hello World");
    text.insert(1000, '!');
    assert_eq!(text.to_string(), ">> Hello World!");
    assert!(text.insert_str(3, "").is_empty());
    assert_eq!(text.len(), 15);
}

#[test]
fn operations_of_an_insertion_chain_their_anchors() {
    let mut text = RgaText::new(replica(7));
    let ops = text.insert_str_with(0, "ab", &uuids(100, 2));
    let first = CharId { timestamp: LogicalClock::new(1, replica(7)), uuid: Uuid { bits: 100 } };
    let second = CharId { timestamp: LogicalClock::new(2, replica(7)), uuid: Uuid { bits: 101 } };
    match ops[0] {
        TextOp::Insert { id, value, after } => {
            assert_eq!(id, first);
            assert_eq!(value, 'a');
            assert_eq!(after, CharId::root());
        }
        _ => unreachable!(),
    }
    match ops[1] {
        TextOp::Insert { id, value, after } => {
            assert_eq!(id, second);
            assert_eq!(value, 'b');
            assert_eq!(after, first);
        }
        _ => unreachable!(),
    }
    let op = text.insert_with(1, 'x', Uuid { bits: 7 });
    match op {
        TextOp::Insert { id, after, .. } => {
            assert_eq!(id.timestamp.counter, 3);
            assert_eq!(after, first);
        }
        _ => unreachable!(),
    }
    assert_eq!(text.to_string(), "axb");
}

#[test]
fn siblings_stand_in_descending_order() {
    let mut a = RgaText::new(replica(1));
    let mut b = RgaText::new(replica(2));
    a.insert_str_with(0, "ab", &uuids(10, 2));
    b.insert_str_with(0, "xy", &uuids(20, 2));
    a.merge(&b);
    b.merge(&a);
    assert_eq!(a.to_string(), "xyab");
    assert_eq!(b.to_string(), "xyab");
}

#[test]
fn ranges_are_deleted_from_their_end() {
    let mut text = RgaText::new(replica(1));
    text.insert_str(0, "Hello World");
    let ops = text.delete_range(5, 6);
    assert_eq!(ops.len(), 6);
    assert_eq!(text.to_string(), "Hello");
    assert_eq!(text.delete_range(4, 10).len(), 1);
    assert_eq!(text.to_string(), "Hell");
    assert!(text.delete_range(9, 3).is_empty());
    assert!(text.delete(4).is_none());
    assert_eq!(text.char_at(0), Some('H'));
    assert_eq!(text.char_at(4), None);
    assert!(!text.is_empty());
    text.delete_range(0, 4);
    assert!(text.is_empty());
}

#[test]
fn applied_operations_carry_local_edits() {
    let mut local = RgaText::new(replica(1));
    let mut remote = RgaText::new(replica(2));
    remote.apply_many(local.insert_str(0, "shared"));
    assert_eq!(remote.to_string(), "shared");
    remote.apply_many(local.insert_str(3, "---"));
    assert_eq!(local.to_string(), "sha---red");
    assert_eq!(remote.to_string(), "sha---red");
    remote.apply(local.delete(0).unwrap());
    assert_eq!(remote.to_string(), "ha---red");
    assert_eq!(local.to_string(), remote.to_string());
}

#[test]
fn applying_twice_changes_nothing() {
    let mut local = RgaText::new(replica(1));
    let ops = local.insert_str(0, "abc");
    let mut remote = RgaText::new(replica(2));
    remote.apply_many(ops.clone());
    remote.apply_many(ops);
    assert_eq!(remote.to_string(), "abc");
    let copy = remote.clone();
    remote.merge(&copy);
    assert_eq!(remote.to_string(), "abc");
}

#[test]
fn merges_associate() {
    let mut a = RgaText::new(replica(1));
    let mut b = RgaText::new(replica(2));
    let mut c = RgaText::new(replica(3));
    a.insert_str(0, "one");
    b.insert_str(0, "two");
    c.insert_str(0, "three");
    let mut left = a.clone();
    left.merge(&b);
    left.merge(&c);
    let mut bc = b.clone();
    bc.merge(&c);
    let mut right = a.clone();
    right.merge(&bc);
    assert_eq!(left.to_string(), right.to_string());
    assert_eq!(left.len(), 11);
}

#[test]
fn characters_without_their_anchor_come_last() {
    let mut author = RgaText::new(replica(1));
    let ops = author.insert_str_with(0, "abc", &uuids(10, 3));
    let mut peer = RgaText::new(replica(2));
    peer.insert_str_with(0, "z", &uuids(50, 1));
    // Without the first character the rest hangs in the air.
    peer.apply(ops[2]);
    peer.apply(ops[1]);
    assert_eq!(peer.to_string(), "zbc");
    peer.apply(ops[0]);
    assert_eq!(peer.to_string(), "zabc");
}

#[test]
fn nodes_keep_their_value_when_deleted() {
    let id = CharId::new(LogicalClock::new(1, replica(1)));
    let mut node = CharNode::new(id, 'q', CharId::root());
    assert!(node.is_visible());
    assert!(!node.is_deleted());
    node.delete();
    assert!(node.is_deleted());
    assert!(!node.is_visible());
    assert_eq!(node.value, Some('q'));
    assert!(CharId::root().is_root());
    assert!(!id.is_root());
}

#[test]
fn character_ids_are_ordered_by_time_then_uuid() {
    let early = CharId { timestamp: LogicalClock::new(1, replica(9)), uuid: Uuid { bits: 9 } };
    let late = CharId { timestamp: LogicalClock::new(2, replica(1)), uuid: Uuid { bits: 1 } };
    let tie = CharId { timestamp: LogicalClock::new(1, replica(9)), uuid: Uuid { bits: 10 } };
    assert!(early < late);
    assert!(early < tie);
    assert!(tie < late);
}

#[test]
fn cursors_stop_at_the_ends() {
    let mut text = RgaText::new(replica(1));
    text.insert_str_with(0, "ab", &uuids(10, 2));
    let mut cursor = TextCursor::at(0, &text);
    assert_eq!(cursor.after, CharId::root());
    cursor.move_left(&text);
    assert_eq!(cursor.offset, 0);
    cursor.move_right(&text);
    assert_eq!(cursor.after.uuid, Uuid { bits: 10 });
    cursor.move_right(&text);
    assert_eq!(cursor.after.uuid, Uuid { bits: 11 });
    cursor.move_right(&text);
    assert_eq!(cursor.offset, 2);
    cursor.move_left(&text);
    cursor.move_left(&text);
    assert_eq!(cursor.offset, 0);
    assert_eq!(cursor.after, CharId::root());
    let past = TextCursor::at(9, &text);
    assert_eq!(past.offset, 9);
    assert_eq!(past.after, CharId::root());
}

#[test]
fn backward_selections_have_the_same_extent() {
    let back = TextSelection::range(5, 2);
    assert_eq!(back.start(), 2);
    assert_eq!(back.end(), 5);
    assert_eq!(back.len(), 3);
    let cursor = TextSelection::cursor(4);
    assert!(cursor.is_collapsed());
    assert!(cursor.is_empty());
    assert_eq!(cursor.len(), 0);
}

#[test]
fn visible_positions_skip_deleted_characters() {
    let mut text = RgaText::new(replica(1));
    text.insert_str_with(0, "abc", &uuids(10, 3));
    text.delete(1);
    assert_eq!(text.visible_id_at_position(1).unwrap().uuid, Uuid { bits: 12 });
    assert!(text.visible_id_at_position(2).is_none());
    assert_eq!(text.char_at(1), Some('c'));
}

#[test]
fn merges_fill_in_characters_known_only_by_their_deletion() {
    let mut a = RgaText::new(ReplicaId::new());
    let ops = a.insert_str(0, "abc");
    let id = match ops[1] {
        TextOp::Insert { id, .. } => id,
        _ => unreachable!(),
    };
    let mut p = RgaText::new(ReplicaId::new());
    p.apply(TextOp::Delete { id });
    let q = p.clone();
    p.merge(&a);
    a.merge(&q);
    assert_eq!(p.to_string(), "ac");
    assert_eq!(a.to_string(), "ac");
    // The deleted character is known with its value on both sides.
    for text in [&p, &a] {
        let log = text.operations();
        assert_eq!(log.len(), 4);
        assert!(matches!(log[1], TextOp::Insert { value: 'b', .. }));
        assert!(matches!(log[3], TextOp::Delete { id: gone } if gone == id));
    }
}

#[test]
fn batches_may_be_delivered_again() {
    let mut source = RgaText::new(replica(1));
    source.insert_str_with(0, "hello", &uuids(10, 5));
    source.delete(1);
    let mut ops = source.operations();
    ops.reverse();
    let mut peer = RgaText::new(replica(2));
    peer.apply_many(ops.clone());
    assert_eq!(peer.to_string(), "hllo");
    peer.apply_many(ops);
    assert_eq!(peer.to_string(), "hllo");
    assert_eq!(peer.operations().len(), 6);
}

#[test]
fn logs_insert_each_character_once_after_its_anchor() {
    let mut a = RgaText::new(replica(1));
    a.insert_str_with(0, "ac", &uuids(10, 2));
    a.insert_with(1, 'b', Uuid { bits: 20 });
    a.delete(0);
    let mut b = RgaText::new(replica(2));
    b.insert_str_with(0, "xy", &uuids(30, 2));
    a.merge(&b);
    let log = a.operations();
    assert_eq!(log.len(), 6);
    let mut known = vec![CharId::root()];
    for op in &log[..5] {
        match op {
            TextOp::Insert { id, after, .. } => {
                assert!(known.contains(after));
                assert!(!known.contains(id));
                known.push(*id);
            }
            TextOp::Delete { .. } => unreachable!(),
        }
    }
    assert!(matches!(log[5], TextOp::Delete { .. }));
}

#[test]
fn insertions_stand_in_order_beside_deletions_that_came_first() {
    let unseen = CharId { timestamp: LogicalClock::new(9, replica(7)), uuid: Uuid { bits: 1 } };
    let mut text = RgaText::new(replica(1));
    text.apply(TextOp::Delete { id: unseen });
    text.insert_str_with(0, "bc", &uuids(10, 2));
    text.insert_with(0, 'a', Uuid { bits: 20 });
    assert_eq!(text.to_string(), "abc");
    // A peer that rebuilds the order from the log shows the same.
    let mut peer = RgaText::new(replica(2));
    peer.apply_many(text.operations());
    assert_eq!(peer.to_string(), "abc");
    assert_eq!(peer.visible_id_at_position(0), text.visible_id_at_position(0));
}

#[test]
fn merges_keep_the_order_of_what_was_there() {
    let mut a = RgaText::new(replica(1));
    a.insert_str_with(0, "abcd", &uuids(10, 4));
    let mut b = a.clone();
    let mut other = RgaText::new(replica(2));
    other.merge(&b);
    a.insert_with(2, 'x', Uuid { bits: 50 });
    other.insert_str_with(2, "yz", &uuids(60, 2));
    other.insert_with(0, 'w', Uuid { bits: 70 });
    b.merge(&a);
    b.merge(&other);
    let merged = b.to_string();
    let only = |kept: &str| -> String { merged.chars().filter(|c| kept.contains(*c)).collect() };
    assert_eq!(only("abcdx"), a.to_string());
    assert_eq!(only("abcdwyz"), other.to_string());
    assert_eq!(merged.chars().count(), 8);
}

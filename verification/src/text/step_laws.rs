//! What each edit and each operation does to the characters of a text, and how the
//! characters stand.

use crate::ident::Uuid;
use crate::text::edit_laws::{
    deletion_removes_at_position, lemma_run_ids, lemma_run_nodes, lemma_visible_member,
};
use crate::text::merge_laws::batch_equals_steps;
use crate::text::model::{
    chars_of, nodes_after, nodes_after_all, run_after, run_op, run_ops, visible_ids,
    TextState,
};
use crate::text::node::{CharId, CharNode, TextOp};
use crate::text::order::{
    children, deep_enough, in_order, in_order_is_ascending, is_child, lemma_children,
    lemma_root_depth, orphans, rooted_walk, text_order, walk,
};
use crate::text::stability_laws::precedes;
use vstd::prelude::*;

verus! {

/// Ids are ordered by their timestamps, and at the same time by their UUIDs. The root has a
/// UUID of zero, and no other id of a character has.
pub proof fn ids_are_ordered_by_time(a: CharId, b: CharId)
    ensures
        a.timestamp.counter < b.timestamp.counter ==> a.before(b),
        a.timestamp.counter == b.timestamp.counter && a.timestamp.replica.0.bits
            < b.timestamp.replica.0.bits ==> a.before(b),
        a.timestamp == b.timestamp && a.uuid.bits < b.uuid.bits ==> a.before(b),
        !(a.before(b) && b.before(a)),
        a.nil() == (a.uuid.bits == 0),
        CharId::spec_root().nil(),
        CharId::spec_root().timestamp.counter == 0,
        CharId::spec_root().timestamp.replica.0.bits == 0,
{
}

/// A character is visible exactly if it has a value and is not deleted. One that was just
/// inserted is; a deletion hides it, and takes nothing else away from it.
pub proof fn deletion_hides_and_keeps(node: CharNode, id: CharId, value: char, after: CharId)
    ensures
        node.visible() == (!node.deleted && node.value is Some),
        ({
            let new = CharNode::fresh(id, value, after);
            &&& new.visible()
            &&& new.id == id
            &&& new.value == Some(value)
            &&& new.after == after
        }),
        !node.tombstoned().visible(),
        node.tombstoned().deleted,
        node.tombstoned().id == node.id,
        node.tombstoned().value == node.value,
        node.tombstoned().after == node.after,
        CharNode::placeholder(id).id == id,
        CharNode::placeholder(id).value is None,
        CharNode::placeholder(id).deleted,
        CharNode::spec_root().value is None,
        !CharNode::spec_root().visible(),
{
}

/// What a text shows is found by going through its sequence: each visible character, in the
/// order in which they stand, with its value.
pub proof fn texts_show_their_visible_characters(
    nodes: Map<CharId, CharNode>,
    ids: Seq<CharId>,
    id: CharId,
)
    ensures
        visible_ids(nodes, Seq::empty()).len() == 0,
        nodes.contains_key(id) && !nodes[id].deleted && nodes[id].value is Some ==> visible_ids(
            nodes,
            ids.push(id),
        ) == visible_ids(nodes, ids).push(id),
        !nodes.contains_key(id) || nodes[id].deleted || nodes[id].value is None ==> visible_ids(
            nodes,
            ids.push(id),
        ) == visible_ids(nodes, ids),
        chars_of(nodes, ids).len() == ids.len(),
        forall|i: int|
            0 <= i < ids.len() && nodes[ids[i]].value is Some ==> Some(
                #[trigger] chars_of(nodes, ids)[i],
            ) == nodes[ids[i]].value,
{
    assert(ids.push(id).drop_last() =~= ids);
}

/// The text of a replica is made of its own nodes in its own sequence.
pub proof fn texts_show_their_own_sequence(state: TextState)
    ensures
        state.shown() == visible_ids(state.nodes, state.sequence),
        state.chars().len() == state.shown().len(),
        state.chars() == chars_of(state.nodes, state.shown()),
{
}

/// An operation touches no character but the one it is about. The insertion of a character
/// that is not known stores it, visible, with its value and behind its anchor; one of which
/// only the deletion is known is filled in and stays deleted; one that is known stays as it
/// is. A deletion hides its character for good, also before it is known.
pub proof fn operations_touch_one_character(
    nodes: Map<CharId, CharNode>,
    id: CharId,
    value: char,
    after: CharId,
    other: CharId,
)
    ensures
        ({
            let inserted = nodes_after(nodes, TextOp::Insert { id, value, after });
            let deleted = nodes_after(nodes, TextOp::Delete { id });
            &&& other != id ==> {
                &&& inserted.contains_key(other) == nodes.contains_key(other)
                &&& nodes.contains_key(other) ==> inserted[other] == nodes[other]
                &&& deleted.contains_key(other) == nodes.contains_key(other)
                &&& nodes.contains_key(other) ==> deleted[other] == nodes[other]
            }
            &&& inserted.contains_key(id)
            &&& !nodes.contains_key(id) ==> {
                &&& inserted[id].id == id
                &&& inserted[id].value == Some(value)
                &&& inserted[id].after == after
                &&& !inserted[id].deleted
                &&& deleted[id].id == id
                &&& deleted[id].value is None
            }
            &&& nodes.contains_key(id) && nodes[id].value is None && nodes[id].deleted ==> {
                &&& inserted[id].value == Some(value)
                &&& inserted[id].after == after
                &&& inserted[id].deleted
                &&& inserted[id].id == nodes[id].id
            }
            &&& nodes.contains_key(id) && (nodes[id].value is Some || !nodes[id].deleted)
                ==> inserted[id] == nodes[id]
            &&& deleted.contains_key(id)
            &&& deleted[id].deleted
            &&& nodes.contains_key(id) ==> {
                &&& deleted[id].id == nodes[id].id
                &&& deleted[id].value == nodes[id].value
                &&& deleted[id].after == nodes[id].after
            }
        }),
{
}

/// Applying an operation leaves the replica what it is, and moves its clock on to the time
/// of an insertion that is later.
pub proof fn operations_move_the_clock(
    state: TextState,
    id: CharId,
    value: char,
    after: CharId,
)
    ensures
        ({
            let inserted = state.applied(seq![TextOp::Insert { id, value, after }]);
            let deleted = state.applied(seq![TextOp::Delete { id }]);
            &&& inserted.replica == state.replica
            &&& deleted.replica == state.replica
            &&& inserted.nodes == nodes_after(state.nodes, TextOp::Insert { id, value, after })
            &&& deleted.nodes == nodes_after(state.nodes, TextOp::Delete { id })
            &&& inserted.clock.replica == state.clock.replica
            &&& inserted.clock.counter >= state.clock.counter
            &&& inserted.clock.counter >= id.timestamp.counter
            &&& inserted.clock.counter == state.clock.counter || inserted.clock.counter
                == id.timestamp.counter
            &&& deleted.clock == state.clock
            &&& state.applied(Seq::empty()) == state
        }),
{
    let insert = seq![TextOp::Insert { id, value, after }];
    let delete = seq![TextOp::Delete { id }];
    assert(insert.drop_last() =~= Seq::empty());
    assert(delete.drop_last() =~= Seq::empty());
    reveal_with_fuel(nodes_after_all, 2);
    reveal_with_fuel(crate::text::model::clock_after_all, 2);
    assert(state.applied(Seq::empty()) =~= state);
}

/// An insertion goes behind the visible character before its position, behind the last one
/// past the end, and behind the root at the start.
pub proof fn insertions_go_behind_the_character_before(state: TextState, pos: nat)
    ensures
        pos == 0 ==> state.anchor(pos) == CharId::spec_root(),
        0 < pos <= state.shown().len() ==> state.anchor(pos) == state.shown()[pos - 1],
        pos > state.shown().len() && state.shown().len() > 0 ==> state.anchor(pos)
            == state.shown()[state.shown().len() - 1],
        state.shown().len() == 0 ==> state.anchor(pos) == CharId::spec_root(),
{
}

/// An insertion gives each new character an id with the next time of the replica's clock and
/// its own UUID, stores it visible behind the one before it, and hands out one operation for
/// it that says just that. No other character is touched, and the clock moves on by as many.
pub proof fn insertions_store_and_hand_out_each_character(
    state: TextState,
    pos: nat,
    text: Seq<char>,
    uuids: Seq<Uuid>,
    i: int,
    other: CharId,
)
    requires
        uuids.len() == text.len(),
        state.clock.counter + text.len() <= u64::MAX,
        0 <= i < text.len(),
    ensures
        ({
            let ids = state.new_ids(uuids);
            let after = state.inserted(pos, text, uuids);
            let ops = run_ops(ids, text, state.anchor(pos));
            let before = if i == 0 {
                state.anchor(pos)
            } else {
                ids[i - 1]
            };
            &&& ids.len() == text.len()
            &&& ids[i].timestamp.counter == state.clock.counter + 1 + i
            &&& ids[i].timestamp.replica == state.clock.replica
            &&& ids[i].uuid == uuids[i]
            &&& after.nodes.contains_key(ids[i])
            &&& after.nodes[ids[i]].id == ids[i]
            &&& after.nodes[ids[i]].value == Some(text[i])
            &&& after.nodes[ids[i]].after == before
            &&& !after.nodes[ids[i]].deleted
            &&& ops.len() == text.len()
            &&& ops[i] == (TextOp::Insert { id: ids[i], value: text[i], after: before })
            &&& !ids.contains(other) ==> {
                &&& after.nodes.contains_key(other) == state.nodes.contains_key(other)
                &&& state.nodes.contains_key(other) ==> after.nodes[other] == state.nodes[other]
            }
            &&& after.replica == state.replica
            &&& after.clock.replica == state.clock.replica
            &&& after.clock.counter == state.clock.counter + text.len()
        }),
{
    let ids = state.new_ids(uuids);
    let anchor = state.anchor(pos);
    lemma_run_ids(state, uuids);
    lemma_run_nodes(state.nodes, ids, text, anchor, text.len());
    assert(ids.take(text.len() as int) =~= ids);
    assert(run_ops(ids, text, anchor)[i] == run_op(ids, text, anchor, i));
    assert(run_after(ids, anchor, i) == if i == 0 {
        anchor
    } else {
        ids[i - 1]
    });
    assert(state.inserted(pos, text, uuids).nodes.contains_key(ids[i]));
}

/// A deletion marks the visible character at its position, keeps its value, and touches
/// neither another character nor the order nor the clock. It hands out an operation that
/// deletes that character, and nothing where there is none.
pub proof fn deletions_mark_one_character(state: TextState, pos: nat, other: CharId)
    ensures
        ({
            let after = state.deleted(pos);
            let id = state.shown()[pos as int];
            &&& pos < state.shown().len() ==> {
                &&& after.nodes.contains_key(id)
                &&& after.nodes[id].deleted
                &&& after.nodes[id].value == state.nodes[id].value
                &&& after.nodes[id].after == state.nodes[id].after
                &&& after.nodes[id].id == state.nodes[id].id
                &&& state.delete_op(pos) == Some(TextOp::Delete { id })
                &&& other != id ==> after.nodes.contains_key(other) == state.nodes.contains_key(
                    other,
                )
                &&& other != id && state.nodes.contains_key(other) ==> after.nodes[other]
                    == state.nodes[other]
            }
            &&& pos >= state.shown().len() ==> after == state && state.delete_op(pos) is None
            &&& after.sequence == state.sequence
            &&& after.clock == state.clock
            &&& after.replica == state.replica
        }),
{
}

/// Deleting a range hands out one deletion for each visible character in it, from its end
/// to its start; positions past the end count for nothing.
pub proof fn range_deletions_hand_out_each_deletion(state: TextState, start: nat, len: nat)
    requires
        state.wf(),
        state.placed(),
    ensures
        ({
            let ops = state.range_delete_ops(start, len);
            let n = state.shown().len();
            let to = if start + len <= n { (start + len) as int } else { n as int };
            &&& ops.len() == if start <= to { to - start } else { 0 }
            &&& forall|k: int|
                0 <= k < ops.len() ==> #[trigger] ops[k] == (TextOp::Delete {
                    id: state.shown()[to - 1 - k],
                })
        }),
    decreases len,
{
    if len > 0 {
        let last = (start + len - 1) as nat;
        let next = state.deleted(last);
        let ops = state.range_delete_ops(start, len);
        let rest = next.range_delete_ops(start, (len - 1) as nat);
        deletion_removes_at_position(state, last);
        range_deletions_hand_out_each_deletion(next, start, (len - 1) as nat);
        if last < state.shown().len() {
            assert(ops =~= seq![TextOp::Delete { id: state.shown()[last as int] }] + rest);
            assert forall|k: int| 0 <= k < ops.len() implies #[trigger] ops[k] == (
            TextOp::Delete { id: state.shown()[start + len - 1 - k] }) by {
                if k > 0 {
                    assert(ops[k] == rest[k - 1]);
                    assert(next.shown()[start + len - 1 - k] == state.shown()[start + len - 1 - k]);
                }
            }
        } else {
            assert(ops =~= rest);
        }
    }
}

/// What deleting a range hands out carries the deletion: another replica that holds the same
/// characters and applies the operations has them deleted as well, and no others.
pub proof fn operations_carry_the_range_deletion(
    ours: TextState,
    theirs: TextState,
    start: nat,
    len: nat,
)
    requires
        ours.wf(),
        ours.placed(),
        theirs.nodes == ours.nodes,
    ensures
        theirs.applied(ours.range_delete_ops(start, len)).nodes == ours.range_deleted(
            start,
            len,
        ).nodes,
    decreases len,
{
    if len == 0 {
        assert(ours.range_delete_ops(start, len) =~= Seq::empty());
    } else {
        let last = (start + len - 1) as nat;
        let next = ours.deleted(last);
        let rest = next.range_delete_ops(start, (len - 1) as nat);
        deletion_removes_at_position(ours, last);
        if last < ours.shown().len() {
            let id = ours.shown()[last as int];
            let first = seq![TextOp::Delete { id }];
            let peer = theirs.applied(first);
            assert(first.drop_last() =~= Seq::empty());
            reveal_with_fuel(nodes_after_all, 2);
            lemma_visible_member(ours.nodes, ours.sequence, last as int);
            assert(peer.nodes == next.nodes);
            operations_carry_the_range_deletion(next, peer, start, (len - 1) as nat);
            batch_equals_steps(theirs, first, rest);
            assert(ours.range_delete_ops(start, len) =~= first + rest);
        } else {
            assert(ours.range_delete_ops(start, len) =~= rest);
            operations_carry_the_range_deletion(next, theirs, start, (len - 1) as nat);
        }
    }
}

/// A merge leaves a replica what it is, and moves its clock on to the later of the two. It
/// keeps its own root. Every other character of either side is there, deleted if it is
/// deleted on either side, with the value and the anchor that a side knows.
pub proof fn merged_texts_have_the_characters_of_both(a: TextState, b: TextState, id: CharId)
    ensures
        ({
            let ab = a.join(b);
            &&& ab.replica == a.replica
            &&& ab.clock.replica == a.clock.replica
            &&& ab.clock.counter >= a.clock.counter
            &&& ab.clock.counter >= b.clock.counter
            &&& ab.clock.counter == a.clock.counter || ab.clock.counter == b.clock.counter
            &&& ab.sequence == text_order(ab.nodes)
            &&& id.uuid.bits == 0 ==> ab.nodes.contains_key(id) == a.nodes.contains_key(id)
            &&& id.uuid.bits == 0 && a.nodes.contains_key(id) ==> ab.nodes[id] == a.nodes[id]
            &&& id.uuid.bits != 0 ==> {
                &&& ab.nodes.contains_key(id) == (a.nodes.contains_key(id)
                    || b.nodes.contains_key(id))
                &&& a.nodes.contains_key(id) && !b.nodes.contains_key(id) ==> ab.nodes[id]
                    == a.nodes[id]
                &&& !a.nodes.contains_key(id) && b.nodes.contains_key(id) ==> ab.nodes[id]
                    == b.nodes[id]
                &&& a.nodes.contains_key(id) && b.nodes.contains_key(id) ==> {
                    &&& ab.nodes[id].id == a.nodes[id].id
                    &&& ab.nodes[id].deleted == (a.nodes[id].deleted || b.nodes[id].deleted)
                    &&& a.nodes[id].value is Some || b.nodes[id].value is None
                        ==> ab.nodes[id].value == a.nodes[id].value && ab.nodes[id].after
                        == a.nodes[id].after
                    &&& a.nodes[id].value is None && b.nodes[id].value is Some
                        ==> ab.nodes[id].value == b.nodes[id].value && ab.nodes[id].after
                        == b.nodes[id].after
                }
            }
        }),
{
}

/// A text that was just made holds nothing but the root, on its own replica.
pub proof fn new_texts_hold_the_root(replica: crate::ident::ReplicaId)
    ensures
        ({
            let text = TextState::empty(replica);
            &&& text.replica == replica
            &&& text.clock.replica == replica
            &&& text.clock.counter == 0
            &&& text.nodes.dom() == set![CharId::spec_root()]
            &&& text.sequence == seq![CharId::spec_root()]
        }),
{
    assert(TextState::empty(replica).nodes.dom() =~= set![CharId::spec_root()]);
}

/// Of the characters inserted behind the same one, each stands behind it, and the later one
/// stands first: what is inserted at a place comes before what was inserted there earlier.
///
/// It holds of the characters that are reached from the root; those that are not stand
/// behind all others, the earlier one first.
pub proof fn later_siblings_stand_first(
    nodes: Map<CharId, CharNode>,
    parent: CharId,
    earlier: CharId,
    later: CharId,
)
    requires
        nodes.dom().finite(),
        nodes.contains_key(CharId::spec_root()),
        nodes.contains_key(earlier) && earlier.uuid.bits != 0 && nodes[earlier].after == parent,
        nodes.contains_key(later) && later.uuid.bits != 0 && nodes[later].after == parent,
        earlier.before(later),
        rooted_walk(nodes).contains(parent),
    ensures
        precedes(text_order(nodes), later, earlier),
        precedes(text_order(nodes), parent, later),
        precedes(text_order(nodes), parent, earlier),
{
    let root = CharId::spec_root();
    let walked = rooted_walk(nodes);
    lemma_root_depth(nodes);
    lemma_siblings_in_walk(nodes, seq![root], nodes.dom().len(), parent, earlier, later);
    lemma_stands_in_part(Seq::empty(), walked, in_order(orphans(nodes)), later, earlier);
    lemma_stands_in_part(Seq::empty(), walked, in_order(orphans(nodes)), parent, later);
    lemma_stands_in_part(Seq::empty(), walked, in_order(orphans(nodes)), parent, earlier);
    assert(Seq::<CharId>::empty() + walked + in_order(orphans(nodes)) =~= text_order(nodes));
}

/// The characters that are not reached from the root stand behind all that are, in the
/// order of their ids.
pub proof fn unreached_characters_stand_last(nodes: Map<CharId, CharNode>, i: int, j: int)
    requires
        nodes.dom().finite(),
        0 <= i < j < text_order(nodes).len(),
        !rooted_walk(nodes).contains(text_order(nodes)[i]),
    ensures
        !rooted_walk(nodes).contains(text_order(nodes)[j]),
        text_order(nodes)[i].before(text_order(nodes)[j]),
{
    let walked = rooted_walk(nodes);
    let rest = in_order(orphans(nodes));
    vstd::set_lib::lemma_set_subset_finite(nodes.dom(), orphans(nodes));
    in_order_is_ascending(orphans(nodes));
    assert(i >= walked.len()) by {
        if i < walked.len() {
            assert(text_order(nodes)[i] == walked[i]);
        }
    }
    assert(text_order(nodes)[i] == rest[i - walked.len()]);
    assert(text_order(nodes)[j] == rest[j - walked.len()]);
    assert(rest.to_set().contains(rest[j - walked.len()]));
}

/// What stands in order in a part stands in order in the whole.
proof fn lemma_stands_in_part(
    front: Seq<CharId>,
    part: Seq<CharId>,
    back: Seq<CharId>,
    first: CharId,
    second: CharId,
)
    requires
        precedes(part, first, second),
    ensures
        precedes(front + part + back, first, second),
{
    let (i, j) = choose|i: int, j: int|
        0 <= i < j < part.len() && #[trigger] part[i] == first && #[trigger] part[j] == second;
    let whole = front + part + back;
    assert(whole[front.len() + i] == first);
    assert(whole[front.len() + j] == second);
}

/// A walk meets the ids that it starts from in their order.
proof fn lemma_walk_meets_in_order(
    nodes: Map<CharId, CharNode>,
    ids: Seq<CharId>,
    depth: nat,
    i: int,
    j: int,
)
    requires
        depth > 0,
        0 <= i < j < ids.len(),
    ensures
        precedes(walk(nodes, ids, depth), ids[i], ids[j]),
    decreases ids.len(),
{
    let below = walk(nodes, children(nodes, ids[0]).reverse(), (depth - 1) as nat);
    let rest = walk(nodes, ids.drop_first(), depth);
    let whole = walk(nodes, ids, depth);
    assert(whole == seq![ids[0]] + below + rest);
    if i > 0 {
        lemma_walk_meets_in_order(nodes, ids.drop_first(), depth, i - 1, j - 1);
        lemma_stands_in_part(seq![ids[0]] + below, rest, Seq::empty(), ids[i], ids[j]);
        assert(seq![ids[0]] + below + rest + Seq::<CharId>::empty() =~= whole);
    } else {
        lemma_walk_meets(nodes, ids.drop_first(), depth, j - 1);
        let k = choose|k: int| 0 <= k < rest.len() && rest[k] == ids[j];
        assert(whole[0] == ids[0]);
        assert(whole[1 + below.len() + k] == ids[j]);
    }
}

/// A walk meets the ids that it starts from.
proof fn lemma_walk_meets(nodes: Map<CharId, CharNode>, ids: Seq<CharId>, depth: nat, i: int)
    requires
        depth > 0,
        0 <= i < ids.len(),
    ensures
        walk(nodes, ids, depth).contains(ids[i]),
    decreases ids.len(),
{
    let below = walk(nodes, children(nodes, ids[0]).reverse(), (depth - 1) as nat);
    let rest = walk(nodes, ids.drop_first(), depth);
    let whole = walk(nodes, ids, depth);
    assert(whole == seq![ids[0]] + below + rest);
    if i > 0 {
        lemma_walk_meets(nodes, ids.drop_first(), depth, i - 1);
        let k = choose|k: int| 0 <= k < rest.len() && rest[k] == ids[i];
        assert(whole[1 + below.len() + k] == ids[i]);
    } else {
        assert(whole[0] == ids[0]);
    }
}

/// A walk that cuts nothing off meets behind each id its children, the greatest first.
proof fn lemma_siblings_in_walk(
    nodes: Map<CharId, CharNode>,
    ids: Seq<CharId>,
    depth: nat,
    parent: CharId,
    earlier: CharId,
    later: CharId,
)
    requires
        nodes.dom().finite(),
        deep_enough(nodes, ids, depth),
        is_child(nodes, parent, earlier),
        is_child(nodes, parent, later),
        earlier.before(later),
        walk(nodes, ids, depth).contains(parent),
    ensures
        precedes(walk(nodes, ids, depth), later, earlier),
        precedes(walk(nodes, ids, depth), parent, later),
        precedes(walk(nodes, ids, depth), parent, earlier),
    decreases depth, ids.len(),
{
    let list = children(nodes, ids[0]).reverse();
    let below = walk(nodes, list, (depth - 1) as nat);
    let rest = walk(nodes, ids.drop_first(), depth);
    let whole = walk(nodes, ids, depth);
    assert(ids.len() > 0 && depth > 0);
    assert(whole == seq![ids[0]] + below + rest);
    if ids[0] == parent {
        lemma_children(nodes, parent);
        let kids = children(nodes, parent);
        assert(kids.contains(earlier) && kids.contains(later));
        let i = choose|i: int| 0 <= i < kids.len() && kids[i] == earlier;
        let j = choose|j: int| 0 <= j < kids.len() && kids[j] == later;
        assert(i < j) by {
            if j < i {
                assert(kids[j].before(kids[i]));
            }
        }
        let a = kids.len() - 1 - j;
        let b = kids.len() - 1 - i;
        assert(list[a] == later && list[b] == earlier);
        assert(depth - 1 > 0) by {
            assert(deep_enough(nodes, list, (depth - 1) as nat));
        }
        lemma_walk_meets_in_order(nodes, list, (depth - 1) as nat, a, b);
        lemma_stands_in_part(seq![ids[0]], below, rest, later, earlier);
        lemma_walk_meets(nodes, list, (depth - 1) as nat, a);
        lemma_walk_meets(nodes, list, (depth - 1) as nat, b);
        let k = choose|k: int| 0 <= k < below.len() && below[k] == later;
        let l = choose|l: int| 0 <= l < below.len() && below[l] == earlier;
        assert(whole[0] == parent);
        assert(whole[1 + k] == later);
        assert(whole[1 + l] == earlier);
    } else {
        let at = choose|at: int| 0 <= at < whole.len() && whole[at] == parent;
        if at < 1 + below.len() {
            assert(below[at - 1] == parent);
            lemma_siblings_in_walk(nodes, list, (depth - 1) as nat, parent, earlier, later);
            lemma_stands_in_part(seq![ids[0]], below, rest, later, earlier);
            lemma_stands_in_part(seq![ids[0]], below, rest, parent, later);
            lemma_stands_in_part(seq![ids[0]], below, rest, parent, earlier);
        } else {
            assert(rest[at - 1 - below.len()] == parent);
            lemma_siblings_in_walk(nodes, ids.drop_first(), depth, parent, earlier, later);
            let front = seq![ids[0]] + below;
            lemma_stands_in_part(front, rest, Seq::empty(), later, earlier);
            lemma_stands_in_part(front, rest, Seq::empty(), parent, later);
            lemma_stands_in_part(front, rest, Seq::empty(), parent, earlier);
            assert(front + rest + Seq::<CharId>::empty() =~= whole);
        }
    }
}

} // verus!

//! What a replica makes of operations, in whatever order they arrive.

use crate::clock::LogicalClock;
use crate::ident::ReplicaId;
use crate::text::edit_laws::new_text_is_empty;
use crate::text::merge_laws::{
    applying_keeps_order, same_nodes_same_text, same_sight, same_tree, settled_is_placed,
};
use crate::text::model::{
    any_reorders, clock_after_all, delete_ops, insert_op, insert_ops, nodes_after,
    nodes_after_all, reorders, shows, TextState,
};
use crate::text::node::{CharId, CharNode, TextOp};
use crate::text::order::{text_order, text_order_is_complete};
use vstd::prelude::*;

verus! {

/// Whether an operation inserts a given character.
pub open spec fn inserts(op: TextOp, id: CharId) -> bool {
    op is Insert && op.target() == id
}

/// Whether the insertions of a character among some operations are all the same:
/// a character is inserted once, however often the operation is delivered.
pub open spec fn consistent(ops: Set<TextOp>) -> bool {
    forall|a: TextOp, b: TextOp| #[trigger]
        ops.contains(a) && #[trigger] ops.contains(b) && a is Insert && b is Insert && a.target()
            == b.target() ==> a == b
}

/// Whether some operations leave the document's beginning in place of a
/// character.
pub open spec fn spares_root(ops: Set<TextOp>) -> bool {
    forall|op: TextOp| #[trigger] ops.contains(op) ==> !inserts(op, CharId::spec_root())
}

/// The insertion of a character among some operations.
pub open spec fn insertion(ops: Set<TextOp>, id: CharId) -> Option<TextOp> {
    if exists|op: TextOp| #[trigger] ops.contains(op) && inserts(op, id) {
        Some(choose|op: TextOp| #[trigger] ops.contains(op) && inserts(op, id))
    } else {
        None
    }
}

/// The node of an id, if there is one.
pub open spec fn node_at(nodes: Map<CharId, CharNode>, id: CharId) -> Option<CharNode> {
    if nodes.contains_key(id) {
        Some(nodes[id])
    } else {
        None
    }
}

/// What becomes of a character's node under an insertion, or none, and a
/// deletion, or none: in whatever order they come.
pub open spec fn outcome(
    known: Option<CharNode>,
    id: CharId,
    inserted: Option<TextOp>,
    deleted: bool,
) -> Option<CharNode> {
    let filled = match (known, inserted) {
        (Some(node), Some(TextOp::Insert { value, after, .. })) => if node.value is None {
            Some(CharNode { id: node.id, value: Some(value), after, deleted: true })
        } else {
            known
        },
        (None, Some(TextOp::Insert { value, after, .. })) => Some(
            CharNode::fresh(id, value, after),
        ),
        _ => known,
    };
    match filled {
        Some(node) => if deleted {
            Some(node.tombstoned())
        } else {
            filled
        },
        None => if deleted {
            Some(CharNode::placeholder(id))
        } else {
            None
        },
    }
}

/// Maps with the same node for each id are the same.
proof fn lemma_same_nodes(a: Map<CharId, CharNode>, b: Map<CharId, CharNode>)
    requires
        forall|id: CharId| #[trigger] node_at(a, id) == node_at(b, id),
    ensures
        a == b,
{
    assert forall|id: CharId| a.dom().contains(id) == b.dom().contains(id) by {
        assert(node_at(a, id) == node_at(b, id));
    }
    assert forall|id: CharId| a.dom().contains(id) implies #[trigger] a[id] == b[id] by {
        assert(node_at(a, id) == node_at(b, id));
    }
    assert(a =~= b);
}

/// Whether only the root is without a value and not deleted.
pub open spec fn values_known(nodes: Map<CharId, CharNode>) -> bool {
    forall|id: CharId| #[trigger]
        nodes.contains_key(id) && id != CharId::spec_root() && nodes[id].value is None
            ==> nodes[id].deleted
}

/// The operations of a sequence with one more.
proof fn lemma_set_of_ops(ops: Seq<TextOp>)
    requires
        ops.len() > 0,
    ensures
        ops.to_set() == ops.drop_last().to_set().insert(ops.last()),
{
    ops.drop_last().lemma_push_to_set_commute(ops.last());
    assert(ops =~= ops.drop_last().push(ops.last()));
}

/// Some operations make of each node what their set says.
pub proof fn operations_have_one_outcome(
    nodes: Map<CharId, CharNode>,
    ops: Seq<TextOp>,
    id: CharId,
)
    requires
        values_known(nodes),
        consistent(ops.to_set()),
        spares_root(ops.to_set()),
    ensures
        node_at(nodes_after_all(nodes, ops), id) == outcome(
            node_at(nodes, id),
            id,
            insertion(ops.to_set(), id),
            ops.to_set().contains(TextOp::Delete { id }),
        ),
    decreases ops.len(),
{
    let all = ops.to_set();
    if ops.len() == 0 {
        assert(all =~= Set::empty());
    } else {
        let front = ops.drop_last();
        let some = front.to_set();
        let last = ops.last();
        lemma_set_of_ops(ops);
        assert(all == some.insert(last));
        assert forall|op: TextOp| some.contains(op) implies all.contains(op) by {}
        assert(consistent(some));
        assert(spares_root(some));
        operations_have_one_outcome(nodes, front, id);
        let before = nodes_after_all(nodes, front);
        let after = nodes_after_all(nodes, ops);
        assert(all.contains(last));
        if last.target() != id {
            assert(node_at(after, id) == node_at(before, id));
            assert(all.contains(TextOp::Delete { id }) == some.contains(TextOp::Delete { id }));
            assert(insertion(all, id) == insertion(some, id)) by {
                lemma_same_insertion(all, some, id);
            }
        } else if last is Delete {
            assert(last == TextOp::Delete { id });
            assert(insertion(all, id) == insertion(some, id)) by {
                lemma_same_insertion(all, some, id);
            }
        } else {
            assert(inserts(last, id));
            assert(id != CharId::spec_root());
            assert(insertion(all, id) == Some(last));
            assert(insertion(some, id) is Some ==> insertion(some, id) == Some(last)) by {
                if insertion(some, id) is Some {
                    let op = insertion(some, id)->0;
                    assert(some.contains(op) && inserts(op, id));
                    assert(all.contains(op));
                }
            }
            assert(all.contains(TextOp::Delete { id }) == some.contains(TextOp::Delete { id }));
        }
    }
}

/// Sets with the same insertions of a character have the same insertion of it.
proof fn lemma_same_insertion(a: Set<TextOp>, b: Set<TextOp>, id: CharId)
    requires
        consistent(a),
        forall|op: TextOp| b.contains(op) ==> a.contains(op),
        forall|op: TextOp| #[trigger] a.contains(op) && inserts(op, id) ==> b.contains(op),
    ensures
        insertion(a, id) == insertion(b, id),
{
    if exists|op: TextOp| #[trigger] a.contains(op) && inserts(op, id) {
        let op = insertion(a, id)->0;
        assert(a.contains(op) && inserts(op, id));
        assert(b.contains(op));
        let other = insertion(b, id)->0;
        assert(b.contains(other) && inserts(other, id));
        assert(a.contains(other));
    }
}

/// The clock after some operations is the latest of what it was and of the
/// insertions.
proof fn lemma_clock_reached(clock: LogicalClock, ops: Seq<TextOp>)
    ensures
        clock_after_all(clock, ops).replica == clock.replica,
        clock_after_all(clock, ops).counter >= clock.counter,
        forall|op: TextOp| #[trigger]
            ops.to_set().contains(op) && op is Insert ==> op.target().timestamp.counter
                <= clock_after_all(clock, ops).counter,
        clock_after_all(clock, ops).counter == clock.counter || exists|op: TextOp| #[trigger]
            ops.to_set().contains(op) && op is Insert && op.target().timestamp.counter
                == clock_after_all(clock, ops).counter,
    decreases ops.len(),
{
    if ops.len() > 0 {
        let front = ops.drop_last();
        lemma_set_of_ops(ops);
        lemma_clock_reached(clock, front);
        let before = clock_after_all(clock, front);
        let after = clock_after_all(clock, ops);
        assert(ops.to_set().contains(ops.last()));
        assert forall|op: TextOp| #[trigger] ops.to_set().contains(op) && op is Insert implies
            op.target().timestamp.counter <= after.counter by {
            if op != ops.last() {
                assert(front.to_set().contains(op));
            }
        }
        if after.counter != clock.counter {
            if after.counter == before.counter {
                let op = choose|op: TextOp| #[trigger]
                    front.to_set().contains(op) && op is Insert && op.target().timestamp.counter
                        == before.counter;
                assert(ops.to_set().contains(op));
            } else {
                assert(ops.last() is Insert);
            }
        }
    } else {
        assert(ops.to_set() =~= Set::empty());
    }
}

/// What operations leave of the nodes that do not have to be placed anew: the same
/// characters, with no deletion undone.
proof fn lemma_unmoved(nodes: Map<CharId, CharNode>, ops: Seq<TextOp>)
    requires
        !any_reorders(nodes, ops),
    ensures
        nodes_after_all(nodes, ops).dom() == nodes.dom(),
        forall|id: CharId| #[trigger]
            nodes.contains_key(id) ==> {
                &&& nodes_after_all(nodes, ops)[id].value == nodes[id].value
                &&& nodes[id].deleted ==> nodes_after_all(nodes, ops)[id].deleted
            },
    decreases ops.len(),
{
    if ops.len() > 0 {
        let front = ops.drop_last();
        lemma_unmoved(nodes, front);
        let before = nodes_after_all(nodes, front);
        assert(!reorders(before, ops.last()));
        assert(nodes_after(before, ops.last()).dom() =~= before.dom());
        assert forall|id: CharId| #[trigger] nodes.contains_key(id) implies {
            &&& nodes_after_all(nodes, ops)[id].value == nodes[id].value
            &&& nodes[id].deleted ==> nodes_after_all(nodes, ops)[id].deleted
        } by {
            assert(before.contains_key(id));
        }
    }
}

/// Whether one of some operations stores a node or moves one, as a matter of their set.
pub open spec fn some_reorders(nodes: Map<CharId, CharNode>, ops: Set<TextOp>) -> bool {
    exists|op: TextOp| #[trigger] ops.contains(op) && reorders(nodes, op)
}

/// Whether operations store or move a node does not depend on their order.
proof fn lemma_reorders_by_set(nodes: Map<CharId, CharNode>, ops: Seq<TextOp>)
    requires
        values_known(nodes),
        spares_root(ops.to_set()),
    ensures
        any_reorders(nodes, ops) == some_reorders(nodes, ops.to_set()),
    decreases ops.len(),
{
    let all = ops.to_set();
    if ops.len() == 0 {
        assert(all =~= Set::empty());
    } else {
        let front = ops.drop_last();
        let some = front.to_set();
        let last = ops.last();
        lemma_set_of_ops(ops);
        assert(all == some.insert(last));
        assert(all.contains(last));
        assert forall|op: TextOp| #[trigger] some.contains(op) implies all.contains(op) by {}
        assert(spares_root(some));
        lemma_reorders_by_set(nodes, front);
        if any_reorders(nodes, front) {
            let op = choose|op: TextOp| #[trigger] some.contains(op) && reorders(nodes, op);
            assert(all.contains(op));
        } else {
            lemma_unmoved(nodes, front);
            let before = nodes_after_all(nodes, front);
            let id = last.target();
            assert(before.contains_key(id) == nodes.contains_key(id)) by {
                assert(before.dom().contains(id) == nodes.dom().contains(id));
            }
            assert(reorders(before, last) == reorders(nodes, last));
            if some_reorders(nodes, all) {
                let op = choose|op: TextOp| #[trigger] all.contains(op) && reorders(nodes, op);
                if op != last {
                    assert(some.contains(op));
                }
            }
        }
    }
}

/// Operations may arrive in any order, and more than once: replicas that apply the
/// same set of operations to the same text end in the same state.
///
/// An insertion under the root's id is left out: its effect depends on whether a
/// deletion of the root came first.
pub proof fn delivery_order_does_not_matter(
    state: TextState,
    first: Seq<TextOp>,
    second: Seq<TextOp>,
)
    requires
        state.wf(),
        first.to_set() == second.to_set(),
        consistent(first.to_set()),
        spares_root(first.to_set()),
    ensures
        state.applied(first) == state.applied(second),
        state.applied(first).chars() == state.applied(second).chars(),
        state.applied(first).log() == state.applied(second).log(),
{
    let a = nodes_after_all(state.nodes, first);
    let b = nodes_after_all(state.nodes, second);
    assert forall|id: CharId| #[trigger] node_at(a, id) == node_at(b, id) by {
        operations_have_one_outcome(state.nodes, first, id);
        operations_have_one_outcome(state.nodes, second, id);
    }
    lemma_same_nodes(a, b);
    lemma_reorders_by_set(state.nodes, first);
    lemma_reorders_by_set(state.nodes, second);
    lemma_clock_reached(state.clock, first);
    lemma_clock_reached(state.clock, second);
    let c1 = clock_after_all(state.clock, first);
    let c2 = clock_after_all(state.clock, second);
    assert(c1.counter <= c2.counter) by {
        if c1.counter != state.clock.counter {
            let op = choose|op: TextOp| #[trigger]
                first.to_set().contains(op) && op is Insert && op.target().timestamp.counter
                    == c1.counter;
            assert(second.to_set().contains(op));
        }
    }
    assert(c2.counter <= c1.counter) by {
        if c2.counter != state.clock.counter {
            let op = choose|op: TextOp| #[trigger]
                second.to_set().contains(op) && op is Insert && op.target().timestamp.counter
                    == c2.counter;
            assert(first.to_set().contains(op));
        }
    }
    assert(state.applied(first) =~= state.applied(second));
}

/// One more operation leaves every value and every deletion in place, and only the root
/// without a value and not deleted.
proof fn lemma_kept(nodes: Map<CharId, CharNode>, op: TextOp, id: CharId)
    requires
        values_known(nodes),
    ensures
        values_known(nodes_after(nodes, op)),
        nodes.contains_key(id) ==> {
            &&& nodes_after(nodes, op).contains_key(id)
            &&& nodes[id].value is Some ==> nodes_after(nodes, op)[id].value is Some
            &&& nodes[id].deleted ==> nodes_after(nodes, op)[id].deleted
        },
{
    let after = nodes_after(nodes, op);
    assert forall|x: CharId| #[trigger]
        after.contains_key(x) && x != CharId::spec_root() && after[x].value is None implies
        after[x].deleted by {
        if x != op.target() {
            assert(nodes.contains_key(x));
        }
    }
}

/// Whether an operation has been applied to some nodes: its character is there, and with
/// its value if the operation inserts it, and deleted if the operation deletes it.
pub open spec fn absorbed(nodes: Map<CharId, CharNode>, op: TextOp) -> bool {
    &&& nodes.contains_key(op.target())
    &&& op is Insert ==> nodes[op.target()].value is Some
    &&& op is Delete ==> nodes[op.target()].deleted
}

/// What is applied is absorbed.
proof fn lemma_absorbed(nodes: Map<CharId, CharNode>, ops: Seq<TextOp>, op: TextOp)
    requires
        values_known(nodes),
        spares_root(ops.to_set()),
    ensures
        values_known(nodes_after_all(nodes, ops)),
        ops.to_set().contains(op) ==> absorbed(nodes_after_all(nodes, ops), op),
    decreases ops.len(),
{
    if ops.len() > 0 {
        let front = ops.drop_last();
        let last = ops.last();
        lemma_set_of_ops(ops);
        assert(ops.to_set().contains(last));
        assert forall|x: TextOp| #[trigger] front.to_set().contains(x) implies ops.to_set().contains(
            x,
        ) by {}
        lemma_absorbed(nodes, front, op);
        lemma_kept(nodes_after_all(nodes, front), last, op.target());
        if ops.to_set().contains(op) && !front.to_set().contains(op) {
            assert(op == last);
            assert(!inserts(op, CharId::spec_root()));
        }
    } else {
        assert(ops.to_set() =~= Set::empty());
    }
}

/// Operations that are absorbed change nothing.
proof fn lemma_absorbed_again(nodes: Map<CharId, CharNode>, clock: LogicalClock, ops: Seq<TextOp>)
    requires
        forall|op: TextOp| #[trigger] ops.to_set().contains(op) ==> absorbed(nodes, op),
        forall|op: TextOp| #[trigger]
            ops.to_set().contains(op) && op is Insert ==> op.target().timestamp.counter
                <= clock.counter,
    ensures
        nodes_after_all(nodes, ops) == nodes,
        clock_after_all(clock, ops) == clock,
        !any_reorders(nodes, ops),
    decreases ops.len(),
{
    if ops.len() > 0 {
        let front = ops.drop_last();
        let last = ops.last();
        lemma_set_of_ops(ops);
        assert(ops.to_set().contains(last));
        assert forall|x: TextOp| #[trigger] front.to_set().contains(x) implies ops.to_set().contains(
            x,
        ) by {}
        lemma_absorbed_again(nodes, clock, front);
        assert(nodes_after(nodes, last) =~= nodes);
    }
}

/// Operations may be delivered again: to apply the same batch twice changes nothing more
/// than to apply it once.
///
/// An insertion under the root's id is left out: a deletion of the root later in the batch
/// would let it take effect the second time.
pub proof fn applying_again_changes_nothing(state: TextState, ops: Seq<TextOp>)
    requires
        state.wf(),
        spares_root(ops.to_set()),
    ensures
        state.applied(ops).applied(ops) == state.applied(ops),
{
    let after = state.applied(ops);
    assert forall|op: TextOp| #[trigger] ops.to_set().contains(op) implies absorbed(
        after.nodes,
        op,
    ) by {
        lemma_absorbed(state.nodes, ops, op);
    }
    lemma_clock_reached(state.clock, ops);
    lemma_absorbed_again(after.nodes, after.clock, ops);
    assert(after.applied(ops) =~= after);
}

/// The insertions of a log are those of the nodes with a value.
pub proof fn lemma_insert_ops(nodes: Map<CharId, CharNode>, ids: Seq<CharId>, op: TextOp)
    ensures
        insert_ops(nodes, ids).contains(op) <==> {
            &&& ids.contains(op.target())
            &&& nodes.contains_key(op.target())
            &&& !op.target().nil()
            &&& nodes[op.target()].value is Some
            &&& op == insert_op(op.target(), nodes[op.target()])
        },
    decreases ids.len(),
{
    if ids.len() > 0 {
        let front = ids.drop_last();
        lemma_insert_ops(nodes, front, op);
        let all = insert_ops(nodes, ids);
        let some = insert_ops(nodes, front);
        if all.contains(op) {
            let k = choose|k: int| 0 <= k < all.len() && all[k] == op;
            if k < some.len() {
                assert(some[k] == op);
                assert(some.contains(op));
                let i = choose|i: int| 0 <= i < front.len() && front[i] == op.target();
                assert(ids[i] == op.target());
            } else {
                assert(ids[ids.len() - 1] == op.target());
            }
        }
        if ids.contains(op.target()) {
            let i = choose|i: int| 0 <= i < ids.len() && ids[i] == op.target();
            if i < front.len() {
                assert(front[i] == op.target());
                if some.contains(op) {
                    let k = choose|k: int| 0 <= k < some.len() && some[k] == op;
                    assert(all[k] == op);
                }
            } else if nodes.contains_key(op.target()) && !op.target().nil()
                && nodes[op.target()].value is Some {
                assert(all.last() == insert_op(op.target(), nodes[op.target()]));
                assert(all[all.len() - 1] == all.last());
            }
        }
    }
}

/// The deletions of a log are those of the nodes with a tombstone.
pub proof fn lemma_delete_ops(nodes: Map<CharId, CharNode>, ids: Seq<CharId>, op: TextOp)
    ensures
        delete_ops(nodes, ids).contains(op) <==> {
            &&& ids.contains(op.target())
            &&& nodes.contains_key(op.target())
            &&& !op.target().nil()
            &&& nodes[op.target()].deleted
            &&& op == (TextOp::Delete { id: op.target() })
        },
    decreases ids.len(),
{
    if ids.len() > 0 {
        let front = ids.drop_last();
        lemma_delete_ops(nodes, front, op);
        let all = delete_ops(nodes, ids);
        let some = delete_ops(nodes, front);
        if all.contains(op) {
            let k = choose|k: int| 0 <= k < all.len() && all[k] == op;
            if k < some.len() {
                assert(some[k] == op);
                assert(some.contains(op));
                let i = choose|i: int| 0 <= i < front.len() && front[i] == op.target();
                assert(ids[i] == op.target());
            } else {
                assert(ids[ids.len() - 1] == op.target());
            }
        }
        if ids.contains(op.target()) {
            let i = choose|i: int| 0 <= i < ids.len() && ids[i] == op.target();
            if i < front.len() {
                assert(front[i] == op.target());
                if some.contains(op) {
                    let k = choose|k: int| 0 <= k < some.len() && some[k] == op;
                    assert(all[k] == op);
                }
            } else if nodes.contains_key(op.target()) && !op.target().nil()
                && nodes[op.target()].deleted {
                assert(all.last() == (TextOp::Delete { id: op.target() }));
                assert(all[all.len() - 1] == all.last());
            }
        }
    }
}

/// What is in a log.
proof fn lemma_log(state: TextState, op: TextOp)
    requires
        state.placed(),
    ensures
        state.log().to_set().contains(op) <==> {
            &&& state.nodes.contains_key(op.target())
            &&& !op.target().nil()
            &&& match op {
                TextOp::Insert { id, value, after } => state.nodes[id].value == Some(value)
                    && state.nodes[id].after == after,
                TextOp::Delete { id } => state.nodes[id].deleted,
            }
        },
{
    let first = insert_ops(state.nodes, state.sequence);
    let second = delete_ops(state.nodes, state.sequence);
    lemma_insert_ops(state.nodes, state.sequence, op);
    lemma_delete_ops(state.nodes, state.sequence, op);
    assert(state.log().contains(op) <==> first.contains(op) || second.contains(op)) by {
        if state.log().contains(op) {
            let k = choose|k: int| 0 <= k < state.log().len() && state.log()[k] == op;
            if k < first.len() {
                assert(first[k] == op);
            } else {
                assert(second[k - first.len()] == op);
            }
        }
        if first.contains(op) {
            let k = choose|k: int| 0 <= k < first.len() && first[k] == op;
            assert(state.log()[k] == op);
        }
        if second.contains(op) {
            let k = choose|k: int| 0 <= k < second.len() && second[k] == op;
            assert(state.log()[first.len() + k] == op);
        }
    }
    assert(state.sequence.to_set().contains(op.target()) <==> state.sequence.contains(
        op.target(),
    ));
}

/// The text order of nothing but the root is the root.
pub proof fn new_text_is_settled(replica: ReplicaId)
    ensures
        TextState::empty(replica).settled(),
{
    let state = TextState::empty(replica);
    let root = CharId::spec_root();
    new_text_is_empty(replica);
    text_order_is_complete(state.nodes);
    assert(state.nodes.dom() =~= set![root]);
    assert(text_order(state.nodes).len() == 1);
    assert(text_order(state.nodes) =~= state.sequence);
}

/// Whether the root alone has no UUID.
pub open spec fn uuids_known(nodes: Map<CharId, CharNode>) -> bool {
    forall|id: CharId| #[trigger]
        nodes.contains_key(id) && id.nil() ==> id == CharId::spec_root()
}

/// A log inserts each character once, and never the root.
proof fn lemma_log_is_consistent(state: TextState)
    requires
        state.placed(),
    ensures
        consistent(state.log().to_set()),
        spares_root(state.log().to_set()),
{
    let ops = state.log().to_set();
    assert forall|a: TextOp, b: TextOp| #[trigger]
        ops.contains(a) && #[trigger] ops.contains(b) && a is Insert && b is Insert && a.target()
            == b.target() implies a == b by {
        lemma_log(state, a);
        lemma_log(state, b);
    }
    assert forall|op: TextOp| #[trigger] ops.contains(op) implies !inserts(
        op,
        CharId::spec_root(),
    ) by {
        lemma_log(state, op);
    }
}

/// What a log rebuilds of a node.
proof fn lemma_replayed_node(state: TextState, replica: ReplicaId, id: CharId)
    requires
        state.wf(),
        state.placed(),
        uuids_known(state.nodes),
    ensures
        ({
            let nodes = nodes_after_all(TextState::empty(replica).nodes, state.log());
            &&& id != CharId::spec_root() ==> node_at(nodes, id) == node_at(state.nodes, id)
            &&& id == CharId::spec_root() ==> nodes.contains_key(id) && !nodes[id].visible()
        }),
{
    let fresh = TextState::empty(replica);
    let ops = state.log();
    let all = ops.to_set();
    new_text_is_empty(replica);
    lemma_log_is_consistent(state);
    operations_have_one_outcome(fresh.nodes, ops, id);
    lemma_log(state, TextOp::Delete { id });
    if id == CharId::spec_root() {
        assert(insertion(all, id) is None);
    } else if state.nodes.contains_key(id) && state.nodes[id].value is Some {
        let op = insert_op(id, state.nodes[id]);
        lemma_log(state, op);
        assert(all.contains(op) && inserts(op, id));
        let chosen = insertion(all, id)->0;
        assert(all.contains(chosen) && inserts(chosen, id));
        assert(insertion(all, id) == Some(op));
        assert(state.nodes[id].id == id);
    } else {
        assert(insertion(all, id) is None) by {
            if insertion(all, id) is Some {
                let op = insertion(all, id)->0;
                assert(all.contains(op) && inserts(op, id));
                lemma_log(state, op);
            }
        }
    }
}

/// Replaying a text's log on a new replica rebuilds the text: the same characters,
/// the same tombstones, the same order.
///
/// It holds of a settled text in which the root alone has no UUID.
pub proof fn replaying_the_log_rebuilds_the_text(state: TextState, replica: ReplicaId)
    requires
        state.wf(),
        state.settled(),
        uuids_known(state.nodes),
    ensures
        ({
            let peer = TextState::empty(replica).applied(state.log());
            &&& peer.chars() == state.chars()
            &&& peer.sequence == state.sequence
            &&& forall|id: CharId|
                id != CharId::spec_root() ==> #[trigger] node_at(peer.nodes, id) == node_at(
                    state.nodes,
                    id,
                )
        }),
{
    let fresh = TextState::empty(replica);
    let peer = fresh.applied(state.log());
    let root = CharId::spec_root();
    new_text_is_settled(replica);
    settled_is_placed(state);
    assert forall|id: CharId| id != root implies #[trigger] node_at(peer.nodes, id) == node_at(
        state.nodes,
        id,
    ) by {
        lemma_replayed_node(state, replica, id);
    }
    lemma_replayed_node(state, replica, root);
    assert(peer.nodes.dom() =~= state.nodes.dom()) by {
        assert forall|id: CharId| peer.nodes.dom().contains(id) == state.nodes.dom().contains(
            id,
        ) by {
            if id != root {
                assert(node_at(peer.nodes, id) == node_at(state.nodes, id));
            }
        }
    }
    assert(same_tree(peer.nodes, state.nodes)) by {
        assert forall|id: CharId| #[trigger] peer.nodes.contains_key(id) && !id.nil() implies
            peer.nodes[id].after == state.nodes[id].after by {
            assert(node_at(peer.nodes, id) == node_at(state.nodes, id));
        }
    }
    assert(same_sight(peer.nodes, state.nodes)) by {
        assert forall|id: CharId| #[trigger] shows(peer.nodes, id) == shows(state.nodes, id) && (
        shows(peer.nodes, id) ==> peer.nodes[id].value == state.nodes[id].value) by {
            if id != root {
                assert(node_at(peer.nodes, id) == node_at(state.nodes, id));
            }
        }
    }
    applying_keeps_order(fresh, state.log());
    same_nodes_same_text(peer, state);
}

} // verus!

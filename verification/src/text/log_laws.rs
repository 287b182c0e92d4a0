//! What the log of a text holds, and in which order.

use crate::text::merge_laws::settled_is_placed;
use crate::text::model::{delete_ops, insert_op, insert_ops, TextState};
use crate::text::node::{CharId, CharNode, TextOp};
use crate::text::order::{children, is_child, lemma_children, rooted_walk, walk};
use crate::text::order_laws::{lemma_rooted_order, rooted};
use crate::text::replay_laws::{lemma_delete_ops, lemma_insert_ops};
use vstd::prelude::*;

verus! {

/// Whether an id stands in a sequence before some index.
pub open spec fn stands_before(ids: Seq<CharId>, id: CharId, index: int) -> bool {
    exists|k: int| 0 <= k < index && k < ids.len() && #[trigger] ids[k] == id
}

/// A walk meets each id after its anchor, unless it starts from the id.
proof fn lemma_anchor_first(
    nodes: Map<CharId, CharNode>,
    ids: Seq<CharId>,
    depth: nat,
    at: int,
)
    requires
        nodes.dom().finite(),
        0 <= at < walk(nodes, ids, depth).len(),
    ensures
        ({
            let whole = walk(nodes, ids, depth);
            ids.contains(whole[at]) || stands_before(whole, nodes[whole[at]].after, at)
        }),
    decreases depth, ids.len(),
{
    let d = (depth - 1) as nat;
    let up = children(nodes, ids[0]);
    let below = up.reverse();
    let rest = ids.drop_first();
    let inner = walk(nodes, below, d);
    let others = walk(nodes, rest, depth);
    let whole = walk(nodes, ids, depth);
    assert(whole == seq![ids[0]] + inner + others);
    let id = whole[at];
    if at == 0 {
        assert(ids.contains(ids[0]));
    } else if at < 1 + inner.len() {
        assert(inner[at - 1] == id);
        lemma_anchor_first(nodes, below, d, at - 1);
        if below.contains(id) {
            let k = choose|k: int| 0 <= k < below.len() && below[k] == id;
            assert(up[up.len() - 1 - k] == id);
            lemma_children(nodes, ids[0]);
            assert(up.contains(id));
            assert(is_child(nodes, ids[0], id));
            assert(whole[0] == nodes[id].after);
        } else {
            let k = choose|k: int|
                0 <= k < at - 1 && k < inner.len() && #[trigger] inner[k] == nodes[id].after;
            assert(whole[1 + k] == nodes[id].after);
        }
    } else {
        let j = at - 1 - inner.len();
        assert(others[j] == id);
        lemma_anchor_first(nodes, rest, depth, j);
        if rest.contains(id) {
            let k = choose|k: int| 0 <= k < rest.len() && rest[k] == id;
            assert(ids[k + 1] == id);
        } else {
            let k = choose|k: int|
                0 <= k < j && k < others.len() && #[trigger] others[k] == nodes[id].after;
            assert(whole[1 + inner.len() + k] == nodes[id].after);
        }
    }
}

/// The insertions of some ids, each of which stands there once: each character is
/// inserted once, and after its anchor.
proof fn lemma_insertions(nodes: Map<CharId, CharNode>, ids: Seq<CharId>)
    requires
        ids.no_duplicates(),
        forall|i: int|
            0 <= i < ids.len() && !(#[trigger] ids[i]).nil() ==> stands_before(
                ids,
                nodes[ids[i]].after,
                i,
            ),
    ensures
        ({
            let ops = insert_ops(nodes, ids);
            &&& forall|i: int| 0 <= i < ops.len() ==> (#[trigger] ops[i]) is Insert
            &&& forall|i: int, j: int|
                0 <= i < j < ops.len() ==> (#[trigger] ops[i]).target() != (
                #[trigger] ops[j]).target()
            &&& forall|j: int|
                0 <= j < ops.len() ==> inserted_after_anchor(nodes, ops, #[trigger] ops[j], j)
        }),
    decreases ids.len(),
{
    let ops = insert_ops(nodes, ids);
    if ids.len() > 0 {
        let front = ids.drop_last();
        let some = insert_ops(nodes, front);
        let id = ids.last();
        assert forall|i: int| 0 <= i < front.len() && !(#[trigger] front[i]).nil() implies
            stands_before(front, nodes[front[i]].after, i) by {
            assert(front[i] == ids[i]);
            let k = choose|k: int|
                0 <= k < i && k < ids.len() && #[trigger] ids[k] == nodes[ids[i]].after;
            assert(front[k] == nodes[front[i]].after);
        }
        lemma_insertions(nodes, front);
        assert forall|j: int| 0 <= j < ops.len() implies inserted_after_anchor(
            nodes,
            ops,
            #[trigger] ops[j],
            j,
        ) by {
            if j < some.len() {
                assert(ops[j] == some[j]);
                assert(inserted_after_anchor(nodes, some, some[j], j));
                let up = some[j]->after;
                if !up.nil() && nodes.contains_key(up) && nodes[up].value is Some {
                    let i = choose|i: int|
                        0 <= i < j && #[trigger] some[i] == insert_op(up, nodes[up]);
                    assert(ops[i] == some[i]);
                }
            } else {
                let up = nodes[id].after;
                assert(ids[ids.len() - 1] == id);
                let k = choose|k: int|
                    0 <= k < ids.len() - 1 && k < ids.len() && #[trigger] ids[k] == up;
                assert(front[k] == up);
                if !up.nil() && nodes.contains_key(up) && nodes[up].value is Some {
                    lemma_insert_ops(nodes, front, insert_op(up, nodes[up]));
                    let i = choose|i: int|
                        0 <= i < some.len() && some[i] == insert_op(up, nodes[up]);
                    assert(ops[i] == insert_op(up, nodes[up]));
                }
            }
        }
        assert forall|i: int, j: int| 0 <= i < j < ops.len() implies (#[trigger] ops[i]).target()
            != (#[trigger] ops[j]).target() by {
            assert(ops[i] == some[i]);
            if j < some.len() {
                assert(ops[j] == some[j]);
            } else {
                lemma_insert_ops(nodes, front, some[i]);
                assert(some.contains(some[i]));
                let k = choose|k: int| 0 <= k < front.len() && front[k] == some[i].target();
                assert(ids[k] != ids[ids.len() - 1]);
            }
        }
    }
}

/// Whether an insertion at some place comes after the insertion of its anchor, if the
/// anchor is a character whose value is known.
pub open spec fn inserted_after_anchor(
    nodes: Map<CharId, CharNode>,
    ops: Seq<TextOp>,
    op: TextOp,
    at: int,
) -> bool {
    let up = op->after;
    !up.nil() && nodes.contains_key(up) && nodes[up].value is Some ==> exists|i: int|
        0 <= i < at && #[trigger] ops[i] == insert_op(up, nodes[up])
}

/// The deletions of some ids, each of which stands there once: each is deleted once.
proof fn lemma_deletions(nodes: Map<CharId, CharNode>, ids: Seq<CharId>)
    requires
        ids.no_duplicates(),
    ensures
        ({
            let ops = delete_ops(nodes, ids);
            &&& forall|i: int| 0 <= i < ops.len() ==> (#[trigger] ops[i]) is Delete
            &&& forall|i: int, j: int|
                0 <= i < j < ops.len() ==> (#[trigger] ops[i]).target() != (
                #[trigger] ops[j]).target()
        }),
    decreases ids.len(),
{
    let ops = delete_ops(nodes, ids);
    if ids.len() > 0 {
        let front = ids.drop_last();
        let some = delete_ops(nodes, front);
        lemma_deletions(nodes, front);
        assert forall|i: int, j: int| 0 <= i < j < ops.len() implies (#[trigger] ops[i]).target()
            != (#[trigger] ops[j]).target() by {
            assert(ops[i] == some[i]);
            if j < some.len() {
                assert(ops[j] == some[j]);
            } else {
                lemma_delete_ops(nodes, front, some[i]);
                assert(some.contains(some[i]));
                let k = choose|k: int| 0 <= k < front.len() && front[k] == some[i].target();
                assert(ids[k] != ids[ids.len() - 1]);
            }
        }
    }
}

/// The log of a text holds all insertions before all deletions. Each character whose
/// value is known is inserted once, with its value, also if it is deleted, and after the
/// character that it was inserted after; each deleted character is deleted once. Nothing
/// else is in the log.
///
/// It holds of a settled text in which every node is reached from the root.
pub proof fn logs_are_in_order(state: TextState)
    requires
        state.wf(),
        state.settled(),
        rooted(state.nodes),
    ensures
        ({
            let log = state.log();
            &&& forall|i: int, j: int|
                0 <= i < j < log.len() && (#[trigger] log[j]) is Insert ==> (
                #[trigger] log[i]) is Insert
            &&& forall|i: int, j: int|
                0 <= i < j < log.len() && (#[trigger] log[i]).target() == (
                #[trigger] log[j]).target() ==> log[i] is Insert && log[j] is Delete
            &&& forall|j: int|
                0 <= j < log.len() && (#[trigger] log[j]) is Insert ==> inserted_after_anchor(
                    state.nodes,
                    log,
                    log[j],
                    j,
                )
            &&& forall|id: CharId|
                #![trigger state.nodes.contains_key(id)]
                state.nodes.contains_key(id) && !id.nil() ==> {
                    &&& state.nodes[id].value is Some ==> log.contains(
                        insert_op(id, state.nodes[id]),
                    )
                    &&& state.nodes[id].deleted ==> log.contains(TextOp::Delete { id })
                }
            &&& forall|j: int|
                0 <= j < log.len() ==> {
                    let id = (#[trigger] log[j]).target();
                    &&& state.nodes.contains_key(id)
                    &&& !id.nil()
                    &&& log[j] is Insert ==> state.nodes[id].value is Some && log[j] == insert_op(
                        id,
                        state.nodes[id],
                    )
                    &&& log[j] is Delete ==> state.nodes[id].deleted
                }
        }),
{
    let nodes = state.nodes;
    let ids = state.sequence;
    let root = CharId::spec_root();
    let log = state.log();
    let first = insert_ops(nodes, ids);
    let second = delete_ops(nodes, ids);
    settled_is_placed(state);
    lemma_rooted_order(nodes);
    assert forall|i: int| 0 <= i < ids.len() && !(#[trigger] ids[i]).nil() implies stands_before(
        ids,
        nodes[ids[i]].after,
        i,
    ) by {
        assert(ids == rooted_walk(nodes));
        lemma_anchor_first(nodes, seq![root], nodes.dom().len(), i);
        if seq![root].contains(ids[i]) {
            let k = choose|k: int| 0 <= k < 1 && seq![root][k] == ids[i];
        }
    }
    lemma_insertions(nodes, ids);
    lemma_deletions(nodes, ids);
    assert forall|j: int| 0 <= j < log.len() implies {
        let id = (#[trigger] log[j]).target();
        &&& nodes.contains_key(id)
        &&& !id.nil()
        &&& log[j] is Insert ==> nodes[id].value is Some && log[j] == insert_op(id, nodes[id])
        &&& log[j] is Delete ==> nodes[id].deleted
    } by {
        if j < first.len() {
            assert(log[j] == first[j]);
            assert(first.contains(first[j]));
            lemma_insert_ops(nodes, ids, first[j]);
        } else {
            assert(log[j] == second[j - first.len()]);
            assert(second.contains(second[j - first.len()]));
            lemma_delete_ops(nodes, ids, second[j - first.len()]);
        }
    }
    assert forall|i: int, j: int| 0 <= i < j < log.len() && (#[trigger] log[j]) is Insert implies (
    #[trigger] log[i]) is Insert by {
        if j >= first.len() {
            assert(log[j] == second[j - first.len()]);
        }
        assert(log[i] == first[i]);
    }
    assert forall|i: int, j: int|
        0 <= i < j < log.len() && (#[trigger] log[i]).target() == (
        #[trigger] log[j]).target() implies log[i] is Insert && log[j] is Delete by {
        if j < first.len() {
            assert(log[i] == first[i] && log[j] == first[j]);
        } else {
            assert(log[j] == second[j - first.len()]);
            if i < first.len() {
                assert(log[i] == first[i]);
            } else {
                assert(log[i] == second[i - first.len()]);
            }
        }
    }
    assert forall|j: int| 0 <= j < log.len() && (#[trigger] log[j]) is Insert implies
        inserted_after_anchor(nodes, log, log[j], j) by {
        if j >= first.len() {
            assert(log[j] == second[j - first.len()]);
        }
        assert(log[j] == first[j]);
        assert(inserted_after_anchor(nodes, first, first[j], j));
        let up = first[j]->after;
        if !up.nil() && nodes.contains_key(up) && nodes[up].value is Some {
            let i = choose|i: int| 0 <= i < j && #[trigger] first[i] == insert_op(up, nodes[up]);
            assert(log[i] == first[i]);
        }
    }
    assert forall|id: CharId|
        #![trigger nodes.contains_key(id)]
        nodes.contains_key(id) && !id.nil() implies {
        &&& nodes[id].value is Some ==> log.contains(insert_op(id, nodes[id]))
        &&& nodes[id].deleted ==> log.contains(TextOp::Delete { id })
    } by {
        assert(ids.to_set().contains(id));
        if nodes[id].value is Some {
            let op = insert_op(id, nodes[id]);
            lemma_insert_ops(nodes, ids, op);
            let k = choose|k: int| 0 <= k < first.len() && first[k] == op;
            assert(log[k] == op);
        }
        if nodes[id].deleted {
            let op = TextOp::Delete { id };
            lemma_delete_ops(nodes, ids, op);
            let k = choose|k: int| 0 <= k < second.len() && second[k] == op;
            assert(log[first.len() + k] == op);
        }
    }
}

} // verus!

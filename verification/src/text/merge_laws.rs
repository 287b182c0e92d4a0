//! How replicas of a text converge.

use crate::clock::LogicalClock;
use crate::text::edit_laws::{lemma_visible_member, lemma_visible_same};
use crate::text::model::{
    any_reorders, clock_after_all, delete_ops, insert_ops, nodes_after, nodes_after_all, nodes_join, reorders, shows,
    TextState,
};
use crate::text::node::{CharId, CharNode, TextOp};
use crate::text::order::{children, is_child, orphans, text_order, text_order_is_complete, walk};
use vstd::prelude::*;

verus! {

/// Whether two sets of nodes hold the same characters at the same anchors. The
/// anchor of an id without a UUID plays no part in the order.
pub open spec fn same_tree(a: Map<CharId, CharNode>, b: Map<CharId, CharNode>) -> bool {
    &&& a.dom() == b.dom()
    &&& forall|id: CharId| #[trigger] a.contains_key(id) && !id.nil() ==> a[id].after == b[id].after
}

/// Two walks of the same tree are the same.
pub proof fn lemma_same_walk(
    a: Map<CharId, CharNode>,
    b: Map<CharId, CharNode>,
    ids: Seq<CharId>,
    depth: nat,
)
    requires
        same_tree(a, b),
    ensures
        walk(a, ids, depth) == walk(b, ids, depth),
    decreases depth, ids.len(),
{
    if depth > 0 && ids.len() > 0 {
        let p = ids[0];
        assert(a.dom().filter(|id: CharId| is_child(a, p, id)) =~= b.dom().filter(
            |id: CharId| is_child(b, p, id),
        ));
        lemma_same_walk(a, b, children(a, p).reverse(), (depth - 1) as nat);
        lemma_same_walk(a, b, ids.drop_first(), depth);
    }
}

/// The order of the characters depends only on which characters there are and
/// what each was inserted after: not on their values, nor on what is deleted, nor
/// on the order in which they arrived.
pub proof fn order_depends_on_tree(a: Map<CharId, CharNode>, b: Map<CharId, CharNode>)
    requires
        same_tree(a, b),
    ensures
        text_order(a) == text_order(b),
{
    lemma_same_walk(a, b, seq![CharId::spec_root()], a.dom().len());
    assert(orphans(a) =~= orphans(b));
}

/// A settled text has every node in its sequence once.
pub proof fn settled_is_placed(state: TextState)
    requires
        state.wf(),
        state.settled(),
    ensures
        state.placed(),
{
    text_order_is_complete(state.nodes);
}

/// Whether two sets of nodes show the same characters for the same ids.
pub open spec fn same_sight(a: Map<CharId, CharNode>, b: Map<CharId, CharNode>) -> bool {
    forall|id: CharId| #[trigger]
        shows(a, id) == shows(b, id) && (shows(a, id) ==> a[id].value == b[id].value)
}

/// Settled replicas with the same characters show the same text.
pub proof fn same_nodes_same_text(a: TextState, b: TextState)
    requires
        a.settled(),
        b.settled(),
        same_tree(a.nodes, b.nodes),
        same_sight(a.nodes, b.nodes),
    ensures
        a.sequence == b.sequence,
        a.chars() == b.chars(),
{
    order_depends_on_tree(a.nodes, b.nodes);
    lemma_visible_same(a.nodes, b.nodes, a.sequence);
    assert forall|k: int| 0 <= k < a.shown().len() implies #[trigger] a.chars()[k]
        == b.chars()[k] by {
        lemma_visible_member(a.nodes, a.sequence, k);
        assert(shows(a.nodes, a.shown()[k]));
    }
    assert(a.chars() =~= b.chars());
}

/// Whether two replicas agree on the characters of which both know the value: a
/// character was inserted once, with one value and at one anchor. Ids without a UUID,
/// other than the root, never travel in a merge: both hold them alike.
pub open spec fn agree(a: TextState, b: TextState) -> bool {
    &&& forall|id: CharId| #[trigger]
        a.nodes.contains_key(id) && b.nodes.contains_key(id) && !id.nil()
            && a.nodes[id].value is Some && b.nodes[id].value is Some ==> {
            &&& a.nodes[id].value == b.nodes[id].value
            &&& a.nodes[id].after == b.nodes[id].after
        }
    &&& forall|id: CharId|
        id.nil() && id != CharId::spec_root() ==> {
            &&& #[trigger] a.nodes.contains_key(id) == b.nodes.contains_key(id)
            &&& a.nodes.contains_key(id) ==> a.nodes[id] == b.nodes[id]
        }
}

/// Merging in either direction yields the same text, in the same order, with the same
/// log. This also holds where one replica knows a character only by its deletion.
pub proof fn merge_commutes(a: TextState, b: TextState)
    requires
        a.wf(),
        b.wf(),
        agree(a, b),
    ensures
        a.join(b).chars() == b.join(a).chars(),
        a.join(b).sequence == b.join(a).sequence,
        a.join(b).log() == b.join(a).log(),
        a.join(b).clock.counter == b.join(a).clock.counter,
        forall|id: CharId|
            id != CharId::spec_root() ==> {
                &&& #[trigger] a.join(b).nodes.contains_key(id) == b.join(a).nodes.contains_key(id)
                &&& a.join(b).nodes.contains_key(id) ==> a.join(b).nodes[id] == b.join(a).nodes[id]
            },
{
    let ab = a.join(b);
    let ba = b.join(a);
    let root = CharId::spec_root();
    assert forall|id: CharId| id != root implies {
        &&& #[trigger] ab.nodes.contains_key(id) == ba.nodes.contains_key(id)
        &&& ab.nodes.contains_key(id) ==> ab.nodes[id] == ba.nodes[id]
    } by {
        if a.nodes.contains_key(id) && b.nodes.contains_key(id) {
            assert(a.nodes[id].id == b.nodes[id].id);
        }
    }
    assert(ab.nodes.dom() =~= ba.nodes.dom()) by {
        assert forall|id: CharId| ab.nodes.dom().contains(id) == ba.nodes.dom().contains(id) by {
            assert(ab.nodes.contains_key(id) == ba.nodes.contains_key(id) || id == root);
        }
    }
    assert forall|id: CharId| #[trigger] ab.nodes.contains_key(id) && !id.nil() implies
        ab.nodes[id].after == ba.nodes[id].after by {
        assert(id != root);
    }
    assert forall|id: CharId| #[trigger] shows(ab.nodes, id) == shows(ba.nodes, id) && (shows(
        ab.nodes,
        id,
    ) ==> ab.nodes[id].value == ba.nodes[id].value) by {
        if id != root {
            assert(ab.nodes.contains_key(id) == ba.nodes.contains_key(id));
        }
    }
    same_nodes_same_text(ab, ba);
    lemma_same_log(ab.nodes, ba.nodes, ab.sequence);
}

/// Nodes that differ in the root alone have the same log.
proof fn lemma_same_log(a: Map<CharId, CharNode>, b: Map<CharId, CharNode>, ids: Seq<CharId>)
    requires
        forall|id: CharId|
            id != CharId::spec_root() ==> {
                &&& #[trigger] a.contains_key(id) == b.contains_key(id)
                &&& a.contains_key(id) ==> a[id] == b[id]
            },
    ensures
        insert_ops(a, ids) == insert_ops(b, ids),
        delete_ops(a, ids) == delete_ops(b, ids),
    decreases ids.len(),
{
    if ids.len() > 0 {
        lemma_same_log(a, b, ids.drop_last());
        assert(ids.last() != CharId::spec_root() ==> a.contains_key(ids.last()) == b.contains_key(
            ids.last(),
        ));
    }
}

/// It does not matter which of three replicas are merged first.
pub proof fn merge_is_associative(a: TextState, b: TextState, c: TextState)
    ensures
        a.join(b).join(c) == a.join(b.join(c)),
{
    assert(nodes_join(nodes_join(a.nodes, b.nodes), c.nodes) =~= nodes_join(
        a.nodes,
        nodes_join(b.nodes, c.nodes),
    ));
    assert(a.join(b).join(c) =~= a.join(b.join(c)));
}

/// Merging a settled text with itself changes nothing, and merging the same text
/// again changes nothing more.
pub proof fn merge_is_idempotent(a: TextState, b: TextState)
    ensures
        a.settled() ==> a.join(a) == a,
        a.join(b).join(b) == a.join(b),
{
    assert(nodes_join(a.nodes, a.nodes) =~= a.nodes);
    assert(nodes_join(nodes_join(a.nodes, b.nodes), b.nodes) =~= nodes_join(a.nodes, b.nodes));
    if a.settled() {
        assert(a.join(a) =~= a);
    }
    assert(a.join(b).join(b) =~= a.join(b));
}

/// A merge of sound texts is a sound text in its order, and its clock has
/// witnessed what the clocks of both have.
pub proof fn merge_is_sound(a: TextState, b: TextState)
    requires
        a.wf(),
        b.wf(),
    ensures
        a.join(b).wf(),
        a.join(b).settled(),
        a.join(b).placed(),
        a.witnessed() && b.witnessed() ==> a.join(b).witnessed(),
        a.anchors_witnessed() && b.anchors_witnessed() ==> a.join(b).anchors_witnessed(),
{
    let joined = a.join(b);
    let nodes = joined.nodes;
    assert(nodes.dom().finite()) by {
        assert(nodes.dom().subset_of(a.nodes.dom().union(b.nodes.dom())));
        vstd::set_lib::lemma_set_subset_finite(a.nodes.dom().union(b.nodes.dom()), nodes.dom());
    }
    assert(nodes.contains_key(CharId::spec_root()));
    assert(nodes[CharId::spec_root()] == a.nodes[CharId::spec_root()]);
    text_order_is_complete(nodes);
    assert(joined.sequence == text_order(nodes));
    assert forall|id: CharId| #[trigger] nodes.contains_key(id) implies nodes[id].id == id by {
        assert(a.nodes.contains_key(id) || b.nodes.contains_key(id));
    }
    assert forall|id: CharId| #[trigger]
        nodes.contains_key(id) && id != CharId::spec_root() && nodes[id].value is None implies nodes[id]
        == CharNode::placeholder(id) by {
        assert(a.nodes.contains_key(id) || b.nodes.contains_key(id));
    }
    assert(joined.wf());
    assert forall|id: CharId|
        a.witnessed() && b.witnessed() && #[trigger] nodes.contains_key(id)
            && nodes[id].value is Some implies id.timestamp.counter <= joined.clock.counter by {
        assert(a.nodes.contains_key(id) || b.nodes.contains_key(id));
    }
    assert forall|id: CharId|
        a.anchors_witnessed() && b.anchors_witnessed() && #[trigger] nodes.contains_key(id)
            && !id.nil() implies nodes[id].after.timestamp.counter <= joined.clock.counter by {
        assert(a.nodes.contains_key(id) || b.nodes.contains_key(id));
    }
}

/// A merge loses nothing: every character of either replica is there, with its value
/// if either knows it, and what either has deleted is deleted.
pub proof fn merge_keeps_everything(a: TextState, b: TextState, id: CharId)
    ensures
        a.nodes.contains_key(id) ==> a.join(b).nodes.contains_key(id),
        b.nodes.contains_key(id) && !id.nil() ==> a.join(b).nodes.contains_key(id),
        a.nodes.contains_key(id) && a.nodes[id].value is Some ==> a.join(b).nodes[id].value
            == a.nodes[id].value,
        b.nodes.contains_key(id) && !id.nil() && b.nodes[id].value is Some ==> a.join(
            b,
        ).nodes[id].value is Some,
        a.nodes.contains_key(id) && a.nodes[id].deleted ==> a.join(b).nodes[id].deleted,
        b.nodes.contains_key(id) && !id.nil() && b.nodes[id].deleted ==> a.join(
            b,
        ).nodes[id].deleted,
{
}

/// Applying operations keeps a settled text settled.
pub proof fn applying_keeps_order(state: TextState, ops: Seq<TextOp>)
    requires
        state.settled(),
    ensures
        state.applied(ops).settled(),
{
    if !any_reorders(state.nodes, ops) {
        lemma_no_reorder(state.nodes, ops);
        order_depends_on_tree(state.nodes, nodes_after_all(state.nodes, ops));
    }
}

/// Operations that do not reorder leave the tree as it is.
proof fn lemma_no_reorder(nodes: Map<CharId, CharNode>, ops: Seq<TextOp>)
    requires
        !any_reorders(nodes, ops),
    ensures
        same_tree(nodes, nodes_after_all(nodes, ops)),
    decreases ops.len(),
{
    if ops.len() > 0 {
        let front = ops.drop_last();
        lemma_no_reorder(nodes, front);
        let before = nodes_after_all(nodes, front);
        let after = nodes_after(before, ops.last());
        assert(!reorders(before, ops.last()));
        assert(after.dom() =~= before.dom());
        assert forall|id: CharId| #[trigger] nodes.contains_key(id) && !id.nil() implies
            nodes[id].after == after[id].after by {
            assert(nodes[id].after == before[id].after);
        }
    }
}

/// What a sequence of operations does is what its parts do one after the other.
proof fn lemma_after_all_concat(
    nodes: Map<CharId, CharNode>,
    clock: LogicalClock,
    first: Seq<TextOp>,
    second: Seq<TextOp>,
)
    ensures
        nodes_after_all(nodes, first + second) == nodes_after_all(
            nodes_after_all(nodes, first),
            second,
        ),
        clock_after_all(clock, first + second) == clock_after_all(
            clock_after_all(clock, first),
            second,
        ),
        any_reorders(nodes, first + second) == (any_reorders(nodes, first) || any_reorders(
            nodes_after_all(nodes, first),
            second,
        )),
    decreases second.len(),
{
    if second.len() == 0 {
        assert(first + second =~= first);
    } else {
        assert((first + second).drop_last() =~= first + second.drop_last());
        assert((first + second).last() == second.last());
        lemma_after_all_concat(nodes, clock, first, second.drop_last());
    }
}

/// Applying a batch does what applying its parts one after the other does; so a
/// batch does what its operations do one by one.
pub proof fn batch_equals_steps(state: TextState, first: Seq<TextOp>, second: Seq<TextOp>)
    ensures
        state.applied(first + second) == state.applied(first).applied(second),
{
    lemma_after_all_concat(state.nodes, state.clock, first, second);
    let middle = nodes_after_all(state.nodes, first);
    if any_reorders(state.nodes, first) && !any_reorders(middle, second) {
        lemma_no_reorder(middle, second);
        order_depends_on_tree(middle, nodes_after_all(middle, second));
    }
    assert(state.applied(first + second) =~= state.applied(first).applied(second));
}

/// Once a character is deleted, no operation makes it visible again; this also
/// holds of a character whose deletion arrives before its insertion.
pub proof fn deletion_is_permanent(
    nodes: Map<CharId, CharNode>,
    ops: Seq<TextOp>,
    id: CharId,
)
    requires
        (nodes.contains_key(id) && nodes[id].deleted) || ops.contains(TextOp::Delete { id }),
    ensures
        nodes_after_all(nodes, ops).contains_key(id),
        nodes_after_all(nodes, ops)[id].deleted,
        !shows(nodes_after_all(nodes, ops), id),
    decreases ops.len(),
{
    if ops.len() > 0 {
        let front = ops.drop_last();
        let now = TextOp::Delete { id };
        if (nodes.contains_key(id) && nodes[id].deleted) || front.contains(now) {
            deletion_is_permanent(nodes, front, id);
        } else {
            let k = choose|k: int| 0 <= k < ops.len() && ops[k] == now;
            if k < front.len() {
                assert(front[k] == now);
            }
            assert(ops.last() == now);
        }
    }
}

} // verus!

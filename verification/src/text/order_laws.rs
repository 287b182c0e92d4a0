//! Local edits keep the order that a rebuild from the nodes would give.

use crate::ident::Uuid;
use crate::text::edit_laws::{
    insertion_keeps_places, lemma_past, lemma_run_ids, lemma_run_index, lemma_run_nodes,
    lemma_visible_member,
};
use crate::text::id_table::ascending;
use crate::text::merge_laws::{
    lemma_same_walk, merge_is_sound, order_depends_on_tree, same_tree, settled_is_placed,
};
use crate::text::model::{
    any_reorders, index_or_zero, nodes_after_all, past_later_siblings, run_after, run_nodes,
    run_op, run_ops, TextState,
};
use crate::text::node::{id_order_is_transitive, ids_are_totally_ordered, CharId, CharNode};
use crate::text::order::{
    ascending_is_in_order, children, deep_enough, in_order, in_order_is_ascending, is_child,
    is_path, lemma_children, lemma_deeper, lemma_path_simple, lemma_root_depth,
    lemma_walk_concat, lemma_walk_member, orphans, rooted_walk, rooted_walk_is_simple, text_order,
    walk,
};
use crate::text::replay_laws::uuids_known;
use vstd::prelude::*;

verus! {

/// Whether every node is reached from the root: each anchor is known, and there
/// is no cycle.
pub open spec fn rooted(nodes: Map<CharId, CharNode>) -> bool {
    forall|id: CharId| #[trigger] nodes.contains_key(id) ==> rooted_walk(nodes).contains(id)
}

/// Whether every character comes after its anchor in the order of ids, as it does where
/// it was inserted by a replica that had witnessed the anchor.
pub open spec fn anchored(nodes: Map<CharId, CharNode>) -> bool {
    forall|id: CharId| #[trigger]
        nodes.contains_key(id) && !id.nil() ==> nodes[id].after.before(id)
}

/// Where every node is reached from the root, the walk from the root is the text
/// order.
pub proof fn lemma_rooted_order(nodes: Map<CharId, CharNode>)
    requires
        rooted(nodes),
    ensures
        text_order(nodes) == rooted_walk(nodes),
{
    assert(orphans(nodes) =~= Set::empty());
    assert(in_order(orphans(nodes)) =~= Seq::empty());
    assert(text_order(nodes) =~= rooted_walk(nodes));
}

/// A path leads to each id that is reached from the root.
pub proof fn lemma_path_to(nodes: Map<CharId, CharNode>, id: CharId) -> (path: Seq<CharId>)
    requires
        nodes.dom().finite(),
        nodes.contains_key(CharId::spec_root()),
        rooted_walk(nodes).contains(id),
    ensures
        is_path(nodes, path),
        path.last() == id,
{
    let root = CharId::spec_root();
    let start = seq![root];
    let n = nodes.dom().len();
    lemma_root_depth(nodes);
    let up = children(nodes, root);
    let below = up.reverse();
    let inner = walk(nodes, below, (n - 1) as nat);
    assert(start.drop_first() =~= Seq::empty());
    assert(walk(nodes, start.drop_first(), n) =~= Seq::empty());
    assert(start[0] == root);
    assert(rooted_walk(nodes) =~= start + inner);
    if id == root {
        assert(is_path(nodes, start));
        start
    } else {
        let k = choose|k: int| 0 <= k < rooted_walk(nodes).len() && rooted_walk(nodes)[k] == id;
        assert(inner[k - 1] == id);
        lemma_children(nodes, root);
        assert forall|i: int| 0 <= i < below.len() implies is_child(
            nodes,
            start.last(),
            #[trigger] below[i],
        ) by {
            assert(below[i] == up[up.len() - 1 - i]);
            assert(up.contains(below[i]));
        }
        assert(is_path(nodes, start));
        lemma_walk_member(nodes, start, below, (n - 1) as nat, id)
    }
}

/// A sequence with an id put behind each occurrence of another.
pub open spec fn splice(ids: Seq<CharId>, anchor: CharId, id: CharId) -> Seq<CharId>
    decreases ids.len(),
{
    if ids.len() == 0 {
        Seq::empty()
    } else if ids[0] == anchor {
        seq![anchor, id] + splice(ids.drop_first(), anchor, id)
    } else {
        seq![ids[0]] + splice(ids.drop_first(), anchor, id)
    }
}

/// To splice a concatenation is to splice its parts.
proof fn lemma_splice_concat(
    first: Seq<CharId>,
    second: Seq<CharId>,
    anchor: CharId,
    id: CharId,
)
    ensures
        splice(first + second, anchor, id) == splice(first, anchor, id) + splice(
            second,
            anchor,
            id,
        ),
    decreases first.len(),
{
    if first.len() == 0 {
        assert(first + second =~= second);
        assert(splice(first, anchor, id) + splice(second, anchor, id) =~= splice(
            second,
            anchor,
            id,
        ));
    } else {
        assert((first + second).drop_first() =~= first.drop_first() + second);
        lemma_splice_concat(first.drop_first(), second, anchor, id);
        assert(splice(first + second, anchor, id) =~= splice(first, anchor, id) + splice(
            second,
            anchor,
            id,
        ));
    }
}

/// To splice a walk is to splice its parts.
proof fn lemma_splice_node(
    first: CharId,
    inner: Seq<CharId>,
    others: Seq<CharId>,
    anchor: CharId,
    id: CharId,
)
    ensures
        splice(seq![first] + inner + others, anchor, id) == seq![first] + (if first == anchor {
            seq![id] + splice(inner, anchor, id)
        } else {
            splice(inner, anchor, id)
        }) + splice(others, anchor, id),
{
    let rest = inner + others;
    let whole = seq![first] + inner + others;
    assert(whole[0] == first);
    assert(whole.drop_first() =~= rest);
    lemma_splice_concat(inner, others, anchor, id);
    if first == anchor {
        assert(seq![anchor, id] + splice(rest, anchor, id) =~= seq![first] + (seq![id] + splice(
            inner,
            anchor,
            id,
        )) + splice(others, anchor, id));
    } else {
        assert(seq![first] + splice(rest, anchor, id) =~= seq![first] + splice(inner, anchor, id)
            + splice(others, anchor, id));
    }
}

/// Where the anchor stands once, splicing inserts one id behind it.
proof fn lemma_splice_once(ids: Seq<CharId>, at: int, id: CharId)
    requires
        ids.no_duplicates(),
        0 <= at < ids.len(),
    ensures
        splice(ids, ids[at], id) == ids.insert(at + 1, id),
    decreases ids.len(),
{
    let anchor = ids[at];
    let rest = ids.drop_first();
    if at == 0 {
        assert forall|i: int| 0 <= i < rest.len() implies #[trigger] rest[i] != anchor by {
            assert(rest[i] == ids[i + 1]);
        }
        lemma_splice_none(rest, anchor, id);
        assert(splice(ids, anchor, id) =~= ids.insert(1, id));
    } else {
        assert(rest[at - 1] == anchor);
        assert(ids[0] != anchor);
        lemma_splice_once(rest, at - 1, id);
        assert(splice(ids, anchor, id) =~= ids.insert(at + 1, id));
    }
}

/// Where the anchor does not stand, splicing changes nothing.
proof fn lemma_splice_none(ids: Seq<CharId>, anchor: CharId, id: CharId)
    requires
        forall|i: int| 0 <= i < ids.len() ==> #[trigger] ids[i] != anchor,
    ensures
        splice(ids, anchor, id) == ids,
    decreases ids.len(),
{
    if ids.len() > 0 {
        let rest = ids.drop_first();
        assert forall|i: int| 0 <= i < rest.len() implies #[trigger] rest[i] != anchor by {
            assert(rest[i] == ids[i + 1]);
        }
        lemma_splice_none(rest, anchor, id);
        assert(splice(ids, anchor, id) =~= ids);
    } else {
        assert(splice(ids, anchor, id) =~= ids);
    }
}

/// What a sequence holds with one more id in it.
proof fn lemma_insert_contains(ids: Seq<CharId>, at: int, id: CharId, other: CharId)
    requires
        0 <= at <= ids.len(),
        other == id || ids.contains(other),
    ensures
        ids.insert(at, id).contains(other),
{
    let more = ids.insert(at, id);
    if other == id {
        assert(more[at] == other);
    } else {
        let k = choose|k: int| 0 <= k < ids.len() && ids[k] == other;
        if k < at {
            assert(more[k] == other);
        } else {
            assert(more[k + 1] == other);
        }
    }
}

/// A new leaf: an unknown id behind a known anchor, later than everything else behind
/// that anchor, with nothing behind it yet.
#[verifier::opaque]
pub open spec fn is_leaf(nodes: Map<CharId, CharNode>, id: CharId, node: CharNode) -> bool {
    &&& !nodes.contains_key(id)
    &&& !id.nil()
    &&& nodes.contains_key(node.after)
    &&& forall|other: CharId| #[trigger] is_child(nodes, node.after, other) ==> other.before(id)
    &&& forall|other: CharId| #[trigger]
        nodes.contains_key(other) && !other.nil() ==> nodes[other].after != id
}

/// A new leaf is the greatest child of its anchor, and changes no other children.
proof fn lemma_leaf_children(
    nodes: Map<CharId, CharNode>,
    id: CharId,
    node: CharNode,
    parent: CharId,
)
    requires
        nodes.dom().finite(),
        is_leaf(nodes, id, node),
    ensures
        children(nodes.insert(id, node), parent) == if parent == node.after {
            children(nodes, parent).push(id)
        } else {
            children(nodes, parent)
        },
        parent == id ==> children(nodes, parent) == Seq::<CharId>::empty(),
        !children(nodes, parent).contains(id),
{
    reveal(is_leaf);
    let after = nodes.insert(id, node);
    let old_set = nodes.dom().filter(|x: CharId| is_child(nodes, parent, x));
    let new_set = after.dom().filter(|x: CharId| is_child(after, parent, x));
    lemma_children(nodes, parent);
    if parent == id {
        assert(old_set =~= Set::empty());
        assert(in_order(old_set) =~= Seq::empty());
    }
    if parent == node.after {
        let kids = children(nodes, parent);
        let more = kids.push(id);
        assert forall|i: int, j: int| 0 <= i < j < more.len() implies (#[trigger] more[i]).before(
            #[trigger] more[j],
        ) by {
            if j < kids.len() {
                assert(kids[i].before(kids[j]));
            } else {
                assert(kids.contains(kids[i]));
                assert(is_child(nodes, parent, kids[i]));
            }
        }
        ascending_is_in_order(more);
        assert(new_set =~= old_set.insert(id));
        vstd::set_lib::lemma_set_subset_finite(nodes.dom(), old_set);
        in_order_is_ascending(old_set);
        kids.lemma_push_to_set_commute(id);
        assert(more.to_set() =~= new_set);
    } else {
        assert(new_set =~= old_set);
    }
}

/// What a reversed sequence holds.
proof fn lemma_reverse_contains(ids: Seq<CharId>, id: CharId)
    ensures
        ids.reverse().contains(id) ==> ids.contains(id),
{
    if ids.reverse().contains(id) {
        let k = choose|k: int| 0 <= k < ids.len() && ids.reverse()[k] == id;
        assert(ids[ids.len() - 1 - k] == id);
    }
}

/// One step of a walk with a new leaf in it.
proof fn lemma_leaf_step(
    nodes: Map<CharId, CharNode>,
    after: Map<CharId, CharNode>,
    anchor: CharId,
    id: CharId,
    ids: Seq<CharId>,
    depth: nat,
)
    requires
        depth > 0,
        ids.len() > 0,
        ({
            let d = (depth - 1) as nat;
            let below = children(nodes, ids[0]).reverse();
            let more = children(after, ids[0]).reverse();
            &&& walk(after, below, d) == splice(walk(nodes, below, d), anchor, id)
            &&& walk(after, more, d) == if ids[0] == anchor {
                seq![id] + walk(after, below, d)
            } else {
                walk(after, below, d)
            }
        }),
        walk(after, ids.drop_first(), depth) == splice(
            walk(nodes, ids.drop_first(), depth),
            anchor,
            id,
        ),
    ensures
        walk(after, ids, depth) == splice(walk(nodes, ids, depth), anchor, id),
{
    let d = (depth - 1) as nat;
    let inner = walk(nodes, children(nodes, ids[0]).reverse(), d);
    let others = walk(nodes, ids.drop_first(), depth);
    lemma_splice_node(ids[0], inner, others, anchor, id);
}

/// A new leaf comes directly behind its anchor in a walk.
proof fn lemma_leaf_walk(
    nodes: Map<CharId, CharNode>,
    id: CharId,
    node: CharNode,
    ids: Seq<CharId>,
    depth: nat,
)
    requires
        nodes.dom().finite(),
        is_leaf(nodes, id, node),
        !ids.contains(id),
        deep_enough(nodes.insert(id, node), ids, depth),
    ensures
        walk(nodes.insert(id, node), ids, depth) == splice(
            walk(nodes, ids, depth),
            node.after,
            id,
        ),
    decreases depth, ids.len(),
{
    let after = nodes.insert(id, node);
    let anchor = node.after;
    if ids.len() == 0 {
        assert(walk(after, ids, depth) =~= Seq::empty());
        assert(splice(walk(nodes, ids, depth), anchor, id) =~= Seq::empty());
    } else {
        let h = ids[0];
        let rest = ids.drop_first();
        let d = (depth - 1) as nat;
        let below = children(nodes, h).reverse();
        let up = children(nodes, h);
        assert(ids.contains(h));
        assert(!rest.contains(id)) by {
            if rest.contains(id) {
                let k = choose|k: int| 0 <= k < rest.len() && rest[k] == id;
                assert(ids[k + 1] == id);
            }
        }
        lemma_leaf_walk(nodes, id, node, rest, depth);
        lemma_leaf_children(nodes, id, node, h);
        if h == anchor {
            lemma_leaf_first(nodes, id, node, d);
        }
        assert(!below.contains(id)) by {
            lemma_reverse_contains(up, id);
        }
        lemma_leaf_walk(nodes, id, node, below, d);
        lemma_leaf_step(nodes, after, anchor, id, ids, depth);
    }
}

/// A new leaf is met first among the children of its anchor.
proof fn lemma_leaf_first(nodes: Map<CharId, CharNode>, id: CharId, node: CharNode, depth: nat)
    requires
        nodes.dom().finite(),
        is_leaf(nodes, id, node),
        deep_enough(
            nodes.insert(id, node),
            children(nodes.insert(id, node), node.after).reverse(),
            depth,
        ),
    ensures
        deep_enough(nodes.insert(id, node), children(nodes, node.after).reverse(), depth),
        walk(
            nodes.insert(id, node),
            children(nodes.insert(id, node), node.after).reverse(),
            depth,
        ) == seq![id] + walk(
            nodes.insert(id, node),
            children(nodes, node.after).reverse(),
            depth,
        ),
{
    let after = nodes.insert(id, node);
    let more = children(after, node.after).reverse();
    let below = children(nodes, node.after).reverse();
    lemma_leaf_children(nodes, id, node, node.after);
    lemma_leaf_children(nodes, id, node, id);
    assert(node.after != id) by {
        reveal(is_leaf);
    }
    assert(more =~= seq![id] + below);
    assert(more[0] == id);
    assert(more.drop_first() =~= below);
    let none = children(after, id).reverse();
    assert(none =~= Seq::empty());
    assert(walk(after, none, (depth - 1) as nat) =~= Seq::empty());
    assert(walk(after, more, depth) == seq![id] + walk(after, none, (depth - 1) as nat) + walk(
        after,
        below,
        depth,
    ));
    assert(walk(after, more, depth) =~= seq![id] + walk(after, below, depth));
}

/// A new leaf comes directly behind its anchor in the walk from the root.
proof fn lemma_leaf_rooted(nodes: Map<CharId, CharNode>, id: CharId, node: CharNode)
    requires
        nodes.dom().finite(),
        nodes.contains_key(CharId::spec_root()),
        is_leaf(nodes, id, node),
    ensures
        rooted_walk(nodes.insert(id, node)) == splice(rooted_walk(nodes), node.after, id),
{
    let root = CharId::spec_root();
    let after = nodes.insert(id, node);
    let n = nodes.dom().len();
    lemma_root_depth(nodes);
    lemma_root_depth(after);
    assert(!nodes.contains_key(id) && !id.nil()) by {
        reveal(is_leaf);
    }
    assert(after.dom() =~= nodes.dom().insert(id));
    assert(after.dom().len() == n + 1);
    lemma_deeper(nodes, seq![root], n, n + 1);
    lemma_leaf_walk(nodes, id, node, seq![root], n + 1);
}

/// A new leaf comes directly behind its anchor in the text order, and is reached
/// from the root.
pub proof fn lemma_leaf_order(
    nodes: Map<CharId, CharNode>,
    id: CharId,
    node: CharNode,
    at: int,
)
    requires
        nodes.dom().finite(),
        nodes.contains_key(CharId::spec_root()),
        rooted(nodes),
        is_leaf(nodes, id, node),
        0 <= at < text_order(nodes).len(),
        text_order(nodes)[at] == node.after,
    ensures
        rooted(nodes.insert(id, node)),
        text_order(nodes.insert(id, node)) == text_order(nodes).insert(at + 1, id),
{
    let after = nodes.insert(id, node);
    lemma_rooted_order(nodes);
    lemma_leaf_rooted(nodes, id, node);
    rooted_walk_is_simple(nodes);
    lemma_splice_once(rooted_walk(nodes), at, id);
    assert forall|x: CharId| #[trigger] after.contains_key(x) implies rooted_walk(after).contains(
        x,
    ) by {
        lemma_insert_contains(rooted_walk(nodes), at + 1, id, x);
        assert(x == id || nodes.contains_key(x));
    }
    lemma_rooted_order(after);
}

/// Where every node is reached from the root, every anchor is a node.
proof fn lemma_anchors_known(nodes: Map<CharId, CharNode>, id: CharId)
    requires
        nodes.dom().finite(),
        nodes.contains_key(CharId::spec_root()),
        rooted(nodes),
        nodes.contains_key(id),
        !id.nil(),
    ensures
        nodes.contains_key(nodes[id].after),
{
    let path = lemma_path_to(nodes, id);
    lemma_path_simple(nodes, path);
    assert(is_child(nodes, path[path.len() - 2], path[path.len() - 1]));
    assert(nodes.contains_key(path[path.len() - 2]));
}

/// Some trees that do not hang below the root are walked alike before and after something
/// is inserted at the root.
proof fn lemma_walk_elsewhere(
    nodes: Map<CharId, CharNode>,
    id: CharId,
    node: CharNode,
    ids: Seq<CharId>,
    depth: nat,
)
    requires
        nodes.dom().finite(),
        !nodes.contains_key(id),
        node.after == CharId::spec_root(),
        forall|i: int| 0 <= i < ids.len() ==> #[trigger] ids[i] != CharId::spec_root(),
    ensures
        walk(nodes.insert(id, node), ids, depth) == walk(nodes, ids, depth),
        deep_enough(nodes.insert(id, node), ids, depth) == deep_enough(nodes, ids, depth),
    decreases depth, ids.len(),
{
    if depth > 0 && ids.len() > 0 {
        let after = nodes.insert(id, node);
        let h = ids[0];
        let up = children(nodes, h);
        let below = up.reverse();
        assert(h != CharId::spec_root());
        assert(after.dom().filter(|x: CharId| is_child(after, h, x)) =~= nodes.dom().filter(
            |x: CharId| is_child(nodes, h, x),
        ));
        lemma_children(nodes, h);
        assert forall|i: int| 0 <= i < below.len() implies #[trigger] below[i]
            != CharId::spec_root() by {
            assert(below[i] == up[up.len() - 1 - i]);
            assert(up.contains(below[i]));
            assert(is_child(nodes, h, below[i]));
        }
        lemma_walk_elsewhere(nodes, id, node, below, (depth - 1) as nat);
        lemma_walk_elsewhere(nodes, id, node, ids.drop_first(), depth);
    }
}

/// Whether nothing was inserted after a character.
spec fn childless(nodes: Map<CharId, CharNode>, id: CharId) -> bool {
    children(nodes, id) == Seq::<CharId>::empty()
}

/// Characters with nothing behind them are walked one after the other.
proof fn lemma_walk_leaves(nodes: Map<CharId, CharNode>, ids: Seq<CharId>, depth: nat)
    requires
        depth > 0,
        forall|i: int| 0 <= i < ids.len() ==> childless(nodes, #[trigger] ids[i]),
    ensures
        walk(nodes, ids, depth) == ids,
    decreases ids.len(),
{
    if ids.len() > 0 {
        let rest = ids.drop_first();
        assert forall|i: int| 0 <= i < rest.len() implies childless(nodes, #[trigger] rest[i]) by {
            assert(rest[i] == ids[i + 1]);
        }
        lemma_walk_leaves(nodes, rest, depth);
        assert(childless(nodes, ids[0]));
        let below = children(nodes, ids[0]).reverse();
        assert(below =~= Seq::empty());
        assert(walk(nodes, below, (depth - 1) as nat) =~= Seq::empty());
        assert(seq![ids[0]] + walk(nodes, below, (depth - 1) as nat) + rest =~= ids);
    } else {
        assert(walk(nodes, ids, depth) =~= ids);
    }
}

/// The walk of some trees, the first of which are single characters.
proof fn lemma_walk_split(
    nodes: Map<CharId, CharNode>,
    greater: Seq<CharId>,
    lesser: Seq<CharId>,
    depth: nat,
)
    requires
        depth > 0,
        forall|i: int| 0 <= i < greater.len() ==> childless(nodes, #[trigger] greater[i]),
    ensures
        walk(nodes, greater + lesser, depth) == greater + walk(nodes, lesser, depth),
{
    lemma_walk_concat(nodes, greater, lesser, depth);
    lemma_walk_leaves(nodes, greater, depth);
}

/// A new leaf at the root has nothing behind it, and leaves what has nothing behind it so.
proof fn lemma_still_childless(
    nodes: Map<CharId, CharNode>,
    id: CharId,
    node: CharNode,
    other: CharId,
)
    requires
        !nodes.contains_key(id),
        node.after == CharId::spec_root(),
        forall|x: CharId| #[trigger]
            nodes.contains_key(x) && !x.nil() ==> nodes[x].after != id,
        other == id || childless(nodes, other),
        other != CharId::spec_root(),
    ensures
        childless(nodes.insert(id, node), other),
{
    let after = nodes.insert(id, node);
    let set = after.dom().filter(|x: CharId| is_child(after, other, x));
    if other == id {
        assert(set =~= Set::empty());
        assert(in_order(set) =~= Seq::empty());
    } else {
        assert(set =~= nodes.dom().filter(|x: CharId| is_child(nodes, other, x)));
    }
}

/// Where an id belongs in an ascending sequence.
proof fn lemma_rank(ids: Seq<CharId>, id: CharId) -> (m: int)
    requires
        ascending(ids),
        !ids.contains(id),
    ensures
        0 <= m <= ids.len(),
        forall|i: int| 0 <= i < m ==> (#[trigger] ids[i]).before(id),
        forall|i: int| m <= i < ids.len() ==> id.before(#[trigger] ids[i]),
    decreases ids.len(),
{
    if ids.len() == 0 {
        0
    } else {
        let last = ids.last();
        let front = ids.drop_last();
        assert(ids.contains(ids[ids.len() - 1]));
        assert(!front.contains(id)) by {
            if front.contains(id) {
                let k = choose|k: int| 0 <= k < front.len() && front[k] == id;
                assert(ids[k] == id);
            }
        }
        assert forall|i: int, j: int| 0 <= i < j < front.len() implies (#[trigger] front[i]).before(
            #[trigger] front[j],
        ) by {
            assert(ids[i].before(ids[j]));
        }
        ids_are_totally_ordered(last, id);
        if last.before(id) {
            assert forall|i: int| 0 <= i < ids.len() implies (#[trigger] ids[i]).before(id) by {
                if i < ids.len() - 1 {
                    assert(ids[i].before(ids[ids.len() - 1]));
                    id_order_is_transitive(ids[i], last, id);
                }
            }
            ids.len() as int
        } else {
            let m = lemma_rank(front, id);
            assert forall|i: int| 0 <= i < m implies (#[trigger] ids[i]).before(id) by {
                assert(front[i] == ids[i]);
            }
            assert forall|i: int| m <= i < ids.len() implies id.before(#[trigger] ids[i]) by {
                if i < ids.len() - 1 {
                    assert(front[i] == ids[i]);
                }
            }
            m
        }
    }
}

/// The children of the root with one more among them.
proof fn lemma_root_children(
    nodes: Map<CharId, CharNode>,
    id: CharId,
    node: CharNode,
    m: int,
)
    requires
        nodes.dom().finite(),
        !nodes.contains_key(id),
        !id.nil(),
        node.after == CharId::spec_root(),
        0 <= m <= children(nodes, CharId::spec_root()).len(),
        forall|i: int|
            0 <= i < m ==> (#[trigger] children(nodes, CharId::spec_root())[i]).before(id),
        forall|i: int|
            m <= i < children(nodes, CharId::spec_root()).len() ==> id.before(
                #[trigger] children(nodes, CharId::spec_root())[i],
            ),
    ensures
        children(nodes.insert(id, node), CharId::spec_root()) == children(
            nodes,
            CharId::spec_root(),
        ).insert(m, id),
{
    let root = CharId::spec_root();
    let after = nodes.insert(id, node);
    let kids = children(nodes, root);
    let more = kids.insert(m, id);
    lemma_children(nodes, root);
    assert forall|i: int, j: int| 0 <= i < j < more.len() implies (#[trigger] more[i]).before(
        #[trigger] more[j],
    ) by {
        let i_old = if i < m { i } else { i - 1 };
        let j_old = if j < m { j } else { j - 1 };
        if i != m {
            assert(more[i] == kids[i_old]);
        }
        if j != m {
            assert(more[j] == kids[j_old]);
        }
        if i != m && j != m {
            assert(kids[i_old].before(kids[j_old]));
        }
    }
    ascending_is_in_order(more);
    let set = after.dom().filter(|x: CharId| is_child(after, root, x));
    assert forall|x: CharId| more.to_set().contains(x) <==> set.contains(x) by {
        if more.to_set().contains(x) {
            let k = choose|k: int| 0 <= k < more.len() && more[k] == x;
            if k != m {
                let old = if k < m { k } else { k - 1 };
                assert(more[k] == kids[old]);
                assert(kids.contains(x));
                assert(is_child(nodes, root, x));
            }
        }
        if set.contains(x) {
            if x != id {
                assert(is_child(nodes, root, x));
                assert(kids.contains(x));
            }
            lemma_insert_contains(kids, m, id, x);
        }
    }
    assert(more.to_set() =~= set);
}

/// The walk from the root is the root and the walk below it.
proof fn lemma_root_walk(nodes: Map<CharId, CharNode>, depth: nat)
    requires
        nodes.dom().finite(),
        nodes.contains_key(CharId::spec_root()),
        depth >= nodes.dom().len(),
    ensures
        depth > 0,
        deep_enough(nodes, children(nodes, CharId::spec_root()).reverse(), (depth - 1) as nat),
        rooted_walk(nodes) == seq![CharId::spec_root()] + walk(
            nodes,
            children(nodes, CharId::spec_root()).reverse(),
            (depth - 1) as nat,
        ),
{
    let root = CharId::spec_root();
    let start = seq![root];
    let below = children(nodes, root).reverse();
    lemma_root_depth(nodes);
    lemma_deeper(nodes, start, nodes.dom().len(), depth);
    assert(start[0] == root);
    assert(start.drop_first() =~= Seq::empty());
    assert(walk(nodes, start.drop_first(), depth) =~= Seq::empty());
    assert(rooted_walk(nodes) =~= start + walk(nodes, below, (depth - 1) as nat));
}

/// Where a new leaf at the root stands in the walk: behind its later siblings, which have
/// nothing behind them, and before the trees of the others.
proof fn lemma_root_leaf_walk(
    nodes: Map<CharId, CharNode>,
    id: CharId,
    node: CharNode,
    greater: Seq<CharId>,
    lesser: Seq<CharId>,
)
    requires
        nodes.dom().finite(),
        nodes.contains_key(CharId::spec_root()),
        !nodes.contains_key(id),
        !id.nil(),
        node.after == CharId::spec_root(),
        forall|other: CharId| #[trigger]
            nodes.contains_key(other) && !other.nil() ==> nodes[other].after != id,
        children(nodes, CharId::spec_root()).reverse() == greater + lesser,
        children(nodes.insert(id, node), CharId::spec_root()).reverse() == greater.push(id)
            + lesser,
        forall|i: int|
            0 <= i < greater.len() ==> childless(nodes, #[trigger] greater[i]) && greater[i]
                != CharId::spec_root(),
        forall|i: int| 0 <= i < lesser.len() ==> #[trigger] lesser[i] != CharId::spec_root(),
    ensures
        ({
            let root = CharId::spec_root();
            let rest = walk(nodes, lesser, nodes.dom().len());
            &&& nodes.dom().len() > 0
            &&& rooted_walk(nodes) == seq![root] + (greater + rest)
            &&& rooted_walk(nodes.insert(id, node)) == seq![root] + (greater.push(id) + rest)
        }),
{
    let after = nodes.insert(id, node);
    let n = nodes.dom().len();
    assert(n > 0) by {
        if n == 0 {
            assert(nodes.dom() =~= Set::empty());
        }
    }
    assert(after.dom() =~= nodes.dom().insert(id));
    lemma_root_walk(nodes, n + 1);
    lemma_root_walk(after, n + 1);
    lemma_walk_split(nodes, greater, lesser, n);
    let more = greater.push(id);
    assert forall|i: int| 0 <= i < more.len() implies childless(after, #[trigger] more[i]) by {
        if i < greater.len() {
            assert(more[i] == greater[i]);
            assert(childless(nodes, greater[i]));
        }
        lemma_still_childless(nodes, id, node, more[i]);
    }
    lemma_walk_split(after, more, lesser, n);
    lemma_walk_elsewhere(nodes, id, node, lesser, n);
}

/// The parts of a reversed sequence, and of one with an element more.
proof fn lemma_reverse_parts(ids: Seq<CharId>, m: int, id: CharId)
    requires
        0 <= m <= ids.len(),
    ensures
        ids.reverse() == ids.skip(m).reverse() + ids.take(m).reverse(),
        ids.insert(m, id).reverse() == ids.skip(m).reverse().push(id) + ids.take(m).reverse(),
{
    assert(ids.reverse() =~= ids.skip(m).reverse() + ids.take(m).reverse());
    assert(ids.insert(m, id).reverse() =~= ids.skip(m).reverse().push(id) + ids.take(m).reverse());
}

/// A new leaf at the root comes behind its later siblings, if these have nothing behind
/// them, and before the rest. The result is the number of its later siblings.
proof fn lemma_root_leaf_order(nodes: Map<CharId, CharNode>, id: CharId, node: CharNode) -> (later:
    int)
    requires
        nodes.dom().finite(),
        nodes.contains_key(CharId::spec_root()),
        rooted(nodes),
        !nodes.contains_key(id),
        !id.nil(),
        node.after == CharId::spec_root(),
        forall|other: CharId| #[trigger]
            nodes.contains_key(other) && !other.nil() ==> nodes[other].after != id,
        forall|other: CharId| #[trigger]
            is_child(nodes, CharId::spec_root(), other) && id.before(other) ==> childless(
                nodes,
                other,
            ),
    ensures
        0 <= later < text_order(nodes).len(),
        rooted(nodes.insert(id, node)),
        text_order(nodes.insert(id, node)) == text_order(nodes).insert(later + 1, id),
        forall|k: int|
            1 <= k <= later ==> {
                &&& is_child(nodes, CharId::spec_root(), #[trigger] text_order(nodes)[k])
                &&& id.before(text_order(nodes)[k])
            },
        later + 1 < text_order(nodes).len() ==> text_order(nodes)[later + 1].before(id),
{
    let root = CharId::spec_root();
    let after = nodes.insert(id, node);
    let kids = children(nodes, root);
    lemma_children(nodes, root);
    assert(!kids.contains(id)) by {
        assert(kids.contains(id) <==> is_child(nodes, root, id));
    }
    let m = lemma_rank(kids, id);
    lemma_root_children(nodes, id, node, m);
    lemma_reverse_parts(kids, m, id);
    let greater = kids.skip(m).reverse();
    let lesser = kids.take(m).reverse();
    assert forall|i: int| 0 <= i < greater.len() implies {
        &&& childless(nodes, #[trigger] greater[i])
        &&& greater[i] != root
        &&& is_child(nodes, root, greater[i])
        &&& id.before(greater[i])
    } by {
        let k = kids.len() - 1 - i;
        assert(greater[i] == kids[k]);
        assert(kids.contains(kids[k]));
    }
    assert forall|i: int| 0 <= i < lesser.len() implies {
        &&& #[trigger] lesser[i] != root
        &&& lesser[i].before(id)
    } by {
        let k = m - 1 - i;
        assert(lesser[i] == kids[k]);
        assert(kids.contains(kids[k]));
        assert(is_child(nodes, root, kids[k]));
    }
    lemma_root_leaf_walk(nodes, id, node, greater, lesser);
    lemma_rooted_order(nodes);
    lemma_leaf_inserted(nodes, after, id, greater, lesser);
    greater.len() as int
}

/// What follows from where a new leaf at the root stands in the walk.
proof fn lemma_leaf_inserted(
    nodes: Map<CharId, CharNode>,
    after: Map<CharId, CharNode>,
    id: CharId,
    greater: Seq<CharId>,
    lesser: Seq<CharId>,
)
    requires
        rooted(nodes),
        text_order(nodes) == rooted_walk(nodes),
        forall|x: CharId| #[trigger] after.contains_key(x) ==> x == id || nodes.contains_key(x),
        nodes.dom().len() > 0,
        ({
            let root = CharId::spec_root();
            let rest = walk(nodes, lesser, nodes.dom().len());
            &&& rooted_walk(nodes) == seq![root] + (greater + rest)
            &&& rooted_walk(after) == seq![root] + (greater.push(id) + rest)
        }),
        forall|i: int| 0 <= i < lesser.len() ==> (#[trigger] lesser[i]).before(id),
    ensures
        greater.len() < text_order(nodes).len(),
        rooted(after),
        text_order(after) == text_order(nodes).insert(greater.len() as int + 1, id),
        forall|k: int|
            1 <= k <= greater.len() ==> #[trigger] text_order(nodes)[k] == greater[k - 1],
        greater.len() + 1 < text_order(nodes).len() ==> text_order(nodes)[greater.len() as int
            + 1].before(id),
{
    let old = rooted_walk(nodes);
    let later = greater.len() as int;
    let rest = walk(nodes, lesser, nodes.dom().len());
    lemma_inserted_parts(CharId::spec_root(), greater, rest, id);
    lemma_walk_head(nodes, lesser, nodes.dom().len());
    assert(rooted(after)) by {
        assert forall|x: CharId| #[trigger] after.contains_key(x) implies rooted_walk(
            after,
        ).contains(x) by {
            lemma_insert_contains(old, later + 1, id, x);
        }
    }
    lemma_rooted_order(after);
}

/// A walk begins with the first of the ids that it starts from.
proof fn lemma_walk_head(nodes: Map<CharId, CharNode>, ids: Seq<CharId>, depth: nat)
    ensures
        walk(nodes, ids, depth).len() > 0 ==> ids.len() > 0 && walk(nodes, ids, depth)[0] == ids[0],
{
}

/// What a sequence of three parts is with an id between the last two.
proof fn lemma_inserted_parts(first: CharId, greater: Seq<CharId>, rest: Seq<CharId>, id: CharId)
    ensures
        ({
            let old = seq![first] + (greater + rest);
            let later = greater.len() as int;
            &&& seq![first] + (greater.push(id) + rest) == old.insert(later + 1, id)
            &&& old.len() == 1 + later + rest.len()
            &&& forall|k: int| 1 <= k <= later ==> #[trigger] old[k] == greater[k - 1]
            &&& rest.len() > 0 ==> old[later + 1] == rest[0]
        }),
{
    let old = seq![first] + (greater + rest);
    assert(seq![first] + (greater.push(id) + rest) =~= old.insert(greater.len() as int + 1, id));
}

/// The first character of a run stands where a rebuild of the order would put it.
proof fn lemma_first_order(
    state: TextState,
    pos: nat,
    text: Seq<char>,
    uuids: Seq<Uuid>,
    at: int,
)
    requires
        state.wf(),
        state.settled(),
        state.placed(),
        state.witnessed(),
        state.anchors_witnessed(),
        rooted(state.nodes),
        state.fresh(uuids),
        uuids.len() == text.len(),
        text.len() > 0,
        uuids[0] != Uuid::spec_nil(),
        state.clock.counter + text.len() <= u64::MAX,
        0 < at <= state.sequence.len(),
        at == past_later_siblings(
            state.nodes,
            state.sequence,
            state.anchor(pos),
            state.new_ids(uuids)[0],
            index_or_zero(state.sequence, state.anchor(pos)) + 1,
        ),
        state.sequence[at - 1] == state.anchor(pos) || state.anchor(pos) == CharId::spec_root(),
        state.sequence[index_or_zero(state.sequence, state.anchor(pos))] == state.anchor(pos),
    ensures
        ({
            let id = state.new_ids(uuids)[0];
            let nodes = state.nodes.insert(id, CharNode::fresh(id, text[0], state.anchor(pos)));
            &&& rooted(nodes)
            &&& text_order(nodes) == state.sequence.insert(at, id)
        }),
{
    let root = CharId::spec_root();
    let nodes = state.nodes;
    let seq = state.sequence;
    let anchor = state.anchor(pos);
    let id = state.new_ids(uuids)[0];
    let node = CharNode::fresh(id, text[0], anchor);
    lemma_run_ids(state, uuids);
    assert(!nodes.contains_key(id));
    assert forall|other: CharId| #[trigger] nodes.contains_key(other) && !other.nil() implies
        nodes[other].after != id by {
        lemma_anchors_known(nodes, other);
    }
    if anchor == root {
        assert forall|other: CharId| #[trigger]
            is_child(nodes, root, other) && id.before(other) implies childless(nodes, other) by {
            let kids = nodes.dom().filter(|x: CharId| is_child(nodes, other, x));
            assert(nodes[other].value is None) by {
                if nodes[other].value is Some {
                    assert(other.before(id));
                    ids_are_totally_ordered(other, id);
                }
            }
            assert forall|x: CharId| !kids.contains(x) by {
                if kids.contains(x) {
                    assert(is_child(nodes, other, x));
                    assert(nodes[x].after.timestamp.counter <= state.clock.counter);
                }
            }
            assert(kids =~= Set::empty());
            assert(in_order(kids) =~= Seq::empty());
        }
        let later = lemma_root_leaf_order(nodes, id, node);
        seq.index_of_first_ensures(root);
        assert(seq.contains(seq[0]));
        let base = index_or_zero(seq, root) + 1;
        assert(base == 1) by {
            assert(seq[base - 1] == seq[0]);
        }
        lemma_past(nodes, seq, root, id, 1);
        if at < later + 1 {
            assert(is_child(nodes, root, text_order(nodes)[at]));
            ids_are_totally_ordered(seq[at], id);
        }
        if at > later + 1 {
            assert(!seq[later + 1].before(id));
        }
    } else {
        assert forall|other: CharId| #[trigger] is_child(nodes, anchor, other) implies other.before(
            id,
        ) by {
            if nodes[other].value is None {
                assert(nodes[other] == CharNode::placeholder(other));
            }
        }
        assert(seq.to_set().contains(seq[at - 1]));
        assert(is_leaf(nodes, id, node)) by {
            reveal(is_leaf);
        }
        lemma_leaf_order(nodes, id, node, at - 1);
    }
}

/// A further character of a run is a new leaf of the nodes before it.
proof fn lemma_run_leaf(
    state: TextState,
    pos: nat,
    text: Seq<char>,
    uuids: Seq<Uuid>,
    last: nat,
)
    requires
        state.wf(),
        rooted(state.nodes),
        state.fresh(uuids),
        uuids.len() == text.len(),
        0 < last < text.len(),
        forall|i: int| 0 <= i < uuids.len() ==> #[trigger] uuids[i] != Uuid::spec_nil(),
        state.clock.counter + text.len() <= u64::MAX,
        state.nodes.contains_key(state.anchor(pos)),
    ensures
        ({
            let ids = state.new_ids(uuids);
            let nodes = run_nodes(state.nodes, ids, text, state.anchor(pos), last);
            let after = run_after(ids, state.anchor(pos), last as int);
            &&& nodes.dom().finite()
            &&& nodes.contains_key(CharId::spec_root())
            &&& is_leaf(nodes, ids[last as int], CharNode::fresh(ids[last as int], text[last as int], after))
        }),
{
    let ids = state.new_ids(uuids);
    let anchor = state.anchor(pos);
    let id = ids[last as int];
    let before = run_nodes(state.nodes, ids, text, anchor, last);
    let node = CharNode::fresh(id, text[last as int], run_after(ids, anchor, last as int));
    let front = ids.take(last as int);
    lemma_run_ids(state, uuids);
    lemma_run_nodes(state.nodes, ids, text, anchor, last);
    assert(!front.contains(id)) by {
        if front.contains(id) {
            let k = choose|k: int| 0 <= k < last && front[k] == id;
            assert(ids[k] == ids[last as int]);
        }
    }
    assert(!before.contains_key(id));
    assert(node.after == ids[last - 1]);
    assert(before.contains_key(ids[last - 1]));
    assert(before.contains_key(CharId::spec_root())) by {
        assert(!front.contains(CharId::spec_root())) by {
            if front.contains(CharId::spec_root()) {
                let k = choose|k: int| 0 <= k < last && front[k] == CharId::spec_root();
                assert(ids[k].uuid == uuids[k]);
            }
        }
    }
    assert forall|other: CharId| #[trigger] before.contains_key(other) && !other.nil() implies
        before[other].after != id && before[other].after != ids[last - 1] by {
        if front.contains(other) {
            let k = choose|k: int| 0 <= k < last && front[k] == other;
            assert(ids[k] == other);
            assert(before[ids[k]].after == run_after(ids, anchor, k));
            if k == 0 {
                assert(!state.nodes.contains_key(ids[last as int]));
                assert(!state.nodes.contains_key(ids[last - 1]));
            } else {
                assert(ids[k - 1] != ids[last as int]);
                assert(ids[k - 1] != ids[last - 1]);
            }
        } else {
            assert(state.nodes.contains_key(other));
            lemma_anchors_known(state.nodes, other);
            assert(!state.nodes.contains_key(ids[last as int]));
            assert(!state.nodes.contains_key(ids[last - 1]));
        }
    }
    assert(is_leaf(before, id, node)) by {
        reveal(is_leaf);
        assert forall|other: CharId| #[trigger]
            is_child(before, node.after, other) implies other.before(id) by {
            assert(before.contains_key(other));
        }
    }
}

/// A run of new characters stands where a rebuild of the order would put it.
#[verifier::spinoff_prover]
#[verifier::rlimit(40)]
proof fn lemma_run_order(
    state: TextState,
    pos: nat,
    text: Seq<char>,
    uuids: Seq<Uuid>,
    at: int,
    count: nat,
)
    requires
        state.wf(),
        rooted(state.nodes),
        state.fresh(uuids),
        uuids.len() == text.len(),
        0 < count <= text.len(),
        forall|i: int| 0 <= i < uuids.len() ==> #[trigger] uuids[i] != Uuid::spec_nil(),
        state.clock.counter + text.len() <= u64::MAX,
        state.nodes.contains_key(state.anchor(pos)),
        0 < at <= state.sequence.len(),
        ({
            let id = state.new_ids(uuids)[0];
            let nodes = state.nodes.insert(id, CharNode::fresh(id, text[0], state.anchor(pos)));
            &&& rooted(nodes)
            &&& text_order(nodes) == state.sequence.insert(at, id)
        }),
    ensures
        ({
            let ids = state.new_ids(uuids);
            let nodes = run_nodes(state.nodes, ids, text, state.anchor(pos), count);
            &&& rooted(nodes)
            &&& text_order(nodes) == state.sequence.take(at) + ids.take(count as int)
                + state.sequence.skip(at)
        }),
    decreases count,
{
    let ids = state.new_ids(uuids);
    let anchor = state.anchor(pos);
    let seq = state.sequence;
    if count == 1 {
        reveal_with_fuel(run_nodes, 2);
        assert(run_nodes(state.nodes, ids, text, anchor, 1) == state.nodes.insert(
            ids[0],
            CharNode::fresh(ids[0], text[0], anchor),
        ));
        assert(seq.insert(at, ids[0]) =~= seq.take(at) + ids.take(1) + seq.skip(at));
    } else {
        let last = (count - 1) as nat;
        let before = run_nodes(state.nodes, ids, text, anchor, last);
        let id = ids[last as int];
        let node = CharNode::fresh(id, text[last as int], run_after(ids, anchor, last as int));
        lemma_run_order(state, pos, text, uuids, at, last);
        lemma_run_leaf(state, pos, text, uuids, last);
        lemma_run_place(seq, ids, at, last as int);
        lemma_leaf_order(before, id, node, at - 1 + last);
    }
}

/// Where a further character of a run stands, and what the sequence is with it.
proof fn lemma_run_place(seq: Seq<CharId>, ids: Seq<CharId>, at: int, last: int)
    requires
        0 < last < ids.len(),
        0 < at <= seq.len(),
    ensures
        ({
            let order = seq.take(at) + ids.take(last) + seq.skip(at);
            &&& at - 1 + last < order.len()
            &&& order[at - 1 + last] == ids[last - 1]
            &&& order.insert(at + last, ids[last]) == seq.take(at) + ids.take(last + 1) + seq.skip(
                at,
            )
        }),
{
    let order = seq.take(at) + ids.take(last) + seq.skip(at);
    assert(order.insert(at + last, ids[last]) =~= seq.take(at) + ids.take(last + 1) + seq.skip(
        at,
    ));
}

/// A local insertion leaves the sequence as a rebuild from the nodes would: what
/// a replica shows of its own edits is what every other replica will show of them.
///
/// It holds on a settled replica where every node is reached from the root, and whose
/// clock has witnessed every character whose value is known and every anchor, for ids
/// that are not known yet.
pub proof fn insertion_keeps_order(state: TextState, pos: nat, text: Seq<char>, uuids: Seq<Uuid>)
    requires
        state.wf(),
        state.settled(),
        state.witnessed(),
        state.anchors_witnessed(),
        rooted(state.nodes),
        state.fresh(uuids),
        uuids.len() == text.len(),
        forall|i: int| 0 <= i < uuids.len() ==> #[trigger] uuids[i] != Uuid::spec_nil(),
        state.clock.counter + text.len() <= u64::MAX,
    ensures
        state.inserted(pos, text, uuids).wf(),
        state.inserted(pos, text, uuids).settled(),
        state.inserted(pos, text, uuids).witnessed(),
        state.inserted(pos, text, uuids).anchors_witnessed(),
        rooted(state.inserted(pos, text, uuids).nodes),
        anchored(state.nodes) ==> anchored(state.inserted(pos, text, uuids).nodes),
{
    settled_is_placed(state);
    insertion_keeps_places(state, pos, text, uuids);
    if text.len() > 0 {
        let at = lemma_run_index(state, pos, text, uuids);
        let anchor = state.anchor(pos);
        assert(state.sequence.to_set().contains(
            state.sequence[index_or_zero(state.sequence, anchor)],
        ));
        lemma_first_order(state, pos, text, uuids, at);
        lemma_run_order(state, pos, text, uuids, at, text.len());
        let ids = state.new_ids(uuids);
        assert(ids.take(text.len() as int) =~= ids);
        lemma_run_anchored(state, pos, text, uuids);
    }
}

/// The characters of a run come after their anchors, which the clock has witnessed.
proof fn lemma_run_anchored(state: TextState, pos: nat, text: Seq<char>, uuids: Seq<Uuid>)
    requires
        state.wf(),
        state.witnessed(),
        state.anchors_witnessed(),
        state.fresh(uuids),
        uuids.len() == text.len(),
        text.len() > 0,
        state.clock.counter + text.len() <= u64::MAX,
    ensures
        anchored(state.nodes) ==> anchored(state.inserted(pos, text, uuids).nodes),
        state.inserted(pos, text, uuids).anchors_witnessed(),
{
    let ids = state.new_ids(uuids);
    let anchor = state.anchor(pos);
    let after = state.inserted(pos, text, uuids);
    let nodes = after.nodes;
    lemma_run_ids(state, uuids);
    lemma_run_nodes(state.nodes, ids, text, anchor, text.len());
    assert(ids.take(text.len() as int) =~= ids);
    assert(anchor.timestamp.counter <= state.clock.counter) by {
        if anchor != CharId::spec_root() {
            let k = if pos <= state.shown().len() { pos - 1 } else { state.shown().len() - 1 };
            lemma_visible_member(state.nodes, state.sequence, k);
            assert(state.nodes.contains_key(anchor));
        }
    }
    assert forall|id: CharId| #[trigger] nodes.contains_key(id) && !id.nil() implies {
        &&& nodes[id].after.timestamp.counter <= after.clock.counter
        &&& anchored(state.nodes) ==> nodes[id].after.before(id)
    } by {
        if ids.contains(id) {
            let i = choose|i: int| 0 <= i < ids.len() && ids[i] == id;
            assert(nodes[ids[i]].after == run_after(ids, anchor, i));
            if i > 0 {
                assert(ids[i - 1].timestamp.counter < ids[i].timestamp.counter);
            }
        } else {
            assert(state.nodes.contains_key(id));
        }
    }
}

/// A deletion leaves the order as it is.
pub proof fn deletion_keeps_order(state: TextState, pos: nat)
    requires
        state.wf(),
        state.settled(),
    ensures
        state.deleted(pos).settled(),
        state.witnessed() ==> state.deleted(pos).witnessed(),
        state.anchors_witnessed() ==> state.deleted(pos).anchors_witnessed(),
        rooted(state.nodes) ==> rooted(state.deleted(pos).nodes),
        anchored(state.nodes) ==> anchored(state.deleted(pos).nodes),
{
    if pos < state.shown().len() {
        let after = state.deleted(pos);
        let id = state.shown()[pos as int];
        lemma_visible_member(state.nodes, state.sequence, pos as int);
        assert(after.nodes.dom() =~= state.nodes.dom());
        assert(same_tree(state.nodes, after.nodes));
        order_depends_on_tree(state.nodes, after.nodes);
        if rooted(state.nodes) {
            lemma_same_walk(
                state.nodes,
                after.nodes,
                seq![CharId::spec_root()],
                state.nodes.dom().len(),
            );
        }
    }
}

/// A walk that cuts nothing off meets the children of whatever it meets.
proof fn lemma_walk_closed(
    nodes: Map<CharId, CharNode>,
    ids: Seq<CharId>,
    depth: nat,
    parent: CharId,
    child: CharId,
)
    requires
        nodes.dom().finite(),
        deep_enough(nodes, ids, depth),
        walk(nodes, ids, depth).contains(parent),
        is_child(nodes, parent, child),
    ensures
        walk(nodes, ids, depth).contains(child),
    decreases depth, ids.len(),
{
    let d = (depth - 1) as nat;
    let below = children(nodes, ids[0]).reverse();
    let rest = ids.drop_first();
    let inner = walk(nodes, below, d);
    let others = walk(nodes, rest, depth);
    let whole = walk(nodes, ids, depth);
    assert(whole == seq![ids[0]] + inner + others);
    let at = choose|i: int| 0 <= i < whole.len() && whole[i] == parent;
    if at == 0 {
        lemma_children(nodes, parent);
        let up = children(nodes, parent);
        assert(up.contains(child));
        let k = choose|k: int| 0 <= k < up.len() && up[k] == child;
        assert(below[up.len() - 1 - k] == child);
        lemma_walk_starts(nodes, below, d, up.len() - 1 - k);
        let j = choose|j: int| 0 <= j < inner.len() && inner[j] == child;
        assert(whole[1 + j] == child);
    } else if at < 1 + inner.len() {
        assert(inner[at - 1] == parent);
        lemma_walk_closed(nodes, below, d, parent, child);
        let j = choose|j: int| 0 <= j < inner.len() && inner[j] == child;
        assert(whole[1 + j] == child);
    } else {
        assert(others[at - 1 - inner.len()] == parent);
        lemma_walk_closed(nodes, rest, depth, parent, child);
        let j = choose|j: int| 0 <= j < others.len() && others[j] == child;
        assert(whole[1 + inner.len() + j] == child);
    }
}

/// A walk meets the ids that it starts from.
proof fn lemma_walk_starts(nodes: Map<CharId, CharNode>, ids: Seq<CharId>, depth: nat, at: int)
    requires
        deep_enough(nodes, ids, depth),
        0 <= at < ids.len(),
    ensures
        walk(nodes, ids, depth).contains(ids[at]),
    decreases at,
{
    let inner = walk(nodes, children(nodes, ids[0]).reverse(), (depth - 1) as nat);
    let others = walk(nodes, ids.drop_first(), depth);
    let whole = walk(nodes, ids, depth);
    assert(whole == seq![ids[0]] + inner + others);
    if at == 0 {
        assert(whole[0] == ids[0]);
    } else {
        lemma_walk_starts(nodes, ids.drop_first(), depth, at - 1);
        let j = choose|j: int| 0 <= j < others.len() && others[j] == ids[at];
        assert(whole[1 + inner.len() + j] == ids[at]);
    }
}

/// Whatever a path leads to is reached from the root.
pub proof fn lemma_path_is_reached(nodes: Map<CharId, CharNode>, path: Seq<CharId>)
    requires
        nodes.dom().finite(),
        nodes.contains_key(CharId::spec_root()),
        is_path(nodes, path),
    ensures
        rooted_walk(nodes).contains(path.last()),
    decreases path.len(),
{
    let start = seq![CharId::spec_root()];
    lemma_root_depth(nodes);
    if path.len() == 1 {
        lemma_walk_starts(nodes, start, nodes.dom().len(), 0);
    } else {
        let front = path.drop_last();
        assert forall|i: int| 0 < i < front.len() implies is_child(
            nodes,
            front[i - 1],
            #[trigger] front[i],
        ) by {
            assert(is_child(nodes, path[i - 1], path[i]));
        }
        lemma_path_is_reached(nodes, front);
        assert(is_child(nodes, path[path.len() - 2], path[path.len() - 1]));
        lemma_walk_closed(nodes, start, nodes.dom().len(), front.last(), path.last());
    }
}

/// Where each anchor is known and comes before the characters that were inserted after
/// it, every id is reached from the root.
proof fn lemma_anchored_is_reached(nodes: Map<CharId, CharNode>, id: CharId) -> (path: Seq<CharId>)
    requires
        nodes.dom().finite(),
        nodes.contains_key(CharId::spec_root()),
        uuids_known(nodes),
        anchored(nodes),
        forall|x: CharId| #[trigger]
            nodes.contains_key(x) && !x.nil() ==> nodes.contains_key(nodes[x].after),
        nodes.contains_key(id),
    ensures
        is_path(nodes, path),
        path.last() == id,
    decreases nodes.dom().filter(|x: CharId| x.before(id)).len(),
{
    if id.nil() {
        seq![id]
    } else {
        let up = nodes[id].after;
        let earlier = nodes.dom().filter(|x: CharId| x.before(id));
        let fewer = nodes.dom().filter(|x: CharId| x.before(up));
        assert(up.before(id));
        assert(nodes.contains_key(up));
        assert(earlier.contains(up));
        ids_are_totally_ordered(up, up);
        assert forall|x: CharId| #[trigger] fewer.contains(x) implies earlier.remove(up).contains(
            x,
        ) by {
            id_order_is_transitive(x, up, id);
        }
        vstd::set_lib::lemma_set_subset_finite(nodes.dom(), earlier);
        vstd::set_lib::lemma_len_subset(fewer, earlier.remove(up));
        let front = lemma_anchored_is_reached(nodes, up);
        let path = front.push(id);
        assert forall|i: int| 0 < i < path.len() implies is_child(
            nodes,
            path[i - 1],
            #[trigger] path[i],
        ) by {
            if i < front.len() {
                assert(is_child(nodes, front[i - 1], front[i]));
            }
        }
        path
    }
}

/// Where every node is reached from the root, the root alone has no UUID.
pub proof fn lemma_rooted_uuids(nodes: Map<CharId, CharNode>)
    requires
        nodes.dom().finite(),
        nodes.contains_key(CharId::spec_root()),
        rooted(nodes),
    ensures
        uuids_known(nodes),
{
    rooted_walk_is_simple(nodes);
}

/// A merge keeps every node reached from the root, and every character behind its
/// anchor.
pub proof fn merge_keeps_rooted(a: TextState, b: TextState)
    requires
        a.wf(),
        b.wf(),
        rooted(a.nodes),
        rooted(b.nodes),
        anchored(a.nodes),
        anchored(b.nodes),
    ensures
        rooted(a.join(b).nodes),
        anchored(a.join(b).nodes),
{
    let nodes = a.join(b).nodes;
    merge_is_sound(a, b);
    lemma_rooted_uuids(a.nodes);
    lemma_rooted_uuids(b.nodes);
    assert forall|id: CharId| #[trigger] nodes.contains_key(id) && !id.nil() implies {
        &&& nodes[id].after.before(id)
        &&& nodes.contains_key(nodes[id].after)
    } by {
        if a.nodes.contains_key(id) {
            lemma_anchors_known(a.nodes, id);
        }
        if b.nodes.contains_key(id) {
            lemma_anchors_known(b.nodes, id);
        }
    }
    assert forall|id: CharId| #[trigger] nodes.contains_key(id) implies rooted_walk(
        nodes,
    ).contains(id) by {
        let path = lemma_anchored_is_reached(nodes, id);
        lemma_path_is_reached(nodes, path);
    }
}

/// The first operations of a run store the first characters of the run.
proof fn lemma_run_applied(
    state: TextState,
    pos: nat,
    text: Seq<char>,
    uuids: Seq<Uuid>,
    count: nat,
)
    requires
        state.fresh(uuids),
        uuids.len() == text.len(),
        state.clock.counter + text.len() <= u64::MAX,
        count <= text.len(),
    ensures
        ({
            let ids = state.new_ids(uuids);
            let ops = run_ops(ids, text, state.anchor(pos)).take(count as int);
            &&& nodes_after_all(state.nodes, ops) == run_nodes(
                state.nodes,
                ids,
                text,
                state.anchor(pos),
                count,
            )
            &&& count > 0 ==> any_reorders(state.nodes, ops)
        }),
    decreases count,
{
    let ids = state.new_ids(uuids);
    let anchor = state.anchor(pos);
    let all = run_ops(ids, text, anchor);
    let ops = all.take(count as int);
    if count > 0 {
        let last = (count - 1) as nat;
        let before = run_nodes(state.nodes, ids, text, anchor, last);
        lemma_run_applied(state, pos, text, uuids, last);
        assert(ops.drop_last() =~= all.take(last as int));
        assert(ops.last() == run_op(ids, text, anchor, last as int));
        lemma_run_ids(state, uuids);
        lemma_run_nodes(state.nodes, ids, text, anchor, last);
        assert(!before.contains_key(ids[last as int])) by {
            if ids.take(last as int).contains(ids[last as int]) {
                let k = choose|k: int|
                    0 <= k < last && ids.take(last as int)[k] == ids[last as int];
                assert(ids[k] == ids[last as int]);
            }
            assert(!state.nodes.contains_key(ids[last as int]));
        }
    }
}

/// What an insertion hands out carries the insertion: another replica that holds
/// the same characters and applies the operations shows the same text.
pub proof fn operations_carry_the_insertion(
    ours: TextState,
    theirs: TextState,
    pos: nat,
    text: Seq<char>,
    uuids: Seq<Uuid>,
)
    requires
        ours.wf(),
        ours.settled(),
        ours.witnessed(),
        ours.anchors_witnessed(),
        rooted(ours.nodes),
        ours.fresh(uuids),
        theirs.settled(),
        theirs.nodes == ours.nodes,
        uuids.len() == text.len(),
        forall|i: int| 0 <= i < uuids.len() ==> #[trigger] uuids[i] != Uuid::spec_nil(),
        ours.clock.counter + text.len() <= u64::MAX,
    ensures
        ({
            let ops = run_ops(ours.new_ids(uuids), text, ours.anchor(pos));
            &&& theirs.applied(ops).nodes == ours.inserted(pos, text, uuids).nodes
            &&& theirs.applied(ops).sequence == ours.inserted(pos, text, uuids).sequence
            &&& theirs.applied(ops).chars() == ours.inserted(pos, text, uuids).chars()
        }),
{
    let ids = ours.new_ids(uuids);
    let ops = run_ops(ids, text, ours.anchor(pos));
    insertion_keeps_order(ours, pos, text, uuids);
    lemma_run_applied(ours, pos, text, uuids, text.len());
    assert(ops.take(text.len() as int) =~= ops);
}

/// What a deletion hands out carries the deletion.
pub proof fn operation_carries_the_deletion(ours: TextState, theirs: TextState, pos: nat)
    requires
        ours.settled(),
        theirs.settled(),
        theirs.nodes == ours.nodes,
        pos < ours.shown().len(),
    ensures
        ({
            let ops = seq![ours.delete_op(pos)->0];
            &&& theirs.applied(ops).nodes == ours.deleted(pos).nodes
            &&& theirs.applied(ops).sequence == ours.deleted(pos).sequence
            &&& theirs.applied(ops).chars() == ours.deleted(pos).chars()
        }),
{
    let ops = seq![ours.delete_op(pos)->0];
    lemma_visible_member(ours.nodes, ours.sequence, pos as int);
    assert(ops.drop_last() =~= Seq::empty());
    assert(ops.last() == ours.delete_op(pos)->0);
    reveal_with_fuel(nodes_after_all, 2);
    reveal_with_fuel(any_reorders, 2);
}

} // verus!

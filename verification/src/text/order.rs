//! The order of the characters of a text.
//!
//! Each character is a child of the character that it was inserted after. The
//! text is the pre-order walk of that tree from the root, with siblings in
//! descending order of their ids; characters that the walk does not reach
//! follow in ascending order. The order is a function of the nodes alone.

use crate::text::id_table::ascending;
use crate::text::node::{id_order_is_transitive, ids_are_totally_ordered, CharId, CharNode};
use vstd::prelude::*;

verus! {

/// The greatest id of a set.
pub open spec fn greatest(ids: Set<CharId>) -> CharId {
    choose|m: CharId|
        ids.contains(m) && forall|x: CharId| #[trigger] ids.contains(x) && x != m ==> x.before(m)
}

/// The ids of a finite set in ascending order.
pub open spec fn in_order(ids: Set<CharId>) -> Seq<CharId>
    decreases ids.len(),
{
    if ids.finite() && ids.len() > 0 && ids.contains(greatest(ids)) {
        in_order(ids.remove(greatest(ids))).push(greatest(ids))
    } else {
        Seq::empty()
    }
}

/// An ascending sequence is the ordering of the set of its elements.
#[verifier::spinoff_prover]
#[verifier::rlimit(60)]
pub proof fn ascending_is_in_order(ids: Seq<CharId>)
    requires
        ascending(ids),
    ensures
        ids == in_order(ids.to_set()),
    decreases ids.len(),
{
    let set = ids.to_set();
    vstd::seq_lib::seq_to_set_is_finite(ids);
    if ids.len() == 0 {
        assert(set =~= Set::empty());
        assert(ids =~= in_order(set));
    } else {
        let last = ids.last();
        let rest = ids.drop_last();
        assert(set.contains(last));
        assert(set.len() > 0) by {
            if set.len() == 0 {
                assert(set =~= Set::empty());
            }
        }
        assert forall|x: CharId| #[trigger] set.contains(x) && x != last implies x.before(last) by {
            let i = choose|i: int| 0 <= i < ids.len() && ids[i] == x;
            assert(ids[i].before(ids[ids.len() - 1]));
        }
        let m = greatest(set);
        assert(m == last) by {
            assert(set.contains(m) && forall|x: CharId| #[trigger]
                set.contains(x) && x != m ==> x.before(m));
            ids_are_totally_ordered(m, last);
        }
        assert(ascending(rest)) by {
            assert forall|i: int, j: int| 0 <= i < j < rest.len() implies (
            #[trigger] rest[i]).before(#[trigger] rest[j]) by {
                assert(ids[i].before(ids[j]));
            }
        }
        assert(rest.to_set() =~= set.remove(last)) by {
            assert forall|x: CharId| rest.to_set().contains(x) implies set.remove(last).contains(
                x,
            ) by {
                let i = choose|i: int| 0 <= i < rest.len() && rest[i] == x;
                assert(ids[i] == x);
                assert(ids[i].before(ids[ids.len() - 1]));
                ids_are_totally_ordered(x, last);
            }
            assert forall|x: CharId| set.remove(last).contains(x) implies rest.to_set().contains(
                x,
            ) by {
                let i = choose|i: int| 0 <= i < ids.len() && ids[i] == x;
                assert(rest[i] == x);
            }
        }
        ascending_is_in_order(rest);
        assert(ids =~= rest.push(last));
    }
}

/// A finite set has a greatest id, unless it is empty.
proof fn lemma_greatest(ids: Set<CharId>)
    requires
        ids.finite(),
        ids.len() > 0,
    ensures
        ids.contains(greatest(ids)),
        forall|x: CharId| #[trigger] ids.contains(x) && x != greatest(ids) ==> x.before(greatest(ids)),
    decreases ids.len(),
{
    let some = ids.choose();
    let rest = ids.remove(some);
    let m = if rest.len() == 0 {
        assert forall|x: CharId| #[trigger] ids.contains(x) && x != some implies x.before(some) by {
            assert(rest =~= Set::empty());
            assert(rest.contains(x));
        }
        some
    } else {
        lemma_greatest(rest);
        let m = greatest(rest);
        ids_are_totally_ordered(some, m);
        let best = if m.before(some) { some } else { m };
        assert forall|x: CharId| #[trigger] ids.contains(x) && x != best implies x.before(best) by {
            if x != some {
                assert(rest.contains(x));
                if x != m {
                    assert(x.before(m));
                    if best == some {
                        id_order_is_transitive(x, m, some);
                    }
                }
            }
        }
        best
    };
    assert(ids.contains(m));
}

/// The ordering of a finite set is ascending and holds the ids of the set.
pub proof fn in_order_is_ascending(ids: Set<CharId>)
    requires
        ids.finite(),
    ensures
        ascending(in_order(ids)),
        in_order(ids).to_set() == ids,
        in_order(ids).no_duplicates(),
        in_order(ids).len() == ids.len(),
    decreases ids.len(),
{
    if ids.len() == 0 {
        assert(ids =~= Set::empty());
        assert(in_order(ids).to_set() =~= ids);
    } else {
        lemma_greatest(ids);
        let m = greatest(ids);
        let rest = ids.remove(m);
        in_order_is_ascending(rest);
        let front = in_order(rest);
        let all = front.push(m);
        assert(in_order(ids) == all);
        assert forall|i: int, j: int| 0 <= i < j < all.len() implies (#[trigger] all[i]).before(
            #[trigger] all[j],
        ) by {
            if j < front.len() {
                assert(front[i].before(front[j]));
            } else {
                assert(front.to_set().contains(front[i]));
                assert(ids.contains(front[i]));
            }
        }
        assert(all.to_set() =~= ids) by {
            assert forall|x: CharId| ids.contains(x) implies all.to_set().contains(x) by {
                if x == m {
                    assert(all[all.len() - 1] == x);
                } else {
                    assert(front.to_set().contains(x));
                    let i = choose|i: int| 0 <= i < front.len() && front[i] == x;
                    assert(all[i] == x);
                }
            }
            assert forall|x: CharId| all.to_set().contains(x) implies ids.contains(x) by {
                let i = choose|i: int| 0 <= i < all.len() && all[i] == x;
                if i < front.len() {
                    assert(front.to_set().contains(front[i]));
                }
            }
        }
        assert(all.no_duplicates()) by {
            assert forall|i: int, j: int| 0 <= i < j < all.len() implies all[i] != all[j] by {
                ids_are_totally_ordered(all[i], all[j]);
            }
        }
    }
}

/// Whether a character was inserted after another.
pub open spec fn is_child(nodes: Map<CharId, CharNode>, parent: CharId, id: CharId) -> bool {
    nodes.contains_key(id) && !id.nil() && nodes[id].after == parent
}

/// The characters inserted after another, in ascending order of their ids.
pub open spec fn children(nodes: Map<CharId, CharNode>, parent: CharId) -> Seq<CharId> {
    in_order(nodes.dom().filter(|id: CharId| is_child(nodes, parent, id)))
}

/// The trees below some characters, each tree walked in pre-order with the
/// greatest child first. `depth` bounds the number of levels that are walked.
pub open spec fn walk(nodes: Map<CharId, CharNode>, ids: Seq<CharId>, depth: nat) -> Seq<CharId>
    decreases depth, ids.len(),
{
    if depth == 0 || ids.len() == 0 {
        Seq::empty()
    } else {
        seq![ids[0]] + walk(nodes, children(nodes, ids[0]).reverse(), (depth - 1) as nat) + walk(
            nodes,
            ids.drop_first(),
            depth,
        )
    }
}

/// The characters that are reached from the root, in text order.
pub open spec fn rooted_walk(nodes: Map<CharId, CharNode>) -> Seq<CharId> {
    walk(nodes, seq![CharId::spec_root()], nodes.dom().len())
}

/// The characters that are not reached from the root.
pub open spec fn orphans(nodes: Map<CharId, CharNode>) -> Set<CharId> {
    nodes.dom().filter(|id: CharId| !rooted_walk(nodes).contains(id))
}

/// The order of all characters of a text.
pub open spec fn text_order(nodes: Map<CharId, CharNode>) -> Seq<CharId> {
    rooted_walk(nodes) + in_order(orphans(nodes))
}

/// Whether a bound on the depth cuts nothing off the walk.
pub open spec fn deep_enough(
    nodes: Map<CharId, CharNode>,
    ids: Seq<CharId>,
    depth: nat,
) -> bool
    decreases depth, ids.len(),
{
    ids.len() == 0 || {
        &&& depth > 0
        &&& deep_enough(nodes, children(nodes, ids[0]).reverse(), (depth - 1) as nat)
        &&& deep_enough(nodes, ids.drop_first(), depth)
    }
}

/// A larger bound changes nothing where a smaller one cuts nothing off.
pub proof fn lemma_deeper(
    nodes: Map<CharId, CharNode>,
    ids: Seq<CharId>,
    depth: nat,
    deeper: nat,
)
    requires
        deep_enough(nodes, ids, depth),
        depth <= deeper,
    ensures
        deep_enough(nodes, ids, deeper),
        walk(nodes, ids, depth) == walk(nodes, ids, deeper),
    decreases depth, ids.len(),
{
    if ids.len() > 0 {
        lemma_deeper(
            nodes,
            children(nodes, ids[0]).reverse(),
            (depth - 1) as nat,
            (deeper - 1) as nat,
        );
        lemma_deeper(nodes, ids.drop_first(), depth, deeper);
    }
}

/// The walk of two lists of trees is the one walk after the other.
pub proof fn lemma_walk_concat(
    nodes: Map<CharId, CharNode>,
    first: Seq<CharId>,
    second: Seq<CharId>,
    depth: nat,
)
    ensures
        walk(nodes, first + second, depth) == walk(nodes, first, depth) + walk(
            nodes,
            second,
            depth,
        ),
        deep_enough(nodes, first, depth) && deep_enough(nodes, second, depth) ==> deep_enough(
            nodes,
            first + second,
            depth,
        ),
    decreases first.len(),
{
    if first.len() == 0 {
        assert(first + second =~= second);
        assert(walk(nodes, first, depth) + walk(nodes, second, depth) =~= walk(
            nodes,
            second,
            depth,
        ));
    } else {
        assert((first + second).drop_first() =~= first.drop_first() + second);
        lemma_walk_concat(nodes, first.drop_first(), second, depth);
        assert(walk(nodes, first + second, depth) =~= walk(nodes, first, depth) + walk(
            nodes,
            second,
            depth,
        ));
    }
}

/// One step of a walk with a stack of pending trees: the id on top of the stack
/// is met, and its children take its place.
pub proof fn lemma_walk_step(
    nodes: Map<CharId, CharNode>,
    base: Seq<CharId>,
    id: CharId,
    depth: nat,
)
    requires
        deep_enough(nodes, base.push(id).reverse(), depth),
    ensures
        deep_enough(nodes, (base + children(nodes, id)).reverse(), depth),
        walk(nodes, base.push(id).reverse(), depth) == seq![id] + walk(
            nodes,
            (base + children(nodes, id)).reverse(),
            depth,
        ),
{
    let full = base.push(id).reverse();
    let below = children(nodes, id).reverse();
    assert(full[0] == id);
    assert(full.drop_first() =~= base.reverse());
    lemma_deeper(nodes, below, (depth - 1) as nat, depth);
    lemma_walk_concat(nodes, below, base.reverse(), depth);
    assert((base + children(nodes, id)).reverse() =~= below + base.reverse());
    assert(walk(nodes, full, depth) =~= seq![id] + walk(nodes, below + base.reverse(), depth));
}

/// The ids in a list of children are exactly the children.
pub proof fn lemma_children(nodes: Map<CharId, CharNode>, parent: CharId)
    requires
        nodes.dom().finite(),
    ensures
        ascending(children(nodes, parent)),
        children(nodes, parent).no_duplicates(),
        forall|id: CharId| #[trigger]
            children(nodes, parent).contains(id) <==> is_child(nodes, parent, id),
{
    let set = nodes.dom().filter(|id: CharId| is_child(nodes, parent, id));
    assert(set.subset_of(nodes.dom()));
    vstd::set_lib::lemma_set_subset_finite(nodes.dom(), set);
    in_order_is_ascending(set);
    assert forall|id: CharId| #[trigger]
        children(nodes, parent).contains(id) <==> is_child(nodes, parent, id) by {
        assert(in_order(set).to_set().contains(id) <==> set.contains(id));
    }
}

/// A path from the root: each id is a child of the one before it.
pub open spec fn is_path(nodes: Map<CharId, CharNode>, path: Seq<CharId>) -> bool {
    &&& path.len() > 0
    &&& path[0] == CharId::spec_root()
    &&& forall|i: int| 0 < i < path.len() ==> is_child(nodes, path[i - 1], #[trigger] path[i])
}

/// Only one path leads to an id.
pub proof fn lemma_path_unique(nodes: Map<CharId, CharNode>, a: Seq<CharId>, b: Seq<CharId>)
    requires
        is_path(nodes, a),
        is_path(nodes, b),
        a.last() == b.last(),
    ensures
        a == b,
    decreases a.len(),
{
    if a.len() == 1 {
        if b.len() > 1 {
            assert(is_child(nodes, b[b.len() - 2], b[b.len() - 1]));
        }
        assert(a =~= b);
    } else {
        assert(is_child(nodes, a[a.len() - 2], a[a.len() - 1]));
        if b.len() == 1 {
            assert(false);
        }
        assert(is_child(nodes, b[b.len() - 2], b[b.len() - 1]));
        let a0 = a.drop_last();
        let b0 = b.drop_last();
        assert forall|i: int| 0 < i < a0.len() implies is_child(
            nodes,
            a0[i - 1],
            #[trigger] a0[i],
        ) by {
            assert(is_child(nodes, a[i - 1], a[i]));
        }
        assert forall|i: int| 0 < i < b0.len() implies is_child(
            nodes,
            b0[i - 1],
            #[trigger] b0[i],
        ) by {
            assert(is_child(nodes, b[i - 1], b[i]));
        }
        lemma_path_unique(nodes, a0, b0);
        assert(a =~= a0.push(a.last()));
        assert(b =~= b0.push(b.last()));
    }
}

/// A path never meets an id twice, and is no longer than there are nodes.
pub proof fn lemma_path_simple(nodes: Map<CharId, CharNode>, path: Seq<CharId>)
    requires
        nodes.dom().finite(),
        nodes.contains_key(CharId::spec_root()),
        is_path(nodes, path),
    ensures
        path.no_duplicates(),
        path.len() <= nodes.dom().len(),
        forall|i: int| 0 <= i < path.len() ==> nodes.contains_key(#[trigger] path[i]),
{
    assert forall|i: int, j: int| 0 <= i < j < path.len() implies path[i] != path[j] by {
        if path[i] == path[j] {
            let a = path.take(i + 1);
            let b = path.take(j + 1);
            assert forall|k: int| 0 < k < a.len() implies is_child(
                nodes,
                a[k - 1],
                #[trigger] a[k],
            ) by {
                assert(is_child(nodes, path[k - 1], path[k]));
            }
            assert forall|k: int| 0 < k < b.len() implies is_child(
                nodes,
                b[k - 1],
                #[trigger] b[k],
            ) by {
                assert(is_child(nodes, path[k - 1], path[k]));
            }
            lemma_path_unique(nodes, a, b);
            assert(a.len() == b.len());
        }
    }
    assert forall|i: int| 0 <= i < path.len() implies nodes.contains_key(#[trigger] path[i]) by {
        if i > 0 {
            assert(is_child(nodes, path[i - 1], path[i]));
        }
    }
    path.unique_seq_to_set();
    assert(path.to_set().subset_of(nodes.dom()));
    vstd::set_lib::lemma_len_subset(path.to_set(), nodes.dom());
}

/// The walk below a path is deep enough if it has a level for each node that is
/// not on the path.
pub proof fn lemma_depth_suffices(
    nodes: Map<CharId, CharNode>,
    path: Seq<CharId>,
    ids: Seq<CharId>,
    depth: nat,
)
    requires
        nodes.dom().finite(),
        nodes.contains_key(CharId::spec_root()),
        is_path(nodes, path),
        forall|i: int| 0 <= i < ids.len() ==> is_child(nodes, path.last(), #[trigger] ids[i]),
        depth + path.len() >= nodes.dom().len(),
    ensures
        deep_enough(nodes, ids, depth),
    decreases depth, ids.len(),
{
    if ids.len() > 0 {
        let longer = path.push(ids[0]);
        assert(is_child(nodes, path.last(), ids[0]));
        assert forall|i: int| 0 < i < longer.len() implies is_child(
            nodes,
            longer[i - 1],
            #[trigger] longer[i],
        ) by {
            if i < path.len() {
                assert(is_child(nodes, path[i - 1], path[i]));
            }
        }
        lemma_path_simple(nodes, longer);
        assert(depth > 0);
        let below = children(nodes, ids[0]).reverse();
        lemma_children(nodes, ids[0]);
        assert forall|i: int| 0 <= i < below.len() implies is_child(
            nodes,
            longer.last(),
            #[trigger] below[i],
        ) by {
            let up = children(nodes, ids[0]);
            assert(below[i] == up[up.len() - 1 - i]);
            assert(up.contains(below[i]));
        }
        lemma_depth_suffices(nodes, longer, below, (depth - 1) as nat);
        let rest = ids.drop_first();
        assert forall|i: int| 0 <= i < rest.len() implies is_child(
            nodes,
            path.last(),
            #[trigger] rest[i],
        ) by {
            assert(is_child(nodes, path.last(), ids[i + 1]));
        }
        lemma_depth_suffices(nodes, path, rest, depth);
    }
}

/// The walk from the root is deep enough.
pub proof fn lemma_root_depth(nodes: Map<CharId, CharNode>)
    requires
        nodes.dom().finite(),
        nodes.contains_key(CharId::spec_root()),
    ensures
        deep_enough(nodes, seq![CharId::spec_root()], nodes.dom().len()),
{
    let root = CharId::spec_root();
    let path = seq![root];
    let n = nodes.dom().len();
    assert(n > 0) by {
        if n == 0 {
            assert(nodes.dom() =~= Set::empty());
        }
    }
    let below = children(nodes, root).reverse();
    lemma_children(nodes, root);
    assert forall|i: int| 0 <= i < below.len() implies is_child(
        nodes,
        path.last(),
        #[trigger] below[i],
    ) by {
        let up = children(nodes, root);
        assert(below[i] == up[up.len() - 1 - i]);
        assert(up.contains(below[i]));
    }
    lemma_depth_suffices(nodes, path, below, (n - 1) as nat);
    assert(path.drop_first() =~= Seq::empty());
    assert(deep_enough(nodes, path.drop_first(), n));
    assert(path[0] == root);
}

/// Whether a path goes on from another through one of some ids.
pub open spec fn goes_on(path: Seq<CharId>, from: Seq<CharId>, ids: Seq<CharId>) -> bool {
    &&& path.len() > from.len()
    &&& path.take(from.len() as int) == from
    &&& ids.contains(path[from.len() as int])
}

/// Each id that the walk below a path meets has a path of its own, which goes on
/// from that path.
pub proof fn lemma_walk_member(
    nodes: Map<CharId, CharNode>,
    path: Seq<CharId>,
    ids: Seq<CharId>,
    depth: nat,
    id: CharId,
) -> (to: Seq<CharId>)
    requires
        nodes.dom().finite(),
        is_path(nodes, path),
        forall|i: int| 0 <= i < ids.len() ==> is_child(nodes, path.last(), #[trigger] ids[i]),
        walk(nodes, ids, depth).contains(id),
    ensures
        is_path(nodes, to),
        to.last() == id,
        goes_on(to, path, ids),
    decreases depth, ids.len(),
{
    let below = children(nodes, ids[0]).reverse();
    let rest = ids.drop_first();
    let inner = walk(nodes, below, (depth - 1) as nat);
    let others = walk(nodes, rest, depth);
    let longer = path.push(ids[0]);
    let at = choose|i: int| 0 <= i < walk(nodes, ids, depth).len() && walk(nodes, ids, depth)[i] == id;
    assert(walk(nodes, ids, depth) == seq![ids[0]] + inner + others);
    assert forall|i: int| 0 < i < longer.len() implies is_child(
        nodes,
        longer[i - 1],
        #[trigger] longer[i],
    ) by {
        if i < path.len() {
            assert(is_child(nodes, path[i - 1], path[i]));
        } else {
            assert(is_child(nodes, path.last(), ids[0]));
        }
    }
    if at == 0 {
        assert(longer.take(path.len() as int) =~= path);
        longer
    } else if at < 1 + inner.len() {
        assert(inner[at - 1] == id);
        lemma_children(nodes, ids[0]);
        assert forall|i: int| 0 <= i < below.len() implies is_child(
            nodes,
            longer.last(),
            #[trigger] below[i],
        ) by {
            let up = children(nodes, ids[0]);
            assert(below[i] == up[up.len() - 1 - i]);
            assert(up.contains(below[i]));
        }
        let to = lemma_walk_member(nodes, longer, below, (depth - 1) as nat, id);
        assert(to.take(path.len() as int) =~= longer.take(path.len() as int));
        assert(longer.take(path.len() as int) =~= path);
        assert(to[path.len() as int] == to.take(longer.len() as int)[path.len() as int]);
        assert(ids.contains(ids[0]));
        to
    } else {
        assert(others[at - 1 - inner.len()] == id);
        assert forall|i: int| 0 <= i < rest.len() implies is_child(
            nodes,
            path.last(),
            #[trigger] rest[i],
        ) by {
            assert(is_child(nodes, path.last(), ids[i + 1]));
        }
        let to = lemma_walk_member(nodes, path, rest, depth, id);
        let k = choose|k: int| 0 <= k < rest.len() && rest[k] == to[path.len() as int];
        assert(ids[k + 1] == to[path.len() as int]);
        to
    }
}

/// The walk below a path meets no id twice.
pub proof fn lemma_walk_unique(
    nodes: Map<CharId, CharNode>,
    path: Seq<CharId>,
    ids: Seq<CharId>,
    depth: nat,
)
    requires
        nodes.dom().finite(),
        is_path(nodes, path),
        ids.no_duplicates(),
        forall|i: int| 0 <= i < ids.len() ==> is_child(nodes, path.last(), #[trigger] ids[i]),
    ensures
        walk(nodes, ids, depth).no_duplicates(),
    decreases depth, ids.len(),
{
    if depth > 0 && ids.len() > 0 {
        let below = children(nodes, ids[0]).reverse();
        let rest = ids.drop_first();
        let inner = walk(nodes, below, (depth - 1) as nat);
        let others = walk(nodes, rest, depth);
        let longer = path.push(ids[0]);
        let all = seq![ids[0]] + inner + others;
        assert(walk(nodes, ids, depth) == all);
        assert forall|i: int| 0 < i < longer.len() implies is_child(
            nodes,
            longer[i - 1],
            #[trigger] longer[i],
        ) by {
            if i < path.len() {
                assert(is_child(nodes, path[i - 1], path[i]));
            } else {
                assert(is_child(nodes, path.last(), ids[0]));
            }
        }
        lemma_children(nodes, ids[0]);
        let up = children(nodes, ids[0]);
        assert forall|i: int| 0 <= i < below.len() implies is_child(
            nodes,
            longer.last(),
            #[trigger] below[i],
        ) by {
            assert(below[i] == up[up.len() - 1 - i]);
            assert(up.contains(below[i]));
        }
        assert(below.no_duplicates()) by {
            assert forall|i: int, j: int| 0 <= i < j < below.len() implies below[i] != below[j] by {
                assert(below[i] == up[up.len() - 1 - i]);
                assert(below[j] == up[up.len() - 1 - j]);
            }
        }
        lemma_walk_unique(nodes, longer, below, (depth - 1) as nat);
        assert forall|i: int| 0 <= i < rest.len() implies is_child(
            nodes,
            path.last(),
            #[trigger] rest[i],
        ) by {
            assert(is_child(nodes, path.last(), ids[i + 1]));
        }
        lemma_walk_unique(nodes, path, rest, depth);
        assert forall|i: int, j: int| 0 <= i < j < all.len() implies all[i] != all[j] by {
            if all[i] == all[j] {
                let x = all[i];
                if j < 1 + inner.len() {
                    if i == 0 {
                        assert(inner[j - 1] == x);
                        let to = lemma_walk_member(nodes, longer, below, (depth - 1) as nat, x);
                        lemma_path_unique(nodes, longer, to);
                    } else {
                        assert(inner[i - 1] == inner[j - 1]);
                    }
                } else {
                    assert(others[j - 1 - inner.len()] == x);
                    let there = lemma_walk_member(nodes, path, rest, depth, x);
                    let here = if i == 0 {
                        longer
                    } else if i < 1 + inner.len() {
                        assert(inner[i - 1] == x);
                        lemma_walk_member(nodes, longer, below, (depth - 1) as nat, x)
                    } else {
                        longer
                    };
                    if i < 1 + inner.len() {
                        lemma_path_unique(nodes, here, there);
                        assert(here.take(longer.len() as int) =~= longer);
                        assert(here[path.len() as int] == here.take(
                            longer.len() as int,
                        )[path.len() as int]);
                        assert(here[path.len() as int] == ids[0]);
                        let k = choose|k: int|
                            0 <= k < rest.len() && rest[k] == there[path.len() as int];
                        assert(ids[k + 1] == ids[0]);
                    } else {
                        assert(others[i - 1 - inner.len()] == x);
                    }
                }
            }
        }
    }
}

/// The walk from the root begins with the root, meets no id twice and meets only
/// ids of nodes.
pub proof fn rooted_walk_is_simple(nodes: Map<CharId, CharNode>)
    requires
        nodes.dom().finite(),
        nodes.contains_key(CharId::spec_root()),
    ensures
        rooted_walk(nodes).len() > 0,
        rooted_walk(nodes)[0] == CharId::spec_root(),
        rooted_walk(nodes).no_duplicates(),
        forall|id: CharId| #[trigger]
            rooted_walk(nodes).contains(id) ==> nodes.contains_key(id) && (id.nil() ==> id
                == CharId::spec_root()),
{
    let root = CharId::spec_root();
    let path = seq![root];
    let n = nodes.dom().len();
    lemma_root_depth(nodes);
    let up = children(nodes, root);
    let below = up.reverse();
    let inner = walk(nodes, below, (n - 1) as nat);
    assert(path.drop_first() =~= Seq::empty());
    assert(walk(nodes, path.drop_first(), n) =~= Seq::empty());
    assert(path[0] == root);
    let all = rooted_walk(nodes);
    assert(all =~= seq![root] + inner);
    lemma_children(nodes, root);
    assert forall|i: int| 0 <= i < below.len() implies is_child(
        nodes,
        path.last(),
        #[trigger] below[i],
    ) by {
        assert(below[i] == up[up.len() - 1 - i]);
        assert(up.contains(below[i]));
    }
    assert(below.no_duplicates()) by {
        assert forall|i: int, j: int| 0 <= i < j < below.len() implies below[i] != below[j] by {
            assert(below[i] == up[up.len() - 1 - i]);
            assert(below[j] == up[up.len() - 1 - j]);
        }
    }
    lemma_walk_unique(nodes, path, below, (n - 1) as nat);
    assert forall|x: CharId| #[trigger] inner.contains(x) implies nodes.contains_key(x)
        && !x.nil() by {
        let to = lemma_walk_member(nodes, path, below, (n - 1) as nat, x);
        assert(is_child(nodes, to[to.len() - 2], to[to.len() - 1]));
    }
    assert forall|i: int, j: int| 0 <= i < j < all.len() implies all[i] != all[j] by {
        assert(inner[j - 1] == all[j]);
        assert(inner.contains(inner[j - 1]));
        if i > 0 {
            assert(inner[i - 1] == all[i]);
        }
    }
    assert forall|id: CharId| #[trigger] all.contains(id) implies nodes.contains_key(id) && (
    id.nil() ==> id == root) by {
        let i = choose|i: int| 0 <= i < all.len() && all[i] == id;
        if i > 0 {
            assert(inner[i - 1] == id);
            assert(inner.contains(id));
        }
    }
}

/// The text order begins with the root and holds the id of every node exactly
/// once: nothing is dropped and nothing is repeated.
pub proof fn text_order_is_complete(nodes: Map<CharId, CharNode>)
    requires
        nodes.dom().finite(),
        nodes.contains_key(CharId::spec_root()),
    ensures
        text_order(nodes).len() == nodes.dom().len(),
        text_order(nodes)[0] == CharId::spec_root(),
        text_order(nodes).no_duplicates(),
        text_order(nodes).to_set() == nodes.dom(),
{
    rooted_walk_is_simple(nodes);
    let reached = rooted_walk(nodes);
    let lost = orphans(nodes);
    assert(lost.subset_of(nodes.dom()));
    vstd::set_lib::lemma_set_subset_finite(nodes.dom(), lost);
    in_order_is_ascending(lost);
    let tail = in_order(lost);
    let all = reached + tail;
    assert forall|i: int, j: int| 0 <= i < j < all.len() implies all[i] != all[j] by {
        if i < reached.len() && j >= reached.len() {
            assert(tail[j - reached.len()] == all[j]);
            assert(tail.to_set().contains(all[j]));
            assert(lost.contains(all[j]));
            assert(reached.contains(all[i]));
        } else if i >= reached.len() {
            assert(tail[i - reached.len()] == all[i]);
            assert(tail[j - reached.len()] == all[j]);
        }
    }
    assert(all.to_set() =~= nodes.dom()) by {
        assert forall|x: CharId| nodes.dom().contains(x) implies all.to_set().contains(x) by {
            if reached.contains(x) {
                let i = choose|i: int| 0 <= i < reached.len() && reached[i] == x;
                assert(all[i] == x);
            } else {
                assert(lost.contains(x));
                assert(tail.to_set().contains(x));
                let i = choose|i: int| 0 <= i < tail.len() && tail[i] == x;
                assert(all[reached.len() + i] == x);
            }
        }
        assert forall|x: CharId| all.to_set().contains(x) implies nodes.dom().contains(x) by {
            let i = choose|i: int| 0 <= i < all.len() && all[i] == x;
            if i < reached.len() {
                assert(reached.contains(x));
            } else {
                assert(tail[i - reached.len()] == x);
                assert(tail.to_set().contains(x));
            }
        }
    }
    all.unique_seq_to_set();
}

} // verus!

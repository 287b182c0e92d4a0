//! Merging keeps the order of the characters that a replica already holds.

use crate::text::id_table::ascending;
use crate::text::merge_laws::{agree, merge_is_sound, settled_is_placed};
use crate::text::model::TextState;
use crate::text::node::{CharId, CharNode};
use crate::text::order::{
    ascending_is_in_order, children, is_child, lemma_children, lemma_deeper,
    lemma_path_simple, lemma_root_depth, text_order, walk,
};
use crate::text::order_laws::{
    lemma_path_to, lemma_rooted_order, lemma_rooted_uuids, merge_keeps_rooted, rooted,
};
use vstd::prelude::*;

verus! {

/// Whether some nodes are part of others: all of them are there, behind the same anchors.
pub open spec fn part_of(some: Map<CharId, CharNode>, all: Map<CharId, CharNode>) -> bool {
    forall|id: CharId| #[trigger]
        some.contains_key(id) ==> all.contains_key(id) && (!id.nil() ==> all[id].after
            == some[id].after)
}

/// Whether the anchor of each of some nodes is one of them.
pub open spec fn anchors_held(some: Map<CharId, CharNode>) -> bool {
    forall|id: CharId| #[trigger]
        some.contains_key(id) && !id.nil() ==> some.contains_key(some[id].after)
}

/// The ids of a sequence that some nodes hold, in the order of the sequence.
pub open spec fn held(some: Map<CharId, CharNode>, ids: Seq<CharId>) -> Seq<CharId> {
    ids.filter(|id: CharId| some.contains_key(id))
}

/// What is held of a sequence, by its first id and the rest.
proof fn lemma_held_head(some: Map<CharId, CharNode>, ids: Seq<CharId>)
    requires
        ids.len() > 0,
    ensures
        held(some, ids) == if some.contains_key(ids[0]) {
            seq![ids[0]] + held(some, ids.drop_first())
        } else {
            held(some, ids.drop_first())
        },
{
    let one = seq![ids[0]];
    let test = |id: CharId| some.contains_key(id);
    assert(ids =~= one + ids.drop_first());
    Seq::filter_distributes_over_add(one, ids.drop_first(), test);
    reveal(Seq::filter);
    assert(one.drop_last() =~= Seq::empty());
    assert(one.drop_last().filter(test) =~= Seq::empty());
    if some.contains_key(ids[0]) {
        assert(one.filter(test) =~= one);
    } else {
        assert(one.filter(test) =~= Seq::empty());
        assert(Seq::<CharId>::empty() + held(some, ids.drop_first()) =~= held(
            some,
            ids.drop_first(),
        ));
    }
}

/// What is held of three sequences one after the other.
proof fn lemma_held_concat(
    some: Map<CharId, CharNode>,
    first: Seq<CharId>,
    second: Seq<CharId>,
    third: Seq<CharId>,
)
    ensures
        held(some, first + second + third) == held(some, first) + held(some, second) + held(
            some,
            third,
        ),
{
    let test = |id: CharId| some.contains_key(id);
    Seq::filter_distributes_over_add(first + second, third, test);
    Seq::filter_distributes_over_add(first, second, test);
}

/// What is held of an ascending sequence is ascending, and holds what it should.
proof fn lemma_held_ascending(some: Map<CharId, CharNode>, ids: Seq<CharId>)
    requires
        ascending(ids),
    ensures
        ascending(held(some, ids)),
        forall|id: CharId| #[trigger]
            held(some, ids).contains(id) <==> ids.contains(id) && some.contains_key(id),
    decreases ids.len(),
{
    reveal(Seq::filter);
    if ids.len() > 0 {
        let front = ids.drop_last();
        let last = ids.last();
        let kept = held(some, front);
        let all = held(some, ids);
        assert forall|i: int, j: int| 0 <= i < j < front.len() implies (#[trigger] front[i]).before(
            #[trigger] front[j],
        ) by {
            assert(ids[i].before(ids[j]));
        }
        lemma_held_ascending(some, front);
        assert forall|id: CharId| #[trigger] ids.contains(id) <==> front.contains(id) || id
            == last by {
            if ids.contains(id) {
                let k = choose|k: int| 0 <= k < ids.len() && ids[k] == id;
                if k < front.len() {
                    assert(front[k] == id);
                }
            }
            if front.contains(id) {
                let k = choose|k: int| 0 <= k < front.len() && front[k] == id;
                assert(ids[k] == id);
            }
            if id == last {
                assert(ids[ids.len() - 1] == id);
            }
        }
        if some.contains_key(last) {
            assert(all == kept.push(last));
            assert forall|id: CharId| #[trigger] all.contains(id) <==> kept.contains(id) || id
                == last by {
                if all.contains(id) {
                    let k = choose|k: int| 0 <= k < all.len() && all[k] == id;
                    if k < kept.len() {
                        assert(kept[k] == id);
                    }
                }
                if kept.contains(id) {
                    let k = choose|k: int| 0 <= k < kept.len() && kept[k] == id;
                    assert(all[k] == id);
                }
                if id == last {
                    assert(all[all.len() - 1] == id);
                }
            }
            assert forall|i: int, j: int| 0 <= i < j < all.len() implies (#[trigger] all[i]).before(
                #[trigger] all[j],
            ) by {
                if j < kept.len() {
                    assert(kept[i].before(kept[j]));
                } else {
                    assert(kept.contains(kept[i]));
                    let k = choose|k: int| 0 <= k < front.len() && front[k] == kept[i];
                    assert(ids[k].before(ids[ids.len() - 1]));
                }
            }
        }
    }
}

/// What is held of a reversed sequence is the reverse of what is held of it.
proof fn lemma_held_reverse(some: Map<CharId, CharNode>, ids: Seq<CharId>)
    ensures
        held(some, ids.reverse()) == held(some, ids).reverse(),
    decreases ids.len(),
{
    if ids.len() > 0 {
        let front = ids.drop_last();
        let last = ids.last();
        lemma_held_reverse(some, front);
        assert(ids.reverse()[0] == last);
        assert(ids.reverse().drop_first() =~= front.reverse());
        lemma_held_head(some, ids.reverse());
        reveal(Seq::filter);
        if some.contains_key(last) {
            assert(held(some, ids) == held(some, front).push(last));
            assert(held(some, ids).reverse() =~= seq![last] + held(some, front).reverse());
        } else {
            assert(held(some, ids) == held(some, front));
        }
    } else {
        reveal(Seq::filter);
        assert(ids.reverse() =~= ids);
        assert(held(some, ids).reverse() =~= held(some, ids));
    }
}

/// The children of a node among some nodes are those of its children that the nodes hold;
/// a node that they do not hold has none among them.
proof fn lemma_held_children(
    some: Map<CharId, CharNode>,
    all: Map<CharId, CharNode>,
    parent: CharId,
)
    requires
        some.dom().finite(),
        all.dom().finite(),
        part_of(some, all),
        anchors_held(some),
    ensures
        held(some, children(all, parent)) == children(some, parent),
        !some.contains_key(parent) ==> children(some, parent) == Seq::<CharId>::empty(),
{
    let kids = children(all, parent);
    let kept = held(some, kids);
    lemma_children(all, parent);
    lemma_children(some, parent);
    lemma_held_ascending(some, kids);
    let set = some.dom().filter(|id: CharId| is_child(some, parent, id));
    assert forall|id: CharId| kept.to_set().contains(id) <==> set.contains(id) by {
        assert(kept.contains(id) <==> kids.contains(id) && some.contains_key(id));
        assert(kids.contains(id) <==> is_child(all, parent, id));
    }
    assert(kept.to_set() =~= set);
    ascending_is_in_order(kept);
    if !some.contains_key(parent) && children(some, parent).len() > 0 {
        let id = children(some, parent)[0];
        assert(children(some, parent).contains(id));
        assert(is_child(some, parent, id));
    }
    if !some.contains_key(parent) {
        assert(children(some, parent) =~= Seq::empty());
    }
}

/// What is held of nothing, and of one id.
proof fn lemma_held_one(some: Map<CharId, CharNode>, id: CharId)
    ensures
        held(some, Seq::empty()) == Seq::<CharId>::empty(),
        held(some, seq![id]) == if some.contains_key(id) {
            seq![id]
        } else {
            Seq::empty()
        },
{
    reveal(Seq::filter);
    let one = seq![id];
    assert(held(some, Seq::empty()) =~= Seq::empty());
    assert(one.drop_last() =~= Seq::empty());
    if some.contains_key(id) {
        assert(held(some, one) =~= one);
    } else {
        assert(held(some, one) =~= Seq::empty());
    }
}

/// One step of a walk, with what some nodes hold of it.
proof fn lemma_held_step(
    some: Map<CharId, CharNode>,
    all: Map<CharId, CharNode>,
    ids: Seq<CharId>,
    depth: nat,
)
    requires
        depth > 0,
        ids.len() > 0,
        ({
            let d = (depth - 1) as nat;
            let inner = walk(all, children(all, ids[0]).reverse(), d);
            let others = walk(all, ids.drop_first(), depth);
            &&& held(some, inner) == walk(some, children(some, ids[0]).reverse(), d)
            &&& held(some, others) == walk(some, held(some, ids.drop_first()), depth)
        }),
        !some.contains_key(ids[0]) ==> children(some, ids[0]) == Seq::<CharId>::empty(),
    ensures
        held(some, walk(all, ids, depth)) == walk(some, held(some, ids), depth),
{
    let d = (depth - 1) as nat;
    let h = ids[0];
    let rest = ids.drop_first();
    let inner = walk(all, children(all, h).reverse(), d);
    let others = walk(all, rest, depth);
    assert(walk(all, ids, depth) == seq![h] + inner + others);
    lemma_held_concat(some, seq![h], inner, others);
    lemma_held_one(some, h);
    lemma_held_head(some, ids);
    let kept = held(some, ids);
    if some.contains_key(h) {
        assert(kept == seq![h] + held(some, rest));
        assert(kept[0] == h);
        assert(kept.drop_first() =~= held(some, rest));
        assert(walk(some, kept, depth) == seq![h] + walk(some, children(some, h).reverse(), d)
            + walk(some, held(some, rest), depth));
    } else {
        assert(children(some, h).reverse() =~= Seq::empty());
        assert(walk(some, children(some, h).reverse(), d) =~= Seq::empty());
        assert(Seq::<CharId>::empty() + Seq::<CharId>::empty() + held(some, others) =~= held(
            some,
            others,
        ));
    }
}

/// What some nodes hold of a walk is their own walk.
proof fn lemma_held_walk(
    some: Map<CharId, CharNode>,
    all: Map<CharId, CharNode>,
    ids: Seq<CharId>,
    depth: nat,
)
    requires
        some.dom().finite(),
        all.dom().finite(),
        part_of(some, all),
        anchors_held(some),
    ensures
        held(some, walk(all, ids, depth)) == walk(some, held(some, ids), depth),
    decreases depth, ids.len(),
{
    if depth == 0 || ids.len() == 0 {
        lemma_held_one(some, CharId::spec_root());
        assert(walk(all, ids, depth) =~= Seq::empty());
        if ids.len() == 0 {
            assert(ids =~= Seq::empty());
        }
        assert(walk(some, held(some, ids), depth) =~= Seq::empty());
    } else {
        let d = (depth - 1) as nat;
        let kids = children(all, ids[0]);
        lemma_held_walk(some, all, kids.reverse(), d);
        lemma_held_walk(some, all, ids.drop_first(), depth);
        lemma_held_children(some, all, ids[0]);
        lemma_held_reverse(some, kids);
        lemma_held_step(some, all, ids, depth);
    }
}

/// Where some nodes are part of others, and all are reached from the root, the text order
/// of all keeps the text order of the part.
pub proof fn order_of_a_part_is_kept(some: Map<CharId, CharNode>, all: Map<CharId, CharNode>)
    requires
        some.dom().finite(),
        all.dom().finite(),
        some.contains_key(CharId::spec_root()),
        part_of(some, all),
        rooted(some),
        rooted(all),
    ensures
        held(some, text_order(all)) == text_order(some),
{
    let root = CharId::spec_root();
    assert forall|id: CharId| #[trigger] some.contains_key(id) && !id.nil() implies
        some.contains_key(some[id].after) by {
        let path = lemma_path_to(some, id);
        lemma_path_simple(some, path);
        assert(is_child(some, path[path.len() - 2], path[path.len() - 1]));
        assert(some.contains_key(path[path.len() - 2]));
    }
    lemma_rooted_order(some);
    lemma_rooted_order(all);
    lemma_held_walk(some, all, seq![root], all.dom().len());
    lemma_held_one(some, root);
    assert(some.dom().subset_of(all.dom()));
    vstd::set_lib::lemma_len_subset(some.dom(), all.dom());
    lemma_root_depth(some);
    lemma_deeper(some, seq![root], some.dom().len(), all.dom().len());
}

/// Where two of the held ids stand in the sequence: in the same order.
proof fn lemma_held_places(some: Map<CharId, CharNode>, ids: Seq<CharId>, i: int, j: int) -> (to: (
    int,
    int,
))
    requires
        0 <= i < j < held(some, ids).len(),
    ensures
        0 <= to.0 < to.1 < ids.len(),
        ids[to.0] == held(some, ids)[i],
        ids[to.1] == held(some, ids)[j],
    decreases ids.len(),
{
    reveal(Seq::filter);
    let front = ids.drop_last();
    let kept = held(some, front);
    if j < kept.len() {
        lemma_held_places(some, front, i, j)
    } else {
        assert(held(some, ids)[i] == kept[i]);
        let k = lemma_held_place(some, front, i);
        (k, ids.len() - 1)
    }
}

/// Where a held id stands in the sequence.
proof fn lemma_held_place(some: Map<CharId, CharNode>, ids: Seq<CharId>, i: int) -> (to: int)
    requires
        0 <= i < held(some, ids).len(),
    ensures
        0 <= to < ids.len(),
        ids[to] == held(some, ids)[i],
    decreases ids.len(),
{
    reveal(Seq::filter);
    let front = ids.drop_last();
    let kept = held(some, front);
    if i < kept.len() {
        lemma_held_place(some, front, i)
    } else {
        ids.len() - 1
    }
}

/// Whether a sequence holds two ids in an order.
pub open spec fn precedes(ids: Seq<CharId>, x: CharId, y: CharId) -> bool {
    exists|i: int, j: int|
        0 <= i < j < ids.len() && #[trigger] ids[i] == x && #[trigger] ids[j] == y
}

/// Whether one replica knows a character of which another knows only the deletion.
pub open spec fn fills_in(ours: TextState, theirs: TextState, id: CharId) -> bool {
    &&& ours.nodes.contains_key(id)
    &&& theirs.nodes.contains_key(id)
    &&& !id.nil()
    &&& ours.nodes[id].value is None
    &&& theirs.nodes[id].value is Some
}

/// A merge keeps the relative order of all characters that a replica already held: what
/// came before another on either side comes before it afterwards, and without what is new
/// the sequence is the one that was there.
///
/// It holds for orderly texts that agree, on the side to which the other has nothing to
/// fill in: a character that is known only by its deletion stands at the beginning until
/// its place is known.
pub proof fn merge_keeps_relative_order(a: TextState, b: TextState, x: CharId, y: CharId)
    requires
        a.orderly(),
        b.orderly(),
        agree(a, b),
    ensures
        (forall|id: CharId| !fills_in(a, b, id)) ==> {
            &&& held(a.nodes, a.join(b).sequence) == a.sequence
            &&& precedes(a.sequence, x, y) ==> precedes(a.join(b).sequence, x, y)
        },
        (forall|id: CharId| !fills_in(b, a, id)) ==> {
            &&& held(b.nodes, a.join(b).sequence) == b.sequence
            &&& precedes(b.sequence, x, y) ==> precedes(a.join(b).sequence, x, y)
        },
        a.join(b).sequence.no_duplicates(),
{
    let joined = a.join(b);
    merge_is_sound(a, b);
    merge_keeps_rooted(a, b);
    settled_is_placed(joined);
    if forall|id: CharId| !fills_in(a, b, id) {
        assert forall|id: CharId| #[trigger] a.nodes.contains_key(id) implies
            joined.nodes.contains_key(id) && (!id.nil() ==> joined.nodes[id].after
            == a.nodes[id].after) by {
            assert(!fills_in(a, b, id));
        }
        order_of_a_part_is_kept(a.nodes, joined.nodes);
        lemma_order_follows(a.nodes, joined.sequence, x, y);
    }
    if forall|id: CharId| !fills_in(b, a, id) {
        lemma_rooted_uuids(b.nodes);
        assert forall|id: CharId| #[trigger] b.nodes.contains_key(id) implies
            joined.nodes.contains_key(id) && (!id.nil() ==> joined.nodes[id].after
            == b.nodes[id].after) by {
            assert(!fills_in(b, a, id));
        }
        order_of_a_part_is_kept(b.nodes, joined.nodes);
        lemma_order_follows(b.nodes, joined.sequence, x, y);
    }
}

/// Two held ids stand in the sequence as they stand among the held ones.
proof fn lemma_order_follows(some: Map<CharId, CharNode>, ids: Seq<CharId>, x: CharId, y: CharId)
    ensures
        precedes(held(some, ids), x, y) ==> precedes(ids, x, y),
{
    let kept = held(some, ids);
    if precedes(kept, x, y) {
        let (i, j) = choose|i: int, j: int|
            0 <= i < j < kept.len() && #[trigger] kept[i] == x && #[trigger] kept[j] == y;
        let to = lemma_held_places(some, ids, i, j);
        assert(ids[to.0] == x && ids[to.1] == y);
    }
}

} // verus!

//! What edits do to the visible text.

use crate::clock::LogicalClock;
use crate::ident::Uuid;
use crate::text::model::{
    chars_of, index_or_zero, insert_index, past_later_siblings, run_after, run_nodes, shows,
    visible_ids, TextState,
};
use crate::text::node::{CharId, CharNode};
use vstd::prelude::*;

verus! {

/// The visible ids of a concatenation are those of its parts.
pub proof fn lemma_visible_concat(
    nodes: Map<CharId, CharNode>,
    first: Seq<CharId>,
    second: Seq<CharId>,
)
    ensures
        visible_ids(nodes, first + second) == visible_ids(nodes, first) + visible_ids(
            nodes,
            second,
        ),
    decreases second.len(),
{
    if second.len() == 0 {
        assert(first + second =~= first);
        assert(visible_ids(nodes, first) + visible_ids(nodes, second) =~= visible_ids(
            nodes,
            first,
        ));
    } else {
        assert((first + second).drop_last() =~= first + second.drop_last());
        lemma_visible_concat(nodes, first, second.drop_last());
        assert(visible_ids(nodes, first + second) =~= visible_ids(nodes, first) + visible_ids(
            nodes,
            second,
        ));
    }
}

/// The visible ids depend only on what the nodes of the sequence show.
pub proof fn lemma_visible_same(
    before: Map<CharId, CharNode>,
    after: Map<CharId, CharNode>,
    ids: Seq<CharId>,
)
    requires
        forall|i: int| 0 <= i < ids.len() ==> shows(before, #[trigger] ids[i]) == shows(after, ids[i]),
    ensures
        visible_ids(before, ids) == visible_ids(after, ids),
    decreases ids.len(),
{
    if ids.len() > 0 {
        let front = ids.drop_last();
        assert forall|i: int| 0 <= i < front.len() implies shows(before, #[trigger] front[i])
            == shows(after, front[i]) by {
            assert(front[i] == ids[i]);
        }
        assert(ids[ids.len() - 1] == ids.last());
        lemma_visible_same(before, after, front);
    }
}

/// Each visible id stands in the sequence and shows a character.
pub proof fn lemma_visible_member(nodes: Map<CharId, CharNode>, ids: Seq<CharId>, k: int)
    requires
        0 <= k < visible_ids(nodes, ids).len(),
    ensures
        shows(nodes, visible_ids(nodes, ids)[k]),
        ids.contains(visible_ids(nodes, ids)[k]),
    decreases ids.len(),
{
    let front = visible_ids(nodes, ids.drop_last());
    if k < front.len() {
        lemma_visible_member(nodes, ids.drop_last(), k);
        let id = visible_ids(nodes, ids)[k];
        assert(id == front[k]);
        let i = choose|i: int| 0 <= i < ids.drop_last().len() && ids.drop_last()[i] == id;
        assert(ids[i] == id);
    } else {
        assert(ids[ids.len() - 1] == visible_ids(nodes, ids)[k]);
    }
}

/// Where the visible id of a given rank stands in the sequence.
pub proof fn lemma_visible_rank(nodes: Map<CharId, CharNode>, ids: Seq<CharId>, k: int) -> (i: int)
    requires
        0 <= k < visible_ids(nodes, ids).len(),
    ensures
        0 <= i < ids.len(),
        ids[i] == visible_ids(nodes, ids)[k],
        visible_ids(nodes, ids.take(i)) == visible_ids(nodes, ids).take(k),
        visible_ids(nodes, ids.skip(i + 1)) == visible_ids(nodes, ids).skip(k + 1),
        shows(nodes, ids[i]),
    decreases ids.len(),
{
    let front = ids.drop_last();
    let shown = visible_ids(nodes, ids);
    let front_shown = visible_ids(nodes, front);
    if k < front_shown.len() {
        let i = lemma_visible_rank(nodes, front, k);
        assert(ids.take(i) =~= front.take(i));
        assert(shown.take(k) =~= front_shown.take(k));
        assert(ids.skip(i + 1) =~= front.skip(i + 1).push(ids.last()));
        assert(ids.skip(i + 1).drop_last() =~= front.skip(i + 1));
        assert(shown.skip(k + 1) =~= visible_ids(nodes, ids.skip(i + 1)));
        i
    } else {
        let i = ids.len() - 1;
        assert(ids.take(i) =~= front);
        assert(shown.take(k) =~= front_shown);
        assert(ids.skip(i + 1) =~= Seq::empty());
        assert(shown.skip(k + 1) =~= Seq::empty());
        i
    }
}

/// A run of new characters changes no other node, and its own nodes are those of
/// its characters.
pub proof fn lemma_run_nodes(
    nodes: Map<CharId, CharNode>,
    ids: Seq<CharId>,
    text: Seq<char>,
    anchor: CharId,
    count: nat,
)
    requires
        ids.no_duplicates(),
        count <= ids.len(),
        ids.len() == text.len(),
    ensures
        forall|id: CharId|
            !ids.take(count as int).contains(id) ==> (#[trigger] run_nodes(
                nodes,
                ids,
                text,
                anchor,
                count,
            ).contains_key(id) == nodes.contains_key(id)),
        forall|id: CharId|
            !ids.take(count as int).contains(id) ==> #[trigger] run_nodes(
                nodes,
                ids,
                text,
                anchor,
                count,
            )[id] == nodes[id],
        forall|i: int|
            0 <= i < count ==> {
                &&& run_nodes(nodes, ids, text, anchor, count).contains_key(#[trigger] ids[i])
                &&& run_nodes(nodes, ids, text, anchor, count)[ids[i]] == CharNode::fresh(
                    ids[i],
                    text[i],
                    run_after(ids, anchor, i),
                )
            },
        nodes.dom().finite() ==> run_nodes(nodes, ids, text, anchor, count).dom().finite(),
    decreases count,
{
    if count > 0 {
        let last = count - 1;
        lemma_run_nodes(nodes, ids, text, anchor, last as nat);
        let before = run_nodes(nodes, ids, text, anchor, last as nat);
        let after = run_nodes(nodes, ids, text, anchor, count);
        assert forall|id: CharId| !ids.take(count as int).contains(id) implies !ids.take(
            last,
        ).contains(id) && id != ids[last] by {
            if ids.take(last).contains(id) {
                let k = choose|k: int| 0 <= k < last && ids.take(last)[k] == id;
                assert(ids.take(count as int)[k] == id);
            }
            if id == ids[last] {
                assert(ids.take(count as int)[last] == id);
            }
        }
        assert forall|i: int| 0 <= i < count implies {
            &&& after.contains_key(#[trigger] ids[i])
            &&& after[ids[i]] == CharNode::fresh(ids[i], text[i], run_after(ids, anchor, i))
        } by {
            if i < last {
                assert(ids[i] != ids[last]);
                assert(before.contains_key(ids[i]));
            }
        }
    }
}

/// The ids of a run differ from each other, and come after every character that the
/// clock has witnessed.
pub proof fn lemma_run_ids(state: TextState, uuids: Seq<Uuid>)
    requires
        state.clock.counter + uuids.len() <= u64::MAX,
    ensures
        state.new_ids(uuids).len() == uuids.len(),
        state.new_ids(uuids).no_duplicates(),
        forall|i: int|
            0 <= i < uuids.len() ==> {
                &&& (#[trigger] state.new_ids(uuids)[i]).timestamp == (LogicalClock {
                    counter: (state.clock.counter + 1 + i) as u64,
                    replica: state.clock.replica,
                })
                &&& state.new_ids(uuids)[i].timestamp.counter == state.clock.counter + 1 + i
                &&& state.new_ids(uuids)[i].uuid == uuids[i]
            },
        state.witnessed() ==> forall|i: int, id: CharId|
            #![trigger state.new_ids(uuids)[i], state.nodes.contains_key(id)]
            0 <= i < uuids.len() && state.nodes.contains_key(id) && state.nodes[id].value is Some
                ==> id.before(state.new_ids(uuids)[i]),
{
    let ids = state.new_ids(uuids);
    assert forall|i: int, j: int| 0 <= i < j < ids.len() implies ids[i] != ids[j] by {
        assert(ids[i].timestamp.counter == state.clock.counter + 1 + i);
        assert(ids[j].timestamp.counter == state.clock.counter + 1 + j);
    }
}

/// What is passed over on the way to where a new character is placed.
pub proof fn lemma_past(
    nodes: Map<CharId, CharNode>,
    ids: Seq<CharId>,
    anchor: CharId,
    new_id: CharId,
    from: int,
)
    requires
        0 <= from <= ids.len(),
    ensures
        ({
            let to = past_later_siblings(nodes, ids, anchor, new_id, from);
            &&& from <= to <= ids.len()
            &&& forall|k: int|
                from <= k < to ==> {
                    &&& nodes.contains_key(#[trigger] ids[k])
                    &&& nodes[ids[k]].after == anchor
                    &&& !ids[k].before(new_id)
                }
            &&& to < ids.len() ==> !(nodes.contains_key(ids[to]) && nodes[ids[to]].after == anchor
                && !ids[to].before(new_id))
        }),
    decreases ids.len() - from,
{
    if from < ids.len() && nodes.contains_key(ids[from]) && nodes[ids[from]].after == anchor
        && !ids[from].before(new_id) {
        lemma_past(nodes, ids, anchor, new_id, from + 1);
    }
}

/// Where nothing in a sequence shows a character, nothing is visible.
proof fn lemma_none_visible(nodes: Map<CharId, CharNode>, ids: Seq<CharId>)
    requires
        forall|i: int| 0 <= i < ids.len() ==> !shows(nodes, #[trigger] ids[i]),
    ensures
        visible_ids(nodes, ids) == Seq::<CharId>::empty(),
    decreases ids.len(),
{
    if ids.len() > 0 {
        let front = ids.drop_last();
        assert forall|i: int| 0 <= i < front.len() implies !shows(nodes, #[trigger] front[i]) by {
            assert(front[i] == ids[i]);
        }
        assert(!shows(nodes, ids[ids.len() - 1]));
        lemma_none_visible(nodes, front);
    }
}

/// Where the anchor of a position stands: behind it begins what comes after the position.
proof fn lemma_anchor_index(state: TextState, pos: nat) -> (base: int)
    requires
        state.wf(),
        state.placed(),
    ensures
        0 < base <= state.sequence.len(),
        state.sequence[base - 1] == state.anchor(pos),
        base == index_or_zero(state.sequence, state.anchor(pos)) + 1,
        visible_ids(state.nodes, state.sequence.take(base)).len() == if pos
            <= state.shown().len() {
            pos
        } else {
            state.shown().len()
        },
{
    let anchor = state.anchor(pos);
    let seq = state.sequence;
    let shown = state.shown();
    let rank = if pos <= shown.len() { pos as int } else { shown.len() as int };
    let base = if rank == 0 {
        assert(seq[0] == anchor);
        assert(seq.take(1).drop_last() =~= Seq::empty());
        assert(!shows(state.nodes, seq.take(1).last()));
        assert(visible_ids(state.nodes, seq.take(1).drop_last()).len() == 0);
        assert(visible_ids(state.nodes, seq.take(1)).len() == 0);
        1
    } else {
        let i = lemma_visible_rank(state.nodes, seq, rank - 1);
        assert(seq[i] == anchor);
        assert(seq.take(i + 1).drop_last() =~= seq.take(i));
        assert(seq.take(i + 1).last() == anchor);
        assert(visible_ids(state.nodes, seq.take(i)).len() == rank - 1);
        i + 1
    };
    seq.index_of_first_ensures(anchor);
    assert(seq.contains(seq[base - 1]));
    assert(index_or_zero(seq, anchor) == base - 1);
    base
}

/// Where a run is placed by a replica whose clock has witnessed every character whose
/// value is known: behind its anchor, or, at the beginning, behind deletions that came
/// before their characters.
pub proof fn lemma_run_index(state: TextState, pos: nat, text: Seq<char>, uuids: Seq<Uuid>) -> (at:
    int)
    requires
        state.wf(),
        state.placed(),
        state.witnessed(),
        state.fresh(uuids),
        uuids.len() == text.len(),
        text.len() > 0,
        state.clock.counter + text.len() <= u64::MAX,
    ensures
        0 < at <= state.sequence.len(),
        at == past_later_siblings(
            state.nodes,
            state.sequence,
            state.anchor(pos),
            state.new_ids(uuids)[0],
            index_or_zero(state.sequence, state.anchor(pos)) + 1,
        ),
        at == insert_index(
            run_nodes(state.nodes, state.new_ids(uuids), text, state.anchor(pos), 1),
            state.sequence,
            state.anchor(pos),
            state.new_ids(uuids)[0],
        ),
        state.sequence[at - 1] == state.anchor(pos) || state.anchor(pos) == CharId::spec_root(),
        state.sequence[index_or_zero(state.sequence, state.anchor(pos))] == state.anchor(pos),
        visible_ids(state.nodes, state.sequence.take(at)).len() == if pos <= state.shown().len() {
            pos
        } else {
            state.shown().len()
        },
{
    let ids = state.new_ids(uuids);
    let anchor = state.anchor(pos);
    let seq = state.sequence;
    let base = lemma_anchor_index(state, pos);
    let at = past_later_siblings(state.nodes, seq, anchor, ids[0], base);
    lemma_past(state.nodes, seq, anchor, ids[0], base);
    lemma_run_ids(state, uuids);
    lemma_run_nodes(state.nodes, ids, text, anchor, 1);
    let nodes = run_nodes(state.nodes, ids, text, anchor, 1);
    assert(ids.take(1) =~= seq![ids[0]]);
    assert forall|k: int| 0 <= k < seq.len() implies {
        &&& nodes.contains_key(#[trigger] seq[k])
        &&& nodes[seq[k]] == state.nodes[seq[k]]
    } by {
        assert(seq.to_set().contains(seq[k]));
        assert(seq[k] != ids[0]);
    }
    lemma_same_past(state.nodes, nodes, seq, anchor, ids[0], base);
    let passed = seq.subrange(base, at);
    assert forall|i: int| 0 <= i < passed.len() implies !shows(
        state.nodes,
        #[trigger] passed[i],
    ) by {
        assert(passed[i] == seq[base + i]);
        assert(!seq[base + i].before(ids[0]));
    }
    lemma_none_visible(state.nodes, passed);
    lemma_visible_concat(state.nodes, seq.take(base), passed);
    assert(seq.take(at) =~= seq.take(base) + passed);
    if at > base {
        let id = seq[base];
        assert(state.nodes.contains_key(id) && !id.before(ids[0]));
        assert(id != CharId::spec_root()) by {
            assert(seq[0] == CharId::spec_root());
        }
        assert(state.nodes[id] == CharNode::placeholder(id));
    }
    at
}

/// What is passed over depends only on the nodes of the sequence.
proof fn lemma_same_past(
    a: Map<CharId, CharNode>,
    b: Map<CharId, CharNode>,
    ids: Seq<CharId>,
    anchor: CharId,
    new_id: CharId,
    from: int,
)
    requires
        0 <= from <= ids.len(),
        forall|k: int|
            0 <= k < ids.len() ==> {
                &&& a.contains_key(ids[k])
                &&& b.contains_key(#[trigger] ids[k])
                &&& b[ids[k]] == a[ids[k]]
            },
    ensures
        past_later_siblings(a, ids, anchor, new_id, from) == past_later_siblings(
            b,
            ids,
            anchor,
            new_id,
            from,
        ),
    decreases ids.len() - from,
{
    if from < ids.len() {
        assert(b.contains_key(ids[from]));
        lemma_same_past(a, b, ids, anchor, new_id, from + 1);
    }
}

/// What a run leaves and what it adds.
proof fn lemma_run_parts(state: TextState, pos: nat, text: Seq<char>, uuids: Seq<Uuid>) -> (at: int)
    requires
        state.wf(),
        state.placed(),
        state.witnessed(),
        state.fresh(uuids),
        uuids.len() == text.len(),
        text.len() > 0,
        state.clock.counter + text.len() <= u64::MAX,
    ensures
        0 < at <= state.sequence.len(),
        visible_ids(state.nodes, state.sequence.take(at)).len() == if pos <= state.shown().len() {
            pos
        } else {
            state.shown().len()
        },
        state.inserted(pos, text, uuids).sequence == state.sequence.take(at) + state.new_ids(uuids)
            + state.sequence.skip(at),
        forall|i: int|
            0 <= i < state.sequence.len() ==> {
                &&& state.nodes.contains_key(#[trigger] state.sequence[i])
                &&& !state.new_ids(uuids).contains(state.sequence[i])
            },
        forall|id: CharId| #[trigger]
            state.nodes.contains_key(id) ==> {
                &&& !state.new_ids(uuids).contains(id)
                &&& state.inserted(pos, text, uuids).nodes.contains_key(id)
                &&& state.inserted(pos, text, uuids).nodes[id] == state.nodes[id]
            },
        forall|id: CharId| #[trigger]
            state.inserted(pos, text, uuids).nodes.contains_key(id) ==> state.nodes.contains_key(
                id,
            ) || state.new_ids(uuids).contains(id),
        forall|i: int|
            0 <= i < text.len() ==> {
                &&& state.inserted(pos, text, uuids).nodes.contains_key(
                    #[trigger] state.new_ids(uuids)[i],
                )
                &&& state.inserted(pos, text, uuids).nodes[state.new_ids(uuids)[i]]
                    == CharNode::fresh(
                    state.new_ids(uuids)[i],
                    text[i],
                    run_after(state.new_ids(uuids), state.anchor(pos), i),
                )
            },
{
    let ids = state.new_ids(uuids);
    let at = lemma_run_index(state, pos, text, uuids);
    lemma_run_ids(state, uuids);
    lemma_run_nodes(state.nodes, ids, text, state.anchor(pos), text.len());
    assert(ids.take(text.len() as int) =~= ids);
    assert forall|id: CharId| #[trigger] state.nodes.contains_key(id) implies !ids.contains(id) by {
        if ids.contains(id) {
            let k = choose|k: int| 0 <= k < ids.len() && ids[k] == id;
            assert(!state.nodes.contains_key(ids[k]));
        }
    }
    assert forall|i: int| 0 <= i < state.sequence.len() implies {
        &&& state.nodes.contains_key(#[trigger] state.sequence[i])
        &&& !ids.contains(state.sequence[i])
    } by {
        assert(state.sequence.to_set().contains(state.sequence[i]));
    }
    at
}

/// A sequence with a run of other ids put into it has no duplicates, and holds both.
proof fn lemma_run_sequence(seq: Seq<CharId>, ids: Seq<CharId>, at: int)
    requires
        seq.no_duplicates(),
        ids.no_duplicates(),
        0 <= at <= seq.len(),
        forall|i: int| 0 <= i < seq.len() ==> !ids.contains(#[trigger] seq[i]),
    ensures
        (seq.take(at) + ids + seq.skip(at)).no_duplicates(),
        (seq.take(at) + ids + seq.skip(at)).to_set() == seq.to_set().union(ids.to_set()),
{
    let all = seq.take(at) + ids + seq.skip(at);
    let len = ids.len() as int;
    assert forall|i: int, j: int| 0 <= i < j < all.len() implies all[i] != all[j] by {
        let i_new = at <= i < at + len;
        let j_new = at <= j < at + len;
        let i_old = if i < at { i } else { i - len };
        let j_old = if j < at { j } else { j - len };
        if i_new {
            assert(all[i] == ids[i - at]);
            assert(ids.contains(all[i]));
        } else {
            assert(all[i] == seq[i_old]);
        }
        if j_new {
            assert(all[j] == ids[j - at]);
            assert(ids.contains(all[j]));
        } else {
            assert(all[j] == seq[j_old]);
        }
    }
    assert forall|x: CharId| all.to_set().contains(x) <==> seq.to_set().union(
        ids.to_set(),
    ).contains(x) by {
        if all.to_set().contains(x) {
            let i = choose|i: int| 0 <= i < all.len() && all[i] == x;
            if i < at {
                assert(x == seq[i]);
            } else if i < at + len {
                assert(x == ids[i - at]);
            } else {
                assert(x == seq[i - len]);
            }
        }
        if ids.to_set().contains(x) {
            let k = choose|k: int| 0 <= k < ids.len() && ids[k] == x;
            assert(all[at + k] == x);
        } else if seq.to_set().contains(x) {
            let k = choose|k: int| 0 <= k < seq.len() && seq[k] == x;
            if k < at {
                assert(all[k] == x);
            } else {
                assert(all[k + len] == x);
            }
        }
    }
    assert(all.to_set() =~= seq.to_set().union(ids.to_set()));
}

/// Inserting keeps every node in the sequence once, and the clock ahead of every
/// character whose value is known.
pub proof fn insertion_keeps_places(state: TextState, pos: nat, text: Seq<char>, uuids: Seq<Uuid>)
    requires
        state.wf(),
        state.placed(),
        state.witnessed(),
        state.fresh(uuids),
        uuids.len() == text.len(),
        state.clock.counter + text.len() <= u64::MAX,
    ensures
        state.inserted(pos, text, uuids).wf(),
        state.inserted(pos, text, uuids).placed(),
        state.inserted(pos, text, uuids).witnessed(),
{
    if text.len() > 0 {
        let after = state.inserted(pos, text, uuids);
        let ids = state.new_ids(uuids);
        let at = lemma_run_parts(state, pos, text, uuids);
        lemma_run_ids(state, uuids);
        assert(after.nodes.dom().finite()) by {
            lemma_run_nodes(state.nodes, ids, text, state.anchor(pos), text.len());
        }
        lemma_run_sequence(state.sequence, ids, at);
        assert(after.nodes.dom() =~= state.nodes.dom().union(ids.to_set())) by {
            assert forall|x: CharId| after.nodes.dom().contains(x) <==> state.nodes.dom().union(
                ids.to_set(),
            ).contains(x) by {
                if ids.to_set().contains(x) {
                    let k = choose|k: int| 0 <= k < ids.len() && ids[k] == x;
                    assert(after.nodes.contains_key(ids[k]));
                } else if state.nodes.contains_key(x) {
                    assert(after.nodes.contains_key(x));
                } else if after.nodes.contains_key(x) {
                    assert(ids.contains(x));
                }
            }
        }
        lemma_run_witnessed(state, pos, text, uuids);
        assert(after.sequence[0] == state.sequence[0]);
    }
}

/// The nodes after an insertion are sound, and the clock has witnessed them.
proof fn lemma_run_witnessed(state: TextState, pos: nat, text: Seq<char>, uuids: Seq<Uuid>)
    requires
        state.wf(),
        state.placed(),
        state.witnessed(),
        state.fresh(uuids),
        uuids.len() == text.len(),
        text.len() > 0,
        state.clock.counter + text.len() <= u64::MAX,
    ensures
        ({
            let after = state.inserted(pos, text, uuids);
            let root = CharId::spec_root();
            &&& after.witnessed()
            &&& forall|id: CharId| #[trigger]
                after.nodes.contains_key(id) ==> after.nodes[id].id == id
            &&& after.nodes.contains_key(root)
            &&& !after.nodes[root].visible()
            &&& forall|id: CharId| #[trigger]
                after.nodes.contains_key(id) && id != root && after.nodes[id].value is None
                    ==> after.nodes[id] == CharNode::placeholder(id)
        }),
{
    let after = state.inserted(pos, text, uuids);
    let ids = state.new_ids(uuids);
    let root = CharId::spec_root();
    let at = lemma_run_parts(state, pos, text, uuids);
    lemma_run_ids(state, uuids);
    assert(state.nodes.contains_key(root));
    assert forall|id: CharId| #[trigger] after.nodes.contains_key(id) implies {
        &&& after.nodes[id].id == id
        &&& after.nodes[id].value is Some ==> id.timestamp.counter <= after.clock.counter
        &&& id != root && after.nodes[id].value is None ==> after.nodes[id]
            == CharNode::placeholder(id)
    } by {
        if ids.contains(id) {
            let k = choose|k: int| 0 <= k < ids.len() && ids[k] == id;
            assert(ids[k].timestamp.counter == state.clock.counter + 1 + k);
        } else {
            assert(state.nodes.contains_key(id));
        }
    }
}

/// Inserting puts the characters at the position: the text before the position,
/// the new characters, and the rest of the text; a position past the end counts
/// as the end.
///
/// It holds on a replica where every node stands once in the sequence and whose clock
/// has witnessed every character whose value is known, for ids that are not known yet.
#[verifier::spinoff_prover]
#[verifier::rlimit(60)]
pub proof fn insertion_shows_at_position(
    state: TextState,
    pos: nat,
    text: Seq<char>,
    uuids: Seq<Uuid>,
)
    requires
        state.wf(),
        state.placed(),
        state.witnessed(),
        state.fresh(uuids),
        uuids.len() == text.len(),
        state.clock.counter + text.len() <= u64::MAX,
    ensures
        ({
            let n = state.chars().len();
            let p = if pos <= n { pos as int } else { n as int };
            state.inserted(pos, text, uuids).chars() == state.chars().take(p) + text
                + state.chars().skip(p)
        }),
{
    let n = state.chars().len();
    let p = if pos <= n { pos as int } else { n as int };
    let after = state.inserted(pos, text, uuids);
    let expected = state.chars().take(p) + text + state.chars().skip(p);
    if text.len() == 0 {
        assert(after.chars() =~= expected);
    } else {
        let ids = state.new_ids(uuids);
        let seq = state.sequence;
        let at = lemma_run_parts(state, pos, text, uuids);
        let front = seq.take(at);
        let back = seq.skip(at);
        let front_shown = visible_ids(state.nodes, front);
        let back_shown = visible_ids(state.nodes, back);
        assert(seq =~= front + back);
        assert(state.shown() == front_shown + back_shown) by {
            lemma_visible_concat(state.nodes, front, back);
        }
        assert(after.shown() == front_shown + ids + back_shown) by {
            assert forall|i: int| 0 <= i < front.len() implies shows(
                state.nodes,
                #[trigger] front[i],
            ) == shows(after.nodes, front[i]) by {
                assert(front[i] == seq[i]);
            }
            assert forall|i: int| 0 <= i < back.len() implies shows(state.nodes, #[trigger] back[i])
                == shows(after.nodes, back[i]) by {
                assert(back[i] == seq[at + i]);
            }
            lemma_visible_same(state.nodes, after.nodes, front);
            lemma_visible_same(state.nodes, after.nodes, back);
            lemma_visible_concat(after.nodes, front, ids);
            lemma_visible_concat(after.nodes, front + ids, back);
            lemma_all_visible(after.nodes, ids);
        }
        assert(chars_of(after.nodes, front_shown) =~= chars_of(state.nodes, front_shown)) by {
            assert forall|i: int| 0 <= i < front_shown.len() implies state.nodes.contains_key(
                #[trigger] front_shown[i],
            ) by {
                lemma_visible_member(state.nodes, front, i);
            }
        }
        assert(chars_of(after.nodes, back_shown) =~= chars_of(state.nodes, back_shown)) by {
            assert forall|i: int| 0 <= i < back_shown.len() implies state.nodes.contains_key(
                #[trigger] back_shown[i],
            ) by {
                lemma_visible_member(state.nodes, back, i);
            }
        }
        assert(chars_of(after.nodes, ids) =~= text);
        assert(after.chars() =~= chars_of(after.nodes, front_shown) + chars_of(after.nodes, ids)
            + chars_of(after.nodes, back_shown));
        assert(state.chars() =~= chars_of(state.nodes, front_shown) + chars_of(
            state.nodes,
            back_shown,
        ));
        assert(state.chars().take(p) =~= chars_of(state.nodes, front_shown));
        assert(state.chars().skip(p) =~= chars_of(state.nodes, back_shown));
    }
}

/// Where all ids of a sequence show a character, all are visible.
proof fn lemma_all_visible(nodes: Map<CharId, CharNode>, ids: Seq<CharId>)
    requires
        forall|i: int| 0 <= i < ids.len() ==> shows(nodes, #[trigger] ids[i]),
    ensures
        visible_ids(nodes, ids) == ids,
    decreases ids.len(),
{
    if ids.len() > 0 {
        let front = ids.drop_last();
        assert forall|i: int| 0 <= i < front.len() implies shows(nodes, #[trigger] front[i]) by {
            assert(front[i] == ids[i]);
        }
        assert(ids[ids.len() - 1] == ids.last());
        lemma_all_visible(nodes, front);
        assert(front.push(ids.last()) =~= ids);
    } else {
        assert(visible_ids(nodes, ids) =~= ids);
    }
}

/// Deleting takes the character at the position out of the text.
pub proof fn deletion_removes_at_position(state: TextState, pos: nat)
    requires
        state.wf(),
        state.placed(),
    ensures
        pos < state.chars().len() ==> state.deleted(pos).chars() == state.chars().remove(
            pos as int,
        ),
        pos < state.shown().len() ==> state.deleted(pos).shown() == state.shown().remove(
            pos as int,
        ),
        pos >= state.chars().len() ==> state.deleted(pos) == state,
        state.deleted(pos).placed(),
        state.deleted(pos).wf(),
{
    if pos < state.shown().len() {
        let seq = state.sequence;
        let after = state.deleted(pos);
        let i = lemma_visible_rank(state.nodes, seq, pos as int);
        let id = seq[i];
        let front = seq.take(i);
        let back = seq.skip(i + 1);
        assert(seq =~= front + seq![id] + back);
        assert forall|k: int| 0 <= k < front.len() implies shows(state.nodes, #[trigger] front[k])
            == shows(after.nodes, front[k]) by {
            assert(front[k] == seq[k]);
            assert(seq[k] != seq[i]);
        }
        assert forall|k: int| 0 <= k < back.len() implies shows(state.nodes, #[trigger] back[k])
            == shows(after.nodes, back[k]) by {
            assert(back[k] == seq[i + 1 + k]);
            assert(seq[i + 1 + k] != seq[i]);
        }
        lemma_visible_same(state.nodes, after.nodes, front);
        lemma_visible_same(state.nodes, after.nodes, back);
        lemma_visible_concat(after.nodes, front, seq![id]);
        lemma_visible_concat(after.nodes, front + seq![id], back);
        assert(!shows(after.nodes, id));
        assert(seq![id].drop_last() =~= Seq::empty());
        assert(visible_ids(after.nodes, seq![id].drop_last()) =~= Seq::empty());
        assert(seq![id].last() == id);
        assert(visible_ids(after.nodes, seq![id]) =~= Seq::empty());
        let shown = state.shown();
        assert(after.shown() =~= shown.take(pos as int) + shown.skip(pos as int + 1));
        assert(after.shown() =~= shown.remove(pos as int));
        let expected = state.chars().remove(pos as int);
        assert(after.chars().len() == expected.len());
        assert forall|k: int| 0 <= k < expected.len() implies #[trigger] after.chars()[k]
            == expected[k] by {
            let from = if k < pos { k } else { k + 1 };
            assert(after.shown()[k] == shown[from]);
        }
        assert(after.chars() =~= expected);
        assert(state.nodes.contains_key(id));
        assert(after.nodes.dom() =~= state.nodes.dom());
    }
}

/// Deleting a range takes the characters at its positions out of the text;
/// positions past the end count for nothing.
pub proof fn range_deletion_removes_range(state: TextState, start: nat, len: nat)
    requires
        state.wf(),
        state.placed(),
    ensures
        ({
            let n = state.chars().len();
            let from = if start <= n { start as int } else { n as int };
            let to = if start + len <= n { (start + len) as int } else { n as int };
            state.range_deleted(start, len).chars() == state.chars().take(from)
                + state.chars().skip(to)
        }),
        state.range_deleted(start, len).placed(),
        state.range_deleted(start, len).wf(),
    decreases len,
{
    let n = state.chars().len();
    let from = if start <= n { start as int } else { n as int };
    let to = if start + len <= n { (start + len) as int } else { n as int };
    if len == 0 {
        assert(state.chars().take(from) + state.chars().skip(to) =~= state.chars());
    } else {
        let last = (start + len - 1) as nat;
        deletion_removes_at_position(state, last);
        let next = state.deleted(last);
        range_deletion_removes_range(next, start, (len - 1) as nat);
        assert(next.range_deleted(start, (len - 1) as nat).chars() =~= state.chars().take(from)
            + state.chars().skip(to));
    }
}

/// A text that was just made is empty, and in order.
pub proof fn new_text_is_empty(replica: crate::ident::ReplicaId)
    ensures
        TextState::empty(replica).wf(),
        TextState::empty(replica).placed(),
        TextState::empty(replica).witnessed(),
        TextState::empty(replica).chars() == Seq::<char>::empty(),
{
    let state = TextState::empty(replica);
    let root = CharId::spec_root();
    assert(state.sequence.drop_last() =~= Seq::empty());
    assert(state.sequence.last() == root);
    assert(visible_ids(state.nodes, state.sequence.drop_last()) =~= Seq::empty());
    assert(state.shown() =~= Seq::empty());
    assert(state.chars() =~= Seq::empty());
    assert(state.sequence[0] == root);
    assert(state.sequence.to_set() =~= state.nodes.dom());
}

} // verus!

//! Texts that are made apart: what holds of every text that grows out of a new one, and
//! why replicas that have never met agree when they do.
//!
//! A history records every insertion that was ever made, on whatever replica. A replica
//! counts its clock up with each insertion, so it never gives an id twice, and no other
//! replica gives an id with its name.

use crate::clock::LogicalClock;
use crate::ident::{ReplicaId, Uuid};
use crate::text::edit_laws::{
    deletion_removes_at_position, lemma_run_ids, lemma_run_nodes, lemma_visible_member,
    new_text_is_empty,
};
use crate::text::merge_laws::{agree, merge_commutes, merge_is_sound, settled_is_placed};
use crate::text::model::{nodes_after, nodes_after_all, run_after, run_ops, TextState};
use crate::text::node::{CharId, CharNode, TextOp};
use crate::text::order::{rooted_walk, rooted_walk_is_simple};
use crate::text::order_laws::{
    anchored, deletion_keeps_order, insertion_keeps_order, lemma_rooted_uuids, merge_keeps_rooted,
    rooted,
};
use crate::text::replay_laws::new_text_is_settled;
use vstd::prelude::*;

verus! {

impl TextState {
    /// Whether the text is as local edits and merges leave it: sound and in its order,
    /// with a clock that has witnessed every character whose value is known and every
    /// anchor, every node reached from the root, and every character behind its anchor.
    pub open spec fn orderly(self) -> bool {
        &&& self.wf()
        &&& self.settled()
        &&& self.witnessed()
        &&& self.anchors_witnessed()
        &&& rooted(self.nodes)
        &&& anchored(self.nodes)
    }
}

/// A new text is orderly.
pub proof fn new_texts_are_orderly(replica: ReplicaId)
    ensures
        TextState::empty(replica).orderly(),
{
    let state = TextState::empty(replica);
    let root = CharId::spec_root();
    new_text_is_empty(replica);
    new_text_is_settled(replica);
    rooted_walk_is_simple(state.nodes);
    assert forall|id: CharId| #[trigger] state.nodes.contains_key(id) implies rooted_walk(
        state.nodes,
    ).contains(id) by {
        assert(id == root);
        assert(rooted_walk(state.nodes)[0] == root);
    }
}

/// Where the value of every character is known, the ids that a replica gives are new.
pub proof fn new_ids_are_fresh(state: TextState, uuids: Seq<Uuid>)
    requires
        state.witnessed(),
        forall|id: CharId| #[trigger]
            state.nodes.contains_key(id) && id != CharId::spec_root() ==> state.nodes[id].value
                is Some,
        state.clock.counter + uuids.len() <= u64::MAX,
    ensures
        state.fresh(uuids),
{
    let ids = state.new_ids(uuids);
    lemma_run_ids(state, uuids);
    assert forall|i: int| 0 <= i < uuids.len() implies !state.nodes.contains_key(
        #[trigger] ids[i],
    ) by {
        assert(ids[i].timestamp.counter == state.clock.counter + 1 + i);
    }
}

/// An orderly text stays orderly, whatever is inserted under new ids or deleted.
pub proof fn edits_keep_texts_orderly(
    state: TextState,
    pos: nat,
    text: Seq<char>,
    uuids: Seq<Uuid>,
    len: nat,
)
    requires
        state.orderly(),
        state.fresh(uuids),
        uuids.len() == text.len(),
        forall|i: int| 0 <= i < uuids.len() ==> #[trigger] uuids[i] != Uuid::spec_nil(),
        state.clock.counter + text.len() <= u64::MAX,
    ensures
        state.inserted(pos, text, uuids).orderly(),
        state.deleted(pos).orderly(),
        state.range_deleted(pos, len).orderly(),
{
    insertion_keeps_order(state, pos, text, uuids);
    lemma_deletion_is_orderly(state, pos);
    lemma_range_deletion_is_orderly(state, pos, len);
}

proof fn lemma_deletion_is_orderly(state: TextState, pos: nat)
    requires
        state.orderly(),
    ensures
        state.deleted(pos).orderly(),
{
    settled_is_placed(state);
    deletion_removes_at_position(state, pos);
    deletion_keeps_order(state, pos);
}

proof fn lemma_range_deletion_is_orderly(state: TextState, start: nat, len: nat)
    requires
        state.orderly(),
    ensures
        state.range_deleted(start, len).orderly(),
    decreases len,
{
    if len > 0 {
        let last = (start + len - 1) as nat;
        lemma_deletion_is_orderly(state, last);
        lemma_range_deletion_is_orderly(state.deleted(last), start, (len - 1) as nat);
    }
}

/// A merge of orderly texts is orderly.
pub proof fn merges_keep_texts_orderly(a: TextState, b: TextState)
    requires
        a.orderly(),
        b.orderly(),
    ensures
        a.join(b).orderly(),
{
    merge_is_sound(a, b);
    merge_keeps_rooted(a, b);
}

/// Whether some nodes hold only characters of a history, as they were inserted.
pub open spec fn follows(
    nodes: Map<CharId, CharNode>,
    history: Map<CharId, (char, CharId)>,
) -> bool {
    forall|id: CharId| #[trigger]
        nodes.contains_key(id) && !id.nil() && nodes[id].value is Some ==> {
            &&& history.contains_key(id)
            &&& history[id] == (nodes[id].value->0, nodes[id].after)
        }
}

/// Whether a clock is ahead of every insertion of its replica.
pub open spec fn ahead(clock: LogicalClock, history: Map<CharId, (char, CharId)>) -> bool {
    forall|id: CharId| #[trigger]
        history.contains_key(id) && id.timestamp.replica == clock.replica
            ==> id.timestamp.counter <= clock.counter
}

/// A history with a run of new characters.
pub open spec fn with_run(
    history: Map<CharId, (char, CharId)>,
    ids: Seq<CharId>,
    text: Seq<char>,
    anchor: CharId,
) -> Map<CharId, (char, CharId)> {
    history.union_prefer_right(
        Map::new(
            |id: CharId| ids.contains(id),
            |id: CharId| (text[ids.index_of(id)], run_after(ids, anchor, ids.index_of(id))),
        ),
    )
}

/// An insertion goes into the history and changes nothing of what was there, and so do
/// the operations that carry it; the replica follows the longer history and is ahead of it, and so is every replica of another name
/// that followed the history and was ahead of it before.
pub proof fn insertions_go_into_the_history(
    state: TextState,
    history: Map<CharId, (char, CharId)>,
    pos: nat,
    text: Seq<char>,
    uuids: Seq<Uuid>,
    other: TextState,
)
    requires
        follows(state.nodes, history),
        ahead(state.clock, history),
        uuids.len() == text.len(),
        state.clock.counter + text.len() <= u64::MAX,
        follows(other.nodes, history),
        ahead(other.clock, history),
        other.clock.replica != state.clock.replica,
    ensures
        ({
            let after = with_run(history, state.new_ids(uuids), text, state.anchor(pos));
            &&& history.submap_of(after)
            &&& follows(state.inserted(pos, text, uuids).nodes, after)
            &&& ahead(state.inserted(pos, text, uuids).clock, after)
            &&& follows(other.nodes, after)
            &&& ahead(other.clock, after)
            &&& forall|i: int|
                0 <= i < text.len() ==> from_history(
                    #[trigger] run_ops(state.new_ids(uuids), text, state.anchor(pos))[i],
                    after,
                )
        }),
{
    let ids = state.new_ids(uuids);
    let anchor = state.anchor(pos);
    let after = with_run(history, ids, text, anchor);
    let nodes = state.inserted(pos, text, uuids).nodes;
    let clock = state.inserted(pos, text, uuids).clock;
    lemma_run_ids(state, uuids);
    assert forall|id: CharId| #[trigger] ids.contains(id) implies {
        &&& !history.contains_key(id)
        &&& id.timestamp.replica == state.clock.replica
        &&& id.timestamp.counter <= state.clock.counter + text.len()
    } by {
        let i = choose|i: int| 0 <= i < ids.len() && ids[i] == id;
        assert(ids[i].timestamp.counter == state.clock.counter + 1 + i);
    }
    assert forall|i: int| 0 <= i < text.len() implies from_history(
        #[trigger] run_ops(ids, text, anchor)[i],
        after,
    ) by {
        assert(ids.contains(ids[i]));
        assert(ids.index_of(ids[i]) == i);
    }
    if text.len() == 0 {
        assert(after =~= history);
    } else {
        lemma_run_nodes(state.nodes, ids, text, anchor, text.len());
        assert(ids.take(text.len() as int) =~= ids);
        assert forall|id: CharId| #[trigger]
            nodes.contains_key(id) && !id.nil() && nodes[id].value is Some implies {
            &&& after.contains_key(id)
            &&& after[id] == (nodes[id].value->0, nodes[id].after)
        } by {
            if ids.contains(id) {
                let i = ids.index_of(id);
                assert(nodes[ids[i]] == CharNode::fresh(
                    ids[i],
                    text[i],
                    run_after(ids, anchor, i),
                ));
            } else {
                assert(state.nodes.contains_key(id));
            }
        }
        assert forall|id: CharId| #[trigger]
            after.contains_key(id) && id.timestamp.replica == clock.replica implies
            id.timestamp.counter <= clock.counter by {
            if !ids.contains(id) {
                assert(history.contains_key(id));
            }
        }
    }
    assert forall|id: CharId| #[trigger]
        other.nodes.contains_key(id) && !id.nil() && other.nodes[id].value is Some implies {
        &&& after.contains_key(id)
        &&& after[id] == (other.nodes[id].value->0, other.nodes[id].after)
    } by {
        assert(history.contains_key(id));
    }
    assert forall|id: CharId| #[trigger]
        after.contains_key(id) && id.timestamp.replica == other.clock.replica implies
        id.timestamp.counter <= other.clock.counter by {
        assert(history.contains_key(id));
    }
}

/// A new text follows every history, and is ahead of it if its replica has a new name.
/// Deletions and merges keep to the history.
pub proof fn edits_keep_to_the_history(
    a: TextState,
    b: TextState,
    history: Map<CharId, (char, CharId)>,
    replica: ReplicaId,
    pos: nat,
)
    requires
        a.wf(),
        follows(a.nodes, history),
        ahead(a.clock, history),
        follows(b.nodes, history),
    ensures
        follows(TextState::empty(replica).nodes, history),
        (forall|id: CharId| #[trigger] history.contains_key(id) ==> id.timestamp.replica != replica)
            ==> ahead(TextState::empty(replica).clock, history),
        follows(a.deleted(pos).nodes, history),
        ahead(a.deleted(pos).clock, history),
        follows(a.join(b).nodes, history),
        ahead(a.join(b).clock, history),
{
    if pos < a.shown().len() {
        lemma_visible_member(a.nodes, a.sequence, pos as int);
    }
    let joined = a.join(b).nodes;
    assert forall|id: CharId| #[trigger]
        joined.contains_key(id) && !id.nil() && joined[id].value is Some implies {
        &&& history.contains_key(id)
        &&& history[id] == (joined[id].value->0, joined[id].after)
    } by {
        assert(a.nodes.contains_key(id) || b.nodes.contains_key(id));
    }
}

/// Whether an operation inserts a character as it stands in a history, or deletes one.
pub open spec fn from_history(op: TextOp, history: Map<CharId, (char, CharId)>) -> bool {
    op matches TextOp::Insert { id, value, after } ==> {
        &&& history.contains_key(id)
        &&& history[id] == (value, after)
    }
}

/// Applying operations out of a history keeps to the history.
pub proof fn operations_keep_to_the_history(
    nodes: Map<CharId, CharNode>,
    ops: Seq<TextOp>,
    history: Map<CharId, (char, CharId)>,
)
    requires
        follows(nodes, history),
        forall|i: int| 0 <= i < ops.len() ==> from_history(#[trigger] ops[i], history),
    ensures
        follows(nodes_after_all(nodes, ops), history),
    decreases ops.len(),
{
    if ops.len() > 0 {
        let front = ops.drop_last();
        assert forall|i: int| 0 <= i < front.len() implies from_history(
            #[trigger] front[i],
            history,
        ) by {
            assert(front[i] == ops[i]);
        }
        operations_keep_to_the_history(nodes, front, history);
        let before = nodes_after_all(nodes, front);
        let after = nodes_after(before, ops.last());
        assert(from_history(ops[ops.len() - 1], history));
        assert forall|id: CharId| #[trigger]
            after.contains_key(id) && !id.nil() && after[id].value is Some implies {
            &&& history.contains_key(id)
            &&& history[id] == (after[id].value->0, after[id].after)
        } by {
            if id != ops.last().target() {
                assert(before.contains_key(id));
            }
        }
    }
}

/// Replicas that follow one history converge: to merge them in either direction yields the
/// same text, in the same order, with the same log.
pub proof fn replicas_of_one_history_converge(
    a: TextState,
    b: TextState,
    history: Map<CharId, (char, CharId)>,
)
    requires
        a.orderly(),
        b.orderly(),
        follows(a.nodes, history),
        follows(b.nodes, history),
    ensures
        agree(a, b),
        a.join(b).chars() == b.join(a).chars(),
        a.join(b).sequence == b.join(a).sequence,
        a.join(b).log() == b.join(a).log(),
{
    lemma_rooted_uuids(a.nodes);
    lemma_rooted_uuids(b.nodes);
    assert forall|id: CharId| #[trigger]
        a.nodes.contains_key(id) && b.nodes.contains_key(id) && !id.nil()
            && a.nodes[id].value is Some && b.nodes[id].value is Some implies {
        &&& a.nodes[id].value == b.nodes[id].value
        &&& a.nodes[id].after == b.nodes[id].after
    } by {
        assert(history[id] == (a.nodes[id].value->0, a.nodes[id].after));
        assert(history[id] == (b.nodes[id].value->0, b.nodes[id].after));
    }
    merge_commutes(a, b);
}

} // verus!

//! What a replicated text is, and what each operation makes of it.

use crate::clock::LogicalClock;
use crate::ident::{ReplicaId, Uuid};
use crate::text::node::{CharId, CharNode, TextOp};
use crate::text::order::text_order;
use vstd::prelude::*;

verus! {

/// The state of a replicated text.
#[verifier::ext_equal]
pub struct TextState {
    /// The replica that holds the text
    pub replica: ReplicaId,
    /// Its logical clock
    pub clock: LogicalClock,
    /// All nodes by their ids
    pub nodes: Map<CharId, CharNode>,
    /// The order in which the nodes stand
    pub sequence: Seq<CharId>,
}

/// Whether an id is that of a visible node.
pub open spec fn shows(nodes: Map<CharId, CharNode>, id: CharId) -> bool {
    nodes.contains_key(id) && nodes[id].visible()
}

/// The ids of a sequence that are visible, in order.
pub open spec fn visible_ids(nodes: Map<CharId, CharNode>, ids: Seq<CharId>) -> Seq<CharId>
    decreases ids.len(),
{
    if ids.len() == 0 {
        Seq::empty()
    } else if shows(nodes, ids.last()) {
        visible_ids(nodes, ids.drop_last()).push(ids.last())
    } else {
        visible_ids(nodes, ids.drop_last())
    }
}

/// The characters that some nodes show.
pub open spec fn chars_of(nodes: Map<CharId, CharNode>, ids: Seq<CharId>) -> Seq<char> {
    ids.map_values(|id: CharId| nodes[id].value->0)
}

/// The ids that a replica gives to a run of new characters.
pub open spec fn run_ids(clock: LogicalClock, uuids: Seq<Uuid>) -> Seq<CharId> {
    Seq::new(
        uuids.len(),
        |i: int|
            CharId {
                timestamp: LogicalClock {
                    counter: (clock.counter + 1 + i) as u64,
                    replica: clock.replica,
                },
                uuid: uuids[i],
            },
    )
}

/// The id that each character of a run was inserted after: the anchor for the
/// first, the previous character for the others.
pub open spec fn run_after(ids: Seq<CharId>, anchor: CharId, i: int) -> CharId {
    if i == 0 {
        anchor
    } else {
        ids[i - 1]
    }
}

/// The nodes after the first `count` characters of a run are stored.
pub open spec fn run_nodes(
    nodes: Map<CharId, CharNode>,
    ids: Seq<CharId>,
    text: Seq<char>,
    anchor: CharId,
    count: nat,
) -> Map<CharId, CharNode>
    decreases count,
{
    if count == 0 {
        nodes
    } else {
        let i = count - 1;
        run_nodes(nodes, ids, text, anchor, i as nat).insert(
            ids[i],
            CharNode::fresh(ids[i], text[i], run_after(ids, anchor, i)),
        )
    }
}

/// The operation that carries one character of a run.
pub open spec fn run_op(ids: Seq<CharId>, text: Seq<char>, anchor: CharId, i: int) -> TextOp {
    TextOp::Insert { id: ids[i], value: text[i], after: run_after(ids, anchor, i) }
}

/// The operations that carry a run of new characters.
pub open spec fn run_ops(ids: Seq<CharId>, text: Seq<char>, anchor: CharId) -> Seq<TextOp> {
    Seq::new(ids.len(), |i: int| run_op(ids, text, anchor, i))
}

/// The index of the first occurrence of an id, or 0 if it does not occur.
pub open spec fn index_or_zero(ids: Seq<CharId>, id: CharId) -> int {
    match ids.index_of_first(id) {
        Some(i) => i,
        None => 0,
    }
}

/// The first index, from a given one on, at which there is not a sibling whose
/// id comes after a new character's id.
pub open spec fn past_later_siblings(
    nodes: Map<CharId, CharNode>,
    ids: Seq<CharId>,
    anchor: CharId,
    new_id: CharId,
    from: int,
) -> int
    decreases ids.len() - from,
{
    if 0 <= from < ids.len() && nodes.contains_key(ids[from]) && nodes[ids[from]].after == anchor
        && !ids[from].before(new_id) {
        past_later_siblings(nodes, ids, anchor, new_id, from + 1)
    } else {
        from
    }
}

/// The index at which a new character is placed.
pub open spec fn insert_index(
    nodes: Map<CharId, CharNode>,
    ids: Seq<CharId>,
    anchor: CharId,
    new_id: CharId,
) -> int {
    past_later_siblings(nodes, ids, anchor, new_id, index_or_zero(ids, anchor) + 1)
}

/// The clock after an operation is applied: an insertion is witnessed.
pub open spec fn clock_after(clock: LogicalClock, op: TextOp) -> LogicalClock {
    match op {
        TextOp::Insert { id, .. } => clock.joined(id.timestamp),
        TextOp::Delete { .. } => clock,
    }
}

/// The nodes after an operation is applied.
///
/// An insertion of an unknown character stores it; if only the deletion of the
/// character is known, the character is filled in and stays deleted; otherwise
/// nothing happens. A deletion sets the tombstone, also of a character that is
/// not known yet.
pub open spec fn nodes_after(nodes: Map<CharId, CharNode>, op: TextOp) -> Map<CharId, CharNode> {
    match op {
        TextOp::Insert { id, value, after } => {
            if !nodes.contains_key(id) {
                nodes.insert(id, CharNode::fresh(id, value, after))
            } else if nodes[id].value is None && nodes[id].deleted {
                nodes.insert(
                    id,
                    CharNode { id: nodes[id].id, value: Some(value), after, deleted: true },
                )
            } else {
                nodes
            }
        },
        TextOp::Delete { id } => {
            if nodes.contains_key(id) {
                nodes.insert(id, nodes[id].tombstoned())
            } else {
                nodes.insert(id, CharNode::placeholder(id))
            }
        },
    }
}

/// Whether applying an operation stores a node or moves one.
pub open spec fn reorders(nodes: Map<CharId, CharNode>, op: TextOp) -> bool {
    match op {
        TextOp::Insert { id, .. } => !nodes.contains_key(id) || (nodes[id].value is None
            && nodes[id].deleted),
        TextOp::Delete { id } => !nodes.contains_key(id),
    }
}

/// The clock after some operations are applied, one after the other.
pub open spec fn clock_after_all(clock: LogicalClock, ops: Seq<TextOp>) -> LogicalClock
    decreases ops.len(),
{
    if ops.len() == 0 {
        clock
    } else {
        clock_after(clock_after_all(clock, ops.drop_last()), ops.last())
    }
}

/// The nodes after some operations are applied, one after the other.
pub open spec fn nodes_after_all(
    nodes: Map<CharId, CharNode>,
    ops: Seq<TextOp>,
) -> Map<CharId, CharNode>
    decreases ops.len(),
{
    if ops.len() == 0 {
        nodes
    } else {
        nodes_after(nodes_after_all(nodes, ops.drop_last()), ops.last())
    }
}

/// Whether one of some operations stores a node or moves one.
pub open spec fn any_reorders(nodes: Map<CharId, CharNode>, ops: Seq<TextOp>) -> bool
    decreases ops.len(),
{
    ops.len() > 0 && (any_reorders(nodes, ops.drop_last()) || reorders(
        nodes_after_all(nodes, ops.drop_last()),
        ops.last(),
    ))
}

/// The node of one replica together with another replica's node: deleted if either
/// is. A replica that knows only of the deletion takes the value and the anchor from
/// one that knows the character.
pub open spec fn node_join(ours: CharNode, theirs: CharNode) -> CharNode {
    let known = if ours.value is None && theirs.value is Some {
        theirs
    } else {
        ours
    };
    CharNode {
        id: ours.id,
        value: known.value,
        after: known.after,
        deleted: ours.deleted || theirs.deleted,
    }
}

/// The nodes of two replicas together: each node of either, with the tombstones
/// of both. The root belongs to each replica itself.
pub open spec fn nodes_join(
    ours: Map<CharId, CharNode>,
    theirs: Map<CharId, CharNode>,
) -> Map<CharId, CharNode> {
    Map::new(
        |id: CharId| ours.contains_key(id) || theirs.contains_key(id) && !id.nil(),
        |id: CharId|
            if !ours.contains_key(id) {
                theirs[id]
            } else if theirs.contains_key(id) && !id.nil() {
                node_join(ours[id], theirs[id])
            } else {
                ours[id]
            },
    )
}

/// The insertion that rebuilds a node with a value.
pub open spec fn insert_op(id: CharId, node: CharNode) -> TextOp {
    TextOp::Insert { id, value: node.value->0, after: node.after }
}

/// The insertions that rebuild some nodes, in the order of their ids.
pub open spec fn insert_ops(nodes: Map<CharId, CharNode>, ids: Seq<CharId>) -> Seq<TextOp>
    decreases ids.len(),
{
    if ids.len() == 0 {
        Seq::empty()
    } else {
        let front = insert_ops(nodes, ids.drop_last());
        let id = ids.last();
        if nodes.contains_key(id) && !id.nil() && nodes[id].value is Some {
            front.push(insert_op(id, nodes[id]))
        } else {
            front
        }
    }
}

/// The deletions that rebuild the tombstones of some nodes.
pub open spec fn delete_ops(nodes: Map<CharId, CharNode>, ids: Seq<CharId>) -> Seq<TextOp>
    decreases ids.len(),
{
    if ids.len() == 0 {
        Seq::empty()
    } else {
        let front = delete_ops(nodes, ids.drop_last());
        let id = ids.last();
        if nodes.contains_key(id) && !id.nil() && nodes[id].deleted {
            front.push(TextOp::Delete { id })
        } else {
            front
        }
    }
}

impl TextState {
    /// The text of a replica that has seen nothing yet.
    pub open spec fn empty(replica: ReplicaId) -> TextState {
        TextState {
            replica,
            clock: LogicalClock { counter: 0, replica },
            nodes: Map::empty().insert(CharId::spec_root(), CharNode::spec_root()),
            sequence: seq![CharId::spec_root()],
        }
    }

    /// Each node carries its own id; the root is there, shows nothing and comes
    /// first; any other node without a value records a deletion.
    pub open spec fn wf(self) -> bool {
        &&& self.nodes.dom().finite()
        &&& forall|id: CharId| #[trigger] self.nodes.contains_key(id) ==> self.nodes[id].id == id
        &&& self.nodes.contains_key(CharId::spec_root())
        &&& !self.nodes[CharId::spec_root()].visible()
        &&& forall|id: CharId| #[trigger]
            self.nodes.contains_key(id) && id != CharId::spec_root() && self.nodes[id].value is None
                ==> self.nodes[id] == CharNode::placeholder(id)
        &&& self.sequence.len() > 0
        &&& self.sequence[0] == CharId::spec_root()
    }

    /// Every node stands in the sequence, and stands there once.
    pub open spec fn placed(self) -> bool {
        &&& self.sequence.no_duplicates()
        &&& self.sequence.to_set() == self.nodes.dom()
    }

    /// The sequence is the text order of the nodes.
    pub open spec fn settled(self) -> bool {
        self.sequence == text_order(self.nodes)
    }

    /// The clock has witnessed every character whose value is known. One of which only
    /// the deletion is known can be ahead of the clock.
    pub open spec fn witnessed(self) -> bool {
        forall|id: CharId| #[trigger]
            self.nodes.contains_key(id) && self.nodes[id].value is Some ==> id.timestamp.counter
                <= self.clock.counter
    }

    /// The clock has witnessed everything that something was inserted after.
    pub open spec fn anchors_witnessed(self) -> bool {
        forall|id: CharId| #[trigger]
            self.nodes.contains_key(id) && !id.nil() ==> self.nodes[id].after.timestamp.counter
                <= self.clock.counter
    }

    /// None of the ids that a run of new characters gets here is known yet.
    pub open spec fn fresh(self, uuids: Seq<Uuid>) -> bool {
        forall|i: int|
            0 <= i < uuids.len() ==> !self.nodes.contains_key(#[trigger] self.new_ids(uuids)[i])
    }

    /// The ids of the visible characters, in order.
    pub open spec fn shown(self) -> Seq<CharId> {
        visible_ids(self.nodes, self.sequence)
    }

    /// The visible text.
    pub open spec fn chars(self) -> Seq<char> {
        chars_of(self.nodes, self.shown())
    }

    /// The character after which an insertion at a position goes: the one before
    /// the position, the last one if the position is past the end, the root if
    /// there is none.
    pub open spec fn anchor(self, pos: nat) -> CharId {
        if pos == 0 || self.shown().len() == 0 {
            CharId::spec_root()
        } else if pos <= self.shown().len() {
            self.shown()[pos - 1]
        } else {
            self.shown().last()
        }
    }

    /// The ids that a run of new characters gets here.
    pub open spec fn new_ids(self, uuids: Seq<Uuid>) -> Seq<CharId> {
        run_ids(self.clock, uuids)
    }

    /// The text after a run of characters is inserted at a position.
    pub open spec fn inserted(self, pos: nat, text: Seq<char>, uuids: Seq<Uuid>) -> TextState {
        if text.len() == 0 {
            self
        } else {
            let ids = self.new_ids(uuids);
            let anchor = self.anchor(pos);
            let at = insert_index(
                run_nodes(self.nodes, ids, text, anchor, 1),
                self.sequence,
                anchor,
                ids[0],
            );
            TextState {
                replica: self.replica,
                clock: LogicalClock {
                    counter: (self.clock.counter + text.len()) as u64,
                    replica: self.clock.replica,
                },
                nodes: run_nodes(self.nodes, ids, text, anchor, text.len()),
                sequence: self.sequence.take(at) + ids + self.sequence.skip(at),
            }
        }
    }

    /// The text after the visible character at a position is deleted; nothing
    /// happens if there is none.
    pub open spec fn deleted(self, pos: nat) -> TextState {
        if pos < self.shown().len() {
            let id = self.shown()[pos as int];
            TextState { nodes: self.nodes.insert(id, self.nodes[id].tombstoned()), ..self }
        } else {
            self
        }
    }

    /// The operations that deleting a position yields.
    pub open spec fn delete_op(self, pos: nat) -> Option<TextOp> {
        if pos < self.shown().len() {
            Some(TextOp::Delete { id: self.shown()[pos as int] })
        } else {
            None
        }
    }

    /// The text after a range of positions is deleted, from its end to its start.
    pub open spec fn range_deleted(self, start: nat, len: nat) -> TextState
        decreases len,
    {
        if len == 0 {
            self
        } else {
            self.deleted((start + len - 1) as nat).range_deleted(start, (len - 1) as nat)
        }
    }

    /// The operations that deleting a range of positions yields.
    pub open spec fn range_delete_ops(self, start: nat, len: nat) -> Seq<TextOp>
        decreases len,
    {
        if len == 0 {
            Seq::empty()
        } else {
            let last = (start + len - 1) as nat;
            let first = match self.delete_op(last) {
                Some(op) => seq![op],
                None => Seq::empty(),
            };
            first + self.deleted(last).range_delete_ops(start, (len - 1) as nat)
        }
    }

    /// The text after some operations of other replicas are applied.
    pub open spec fn applied(self, ops: Seq<TextOp>) -> TextState {
        TextState {
            replica: self.replica,
            clock: clock_after_all(self.clock, ops),
            nodes: nodes_after_all(self.nodes, ops),
            sequence: if any_reorders(self.nodes, ops) {
                text_order(nodes_after_all(self.nodes, ops))
            } else {
                self.sequence
            },
        }
    }

    /// The text after it is merged with another replica's.
    pub open spec fn join(self, other: TextState) -> TextState {
        TextState {
            replica: self.replica,
            clock: self.clock.joined(other.clock),
            nodes: nodes_join(self.nodes, other.nodes),
            sequence: text_order(nodes_join(self.nodes, other.nodes)),
        }
    }

    /// The operations that rebuild the text on another replica: the insertions in
    /// text order, then the deletions.
    pub open spec fn log(self) -> Seq<TextOp> {
        insert_ops(self.nodes, self.sequence) + delete_ops(self.nodes, self.sequence)
    }
}

} // verus!

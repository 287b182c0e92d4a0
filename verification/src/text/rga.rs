//! The replicated text itself.

use crate::clock::LogicalClock;
use crate::crdt::Crdt;
use crate::element::Sound;
use crate::ident::{ReplicaId, Uuid};
use crate::text::id_table::{ascending, IdTable};
use crate::text::model::{
    any_reorders, chars_of, clock_after, clock_after_all, delete_ops, index_or_zero, insert_index,
    insert_ops, nodes_after, nodes_after_all, nodes_join, past_later_siblings, reorders, run_after,
    run_nodes, run_op, run_ops, shows, visible_ids, TextState,
};
use crate::text::node::{CharId, CharNode, TextOp};
use crate::text::order::{
    ascending_is_in_order, children, deep_enough, in_order, is_child, lemma_root_depth,
    lemma_walk_step, orphans, rooted_walk, rooted_walk_is_simple, text_order,
    text_order_is_complete, walk,
};
use vstd::prelude::*;

verus! {

/// `String::push` appends one character.
pub assume_specification[ std::string::String::push ](s: &mut std::string::String, ch: char)
    ensures
        final(s)@ == old(s)@.push(ch),
;

/// A text that several replicas edit, each in its own copy.
///
/// A replicated growable array: characters are never removed but tombstoned, and
/// their order is a function of the set of characters alone, so replicas that
/// hold the same characters show the same text.
#[derive(Debug)]
pub struct RgaText {
    /// Replica ID for this instance
    replica: ReplicaId,
    /// Logical clock
    clock: LogicalClock,
    /// All nodes indexed by their ID
    nodes: IdTable<CharNode>,
    /// Ordered list of character IDs (for traversal)
    sequence: Vec<CharId>,
}

impl View for RgaText {
    type V = TextState;

    closed spec fn view(&self) -> TextState {
        TextState {
            replica: self.replica,
            clock: self.clock,
            nodes: self.nodes@,
            sequence: self.sequence@,
        }
    }
}

/// Appending an id to a sequence appends it to the visible ids if it is visible.
proof fn lemma_visible_step(nodes: Map<CharId, CharNode>, ids: Seq<CharId>, i: int)
    requires
        0 <= i < ids.len(),
    ensures
        visible_ids(nodes, ids.take(i + 1)) == if shows(nodes, ids[i]) {
            visible_ids(nodes, ids.take(i)).push(ids[i])
        } else {
            visible_ids(nodes, ids.take(i))
        },
        visible_ids(nodes, ids.take(i + 1)).len() <= i + 1,
        visible_ids(nodes, ids.take(i)).len() <= i,
    decreases i,
{
    assert(ids.take(i + 1).drop_last() =~= ids.take(i));
    if i > 0 {
        lemma_visible_step(nodes, ids, i - 1);
    } else {
        assert(ids.take(0) =~= Seq::empty());
    }
}

/// The visible ids of a prefix are a prefix of the visible ids.
proof fn lemma_visible_prefix(nodes: Map<CharId, CharNode>, ids: Seq<CharId>, i: int)
    requires
        0 <= i <= ids.len(),
    ensures
        visible_ids(nodes, ids.take(i)).len() <= visible_ids(nodes, ids).len() <= ids.len(),
        visible_ids(nodes, ids).take(visible_ids(nodes, ids.take(i)).len() as int) == visible_ids(
            nodes,
            ids.take(i),
        ),
    decreases ids.len() - i,
{
    if i == ids.len() {
        assert(ids.take(i) =~= ids);
        let all = visible_ids(nodes, ids);
        assert(all.take(all.len() as int) =~= all);
        if i > 0 {
            lemma_visible_step(nodes, ids, i - 1);
        }
    } else {
        lemma_visible_step(nodes, ids, i);
        lemma_visible_prefix(nodes, ids, i + 1);
        let here = visible_ids(nodes, ids.take(i));
        let next = visible_ids(nodes, ids.take(i + 1));
        let all = visible_ids(nodes, ids);
        assert(all.take(here.len() as int) =~= all.take(next.len() as int).take(
            here.len() as int,
        ));
        assert(next.take(here.len() as int) =~= here);
    }
}

/// Every visible id of a sequence shows a character.
proof fn lemma_visible_shows(nodes: Map<CharId, CharNode>, ids: Seq<CharId>)
    ensures
        forall|i: int|
            0 <= i < visible_ids(nodes, ids).len() ==> shows(
                nodes,
                #[trigger] visible_ids(nodes, ids)[i],
            ),
    decreases ids.len(),
{
    if ids.len() > 0 {
        lemma_visible_shows(nodes, ids.drop_last());
        let front = visible_ids(nodes, ids.drop_last());
        assert forall|i: int| 0 <= i < visible_ids(nodes, ids).len() implies shows(
            nodes,
            #[trigger] visible_ids(nodes, ids)[i],
        ) by {
            if i < front.len() {
                assert(visible_ids(nodes, ids)[i] == front[i]);
            }
        }
    }
}

/// The ids of a sequence that are children of a node, in the order of the
/// sequence.
spec fn kids_among(
    nodes: Map<CharId, CharNode>,
    ids: Seq<CharId>,
    parent: CharId,
) -> Seq<CharId>
    decreases ids.len(),
{
    if ids.len() == 0 {
        Seq::empty()
    } else if is_child(nodes, parent, ids.last()) {
        kids_among(nodes, ids.drop_last(), parent).push(ids.last())
    } else {
        kids_among(nodes, ids.drop_last(), parent)
    }
}

/// Picking the children from an ascending sequence yields them in order.
proof fn lemma_kids_ascending(nodes: Map<CharId, CharNode>, ids: Seq<CharId>, parent: CharId)
    requires
        ascending(ids),
    ensures
        ascending(kids_among(nodes, ids, parent)),
        forall|id: CharId| #[trigger]
            kids_among(nodes, ids, parent).contains(id) <==> ids.contains(id) && is_child(
                nodes,
                parent,
                id,
            ),
    decreases ids.len(),
{
    if ids.len() > 0 {
        let front = ids.drop_last();
        let kids = kids_among(nodes, ids, parent);
        let front_kids = kids_among(nodes, front, parent);
        assert forall|i: int, j: int| 0 <= i < j < front.len() implies (
        #[trigger] front[i]).before(#[trigger] front[j]) by {
            assert(ids[i].before(ids[j]));
        }
        lemma_kids_ascending(nodes, front, parent);
        assert forall|i: int, j: int| 0 <= i < j < kids.len() implies (#[trigger] kids[i]).before(
            #[trigger] kids[j],
        ) by {
            if j < front_kids.len() {
                assert(front_kids[i].before(front_kids[j]));
            } else {
                assert(front_kids.contains(front_kids[i]));
                let k = choose|k: int| 0 <= k < front.len() && front[k] == front_kids[i];
                assert(ids[k].before(ids[ids.len() - 1]));
            }
        }
        assert forall|id: CharId| #[trigger] kids.contains(id) <==> ids.contains(id) && is_child(
            nodes,
            parent,
            id,
        ) by {
            if kids.contains(id) {
                let k = choose|k: int| 0 <= k < kids.len() && kids[k] == id;
                if k < front_kids.len() {
                    assert(front_kids[k] == id);
                    assert(front_kids.contains(id));
                    let m = choose|m: int| 0 <= m < front.len() && front[m] == id;
                    assert(ids[m] == id);
                } else {
                    assert(ids[ids.len() - 1] == id);
                }
            }
            if ids.contains(id) && is_child(nodes, parent, id) {
                let k = choose|k: int| 0 <= k < ids.len() && ids[k] == id;
                if k < front.len() {
                    assert(front[k] == id);
                    assert(front_kids.contains(id));
                    let m = choose|m: int| 0 <= m < front_kids.len() && front_kids[m] == id;
                    assert(kids[m] == id);
                } else {
                    assert(kids[kids.len() - 1] == id);
                }
            }
        }
    }
}

/// Picking the children from all ids yields the children.
proof fn lemma_kids_are_children(nodes: Map<CharId, CharNode>, ids: Seq<CharId>, parent: CharId)
    requires
        ascending(ids),
        ids.to_set() == nodes.dom(),
    ensures
        kids_among(nodes, ids, parent) == children(nodes, parent),
{
    lemma_kids_ascending(nodes, ids, parent);
    let kids = kids_among(nodes, ids, parent);
    ascending_is_in_order(kids);
    let set = nodes.dom().filter(|id: CharId| is_child(nodes, parent, id));
    assert(kids.to_set() =~= set) by {
        assert forall|id: CharId| kids.to_set().contains(id) <==> set.contains(id) by {
            assert(kids.to_set().contains(id) <==> kids.contains(id));
            assert(ids.to_set().contains(id) <==> ids.contains(id));
        }
    }
}

/// What a table of children lists for a node.
spec fn listed(kids: Map<CharId, Vec<CharId>>, parent: CharId) -> Seq<CharId> {
    if kids.contains_key(parent) {
        kids[parent]@
    } else {
        Seq::empty()
    }
}

impl RgaText {
    /// The table is sorted and the state is that of a text.
    pub closed spec fn wf(&self) -> bool {
        self.nodes.wf() && self@.wf()
    }

    /// What well-formedness says of the state.
    pub proof fn wf_state(&self)
        requires
            self.wf(),
        ensures
            self@.wf(),
    {
    }

    /// Create a new RGA text.
    pub fn new(replica: ReplicaId) -> (text: RgaText)
        ensures
            text.wf(),
            text@ == TextState::empty(replica),
    {
        let mut nodes: IdTable<CharNode> = IdTable::new();
        let root = CharNode {
            id: CharId::root(),
            value: None,
            after: CharId::root(),
            deleted: false,
        };
        nodes.insert(CharId::root(), root);
        let mut sequence: Vec<CharId> = Vec::new();
        sequence.push(CharId::root());
        let text = RgaText { replica, clock: LogicalClock::new(0, replica), nodes, sequence };
        assert(text@.sequence =~= TextState::empty(replica).sequence);
        text
    }

    /// The node of an id that shows a character.
    fn shown_char(&self, id: &CharId) -> (ch: Option<char>)
        requires
            self.wf(),
        ensures
            ch is Some == shows(self@.nodes, *id),
            ch is Some ==> ch == self@.nodes[*id].value,
    {
        match self.nodes.get(id) {
            Some(node) => if node.is_visible() {
                node.value
            } else {
                None
            },
            None => None,
        }
    }

    /// Get the current text as a string.
    pub fn to_string(&self) -> (text: String)
        requires
            self.wf(),
        ensures
            text@ == self@.chars(),
    {
        let mut text = String::new();
        let mut i: usize = 0;
        assert(self@.sequence.take(0) =~= Seq::empty());
        assert(text@ =~= chars_of(self@.nodes, visible_ids(self@.nodes, self@.sequence.take(0))));
        while i < self.sequence.len()
            invariant
                self.wf(),
                i <= self.sequence@.len(),
                self.sequence@ == self@.sequence,
                text@ == chars_of(
                    self@.nodes,
                    visible_ids(self@.nodes, self@.sequence.take(i as int)),
                ),
            decreases self.sequence@.len() - i,
        {
            proof {
                lemma_visible_step(self@.nodes, self@.sequence, i as int);
            }
            match self.shown_char(&self.sequence[i]) {
                Some(ch) => {
                    text.push(ch);
                },
                None => {},
            }
            i = i + 1;
            assert(text@ =~= chars_of(
                self@.nodes,
                visible_ids(self@.nodes, self@.sequence.take(i as int)),
            ));
        }
        assert(self@.sequence.take(i as int) =~= self@.sequence);
        text
    }

    /// Get the length of the visible text.
    pub fn len(&self) -> (n: usize)
        requires
            self.wf(),
        ensures
            n == self@.chars().len(),
            n == self@.shown().len(),
    {
        let mut n: usize = 0;
        let mut i: usize = 0;
        assert(self@.sequence.take(0) =~= Seq::empty());
        while i < self.sequence.len()
            invariant
                self.wf(),
                n <= i <= self.sequence@.len(),
                self.sequence@ == self@.sequence,
                n == visible_ids(self@.nodes, self@.sequence.take(i as int)).len(),
            decreases self.sequence@.len() - i,
        {
            proof {
                lemma_visible_step(self@.nodes, self@.sequence, i as int);
            }
            if self.shown_char(&self.sequence[i]).is_some() {
                n = n + 1;
            }
            i = i + 1;
        }
        assert(self@.sequence.take(i as int) =~= self@.sequence);
        n
    }

    /// Check if the text is empty.
    pub fn is_empty(&self) -> (empty: bool)
        requires
            self.wf(),
        ensures
            empty == (self@.chars().len() == 0),
    {
        self.len() == 0
    }

    /// Get the visible character ID at a position.
    pub fn visible_id_at_position(&self, pos: usize) -> (id: Option<CharId>)
        requires
            self.wf(),
        ensures
            id == if pos < self@.shown().len() {
                Some(self@.shown()[pos as int])
            } else {
                None
            },
    {
        let mut count: usize = 0;
        let mut i: usize = 0;
        assert(self@.sequence.take(0) =~= Seq::empty());
        while i < self.sequence.len()
            invariant
                self.wf(),
                count <= i <= self.sequence@.len(),
                count <= pos,
                self.sequence@ == self@.sequence,
                count == visible_ids(self@.nodes, self@.sequence.take(i as int)).len(),
            decreases self.sequence@.len() - i,
        {
            let id = self.sequence[i];
            proof {
                lemma_visible_step(self@.nodes, self@.sequence, i as int);
                lemma_visible_prefix(self@.nodes, self@.sequence, i + 1);
            }
            if self.shown_char(&id).is_some() {
                if count == pos {
                    assert(self@.shown()[pos as int] == self@.shown().take(count + 1)[pos as int]);
                    return Some(id);
                }
                count = count + 1;
            }
            i = i + 1;
        }
        assert(self@.sequence.take(i as int) =~= self@.sequence);
        None
    }

    /// Get the character ID that an insertion at a position goes after.
    fn id_at_position(&self, pos: usize) -> (id: CharId)
        requires
            self.wf(),
        ensures
            id == self@.anchor(pos as nat),
    {
        if pos == 0 {
            return CharId::root();
        }
        match self.visible_id_at_position(pos - 1) {
            Some(id) => {
                return id;
            },
            None => {},
        }
        // The position is past the end: the last visible id, if there is one.
        let mut i: usize = self.sequence.len();
        assert(self@.sequence.take(i as int) =~= self@.sequence);
        while i > 0
            invariant
                self.wf(),
                i <= self.sequence@.len(),
                self.sequence@ == self@.sequence,
                self@.shown() == visible_ids(self@.nodes, self@.sequence.take(i as int)),
                pos > self@.shown().len(),
            decreases i,
        {
            i = i - 1;
            let id = self.sequence[i];
            proof {
                lemma_visible_step(self@.nodes, self@.sequence, i as int);
            }
            if self.shown_char(&id).is_some() {
                return id;
            }
        }
        assert(self@.sequence.take(0) =~= Seq::empty());
        CharId::root()
    }

    /// The index of an id in the sequence, or 0.
    fn position_of(&self, id: CharId) -> (index: usize)
        requires
            self.wf(),
        ensures
            index == index_or_zero(self@.sequence, id),
            index < self@.sequence.len(),
    {
        let mut i: usize = 0;
        while i < self.sequence.len()
            invariant
                i <= self.sequence@.len(),
                self.sequence@ == self@.sequence,
                forall|k: int| 0 <= k < i ==> #[trigger] self@.sequence[k] != id,
            decreases self.sequence@.len() - i,
        {
            if self.sequence[i] == id {
                proof {
                    self@.sequence.index_of_first_ensures(id);
                    assert(self@.sequence.contains(self@.sequence[i as int]));
                }
                return i;
            }
            i = i + 1;
        }
        proof {
            self@.sequence.index_of_first_ensures(id);
            assert(!self@.sequence.contains(id));
        }
        0
    }

    /// Find the correct insert position for a new character.
    fn find_insert_position(&self, after: CharId, new_id: CharId) -> (index: usize)
        requires
            self.wf(),
        ensures
            index == insert_index(self@.nodes, self@.sequence, after, new_id),
            0 < index <= self@.sequence.len(),
    {
        let len: usize = self.sequence.len();
        let mut index: usize = self.position_of(after) + 1;
        while index < len
            invariant
                self.wf(),
                len == self.sequence@.len(),
                self.sequence@ == self@.sequence,
                self.nodes@ == self@.nodes,
                0 < index <= self.sequence@.len(),
                insert_index(self@.nodes, self@.sequence, after, new_id) == past_later_siblings(
                    self@.nodes,
                    self@.sequence,
                    after,
                    new_id,
                    index as int,
                ),
            decreases self.sequence@.len() - index,
        {
            let existing_id = self.sequence[index];
            match self.nodes.get(&existing_id) {
                Some(existing) => {
                    // Among the children of one node the greater id comes first.
                    if existing.after != after || existing_id.is_before(&new_id) {
                        return index;
                    }
                },
                None => {
                    return index;
                },
            }
            index = index + 1;
        }
        index
    }

    /// The children of every node, each list in ascending order.
    fn children_of_all(&self) -> (kids: IdTable<Vec<CharId>>)
        requires
            self.wf(),
        ensures
            kids.wf(),
            forall|parent: CharId| #[trigger]
                listed(kids@, parent) == children(self@.nodes, parent),
    {
        let mut kids: IdTable<Vec<CharId>> = IdTable::new();
        let ghost keys = self.nodes.keys();
        let ghost nodes = self@.nodes;
        proof {
            self.nodes.keys_are_the_domain();
            assert(keys.take(0) =~= Seq::empty());
        }
        let count: usize = self.nodes.len();
        let mut i: usize = 0;
        while i < count
            invariant
                self.wf(),
                kids.wf(),
                nodes == self@.nodes,
                keys == self.nodes.keys(),
                keys.no_duplicates(),
                keys.to_set() == nodes.dom(),
                i <= count,
                count == keys.len(),
                forall|parent: CharId| #[trigger]
                    listed(kids@, parent) == kids_among(nodes, keys.take(i as int), parent),
            decreases count - i,
        {
            let (id, node) = self.nodes.entry_at(i);
            let after = node.after;
            let ghost before = kids@;
            assert(keys.take(i + 1).drop_last() =~= keys.take(i as int));
            assert(keys.take(i + 1).last() == id);
            if !id.is_root() {
                match kids.get_mut(&after) {
                    Some(list) => {
                        list.push(id);
                    },
                    None => {
                        let mut list: Vec<CharId> = Vec::new();
                        list.push(id);
                        kids.insert(after, list);
                    },
                }
                assert(kids@.contains_key(after));
                assert(listed(kids@, after) =~= listed(before, after).push(id));
                assert(is_child(nodes, after, id));
                assert forall|parent: CharId| #[trigger]
                    listed(kids@, parent) == kids_among(nodes, keys.take(i + 1), parent) by {
                    assert(listed(before, parent) == kids_among(
                        nodes,
                        keys.take(i as int),
                        parent,
                    ));
                    if parent != after {
                        assert(listed(kids@, parent) == listed(before, parent));
                        assert(!is_child(nodes, parent, id));
                    }
                }
            } else {
                assert forall|parent: CharId| #[trigger]
                    listed(kids@, parent) == kids_among(nodes, keys.take(i + 1), parent) by {
                    assert(listed(before, parent) == kids_among(
                        nodes,
                        keys.take(i as int),
                        parent,
                    ));
                    assert(!is_child(nodes, parent, id));
                }
            }
            i = i + 1;
        }
        assert(keys.take(count as int) =~= keys);
        assert forall|parent: CharId| #[trigger]
            listed(kids@, parent) == children(nodes, parent) by {
            lemma_kids_are_children(nodes, keys, parent);
        }
        kids
    }

    /// The walk from the root: a pre-order walk that visits the greatest child
    /// first.
    fn walk_from_root(&self) -> (sequence: Vec<CharId>)
        requires
            self.wf(),
        ensures
            sequence@ == rooted_walk(self@.nodes),
    {
        let kids = self.children_of_all();
        let ghost nodes = self@.nodes;
        let ghost depth = nodes.dom().len();
        let mut sequence: Vec<CharId> = Vec::new();
        let mut stack: Vec<CharId> = Vec::new();
        stack.push(CharId::root());
        proof {
            lemma_root_depth(nodes);
            assert(stack@.reverse() =~= seq![CharId::spec_root()]);
            assert(sequence@ + rooted_walk(nodes) =~= rooted_walk(nodes));
        }
        while stack.len() > 0
            invariant
                nodes == self@.nodes,
                depth == nodes.dom().len(),
                kids.wf(),
                forall|parent: CharId| #[trigger]
                    listed(kids@, parent) == children(nodes, parent),
                deep_enough(nodes, stack@.reverse(), depth),
                sequence@ + walk(nodes, stack@.reverse(), depth) == rooted_walk(nodes),
            decreases walk(nodes, stack@.reverse(), depth).len(),
        {
            let ghost full = stack@;
            let ghost done = sequence@;
            let id = match stack.pop() {
                Some(id) => id,
                None => CharId::root(),
            };
            let ghost base = stack@;
            let ghost below = children(nodes, id);
            proof {
                assert(full =~= base.push(id));
                lemma_walk_step(nodes, base, id, depth);
                assert(listed(kids@, id) == below);
            }
            sequence.push(id);
            match kids.get(&id) {
                Some(list) => {
                    let mut j: usize = 0;
                    assert(stack@ =~= base + list@.take(0));
                    while j < list.len()
                        invariant
                            j <= list@.len(),
                            stack@ == base + list@.take(j as int),
                        decreases list@.len() - j,
                    {
                        stack.push(list[j]);
                        j = j + 1;
                        assert(stack@ =~= base + list@.take(j as int));
                    }
                    assert(list@.take(j as int) =~= list@);
                },
                None => {
                    assert(stack@ =~= base + below);
                },
            }
            proof {
                assert(stack@ == base + below);
                assert(sequence@ + walk(nodes, stack@.reverse(), depth) =~= done + walk(
                    nodes,
                    full.reverse(),
                    depth,
                ));
            }
        }
        proof {
            assert(stack@.reverse() =~= Seq::empty());
            assert(sequence@ =~= rooted_walk(nodes));
        }
        sequence
    }

    /// Rebuild the ordered `sequence` from the node set: the walk from the root,
    /// then the nodes that it does not reach, so that nothing is dropped.
    fn rebuild_sequence(&mut self)
        requires
            old(self).wf(),
        ensures
            final(self).wf(),
            final(self)@ == (TextState {
                sequence: text_order(old(self)@.nodes),
                ..old(self)@
            }),
    {
        let ghost nodes = self@.nodes;
        let mut sequence = self.walk_from_root();
        let ghost reached = sequence@;
        proof {
            text_order_is_complete(nodes);
            rooted_walk_is_simple(nodes);
            self.nodes.keys_are_the_domain();
        }
        if sequence.len() < self.nodes.len() {
            let mut present: IdTable<()> = IdTable::new();
            let mut i: usize = 0;
            while i < sequence.len()
                invariant
                    i <= sequence@.len(),
                    present.wf(),
                    sequence@ == reached,
                    forall|id: CharId| #[trigger]
                        present@.contains_key(id) <==> exists|k: int|
                            0 <= k < i && reached[k] == id,
                decreases sequence@.len() - i,
            {
                let ghost before = present@;
                present.insert(sequence[i], ());
                assert forall|id: CharId| #[trigger]
                    present@.contains_key(id) <==> exists|k: int|
                        0 <= k < i + 1 && reached[k] == id by {
                    if present@.contains_key(id) {
                        if id == reached[i as int] {
                            assert(0 <= i < i + 1 && reached[i as int] == id);
                        } else {
                            assert(before.contains_key(id));
                            let k = choose|k: int| 0 <= k < i && reached[k] == id;
                            assert(0 <= k < i + 1 && reached[k] == id);
                        }
                    }
                    if exists|k: int| 0 <= k < i + 1 && reached[k] == id {
                        let k = choose|k: int| 0 <= k < i + 1 && reached[k] == id;
                        if k < i {
                            assert(before.contains_key(id));
                        }
                    }
                }
                i = i + 1;
            }
            let ghost keys = self.nodes.keys();
            let ghost mut lost: Seq<CharId> = Seq::empty();
            let mut j: usize = 0;
            let count: usize = self.nodes.len();
            assert(sequence@ =~= reached + lost);
            while j < count
                invariant
                    self.wf(),
                    present.wf(),
                    keys == self.nodes.keys(),
                    ascending(keys),
                    count == keys.len(),
                    j <= count,
                    sequence@ == reached + lost,
                    forall|id: CharId| #[trigger]
                        present@.contains_key(id) <==> reached.contains(id),
                    ascending(lost),
                    forall|id: CharId| #[trigger]
                        lost.contains(id) <==> exists|k: int|
                            0 <= k < j && keys[k] == id && !reached.contains(id),
                decreases count - j,
            {
                let (id, _node) = self.nodes.entry_at(j);
                let ghost before = lost;
                match present.get(&id) {
                    Some(_found) => {
                        assert forall|x: CharId| #[trigger]
                            lost.contains(x) <==> exists|k: int|
                                0 <= k < j + 1 && keys[k] == x && !reached.contains(x) by {
                            if lost.contains(x) {
                                let k = choose|k: int|
                                    0 <= k < j && keys[k] == x && !reached.contains(x);
                                assert(0 <= k < j + 1 && keys[k] == x);
                            }
                        }
                    },
                    None => {
                        sequence.push(id);
                        proof {
                            lost = lost.push(id);
                            assert(sequence@ =~= reached + lost);
                            assert forall|a: int, b: int| 0 <= a < b < lost.len() implies (
                            #[trigger] lost[a]).before(#[trigger] lost[b]) by {
                                if b < before.len() {
                                    assert(before[a].before(before[b]));
                                } else {
                                    assert(before.contains(before[a]));
                                    let k = choose|k: int|
                                        0 <= k < j && keys[k] == before[a] && !reached.contains(
                                            before[a],
                                        );
                                    assert(keys[k].before(keys[j as int]));
                                }
                            }
                            assert forall|x: CharId| #[trigger]
                                lost.contains(x) <==> exists|k: int|
                                    0 <= k < j + 1 && keys[k] == x && !reached.contains(x) by {
                                if lost.contains(x) {
                                    let m = choose|m: int| 0 <= m < lost.len() && lost[m] == x;
                                    if m < before.len() {
                                        assert(before[m] == x);
                                        assert(before.contains(x));
                                        let k = choose|k: int|
                                            0 <= k < j && keys[k] == x && !reached.contains(x);
                                        assert(0 <= k < j + 1 && keys[k] == x);
                                    } else {
                                        assert(keys[j as int] == x);
                                    }
                                }
                                if exists|k: int|
                                    0 <= k < j + 1 && keys[k] == x && !reached.contains(x) {
                                    let k = choose|k: int|
                                        0 <= k < j + 1 && keys[k] == x && !reached.contains(x);
                                    if k < j {
                                        assert(before.contains(x));
                                        let m = choose|m: int|
                                            0 <= m < before.len() && before[m] == x;
                                        assert(lost[m] == x);
                                    } else {
                                        assert(lost[lost.len() - 1] == x);
                                    }
                                }
                            }
                        }
                    },
                }
                j = j + 1;
            }
            proof {
                ascending_is_in_order(lost);
                assert(lost.to_set() =~= orphans(nodes)) by {
                    assert forall|x: CharId| lost.to_set().contains(x) <==> orphans(
                        nodes,
                    ).contains(x) by {
                        assert(lost.to_set().contains(x) <==> lost.contains(x));
                        assert(keys.to_set().contains(x) <==> keys.contains(x));
                    }
                }
            }
        } else {
            assert(in_order(orphans(nodes)).len() == 0);
            assert(sequence@ =~= text_order(nodes));
        }
        self.sequence = sequence;
    }

    /// Insert a character at a position.
    ///
    /// The new character's UUID is random, and so is its id: the text is as
    /// [`insert_with`](Self::insert_with) leaves it for some UUID that is not nil.
    pub fn insert(&mut self, pos: usize, ch: char) -> (op: TextOp)
        requires
            old(self).wf(),
            old(self)@.clock.counter < u64::MAX,
        ensures
            final(self).wf(),
            exists|uuid: Uuid|
                {
                    &&& uuid != Uuid::spec_nil()
                    &&& final(self)@ == #[trigger] old(self)@.inserted(
                        pos as nat,
                        seq![ch],
                        seq![uuid],
                    )
                    &&& op == (TextOp::Insert {
                        id: old(self)@.new_ids(seq![uuid])[0],
                        value: ch,
                        after: old(self)@.anchor(pos as nat),
                    })
                },
    {
        self.insert_with(pos, ch, Uuid::new_v4())
    }

    /// Insert a character at a position, under an id with the given UUID.
    pub fn insert_with(&mut self, pos: usize, ch: char, uuid: Uuid) -> (op: TextOp)
        requires
            old(self).wf(),
            old(self)@.clock.counter < u64::MAX,
        ensures
            final(self).wf(),
            final(self)@ == old(self)@.inserted(pos as nat, seq![ch], seq![uuid]),
            op == (TextOp::Insert {
                id: old(self)@.new_ids(seq![uuid])[0],
                value: ch,
                after: old(self)@.anchor(pos as nat),
            }),
    {
        let ghost before = self@;
        let ghost ids = before.new_ids(seq![uuid]);
        let after = self.id_at_position(pos);
        let id = CharId { timestamp: self.clock.tick(), uuid };
        assert(id == ids[0]);
        self.nodes.insert(id, CharNode::new(id, ch, after));
        reveal_with_fuel(run_nodes, 2);
        let insert_pos: usize = self.find_insert_position(after, id);
        self.sequence.insert(insert_pos, id);
        assert(self@.sequence =~= before.inserted(pos as nat, seq![ch], seq![uuid]).sequence);
        TextOp::Insert { id, value: ch, after }
    }

    /// Insert a string at a position.
    ///
    /// The UUIDs of the new characters are random: the text is as
    /// [`insert_str_with`](Self::insert_str_with) leaves it for some UUIDs that
    /// are not nil.
    pub fn insert_str(&mut self, pos: usize, s: &str) -> (ops: Vec<TextOp>)
        requires
            old(self).wf(),
            old(self)@.clock.counter + s@.len() <= u64::MAX,
        ensures
            final(self).wf(),
            exists|uuids: Seq<Uuid>|
                {
                    &&& uuids.len() == s@.len()
                    &&& forall|i: int| 0 <= i < uuids.len() ==> uuids[i] != Uuid::spec_nil()
                    &&& final(self)@ == #[trigger] old(self)@.inserted(pos as nat, s@, uuids)
                    &&& ops@ == run_ops(
                        old(self)@.new_ids(uuids),
                        s@,
                        old(self)@.anchor(pos as nat),
                    )
                },
    {
        let mut uuids: Vec<Uuid> = Vec::new();
        for ch in letters: s.chars()
            invariant
                letters.seq() == s@,
                uuids@.len() == letters.index(),
                forall|i: int| 0 <= i < uuids@.len() ==> uuids@[i] != Uuid::spec_nil(),
        {
            uuids.push(Uuid::new_v4());
        }
        self.insert_str_with(pos, s, &uuids)
    }

    /// Insert a string at a position, its characters under ids with the given
    /// UUIDs.
    ///
    /// The anchor is resolved once; each further character goes directly after
    /// the one before it.
    pub fn insert_str_with(&mut self, pos: usize, s: &str, uuids: &Vec<Uuid>) -> (ops: Vec<TextOp>)
        requires
            old(self).wf(),
            uuids@.len() == s@.len(),
            old(self)@.clock.counter + s@.len() <= u64::MAX,
        ensures
            final(self).wf(),
            final(self)@ == old(self)@.inserted(pos as nat, s@, uuids@),
            ops@ == run_ops(
                old(self)@.new_ids(uuids@),
                s@,
                old(self)@.anchor(pos as nat),
            ),
    {
        let mut ops: Vec<TextOp> = Vec::new();
        if s.is_empty() {
            assert(ops@ =~= run_ops(self@.new_ids(uuids@), s@, self@.anchor(pos as nat)));
            return ops;
        }
        let ghost before = self@;
        let ghost ids = before.new_ids(uuids@);
        let anchor = self.id_at_position(pos);
        let ghost at = insert_index(
            run_nodes(before.nodes, ids, s@, anchor, 1),
            before.sequence,
            anchor,
            ids[0],
        );
        let mut after: CharId = anchor;
        let mut index: usize = 0;
        let mut i: usize = 0;
        assert(ops@ =~= run_ops(ids, s@, anchor).take(0));
        for ch in letters: s.chars()
            invariant
                letters.seq() == s@,
                i == letters.index(),
                uuids@.len() == s@.len(),
                self.wf(),
                before.clock.counter + s@.len() <= u64::MAX,
                ids == before.new_ids(uuids@),
                anchor == before.anchor(pos as nat),
                at == insert_index(
                    run_nodes(before.nodes, ids, s@, anchor, 1),
                    before.sequence,
                    anchor,
                    ids[0],
                ),
                self.replica == before.replica,
                self.clock.counter == before.clock.counter + i,
                self.clock.replica == before.clock.replica,
                self.nodes@ == run_nodes(before.nodes, ids, s@, anchor, i as nat),
                i == 0 ==> self.sequence@ == before.sequence,
                i > 0 ==> {
                    &&& 0 < at <= before.sequence.len()
                    &&& index == at + i - 1
                    &&& self.sequence@ == before.sequence.take(at) + ids.take(i as int)
                        + before.sequence.skip(at)
                },
                after == run_after(ids, anchor, i as int),
                ids.len() == s@.len(),
                ops@ == run_ops(ids, s@, anchor).take(i as int),
        {
            let id = CharId { timestamp: self.clock.tick(), uuid: uuids[i] };
            assert(id == ids[i as int]);
            let ghost nodes_before = self.nodes@;
            self.nodes.insert(id, CharNode::new(id, ch, after));
            let insert_pos: usize = if i == 0 {
                reveal_with_fuel(run_nodes, 2);
                self.find_insert_position(after, id)
            } else {
                let len: usize = self.sequence.len();
                index + 1
            };
            self.sequence.insert(insert_pos, id);
            assert(self.sequence@ =~= before.sequence.take(at) + ids.take(i + 1)
                + before.sequence.skip(at));
            let op = TextOp::Insert { id, value: ch, after };
            assert(op == run_op(ids, s@, anchor, i as int));
            ops.push(op);
            assert(ops@ =~= run_ops(ids, s@, anchor).take(i + 1));
            after = id;
            index = insert_pos;
            i = i + 1;
        }
        assert(ids.take(i as int) =~= ids);
        assert(ops@ =~= run_ops(ids, s@, anchor));
        assert(self@ =~= before.inserted(pos as nat, s@, uuids@));
        ops
    }

    /// Delete a character at a position.
    pub fn delete(&mut self, pos: usize) -> (op: Option<TextOp>)
        requires
            old(self).wf(),
        ensures
            final(self).wf(),
            final(self)@ == old(self)@.deleted(pos as nat),
            op == old(self)@.delete_op(pos as nat),
    {
        proof {
            lemma_visible_shows(self@.nodes, self@.sequence);
        }
        match self.visible_id_at_position(pos) {
            Some(id) => {
                match self.nodes.get(&id) {
                    Some(found) => {
                        let mut node = *found;
                        node.delete();
                        self.nodes.insert(id, node);
                        Some(TextOp::Delete { id })
                    },
                    None => None,
                }
            },
            None => None,
        }
    }

    /// Delete a range of characters, from its end to its start, so that the
    /// positions before a deleted one stay what they are.
    pub fn delete_range(&mut self, start: usize, len: usize) -> (ops: Vec<TextOp>)
        requires
            old(self).wf(),
            start + len <= usize::MAX + 1,
        ensures
            final(self).wf(),
            final(self)@ == old(self)@.range_deleted(start as nat, len as nat),
            ops@ == old(self)@.range_delete_ops(start as nat, len as nat),
    {
        let mut ops: Vec<TextOp> = Vec::new();
        let mut left: usize = len;
        let ghost all = self@.range_delete_ops(start as nat, len as nat);
        assert(ops@ + all =~= all);
        while left > 0
            invariant
                self.wf(),
                left <= len,
                start + len <= usize::MAX + 1,
                old(self)@.range_deleted(start as nat, len as nat) == self@.range_deleted(
                    start as nat,
                    left as nat,
                ),
                all == ops@ + self@.range_delete_ops(start as nat, left as nat),
            decreases left,
        {
            let ghost before = self@;
            let ghost so_far = ops@;
            left = left - 1;
            match self.delete(start + left) {
                Some(op) => {
                    ops.push(op);
                },
                None => {},
            }
            assert(all =~= ops@ + self@.range_delete_ops(start as nat, left as nat));
        }
        assert(all =~= ops@);
        ops
    }

    /// Apply one operation to the nodes and the clock. The result says whether the
    /// sequence has to be rebuilt.
    fn apply_to_nodes(&mut self, op: TextOp) -> (reordered: bool)
        requires
            old(self).wf(),
        ensures
            final(self).wf(),
            final(self)@ == (TextState {
                clock: clock_after(old(self)@.clock, op),
                nodes: nodes_after(old(self)@.nodes, op),
                ..old(self)@
            }),
            reordered == reorders(old(self)@.nodes, op),
    {
        match op {
            TextOp::Insert { id, value, after } => {
                self.clock.merge(&id.timestamp);
                match self.nodes.get(&id) {
                    Some(existing) => {
                        // Only a character whose deletion came first has no value
                        // yet: it is filled in and stays deleted.
                        if existing.value.is_none() && existing.deleted {
                            let mut node = *existing;
                            node.value = Some(value);
                            node.after = after;
                            self.nodes.insert(id, node);
                            true
                        } else {
                            false
                        }
                    },
                    None => {
                        self.nodes.insert(id, CharNode::new(id, value, after));
                        true
                    },
                }
            },
            TextOp::Delete { id } => {
                match self.nodes.get(&id) {
                    Some(existing) => {
                        let mut node = *existing;
                        node.delete();
                        self.nodes.insert(id, node);
                        false
                    },
                    None => {
                        self.nodes.insert(
                            id,
                            CharNode { id, value: None, after: CharId::root(), deleted: true },
                        );
                        true
                    },
                }
            },
        }
    }

    /// Apply a remote operation.
    pub fn apply(&mut self, op: TextOp)
        requires
            old(self).wf(),
        ensures
            final(self).wf(),
            final(self)@ == old(self)@.applied(seq![op]),
    {
        let mut ops: Vec<TextOp> = Vec::new();
        ops.push(op);
        assert(ops@ =~= seq![op]);
        self.apply_many(ops);
    }

    /// Apply a batch of remote operations, rebuilding the sequence **once**.
    ///
    /// The order of the characters is a function of the nodes, so it is enough to
    /// change the nodes for each operation and to rebuild at the end.
    ///
    /// A `Delete` for an id that is not known yet leaves a tombstone for it, and a
    /// later `Insert` of that id fills in its value and anchor while keeping it
    /// deleted: a deleted character never becomes visible again.
    pub fn apply_many(&mut self, ops: Vec<TextOp>)
        requires
            old(self).wf(),
        ensures
            final(self).wf(),
            final(self)@ == old(self)@.applied(ops@),
    {
        let mut reordered: bool = false;
        let mut i: usize = 0;
        let ghost before = self@;
        assert(ops@.take(0) =~= Seq::empty());
        while i < ops.len()
            invariant
                self.wf(),
                i <= ops@.len(),
                self@ == (TextState {
                    clock: clock_after_all(before.clock, ops@.take(i as int)),
                    nodes: nodes_after_all(before.nodes, ops@.take(i as int)),
                    ..before
                }),
                reordered == any_reorders(before.nodes, ops@.take(i as int)),
            decreases ops@.len() - i,
        {
            assert(ops@.take(i + 1).drop_last() =~= ops@.take(i as int));
            if self.apply_to_nodes(ops[i]) {
                reordered = true;
            }
            i = i + 1;
        }
        assert(ops@.take(i as int) =~= ops@);
        // A tombstone leaves the order as it is.
        if reordered {
            self.rebuild_sequence();
        }
    }

    /// Get all operations (for sync).
    ///
    /// Emits an `Insert` for every non-root character in sequence order carrying
    /// its real value, followed by a `Delete` for each tombstoned character. A
    /// replaying peer therefore reconstructs the document.
    pub fn operations(&self) -> (ops: Vec<TextOp>)
        requires
            self.wf(),
        ensures
            ops@ == self@.log(),
    {
        let mut ops: Vec<TextOp> = Vec::new();
        let ghost nodes = self@.nodes;
        let ghost ids = self@.sequence;
        let mut i: usize = 0;
        assert(ids.take(0) =~= Seq::empty());
        while i < self.sequence.len()
            invariant
                self.wf(),
                nodes == self@.nodes,
                ids == self@.sequence,
                self.sequence@ == ids,
                i <= ids.len(),
                ops@ == insert_ops(nodes, ids.take(i as int)),
            decreases ids.len() - i,
        {
            let id = self.sequence[i];
            assert(ids.take(i + 1).drop_last() =~= ids.take(i as int));
            match self.nodes.get(&id) {
                Some(node) => {
                    if !node.id.is_root() {
                        match node.value {
                            Some(value) => {
                                ops.push(TextOp::Insert { id: node.id, value, after: node.after });
                            },
                            None => {},
                        }
                    }
                },
                None => {},
            }
            i = i + 1;
        }
        assert(ids.take(i as int) =~= ids);
        let ghost inserts = ops@;
        let mut j: usize = 0;
        assert(ids.take(0) =~= Seq::empty());
        assert(ops@ =~= inserts + delete_ops(nodes, ids.take(0)));
        while j < self.sequence.len()
            invariant
                self.wf(),
                nodes == self@.nodes,
                ids == self@.sequence,
                self.sequence@ == ids,
                j <= ids.len(),
                ops@ == inserts + delete_ops(nodes, ids.take(j as int)),
            decreases ids.len() - j,
        {
            let id = self.sequence[j];
            assert(ids.take(j + 1).drop_last() =~= ids.take(j as int));
            match self.nodes.get(&id) {
                Some(node) => {
                    if !node.id.is_root() && node.is_deleted() {
                        ops.push(TextOp::Delete { id: node.id });
                    }
                },
                None => {},
            }
            j = j + 1;
            assert(ops@ =~= inserts + delete_ops(nodes, ids.take(j as int)));
        }
        assert(ids.take(j as int) =~= ids);
        ops
    }

    /// Get character at position.
    pub fn char_at(&self, pos: usize) -> (ch: Option<char>)
        requires
            self.wf(),
        ensures
            ch == if pos < self@.chars().len() {
                Some(self@.chars()[pos as int])
            } else {
                None
            },
    {
        proof {
            lemma_visible_shows(self@.nodes, self@.sequence);
        }
        match self.visible_id_at_position(pos) {
            Some(id) => self.shown_char(&id),
            None => None,
        }
    }
}

impl Clone for RgaText {
    fn clone(&self) -> (copy: RgaText)
        ensures
            copy@ == self@,
            copy.wf() == self.wf(),
    {
        let sequence = self.sequence.clone();
        assert(sequence@ =~= self.sequence@);
        RgaText { replica: self.replica, clock: self.clock, nodes: self.nodes.clone(), sequence }
    }
}

impl Sound for RgaText {
    open spec fn valid(&self) -> bool {
        self.wf()
    }
}

impl Crdt for RgaText {
    open spec fn join(ours: TextState, theirs: TextState) -> TextState {
        ours.join(theirs)
    }

    /// Merge with another replica's text: take every node that is missing here, fill
    /// in the characters of which only the deletion is known here, set the tombstones of
    /// the other, then rebuild the order.
    fn merge(&mut self, other: &Self) {
        let ghost ours = self@;
        let ghost theirs = other@.nodes;
        let ghost keys = other.nodes.keys();
        self.clock.merge(&other.clock);
        proof {
            other.nodes.keys_are_the_domain();
        }
        let count: usize = other.nodes.len();
        let mut i: usize = 0;
        assert(nodes_join(ours.nodes, theirs.restrict(keys.take(0).to_set())) =~= ours.nodes);
        while i < count
            invariant
                other.wf(),
                self.wf(),
                theirs == other@.nodes,
                keys == other.nodes.keys(),
                count == keys.len(),
                keys.no_duplicates(),
                keys.to_set() == theirs.dom(),
                i <= count,
                self@ == (TextState {
                    clock: ours.clock.joined(other@.clock),
                    nodes: nodes_join(ours.nodes, theirs.restrict(keys.take(i as int).to_set())),
                    ..ours
                }),
            decreases count - i,
        {
            let (id, found) = other.nodes.entry_at(i);
            let node = *found;
            let ghost seen = theirs.restrict(keys.take(i as int).to_set());
            let ghost next = theirs.restrict(keys.take(i + 1).to_set());
            proof {
                assert(!keys.take(i as int).contains(id)) by {
                    if keys.take(i as int).contains(id) {
                        let k = choose|k: int|
                            0 <= k < keys.take(i as int).len() && keys.take(i as int)[k] == id;
                        assert(keys[k] == keys[i as int]);
                    }
                }
                assert(keys.take(i + 1) =~= keys.take(i as int).push(id));
                keys.take(i as int).lemma_push_to_set_commute(id);
                assert(next =~= seen.insert(id, node));
            }
            if !node.id.is_root() {
                match self.nodes.get(&id) {
                    Some(existing) => {
                        let mut mine = *existing;
                        if mine.value.is_none() && node.value.is_some() {
                            mine.value = node.value;
                            mine.after = node.after;
                        }
                        if node.is_deleted() {
                            mine.deleted = true;
                        }
                        self.nodes.insert(id, mine);
                    },
                    None => {
                        self.nodes.insert(id, node);
                    },
                }
            }
            assert(self@.nodes =~= nodes_join(ours.nodes, next));
            i = i + 1;
        }
        assert(keys.take(count as int) =~= keys);
        assert(theirs.restrict(keys.to_set()) =~= theirs);
        self.rebuild_sequence();
    }
}

} // verus!

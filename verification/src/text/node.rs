//! Characters of a replicated text: their ids, their nodes and the operations
//! that carry them between replicas.

use crate::clock::LogicalClock;
use crate::ident::{ReplicaId, Uuid};
use std::cmp::Ordering;
use vstd::prelude::*;

verus! {

/// Unique identifier for a character in the text.
///
/// Ids are ordered by timestamp, then by UUID.
#[derive(Debug, Clone, Copy, PartialEq, Eq, Structural, Ord, Hash)]
pub struct CharId {
    /// Logical timestamp when the character was inserted
    pub timestamp: LogicalClock,
    /// Unique ID for disambiguation
    pub uuid: Uuid,
}

impl CharId {
    /// The id that stands for the beginning of every document.
    pub open spec fn spec_root() -> CharId {
        CharId {
            timestamp: LogicalClock { counter: 0, replica: ReplicaId(Uuid::spec_nil()) },
            uuid: Uuid::spec_nil(),
        }
    }

    /// Whether the UUID part is nil, as it is in the root id.
    pub open spec fn nil(self) -> bool {
        self.uuid == Uuid::spec_nil()
    }

    /// Whether this id comes before another.
    pub open spec fn before(self, other: CharId) -> bool {
        ||| self.timestamp.before(other.timestamp)
        ||| self.timestamp == other.timestamp && self.uuid.before(other.uuid)
    }

    /// Create a new character ID with a random UUID, which is never nil.
    pub fn new(timestamp: LogicalClock) -> (id: CharId)
        ensures
            id.timestamp == timestamp,
            !id.nil(),
    {
        CharId { timestamp, uuid: Uuid::new_v4() }
    }

    /// Special ID for the beginning of the document.
    pub fn root() -> (id: CharId)
        ensures
            id == CharId::spec_root(),
    {
        CharId {
            timestamp: LogicalClock::new(0, ReplicaId::from_uuid(Uuid::nil())),
            uuid: Uuid::nil(),
        }
    }

    /// Check if this is the root ID.
    pub fn is_root(&self) -> (root: bool)
        ensures
            root == self.nil(),
    {
        self.uuid == Uuid::nil()
    }

    /// Whether this id comes before another.
    pub fn is_before(&self, other: &CharId) -> (before: bool)
        ensures
            before == self.before(*other),
    {
        other.timestamp.is_after(&self.timestamp) || self.timestamp == other.timestamp
            && self.uuid.bits < other.uuid.bits
    }
}

impl PartialOrd for CharId {
    fn partial_cmp(&self, other: &Self) -> (ordering: Option<Ordering>) {
        if self.is_before(other) {
            Some(Ordering::Less)
        } else if *self == *other {
            Some(Ordering::Equal)
        } else {
            Some(Ordering::Greater)
        }
    }
}

impl vstd::std_specs::cmp::PartialOrdSpecImpl for CharId {
    open spec fn obeys_partial_cmp_spec() -> bool {
        true
    }

    open spec fn partial_cmp_spec(&self, other: &Self) -> Option<Ordering> {
        if self.before(*other) {
            Some(Ordering::Less)
        } else if *self == *other {
            Some(Ordering::Equal)
        } else {
            Some(Ordering::Greater)
        }
    }
}

/// The ids are totally ordered: of two different ids one comes before the other.
pub proof fn ids_are_totally_ordered(a: CharId, b: CharId)
    ensures
        a.before(b) || b.before(a) || a == b,
        !(a.before(b) && b.before(a)),
        !a.before(a),
{
}

/// The order of ids is transitive.
pub proof fn id_order_is_transitive(a: CharId, b: CharId, c: CharId)
    requires
        a.before(b),
        b.before(c),
    ensures
        a.before(c),
{
}

/// A character node in the text.
#[derive(Debug, Clone, Copy, PartialEq, Eq, Structural)]
pub struct CharNode {
    /// Character ID
    pub id: CharId,
    /// The character value.
    ///
    /// This is `None` for the synthetic root node, and for a character whose
    /// deletion is known before its insertion. Deleting a character sets the
    /// [`deleted`](Self::deleted) tombstone flag but *preserves* the original
    /// value, so that it can be replayed faithfully during sync.
    pub value: Option<char>,
    /// ID of the character this was inserted after
    pub after: CharId,
    /// Tombstone flag: `true` once the character has been deleted.
    pub deleted: bool,
}

impl CharNode {
    /// The node of a character that was just inserted.
    pub open spec fn fresh(id: CharId, value: char, after: CharId) -> CharNode {
        CharNode { id, value: Some(value), after, deleted: false }
    }

    /// The node of a document's beginning.
    pub open spec fn spec_root() -> CharNode {
        CharNode {
            id: CharId::spec_root(),
            value: None,
            after: CharId::spec_root(),
            deleted: false,
        }
    }

    /// The node that records a deletion whose insertion is not known yet.
    pub open spec fn placeholder(id: CharId) -> CharNode {
        CharNode { id, value: None, after: CharId::spec_root(), deleted: true }
    }

    /// Whether the node shows a character.
    pub open spec fn visible(self) -> bool {
        !self.deleted && self.value is Some
    }

    /// The node with its tombstone set.
    pub open spec fn tombstoned(self) -> CharNode {
        CharNode { id: self.id, value: self.value, after: self.after, deleted: true }
    }

    /// Create a new character node.
    pub fn new(id: CharId, value: char, after: CharId) -> (node: CharNode)
        ensures
            node == CharNode::fresh(id, value, after),
    {
        CharNode { id, value: Some(value), after, deleted: false }
    }

    /// Check if this node is deleted (tombstoned).
    pub fn is_deleted(&self) -> (deleted: bool)
        ensures
            deleted == self.deleted,
    {
        self.deleted
    }

    /// Check if this node is visible (has content and is not tombstoned).
    pub fn is_visible(&self) -> (visible: bool)
        ensures
            visible == self.visible(),
    {
        !self.deleted && self.value.is_some()
    }

    /// Delete this node (tombstone). The original value is preserved so the
    /// deletion can be replayed as a real `Delete` op rather than losing data.
    pub fn delete(&mut self)
        ensures
            *final(self) == old(self).tombstoned(),
    {
        self.deleted = true;
    }
}

/// Text operation.
#[derive(Debug, Clone, Copy, PartialEq, Eq, Structural)]
pub enum TextOp {
    /// Insert a character after a given position
    Insert {
        /// Id of the new character
        id: CharId,
        /// The new character
        value: char,
        /// Id of the character that it follows
        after: CharId,
    },
    /// Delete a character
    Delete {
        /// Id of the deleted character
        id: CharId,
    },
}

impl TextOp {
    /// The character that the operation is about.
    pub open spec fn target(self) -> CharId {
        match self {
            TextOp::Insert { id, .. } => id,
            TextOp::Delete { id } => id,
        }
    }
}

} // verus!

//! What a document is, and what each operation makes of it.

use crate::clock::LogicalClock;
use crate::counter::PnState;
use crate::counts::{count_of, counts_join};
use crate::ident::ReplicaId;
use crate::lww_map::{has_key, maps_join};
use crate::or_set::TaggedState;
use crate::register::Written;
use crate::text::model::TextState;
use crate::time::Timestamp;
use vstd::prelude::*;

verus! {

/// The state of a field.
pub enum FieldState {
    /// A string register
    String(Written<Seq<char>>),
    /// An integer register
    Integer(Written<i64>),
    /// A register of floating-point bit patterns
    Float(Written<u64>),
    /// A boolean register
    Boolean(Written<bool>),
    /// A counter
    Counter(PnState),
    /// A set of strings
    StringSet(TaggedState<Seq<char>>),
    /// A map of strings
    StringMap(Map<Seq<char>, Written<Option<Seq<char>>>>),
    /// A text
    Text(TextState),
}

impl FieldState {
    /// The state of a field on two replicas together. Where they hold different
    /// types of values, the first replica keeps its own.
    pub open spec fn joined(self, other: FieldState) -> FieldState {
        match (self, other) {
            (FieldState::String(a), FieldState::String(b)) => FieldState::String(a.joined(b)),
            (FieldState::Integer(a), FieldState::Integer(b)) => FieldState::Integer(a.joined(b)),
            (FieldState::Float(a), FieldState::Float(b)) => FieldState::Float(a.joined(b)),
            (FieldState::Boolean(a), FieldState::Boolean(b)) => FieldState::Boolean(a.joined(b)),
            (FieldState::Counter(a), FieldState::Counter(b)) => FieldState::Counter(a.joined(b)),
            (FieldState::StringSet(a), FieldState::StringSet(b)) => FieldState::StringSet(
                a.joined(b),
            ),
            (FieldState::StringMap(a), FieldState::StringMap(b)) => FieldState::StringMap(
                maps_join(a, b),
            ),
            (FieldState::Text(a), FieldState::Text(b)) => FieldState::Text(a.join(b)),
            _ => self,
        }
    }
}

/// The fields of two replicas together.
pub open spec fn fields_join(
    ours: Map<Seq<char>, FieldState>,
    theirs: Map<Seq<char>, FieldState>,
) -> Map<Seq<char>, FieldState> {
    Map::new(
        |name: Seq<char>| ours.contains_key(name) || theirs.contains_key(name),
        |name: Seq<char>|
            if !ours.contains_key(name) {
                theirs[name]
            } else if !theirs.contains_key(name) {
                ours[name]
            } else {
                ours[name].joined(theirs[name])
            },
    )
}

/// The state of a document.
#[verifier::ext_equal]
pub struct DocState {
    /// Document ID
    pub id: Seq<char>,
    /// Replica ID
    pub replica: ReplicaId,
    /// Logical clock
    pub clock: LogicalClock,
    /// Vector clock for causality tracking
    pub vclock: Map<ReplicaId, u64>,
    /// Document fields
    pub fields: Map<Seq<char>, FieldState>,
    /// Document version
    pub version: u64,
    /// Created timestamp
    pub created_at: Timestamp,
    /// Updated timestamp
    pub updated_at: Timestamp,
}

impl DocState {
    /// A new document.
    pub open spec fn fresh(id: Seq<char>, replica: ReplicaId, now: Timestamp) -> DocState {
        DocState {
            id,
            replica,
            clock: LogicalClock { counter: 0, replica },
            vclock: Map::empty(),
            fields: Map::empty(),
            version: 0,
            created_at: now,
            updated_at: now,
        }
    }

    /// Whether one more change can be counted.
    pub open spec fn can_tick(self) -> bool {
        &&& self.clock.counter < u64::MAX
        &&& self.version < u64::MAX
        &&& count_of(self.vclock, self.replica) < u64::MAX
    }

    /// The document after a change is counted at some time.
    pub open spec fn ticked(self, now: Timestamp) -> DocState {
        DocState {
            clock: LogicalClock {
                counter: (self.clock.counter + 1) as u64,
                replica: self.clock.replica,
            },
            vclock: self.vclock.insert(
                self.replica,
                (count_of(self.vclock, self.replica) + 1) as u64,
            ),
            version: (self.version + 1) as u64,
            updated_at: now,
            ..self
        }
    }

    /// The document with another state of a field.
    pub open spec fn with_field(self, name: Seq<char>, state: FieldState) -> DocState {
        DocState { fields: self.fields.insert(name, state), ..self }
    }

    /// What a field becomes by writing a string at the document's time.
    pub open spec fn string_written(self, name: Seq<char>, value: Seq<char>) -> FieldState {
        if self.fields.contains_key(name) && self.fields[name] is String {
            FieldState::String(self.fields[name]->String_0.overwritten(value, self.clock))
        } else {
            FieldState::String(Written { value, timestamp: self.clock })
        }
    }

    /// What a field becomes by writing an integer at the document's time.
    pub open spec fn integer_written(self, name: Seq<char>, value: i64) -> FieldState {
        if self.fields.contains_key(name) && self.fields[name] is Integer {
            FieldState::Integer(self.fields[name]->Integer_0.overwritten(value, self.clock))
        } else {
            FieldState::Integer(Written { value, timestamp: self.clock })
        }
    }

    /// What a field becomes by writing a boolean at the document's time.
    pub open spec fn boolean_written(self, name: Seq<char>, value: bool) -> FieldState {
        if self.fields.contains_key(name) && self.fields[name] is Boolean {
            FieldState::Boolean(self.fields[name]->Boolean_0.overwritten(value, self.clock))
        } else {
            FieldState::Boolean(Written { value, timestamp: self.clock })
        }
    }

    /// The counter of a field; a field that is no counter counts as a new one.
    pub open spec fn counter(self, name: Seq<char>) -> PnState {
        if self.fields.contains_key(name) && self.fields[name] is Counter {
            self.fields[name]->Counter_0
        } else {
            PnState::zero()
        }
    }

    /// The set of a field; a field that is no set counts as an empty one.
    pub open spec fn set(self, name: Seq<char>) -> TaggedState<Seq<char>> {
        if self.fields.contains_key(name) && self.fields[name] is StringSet {
            self.fields[name]->StringSet_0
        } else {
            TaggedState::empty()
        }
    }

    /// The map of a field; a field that is no map counts as an empty one.
    pub open spec fn map(self, name: Seq<char>) -> Map<Seq<char>, Written<Option<Seq<char>>>> {
        if self.fields.contains_key(name) && self.fields[name] is StringMap {
            self.fields[name]->StringMap_0
        } else {
            Map::empty()
        }
    }

    /// The text of a field; a field that is no text counts as a new one.
    pub open spec fn text(self, name: Seq<char>) -> TextState {
        if self.fields.contains_key(name) && self.fields[name] is Text {
            self.fields[name]->Text_0
        } else {
            TextState::empty(self.replica)
        }
    }

    /// The string that a field shows.
    pub open spec fn string_value(self, name: Seq<char>) -> Option<Seq<char>> {
        if self.fields.contains_key(name) && self.fields[name] is String {
            Some(self.fields[name]->String_0.value)
        } else {
            None
        }
    }

    /// The integer that a field shows.
    pub open spec fn integer_value(self, name: Seq<char>) -> Option<i64> {
        if self.fields.contains_key(name) && self.fields[name] is Integer {
            Some(self.fields[name]->Integer_0.value)
        } else {
            None
        }
    }

    /// The boolean that a field shows.
    pub open spec fn boolean_value(self, name: Seq<char>) -> Option<bool> {
        if self.fields.contains_key(name) && self.fields[name] is Boolean {
            Some(self.fields[name]->Boolean_0.value)
        } else {
            None
        }
    }

    /// The entry that a map field shows under a key.
    pub open spec fn map_value(self, name: Seq<char>, key: Seq<char>) -> Option<Seq<char>> {
        if has_key(self.map(name), key) {
            self.map(name)[key].value
        } else {
            None
        }
    }

    /// The document after it is merged with another replica's.
    pub open spec fn joined(self, other: DocState) -> DocState {
        DocState {
            id: self.id,
            replica: self.replica,
            clock: self.clock.joined(other.clock),
            vclock: counts_join(self.vclock, other.vclock),
            fields: fields_join(self.fields, other.fields),
            version: if self.version < other.version {
                other.version
            } else {
                self.version
            },
            created_at: self.created_at,
            updated_at: if self.updated_at.before(other.updated_at) {
                other.updated_at
            } else {
                self.updated_at
            },
        }
    }
}

} // verus!

//! Collaborative documents.

use crate::clock::LogicalClock;
use crate::counter::PnCounter;
use crate::counts::{count_of, counts_join};
use crate::document::field::FieldValue;
use crate::document::model::{fields_join, DocState, FieldState};
use crate::element::Sound;
use crate::ident::{is_random_uuid, ReplicaId};
use crate::items::enumerates;
use crate::lww_map::{written_under, LwwMap};
use crate::or_set::{OrSet, TaggedState};
use crate::register::LwwRegister;
use crate::table::{
    gathered, gathered_pairs_hold_the_last_values, meanings, pair_meanings, Table,
};
use crate::text::rga::RgaText;
use crate::time::Timestamp;
use crate::vector_clock::VectorClock;
use vstd::prelude::*;

verus! {

/// Change event for a document.
#[derive(Debug, Clone)]
pub struct DocumentChange {
    /// Document ID
    pub doc_id: String,
    /// Field that changed
    pub field: String,
    /// Type of change
    pub change_type: ChangeType,
    /// Replica that made the change
    pub replica: ReplicaId,
    /// Timestamp of the change
    pub timestamp: LogicalClock,
}

/// Type of document change.
#[derive(Debug, Clone, Copy, PartialEq, Eq, Structural)]
pub enum ChangeType {
    /// Field was updated
    Update,
    /// Field was created
    Create,
    /// Field was deleted
    Delete,
}

/// A collaborative document.
#[derive(Debug)]
pub struct Document {
    /// Document ID
    pub id: String,
    /// Replica ID
    replica: ReplicaId,
    /// Logical clock
    clock: LogicalClock,
    /// Vector clock for causality tracking
    vclock: VectorClock,
    /// Document fields
    fields: Table<String, FieldValue>,
    /// Document version
    version: u64,
    /// Created timestamp
    created_at: Timestamp,
    /// Updated timestamp
    updated_at: Timestamp,
}

/// The parts of a document, for its transfer.
#[derive(Debug)]
pub struct DocumentParts {
    /// Document ID
    pub id: String,
    /// Replica ID
    pub replica: ReplicaId,
    /// Logical clock
    pub clock: LogicalClock,
    /// Vector clock
    pub vclock: VectorClock,
    /// Document fields
    pub fields: Vec<(String, FieldValue)>,
    /// Document version
    pub version: u64,
    /// Created timestamp
    pub created_at: Timestamp,
    /// Updated timestamp
    pub updated_at: Timestamp,
}

impl DocumentParts {
    /// The document that the parts make up; of two fields of one name the later one
    /// holds.
    pub open spec fn whole(self) -> DocState {
        DocState {
            id: self.id@,
            replica: self.replica,
            clock: self.clock,
            vclock: self.vclock@,
            fields: gathered(pair_meanings(self.fields@)),
            version: self.version,
            created_at: self.created_at,
            updated_at: self.updated_at,
        }
    }
}

impl View for Document {
    type V = DocState;

    closed spec fn view(&self) -> DocState {
        DocState {
            id: self.id@,
            replica: self.replica,
            clock: self.clock,
            vclock: self.vclock@,
            fields: self.fields.deep_view(),
            version: self.version,
            created_at: self.created_at,
            updated_at: self.updated_at,
        }
    }
}

impl Clone for Document {
    fn clone(&self) -> (copy: Document)
        ensures
            self.valid() ==> copy.valid() && copy@ == self@,
    {
        Document {
            id: self.id.clone(),
            replica: self.replica,
            clock: self.clock,
            vclock: self.vclock.clone(),
            fields: self.fields.duplicate(),
            version: self.version,
            created_at: self.created_at,
            updated_at: self.updated_at,
        }
    }
}

impl Document {
    /// Whether the representation is sound.
    pub closed spec fn valid(&self) -> bool {
        self.fields.wf()
    }

    /// Create a new document on a random replica.
    pub fn new(id: &str) -> (doc: Document)
        ensures
            doc.valid(),
            doc@ == DocState::fresh(id@, doc@.replica, doc@.created_at),
            is_random_uuid(doc@.replica.0.bits),
            doc@.created_at.is_clock_reading(),
    {
        Document::with_replica(id, ReplicaId::new())
    }

    /// Create a document with a specific replica ID.
    pub fn with_replica(id: &str, replica: ReplicaId) -> (doc: Document)
        ensures
            doc.valid(),
            doc@ == DocState::fresh(id@, replica, doc@.created_at),
            doc@.created_at.is_clock_reading(),
    {
        Document::with_replica_at(id, replica, Timestamp::now())
    }

    /// Create a document with a specific replica ID and time of creation.
    pub fn with_replica_at(id: &str, replica: ReplicaId, now: Timestamp) -> (doc: Document)
        ensures
            doc.valid(),
            doc@ == DocState::fresh(id@, replica, now),
    {
        let doc = Document {
            id: id.to_owned(),
            replica,
            clock: LogicalClock::new(0, replica),
            vclock: VectorClock::new(),
            fields: Table::new(),
            version: 0,
            created_at: now,
            updated_at: now,
        };
        assert(doc@ =~= DocState::fresh(id@, replica, now));
        doc
    }

    /// The document that some parts make up.
    pub fn from_parts(parts: DocumentParts) -> (doc: Document)
        requires
            forall|i: int| 0 <= i < parts.fields@.len() ==> (#[trigger] parts.fields@[i]).1.valid(),
        ensures
            doc.valid(),
            doc@ == parts.whole(),
    {
        Document {
            id: parts.id,
            replica: parts.replica,
            clock: parts.clock,
            vclock: parts.vclock,
            fields: Table::from_pairs(parts.fields),
            version: parts.version,
            created_at: parts.created_at,
            updated_at: parts.updated_at,
        }
    }

    /// The parts of the document.
    pub fn parts(&self) -> (parts: DocumentParts)
        requires
            self.valid(),
        ensures
            parts.whole() == self@,
            forall|i: int| 0 <= i < parts.fields@.len() ==> (#[trigger] parts.fields@[i]).1.valid(),
    {
        let pairs = self.fields.pairs();
        let mut fields: Vec<(String, FieldValue)> = Vec::new();
        let mut i: usize = 0;
        while i < pairs.len()
            invariant
                i <= pairs@.len(),
                i == fields@.len(),
                forall|k: int| 0 <= k < pairs@.len() ==> (#[trigger] pairs@[k]).1.valid(),
                forall|k: int|
                    0 <= k < i ==> {
                        &&& (#[trigger] fields@[k]).0@ == pairs@[k].0@
                        &&& fields@[k].1.valid()
                        &&& fields@[k].1@ == pairs@[k].1@
                    },
            decreases pairs@.len() - i,
        {
            let pair = &pairs[i];
            assert(pairs@[i as int].1.valid());
            fields.push((pair.0.clone(), pair.1.clone()));
            i = i + 1;
        }
        assert(pair_meanings(fields@) =~= pair_meanings(pairs@));
        DocumentParts {
            id: self.id.clone(),
            replica: self.replica,
            clock: self.clock,
            vclock: self.vclock.clone(),
            fields,
            version: self.version,
            created_at: self.created_at,
            updated_at: self.updated_at,
        }
    }

    /// Get the document ID.
    pub fn id(&self) -> (id: &str)
        ensures
            id@ == self@.id,
    {
        self.id.as_str()
    }

    /// Get the replica ID.
    pub fn replica(&self) -> (replica: ReplicaId)
        ensures
            replica == self@.replica,
    {
        self.replica
    }

    /// Get the current version.
    pub fn version(&self) -> (version: u64)
        ensures
            version == self@.version,
    {
        self.version
    }

    /// Bump the document version (e.g. to mark an externally-applied change) and
    /// return the new version number.
    pub fn bump_version(&mut self) -> (version: u64)
        requires
            old(self).valid(),
            old(self)@.version < u64::MAX,
        ensures
            final(self).valid(),
            version == old(self)@.version + 1,
            final(self)@ == (DocState {
                version,
                updated_at: final(self)@.updated_at,
                ..old(self)@
            }),
            final(self)@.updated_at.is_clock_reading(),
    {
        self.version = self.version + 1;
        self.updated_at = Timestamp::now();
        self.version
    }

    /// Tick the clock and return the new timestamp.
    fn tick(&mut self) -> (timestamp: LogicalClock)
        requires
            old(self).valid(),
            old(self)@.can_tick(),
        ensures
            final(self).valid(),
            timestamp == final(self)@.clock,
            final(self)@ == old(self)@.ticked(final(self)@.updated_at),
            final(self)@.updated_at.is_clock_reading(),
            final(self).fields == old(self).fields,
    {
        self.vclock.increment(self.replica);
        self.version = self.version + 1;
        self.updated_at = Timestamp::now();
        self.clock.tick()
    }

    /// Puts a value in the place of a field.
    fn put(&mut self, field: &str, value: FieldValue)
        requires
            old(self).valid(),
            value.valid(),
        ensures
            final(self).valid(),
            final(self)@ == old(self)@.with_field(field@, value@),
    {
        let ghost before = self@;
        self.fields.insert(field.to_owned(), value);
        assert(self@ =~= before.with_field(field@, value@));
    }

    /// The value of a field.
    fn find(&self, field: &str) -> (value: Option<&FieldValue>)
        requires
            self.valid(),
        ensures
            match value {
                Some(v) => {
                    &&& self@.fields.contains_key(field@)
                    &&& v@ == self@.fields[field@]
                    &&& v.valid()
                },
                None => !self@.fields.contains_key(field@),
            },
    {
        self.fields.get(&field.to_owned())
    }

    /// A reference through which the value of a field can be changed; it has to be
    /// left sound.
    fn find_mut(&mut self, field: &str) -> (value: Option<&mut FieldValue>)
        requires
            old(self).valid(),
        ensures
            match value {
                Some(v) => {
                    &&& old(self)@.fields.contains_key(field@)
                    &&& v@ == old(self)@.fields[field@]
                    &&& v.valid()
                    &&& final(v).valid() ==> final(self).valid()
                    &&& final(self)@ == old(self)@.with_field(field@, final(v)@)
                },
                None => {
                    &&& !old(self)@.fields.contains_key(field@)
                    &&& final(self)@ == old(self)@
                    &&& final(self).valid()
                },
            },
    {
        let ghost before = self.fields@;
        proof {
            assert forall|value: FieldValue|
                (#[trigger] before.insert(field@, value)).map_values(
                    |v: FieldValue| v.deep_view(),
                ) == before.map_values(|v: FieldValue| v.deep_view()).insert(field@, value@) by {
                assert(before.insert(field@, value).map_values(|v: FieldValue| v.deep_view())
                    =~= before.map_values(|v: FieldValue| v.deep_view()).insert(field@, value@));
            }
        }
        self.fields.get_mut(&field.to_owned())
    }

    /// Set a string field.
    pub fn set_string(&mut self, field: &str, value: &str)
        requires
            old(self).valid(),
            old(self)@.can_tick(),
        ensures
            final(self).valid(),
            ({
                let ticked = old(self)@.ticked(final(self)@.updated_at);
                final(self)@ == ticked.with_field(field@, ticked.string_written(field@, value@))
            }),
            final(self)@.updated_at.is_clock_reading(),
    {
        let ts = self.tick();
        let ghost ticked = self@;
        let written = match self.find_mut(field) {
            Some(FieldValue::String(register)) => {
                register.set(value.to_owned(), ts);
                true
            },
            _ => false,
        };
        if !written {
            assert(self@ =~= ticked);
            self.put(field, FieldValue::String(LwwRegister::new(value.to_owned(), ts)));
        }
    }

    /// Get a string field.
    pub fn get_string(&self, field: &str) -> (value: Option<&str>)
        requires
            self.valid(),
        ensures
            match value {
                Some(v) => self@.string_value(field@) == Some(v@),
                None => self@.string_value(field@) is None,
            },
    {
        match self.find(field) {
            Some(FieldValue::String(register)) => Some(register.get().as_str()),
            _ => None,
        }
    }

    /// Set an integer field.
    pub fn set_integer(&mut self, field: &str, value: i64)
        requires
            old(self).valid(),
            old(self)@.can_tick(),
        ensures
            final(self).valid(),
            ({
                let ticked = old(self)@.ticked(final(self)@.updated_at);
                final(self)@ == ticked.with_field(field@, ticked.integer_written(field@, value))
            }),
            final(self)@.updated_at.is_clock_reading(),
    {
        let ts = self.tick();
        let ghost ticked = self@;
        let written = match self.find_mut(field) {
            Some(FieldValue::Integer(register)) => {
                register.set(value, ts);
                true
            },
            _ => false,
        };
        if !written {
            assert(self@ =~= ticked);
            self.put(field, FieldValue::Integer(LwwRegister::new(value, ts)));
        }
    }

    /// Get an integer field.
    pub fn get_integer(&self, field: &str) -> (value: Option<i64>)
        requires
            self.valid(),
        ensures
            value == self@.integer_value(field@),
    {
        match self.find(field) {
            Some(FieldValue::Integer(register)) => Some(*register.get()),
            _ => None,
        }
    }

    /// Set a boolean field.
    pub fn set_boolean(&mut self, field: &str, value: bool)
        requires
            old(self).valid(),
            old(self)@.can_tick(),
        ensures
            final(self).valid(),
            ({
                let ticked = old(self)@.ticked(final(self)@.updated_at);
                final(self)@ == ticked.with_field(field@, ticked.boolean_written(field@, value))
            }),
            final(self)@.updated_at.is_clock_reading(),
    {
        let ts = self.tick();
        let ghost ticked = self@;
        let written = match self.find_mut(field) {
            Some(FieldValue::Boolean(register)) => {
                register.set(value, ts);
                true
            },
            _ => false,
        };
        if !written {
            assert(self@ =~= ticked);
            self.put(field, FieldValue::Boolean(LwwRegister::new(value, ts)));
        }
    }

    /// Get a boolean field.
    pub fn get_boolean(&self, field: &str) -> (value: Option<bool>)
        requires
            self.valid(),
        ensures
            value == self@.boolean_value(field@),
    {
        match self.find(field) {
            Some(FieldValue::Boolean(register)) => Some(*register.get()),
            _ => None,
        }
    }

    /// Increment a counter field.
    pub fn increment(&mut self, field: &str)
        requires
            old(self).valid(),
            old(self)@.can_tick(),
            count_of(old(self)@.counter(field@).positive, old(self)@.replica) < u64::MAX,
        ensures
            final(self).valid(),
            ({
                let ticked = old(self)@.ticked(final(self)@.updated_at);
                final(self)@ == ticked.with_field(
                    field@,
                    FieldState::Counter(ticked.counter(field@).incremented(ticked.replica)),
                )
            }),
            final(self)@.updated_at.is_clock_reading(),
    {
        self.tick();
        let ghost ticked = self@;
        let replica = self.replica;
        let counted = match self.find_mut(field) {
            Some(FieldValue::Counter(counter)) => {
                counter.increment(replica);
                true
            },
            _ => false,
        };
        if !counted {
            assert(self@ =~= ticked);
            let mut counter = PnCounter::new();
            counter.increment(replica);
            self.put(field, FieldValue::Counter(counter));
        }
    }

    /// Decrement a counter field.
    pub fn decrement(&mut self, field: &str)
        requires
            old(self).valid(),
            old(self)@.can_tick(),
            count_of(old(self)@.counter(field@).negative, old(self)@.replica) < u64::MAX,
        ensures
            final(self).valid(),
            ({
                let ticked = old(self)@.ticked(final(self)@.updated_at);
                final(self)@ == ticked.with_field(
                    field@,
                    FieldState::Counter(ticked.counter(field@).decremented(ticked.replica)),
                )
            }),
            final(self)@.updated_at.is_clock_reading(),
    {
        self.tick();
        let ghost ticked = self@;
        let replica = self.replica;
        let counted = match self.find_mut(field) {
            Some(FieldValue::Counter(counter)) => {
                counter.decrement(replica);
                true
            },
            _ => false,
        };
        if !counted {
            assert(self@ =~= ticked);
            let mut counter = PnCounter::new();
            counter.decrement(replica);
            self.put(field, FieldValue::Counter(counter));
        }
    }

    /// Get a counter value: zero for a field that is no counter.
    pub fn get_counter(&self, field: &str) -> (value: i64)
        requires
            self.valid(),
            self@.counter(field@).fits(),
        ensures
            value == self@.counter(field@).value(),
    {
        match self.find(field) {
            Some(FieldValue::Counter(counter)) => counter.value(),
            _ => {
                assert(Map::<ReplicaId, u64>::empty().dom().len() == 0);
                0
            },
        }
    }

    /// Add to a set field.
    pub fn add_to_set(&mut self, field: &str, value: &str)
        requires
            old(self).valid(),
            old(self)@.can_tick(),
        ensures
            final(self).valid(),
            ({
                let ticked = old(self)@.ticked(final(self)@.updated_at);
                final(self)@ == ticked.with_field(
                    field@,
                    FieldState::StringSet(ticked.set(field@).added(value@, ticked.clock)),
                )
            }),
            final(self)@.updated_at.is_clock_reading(),
    {
        let ts = self.tick();
        let ghost ticked = self@;
        let added = match self.find_mut(field) {
            Some(FieldValue::StringSet(set)) => {
                set.add(value.to_owned(), ts);
                true
            },
            _ => false,
        };
        if !added {
            assert(self@ =~= ticked);
            let mut set: OrSet<String> = OrSet::new();
            set.add(value.to_owned(), ts);
            self.put(field, FieldValue::StringSet(set));
        }
    }

    /// Remove from a set field. A field that is no set stays as it is.
    pub fn remove_from_set(&mut self, field: &str, value: &str)
        requires
            old(self).valid(),
            old(self)@.can_tick(),
        ensures
            final(self).valid(),
            ({
                let ticked = old(self)@.ticked(final(self)@.updated_at);
                final(self)@ == if ticked.fields.contains_key(field@)
                    && ticked.fields[field@] is StringSet {
                    ticked.with_field(
                        field@,
                        FieldState::StringSet(ticked.set(field@).removed(value@)),
                    )
                } else {
                    ticked
                }
            }),
            final(self)@.updated_at.is_clock_reading(),
    {
        self.tick();
        let ghost ticked = self@;
        let removed = match self.find_mut(field) {
            Some(FieldValue::StringSet(set)) => {
                set.remove(&value.to_owned());
                true
            },
            _ => false,
        };
        if !removed {
            assert(self@ =~= ticked);
        }
    }

    /// Check if a set contains a value.
    pub fn set_contains(&self, field: &str, value: &str) -> (found: bool)
        requires
            self.valid(),
        ensures
            found == self@.set(field@).has(value@),
    {
        match self.find(field) {
            Some(FieldValue::StringSet(set)) => set.contains(&value.to_owned()),
            _ => false,
        }
    }

    /// Get all values from a set, in some order.
    pub fn get_set(&self, field: &str) -> (values: Vec<String>)
        requires
            self.valid(),
        ensures
            enumerates(meanings(values@), self@.set(field@).members()),
    {
        let mut values: Vec<String> = Vec::new();
        match self.find(field) {
            Some(FieldValue::StringSet(set)) => {
                let elements = set.elements();
                let mut i: usize = 0;
                while i < elements.len()
                    invariant
                        i <= elements@.len(),
                        i == values@.len(),
                        forall|k: int| 0 <= k < i ==> #[trigger] values@[k] == *elements@[k],
                    decreases elements@.len() - i,
                {
                    values.push(elements[i].clone());
                    i = i + 1;
                }
                assert(meanings(values@) =~= meanings(elements@));
            },
            _ => {
                assert(meanings(values@) =~= Seq::empty());
                assert(meanings(values@).to_set() =~= Set::empty());
                assert(TaggedState::<Seq<char>>::empty().members() =~= Set::empty());
            },
        }
        values
    }

    /// Set a map entry.
    pub fn set_map_entry(&mut self, field: &str, key: &str, value: &str)
        requires
            old(self).valid(),
            old(self)@.can_tick(),
        ensures
            final(self).valid(),
            ({
                let ticked = old(self)@.ticked(final(self)@.updated_at);
                final(self)@ == ticked.with_field(
                    field@,
                    FieldState::StringMap(
                        written_under(ticked.map(field@), key@, Some(value@), ticked.clock),
                    ),
                )
            }),
            final(self)@.updated_at.is_clock_reading(),
    {
        let ts = self.tick();
        let ghost ticked = self@;
        let written = match self.find_mut(field) {
            Some(FieldValue::StringMap(map)) => {
                map.set(key.to_owned(), value.to_owned(), ts);
                true
            },
            _ => false,
        };
        if !written {
            assert(self@ =~= ticked);
            let mut map: LwwMap<String, String> = LwwMap::new();
            map.set(key.to_owned(), value.to_owned(), ts);
            self.put(field, FieldValue::StringMap(map));
        }
    }

    /// Get a map entry.
    pub fn get_map_entry(&self, field: &str, key: &str) -> (value: Option<&str>)
        requires
            self.valid(),
        ensures
            match value {
                Some(v) => self@.map_value(field@, key@) == Some(v@),
                None => self@.map_value(field@, key@) is None,
            },
    {
        match self.find(field) {
            Some(FieldValue::StringMap(map)) => match map.get(&key.to_owned()) {
                Some(value) => Some(value.as_str()),
                None => None,
            },
            _ => None,
        }
    }

    /// Create or get a text field. What is done to the text through the reference
    /// is done to the field; no change is counted.
    pub fn text(&mut self, field: &str) -> (text: &mut RgaText)
        requires
            old(self).valid(),
        ensures
            text.wf(),
            text@ == old(self)@.text(field@),
            final(text).wf() ==> final(self).valid(),
            final(self)@ == old(self)@.with_field(field@, FieldState::Text(final(text)@)),
    {
        let ghost before = self@;
        let present = match self.find(field) {
            Some(FieldValue::Text(_)) => true,
            _ => false,
        };
        if !present {
            self.put(field, FieldValue::Text(RgaText::new(self.replica)));
        }
        let ghost middle = self@;
        proof {
            assert forall|state: FieldState|
                #[trigger] middle.with_field(field@, state) == before.with_field(field@, state) by {
                assert(middle.with_field(field@, state) =~= before.with_field(field@, state));
            }
        }
        match self.find_mut(field) {
            Some(FieldValue::Text(text)) => text,
            _ => vstd::pervasive::unreached(),
        }
    }

    /// Get text content.
    pub fn get_text(&self, field: &str) -> (text: Option<String>)
        requires
            self.valid(),
        ensures
            match text {
                Some(t) => {
                    &&& self@.fields.contains_key(field@)
                    &&& self@.fields[field@] is Text
                    &&& t@ == self@.text(field@).chars()
                },
                None => !(self@.fields.contains_key(field@) && self@.fields[field@] is Text),
            },
    {
        match self.find(field) {
            Some(FieldValue::Text(text)) => Some(text.to_string()),
            _ => None,
        }
    }

    /// Get all field names, in some order.
    pub fn fields(&self) -> (names: Vec<&str>)
        requires
            self.valid(),
        ensures
            enumerates(meanings(names@), self@.fields.dom()),
    {
        let mut names: Vec<&str> = Vec::new();
        let ghost order = self.fields.order();
        let n = self.fields.len();
        let mut i: usize = 0;
        while i < n
            invariant
                i <= n,
                n == order.len(),
                order == self.fields.order(),
                self.valid(),
                i == names@.len(),
                forall|k: int| 0 <= k < i ==> (#[trigger] names@[k])@ == order[k],
            decreases n - i,
        {
            names.push(self.fields.key_at(i).as_str());
            i = i + 1;
        }
        proof {
            self.fields.order_lists_the_keys();
            assert(meanings(names@) =~= order);
            assert(self@.fields.dom() =~= self.fields@.dom());
        }
        names
    }

    /// Check if a field exists.
    pub fn has_field(&self, field: &str) -> (found: bool)
        requires
            self.valid(),
        ensures
            found == self@.fields.contains_key(field@),
    {
        match self.find(field) {
            Some(_) => true,
            None => false,
        }
    }

    /// Merge with another document.
    ///
    /// Each field is merged with the other document's field of the same name; a
    /// field of another type there is passed over.
    pub fn merge(&mut self, other: &Document)
        requires
            old(self).valid(),
            other.valid(),
        ensures
            final(self).valid(),
            final(self)@ == old(self)@.joined(other@),
    {
        let ghost ours = self@;
        let ghost theirs = other@;
        self.vclock.merge(&other.vclock);
        self.clock.merge(&other.clock);
        let ghost order = other.fields.order();
        let n = other.fields.len();
        let mut i: usize = 0;
        proof {
            other.fields.order_lists_the_keys();
            assert(self.fields.deep_view() =~= fields_join(
                ours.fields,
                theirs.fields.restrict(order.take(0).to_set()),
            ));
        }
        while i < n
            invariant
                i <= n,
                n == order.len(),
                order == other.fields.order(),
                order.no_duplicates(),
                order.to_set() == theirs.fields.dom(),
                other.valid(),
                theirs == other@,
                self.valid(),
                self.id@ == ours.id,
                self.replica == ours.replica,
                self.clock == ours.clock.joined(theirs.clock),
                self.vclock@ == counts_join(ours.vclock, theirs.vclock),
                self.version == ours.version,
                self.created_at == ours.created_at,
                self.updated_at == ours.updated_at,
                self.fields.deep_view() == fields_join(
                    ours.fields,
                    theirs.fields.restrict(order.take(i as int).to_set()),
                ),
            decreases n - i,
        {
            let ghost seen = order.take(i as int).to_set();
            let ghost before = self.fields.deep_view();
            let name = other.fields.key_at(i);
            let value = other.fields.value_at(i);
            let ghost field = name@;
            proof {
                order.take(i as int).lemma_push_to_set_commute(order[i as int]);
                assert(order.take(i + 1) =~= order.take(i as int).push(order[i as int]));
                assert(!seen.contains(field)) by {
                    if seen.contains(field) {
                        let k = choose|k: int| 0 <= k < i && order.take(i as int)[k] == field;
                        assert(order[k] == order[i as int]);
                    }
                }
                assert(theirs.fields[field] == value@);
                assert(!theirs.fields.restrict(seen).contains_key(field));
                assert(before.contains_key(field) == ours.fields.contains_key(field));
            }
            if self.fields.contains_key(name) {
                match self.fields.get_mut(name) {
                    Some(existing) => {
                        assert(existing@ == before[field]);
                        existing.merge(value);
                        assert(existing@ == before[field].joined(theirs.fields[field]));
                    },
                    None => {},
                }
                assert(before[field] == ours.fields[field]);
                assert(self.fields.deep_view() =~= before.insert(
                    field,
                    ours.fields[field].joined(theirs.fields[field]),
                ));
            } else {
                self.fields.insert(name.clone(), value.clone());
                assert(self.fields.deep_view() =~= before.insert(field, theirs.fields[field]));
            }
            i = i + 1;
            assert(order.take(i as int).to_set() == seen.insert(field));
            assert(self.fields.deep_view() =~= fields_join(
                ours.fields,
                theirs.fields.restrict(order.take(i as int).to_set()),
            ));
        }
        proof {
            assert(order.take(i as int) =~= order);
            assert(theirs.fields.restrict(theirs.fields.dom()) =~= theirs.fields);
        }
        if self.version < other.version {
            self.version = other.version;
        }
        if self.updated_at.is_before(&other.updated_at) {
            self.updated_at = other.updated_at;
        }
        assert(self@ =~= ours.joined(theirs));
    }
}

/// Parts make up a document with exactly the fields that they name, and with everything
/// else as it is; of two fields of one name the last one holds.
pub proof fn parts_make_up_the_document(parts: DocumentParts, i: int, name: Seq<char>)
    requires
        0 <= i < parts.fields@.len(),
        forall|j: int|
            i < j < parts.fields@.len() ==> (#[trigger] parts.fields@[j]).0@
                != parts.fields@[i].0@,
    ensures
        parts.whole().id == parts.id@,
        parts.whole().replica == parts.replica,
        parts.whole().clock == parts.clock,
        parts.whole().vclock == parts.vclock@,
        parts.whole().version == parts.version,
        parts.whole().created_at == parts.created_at,
        parts.whole().updated_at == parts.updated_at,
        parts.whole().fields.contains_key(parts.fields@[i].0@),
        parts.whole().fields[parts.fields@[i].0@] == parts.fields@[i].1@,
        parts.whole().fields.contains_key(name) ==> exists|j: int|
            0 <= j < parts.fields@.len() && (#[trigger] parts.fields@[j]).0@ == name,
{
    let pairs = pair_meanings(parts.fields@);
    assert forall|j: int| i < j < pairs.len() implies (#[trigger] pairs[j]).0 != pairs[i].0 by {
        assert(parts.fields@[j].0@ != parts.fields@[i].0@);
    }
    gathered_pairs_hold_the_last_values(pairs, i, name);
    if parts.whole().fields.contains_key(name) {
        let j = choose|j: int| 0 <= j < pairs.len() && (#[trigger] pairs[j]).0 == name;
        assert(parts.fields@[j].0@ == name);
    }
}

} // verus!

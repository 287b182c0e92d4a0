//! What holds of documents as a whole.

use crate::clock::LogicalClock;
use crate::counter::{counts_converge, pn_counters_converge, steps_change_value_by_one};
use crate::counts::total;
use crate::document::model::{DocState, FieldState};
use crate::lww_map::{lww_maps_converge, maps_join, writes_agree, written_under};
use crate::or_set::{or_sets_converge, TaggedState};
use crate::register::registers_converge;
use crate::text::merge_laws::{
    agree, merge_commutes, merge_is_associative, merge_is_idempotent,
};
use crate::time::Timestamp;
use vstd::prelude::*;

verus! {

impl FieldState {
    /// Whether a clock has witnessed every write of the field.
    pub open spec fn witnessed_by(self, clock: LogicalClock) -> bool {
        match self {
            FieldState::String(register) => register.timestamp.counter <= clock.counter,
            FieldState::Integer(register) => register.timestamp.counter <= clock.counter,
            FieldState::Float(register) => register.timestamp.counter <= clock.counter,
            FieldState::Boolean(register) => register.timestamp.counter <= clock.counter,
            FieldState::Counter(_) => true,
            FieldState::StringSet(set) => set_witnessed(set, clock),
            FieldState::StringMap(map) => forall|key: Seq<char>| #[trigger]
                map.contains_key(key) ==> map[key].timestamp.counter <= clock.counter,
            FieldState::Text(_) => true,
        }
    }

    /// Whether two fields hold the same type of value.
    pub open spec fn same_kind(self, other: FieldState) -> bool {
        match (self, other) {
            (FieldState::String(_), FieldState::String(_)) => true,
            (FieldState::Integer(_), FieldState::Integer(_)) => true,
            (FieldState::Float(_), FieldState::Float(_)) => true,
            (FieldState::Boolean(_), FieldState::Boolean(_)) => true,
            (FieldState::Counter(_), FieldState::Counter(_)) => true,
            (FieldState::StringSet(_), FieldState::StringSet(_)) => true,
            (FieldState::StringMap(_), FieldState::StringMap(_)) => true,
            (FieldState::Text(_), FieldState::Text(_)) => true,
            _ => false,
        }
    }

    /// Whether two fields hold the same type of value, and no two different values
    /// that were written at the same time.
    pub open spec fn agrees(self, other: FieldState) -> bool {
        match (self, other) {
            (FieldState::String(a), FieldState::String(b)) => a.timestamp == b.timestamp
                ==> a.value == b.value,
            (FieldState::Integer(a), FieldState::Integer(b)) => a.timestamp == b.timestamp
                ==> a.value == b.value,
            (FieldState::Float(a), FieldState::Float(b)) => a.timestamp == b.timestamp ==> a.value
                == b.value,
            (FieldState::Boolean(a), FieldState::Boolean(b)) => a.timestamp == b.timestamp
                ==> a.value == b.value,
            (FieldState::Counter(_), FieldState::Counter(_)) => true,
            (FieldState::StringSet(_), FieldState::StringSet(_)) => true,
            (FieldState::StringMap(a), FieldState::StringMap(b)) => writes_agree(a, b),
            (FieldState::Text(a), FieldState::Text(b)) => a.wf() && b.wf() && agree(a, b),
            _ => false,
        }
    }

    /// Whether two fields show the same: texts by their characters and the order of
    /// those, every other type by its whole state.
    pub open spec fn shows_same(self, other: FieldState) -> bool {
        match (self, other) {
            (FieldState::Text(a), FieldState::Text(b)) => a.chars() == b.chars() && a.sequence
                == b.sequence,
            _ => self == other,
        }
    }

    /// Whether a merge with itself leaves the field as it is: no removed tag is left
    /// on an element of a set, and a text stands in its order.
    pub open spec fn at_rest(self) -> bool {
        match self {
            FieldState::StringSet(set) => set.live(),
            FieldState::Text(text) => text.settled(),
            _ => true,
        }
    }
}

/// Whether a clock has witnessed every tag of a set.
pub open spec fn set_witnessed(set: TaggedState<Seq<char>>, clock: LogicalClock) -> bool {
    &&& forall|tag: LogicalClock| #[trigger]
        set.tombstones.contains(tag) ==> tag.counter <= clock.counter
    &&& forall|element: Seq<char>, tag: LogicalClock|
        set.elements.contains_key(element) && #[trigger] set.elements[element].contains(tag)
            ==> tag.counter <= clock.counter
}

impl DocState {
    /// Whether the document's clock has witnessed every write of its fields.
    pub open spec fn witnessed(self) -> bool {
        forall|name: Seq<char>| #[trigger]
            self.fields.contains_key(name) ==> self.fields[name].witnessed_by(self.clock)
    }
}

/// A value that is written is read back, and no other field is touched.
pub proof fn writes_are_read_back(
    doc: DocState,
    now: Timestamp,
    name: Seq<char>,
    string: Seq<char>,
    integer: i64,
    boolean: bool,
    other: Seq<char>,
)
    requires
        doc.witnessed(),
        doc.can_tick(),
    ensures
        ({
            let ticked = doc.ticked(now);
            let with_string = ticked.with_field(name, ticked.string_written(name, string));
            let with_integer = ticked.with_field(name, ticked.integer_written(name, integer));
            let with_boolean = ticked.with_field(name, ticked.boolean_written(name, boolean));
            &&& with_string.string_value(name) == Some(string)
            &&& with_integer.integer_value(name) == Some(integer)
            &&& with_boolean.boolean_value(name) == Some(boolean)
            &&& with_string.witnessed()
            &&& with_integer.witnessed()
            &&& with_boolean.witnessed()
            &&& other != name && doc.fields.contains_key(other) ==> {
                &&& with_string.fields[other] == doc.fields[other]
                &&& with_integer.fields[other] == doc.fields[other]
                &&& with_boolean.fields[other] == doc.fields[other]
            }
        }),
{
    lemma_tick_witnessed(doc, now);
}

/// A map entry that is written is read back, and so is every other entry.
pub proof fn entries_are_read_back(
    doc: DocState,
    now: Timestamp,
    name: Seq<char>,
    key: Seq<char>,
    value: Seq<char>,
    other: Seq<char>,
)
    requires
        doc.witnessed(),
        doc.can_tick(),
    ensures
        ({
            let ticked = doc.ticked(now);
            let after = ticked.with_field(
                name,
                FieldState::StringMap(
                    written_under(ticked.map(name), key, Some(value), ticked.clock),
                ),
            );
            &&& after.map_value(name, key) == Some(value)
            &&& other != key ==> after.map_value(name, other) == doc.map_value(name, other)
            &&& after.witnessed()
        }),
{
    lemma_tick_witnessed(doc, now);
    let ticked = doc.ticked(now);
    assert(ticked.map(name) == doc.map(name));
    if ticked.fields.contains_key(name) {
        assert(ticked.fields[name].witnessed_by(doc.clock));
    }
}

/// A value that is added to a set is in it until it is removed, and is not in it
/// afterwards.
pub proof fn set_members_follow_edits(
    doc: DocState,
    now: Timestamp,
    name: Seq<char>,
    value: Seq<char>,
)
    requires
        doc.witnessed(),
        doc.can_tick(),
    ensures
        ({
            let ticked = doc.ticked(now);
            let added = ticked.with_field(
                name,
                FieldState::StringSet(ticked.set(name).added(value, ticked.clock)),
            );
            let removed = ticked.with_field(
                name,
                FieldState::StringSet(ticked.set(name).removed(value)),
            );
            &&& added.set(name).has(value)
            &&& added.witnessed()
            &&& !removed.set(name).has(value)
            &&& removed.witnessed()
        }),
{
    lemma_tick_witnessed(doc, now);
    let ticked = doc.ticked(now);
    let set = ticked.set(name);
    assert(set_witnessed(set, doc.clock)) by {
        if ticked.fields.contains_key(name) {
            assert(ticked.fields[name].witnessed_by(doc.clock));
        }
    }
    assert(!set.tombstones.contains(ticked.clock));
    let more = set.added(value, ticked.clock);
    assert(more.elements[value].contains(ticked.clock));
    assert(set_witnessed(more, ticked.clock)) by {
        assert forall|element: Seq<char>, tag: LogicalClock|
            more.elements.contains_key(element) && #[trigger] more.elements[element].contains(
                tag,
            ) implies tag.counter <= ticked.clock.counter by {
            if tag != ticked.clock {
                assert(set.elements.contains_key(element));
                assert(set.elements[element].contains(tag));
            }
        }
    }
    let fewer = set.removed(value);
    assert(set_witnessed(fewer, ticked.clock)) by {
        assert forall|tag: LogicalClock| #[trigger] fewer.tombstones.contains(tag) implies
            tag.counter <= ticked.clock.counter by {
            if !set.tombstones.contains(tag) {
                assert(set.elements[value].contains(tag));
            }
        }
        assert forall|element: Seq<char>, tag: LogicalClock|
            fewer.elements.contains_key(element) && #[trigger] fewer.elements[element].contains(
                tag,
            ) implies tag.counter <= ticked.clock.counter by {
            assert(set.elements[element].contains(tag));
        }
    }
}

/// Incrementing a counter field raises its value by one, and decrementing lowers
/// it by one, while the sums stay within the signed range.
pub proof fn counter_fields_step_by_one(doc: DocState, now: Timestamp, name: Seq<char>)
    requires
        doc.can_tick(),
        doc.counter(name).positive.dom().finite(),
        doc.counter(name).negative.dom().finite(),
        total(doc.counter(name).positive) < i64::MAX,
        total(doc.counter(name).negative) < i64::MAX,
    ensures
        ({
            let ticked = doc.ticked(now);
            let up = ticked.with_field(
                name,
                FieldState::Counter(ticked.counter(name).incremented(ticked.replica)),
            );
            let down = ticked.with_field(
                name,
                FieldState::Counter(ticked.counter(name).decremented(ticked.replica)),
            );
            &&& up.counter(name).value() == doc.counter(name).value() + 1
            &&& down.counter(name).value() == doc.counter(name).value() - 1
        }),
{
    assert(doc.ticked(now).counter(name) == doc.counter(name));
    steps_change_value_by_one(doc.counter(name), doc.replica);
}

/// What a clock has witnessed, it has witnessed after it has moved on.
proof fn lemma_tick_witnessed(doc: DocState, now: Timestamp)
    requires
        doc.witnessed(),
        doc.can_tick(),
    ensures
        doc.ticked(now).witnessed(),
        doc.ticked(now).clock.counter == doc.clock.counter + 1,
        doc.ticked(now).fields == doc.fields,
{
    let ticked = doc.ticked(now);
    assert forall|name: Seq<char>| #[trigger]
        ticked.fields.contains_key(name) implies ticked.fields[name].witnessed_by(ticked.clock) by {
        assert(doc.fields[name].witnessed_by(doc.clock));
        lemma_later_witnesses(doc.fields[name], doc.clock, ticked.clock);
    }
}

proof fn lemma_later_witnesses(field: FieldState, clock: LogicalClock, later: LogicalClock)
    requires
        field.witnessed_by(clock),
        clock.counter <= later.counter,
    ensures
        field.witnessed_by(later),
{
}

/// A new document has witnessed its writes, and a merge of documents that have
/// witnessed theirs has witnessed all: what is written after a merge is read back
/// too.
pub proof fn merging_keeps_witnessed(a: DocState, b: DocState)
    requires
        a.witnessed(),
        b.witnessed(),
    ensures
        DocState::fresh(a.id, a.replica, a.created_at).witnessed(),
        a.joined(b).witnessed(),
{
    let joined = a.joined(b);
    assert forall|name: Seq<char>| #[trigger]
        joined.fields.contains_key(name) implies joined.fields[name].witnessed_by(joined.clock) by {
        if a.fields.contains_key(name) {
            lemma_later_witnesses(a.fields[name], a.clock, joined.clock);
        }
        if b.fields.contains_key(name) {
            lemma_later_witnesses(b.fields[name], b.clock, joined.clock);
        }
        if a.fields.contains_key(name) && b.fields.contains_key(name) {
            lemma_join_witnessed(a.fields[name], b.fields[name], joined.clock);
        }
    }
}

proof fn lemma_join_witnessed(a: FieldState, b: FieldState, clock: LogicalClock)
    requires
        a.witnessed_by(clock),
        b.witnessed_by(clock),
    ensures
        a.joined(b).witnessed_by(clock),
{
    match (a, b) {
        (FieldState::StringSet(x), FieldState::StringSet(y)) => {
            let joined = x.joined(y);
            assert forall|element: Seq<char>, tag: LogicalClock|
                joined.elements.contains_key(element)
                    && #[trigger] joined.elements[element].contains(
                    tag,
                ) implies tag.counter <= clock.counter by {
                assert(x.tags(element).contains(tag) || y.tags(element).contains(tag));
                if x.tags(element).contains(tag) {
                    assert(x.elements[element].contains(tag));
                } else {
                    assert(y.elements[element].contains(tag));
                }
            }
        },
        (FieldState::StringMap(x), FieldState::StringMap(y)) => {
            let joined = maps_join(x, y);
            assert forall|key: Seq<char>| #[trigger] joined.contains_key(
                key,
            ) implies joined[key].timestamp.counter <= clock.counter by {
                assert(x.contains_key(key) || y.contains_key(key));
            }
        },
        _ => {},
    }
}

/// A merge has the fields of both documents; a field that only one has is taken
/// over as it is.
pub proof fn merge_has_the_fields_of_both(a: DocState, b: DocState, name: Seq<char>)
    ensures
        a.joined(b).fields.contains_key(name) == (a.fields.contains_key(name)
            || b.fields.contains_key(name)),
        a.fields.contains_key(name) && !b.fields.contains_key(name) ==> a.joined(b).fields[name]
            == a.fields[name],
        b.fields.contains_key(name) && !a.fields.contains_key(name) ==> a.joined(b).fields[name]
            == b.fields[name],
{
}

/// Two documents that merge each other show the same: the same fields with the
/// same values, the same version and the same time of the last update.
///
/// They have to agree on the type of each field that both have, and on what was
/// written at the same time.
pub proof fn documents_converge(a: DocState, b: DocState)
    requires
        forall|name: Seq<char>| #[trigger]
            a.fields.contains_key(name) && b.fields.contains_key(name) ==> a.fields[name].agrees(
                b.fields[name],
            ),
    ensures
        a.joined(b).fields.dom() == b.joined(a).fields.dom(),
        forall|name: Seq<char>| #[trigger]
            a.joined(b).fields.contains_key(name) ==> a.joined(b).fields[name].shows_same(
                b.joined(a).fields[name],
            ),
        a.joined(b).vclock == b.joined(a).vclock,
        a.joined(b).clock.counter == b.joined(a).clock.counter,
        a.joined(b).version == b.joined(a).version,
        a.joined(b).updated_at.instant() == b.joined(a).updated_at.instant(),
{
    let ab = a.joined(b);
    let ba = b.joined(a);
    assert(ab.fields.dom() =~= ba.fields.dom());
    assert forall|name: Seq<char>| #[trigger]
        ab.fields.contains_key(name) implies ab.fields[name].shows_same(ba.fields[name]) by {
        if a.fields.contains_key(name) && b.fields.contains_key(name) {
            assert(a.fields[name].agrees(b.fields[name]));
            lemma_fields_converge(a.fields[name], b.fields[name]);
        }
    }
    counts_converge(a.vclock, b.vclock, b.vclock);
}

proof fn lemma_fields_converge(a: FieldState, b: FieldState)
    requires
        a.agrees(b),
    ensures
        a.joined(b).shows_same(b.joined(a)),
{
    match (a, b) {
        (FieldState::String(x), FieldState::String(y)) => registers_converge(x, y, y),
        (FieldState::Integer(x), FieldState::Integer(y)) => registers_converge(x, y, y),
        (FieldState::Float(x), FieldState::Float(y)) => registers_converge(x, y, y),
        (FieldState::Boolean(x), FieldState::Boolean(y)) => registers_converge(x, y, y),
        (FieldState::Counter(x), FieldState::Counter(y)) => pn_counters_converge(x, y, y),
        (FieldState::StringSet(x), FieldState::StringSet(y)) => or_sets_converge(x, y, y),
        (FieldState::StringMap(x), FieldState::StringMap(y)) => lww_maps_converge(x, y, y),
        (FieldState::Text(x), FieldState::Text(y)) => merge_commutes(x, y),
        _ => {},
    }
}

/// It does not matter which of three documents are merged first, unless a field that all
/// three have is of another type in the second than in the first and the third.
pub proof fn document_merge_is_associative(a: DocState, b: DocState, c: DocState)
    requires
        forall|name: Seq<char>| #[trigger]
            a.fields.contains_key(name) && b.fields.contains_key(name) && c.fields.contains_key(
                name,
            ) && a.fields[name].same_kind(c.fields[name]) ==> a.fields[name].same_kind(
                b.fields[name],
            ),
    ensures
        a.joined(b).joined(c) == a.joined(b.joined(c)),
{
    let left = a.joined(b).joined(c);
    let right = a.joined(b.joined(c));
    counts_converge(a.vclock, b.vclock, c.vclock);
    assert forall|name: Seq<char>| left.fields.contains_key(name) implies #[trigger] left.fields[name]
        == right.fields[name] by {
        if a.fields.contains_key(name) && b.fields.contains_key(name) && c.fields.contains_key(
            name,
        ) {
            lemma_fields_associate(a.fields[name], b.fields[name], c.fields[name]);
        }
    }
    assert(left.fields =~= right.fields);
    assert(left =~= right);
}

proof fn lemma_fields_associate(a: FieldState, b: FieldState, c: FieldState)
    requires
        a.same_kind(c) ==> a.same_kind(b),
    ensures
        a.joined(b).joined(c) == a.joined(b.joined(c)),
{
    match (a, b, c) {
        (FieldState::String(x), FieldState::String(y), FieldState::String(z)) => {
            registers_converge(x, y, z)
        },
        (FieldState::Integer(x), FieldState::Integer(y), FieldState::Integer(z)) => {
            registers_converge(x, y, z)
        },
        (FieldState::Float(x), FieldState::Float(y), FieldState::Float(z)) => {
            registers_converge(x, y, z)
        },
        (FieldState::Boolean(x), FieldState::Boolean(y), FieldState::Boolean(z)) => {
            registers_converge(x, y, z)
        },
        (FieldState::Counter(x), FieldState::Counter(y), FieldState::Counter(z)) => {
            pn_counters_converge(x, y, z)
        },
        (FieldState::StringSet(x), FieldState::StringSet(y), FieldState::StringSet(z)) => {
            or_sets_converge(x, y, z)
        },
        (FieldState::StringMap(x), FieldState::StringMap(y), FieldState::StringMap(z)) => {
            lww_maps_converge(x, y, z)
        },
        (FieldState::Text(x), FieldState::Text(y), FieldState::Text(z)) => {
            merge_is_associative(x, y, z)
        },
        _ => {},
    }
}

impl DocState {
    /// Whether a merge with itself leaves every field as it is.
    pub open spec fn at_rest(self) -> bool {
        forall|name: Seq<char>| #[trigger]
            self.fields.contains_key(name) ==> self.fields[name].at_rest()
    }
}

/// Merging a document at rest with itself changes nothing, and merging one again
/// changes nothing more, if the fields that it alone has are at rest.
pub proof fn document_merge_is_idempotent(a: DocState, b: DocState)
    ensures
        a.at_rest() ==> a.joined(a) == a,
        (forall|name: Seq<char>| #[trigger]
            b.fields.contains_key(name) && !a.fields.contains_key(name)
                ==> b.fields[name].at_rest()) ==> a.joined(b).joined(b) == a.joined(b),
{
    let ab = a.joined(b);
    counts_converge(a.vclock, b.vclock, b.vclock);
    if forall|name: Seq<char>| #[trigger]
        b.fields.contains_key(name) && !a.fields.contains_key(name) ==> b.fields[name].at_rest() {
        assert forall|name: Seq<char>| ab.fields.contains_key(name) implies #[trigger] ab.joined(
            b,
        ).fields[name] == ab.fields[name] by {
            if b.fields.contains_key(name) {
                if a.fields.contains_key(name) {
                    lemma_fields_absorb(a.fields[name], b.fields[name]);
                } else {
                    assert(b.fields[name].at_rest());
                    lemma_at_rest(b.fields[name]);
                }
            }
        }
        assert(ab.joined(b).fields =~= ab.fields);
        assert(ab.joined(b) =~= ab);
    }
    if a.at_rest() {
        assert forall|name: Seq<char>| a.fields.contains_key(name) implies #[trigger] a.joined(
            a,
        ).fields[name] == a.fields[name] by {
            assert(a.fields[name].at_rest());
            lemma_at_rest(a.fields[name]);
        }
        assert(a.joined(a).fields =~= a.fields);
        assert(a.joined(a) =~= a);
    }
}

proof fn lemma_fields_absorb(a: FieldState, b: FieldState)
    ensures
        a.joined(b).joined(b) == a.joined(b),
{
    match (a, b) {
        (FieldState::String(x), FieldState::String(y)) => registers_converge(x, y, y),
        (FieldState::Integer(x), FieldState::Integer(y)) => registers_converge(x, y, y),
        (FieldState::Float(x), FieldState::Float(y)) => registers_converge(x, y, y),
        (FieldState::Boolean(x), FieldState::Boolean(y)) => registers_converge(x, y, y),
        (FieldState::Counter(x), FieldState::Counter(y)) => pn_counters_converge(x, y, y),
        (FieldState::StringSet(x), FieldState::StringSet(y)) => or_sets_converge(x, y, y),
        (FieldState::StringMap(x), FieldState::StringMap(y)) => lww_maps_converge(x, y, y),
        (FieldState::Text(x), FieldState::Text(y)) => merge_is_idempotent(x, y),
        _ => {},
    }
}

proof fn lemma_at_rest(a: FieldState)
    requires
        a.at_rest(),
    ensures
        a.joined(a) == a,
{
    match a {
        FieldState::String(x) => registers_converge(x, x, x),
        FieldState::Integer(x) => registers_converge(x, x, x),
        FieldState::Float(x) => registers_converge(x, x, x),
        FieldState::Boolean(x) => registers_converge(x, x, x),
        FieldState::Counter(x) => pn_counters_converge(x, x, x),
        FieldState::StringSet(x) => or_sets_converge(x, x, x),
        FieldState::StringMap(x) => lww_maps_converge(x, x, x),
        FieldState::Text(x) => merge_is_idempotent(x, x),
    }
}

} // verus!

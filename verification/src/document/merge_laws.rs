//! What merged documents show of each field, and what each change of a document does.

use crate::clock::LogicalClock;
use crate::counts::count_of;
use crate::document::laws::merging_keeps_witnessed;
use crate::document::model::{DocState, FieldState};
use crate::ident::ReplicaId;
use crate::register::Written;
use crate::text::node::CharId;
use crate::time::Timestamp;
use vstd::prelude::*;

verus! {

/// Of a string, integer, floating-point or boolean field that both documents have, a merge
/// keeps the later write with its timestamp, whichever of the two documents merges the
/// other; of two writes at the same time each document keeps its own.
pub proof fn merged_fields_hold_the_later_write(a: DocState, b: DocState, name: Seq<char>)
    requires
        a.fields.contains_key(name),
        b.fields.contains_key(name),
    ensures
        ({
            let ab = a.joined(b);
            let ba = b.joined(a);
            let ours = a.fields[name];
            let theirs = b.fields[name];
            &&& ab.fields.contains_key(name)
            &&& ba.fields.contains_key(name)
            &&& ours is String && theirs is String ==> {
                &&& ours->String_0.timestamp.before(theirs->String_0.timestamp) ==> {
                    &&& ab.fields[name] == theirs && ba.fields[name] == theirs
                    &&& ab.string_value(name) == b.string_value(name)
                    &&& ba.string_value(name) == b.string_value(name)
                }
                &&& ours->String_0.timestamp == theirs->String_0.timestamp ==> ab.fields[name]
                    == ours
            }
            &&& ours is Integer && theirs is Integer ==> {
                &&& ours->Integer_0.timestamp.before(theirs->Integer_0.timestamp) ==> {
                    &&& ab.fields[name] == theirs && ba.fields[name] == theirs
                    &&& ab.integer_value(name) == b.integer_value(name)
                    &&& ba.integer_value(name) == b.integer_value(name)
                }
                &&& ours->Integer_0.timestamp == theirs->Integer_0.timestamp ==> ab.fields[name]
                    == ours
            }
            &&& ours is Float && theirs is Float ==> {
                &&& ours->Float_0.timestamp.before(theirs->Float_0.timestamp) ==> {
                    &&& ab.fields[name] == theirs && ba.fields[name] == theirs
                }
                &&& ours->Float_0.timestamp == theirs->Float_0.timestamp ==> ab.fields[name]
                    == ours
            }
            &&& ours is Boolean && theirs is Boolean ==> {
                &&& ours->Boolean_0.timestamp.before(theirs->Boolean_0.timestamp) ==> {
                    &&& ab.fields[name] == theirs && ba.fields[name] == theirs
                    &&& ab.boolean_value(name) == b.boolean_value(name)
                    &&& ba.boolean_value(name) == b.boolean_value(name)
                }
                &&& ours->Boolean_0.timestamp == theirs->Boolean_0.timestamp ==> ab.fields[name]
                    == ours
            }
        }),
{
}

/// Of a counter field that both documents have, a merge keeps for each replica the larger
/// count of what it added, and the larger count of what it took away.
pub proof fn merged_counter_fields_keep_every_count(
    a: DocState,
    b: DocState,
    name: Seq<char>,
    replica: ReplicaId,
)
    requires
        a.fields.contains_key(name) && a.fields[name] is Counter,
        b.fields.contains_key(name) && b.fields[name] is Counter,
    ensures
        ({
            let ab = a.joined(b);
            let ours = a.fields[name]->Counter_0;
            let theirs = b.fields[name]->Counter_0;
            let both = ab.fields[name]->Counter_0;
            &&& ab.fields.contains_key(name)
            &&& ab.fields[name] is Counter
            &&& ab.counter(name) == both
            &&& count_of(both.positive, replica) == (if count_of(ours.positive, replica) < count_of(
                theirs.positive,
                replica,
            ) {
                count_of(theirs.positive, replica)
            } else {
                count_of(ours.positive, replica)
            })
            &&& count_of(both.negative, replica) == (if count_of(ours.negative, replica) < count_of(
                theirs.negative,
                replica,
            ) {
                count_of(theirs.negative, replica)
            } else {
                count_of(ours.negative, replica)
            })
        }),
{
}

/// Of a set field that both documents have, a merge keeps the tags that neither has removed.
pub proof fn merged_set_fields_keep_the_live_tags(
    a: DocState,
    b: DocState,
    name: Seq<char>,
    element: Seq<char>,
    tag: LogicalClock,
)
    requires
        a.fields.contains_key(name) && a.fields[name] is StringSet,
        b.fields.contains_key(name) && b.fields[name] is StringSet,
    ensures
        ({
            let ab = a.joined(b);
            let ours = a.fields[name]->StringSet_0;
            let theirs = b.fields[name]->StringSet_0;
            let both = ab.fields[name]->StringSet_0;
            let gone = ours.tombstones.contains(tag) || theirs.tombstones.contains(tag);
            let held = (ours.elements.contains_key(element) && ours.elements[element].contains(
                tag,
            )) || (theirs.elements.contains_key(element) && theirs.elements[element].contains(tag));
            &&& ab.fields.contains_key(name)
            &&& ab.fields[name] is StringSet
            &&& ab.set(name) == both
            &&& both.tombstones.contains(tag) == gone
            &&& (both.elements.contains_key(element) && both.elements[element].contains(tag)) == (
            held && !gone)
            &&& held && !gone ==> ab.set(name).has(element)
        }),
{
    let ours = a.fields[name]->StringSet_0;
    let theirs = b.fields[name]->StringSet_0;
    let both = ours.joined(theirs);
    if both.elements.contains_key(element) && both.elements[element].contains(tag) {
        assert(both.elements[element] != Set::<LogicalClock>::empty()) by {
            assert(!Set::<LogicalClock>::empty().contains(tag));
        }
    }
}

/// Of a map field that both documents have, a merge keeps under each key the later write,
/// whichever of the two documents merges the other, and what only one of them has.
pub proof fn merged_map_fields_hold_the_later_writes(
    a: DocState,
    b: DocState,
    name: Seq<char>,
    key: Seq<char>,
)
    requires
        a.fields.contains_key(name) && a.fields[name] is StringMap,
        b.fields.contains_key(name) && b.fields[name] is StringMap,
    ensures
        ({
            let ab = a.joined(b);
            let ba = b.joined(a);
            let ours = a.fields[name]->StringMap_0;
            let theirs = b.fields[name]->StringMap_0;
            let both = ab.fields[name]->StringMap_0;
            &&& ab.fields.contains_key(name) && ab.fields[name] is StringMap
            &&& both.contains_key(key) == (ours.contains_key(key) || theirs.contains_key(key))
            &&& ours.contains_key(key) && theirs.contains_key(key)
                && ours[key].timestamp.before(theirs[key].timestamp) ==> {
                &&& both[key] == theirs[key]
                &&& ab.map_value(name, key) == b.map_value(name, key)
                &&& ba.map_value(name, key) == b.map_value(name, key)
            }
            &&& ours.contains_key(key) && theirs.contains_key(key) && ours[key].timestamp
                == theirs[key].timestamp ==> both[key] == ours[key]
            &&& ours.contains_key(key) && !theirs.contains_key(key) ==> both[key] == ours[key]
                && ab.map_value(name, key) == a.map_value(name, key)
            &&& !ours.contains_key(key) && theirs.contains_key(key) ==> both[key] == theirs[key]
                && ab.map_value(name, key) == b.map_value(name, key)
        }),
{
}

/// Of a text field that both documents have, a merge has the characters of both; a
/// character is deleted if it is deleted in either, and keeps its value and its place.
pub proof fn merged_text_fields_have_the_characters_of_both(
    a: DocState,
    b: DocState,
    name: Seq<char>,
    id: CharId,
)
    requires
        a.fields.contains_key(name) && a.fields[name] is Text,
        b.fields.contains_key(name) && b.fields[name] is Text,
        id.uuid.bits != 0,
    ensures
        ({
            let ab = a.joined(b);
            let ours = a.fields[name]->Text_0.nodes;
            let theirs = b.fields[name]->Text_0.nodes;
            let both = ab.fields[name]->Text_0;
            &&& ab.fields.contains_key(name) && ab.fields[name] is Text
            &&& ab.text(name) == both
            &&& both.replica == a.fields[name]->Text_0.replica
            &&& both.nodes.contains_key(id) == (ours.contains_key(id) || theirs.contains_key(id))
            &&& ours.contains_key(id) && !theirs.contains_key(id) ==> both.nodes[id] == ours[id]
            &&& !ours.contains_key(id) && theirs.contains_key(id) ==> both.nodes[id] == theirs[id]
            &&& ours.contains_key(id) && theirs.contains_key(id) ==> {
                &&& both.nodes[id].deleted == (ours[id].deleted || theirs[id].deleted)
                &&& ours[id].value is Some ==> both.nodes[id].value == ours[id].value
                    && both.nodes[id].after == ours[id].after
                &&& ours[id].value is None && theirs[id].value is Some ==> both.nodes[id].value
                    == theirs[id].value && both.nodes[id].after == theirs[id].after
            }
        }),
{
}

/// A field that is of another type in the other document stays as it is.
pub proof fn fields_of_another_type_stay(a: DocState, b: DocState, name: Seq<char>)
    requires
        a.fields.contains_key(name),
    ensures
        a.fields[name] is String && b.fields[name] !is String ==> a.joined(b).fields[name]
            == a.fields[name],
        a.fields[name] is Integer && b.fields[name] !is Integer ==> a.joined(b).fields[name]
            == a.fields[name],
        a.fields[name] is Float && b.fields[name] !is Float ==> a.joined(b).fields[name]
            == a.fields[name],
        a.fields[name] is Boolean && b.fields[name] !is Boolean ==> a.joined(b).fields[name]
            == a.fields[name],
        a.fields[name] is Counter && b.fields[name] !is Counter ==> a.joined(b).fields[name]
            == a.fields[name],
        a.fields[name] is StringSet && b.fields[name] !is StringSet ==> a.joined(b).fields[name]
            == a.fields[name],
        a.fields[name] is StringMap && b.fields[name] !is StringMap ==> a.joined(b).fields[name]
            == a.fields[name],
        a.fields[name] is Text && b.fields[name] !is Text ==> a.joined(b).fields[name]
            == a.fields[name],
{
}

/// A document stays itself when it merges another: it keeps its id, its replica and the
/// time of its creation. Its clock, its version and the time of its last update are the
/// later ones of the two, and it has seen of each replica the larger count.
pub proof fn merging_documents_stay_themselves(a: DocState, b: DocState, replica: ReplicaId)
    ensures
        ({
            let ab = a.joined(b);
            &&& ab.id == a.id
            &&& ab.replica == a.replica
            &&& ab.created_at == a.created_at
            &&& ab.clock.replica == a.clock.replica
            &&& ab.clock.counter >= a.clock.counter
            &&& ab.clock.counter >= b.clock.counter
            &&& ab.clock.counter == a.clock.counter || ab.clock.counter == b.clock.counter
            &&& ab.version >= a.version
            &&& ab.version >= b.version
            &&& ab.version == a.version || ab.version == b.version
            &&& ab.updated_at.instant() >= a.updated_at.instant()
            &&& ab.updated_at.instant() >= b.updated_at.instant()
            &&& ab.updated_at == a.updated_at || ab.updated_at == b.updated_at
            &&& count_of(ab.vclock, replica) >= count_of(a.vclock, replica)
            &&& count_of(ab.vclock, replica) >= count_of(b.vclock, replica)
            &&& count_of(ab.vclock, replica) == count_of(a.vclock, replica) || count_of(
                ab.vclock,
                replica,
            ) == count_of(b.vclock, replica)
        }),
{
}

/// Each change moves the clock, the version and the count of the document's own replica on
/// by one, and notes the time; nothing else of the document changes.
pub proof fn changes_are_counted(doc: DocState, now: Timestamp, other: ReplicaId)
    requires
        doc.clock.counter < u64::MAX,
        doc.version < u64::MAX,
        count_of(doc.vclock, doc.replica) < u64::MAX,
    ensures
        ({
            let after = doc.ticked(now);
            &&& doc.can_tick()
            &&& after.clock.counter == doc.clock.counter + 1
            &&& after.clock.replica == doc.clock.replica
            &&& after.version == doc.version + 1
            &&& count_of(after.vclock, doc.replica) == count_of(doc.vclock, doc.replica) + 1
            &&& other != doc.replica ==> count_of(after.vclock, other) == count_of(
                doc.vclock,
                other,
            )
            &&& other != doc.replica ==> after.vclock.contains_key(other)
                == doc.vclock.contains_key(other)
            &&& after.updated_at == now
            &&& after.created_at == doc.created_at
            &&& after.id == doc.id
            &&& after.replica == doc.replica
            &&& after.fields == doc.fields
        }),
{
}

/// Putting a value in the place of a field touches neither another field nor anything else
/// of the document.
pub proof fn fields_are_put_one_by_one(
    doc: DocState,
    name: Seq<char>,
    state: FieldState,
    other: Seq<char>,
)
    ensures
        ({
            let after = doc.with_field(name, state);
            &&& after.fields.contains_key(name)
            &&& after.fields[name] == state
            &&& other != name ==> after.fields.contains_key(other) == doc.fields.contains_key(other)
            &&& other != name && doc.fields.contains_key(other) ==> after.fields[other]
                == doc.fields[other]
            &&& after.id == doc.id
            &&& after.replica == doc.replica
            &&& after.clock == doc.clock
            &&& after.vclock == doc.vclock
            &&& after.version == doc.version
            &&& after.created_at == doc.created_at
            &&& after.updated_at == doc.updated_at
        }),
{
}

/// A write makes a field hold the value under the document's timestamp: a field that is not
/// there or of another type always, one of the same type if it was last written earlier. A
/// field that was written later stays as it is.
pub proof fn writes_bear_the_time_of_the_document(
    doc: DocState,
    name: Seq<char>,
    string: Seq<char>,
    integer: i64,
    boolean: bool,
)
    ensures
        ({
            let strings = doc.fields.contains_key(name) && doc.fields[name] is String;
            let integers = doc.fields.contains_key(name) && doc.fields[name] is Integer;
            let booleans = doc.fields.contains_key(name) && doc.fields[name] is Boolean;
            &&& !strings || doc.fields[name]->String_0.timestamp.before(doc.clock)
                ==> doc.string_written(name, string) == FieldState::String(
                Written { value: string, timestamp: doc.clock },
            )
            &&& strings && !doc.fields[name]->String_0.timestamp.before(doc.clock)
                ==> doc.string_written(name, string) == doc.fields[name]
            &&& !integers || doc.fields[name]->Integer_0.timestamp.before(doc.clock)
                ==> doc.integer_written(name, integer) == FieldState::Integer(
                Written { value: integer, timestamp: doc.clock },
            )
            &&& integers && !doc.fields[name]->Integer_0.timestamp.before(doc.clock)
                ==> doc.integer_written(name, integer) == doc.fields[name]
            &&& !booleans || doc.fields[name]->Boolean_0.timestamp.before(doc.clock)
                ==> doc.boolean_written(name, boolean) == FieldState::Boolean(
                Written { value: boolean, timestamp: doc.clock },
            )
            &&& booleans && !doc.fields[name]->Boolean_0.timestamp.before(doc.clock)
                ==> doc.boolean_written(name, boolean) == doc.fields[name]
        }),
{
}

/// A value that is written after a merge wins everywhere: every document that merges it
/// shows it, whatever its own field of that type held.
pub proof fn writes_after_a_merge_win(
    a: DocState,
    b: DocState,
    now: Timestamp,
    name: Seq<char>,
    string: Seq<char>,
    integer: i64,
    boolean: bool,
)
    requires
        a.witnessed(),
        b.witnessed(),
        a.joined(b).can_tick(),
    ensures
        ({
            let ticked = a.joined(b).ticked(now);
            let strings = ticked.with_field(name, ticked.string_written(name, string));
            let integers = ticked.with_field(name, ticked.integer_written(name, integer));
            let booleans = ticked.with_field(name, ticked.boolean_written(name, boolean));
            &&& !b.fields.contains_key(name) || b.fields[name] is String ==> b.joined(
                strings,
            ).string_value(name) == Some(string) && strings.joined(b).string_value(name) == Some(
                string,
            )
            &&& !b.fields.contains_key(name) || b.fields[name] is Integer ==> b.joined(
                integers,
            ).integer_value(name) == Some(integer) && integers.joined(b).integer_value(name)
                == Some(integer)
            &&& !b.fields.contains_key(name) || b.fields[name] is Boolean ==> b.joined(
                booleans,
            ).boolean_value(name) == Some(boolean) && booleans.joined(b).boolean_value(name)
                == Some(boolean)
        }),
{
    merging_keeps_witnessed(a, b);
    let joined = a.joined(b);
    if joined.fields.contains_key(name) {
        assert(joined.fields[name].witnessed_by(joined.clock));
    }
    if b.fields.contains_key(name) {
        assert(b.fields[name].witnessed_by(b.clock));
    }
}

/// A field is read by its type: it shows what it holds as that type, and nothing, or an
/// empty value, as any other. So does a field that is not there.
pub proof fn fields_are_read_by_their_type(doc: DocState, name: Seq<char>, key: Seq<char>)
    ensures
        ({
            let field = doc.fields[name];
            let known = doc.fields.contains_key(name);
            &&& doc.string_value(name) is Some == (known && field is String)
            &&& known && field is String ==> doc.string_value(name) == Some(field->String_0.value)
            &&& doc.integer_value(name) is Some == (known && field is Integer)
            &&& known && field is Integer ==> doc.integer_value(name) == Some(
                field->Integer_0.value,
            )
            &&& doc.boolean_value(name) is Some == (known && field is Boolean)
            &&& known && field is Boolean ==> doc.boolean_value(name) == Some(
                field->Boolean_0.value,
            )
            &&& known && field is Counter ==> doc.counter(name) == field->Counter_0
            &&& !(known && field is Counter) ==> doc.counter(name).positive
                == Map::<ReplicaId, u64>::empty() && doc.counter(name).negative
                == Map::<ReplicaId, u64>::empty()
            &&& known && field is StringSet ==> doc.set(name) == field->StringSet_0
            &&& !(known && field is StringSet) ==> doc.set(name).elements
                == Map::<Seq<char>, Set<LogicalClock>>::empty() && doc.set(name).tombstones
                == Set::<LogicalClock>::empty()
            &&& known && field is StringMap ==> doc.map(name) == field->StringMap_0
            &&& !(known && field is StringMap) ==> doc.map_value(name, key) is None
            &&& known && field is StringMap ==> doc.map_value(name, key) == (
            if field->StringMap_0.contains_key(key) {
                field->StringMap_0[key].value
            } else {
                None
            })
            &&& known && field is Text ==> doc.text(name) == field->Text_0
            &&& !(known && field is Text) ==> {
                &&& doc.text(name).replica == doc.replica
                &&& doc.text(name).chars().len() == 0
                &&& doc.text(name).nodes.dom() == set![CharId::spec_root()]
            }
        }),
{
    if !(doc.fields.contains_key(name) && doc.fields[name] is Text) {
        let text = doc.text(name);
        reveal_with_fuel(crate::text::model::visible_ids, 2);
        assert(text.sequence.drop_last() =~= Seq::empty());
        assert(text.nodes.dom() =~= set![CharId::spec_root()]);
    }
    assert(!(doc.fields.contains_key(name) && doc.fields[name] is StringMap) ==> doc.map(name)
        =~= Map::empty());
}

/// A new document has its id and its replica, no fields, and has counted and seen nothing.
pub proof fn new_documents_are_empty(id: Seq<char>, replica: ReplicaId, now: Timestamp)
    ensures
        ({
            let doc = DocState::fresh(id, replica, now);
            &&& doc.id == id
            &&& doc.replica == replica
            &&& doc.clock.counter == 0
            &&& doc.clock.replica == replica
            &&& doc.vclock.dom() == Set::<ReplicaId>::empty()
            &&& doc.fields.dom() == Set::<Seq<char>>::empty()
            &&& doc.version == 0
            &&& doc.created_at == now
            &&& doc.updated_at == now
            &&& doc.can_tick()
        }),
{
    let doc = DocState::fresh(id, replica, now);
    assert(doc.vclock.dom() =~= Set::empty());
    assert(doc.fields.dom() =~= Set::empty());
}

} // verus!

//! What each step of a session changes, and what it leaves alone.

use crate::counts::count_of;
use crate::document::model::DocState;
use crate::ident::{ReplicaId, Uuid};
use crate::presence::position::{CursorPosition, SelectionRange};
use crate::presence::user::{PresenceState, PresenceStatus};
use crate::session::config::{SessionConfig, SessionStatus};
use crate::session::event::{departures, EventState};
use crate::session::model::SessionModel;
use crate::time::Timestamp;
use vstd::prelude::*;

verus! {

/// A session that opens has its document and its configuration, is active, and has no
/// clients, no users, no events and nothing counted. The document's replica answers for it.
pub proof fn new_sessions_are_empty(
    id: Uuid,
    document: DocState,
    config: SessionConfig,
    now: Timestamp,
    created_at: Timestamp,
)
    ensures
        ({
            let session = SessionModel::opened(id, document, config, now, created_at);
            &&& session.id == id
            &&& session.document == document
            &&& session.config == config
            &&& session.sync_replica == document.replica
            &&& session.created_at == created_at
            &&& session.state.last_activity == now
            &&& session.state.status == SessionStatus::Active
            &&& session.state.client_count == 0
            &&& session.state.operations_count == 0
            &&& session.state.vclock.dom() == Set::<ReplicaId>::empty()
            &&& session.clients.dom() == Set::<ReplicaId>::empty()
            &&& session.presence.users.dom() == Set::<ReplicaId>::empty()
            &&& session.presence.timeout.nanos == 30 * 1_000_000_000
            &&& session.events.len() == 0
            &&& session.stats.messages_sent == 0
            &&& session.stats.messages_received == 0
            &&& session.stats.operations_synced == 0
            &&& session.stats.last_sync is None
        }),
{
    let session = SessionModel::opened(id, document, config, now, created_at);
    assert(session.state.vclock.dom() =~= Set::empty());
    assert(session.clients.dom() =~= Set::empty());
    assert(session.presence.users.dom() =~= Set::empty());
}

/// Nothing that happens in a session changes its id, its configuration, the time of its
/// creation, or who answers for it.
pub proof fn sessions_stay_themselves(
    session: SessionModel,
    replica_id: ReplicaId,
    text: Seq<char>,
    name: Seq<char>,
    status: SessionStatus,
    order: Seq<ReplicaId>,
    position: CursorPosition,
    selection: SelectionRange,
    user: PresenceState,
    document: DocState,
    vclock: Map<ReplicaId, u64>,
    event: EventState,
    seen: Timestamp,
    now: Timestamp,
)
    ensures
        ({
            let steps = seq![
                session.joined_by(replica_id, text, name, now),
                session.left_by(replica_id, now),
                session.with_status(status),
                session.closed(order),
                session.changed_by(replica_id, text, seen, now),
                session.cursor_moved(replica_id, position, seen, now),
                session.selection_changed(replica_id, selection, seen, now),
                session.presence_updated(user, now),
                session.received(now),
                session.state_sent(replica_id),
                session.state_applied(document, vclock, now),
                session.announced(event),
                session.touched(now),
                session.recounted(now),
            ];
            forall|i: int|
                0 <= i < steps.len() ==> {
                    &&& (#[trigger] steps[i]).id == session.id
                    &&& steps[i].config == session.config
                    &&& steps[i].created_at == session.created_at
                    &&& steps[i].sync_replica == session.sync_replica
                    &&& steps[i].presence.timeout == session.presence.timeout
                }
        }),
{
}

/// Only a change that is recorded and a document that is applied touch the document; only
/// those who join, leave and change touch the clients, and closing; only sync touches what
/// is counted of syncs.
pub proof fn steps_keep_what_they_are_not_about(
    session: SessionModel,
    replica_id: ReplicaId,
    text: Seq<char>,
    name: Seq<char>,
    status: SessionStatus,
    order: Seq<ReplicaId>,
    position: CursorPosition,
    selection: SelectionRange,
    user: PresenceState,
    document: DocState,
    vclock: Map<ReplicaId, u64>,
    seen: Timestamp,
    now: Timestamp,
)
    ensures
        ({
            let joined = session.joined_by(replica_id, text, name, now);
            let left = session.left_by(replica_id, now);
            let set = session.with_status(status);
            let closed = session.closed(order);
            let changed = session.changed_by(replica_id, text, seen, now);
            let moved = session.cursor_moved(replica_id, position, seen, now);
            let selected = session.selection_changed(replica_id, selection, seen, now);
            let updated = session.presence_updated(user, now);
            let received = session.received(now);
            let sent = session.state_sent(replica_id);
            let applied = session.state_applied(document, vclock, now);
            &&& joined.document == session.document
            &&& left.document == session.document
            &&& set.document == session.document
            &&& closed.document == session.document
            &&& moved.document == session.document
            &&& selected.document == session.document
            &&& updated.document == session.document
            &&& received.document == session.document
            &&& sent.document == session.document
            &&& set.clients == session.clients
            &&& moved.clients == session.clients
            &&& selected.clients == session.clients
            &&& updated.clients == session.clients
            &&& received.clients == session.clients
            &&& sent.clients == session.clients
            &&& applied.clients == session.clients
            &&& set.presence == session.presence
            &&& closed.presence == session.presence
            &&& changed.presence == session.presence
            &&& received.presence == session.presence
            &&& sent.presence == session.presence
            &&& applied.presence == session.presence
            &&& joined.stats == session.stats
            &&& left.stats == session.stats
            &&& set.stats == session.stats
            &&& closed.stats == session.stats
            &&& changed.stats == session.stats
            &&& moved.stats == session.stats
            &&& selected.stats == session.stats
            &&& updated.stats == session.stats
            &&& joined.state.status == session.state.status
            &&& left.state.status == session.state.status
            &&& changed.state.status == session.state.status
            &&& moved.state.status == session.state.status
            &&& selected.state.status == session.state.status
            &&& updated.state.status == session.state.status
            &&& received.state.status == session.state.status
            &&& sent.state.status == session.state.status
            &&& applied.state.status == session.state.status
            &&& joined.state.operations_count == session.state.operations_count
            &&& left.state.operations_count == session.state.operations_count
            &&& set.state.operations_count == session.state.operations_count
            &&& closed.state.operations_count == session.state.operations_count
            &&& moved.state.operations_count == session.state.operations_count
            &&& selected.state.operations_count == session.state.operations_count
            &&& updated.state.operations_count == session.state.operations_count
            &&& received.state.operations_count == session.state.operations_count
            &&& sent.state.operations_count == session.state.operations_count
            &&& applied.state.operations_count == session.state.operations_count
            &&& joined.state.vclock == session.state.vclock
            &&& left.state.vclock == session.state.vclock
            &&& set.state.vclock == session.state.vclock
            &&& closed.state.vclock == session.state.vclock
            &&& moved.state.vclock == session.state.vclock
            &&& selected.state.vclock == session.state.vclock
            &&& updated.state.vclock == session.state.vclock
            &&& received.state.vclock == session.state.vclock
            &&& sent.state.vclock == session.state.vclock
            &&& set.state.last_activity == session.state.last_activity
            &&& closed.state.last_activity == session.state.last_activity
            &&& received.state.last_activity == session.state.last_activity
            &&& sent.state.last_activity == session.state.last_activity
            &&& received.events == session.events
            &&& applied.events == session.events
            &&& received.state == session.state
            &&& sent.state == session.state
        }),
{
}

/// Who may join: nobody once the session is closed, nor while it has as many clients as it
/// may have; otherwise everybody.
pub proof fn sessions_admit_while_there_is_room(session: SessionModel)
    ensures
        session.state.status == SessionStatus::Closed ==> !session.admits(),
        session.clients.dom().len() >= session.config.max_clients ==> !session.admits(),
        session.state.status != SessionStatus::Closed && session.clients.dom().len()
            < session.config.max_clients ==> session.admits(),
{
}

/// Whoever joins is connected under the own replica, with nothing sent or received yet, and
/// is present as an active user without a cursor if presence is enabled. Nobody else is
/// affected, and the session counts its clients and notes the time.
pub proof fn joining_makes_a_client_present(
    session: SessionModel,
    replica_id: ReplicaId,
    user_id: Seq<char>,
    name: Seq<char>,
    now: Timestamp,
    other: ReplicaId,
)
    ensures
        ({
            let after = session.joined_by(replica_id, user_id, name, now);
            let client = after.clients[replica_id];
            let user = after.presence.users[replica_id];
            &&& after.clients.contains_key(replica_id)
            &&& client.replica_id == replica_id
            &&& client.connected_at == now
            &&& client.last_message == now
            &&& client.ops_sent == 0
            &&& client.ops_received == 0
            &&& client.presence.user_id == user_id
            &&& client.presence.name == name
            &&& session.config.enable_presence ==> {
                &&& after.presence.users.contains_key(replica_id)
                &&& user == client.presence
                &&& user.replica_id == replica_id
                &&& user.user_id == user_id
                &&& user.name == name
                &&& user.status == PresenceStatus::Active
                &&& user.cursor is None
                &&& user.selection is None
                &&& user.last_seen == now
            }
            &&& !session.config.enable_presence ==> after.presence == session.presence
            &&& other != replica_id ==> {
                &&& after.clients.contains_key(other) == session.clients.contains_key(other)
                &&& session.clients.contains_key(other) ==> after.clients[other]
                    == session.clients[other]
                &&& after.presence.users.contains_key(other)
                    == session.presence.users.contains_key(other)
                &&& session.presence.users.contains_key(other) ==> after.presence.users[other]
                    == session.presence.users[other]
            }
            &&& after.state.client_count == after.clients.dom().len()
            &&& after.state.last_activity == now
        }),
{
}

/// Whoever leaves is neither connected nor present any more, and all are told. Nobody else
/// is affected, and the session counts its clients and notes the time.
pub proof fn leaving_takes_a_client_out(
    session: SessionModel,
    replica_id: ReplicaId,
    now: Timestamp,
    other: ReplicaId,
)
    ensures
        ({
            let after = session.left_by(replica_id, now);
            &&& !after.clients.contains_key(replica_id)
            &&& !after.presence.users.contains_key(replica_id)
            &&& other != replica_id ==> {
                &&& after.clients.contains_key(other) == session.clients.contains_key(other)
                &&& session.clients.contains_key(other) ==> after.clients[other]
                    == session.clients[other]
                &&& after.presence.users.contains_key(other)
                    == session.presence.users.contains_key(other)
                &&& session.presence.users.contains_key(other) ==> after.presence.users[other]
                    == session.presence.users[other]
            }
            &&& after.events == session.events + seq![EventState::ClientLeft { replica_id }]
            &&& after.state.client_count == after.clients.dom().len()
            &&& after.state.last_activity == now
        }),
{
    assert(session.left_by(replica_id, now).events =~= session.events + seq![
        EventState::ClientLeft { replica_id },
    ]);
}

/// Another status is taken on and told to all.
pub proof fn statuses_are_announced(session: SessionModel, status: SessionStatus)
    ensures
        session.with_status(status).state.status == status,
        session.with_status(status).state.client_count == session.state.client_count,
        session.with_status(status).events == session.events + seq![
            EventState::StateChanged { status },
        ],
{
    assert(session.with_status(status).events =~= session.events + seq![
        EventState::StateChanged { status },
    ]);
}

/// When a session closes, all are told in this order: that it is closing, that each client
/// has left, and that it is closed.
pub proof fn closing_is_told_in_order(session: SessionModel, order: Seq<ReplicaId>)
    ensures
        ({
            let after = session.closed(order).events;
            let n = session.events.len() as int;
            &&& after.len() == n + order.len() + 2
            &&& after.take(n) == session.events
            &&& after[n] == (EventState::StateChanged { status: SessionStatus::Closing })
            &&& forall|i: int|
                0 <= i < order.len() ==> after[n + 1 + i] == (EventState::ClientLeft {
                    replica_id: #[trigger] order[i],
                })
            &&& after.last() == (EventState::StateChanged { status: SessionStatus::Closed })
        }),
{
    let after = session.closed(order).events;
    let n = session.events.len() as int;
    let told = departures(order);
    assert(after.take(n) =~= session.events);
    assert forall|i: int| 0 <= i < order.len() implies after[n + 1 + i] == (
    EventState::ClientLeft { replica_id: #[trigger] order[i] }) by {
        assert(after[n + 1 + i] == told[i]);
    }
}

/// A recorded change is counted: by the document's version, by the session, by its vector
/// clock for the replica that made it, and for the client of that replica. All are told of
/// the replica, the field and the new version. No content of the document, no other client
/// and no other replica's count is touched.
pub proof fn changes_are_counted_and_told(
    session: SessionModel,
    replica_id: ReplicaId,
    field: Seq<char>,
    updated_at: Timestamp,
    now: Timestamp,
    other: ReplicaId,
)
    requires
        session.can_record(replica_id),
    ensures
        ({
            let after = session.changed_by(replica_id, field, updated_at, now);
            &&& after.document.version == session.document.version + 1
            &&& after.document.updated_at == updated_at
            &&& after.document.id == session.document.id
            &&& after.document.replica == session.document.replica
            &&& after.document.clock == session.document.clock
            &&& after.document.vclock == session.document.vclock
            &&& after.document.fields == session.document.fields
            &&& after.document.created_at == session.document.created_at
            &&& after.state.operations_count == session.state.operations_count + 1
            &&& after.state.last_activity == now
            &&& after.state.client_count == session.state.client_count
            &&& count_of(after.state.vclock, replica_id) == count_of(
                session.state.vclock,
                replica_id,
            ) + 1
            &&& other != replica_id ==> count_of(after.state.vclock, other) == count_of(
                session.state.vclock,
                other,
            )
            &&& after.clients.contains_key(other) == session.clients.contains_key(other)
            &&& other != replica_id && session.clients.contains_key(other) ==> after.clients[other]
                == session.clients[other]
            &&& session.clients.contains_key(replica_id) ==> {
                let before = session.clients[replica_id];
                let client = after.clients[replica_id];
                &&& client.ops_sent == before.ops_sent + 1
                &&& client.last_message == now
                &&& client.ops_received == before.ops_received
                &&& client.replica_id == before.replica_id
                &&& client.connected_at == before.connected_at
                &&& client.presence == before.presence
            }
            &&& after.events == session.events + seq![
                EventState::DocumentChanged { replica_id, field, version: after.document.version },
            ]
        }),
{
    let after = session.changed_by(replica_id, field, updated_at, now);
    assert(after.events =~= session.events + seq![
        EventState::DocumentChanged { replica_id, field, version: after.document.version },
    ]);
}

/// A change can be recorded while each of its counts has room: the document's version, the
/// session's operations, the replica's entry in the vector clock, and what its client sent.
pub proof fn changes_can_be_recorded_while_there_is_room(
    session: SessionModel,
    replica_id: ReplicaId,
)
    ensures
        session.document.version < u64::MAX && session.state.operations_count < u64::MAX
            && count_of(session.state.vclock, replica_id) < u64::MAX
            && !session.clients.contains_key(replica_id) ==> session.can_record(replica_id),
        session.document.version < u64::MAX && session.state.operations_count < u64::MAX
            && count_of(session.state.vclock, replica_id) < u64::MAX
            && session.clients[replica_id].ops_sent < u64::MAX ==> session.can_record(replica_id),
        session.document.version == u64::MAX ==> !session.can_record(replica_id),
        session.state.operations_count == u64::MAX ==> !session.can_record(replica_id),
        count_of(session.state.vclock, replica_id) == u64::MAX ==> !session.can_record(replica_id),
        session.clients.contains_key(replica_id) && session.clients[replica_id].ops_sent == u64::MAX
            ==> !session.can_record(replica_id),
{
}

/// While cursors are enabled, a user who moves the cursor is found with it there; nothing
/// else of the user changes but the time of the last activity. A user who is not present
/// does not become so. Nobody else is affected, and the session notes the time.
pub proof fn cursors_are_found_where_they_moved(
    session: SessionModel,
    replica_id: ReplicaId,
    position: CursorPosition,
    seen: Timestamp,
    now: Timestamp,
    other: ReplicaId,
)
    requires
        session.config.enable_cursors,
    ensures
        ({
            let after = session.cursor_moved(replica_id, position, seen, now);
            let user = after.presence.users[replica_id];
            let before = session.presence.users[replica_id];
            &&& after.presence.users.contains_key(replica_id)
                == session.presence.users.contains_key(replica_id)
            &&& session.presence.users.contains_key(replica_id) ==> {
                &&& user.cursor == Some(position)
                &&& user.last_seen == seen
                &&& user.replica_id == before.replica_id
                &&& user.user_id == before.user_id
                &&& user.name == before.name
                &&& user.color == before.color
                &&& user.status == before.status
                &&& user.selection == before.selection
                &&& user.metadata == before.metadata
            }
            &&& other != replica_id ==> after.presence.users.contains_key(other)
                == session.presence.users.contains_key(other)
            &&& other != replica_id && session.presence.users.contains_key(other)
                ==> after.presence.users[other] == session.presence.users[other]
            &&& after.state.last_activity == now
            &&& after.events.last() == (EventState::CursorMoved { replica_id, position })
            &&& after.events.drop_last() == session.events
        }),
{
    let after = session.cursor_moved(replica_id, position, seen, now);
    assert(after.events.drop_last() =~= session.events);
}

/// While selections are enabled, a user who selects is found with that selection; nothing
/// else of the user changes but the time of the last activity. A user who is not present
/// does not become so. Nobody else is affected, and the session notes the time.
pub proof fn selections_are_found_as_they_were_made(
    session: SessionModel,
    replica_id: ReplicaId,
    selection: SelectionRange,
    seen: Timestamp,
    now: Timestamp,
    other: ReplicaId,
)
    requires
        session.config.enable_selections,
    ensures
        ({
            let after = session.selection_changed(replica_id, selection, seen, now);
            let user = after.presence.users[replica_id];
            let before = session.presence.users[replica_id];
            &&& after.presence.users.contains_key(replica_id)
                == session.presence.users.contains_key(replica_id)
            &&& session.presence.users.contains_key(replica_id) ==> {
                &&& user.selection == Some(selection)
                &&& user.last_seen == seen
                &&& user.replica_id == before.replica_id
                &&& user.user_id == before.user_id
                &&& user.name == before.name
                &&& user.color == before.color
                &&& user.status == before.status
                &&& user.cursor == before.cursor
                &&& user.metadata == before.metadata
            }
            &&& other != replica_id ==> after.presence.users.contains_key(other)
                == session.presence.users.contains_key(other)
            &&& other != replica_id && session.presence.users.contains_key(other)
                ==> after.presence.users[other] == session.presence.users[other]
            &&& after.state.last_activity == now
            &&& after.events.last() == (EventState::SelectionChanged { replica_id, selection })
            &&& after.events.drop_last() == session.events
        }),
{
    let after = session.selection_changed(replica_id, selection, seen, now);
    assert(after.events.drop_last() =~= session.events);
}

/// While presence is enabled, a user whose presence is updated is found exactly as given,
/// under the replica of the user, present before or not. Nobody else is affected, all are
/// told, and the session notes the time.
pub proof fn updated_users_are_found_as_given(
    session: SessionModel,
    user: PresenceState,
    now: Timestamp,
    other: ReplicaId,
)
    requires
        session.config.enable_presence,
    ensures
        ({
            let after = session.presence_updated(user, now);
            &&& after.presence.users.contains_key(user.replica_id)
            &&& after.presence.users[user.replica_id] == user
            &&& after.presence.users == session.presence.users.insert(user.replica_id, user)
            &&& other != user.replica_id ==> after.presence.users.contains_key(other)
                == session.presence.users.contains_key(other)
            &&& other != user.replica_id && session.presence.users.contains_key(other)
                ==> after.presence.users[other] == session.presence.users[other]
            &&& after.state.last_activity == now
            &&& after.events.last() == (EventState::PresenceUpdated {
                replica_id: user.replica_id,
            })
            &&& after.events.drop_last() == session.events
        }),
{
    let after = session.presence_updated(user, now);
    assert(after.events.drop_last() =~= session.events);
}

/// Of two updates of one user the last one holds, and updates of two users do not get in
/// each other's way.
pub proof fn the_last_update_holds(
    session: SessionModel,
    first: PresenceState,
    second: PresenceState,
    now: Timestamp,
    later: Timestamp,
)
    requires
        session.config.enable_presence,
    ensures
        ({
            let after = session.presence_updated(first, now).presence_updated(second, later);
            &&& after.presence.users[second.replica_id] == second
            &&& first.replica_id != second.replica_id ==> after.presence.users[first.replica_id]
                == first
            &&& first.replica_id == second.replica_id ==> after.presence
                == session.presence_updated(second, later).presence
        }),
{
    let after = session.presence_updated(first, now).presence_updated(second, later);
    if first.replica_id == second.replica_id {
        assert(after.presence.users =~= session.presence_updated(second, later).presence.users);
    }
}

/// Each message that is received is counted, with its time; each document that is sent is
/// counted, and its receiver named to all.
pub proof fn messages_are_counted(session: SessionModel, replica_id: ReplicaId, now: Timestamp)
    requires
        session.stats.messages_received < u64::MAX,
        session.stats.messages_sent < u64::MAX,
        session.stats.operations_synced < u64::MAX,
    ensures
        ({
            let received = session.received(now).stats;
            let sent = session.state_sent(replica_id);
            &&& received.messages_received == session.stats.messages_received + 1
            &&& received.last_sync == Some(now)
            &&& received.messages_sent == session.stats.messages_sent
            &&& received.operations_synced == session.stats.operations_synced
            &&& sent.stats.messages_sent == session.stats.messages_sent + 1
            &&& sent.stats.operations_synced == session.stats.operations_synced + 1
            &&& sent.stats.messages_received == session.stats.messages_received
            &&& sent.stats.last_sync == session.stats.last_sync
            &&& sent.events == session.events + seq![EventState::SyncRequired { replica_id }]
        }),
{
    assert(session.state_sent(replica_id).events =~= session.events + seq![
        EventState::SyncRequired { replica_id },
    ]);
}

/// A document that is received is merged into the session's own, which stays itself: its id,
/// its replica, the replica of its clock and the time of its creation are kept, and so is a
/// field that is of another type in the received one. The session has then seen of each
/// replica the larger count, counts the sync and notes the time.
pub proof fn applied_documents_are_merged_into_the_own(
    session: SessionModel,
    incoming: DocState,
    vclock: Map<ReplicaId, u64>,
    now: Timestamp,
    name: Seq<char>,
    replica: ReplicaId,
)
    requires
        session.stats.operations_synced < u64::MAX,
    ensures
        ({
            let after = session.state_applied(incoming, vclock, now);
            let before = session.document;
            let known = before.fields.contains_key(name);
            &&& after.document.id == before.id
            &&& after.document.replica == before.replica
            &&& after.document.clock.replica == before.clock.replica
            &&& after.document.created_at == before.created_at
            &&& after.document.clock.counter >= before.clock.counter
            &&& after.document.clock.counter >= incoming.clock.counter
            &&& after.document.version >= before.version
            &&& after.document.version >= incoming.version
            &&& after.document.fields.contains_key(name) == (known || incoming.fields.contains_key(
                name,
            ))
            &&& known && !incoming.fields.contains_key(name) ==> after.document.fields[name]
                == before.fields[name]
            &&& !known && incoming.fields.contains_key(name) ==> after.document.fields[name]
                == incoming.fields[name]
            &&& known && incoming.fields.contains_key(name) && !before.fields[name].same_kind(
                incoming.fields[name],
            ) ==> after.document.fields[name] == before.fields[name]
            &&& known && incoming.fields.contains_key(name) && before.fields[name] is Integer
                && incoming.fields[name] is Integer
                && before.fields[name]->Integer_0.timestamp.before(
                incoming.fields[name]->Integer_0.timestamp,
            ) ==> after.document.fields[name] == incoming.fields[name]
            &&& known && incoming.fields.contains_key(name) && before.fields[name] is String
                && incoming.fields[name] is String && before.fields[name]->String_0.timestamp.before(
                incoming.fields[name]->String_0.timestamp,
            ) ==> after.document.fields[name] == incoming.fields[name]
            &&& after.document == before.joined(incoming)
            &&& count_of(after.state.vclock, replica) >= count_of(session.state.vclock, replica)
            &&& count_of(after.state.vclock, replica) >= count_of(vclock, replica)
            &&& count_of(after.state.vclock, replica) == count_of(session.state.vclock, replica)
                || count_of(after.state.vclock, replica) == count_of(vclock, replica)
            &&& after.state.last_activity == now
            &&& after.state.client_count == session.state.client_count
            &&& after.stats.operations_synced == session.stats.operations_synced + 1
            &&& after.stats.messages_sent == session.stats.messages_sent
            &&& after.stats.messages_received == session.stats.messages_received
            &&& after.stats.last_sync == session.stats.last_sync
        }),
{
}

/// A sync is due if there was none yet, and otherwise once the interval has passed since the
/// last one, and not before.
pub proof fn syncs_are_due_after_the_interval(session: SessionModel, now: Timestamp)
    ensures
        session.stats.last_sync is None ==> session.sync_due(now),
        session.stats.last_sync matches Some(last) ==> {
            let passed = now.instant() - last.instant();
            &&& passed >= 0 && passed >= session.config.sync_interval_ms * 1_000_000
                ==> session.sync_due(now)
            &&& session.config.sync_interval_ms > 0 && passed < session.config.sync_interval_ms
                * 1_000_000 ==> !session.sync_due(now)
            &&& session.config.sync_interval_ms == 0 ==> session.sync_due(now)
        },
{
    if let Some(last) = session.stats.last_sync {
        let passed = now.instant() - last.instant();
        let interval = session.config.sync_interval_ms as int;
        if passed >= 0 {
            assert(passed / 1_000_000 >= interval <==> passed >= interval * 1_000_000)
                by (nonlinear_arith)
                requires
                    passed >= 0,
                    interval >= 0,
            ;
        }
    }
}

/// A session is idle exactly if it counts no clients and its last activity is at least as
/// long ago as its timeout; no other property of the session plays a part.
pub proof fn idle_sessions_have_no_clients_and_no_activity(session: SessionModel, now: Timestamp)
    ensures
        session.state.client_count > 0 ==> !session.idle_at(now),
        ({
            let passed = now.instant() - session.state.last_activity.instant();
            &&& session.state.client_count == 0 && passed >= 0 && passed
                >= session.config.idle_timeout_secs * 1_000_000_000 ==> session.idle_at(now)
            &&& session.config.idle_timeout_secs > 0 && passed < session.config.idle_timeout_secs
                * 1_000_000_000 ==> !session.idle_at(now)
            &&& session.state.client_count == 0 && session.config.idle_timeout_secs == 0
                ==> session.idle_at(now)
        }),
{
    let passed = now.instant() - session.state.last_activity.instant();
    let timeout = session.config.idle_timeout_secs as int;
    if passed >= 0 {
        assert(passed / 1_000_000_000 >= timeout <==> passed >= timeout * 1_000_000_000)
            by (nonlinear_arith)
            requires
                passed >= 0,
                timeout >= 0,
        ;
    }
}

/// The small steps that the others are made of: an event is added behind the others, the
/// time of the last activity is noted, and the clients are counted.
pub proof fn small_steps_do_one_thing(session: SessionModel, event: EventState, now: Timestamp)
    ensures
        session.announced(event).events.last() == event,
        session.announced(event).events.drop_last() == session.events,
        session.announced(event).state == session.state,
        session.announced(event).document == session.document,
        session.announced(event).clients == session.clients,
        session.announced(event).presence == session.presence,
        session.announced(event).stats == session.stats,
        session.touched(now).state.last_activity == now,
        session.touched(now).events == session.events,
        session.recounted(now).state.client_count == session.clients.dom().len(),
        session.recounted(now).state.last_activity == now,
        session.recounted(now).events == session.events,
{
    assert(session.announced(event).events.drop_last() =~= session.events);
}

/// A session that is given no configuration takes a hundred clients, is idle after an hour,
/// has everything enabled, and syncs ten times a second, a thousand operations at once.
pub proof fn defaults_are_generous()
    ensures
        ({
            let config = SessionConfig::spec_default();
            &&& config.max_clients == 100
            &&& config.idle_timeout_secs == 60 * 60
            &&& config.enable_presence && config.enable_cursors && config.enable_selections
            &&& config.sync_interval_ms * 10 == 1000
            &&& config.max_ops_per_sync == 1000
        }),
{
}

} // verus!

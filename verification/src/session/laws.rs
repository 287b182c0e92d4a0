//! What holds of sessions and their manager as a whole.

use crate::document::laws::merge_has_the_fields_of_both;
use crate::document::model::DocState;
use crate::ident::{ReplicaId, Uuid};
use crate::items::enumerates;
use crate::presence::position::{CursorPosition, SelectionRange};
use crate::presence::user::PresenceState;
use crate::session::config::{SessionConfig, SessionStatus};
use crate::session::event::{departures, EventState};
use crate::session::manager::Registry;
use crate::session::model::SessionModel;
use crate::session::sync::SyncStats;
use crate::time::Timestamp;
use crate::vector_clock::{increment_happens_after, precedes};
use vstd::prelude::*;

verus! {

impl SessionModel {
    /// Whether the session has no more clients than it may have, and its state counts
    /// them right.
    pub open spec fn in_order(self) -> bool {
        &&& self.clients.dom().finite()
        &&& self.clients.dom().len() <= self.config.max_clients
        &&& self.state.client_count == self.clients.dom().len()
    }
}

/// A session never has more clients than its configuration allows, and its state
/// counts them right, whoever joins and leaves, and when it is closed.
pub proof fn capacity_is_kept(
    session: SessionModel,
    replica_id: ReplicaId,
    user_id: Seq<char>,
    name: Seq<char>,
    now: Timestamp,
    order: Seq<ReplicaId>,
)
    requires
        session.in_order(),
    ensures
        session.admits() ==> session.joined_by(replica_id, user_id, name, now).in_order(),
        session.left_by(replica_id, now).in_order(),
        session.closed(order).in_order(),
{
    let after = session.joined_by(replica_id, user_id, name, now);
    assert(after.clients.dom() =~= session.clients.dom().insert(replica_id));
    let left = session.left_by(replica_id, now);
    assert(left.clients.dom() =~= session.clients.dom().remove(replica_id));
    let closed = session.closed(order);
    assert(closed.clients.dom() =~= Set::<ReplicaId>::empty());
}

/// A session that opens is in order, and stays so whatever happens in it besides: changes,
/// another status, broadcasts, moved cursors and selections, presence, and every step of
/// a sync.
pub proof fn everything_keeps_sessions_in_order(
    session: SessionModel,
    id: Uuid,
    document: DocState,
    config: SessionConfig,
    replica_id: ReplicaId,
    field: Seq<char>,
    status: SessionStatus,
    event: EventState,
    position: CursorPosition,
    selection: SelectionRange,
    user: PresenceState,
    vclock: Map<ReplicaId, u64>,
    stats: SyncStats,
    seen: Timestamp,
    now: Timestamp,
)
    requires
        session.in_order(),
    ensures
        SessionModel::opened(id, document, config, now, seen).in_order(),
        session.changed_by(replica_id, field, seen, now).in_order(),
        session.with_status(status).in_order(),
        session.announced(event).in_order(),
        (SessionModel { events: Seq::empty(), ..session }).in_order(),
        (SessionModel { document, ..session }).in_order(),
        session.cursor_moved(replica_id, position, seen, now).in_order(),
        session.selection_changed(replica_id, selection, seen, now).in_order(),
        session.presence_updated(user, now).in_order(),
        session.received(now).in_order(),
        session.state_sent(replica_id).in_order(),
        session.state_applied(document, vclock, now).in_order(),
        (SessionModel { stats, ..session }).in_order(),
{
    let changed = session.changed_by(replica_id, field, seen, now);
    assert(changed.clients.dom() =~= session.clients.dom());
    let opened = SessionModel::opened(id, document, config, now, seen);
    assert(opened.clients.dom() =~= Set::<ReplicaId>::empty());
}

/// Whoever joins is connected, and whoever leaves is not; nobody else is affected.
/// Leaving undoes a join.
pub proof fn leaving_undoes_joining(
    session: SessionModel,
    replica_id: ReplicaId,
    user_id: Seq<char>,
    name: Seq<char>,
    now: Timestamp,
    later: Timestamp,
    other: ReplicaId,
)
    ensures
        ({
            let joined = session.joined_by(replica_id, user_id, name, now);
            let left = joined.left_by(replica_id, later);
            &&& joined.clients.contains_key(replica_id)
            &&& !left.clients.contains_key(replica_id)
            &&& !left.presence.users.contains_key(replica_id)
            &&& other != replica_id ==> joined.clients.contains_key(other)
                == session.clients.contains_key(other)
            &&& other != replica_id ==> left.clients.contains_key(other)
                == session.clients.contains_key(other)
            &&& !session.clients.contains_key(replica_id) ==> left.clients == session.clients
            &&& !session.presence.users.contains_key(replica_id) ==> left.presence
                == session.presence
            &&& left.document == session.document
        }),
{
    let joined = session.joined_by(replica_id, user_id, name, now);
    let left = joined.left_by(replica_id, later);
    if !session.clients.contains_key(replica_id) {
        assert(left.clients =~= session.clients);
    }
    if !session.presence.users.contains_key(replica_id) {
        assert(left.presence.users =~= session.presence.users);
        assert(left.presence =~= session.presence);
    }
}

/// A join is told to all: that the client is there, and that it needs the document.
pub proof fn joins_are_announced(
    session: SessionModel,
    replica_id: ReplicaId,
    user_id: Seq<char>,
    name: Seq<char>,
    now: Timestamp,
)
    ensures
        session.joined_by(replica_id, user_id, name, now).events == session.events + seq![
            EventState::ClientJoined { replica_id, user_id, name },
            EventState::SyncRequired { replica_id },
        ],
{
    assert(session.joined_by(replica_id, user_id, name, now).events =~= session.events + seq![
        EventState::ClientJoined { replica_id, user_id, name },
        EventState::SyncRequired { replica_id },
    ]);
}

/// A closed session has no clients and admits nobody, and every client it had was
/// told to leave.
pub proof fn closing_sends_everyone_away(
    session: SessionModel,
    order: Seq<ReplicaId>,
    replica_id: ReplicaId,
)
    requires
        enumerates(order, session.clients.dom()),
    ensures
        session.closed(order).clients.dom() == Set::<ReplicaId>::empty(),
        session.closed(order).state.status == SessionStatus::Closed,
        session.closed(order).state.client_count == 0,
        !session.closed(order).admits(),
        session.clients.contains_key(replica_id) ==> session.closed(order).events.contains(
            EventState::ClientLeft { replica_id },
        ),
        session.closed(order).events.last() == (EventState::StateChanged {
            status: SessionStatus::Closed,
        }),
        session.closed(order).document == session.document,
{
    let closed = session.closed(order);
    assert(closed.clients.dom() =~= Set::<ReplicaId>::empty());
    if session.clients.contains_key(replica_id) {
        assert(order.to_set().contains(replica_id));
        let k = choose|k: int| 0 <= k < order.len() && order[k] == replica_id;
        let told = departures(order);
        assert(told[k] == EventState::ClientLeft { replica_id });
        let start = session.with_status(SessionStatus::Closing).events;
        assert(closed.events[start.len() + k] == told[k]);
    }
}

/// What is disabled has no effect: neither an event nor a change of who is present.
pub proof fn disabled_updates_do_nothing(
    session: SessionModel,
    replica_id: ReplicaId,
    position: CursorPosition,
    selection: SelectionRange,
    user: PresenceState,
    seen: Timestamp,
    now: Timestamp,
)
    ensures
        !session.config.enable_cursors ==> session.cursor_moved(replica_id, position, seen, now)
            == session,
        !session.config.enable_selections ==> session.selection_changed(
            replica_id,
            selection,
            seen,
            now,
        ) == session,
        !session.config.enable_presence ==> session.presence_updated(user, now) == session,
{
}

/// What is enabled is told to all.
pub proof fn enabled_updates_are_announced(
    session: SessionModel,
    replica_id: ReplicaId,
    position: CursorPosition,
    selection: SelectionRange,
    user: PresenceState,
    seen: Timestamp,
    now: Timestamp,
)
    ensures
        session.config.enable_cursors ==> session.cursor_moved(
            replica_id,
            position,
            seen,
            now,
        ).events == session.events.push(EventState::CursorMoved { replica_id, position }),
        session.config.enable_selections ==> session.selection_changed(
            replica_id,
            selection,
            seen,
            now,
        ).events == session.events.push(EventState::SelectionChanged { replica_id, selection }),
        session.config.enable_presence ==> session.presence_updated(user, now).events
            == session.events.push(EventState::PresenceUpdated { replica_id: user.replica_id }),
{
}

/// Each recorded change has the next version and operation number, and comes causally
/// after everything that was recorded before.
pub proof fn changes_are_numbered(
    session: SessionModel,
    replica_id: ReplicaId,
    field: Seq<char>,
    updated_at: Timestamp,
    now: Timestamp,
)
    requires
        session.can_record(replica_id),
    ensures
        ({
            let after = session.changed_by(replica_id, field, updated_at, now);
            &&& after.document.version == session.document.version + 1
            &&& after.state.operations_count == session.state.operations_count + 1
            &&& precedes(session.state.vclock, after.state.vclock)
            &&& after.document.fields == session.document.fields
        }),
{
    increment_happens_after(session.state.vclock, replica_id);
}

/// A peer that applies the state of another session's document has its fields: those
/// that the peer did not have are taken over as they are.
pub proof fn transferred_fields_are_taken_over(
    peer: SessionModel,
    document: DocState,
    vclock: Map<ReplicaId, u64>,
    now: Timestamp,
    name: Seq<char>,
)
    requires
        document.fields.contains_key(name),
        !peer.document.fields.contains_key(name),
    ensures
        ({
            let after = peer.state_applied(document, vclock, now).document;
            &&& after.fields.contains_key(name)
            &&& after.fields[name] == document.fields[name]
            &&& after.string_value(name) == document.string_value(name)
            &&& after.integer_value(name) == document.integer_value(name)
            &&& after.boolean_value(name) == document.boolean_value(name)
        }),
{
    merge_has_the_fields_of_both(peer.document, document, name);
}

/// Of the answers of the operation protocol never more are forwarded than the
/// configuration allows, and all of them if it allows as many.
pub proof fn forwarding_is_bounded(session: SessionModel, answers: nat)
    ensures
        session.forwarded(answers) <= answers,
        session.forwarded(answers) <= session.config.max_ops_per_sync,
        answers <= session.config.max_ops_per_sync ==> session.forwarded(answers) == answers,
        answers > session.config.max_ops_per_sync ==> session.forwarded(answers)
            == session.config.max_ops_per_sync,
{
}

/// Once a session is idle it stays idle, until something happens in it.
pub proof fn idleness_lasts(session: SessionModel, now: Timestamp, later: Timestamp)
    requires
        now.instant() <= later.instant(),
        session.idle_at(now),
    ensures
        session.idle_at(later),
{
    let unit = 1_000_000_000int;
    let last = session.state.last_activity;
    if now.instant() >= last.instant() {
        let short = now.instant() - last.instant();
        let long = later.instant() - last.instant();
        assert(short / unit <= long / unit) by (nonlinear_arith)
            requires
                short <= long,
                unit > 0,
        ;
    }
}

impl Registry {
    /// Whether each document leads to a session that edits it.
    pub open spec fn consistent(self) -> bool {
        forall|document: Seq<char>| #[trigger]
            self.documents.contains_key(document) ==> {
                &&& self.sessions.contains_key(self.documents[document])
                &&& self.sessions[self.documents[document]].document.id == document
            }
    }
}

/// A document leads to the session that was last created for it, and only to a
/// session that edits it; the sessions that are removed are found no more.
pub proof fn documents_lead_to_their_sessions(
    registry: Registry,
    id: Uuid,
    session: SessionModel,
    gone: Set<Uuid>,
)
    requires
        registry.consistent(),
        !registry.sessions.contains_key(id),
    ensures
        Registry::empty().consistent(),
        registry.with_session(id, session).consistent(),
        registry.with_session(id, session).session_of(session.document.id) == Some(id),
        registry.without(gone).consistent(),
        forall|document: Seq<char>|
            (#[trigger] registry.without(gone).session_of(document)) matches Some(found)
                ==> !gone.contains(found),
{
    let after = registry.without(gone);
    assert forall|document: Seq<char>| #[trigger] after.documents.contains_key(document) implies {
        &&& after.sessions.contains_key(after.documents[document])
        &&& after.sessions[after.documents[document]].document.id == document
    } by {
        let found = registry.documents[document];
        assert(registry.documents.contains_key(document));
        if gone.contains(found) {
            assert(registry.edited_in(document, gone));
        }
    }
}

/// A session that is taken out and put back is found as it was left, and nothing else
/// is affected.
pub proof fn taking_is_undone_by_putting_back(registry: Registry, id: Uuid, session: SessionModel)
    requires
        registry.sessions.contains_key(id),
        session.id == id,
    ensures
        registry.lending(id).returned(session) == (Registry {
            sessions: registry.sessions.insert(id, session),
            ..registry
        }),
        session == registry.sessions[id] ==> registry.lending(id).returned(session) == registry,
        registry.consistent() && session.document.id == registry.sessions[id].document.id
            ==> registry.lending(id).returned(session).consistent(),
{
    let after = registry.lending(id).returned(session);
    assert(after.sessions =~= registry.sessions.insert(id, session));
    if session == registry.sessions[id] {
        assert(after.sessions =~= registry.sessions);
    }
}

/// A cleanup touches no session that has clients, and none that was active since
/// the cutoff.
pub proof fn cleanup_spares_the_active(registry: Registry, cutoff: int, now: Timestamp, id: Uuid)
    requires
        registry.sessions.contains_key(id),
    ensures
        registry.sessions[id].state.client_count > 0
            || registry.sessions[id].state.last_activity.instant() >= cutoff ==> {
            &&& registry.without(registry.abandoned(cutoff)).sessions.contains_key(id)
            &&& registry.without(registry.abandoned(cutoff)).sessions[id] == registry.sessions[id]
        },
        registry.sessions[id].state.client_count > 0 ==> registry.without(
            registry.idle(now),
        ).sessions.contains_key(id),
{
}

} // verus!

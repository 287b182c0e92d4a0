//! What a manager finds, keeps and cleans up.

use crate::element::Sound;
use crate::ident::{ReplicaId, Uuid};
use crate::items::enumerates;
use crate::session::collab::CollabSession;
use crate::session::config::SessionStatus;
use crate::session::laws::closing_sends_everyone_away;
use crate::session::manager::{idle_cutoff, is_closed_from, lists_closed, Registry};
use crate::session::model::SessionModel;
use crate::session::step_laws::idle_sessions_have_no_clients_and_no_activity;
use crate::time::Timestamp;
use vstd::prelude::*;

verus! {

/// A session that is taken in is found by its id and by its document. Every other session,
/// and every other document, is found as before.
pub proof fn sessions_taken_in_are_found(
    registry: Registry,
    id: Uuid,
    session: SessionModel,
    other: Uuid,
    document: Seq<char>,
)
    ensures
        ({
            let after = registry.with_session(id, session);
            &&& after.sessions.contains_key(id)
            &&& after.sessions[id] == session
            &&& after.session_of(session.document.id) == Some(id)
            &&& other != id ==> after.sessions.contains_key(other) == registry.sessions.contains_key(
                other,
            )
            &&& other != id && registry.sessions.contains_key(other) ==> after.sessions[other]
                == registry.sessions[other]
            &&& document != session.document.id ==> after.documents.contains_key(document)
                == registry.documents.contains_key(document)
            &&& document != session.document.id && registry.documents.contains_key(document)
                ==> after.documents[document] == registry.documents[document]
            &&& Registry::empty().sessions.dom() == Set::<Uuid>::empty()
            &&& Registry::empty().session_of(document) is None
        }),
{
    assert(Registry::empty().sessions.dom() =~= Set::empty());
}

/// A document leads to the session that is noted for it while the manager has that session,
/// and to none otherwise.
pub proof fn documents_lead_to_noted_sessions(registry: Registry, document: Seq<char>)
    ensures
        registry.session_of(document) matches Some(id) ==> registry.documents.contains_key(document)
            && registry.documents[document] == id && registry.sessions.contains_key(id),
        registry.documents.contains_key(document) && registry.sessions.contains_key(
            registry.documents[document],
        ) ==> registry.session_of(document) == Some(registry.documents[document]),
        !registry.documents.contains_key(document) ==> registry.session_of(document) is None,
{
}

/// A session that is taken out is not found until it is put back, and then as it was put
/// back; no other session and no document is touched.
pub proof fn sessions_come_back_as_they_were_put_back(
    registry: Registry,
    id: Uuid,
    session: SessionModel,
    other: Uuid,
)
    ensures
        ({
            let out = registry.lending(id);
            let back = registry.returned(session);
            &&& !out.sessions.contains_key(id)
            &&& out.documents == registry.documents
            &&& other != id ==> out.sessions.contains_key(other) == registry.sessions.contains_key(
                other,
            )
            &&& other != id && registry.sessions.contains_key(other) ==> out.sessions[other]
                == registry.sessions[other]
            &&& back.sessions.contains_key(session.id)
            &&& back.sessions[session.id] == session
            &&& back.documents == registry.documents
            &&& other != session.id ==> back.sessions.contains_key(other)
                == registry.sessions.contains_key(other)
            &&& other != session.id && registry.sessions.contains_key(other)
                ==> back.sessions[other] == registry.sessions[other]
        }),
{
}

/// Removing some sessions removes exactly those. A document is forgotten exactly if one of
/// them edited it; what any other document leads to stays.
pub proof fn exactly_the_given_sessions_are_removed(
    registry: Registry,
    gone: Set<Uuid>,
    id: Uuid,
    document: Seq<char>,
)
    ensures
        ({
            let after = registry.without(gone);
            &&& after.sessions.contains_key(id) == (registry.sessions.contains_key(id)
                && !gone.contains(id))
            &&& registry.sessions.contains_key(id) && !gone.contains(id) ==> after.sessions[id]
                == registry.sessions[id]
            &&& gone.contains(id) && registry.sessions.contains_key(id)
                ==> !after.documents.contains_key(registry.sessions[id].document.id)
            &&& registry.documents.contains_key(document) && (forall|some: Uuid| #[trigger]
                gone.contains(some) && registry.sessions.contains_key(some)
                    ==> registry.sessions[some].document.id != document) ==> {
                &&& after.documents.contains_key(document)
                &&& after.documents[document] == registry.documents[document]
            }
            &&& after.documents.contains_key(document) ==> registry.documents.contains_key(document)
        }),
{
    if gone.contains(id) && registry.sessions.contains_key(id) {
        assert(registry.edited_in(registry.sessions[id].document.id, gone));
    }
}

/// A cleanup leaves no session without clients whose last activity was before the cutoff,
/// whatever else was done in it, and leaves every other session as it is. The document of a
/// session that was cleaned up leads to no session any more.
pub proof fn cleanups_leave_no_abandoned_session(registry: Registry, cutoff: int, id: Uuid)
    requires
        registry.sessions.contains_key(id),
    ensures
        ({
            let session = registry.sessions[id];
            let after = registry.without(registry.abandoned(cutoff));
            let last = session.state.last_activity.secs * 1_000_000_000
                + session.state.last_activity.nanos;
            &&& session.state.client_count == 0 && last < cutoff ==> {
                &&& !after.sessions.contains_key(id)
                &&& registry.abandoned(cutoff).contains(id)
                &&& after.session_of(session.document.id) is None
            }
            &&& session.state.client_count > 0 || last >= cutoff ==> {
                &&& after.sessions.contains_key(id)
                &&& after.sessions[id] == session
                &&& !registry.abandoned(cutoff).contains(id)
            }
        }),
{
    let gone = registry.abandoned(cutoff);
    exactly_the_given_sessions_are_removed(
        registry,
        gone,
        id,
        registry.sessions[id].document.id,
    );
}

/// A cleanup by a number of idle seconds takes out the sessions without clients whose last
/// activity is more than that long ago, and no others.
pub proof fn cleanups_go_by_the_time_since_the_last_activity(
    registry: Registry,
    max_idle_secs: u64,
    now: Timestamp,
    id: Uuid,
)
    requires
        registry.sessions.contains_key(id),
        max_idle_secs <= i64::MAX,
    ensures
        ({
            let session = registry.sessions[id];
            let after = registry.without(registry.abandoned(idle_cutoff(max_idle_secs, now)));
            let passed = now.instant() - session.state.last_activity.instant();
            after.sessions.contains_key(id) == (session.state.client_count > 0 || passed
                <= max_idle_secs * 1_000_000_000)
        }),
{
    cleanups_leave_no_abandoned_session(registry, idle_cutoff(max_idle_secs, now), id);
}

/// A cleanup by the configurations leaves no session without clients whose last activity is
/// as long ago as its own timeout, and leaves every other session as it is.
pub proof fn cleanups_honor_each_configuration(registry: Registry, now: Timestamp, id: Uuid)
    requires
        registry.sessions.contains_key(id),
        registry.sessions[id].config.idle_timeout_secs > 0,
    ensures
        ({
            let session = registry.sessions[id];
            let after = registry.without(registry.idle(now));
            let passed = now.instant() - session.state.last_activity.instant();
            let timeout = session.config.idle_timeout_secs * 1_000_000_000;
            &&& session.state.client_count == 0 && passed >= timeout ==> {
                &&& !after.sessions.contains_key(id)
                &&& registry.idle(now).contains(id)
                &&& after.session_of(session.document.id) is None
            }
            &&& session.state.client_count > 0 || passed < timeout ==> {
                &&& after.sessions.contains_key(id)
                &&& after.sessions[id] == session
                &&& !registry.idle(now).contains(id)
            }
        }),
{
    let session = registry.sessions[id];
    idle_sessions_have_no_clients_and_no_activity(session, now);
    exactly_the_given_sessions_are_removed(
        registry,
        registry.idle(now),
        id,
        session.document.id,
    );
}

/// A session that was removed is closed: it has no clients, admits nobody, and keeps its id
/// and its document.
pub proof fn removed_sessions_are_closed(after: SessionModel, before: SessionModel)
    requires
        is_closed_from(after, before),
    ensures
        after.id == before.id,
        after.document == before.document,
        after.state.status == SessionStatus::Closed,
        after.state.client_count == 0,
        after.clients.dom() == Set::<ReplicaId>::empty(),
        !after.admits(),
        after.events.len() == before.events.len() + before.clients.dom().len() + 2,
{
    let order = choose|order: Seq<ReplicaId>|
        enumerates(order, before.clients.dom()) && after == #[trigger] before.closed(order);
    closing_sends_everyone_away(before, order, before.sync_replica);
    order.unique_seq_to_set();
}

/// The sessions that a cleanup hands back are those it took out: as many as it took out,
/// each of them closed, and every one that was taken out is among them.
pub proof fn cleanups_hand_back_what_they_took_out(
    closed: Seq<CollabSession>,
    registry: Registry,
    gone: Set<Uuid>,
    id: Uuid,
)
    requires
        lists_closed(closed, registry, gone),
        gone.contains(id),
    ensures
        closed.len() == gone.len(),
        exists|i: int|
            0 <= i < closed.len() && is_closed_from(
                (#[trigger] closed[i])@,
                registry.sessions[id],
            ),
        forall|i: int|
            0 <= i < closed.len() ==> (#[trigger] closed[i])@.state.status == SessionStatus::Closed,
{
    let order = choose|order: Seq<Uuid>|
        {
            &&& #[trigger] enumerates(order, gone)
            &&& closed.len() == order.len()
            &&& forall|i: int|
                0 <= i < closed.len() ==> (#[trigger] closed[i]).valid() && is_closed_from(
                    closed[i]@,
                    registry.sessions[order[i]],
                )
        };
    order.unique_seq_to_set();
    assert(order.to_set().contains(id));
    let k = choose|k: int| 0 <= k < order.len() && order[k] == id;
    assert(is_closed_from(closed[k]@, registry.sessions[order[k]]));
    assert forall|i: int| 0 <= i < closed.len() implies (
    #[trigger] closed[i])@.state.status == SessionStatus::Closed by {
        assert(is_closed_from(closed[i]@, registry.sessions[order[i]]));
        removed_sessions_are_closed(closed[i]@, registry.sessions[order[i]]);
    }
}

} // verus!

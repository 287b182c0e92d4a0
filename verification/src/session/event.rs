//! What the clients of a session are told.

use crate::ident::ReplicaId;
use crate::presence::position::{CursorPosition, SelectionRange};
use crate::session::config::SessionStatus;
use vstd::prelude::*;

verus! {

/// Session events.
#[derive(Debug)]
pub enum SessionEvent {
    /// Client joined
    ClientJoined {
        /// Who joined
        replica_id: ReplicaId,
        /// The user on that replica
        user_id: String,
        /// The user's name
        name: String,
    },
    /// Client left
    ClientLeft {
        /// Who left
        replica_id: ReplicaId,
    },
    /// Document changed
    DocumentChanged {
        /// Who changed it
        replica_id: ReplicaId,
        /// The field that was changed
        field: String,
        /// The version with the change
        version: u64,
    },
    /// Cursor moved
    CursorMoved {
        /// Whose cursor
        replica_id: ReplicaId,
        /// Where it is now
        position: CursorPosition,
    },
    /// Selection changed
    SelectionChanged {
        /// Whose selection
        replica_id: ReplicaId,
        /// What is selected now
        selection: SelectionRange,
    },
    /// Presence updated
    PresenceUpdated {
        /// Whose presence
        replica_id: ReplicaId,
    },
    /// Session state changed
    StateChanged {
        /// The new status
        status: SessionStatus,
    },
    /// Sync required
    SyncRequired {
        /// Who needs the document state
        replica_id: ReplicaId,
    },
}

/// What an event says.
pub enum EventState {
    /// Client joined
    ClientJoined {
        /// Who joined
        replica_id: ReplicaId,
        /// The user on that replica
        user_id: Seq<char>,
        /// The user's name
        name: Seq<char>,
    },
    /// Client left
    ClientLeft {
        /// Who left
        replica_id: ReplicaId,
    },
    /// Document changed
    DocumentChanged {
        /// Who changed it
        replica_id: ReplicaId,
        /// The field that was changed
        field: Seq<char>,
        /// The version with the change
        version: u64,
    },
    /// Cursor moved
    CursorMoved {
        /// Whose cursor
        replica_id: ReplicaId,
        /// Where it is now
        position: CursorPosition,
    },
    /// Selection changed
    SelectionChanged {
        /// Whose selection
        replica_id: ReplicaId,
        /// What is selected now
        selection: SelectionRange,
    },
    /// Presence updated
    PresenceUpdated {
        /// Whose presence
        replica_id: ReplicaId,
    },
    /// Session state changed
    StateChanged {
        /// The new status
        status: SessionStatus,
    },
    /// Sync required
    SyncRequired {
        /// Who needs the document state
        replica_id: ReplicaId,
    },
}

impl View for SessionEvent {
    type V = EventState;

    open spec fn view(&self) -> EventState {
        match *self {
            SessionEvent::ClientJoined { replica_id, user_id, name } => EventState::ClientJoined {
                replica_id,
                user_id: user_id@,
                name: name@,
            },
            SessionEvent::ClientLeft { replica_id } => EventState::ClientLeft { replica_id },
            SessionEvent::DocumentChanged { replica_id, field, version } => {
                EventState::DocumentChanged { replica_id, field: field@, version }
            },
            SessionEvent::CursorMoved { replica_id, position } => EventState::CursorMoved {
                replica_id,
                position,
            },
            SessionEvent::SelectionChanged { replica_id, selection } => {
                EventState::SelectionChanged { replica_id, selection }
            },
            SessionEvent::PresenceUpdated { replica_id } => EventState::PresenceUpdated {
                replica_id,
            },
            SessionEvent::StateChanged { status } => EventState::StateChanged { status },
            SessionEvent::SyncRequired { replica_id } => EventState::SyncRequired { replica_id },
        }
    }
}

impl Clone for SessionEvent {
    fn clone(&self) -> (copy: SessionEvent)
        ensures
            copy@ == self@,
    {
        match self {
            SessionEvent::ClientJoined { replica_id, user_id, name } => {
                SessionEvent::ClientJoined {
                    replica_id: *replica_id,
                    user_id: user_id.clone(),
                    name: name.clone(),
                }
            },
            SessionEvent::ClientLeft { replica_id } => SessionEvent::ClientLeft {
                replica_id: *replica_id,
            },
            SessionEvent::DocumentChanged { replica_id, field, version } => {
                SessionEvent::DocumentChanged {
                    replica_id: *replica_id,
                    field: field.clone(),
                    version: *version,
                }
            },
            SessionEvent::CursorMoved { replica_id, position } => SessionEvent::CursorMoved {
                replica_id: *replica_id,
                position: *position,
            },
            SessionEvent::SelectionChanged { replica_id, selection } => {
                SessionEvent::SelectionChanged {
                    replica_id: *replica_id,
                    selection: *selection,
                }
            },
            SessionEvent::PresenceUpdated { replica_id } => SessionEvent::PresenceUpdated {
                replica_id: *replica_id,
            },
            SessionEvent::StateChanged { status } => SessionEvent::StateChanged {
                status: *status,
            },
            SessionEvent::SyncRequired { replica_id } => SessionEvent::SyncRequired {
                replica_id: *replica_id,
            },
        }
    }
}

/// What some events say.
pub open spec fn events_of(events: Seq<SessionEvent>) -> Seq<EventState> {
    events.map_values(|event: SessionEvent| event@)
}

/// The events that tell of some replicas leaving, in their order.
pub open spec fn departures(replicas: Seq<ReplicaId>) -> Seq<EventState> {
    replicas.map_values(|replica_id: ReplicaId| EventState::ClientLeft { replica_id })
}

/// Each event says what it carries.
pub proof fn events_say_what_they_carry(event: SessionEvent)
    ensures
        match event {
            SessionEvent::ClientJoined { replica_id, user_id, name } => event@ is ClientJoined
                && event@->ClientJoined_replica_id == replica_id && event@->user_id == user_id@
                && event@->name == name@,
            SessionEvent::ClientLeft { replica_id } => event@ is ClientLeft
                && event@->ClientLeft_replica_id == replica_id,
            SessionEvent::DocumentChanged { replica_id, field, version } => {
                event@ is DocumentChanged && event@->DocumentChanged_replica_id == replica_id
                    && event@->field == field@ && event@->version == version
            },
            SessionEvent::CursorMoved { replica_id, position } => event@ is CursorMoved
                && event@->CursorMoved_replica_id == replica_id && event@->position == position,
            SessionEvent::SelectionChanged { replica_id, selection } => {
                event@ is SelectionChanged && event@->SelectionChanged_replica_id == replica_id
                    && event@->selection == selection
            },
            SessionEvent::PresenceUpdated { replica_id } => event@ is PresenceUpdated
                && event@->PresenceUpdated_replica_id == replica_id,
            SessionEvent::StateChanged { status } => event@ is StateChanged && event@->status
                == status,
            SessionEvent::SyncRequired { replica_id } => event@ is SyncRequired
                && event@->SyncRequired_replica_id == replica_id,
        },
{
}

/// Events are told one by one, in their order; so are departures.
pub proof fn events_are_told_in_order(events: Seq<SessionEvent>, replicas: Seq<ReplicaId>)
    ensures
        events_of(events).len() == events.len(),
        forall|i: int| 0 <= i < events.len() ==> #[trigger] events_of(events)[i] == events[i]@,
        departures(replicas).len() == replicas.len(),
        forall|i: int|
            0 <= i < replicas.len() ==> #[trigger] departures(replicas)[i] == (
            EventState::ClientLeft { replica_id: replicas[i] }),
{
}

} // verus!

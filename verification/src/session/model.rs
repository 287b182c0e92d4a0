//! What a session is, and what each operation makes of it.

use crate::counts::{count_of, counts_join};
use crate::document::model::DocState;
use crate::ident::{ReplicaId, Uuid};
use crate::presence::manager::PresenceBook;
use crate::presence::position::{CursorPosition, SelectionRange};
use crate::presence::user::PresenceState;
use crate::session::clients::ClientState;
use crate::session::config::{ActivityState, SessionConfig, SessionStatus};
use crate::session::event::{departures, EventState};
use crate::session::sync::SyncStats;
use crate::time::{Span, Timestamp};
use vstd::prelude::*;

verus! {

/// The state of a session.
#[verifier::ext_equal]
pub struct SessionModel {
    /// Session ID
    pub id: Uuid,
    /// Document being edited
    pub document: DocState,
    /// Who is present
    pub presence: PresenceBook,
    /// Session configuration
    pub config: SessionConfig,
    /// Events that are still to be published
    pub events: Seq<EventState>,
    /// Connected clients
    pub clients: Map<ReplicaId, ClientState>,
    /// Session state
    pub state: ActivityState,
    /// Created timestamp
    pub created_at: Timestamp,
    /// The replica that answers sync requests
    pub sync_replica: ReplicaId,
    /// Accumulated sync statistics
    pub stats: SyncStats,
}

impl SessionModel {
    /// A session that opens on a document.
    pub open spec fn opened(
        id: Uuid,
        document: DocState,
        config: SessionConfig,
        now: Timestamp,
        created_at: Timestamp,
    ) -> SessionModel {
        SessionModel {
            id,
            document,
            presence: PresenceBook { users: Map::empty(), timeout: Span { nanos: 30_000_000_000 } },
            config,
            events: Seq::empty(),
            clients: Map::empty(),
            state: ActivityState::opened(now),
            created_at,
            sync_replica: document.replica,
            stats: SyncStats::zero(),
        }
    }

    /// Whether the session is full.
    pub open spec fn full(self) -> bool {
        self.clients.dom().len() >= self.config.max_clients
    }

    /// Whether a client can join: the session is not closed and not full.
    pub open spec fn admits(self) -> bool {
        self.state.status != SessionStatus::Closed && !self.full()
    }

    /// The session with activity at some time, and the number of its clients as it
    /// is.
    pub open spec fn recounted(self, now: Timestamp) -> SessionModel {
        SessionModel {
            state: ActivityState {
                client_count: self.clients.dom().len(),
                last_activity: now,
                ..self.state
            },
            ..self
        }
    }

    /// The session with one more event to publish.
    pub open spec fn announced(self, event: EventState) -> SessionModel {
        SessionModel { events: self.events.push(event), ..self }
    }

    /// The session with activity at some time.
    pub open spec fn touched(self, now: Timestamp) -> SessionModel {
        SessionModel { state: ActivityState { last_activity: now, ..self.state }, ..self }
    }

    /// The session after a client joined it at some time.
    pub open spec fn joined_by(
        self,
        replica_id: ReplicaId,
        user_id: Seq<char>,
        name: Seq<char>,
        now: Timestamp,
    ) -> SessionModel {
        let presence = PresenceState::fresh(replica_id, user_id, name, now);
        let client = ClientState {
            replica_id,
            presence,
            connected_at: now,
            last_message: now,
            ops_sent: 0,
            ops_received: 0,
        };
        SessionModel {
            clients: self.clients.insert(replica_id, client),
            presence: if self.config.enable_presence {
                PresenceBook {
                    users: self.presence.users.insert(replica_id, presence),
                    ..self.presence
                }
            } else {
                self.presence
            },
            ..self
        }.recounted(now).announced(
            EventState::ClientJoined { replica_id, user_id, name },
        ).announced(EventState::SyncRequired { replica_id })
    }

    /// The session after a client left it at some time.
    pub open spec fn left_by(self, replica_id: ReplicaId, now: Timestamp) -> SessionModel {
        SessionModel {
            clients: self.clients.remove(replica_id),
            presence: PresenceBook {
                users: self.presence.users.remove(replica_id),
                ..self.presence
            },
            ..self
        }.recounted(now).announced(EventState::ClientLeft { replica_id })
    }

    /// The session with another status.
    pub open spec fn with_status(self, status: SessionStatus) -> SessionModel {
        SessionModel { state: ActivityState { status, ..self.state }, ..self }.announced(
            EventState::StateChanged { status },
        )
    }

    /// The session after it was closed, with its clients told to leave in some order.
    /// No client is left, and the state counts none.
    pub open spec fn closed(self, order: Seq<ReplicaId>) -> SessionModel {
        let closing = self.with_status(SessionStatus::Closing);
        SessionModel {
            events: closing.events + departures(order),
            clients: Map::empty(),
            state: ActivityState { client_count: 0, ..closing.state },
            ..closing
        }.with_status(SessionStatus::Closed)
    }

    /// Whether one more change of a replica can be counted.
    pub open spec fn can_record(self, replica_id: ReplicaId) -> bool {
        &&& self.document.version < u64::MAX
        &&& self.state.operations_count < u64::MAX
        &&& count_of(self.state.vclock, replica_id) < u64::MAX
        &&& self.clients.contains_key(replica_id) ==> self.clients[replica_id].ops_sent < u64::MAX
    }

    /// The session after a change of a replica was recorded at some time.
    pub open spec fn changed_by(
        self,
        replica_id: ReplicaId,
        field: Seq<char>,
        updated_at: Timestamp,
        now: Timestamp,
    ) -> SessionModel {
        let version = (self.document.version + 1) as u64;
        SessionModel {
            document: DocState { version, updated_at, ..self.document },
            clients: if self.clients.contains_key(replica_id) {
                let client = self.clients[replica_id];
                self.clients.insert(
                    replica_id,
                    ClientState {
                        ops_sent: (client.ops_sent + 1) as u64,
                        last_message: now,
                        ..client
                    },
                )
            } else {
                self.clients
            },
            state: ActivityState {
                operations_count: (self.state.operations_count + 1) as u64,
                last_activity: now,
                vclock: self.state.vclock.insert(
                    replica_id,
                    (count_of(self.state.vclock, replica_id) + 1) as u64,
                ),
                ..self.state
            },
            ..self
        }.announced(EventState::DocumentChanged { replica_id, field, version })
    }

    /// The session after the presence of a user changed, with an event about it.
    pub open spec fn with_user(
        self,
        replica_id: ReplicaId,
        user: PresenceState,
        event: EventState,
        now: Timestamp,
    ) -> SessionModel {
        SessionModel {
            presence: PresenceBook {
                users: self.presence.users.insert(replica_id, user),
                ..self.presence
            },
            ..self
        }.announced(event).touched(now)
    }

    /// The session after a cursor moved, if cursors are enabled. Only the event is
    /// left of the move of a user who is not present.
    pub open spec fn cursor_moved(
        self,
        replica_id: ReplicaId,
        position: CursorPosition,
        seen: Timestamp,
        now: Timestamp,
    ) -> SessionModel {
        let event = EventState::CursorMoved { replica_id, position };
        if !self.config.enable_cursors {
            self
        } else if self.presence.users.contains_key(replica_id) {
            let user = PresenceState {
                cursor: Some(position),
                last_seen: seen,
                ..self.presence.users[replica_id]
            };
            self.with_user(replica_id, user, event, now)
        } else {
            self.announced(event).touched(now)
        }
    }

    /// The session after a selection changed, if selections are enabled. Only the
    /// event is left of the selection of a user who is not present.
    pub open spec fn selection_changed(
        self,
        replica_id: ReplicaId,
        selection: SelectionRange,
        seen: Timestamp,
        now: Timestamp,
    ) -> SessionModel {
        let event = EventState::SelectionChanged { replica_id, selection };
        if !self.config.enable_selections {
            self
        } else if self.presence.users.contains_key(replica_id) {
            let user = PresenceState {
                selection: Some(selection),
                last_seen: seen,
                ..self.presence.users[replica_id]
            };
            self.with_user(replica_id, user, event, now)
        } else {
            self.announced(event).touched(now)
        }
    }

    /// The session after a user's presence was updated, if presence is enabled.
    pub open spec fn presence_updated(self, user: PresenceState, now: Timestamp) -> SessionModel {
        if self.config.enable_presence {
            self.with_user(
                user.replica_id,
                user,
                EventState::PresenceUpdated { replica_id: user.replica_id },
                now,
            )
        } else {
            self
        }
    }

    /// The session after a message was received at some time.
    pub open spec fn received(self, now: Timestamp) -> SessionModel {
        SessionModel {
            stats: SyncStats {
                messages_received: (self.stats.messages_received + 1) as u64,
                last_sync: Some(now),
                ..self.stats
            },
            ..self
        }
    }

    /// The session after the document was sent to a replica.
    pub open spec fn state_sent(self, replica_id: ReplicaId) -> SessionModel {
        SessionModel {
            stats: SyncStats {
                messages_sent: (self.stats.messages_sent + 1) as u64,
                operations_synced: (self.stats.operations_synced + 1) as u64,
                ..self.stats
            },
            ..self
        }.announced(EventState::SyncRequired { replica_id })
    }

    /// The session after a document that was received was applied at some time.
    pub open spec fn state_applied(
        self,
        incoming: DocState,
        vclock: Map<ReplicaId, u64>,
        now: Timestamp,
    ) -> SessionModel {
        SessionModel {
            document: self.document.joined(incoming),
            state: ActivityState {
                vclock: counts_join(self.state.vclock, vclock),
                last_activity: now,
                ..self.state
            },
            stats: SyncStats {
                operations_synced: (self.stats.operations_synced + 1) as u64,
                ..self.stats
            },
            ..self
        }
    }

    /// How many of some answers of the operation protocol are forwarded: all of them,
    /// but no more than the configuration allows.
    pub open spec fn forwarded(self, answers: nat) -> nat {
        if answers <= self.config.max_ops_per_sync {
            answers
        } else {
            self.config.max_ops_per_sync as nat
        }
    }

    /// Whether a sync is due at some time: none has happened yet, or the interval has
    /// passed since the last.
    pub open spec fn sync_due(self, now: Timestamp) -> bool {
        match self.stats.last_sync {
            Some(last) => now.whole_units_since(last, 1_000_000) >= self.config.sync_interval_ms,
            None => true,
        }
    }

    /// Whether the session is idle at some time: it has no clients, and no activity
    /// for as long as the timeout.
    pub open spec fn idle_at(self, now: Timestamp) -> bool {
        &&& self.state.client_count == 0
        &&& now.whole_units_since(self.state.last_activity, 1_000_000_000)
            >= self.config.idle_timeout_secs
    }
}

} // verus!

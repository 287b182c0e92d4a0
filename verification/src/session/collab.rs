//! Collaboration sessions.

use crate::document::doc::Document;
use crate::element::Sound;
use crate::error::{CollabError, CollabResult};
use crate::ident::{is_random_uuid, ReplicaId, Uuid};
use crate::items::enumerates;
use crate::presence::manager::PresenceManager;
use crate::presence::position::{CursorPosition, SelectionRange};
use crate::presence::user::UserPresence;
use crate::session::clients::{ClientConnection, Clients};
use crate::session::config::{SessionConfig, SessionInfo, SessionState, SessionStatus};
use crate::session::event::{departures, events_of, EventState, SessionEvent};
use crate::session::model::SessionModel;
use crate::session::sync::{
    carried_bytes, carry, DocumentState, MessageState, SyncAction, SyncMessage, SyncStats, TransferState,
};
use crate::time::{Span, Timestamp};
use crate::vector_clock::VectorClock;
use vstd::prelude::*;

verus! {

/// Collaboration session.
///
/// What is to be broadcast to the clients is collected in the session, until it is
/// taken out with [`CollabSession::take_events`].
pub struct CollabSession {
    /// Session ID
    pub id: Uuid,
    /// Document being edited
    document: Document,
    /// Presence manager
    presence: PresenceManager,
    /// Session configuration
    config: SessionConfig,
    /// Events that are still to be published
    events: Vec<SessionEvent>,
    /// Connected clients
    clients: Clients,
    /// Session state
    state: SessionState,
    /// Created timestamp
    created_at: Timestamp,
    /// The replica that answers sync requests
    sync_replica: ReplicaId,
    /// Accumulated sync statistics for this session
    sync_stats: SyncStats,
}

impl View for CollabSession {
    type V = SessionModel;

    closed spec fn view(&self) -> SessionModel {
        SessionModel {
            id: self.id,
            document: self.document@,
            presence: self.presence@,
            config: self.config,
            events: events_of(self.events@),
            clients: self.clients@,
            state: self.state@,
            created_at: self.created_at,
            sync_replica: self.sync_replica,
            stats: self.sync_stats,
        }
    }
}

impl Sound for CollabSession {
    closed spec fn valid(&self) -> bool {
        &&& self.document.valid()
        &&& self.presence.valid()
        &&& self.clients.wf()
    }
}

impl CollabSession {
    /// Create a new collaboration session.
    pub fn new(document: Document) -> (session: CollabSession)
        requires
            document.valid(),
        ensures
            session.valid(),
            is_random_uuid(session@.id.bits),
            session@ == SessionModel::opened(
                session@.id,
                document@,
                SessionConfig::spec_default(),
                session@.state.last_activity,
                session@.created_at,
            ),
            session@.state.last_activity.is_clock_reading(),
            session@.created_at.is_clock_reading(),
    {
        CollabSession::with_config(document, SessionConfig::default())
    }

    /// Create a session with custom configuration.
    pub fn with_config(document: Document, config: SessionConfig) -> (session: CollabSession)
        requires
            document.valid(),
        ensures
            session.valid(),
            is_random_uuid(session@.id.bits),
            session@ == SessionModel::opened(
                session@.id,
                document@,
                config,
                session@.state.last_activity,
                session@.created_at,
            ),
            session@.state.last_activity.is_clock_reading(),
            session@.created_at.is_clock_reading(),
    {
        let sync_replica = document.replica();
        let session = CollabSession {
            id: Uuid::new_v4(),
            document,
            presence: PresenceManager::new(),
            config,
            events: Vec::new(),
            clients: Clients::new(),
            state: SessionState::default(),
            created_at: Timestamp::now(),
            sync_replica,
            sync_stats: SyncStats::default(),
        };
        assert(session@.events =~= Seq::empty());
        session
    }

    /// Access the session configuration.
    pub fn config(&self) -> (config: &SessionConfig)
        ensures
            *config == self@.config,
    {
        &self.config
    }

    /// Get the session ID.
    pub fn id(&self) -> (id: Uuid)
        ensures
            id == self@.id,
    {
        self.id
    }

    /// Get the document.
    pub fn document(&self) -> (document: &Document)
        requires
            self.valid(),
        ensures
            document.valid(),
            document@ == self@.document,
    {
        &self.document
    }

    /// Get the document for writing. What is done to the document through the
    /// reference is done to the session's document.
    pub fn document_mut(&mut self) -> (document: &mut Document)
        requires
            old(self).valid(),
        ensures
            document.valid(),
            document@ == old(self)@.document,
            final(document).valid() ==> final(self).valid(),
            final(self)@ == (SessionModel { document: final(document)@, ..old(self)@ }),
    {
        &mut self.document
    }

    /// Get the presence manager.
    pub fn presence(&self) -> (presence: &PresenceManager)
        requires
            self.valid(),
        ensures
            presence.valid(),
            presence@ == self@.presence,
    {
        &self.presence
    }

    /// Get session state.
    pub fn state(&self) -> (state: SessionState)
        ensures
            state@ == self@.state,
    {
        self.state.clone()
    }

    /// Collects an event for broadcast.
    fn announce(&mut self, event: SessionEvent)
        requires
            old(self).valid(),
        ensures
            final(self).valid(),
            final(self)@ == old(self)@.announced(event@),
    {
        let ghost before = self@;
        let ghost events = self.events@;
        self.events.push(event);
        assert(events_of(self.events@) =~= events_of(events).push(event@));
        assert(self@ =~= before.announced(event@));
    }

    /// Takes out the events that were collected for broadcast, in their order.
    pub fn take_events(&mut self) -> (events: Vec<SessionEvent>)
        requires
            old(self).valid(),
        ensures
            final(self).valid(),
            events_of(events@) == old(self)@.events,
            final(self)@ == (SessionModel { events: Seq::empty(), ..old(self)@ }),
    {
        let ghost before = self@;
        let mut events: Vec<SessionEvent> = Vec::new();
        std::mem::swap(&mut events, &mut self.events);
        assert(events_of(self.events@) =~= Seq::empty());
        assert(self@ =~= (SessionModel { events: Seq::empty(), ..before }));
        events
    }

    /// Takes the number of clients and the time over into the state.
    fn recount(&mut self) -> (now: Timestamp)
        requires
            old(self).valid(),
        ensures
            final(self).valid(),
            now.is_clock_reading(),
            final(self)@ == old(self)@.recounted(now),
    {
        let now = Timestamp::now();
        self.state.client_count = self.clients.len();
        self.state.last_activity = now;
        now
    }

    /// Join the session.
    ///
    /// A closed session admits nobody; nor does a full one. A client that has joined
    /// is told the document's state.
    pub fn join(&mut self, replica_id: ReplicaId, user_id: &str, name: &str) -> (joined:
        CollabResult<()>)
        requires
            old(self).valid(),
        ensures
            final(self).valid(),
            joined is Ok == old(self)@.admits(),
            joined is Ok ==> {
                let now = final(self)@.state.last_activity;
                &&& now.is_clock_reading()
                &&& final(self)@ == old(self)@.joined_by(replica_id, user_id@, name@, now)
            },
            joined is Err ==> final(self)@ == old(self)@,
            joined matches Err(error) ==> {
                if old(self)@.state.status == SessionStatus::Closed {
                    error == CollabError::SessionNotFound(old(self)@.id)
                } else {
                    error is PermissionDenied && error->PermissionDenied_0@ == "Session is full"@
                }
            },
    {
        if self.state.status == SessionStatus::Closed {
            return Err(CollabError::SessionNotFound(self.id));
        }
        if self.clients.len() >= self.config.max_clients {
            return Err(CollabError::PermissionDenied("Session is full".to_owned()));
        }
        let ghost before = self@;
        let now = Timestamp::now();
        let presence = UserPresence::new_at(replica_id, user_id, name, now);
        let client = ClientConnection {
            replica_id,
            presence: presence.clone(),
            connected_at: now,
            last_message: now,
            ops_sent: 0,
            ops_received: 0,
        };
        self.clients.insert(replica_id, client);
        if self.config.enable_presence {
            self.presence.update(presence);
        }
        self.state.client_count = self.clients.len();
        self.state.last_activity = now;
        self.announce(
            SessionEvent::ClientJoined {
                replica_id,
                user_id: user_id.to_owned(),
                name: name.to_owned(),
            },
        );
        self.announce(SessionEvent::SyncRequired { replica_id });
        assert(self@ =~= before.joined_by(replica_id, user_id@, name@, now));
        Ok(())
    }

    /// Leave the session.
    pub fn leave(&mut self, replica_id: &ReplicaId)
        requires
            old(self).valid(),
        ensures
            final(self).valid(),
            final(self)@ == old(self)@.left_by(*replica_id, final(self)@.state.last_activity),
            final(self)@.state.last_activity.is_clock_reading(),
    {
        let ghost before = self@;
        self.clients.remove(*replica_id);
        self.presence.remove(replica_id);
        let now = self.recount();
        self.announce(SessionEvent::ClientLeft { replica_id: *replica_id });
        assert(self@ =~= before.left_by(*replica_id, now));
    }

    /// Get connected client count.
    pub fn client_count(&self) -> (count: usize)
        requires
            self.valid(),
        ensures
            count == self@.clients.dom().len(),
    {
        self.clients.len()
    }

    /// Get all connected replica IDs, in some order.
    pub fn connected_replicas(&self) -> (replicas: Vec<ReplicaId>)
        ensures
            enumerates(replicas@, self@.clients.dom()),
    {
        self.clients.replicas()
    }

    /// Check if a replica is connected.
    pub fn is_connected(&self, replica_id: &ReplicaId) -> (connected: bool)
        ensures
            connected == self@.clients.contains_key(*replica_id),
    {
        self.clients.contains(*replica_id)
    }

    /// Broadcast an event.
    pub fn broadcast(&mut self, event: SessionEvent)
        requires
            old(self).valid(),
        ensures
            final(self).valid(),
            final(self)@ == old(self)@.announced(event@),
    {
        self.announce(event);
    }

    /// Update session status.
    pub fn set_status(&mut self, status: SessionStatus)
        requires
            old(self).valid(),
        ensures
            final(self).valid(),
            final(self)@ == old(self)@.with_status(status),
    {
        let ghost before = self@;
        self.state.status = status;
        self.announce(SessionEvent::StateChanged { status });
        assert(self@ =~= before.with_status(status));
    }

    /// Close the session: tell every client to leave, and take it out.
    pub fn close(&mut self)
        requires
            old(self).valid(),
        ensures
            final(self).valid(),
            exists|order: Seq<ReplicaId>|
                enumerates(order, old(self)@.clients.dom()) && final(self)@
                    == #[trigger] old(self)@.closed(order),
    {
        let ghost before = self@;
        self.set_status(SessionStatus::Closing);
        let ghost closing = self@;
        let replicas = self.clients.replicas();
        let mut i: usize = 0;
        assert(departures(replicas@.take(0)) =~= Seq::empty());
        assert(self@.events =~= closing.events + departures(replicas@.take(0)));
        while i < replicas.len()
            invariant
                i <= replicas@.len(),
                self.valid(),
                self@ == (SessionModel {
                    events: closing.events + departures(replicas@.take(i as int)),
                    ..closing
                }),
            decreases replicas@.len() - i,
        {
            let ghost told = self@.events;
            self.announce(SessionEvent::ClientLeft { replica_id: replicas[i] });
            i = i + 1;
            proof {
                assert(replicas@.take(i as int) =~= replicas@.take(i - 1).push(replicas@[i - 1]));
                assert(departures(replicas@.take(i as int)) =~= departures(
                    replicas@.take(i - 1),
                ).push(EventState::ClientLeft { replica_id: replicas@[i - 1] }));
                assert(self@.events =~= closing.events + departures(replicas@.take(i as int)));
            }
        }
        assert(replicas@.take(i as int) =~= replicas@);
        self.clients.clear();
        self.state.client_count = 0;
        self.set_status(SessionStatus::Closed);
        assert(self@ =~= before.closed(replicas@));
    }

    /// Touch the session's last-activity timestamp.
    fn touch_activity(&mut self)
        requires
            old(self).valid(),
        ensures
            final(self).valid(),
            final(self)@ == old(self)@.touched(final(self)@.state.last_activity),
            final(self)@.state.last_activity.is_clock_reading(),
    {
        self.state.last_activity = Timestamp::now();
    }

    /// Whether one more change of a replica can be counted.
    pub fn can_record(&self, replica_id: ReplicaId) -> (can: bool)
        ensures
            can == self@.can_record(replica_id),
    {
        let sent = match self.clients.ops_sent(replica_id) {
            Some(ops) => ops < u64::MAX,
            None => true,
        };
        self.document.version() < u64::MAX && self.state.operations_count < u64::MAX
            && self.state.vclock.get(&replica_id) < u64::MAX && sent
    }

    /// Record and broadcast a document change made by a replica.
    ///
    /// Bumps the document version, records the operation and emits a
    /// [`SessionEvent::DocumentChanged`]. Returns the new version.
    pub fn record_change(&mut self, replica_id: ReplicaId, field: &str) -> (version: u64)
        requires
            old(self).valid(),
            old(self)@.can_record(replica_id),
        ensures
            final(self).valid(),
            version == old(self)@.document.version + 1,
            final(self)@ == old(self)@.changed_by(
                replica_id,
                field@,
                final(self)@.document.updated_at,
                final(self)@.state.last_activity,
            ),
            final(self)@.document.updated_at.is_clock_reading(),
            final(self)@.state.last_activity.is_clock_reading(),
    {
        let ghost before = self@;
        let version = self.document.bump_version();
        let now = Timestamp::now();
        match self.clients.remove(replica_id) {
            Some(client) => {
                let mut client = client;
                client.ops_sent = client.ops_sent + 1;
                client.last_message = now;
                self.clients.insert(replica_id, client);
                assert(self.clients@ =~= before.clients.insert(replica_id, client@));
            },
            None => {
                assert(self.clients@ =~= before.clients);
            },
        }
        self.state.operations_count = self.state.operations_count + 1;
        self.state.last_activity = now;
        self.state.vclock.increment(replica_id);
        self.announce(
            SessionEvent::DocumentChanged { replica_id, field: field.to_owned(), version },
        );
        assert(self@ =~= before.changed_by(
            replica_id,
            field@,
            self@.document.updated_at,
            self@.state.last_activity,
        ));
        version
    }

    /// Update a client's cursor position (honors `enable_cursors`).
    pub fn update_cursor(&mut self, replica_id: ReplicaId, position: CursorPosition)
        requires
            old(self).valid(),
        ensures
            final(self).valid(),
            final(self)@ == old(self)@.cursor_moved(
                replica_id,
                position,
                final(self)@.presence.users[replica_id].last_seen,
                final(self)@.state.last_activity,
            ),
            old(self)@.config.enable_cursors
                ==> final(self)@.state.last_activity.is_clock_reading(),
            old(self)@.config.enable_cursors && old(self)@.presence.users.contains_key(replica_id)
                ==> final(self)@.presence.users[replica_id].last_seen.is_clock_reading(),
    {
        if !self.config.enable_cursors {
            return;
        }
        let ghost before = self@;
        self.presence.update_cursor(&replica_id, position);
        self.announce(SessionEvent::CursorMoved { replica_id, position });
        self.touch_activity();
        assert(self@ =~= before.cursor_moved(
            replica_id,
            position,
            self@.presence.users[replica_id].last_seen,
            self@.state.last_activity,
        ));
    }

    /// Update a client's selection range (honors `enable_selections`).
    pub fn update_selection(&mut self, replica_id: ReplicaId, selection: SelectionRange)
        requires
            old(self).valid(),
        ensures
            final(self).valid(),
            final(self)@ == old(self)@.selection_changed(
                replica_id,
                selection,
                final(self)@.presence.users[replica_id].last_seen,
                final(self)@.state.last_activity,
            ),
            old(self)@.config.enable_selections
                ==> final(self)@.state.last_activity.is_clock_reading(),
            old(self)@.config.enable_selections && old(self)@.presence.users.contains_key(replica_id)
                ==> final(self)@.presence.users[replica_id].last_seen.is_clock_reading(),
    {
        if !self.config.enable_selections {
            return;
        }
        let ghost before = self@;
        self.presence.update_selection(&replica_id, selection);
        self.announce(SessionEvent::SelectionChanged { replica_id, selection });
        self.touch_activity();
        assert(self@ =~= before.selection_changed(
            replica_id,
            selection,
            self@.presence.users[replica_id].last_seen,
            self@.state.last_activity,
        ));
    }

    /// Update a client's presence (honors `enable_presence`).
    pub fn update_presence(&mut self, presence: UserPresence)
        requires
            old(self).valid(),
            presence.valid(),
        ensures
            final(self).valid(),
            final(self)@ == old(self)@.presence_updated(
                presence@,
                final(self)@.state.last_activity,
            ),
            old(self)@.config.enable_presence
                ==> final(self)@.state.last_activity.is_clock_reading(),
    {
        if !self.config.enable_presence {
            return;
        }
        let ghost before = self@;
        let replica_id = presence.replica_id;
        self.presence.update(presence);
        self.announce(SessionEvent::PresenceUpdated { replica_id });
        self.touch_activity();
        assert(self@ =~= before.presence_updated(presence@, self@.state.last_activity));
    }

    /// Build a snapshot of the current document state for sync transfer, around the
    /// text of the document.
    pub fn document_state(&self, text: CollabResult<String>) -> (state: DocumentState)
        ensures
            state@ == (TransferState {
                doc_id: self@.document.id,
                data: carried_bytes(text),
                version: self@.document.version,
                vclock: self@.state.vclock,
            }),
    {
        DocumentState {
            doc_id: self.document.id().to_owned(),
            data: carry(text),
            version: self.document.version(),
            vclock: self.state.vclock.clone(),
        }
    }

    /// Take in a sync message, and decide what is to be done about it: a request is
    /// answered with the document, a response is applied, any other message is
    /// delegated to the operation protocol.
    pub fn handle_sync(&mut self, msg: SyncMessage) -> (action: SyncAction)
        requires
            old(self).valid(),
            old(self)@.stats.messages_received < u64::MAX,
        ensures
            final(self).valid(),
            action.answers(msg@),
            final(self)@.stats.last_sync matches Some(now) && now.is_clock_reading()
                && final(self)@ == old(self)@.received(now),
    {
        self.sync_stats.messages_received = self.sync_stats.messages_received + 1;
        self.sync_stats.last_sync = Some(Timestamp::now());
        SyncAction::about(msg)
    }

    /// Answer a request with the text of the document.
    pub fn send_state(&mut self, replica_id: ReplicaId, text: CollabResult<String>) -> (response:
        SyncMessage)
        requires
            old(self).valid(),
            old(self)@.stats.messages_sent < u64::MAX,
            old(self)@.stats.operations_synced < u64::MAX,
        ensures
            final(self).valid(),
            final(self)@ == old(self)@.state_sent(replica_id),
            response@ == (MessageState::SyncResponse {
                replica_id: old(self)@.sync_replica,
                state: TransferState {
                    doc_id: old(self)@.document.id,
                    data: carried_bytes(text),
                    version: old(self)@.document.version,
                    vclock: old(self)@.state.vclock,
                },
                vclock: old(self)@.state.vclock,
            }),
    {
        let ghost before = self@;
        let state = self.document_state(text);
        let vclock = self.state.vclock.clone();
        self.announce(SessionEvent::SyncRequired { replica_id });
        self.sync_stats.messages_sent = self.sync_stats.messages_sent + 1;
        self.sync_stats.operations_synced = self.sync_stats.operations_synced + 1;
        assert(self@ =~= before.state_sent(replica_id));
        SyncMessage::SyncResponse { replica_id: self.sync_replica, state, vclock }
    }

    /// Apply a document that was received, by merging it. Nothing happens if what was
    /// received could not be read.
    pub fn apply_state(&mut self, incoming: CollabResult<Document>, vclock: &VectorClock)
        requires
            old(self).valid(),
            incoming matches Ok(document) ==> document.valid(),
            old(self)@.stats.operations_synced < u64::MAX,
        ensures
            final(self).valid(),
            match incoming {
                Ok(document) => {
                    let now = final(self)@.state.last_activity;
                    &&& now.is_clock_reading()
                    &&& final(self)@ == old(self)@.state_applied(document@, vclock@, now)
                },
                Err(_) => final(self)@ == old(self)@,
            },
    {
        match incoming {
            Ok(document) => {
                let ghost before = self@;
                self.document.merge(&document);
                self.state.vclock.merge(vclock);
                self.state.last_activity = Timestamp::now();
                self.sync_stats.operations_synced = self.sync_stats.operations_synced + 1;
                assert(self@ =~= before.state_applied(
                    document@,
                    vclock@,
                    self@.state.last_activity,
                ));
            },
            Err(_) => {},
        }
    }

    /// Forward the answers of the operation protocol: the first ones, never more than
    /// the configured batch size. An error of the protocol is passed on.
    pub fn forward_responses(&mut self, responses: CollabResult<Vec<SyncMessage>>) -> (forwarded:
        CollabResult<Vec<SyncMessage>>)
        requires
            old(self).valid(),
            responses matches Ok(answers) ==> old(self)@.stats.messages_sent
                + old(self)@.forwarded(answers@.len()) <= u64::MAX,
        ensures
            final(self).valid(),
            match responses {
                Ok(answers) => {
                    let count = old(self)@.forwarded(answers@.len());
                    &&& forwarded matches Ok(sent) && sent@ == answers@.take(count as int)
                    &&& final(self)@ == (SessionModel {
                        stats: SyncStats {
                            messages_sent: (old(self)@.stats.messages_sent + count) as u64,
                            ..old(self)@.stats
                        },
                        ..old(self)@
                    })
                },
                Err(error) => forwarded == Err::<Vec<SyncMessage>, CollabError>(error)
                    && final(self)@ == old(self)@,
            },
    {
        let mut sent = match responses {
            Ok(answers) => answers,
            Err(error) => {
                return Err(error);
            },
        };
        let ghost answers = sent@;
        sent.truncate(self.config.max_ops_per_sync);
        assert(sent@ =~= answers.take(self@.forwarded(answers.len()) as int));
        self.sync_stats.messages_sent = self.sync_stats.messages_sent + sent.len() as u64;
        Ok(sent)
    }

    /// Snapshot of accumulated sync statistics.
    pub fn sync_stats(&self) -> (stats: SyncStats)
        ensures
            stats == self@.stats,
    {
        self.sync_stats
    }

    /// The configured sync interval.
    pub fn sync_interval(&self) -> (interval: Span)
        ensures
            interval.nanos == self@.config.sync_interval_ms * 1_000_000,
    {
        Span::from_millis(self.config.sync_interval_ms)
    }

    /// Whether enough time has elapsed since the last sync to sync again, per the
    /// configured `sync_interval_ms`, at the time the clock shows.
    pub fn should_sync(&self) -> (due: bool)
        ensures
            exists|now: Timestamp| now.is_clock_reading() && due == #[trigger] self@.sync_due(now),
    {
        let now = Timestamp::now();
        self.should_sync_at(now)
    }

    /// Whether enough time has elapsed since the last sync to sync again at some
    /// time.
    pub fn should_sync_at(&self, now: Timestamp) -> (due: bool)
        ensures
            due == self@.sync_due(now),
    {
        match self.sync_stats.last_sync {
            Some(last) => now.millis_since(&last) >= self.config.sync_interval_ms as u128,
            None => true,
        }
    }

    /// Whether the session is idle per its configured `idle_timeout_secs` (no
    /// connected clients and no activity within the timeout), at the time the clock
    /// shows.
    pub fn is_idle(&self) -> (idle: bool)
        ensures
            exists|now: Timestamp| now.is_clock_reading() && idle == #[trigger] self@.idle_at(now),
    {
        let now = Timestamp::now();
        self.is_idle_at(now)
    }

    /// Whether the session is idle at some time.
    pub fn is_idle_at(&self, now: Timestamp) -> (idle: bool)
        ensures
            idle == self@.idle_at(now),
    {
        self.state.client_count == 0 && now.secs_since(&self.state.last_activity)
            >= self.config.idle_timeout_secs as u128
    }

    /// Get session info.
    pub fn info(&self) -> (info: SessionInfo)
        requires
            self.valid(),
        ensures
            info.id == self@.id,
            info.document_id@ == self@.document.id,
            info.client_count == self@.clients.dom().len(),
            info.status == self@.state.status,
            info.operations_count == self@.state.operations_count,
            info.created_at == self@.created_at,
            info.last_activity == self@.state.last_activity,
    {
        SessionInfo {
            id: self.id,
            document_id: self.document.id().to_owned(),
            client_count: self.clients.len(),
            status: self.state.status,
            operations_count: self.state.operations_count,
            created_at: self.created_at,
            last_activity: self.state.last_activity,
        }
    }
}

} // verus!

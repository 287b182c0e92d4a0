use armature_collab::{
    CollabError, CollabSession, CursorPosition, Document, DocumentState, ReplicaId, SelectionRange,
    SessionConfig, SessionEvent, SessionManager, SessionStatus, SyncAction, SyncMessage, Timestamp,
    UserPresence, Uuid, VectorClock,
};

fn replica(n: u128) -> ReplicaId {
    ReplicaId::from_uuid(Uuid { bits: n })
}

fn request(peer: ReplicaId, doc_id: &str) -> SyncMessage {
    SyncMessage::SyncRequest {
        replica_id: peer,
        vclock: VectorClock::new(),
        doc_id: doc_id.to_string(),
    }
}

fn after(time: Timestamp, secs: i64) -> Timestamp {
    Timestamp { secs: time.secs + secs, nanos: time.nanos }
}

#[test]
fn test_session_join_leave() {
    let doc = Document::new("test-doc");
    let mut session = CollabSession::new(doc);

    let replica = ReplicaId::new();
    session.join(replica, "user1", "Alice").unwrap();

    assert_eq!(session.client_count(), 1);
    assert!(session.is_connected(&replica));

    session.leave(&replica);
    assert_eq!(session.client_count(), 0);
}

#[test]
fn test_session_manager() {
    let mut manager = SessionManager::new();

    let doc1 = Document::new("doc1");
    let session1 = manager.create(doc1);

    let doc2 = Document::new("doc2");
    let _session2 = manager.create(doc2);

    assert_eq!(manager.count(), 2);
    assert!(manager.get(&session1).is_some());
    assert!(manager.get_by_document("doc1").is_some());

    manager.remove(&session1);
    assert_eq!(manager.count(), 1);
}

#[test]
fn test_handle_sync_transfers_state() {
    let mut doc = Document::new("doc-sync");
    doc.set_string("title", "Hello");
    let mut session = CollabSession::new(doc);

    let peer = ReplicaId::new();
    let action = session.handle_sync(request(peer, "doc-sync"));
    let replica_id = match action {
        SyncAction::SendState { replica_id } => replica_id,
        _ => panic!("expected the state to be sent"),
    };
    assert_eq!(replica_id, peer);

    let parts = session.document().parts();
    let response = session.send_state(replica_id, Ok("encoded".to_string()));
    match &response {
        SyncMessage::SyncResponse { state, .. } => {
            assert_eq!(state.doc_id, "doc-sync");
            assert_eq!(state.data, b"encoded".to_vec());
            let restored = Document::from_parts(parts);
            assert_eq!(restored.get_string("title"), Some("Hello"));
        }
        _ => panic!("expected a SyncResponse"),
    }

    let stats = session.sync_stats();
    assert!(stats.messages_sent >= 1);
    assert!(stats.messages_received >= 1);
}

#[test]
fn test_sync_response_applies_state() {
    let mut source_doc = Document::new("doc1");
    source_doc.set_string("body", "content");
    let mut source = CollabSession::new(source_doc);

    let peer = ReplicaId::new();
    source.handle_sync(request(peer, "doc1"));
    let response = source.send_state(peer, Ok("the document".to_string()));

    // A fresh joining session applies the response.
    let mut joiner = CollabSession::new(Document::new("doc1"));
    match joiner.handle_sync(response) {
        SyncAction::ApplyState { text, vclock } => {
            assert_eq!(text, "the document");
            let incoming = Document::from_parts(source.document().parts());
            joiner.apply_state(Ok(incoming), &vclock);
        }
        _ => panic!("expected the state to be applied"),
    }
    assert_eq!(joiner.document().get_string("body"), Some("content"));
}

#[test]
fn test_dormant_events_emitted() {
    let doc = Document::new("evt-doc");
    let mut session = CollabSession::new(doc);

    let replica = ReplicaId::new();
    // DocumentChanged
    session.record_change(replica, "title");
    // CursorMoved
    session.update_cursor(replica, CursorPosition::new(3));
    // SelectionChanged
    session.update_selection(
        replica,
        SelectionRange::new(CursorPosition::new(0), CursorPosition::new(2)),
    );
    // PresenceUpdated
    session.update_presence(UserPresence::new(replica, "u", "User"));
    // SyncRequired
    session.handle_sync(request(replica, "evt-doc"));
    session.send_state(replica, Ok(String::new()));

    let mut seen_doc = false;
    let mut seen_cursor = false;
    let mut seen_sel = false;
    let mut seen_presence = false;
    let mut seen_sync = false;
    for ev in session.take_events() {
        match ev {
            SessionEvent::DocumentChanged { .. } => seen_doc = true,
            SessionEvent::CursorMoved { .. } => seen_cursor = true,
            SessionEvent::SelectionChanged { .. } => seen_sel = true,
            SessionEvent::PresenceUpdated { .. } => seen_presence = true,
            SessionEvent::SyncRequired { .. } => seen_sync = true,
            _ => {}
        }
    }
    assert!(seen_doc, "DocumentChanged not emitted");
    assert!(seen_cursor, "CursorMoved not emitted");
    assert!(seen_sel, "SelectionChanged not emitted");
    assert!(seen_presence, "PresenceUpdated not emitted");
    assert!(seen_sync, "SyncRequired not emitted");
}

#[test]
fn test_config_knobs_honored() {
    let config = SessionConfig {
        enable_cursors: false,
        enable_selections: false,
        ..SessionConfig::default()
    };
    let mut session = CollabSession::with_config(Document::new("cfg-doc"), config);
    let replica = ReplicaId::new();

    session.update_cursor(replica, CursorPosition::new(1));
    session.update_selection(
        replica,
        SelectionRange::new(CursorPosition::new(0), CursorPosition::new(1)),
    );

    // No cursor/selection events should have been emitted.
    let mut any = false;
    for ev in session.take_events() {
        if matches!(
            ev,
            SessionEvent::CursorMoved { .. } | SessionEvent::SelectionChanged { .. }
        ) {
            any = true;
        }
    }
    assert!(
        !any,
        "cursor/selection events emitted despite being disabled"
    );
}

#[test]
fn the_default_configuration_is_generous() {
    let config = SessionConfig::default();
    assert_eq!(config.max_clients, 100);
    assert_eq!(config.idle_timeout_secs, 3600);
    assert!(config.enable_presence && config.enable_cursors && config.enable_selections);
    assert_eq!(config.sync_interval_ms, 100);
    assert_eq!(config.max_ops_per_sync, 1000);
    let session = CollabSession::new(Document::new("d"));
    assert_eq!(session.config().max_clients, 100);
    assert_eq!(session.sync_interval().nanos, 100_000_000);
}

#[test]
fn joins_and_departures_are_announced() {
    let mut session = CollabSession::new(Document::new("d"));
    session.join(replica(1), "u1", "Alice").unwrap();
    session.leave(&replica(1));
    let events = session.take_events();
    assert_eq!(events.len(), 3);
    match &events[0] {
        SessionEvent::ClientJoined { replica_id, user_id, name } => {
            assert_eq!(*replica_id, replica(1));
            assert_eq!(user_id, "u1");
            assert_eq!(name, "Alice");
        }
        _ => unreachable!(),
    }
    assert!(matches!(&events[1], SessionEvent::SyncRequired { replica_id } if *replica_id == replica(1)));
    assert!(matches!(&events[2], SessionEvent::ClientLeft { replica_id } if *replica_id == replica(1)));
    assert!(session.take_events().is_empty());
    assert_eq!(session.presence().count(), 0);
    assert_eq!(session.state().client_count, 0);
}

#[test]
fn full_sessions_admit_nobody() {
    let config = SessionConfig { max_clients: 2, ..SessionConfig::default() };
    let mut session = CollabSession::with_config(Document::new("d"), config);
    session.join(replica(1), "a", "A").unwrap();
    session.join(replica(2), "b", "B").unwrap();
    match session.join(replica(3), "c", "C") {
        Err(CollabError::PermissionDenied(reason)) => assert_eq!(reason, "Session is full"),
        _ => unreachable!(),
    }
    assert_eq!(session.client_count(), 2);
    let mut connected = session.connected_replicas();
    connected.sort();
    assert_eq!(connected, vec![replica(1), replica(2)]);
    session.leave(&replica(1));
    session.join(replica(3), "c", "C").unwrap();
    assert!(session.is_connected(&replica(3)));
    assert!(!session.is_connected(&replica(1)));
    assert_eq!(session.state().client_count, 2);
    assert_eq!(session.info().client_count, 2);
}

#[test]
fn presence_can_be_switched_off() {
    let config = SessionConfig { enable_presence: false, ..SessionConfig::default() };
    let mut session = CollabSession::with_config(Document::new("d"), config);
    session.join(replica(1), "a", "A").unwrap();
    assert_eq!(session.client_count(), 1);
    assert_eq!(session.presence().count(), 0);
    session.take_events();
    session.update_presence(UserPresence::new(replica(1), "a", "A"));
    assert!(session.take_events().is_empty());
}

#[test]
fn closing_tells_every_client() {
    let mut session = CollabSession::new(Document::new("d"));
    session.join(replica(1), "a", "A").unwrap();
    session.join(replica(2), "b", "B").unwrap();
    session.take_events();
    session.close();
    let events = session.take_events();
    assert_eq!(events.len(), 4);
    assert!(matches!(
        events[0],
        SessionEvent::StateChanged { status: SessionStatus::Closing }
    ));
    let mut left: Vec<ReplicaId> = Vec::new();
    for event in &events[1..3] {
        if let SessionEvent::ClientLeft { replica_id } = event {
            left.push(*replica_id);
        }
    }
    left.sort();
    assert_eq!(left, vec![replica(1), replica(2)]);
    assert!(matches!(
        events[3],
        SessionEvent::StateChanged { status: SessionStatus::Closed }
    ));
    assert_eq!(session.client_count(), 0);
    assert_eq!(session.state().client_count, 0);
    assert_eq!(session.state().status, SessionStatus::Closed);
    match session.join(replica(3), "c", "C") {
        Err(CollabError::SessionNotFound(id)) => assert_eq!(id, session.id()),
        _ => unreachable!(),
    }
}

#[test]
fn paused_sessions_still_admit() {
    let mut session = CollabSession::new(Document::new("d"));
    session.set_status(SessionStatus::Paused);
    assert!(session.join(replica(1), "a", "A").is_ok());
    session.broadcast(SessionEvent::SyncRequired { replica_id: replica(9) });
    assert_eq!(session.take_events().len(), 4);
}

#[test]
fn recorded_changes_are_numbered() {
    let mut session = CollabSession::new(Document::new("d"));
    session.join(replica(1), "a", "A").unwrap();
    session.take_events();
    assert_eq!(session.record_change(replica(1), "title"), 1);
    assert_eq!(session.record_change(replica(1), "body"), 2);
    assert_eq!(session.record_change(replica(2), "body"), 3);
    let state = session.state();
    assert_eq!(state.operations_count, 3);
    assert_eq!(state.vclock.get(&replica(1)), 2);
    assert_eq!(state.vclock.get(&replica(2)), 1);
    assert_eq!(session.document().version(), 3);
    let events = session.take_events();
    match &events[1] {
        SessionEvent::DocumentChanged { replica_id, field, version } => {
            assert_eq!(*replica_id, replica(1));
            assert_eq!(field, "body");
            assert_eq!(*version, 2);
        }
        _ => unreachable!(),
    }
    session.document_mut().set_string("title", "x");
    assert_eq!(session.document().get_string("title"), Some("x"));
    assert_eq!(session.document().version(), 4);
}

#[test]
fn cursor_updates_reach_present_users() {
    let mut session = CollabSession::new(Document::new("d"));
    session.join(replica(1), "a", "A").unwrap();
    session.update_cursor(replica(1), CursorPosition::new(8));
    session.update_selection(replica(1), SelectionRange::collapsed(CursorPosition::new(8)));
    let user = session.presence().get(&replica(1)).unwrap();
    assert_eq!(user.cursor.unwrap().offset, 8);
    assert!(user.selection.is_some());
}

#[test]
fn state_is_sent_around_the_encoded_document() {
    let mut doc = Document::with_replica("d", replica(5));
    doc.set_string("a", "b");
    let mut session = CollabSession::new(doc);
    session.record_change(replica(1), "a");
    let state = session.document_state(Ok("aé".to_string()));
    assert_eq!(state.doc_id, "d");
    assert_eq!(state.data, vec![0x61, 0xc3, 0xa9]);
    assert_eq!(state.version, 2);
    assert_eq!(state.vclock.get(&replica(1)), 1);
    session.take_events();
    match session.send_state(replica(9), Ok("4".to_string())) {
        SyncMessage::SyncResponse { replica_id, state, vclock } => {
            assert_eq!(replica_id, replica(5));
            assert_eq!(state.data, vec![0x34]);
            assert_eq!(vclock.get(&replica(1)), 1);
        }
        _ => unreachable!(),
    }
    let stats = session.sync_stats();
    assert_eq!(stats.messages_sent, 1);
    assert_eq!(stats.operations_synced, 1);
    assert_eq!(stats.messages_received, 0);
    assert!(stats.last_sync.is_none());
    assert_eq!(session.take_events().len(), 1);
}

#[test]
fn what_cannot_be_decoded_changes_nothing() {
    let mut session = CollabSession::new(Document::new("d"));
    session.apply_state(Err(CollabError::Sync("lost".to_string())), &VectorClock::new());
    assert_eq!(session.sync_stats().operations_synced, 0);
    let mut vclock = VectorClock::new();
    vclock.increment(replica(3));
    session.apply_state(Ok(Document::new("d")), &vclock);
    assert_eq!(session.sync_stats().operations_synced, 1);
    assert_eq!(session.state().vclock.get(&replica(3)), 1);
}

#[test]
fn answers_are_forwarded_up_to_the_limit() {
    let answers = |n: usize| -> Vec<SyncMessage> {
        (0..n).map(|i| SyncMessage::Protocol { payload: vec![i as u8] }).collect()
    };
    let config = SessionConfig { max_ops_per_sync: 2, ..SessionConfig::default() };
    let mut session = CollabSession::with_config(Document::new("d"), config);
    match session.handle_sync(SyncMessage::Protocol { payload: vec![7] }) {
        SyncAction::Delegate { payload } => assert_eq!(payload, vec![7]),
        _ => unreachable!(),
    }
    let forwarded = session.forward_responses(Ok(answers(3))).unwrap();
    assert_eq!(forwarded.len(), 2);
    match &forwarded[1] {
        SyncMessage::Protocol { payload } => assert_eq!(*payload, vec![1]),
        _ => unreachable!(),
    }
    assert_eq!(session.forward_responses(Ok(answers(1))).unwrap().len(), 1);
    assert_eq!(session.sync_stats().messages_sent, 3);
    // An error of the protocol is passed on.
    let failed = session.forward_responses(Err(CollabError::Sync("lost".to_string())));
    assert_eq!(failed.unwrap_err().to_string(), "Sync error: lost");
    assert_eq!(session.sync_stats().messages_sent, 3);
    let none = SessionConfig { max_ops_per_sync: 0, ..SessionConfig::default() };
    let mut narrow = CollabSession::with_config(Document::new("d"), none);
    assert_eq!(narrow.forward_responses(Ok(answers(3))).unwrap().len(), 0);
    assert_eq!(narrow.sync_stats().messages_sent, 0);
}

fn response(data: Vec<u8>) -> SyncMessage {
    SyncMessage::SyncResponse {
        replica_id: replica(1),
        state: DocumentState {
            doc_id: "d".to_string(),
            data,
            version: 0,
            vclock: VectorClock::new(),
        },
        vclock: VectorClock::new(),
    }
}

fn received_text(message: SyncMessage) -> String {
    let mut session = CollabSession::new(Document::new("d"));
    match session.handle_sync(message) {
        SyncAction::ApplyState { text, .. } => text,
        _ => unreachable!(),
    }
}

#[test]
fn texts_of_documents_arrive_as_they_were_sent() {
    let mut source = CollabSession::new(Document::new("d"));
    let sent = "{\"id\": \"dé\", \"title\": \"日本\"}";
    let message = source.send_state(replica(1), Ok(sent.to_string()));
    assert_eq!(received_text(message), sent);
    // What could not be written carries nothing.
    let nothing = source.send_state(replica(1), Err(CollabError::Timeout));
    assert_eq!(received_text(nothing), "");
    // Bytes that are no UTF-8 are replaced.
    assert_eq!(received_text(response(vec![0x61, 0xff, 0x62])), "a\u{fffd}b");
}

#[test]
fn syncs_are_due_after_the_interval() {
    let config = SessionConfig { sync_interval_ms: 1_500, ..SessionConfig::default() };
    let mut session = CollabSession::with_config(Document::new("d"), config);
    assert!(session.should_sync());
    session.handle_sync(request(replica(1), "d"));
    assert!(!session.should_sync());
    let last = session.sync_stats().last_sync.unwrap();
    assert!(!session.should_sync_at(after(last, 1)));
    assert!(session.should_sync_at(after(last, 2)));
    assert!(!session.should_sync_at(after(last, -10)));
}

#[test]
fn sessions_are_idle_without_clients_and_activity() {
    let config = SessionConfig { idle_timeout_secs: 60, ..SessionConfig::default() };
    let mut session = CollabSession::with_config(Document::new("d"), config);
    let start = session.state().last_activity;
    assert!(!session.is_idle());
    assert!(!session.is_idle_at(after(start, 59)));
    assert!(session.is_idle_at(after(start, 60)));
    assert!(session.is_idle_at(after(start, 61)));
    session.join(replica(1), "a", "A").unwrap();
    assert!(!session.is_idle_at(after(start, 1_000)));
    let info = session.info();
    assert_eq!(info.document_id, "d");
    assert_eq!(info.status, SessionStatus::Active);
    assert_eq!(info.id, session.id());
}

#[test]
fn documents_are_found_again() {
    let mut manager = SessionManager::default();
    let first = manager.get_or_create(Document::new("d"));
    let again = manager.get_or_create(Document::new("d"));
    assert_eq!(first, again);
    assert_eq!(manager.count(), 1);
    let newer = manager.create(Document::new("d"));
    assert_ne!(first, newer);
    assert_eq!(manager.get_by_document("d").unwrap().session().id(), newer);
    assert!(manager.get_by_document("e").is_none());
    let mut listed = manager.list();
    listed.sort();
    let mut expected = vec![first, newer];
    expected.sort();
    assert_eq!(listed, expected);
    // The document is forgotten with either of its sessions.
    manager.remove(&first);
    assert!(manager.get_by_document("d").is_none());
    assert!(manager.get(&newer).is_some());
}

#[test]
fn removed_sessions_are_closed() {
    let mut manager = SessionManager::new();
    let id = manager.create(Document::new("d"));
    let mut session = manager.take(&id).unwrap();
    session.join(replica(1), "a", "A").unwrap();
    manager.put_back(session);
    assert!(manager.remove(&Uuid { bits: 1 }).is_none());
    let mut closed = manager.remove(&id).unwrap();
    assert_eq!(closed.state().status, SessionStatus::Closed);
    assert_eq!(closed.client_count(), 0);
    assert_eq!(closed.state().client_count, 0);
    assert_eq!(closed.take_events().len(), 5);
    assert!(manager.get(&id).is_none());
    assert!(manager.take(&id).is_none());
    assert_eq!(manager.count(), 0);
}

#[test]
fn sessions_are_found_as_they_were_put_back() {
    let mut manager = SessionManager::new();
    let id = manager.create(Document::new("d"));
    let mut session = manager.take(&id).unwrap();
    // While the session is out, nobody finds it.
    assert!(manager.get(&id).is_none());
    assert!(manager.get_by_document("d").is_none());
    assert_eq!(manager.count(), 0);
    session.set_status(SessionStatus::Paused);
    manager.put_back(session);
    assert_eq!(manager.count(), 1);
    let found = manager.get_by_document("d").unwrap();
    assert_eq!(found.session().id(), id);
    assert_eq!(found.session().state().status, SessionStatus::Paused);
}

#[test]
fn changes_can_be_recorded_while_there_is_room() {
    let mut session = CollabSession::new(Document::new("d"));
    assert!(session.can_record(replica(1)));
    session.join(replica(1), "a", "A").unwrap();
    session.record_change(replica(1), "title");
    assert!(session.can_record(replica(1)));
    let mut parts = Document::new("full").parts();
    parts.version = u64::MAX;
    let full = CollabSession::new(Document::from_parts(parts));
    assert!(!full.can_record(replica(1)));
}

#[test]
fn copies_of_events_say_the_same() {
    let mut session = CollabSession::new(Document::new("d"));
    session.join(replica(1), "a", "A").unwrap();
    session.record_change(replica(1), "title");
    let events = session.take_events();
    assert_eq!(events.len(), 3);
    match events[0].clone() {
        SessionEvent::ClientJoined { replica_id, user_id, name } => {
            assert_eq!(replica_id, replica(1));
            assert_eq!(user_id, "a");
            assert_eq!(name, "A");
        }
        _ => unreachable!(),
    }
    match events[2].clone() {
        SessionEvent::DocumentChanged { replica_id, field, version } => {
            assert_eq!(replica_id, replica(1));
            assert_eq!(field, "title");
            assert_eq!(version, 1);
        }
        _ => unreachable!(),
    }
}

#[test]
fn sessions_made_elsewhere_are_taken_in() {
    let mut manager = SessionManager::new();
    let config = SessionConfig { idle_timeout_secs: 5, ..SessionConfig::default() };
    let session = CollabSession::with_config(Document::new("d"), config);
    let id = session.id();
    manager.adopt(session);
    assert_eq!(manager.get_by_document("d").unwrap().session().id(), id);
}

#[test]
fn idle_sessions_are_cleaned_up() {
    let mut manager = SessionManager::new();
    let empty = manager.create(Document::new("empty"));
    let busy = manager.create(Document::new("busy"));
    let mut session = manager.take(&busy).unwrap();
    session.join(replica(1), "a", "A").unwrap();
    manager.put_back(session);
    let start = manager.get(&empty).unwrap().session().state().last_activity;
    assert!(manager.cleanup_idle(60).is_empty());
    assert!(manager.cleanup_idle_at(60, after(start, 60)).is_empty());
    let closed = manager.cleanup_idle_at(60, after(start, 61));
    assert_eq!(closed.len(), 1);
    assert_eq!(closed[0].id(), empty);
    assert_eq!(closed[0].state().status, SessionStatus::Closed);
    assert_eq!(manager.list(), vec![busy]);
    assert!(manager.get_by_document("empty").is_none());
    assert!(manager.get_by_document("busy").is_some());
    // A number of seconds past the signed range counts backwards.
    let other = manager.create(Document::new("other"));
    let now = manager.get(&other).unwrap().session().state().last_activity;
    assert_eq!(manager.cleanup_idle_at(u64::MAX, now).len(), 1);
    manager.create(Document::new("another"));
    assert_eq!(manager.cleanup_idle(u64::MAX - 999).len(), 1);
}

#[test]
fn idle_sessions_are_cleaned_up_by_their_configuration() {
    let mut manager = SessionManager::new();
    let quick = SessionConfig { idle_timeout_secs: 10, ..SessionConfig::default() };
    let short = CollabSession::with_config(Document::new("short"), quick);
    let start = short.state().last_activity;
    manager.adopt(short);
    let long = manager.create(Document::new("long"));
    assert!(manager.cleanup_idle_by_config().is_empty());
    assert!(manager.cleanup_idle_by_config_at(after(start, 9)).is_empty());
    let closed = manager.cleanup_idle_by_config_at(after(start, 100));
    assert_eq!(closed.len(), 1);
    assert_eq!(closed[0].document().id(), "short");
    assert_eq!(manager.list(), vec![long]);
}

#[test]
fn the_client_count_is_right_after_every_update() {
    let mut session = CollabSession::new(Document::new("d"));
    for n in 1..4u128 {
        session.join(replica(n), "u", "U").unwrap();
        assert_eq!(session.state().client_count, session.client_count());
    }
    session.record_change(replica(1), "title");
    session.update_cursor(replica(1), CursorPosition::new(2));
    session.update_selection(replica(2), SelectionRange::collapsed(CursorPosition::new(1)));
    session.update_presence(UserPresence::new(replica(3), "u", "V"));
    session.send_state(replica(9), Ok("4".to_string()));
    session.set_status(SessionStatus::Paused);
    session.take_events();
    assert_eq!(session.client_count(), 3);
    assert_eq!(session.state().client_count, 3);
    session.leave(&replica(2));
    assert_eq!(session.client_count(), 2);
    assert_eq!(session.state().client_count, 2);
}

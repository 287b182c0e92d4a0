//! Sessions by their ids and by their documents.

use crate::counter::as_signed;
use crate::document::doc::Document;
use crate::element::Sound;
use crate::ident::{is_random_uuid, ReplicaId, Uuid};
use crate::items::{enumerates, lemma_enumerates_push};
use crate::session::collab::CollabSession;
use crate::session::config::SessionConfig;
use crate::session::model::SessionModel;
use crate::session::sessions::{SessionRef, Sessions};
use crate::time::{is_instant, Timestamp, EARLIEST_SECOND, LATEST_SECOND, NANOS_PER_SECOND};
use vstd::prelude::*;

verus! {

/// What a map from documents to the bits of session ids holds.
pub uninterp spec fn document_entries(map: dashmap::DashMap<String, u128>) -> Map<Seq<char>, u128>;

/// What an empty map holds.
pub open spec fn no_documents() -> Map<Seq<char>, u128> {
    Map::empty()
}

/// `DashMap::new` makes an empty map.
#[verifier::external_body]
fn documents_new() -> (map: dashmap::DashMap<String, u128>)
    ensures
        document_entries(map) == no_documents(),
{
    dashmap::DashMap::new()
}

/// `DashMap::insert` stores a value under a key, in place of what was there.
#[verifier::external_body]
fn documents_insert(map: &mut dashmap::DashMap<String, u128>, key: String, id: u128)
    ensures
        document_entries(*final(map)) == document_entries(*old(map)).insert(key@, id),
{
    map.insert(key, id);
}

/// `DashMap::get` finds what is stored under a key.
#[verifier::external_body]
fn documents_get(map: &dashmap::DashMap<String, u128>, key: &str) -> (id: Option<u128>)
    ensures
        id == if document_entries(*map).contains_key(key@) {
            Some(document_entries(*map)[key@])
        } else {
            None
        },
{
    map.get(key).map(|entry| *entry.value())
}

/// `DashMap::remove` takes a key out.
#[verifier::external_body]
fn documents_remove(map: &mut dashmap::DashMap<String, u128>, key: &str)
    ensures
        document_entries(*final(map)) == document_entries(*old(map)).remove(key@),
{
    map.remove(key);
}

/// The state of a session manager.
#[verifier::ext_equal]
pub struct Registry {
    /// The sessions by their ids
    pub sessions: Map<Uuid, SessionModel>,
    /// The session of each document
    pub documents: Map<Seq<char>, Uuid>,
}

/// Whether a session is another after it was closed.
pub open spec fn is_closed_from(after: SessionModel, before: SessionModel) -> bool {
    exists|order: Seq<ReplicaId>|
        enumerates(order, before.clients.dom()) && after == #[trigger] before.closed(order)
}

impl Registry {
    /// A manager without sessions.
    pub open spec fn empty() -> Registry {
        Registry { sessions: Map::empty(), documents: Map::empty() }
    }

    /// The manager with one more session.
    pub open spec fn with_session(self, id: Uuid, session: SessionModel) -> Registry {
        Registry {
            sessions: self.sessions.insert(id, session),
            documents: self.documents.insert(session.document.id, id),
        }
    }

    /// The manager while a session is taken out.
    pub open spec fn lending(self, id: Uuid) -> Registry {
        Registry { sessions: self.sessions.remove(id), ..self }
    }

    /// The manager after a session was put back.
    pub open spec fn returned(self, session: SessionModel) -> Registry {
        Registry { sessions: self.sessions.insert(session.id, session), ..self }
    }

    /// The session of a document.
    pub open spec fn session_of(self, document: Seq<char>) -> Option<Uuid> {
        if self.documents.contains_key(document) && self.sessions.contains_key(
            self.documents[document],
        ) {
            Some(self.documents[document])
        } else {
            None
        }
    }

    /// Whether a document is that of one of some sessions.
    pub open spec fn edited_in(self, document: Seq<char>, ids: Set<Uuid>) -> bool {
        exists|id: Uuid| #[trigger]
            ids.contains(id) && self.sessions.contains_key(id) && self.sessions[id].document.id
                == document
    }

    /// The manager without some sessions and their documents.
    pub open spec fn without(self, ids: Set<Uuid>) -> Registry {
        Registry {
            sessions: self.sessions.remove_keys(ids),
            documents: self.documents.remove_keys(
                self.documents.dom().filter(|document: Seq<char>| self.edited_in(document, ids)),
            ),
        }
    }

    /// The sessions without clients whose last activity was before some instant.
    pub open spec fn abandoned(self, cutoff: int) -> Set<Uuid> {
        self.sessions.dom().filter(
            |id: Uuid|
                self.sessions[id].state.last_activity.instant() < cutoff
                    && self.sessions[id].state.client_count == 0,
        )
    }

    /// The sessions that are idle at some time by their own configuration.
    pub open spec fn idle(self, now: Timestamp) -> Set<Uuid> {
        self.sessions.dom().filter(|id: Uuid| self.sessions[id].idle_at(now))
    }
}

/// Whether a list holds some sessions of a manager after they were closed, each
/// once.
pub open spec fn lists_closed(
    closed: Seq<CollabSession>,
    registry: Registry,
    ids: Set<Uuid>,
) -> bool {
    exists|order: Seq<Uuid>|
        {
            &&& #[trigger] enumerates(order, ids)
            &&& closed.len() == order.len()
            &&& forall|i: int|
                0 <= i < closed.len() ==> (#[trigger] closed[i]).valid() && is_closed_from(
                    closed[i]@,
                    registry.sessions[order[i]],
                )
        }
}

/// The instant before which a session was last active that is idle for too long.
pub open spec fn idle_cutoff(max_idle_secs: u64, now: Timestamp) -> int {
    now.instant() - as_signed(max_idle_secs as nat) * NANOS_PER_SECOND
}

/// The instant before which a session was last active that is idle for too long.
fn cutoff_nanos(max_idle_secs: u64, now: Timestamp) -> (cutoff: i128)
    ensures
        cutoff == idle_cutoff(max_idle_secs, now),
{
    assert(max_idle_secs < 0x8000_0000_0000_0000 ==> (max_idle_secs as i64) == max_idle_secs) by (
    bit_vector);
    assert(max_idle_secs >= 0x8000_0000_0000_0000 ==> (max_idle_secs as i64) == max_idle_secs
        - 0x1_0000_0000_0000_0000) by (bit_vector);
    let back: i64 = max_idle_secs as i64;
    now.nanos_since_epoch() - back as i128 * NANOS_PER_SECOND
}

/// Session manager for handling multiple sessions.
pub struct SessionManager {
    sessions: Sessions,
    doc_sessions: dashmap::DashMap<String, u128>,
}

impl View for SessionManager {
    type V = Registry;

    closed spec fn view(&self) -> Registry {
        Registry {
            sessions: self.sessions@,
            documents: document_entries(self.doc_sessions).map_values(
                |bits: u128| Uuid { bits },
            ),
        }
    }
}

impl Default for SessionManager {
    fn default() -> (manager: SessionManager)
        ensures
            manager.valid(),
            manager@ == Registry::empty(),
    {
        SessionManager::new()
    }
}

impl SessionManager {
    /// Whether the representation is sound.
    pub closed spec fn valid(&self) -> bool {
        self.sessions.wf()
    }

    /// Create a new session manager.
    pub fn new() -> (manager: SessionManager)
        ensures
            manager.valid(),
            manager@ == Registry::empty(),
    {
        let manager = SessionManager { sessions: Sessions::new(), doc_sessions: documents_new() };
        assert(manager@ =~= Registry::empty());
        manager
    }

    /// Takes a session in, and makes it the session of its document.
    pub fn adopt(&mut self, session: CollabSession)
        requires
            old(self).valid(),
            session.valid(),
        ensures
            final(self).valid(),
            final(self)@ == old(self)@.with_session(session@.id, session@),
    {
        let ghost before = self@;
        let id = session.id();
        let document = session.document().id().to_owned();
        self.sessions.insert(id, session);
        documents_insert(&mut self.doc_sessions, document, id.bits);
        assert(self@ =~= before.with_session(session@.id, session@));
    }

    /// Create a new session for a document, and return its id.
    pub fn create(&mut self, document: Document) -> (id: Uuid)
        requires
            old(self).valid(),
            document.valid(),
        ensures
            final(self).valid(),
            is_random_uuid(id.bits),
            ({
                let session = final(self)@.sessions[id];
                &&& session == SessionModel::opened(
                    id,
                    document@,
                    SessionConfig::spec_default(),
                    session.state.last_activity,
                    session.created_at,
                )
                &&& session.state.last_activity.is_clock_reading()
                &&& session.created_at.is_clock_reading()
                &&& final(self)@ == old(self)@.with_session(id, session)
            }),
    {
        let session = CollabSession::new(document);
        let id = session.id();
        self.adopt(session);
        id
    }

    /// Get or create a session for a document, and return its id.
    pub fn get_or_create(&mut self, document: Document) -> (id: Uuid)
        requires
            old(self).valid(),
            document.valid(),
        ensures
            final(self).valid(),
            match old(self)@.session_of(document@.id) {
                Some(existing) => id == existing && final(self)@ == old(self)@,
                None => {
                    let session = final(self)@.sessions[id];
                    &&& is_random_uuid(id.bits)
                    &&& session == SessionModel::opened(
                        id,
                        document@,
                        SessionConfig::spec_default(),
                        session.state.last_activity,
                        session.created_at,
                    )
                    &&& session.state.last_activity.is_clock_reading()
                    &&& session.created_at.is_clock_reading()
                    &&& final(self)@ == old(self)@.with_session(id, session)
                },
            },
    {
        match self.find_by_document(document.id()) {
            Some(id) => id,
            None => self.create(document),
        }
    }

    /// The id of the session of a document.
    fn find_by_document(&self, doc_id: &str) -> (id: Option<Uuid>)
        requires
            self.valid(),
        ensures
            id == self@.session_of(doc_id@),
    {
        match documents_get(&self.doc_sessions, doc_id) {
            Some(bits) => {
                let id = Uuid { bits };
                match self.sessions.get(&id) {
                    Some(_) => Some(id),
                    None => None,
                }
            },
            None => None,
        }
    }

    /// Get a session by ID.
    pub fn get(&self, session_id: &Uuid) -> (session: Option<SessionRef<'_>>)
        requires
            self.valid(),
        ensures
            match session {
                Some(s) => {
                    &&& self@.sessions.contains_key(*session_id)
                    &&& s.valid()
                    &&& s@ == self@.sessions[*session_id]
                },
                None => !self@.sessions.contains_key(*session_id),
            },
    {
        self.sessions.get(session_id)
    }

    /// Take a session out by ID, to change it and put it back. Its document still
    /// leads to it once it is back.
    pub fn take(&mut self, session_id: &Uuid) -> (session: Option<CollabSession>)
        requires
            old(self).valid(),
        ensures
            final(self).valid(),
            final(self)@ == old(self)@.lending(*session_id),
            match session {
                Some(s) => {
                    &&& old(self)@.sessions.contains_key(*session_id)
                    &&& s.valid()
                    &&& s@ == old(self)@.sessions[*session_id]
                },
                None => !old(self)@.sessions.contains_key(*session_id),
            },
    {
        let ghost before = self@;
        let session = self.sessions.remove(session_id);
        assert(self@ =~= before.lending(*session_id));
        session
    }

    /// Put a session back that was taken out.
    pub fn put_back(&mut self, session: CollabSession)
        requires
            old(self).valid(),
            session.valid(),
        ensures
            final(self).valid(),
            final(self)@ == old(self)@.returned(session@),
    {
        let ghost before = self@;
        self.sessions.insert(session.id(), session);
        assert(self@ =~= before.returned(session@));
    }

    /// Get a session by document ID.
    pub fn get_by_document(&self, doc_id: &str) -> (session: Option<SessionRef<'_>>)
        requires
            self.valid(),
        ensures
            match session {
                Some(s) => {
                    &&& s.valid()
                    &&& self@.session_of(doc_id@) matches Some(id) && s@ == self@.sessions[id]
                },
                None => self@.session_of(doc_id@) is None,
            },
    {
        match self.find_by_document(doc_id) {
            Some(id) => self.get(&id),
            None => None,
        }
    }

    /// Remove a session: close it and forget its document. The closed session is
    /// handed back, with the events that tell of it.
    pub fn remove(&mut self, session_id: &Uuid) -> (session: Option<CollabSession>)
        requires
            old(self).valid(),
        ensures
            final(self).valid(),
            match session {
                Some(s) => {
                    &&& old(self)@.sessions.contains_key(*session_id)
                    &&& s.valid()
                    &&& is_closed_from(s@, old(self)@.sessions[*session_id])
                    &&& final(self)@ == (Registry {
                        sessions: old(self)@.sessions.remove(*session_id),
                        documents: old(self)@.documents.remove(
                            old(self)@.sessions[*session_id].document.id,
                        ),
                    })
                },
                None => !old(self)@.sessions.contains_key(*session_id) && final(self)@
                    == old(self)@,
            },
    {
        let ghost before = self@;
        match self.sessions.remove(session_id) {
            Some(session) => {
                let mut session = session;
                documents_remove(&mut self.doc_sessions, session.document().id());
                session.close();
                assert(self@.sessions =~= before.sessions.remove(*session_id));
                assert(self@.documents =~= before.documents.remove(
                    before.sessions[*session_id].document.id,
                ));
                Some(session)
            },
            None => {
                assert(self@ =~= before);
                None
            },
        }
    }

    /// List all sessions, in some order.
    pub fn list(&self) -> (ids: Vec<Uuid>)
        requires
            self.valid(),
        ensures
            enumerates(ids@, self@.sessions.dom()),
    {
        self.sessions.ids()
    }

    /// Get session count.
    pub fn count(&self) -> (count: usize)
        requires
            self.valid(),
        ensures
            count == self@.sessions.dom().len(),
    {
        self.sessions.len()
    }

    /// Removes some sessions, and hands them back closed.
    fn remove_all(&mut self, ids: Vec<Uuid>) -> (closed: Vec<CollabSession>)
        requires
            old(self).valid(),
            ids@.no_duplicates(),
            ids@.to_set().subset_of(old(self)@.sessions.dom()),
        ensures
            final(self).valid(),
            final(self)@ == old(self)@.without(ids@.to_set()),
            lists_closed(closed@, old(self)@, ids@.to_set()),
    {
        let ghost before = self@;
        let mut closed: Vec<CollabSession> = Vec::new();
        let mut i: usize = 0;
        proof {
            lemma_without_none(before, ids@);
        }
        while i < ids.len()
            invariant
                i <= ids@.len(),
                i == closed@.len(),
                ids@.no_duplicates(),
                ids@.to_set().subset_of(before.sessions.dom()),
                self.valid(),
                self@ == before.without(ids@.take(i as int).to_set()),
                forall|k: int|
                    0 <= k < i ==> (#[trigger] closed@[k]).valid() && is_closed_from(
                        closed@[k]@,
                        before.sessions[ids@[k]],
                    ),
            decreases ids@.len() - i,
        {
            let id = ids[i];
            proof {
                lemma_without_one_more(before, ids@, i as int);
            }
            match self.remove(&id) {
                Some(session) => {
                    closed.push(session);
                },
                None => {},
            }
            i = i + 1;
        }
        assert(ids@.take(i as int) =~= ids@);
        assert(enumerates(ids@, ids@.to_set()));
        closed
    }

    /// Clean up idle sessions, at the time the clock shows: those without clients
    /// whose last activity is longer ago than some number of seconds. The sessions
    /// are handed back closed.
    ///
    /// The number of seconds is read as a signed number. It leads from the Unix epoch to
    /// a point in time, back or ahead.
    pub fn cleanup_idle(&mut self, max_idle_secs: u64) -> (closed: Vec<CollabSession>)
        requires
            old(self).valid(),
            EARLIEST_SECOND <= -as_signed(max_idle_secs as nat) <= LATEST_SECOND,
        ensures
            final(self).valid(),
            exists|now: Timestamp|
                {
                    let gone = old(self)@.abandoned(#[trigger] idle_cutoff(max_idle_secs, now));
                    &&& now.is_clock_reading()
                    &&& final(self)@ == old(self)@.without(gone)
                    &&& lists_closed(closed@, old(self)@, gone)
                },
    {
        let now = Timestamp::now();
        self.sweep_before(cutoff_nanos(max_idle_secs, now))
    }

    /// Clean up the sessions that are idle at some time. The number of seconds is read
    /// as a signed number.
    pub fn cleanup_idle_at(&mut self, max_idle_secs: u64, now: Timestamp) -> (closed: Vec<
        CollabSession,
    >)
        requires
            old(self).valid(),
            is_instant(idle_cutoff(max_idle_secs, now)),
        ensures
            final(self).valid(),
            ({
                let gone = old(self)@.abandoned(idle_cutoff(max_idle_secs, now));
                &&& final(self)@ == old(self)@.without(gone)
                &&& lists_closed(closed@, old(self)@, gone)
            }),
    {
        self.sweep_before(cutoff_nanos(max_idle_secs, now))
    }

    /// Removes the sessions without clients whose last activity was before some instant,
    /// and hands them back closed.
    fn sweep_before(&mut self, cutoff: i128) -> (closed: Vec<CollabSession>)
        requires
            old(self).valid(),
        ensures
            final(self).valid(),
            final(self)@ == old(self)@.without(old(self)@.abandoned(cutoff as int)),
            lists_closed(closed@, old(self)@, old(self)@.abandoned(cutoff as int)),
    {
        let ghost registry = self@;
        let ghost gone = |id: Uuid|
            registry.sessions[id].state.last_activity.instant() < cutoff
                && registry.sessions[id].state.client_count == 0;
        let mut ids: Vec<Uuid> = Vec::new();
        let all = self.sessions.ids();
        let ghost order = all@;
        let mut i: usize = 0;
        proof {
            assert(order.take(0).to_set().filter(gone) =~= Set::empty());
            assert(ids@.to_set() =~= Set::empty());
        }
        while i < all.len()
            invariant
                i <= order.len(),
                order == all@,
                enumerates(order, registry.sessions.dom()),
                self.valid(),
                self == old(self),
                registry == self@,
                gone == (|id: Uuid|
                    registry.sessions[id].state.last_activity.instant() < cutoff
                        && registry.sessions[id].state.client_count == 0),
                enumerates(ids@, order.take(i as int).to_set().filter(gone)),
            decreases order.len() - i,
        {
            let id = all[i];
            proof {
                lemma_sweep_step(order, i as int, ids@, gone);
                assert(order.to_set().contains(id));
            }
            match self.sessions.get(&id) {
                Some(entry) => {
                    let state = entry.session().state();
                    if state.last_activity.nanos_since_epoch() < cutoff && state.client_count
                        == 0 {
                        ids.push(id);
                    }
                },
                None => {},
            }
            i = i + 1;
        }
        proof {
            assert(order.take(i as int) =~= order);
            assert(registry.sessions.dom().filter(gone) =~= registry.abandoned(
                cutoff as int,
            ));
        }
        self.remove_all(ids)
    }

    /// Clean up idle sessions, honoring each session's own configured
    /// `idle_timeout_secs` rather than a single global value, at the time the clock
    /// shows. The sessions are handed back closed.
    pub fn cleanup_idle_by_config(&mut self) -> (closed: Vec<CollabSession>)
        requires
            old(self).valid(),
        ensures
            final(self).valid(),
            exists|now: Timestamp|
                {
                    let gone = #[trigger] old(self)@.idle(now);
                    &&& now.is_clock_reading()
                    &&& final(self)@ == old(self)@.without(gone)
                    &&& lists_closed(closed@, old(self)@, gone)
                },
    {
        let now = Timestamp::now();
        self.cleanup_idle_by_config_at(now)
    }

    /// Clean up the sessions that are idle at some time by their own configuration.
    pub fn cleanup_idle_by_config_at(&mut self, now: Timestamp) -> (closed: Vec<CollabSession>)
        requires
            old(self).valid(),
        ensures
            final(self).valid(),
            final(self)@ == old(self)@.without(old(self)@.idle(now)),
            lists_closed(closed@, old(self)@, old(self)@.idle(now)),
    {
        let ghost registry = self@;
        let ghost gone = |id: Uuid| registry.sessions[id].idle_at(now);
        let mut ids: Vec<Uuid> = Vec::new();
        let all = self.sessions.ids();
        let ghost order = all@;
        let mut i: usize = 0;
        proof {
            assert(order.take(0).to_set().filter(gone) =~= Set::empty());
            assert(ids@.to_set() =~= Set::empty());
        }
        while i < all.len()
            invariant
                i <= order.len(),
                order == all@,
                enumerates(order, registry.sessions.dom()),
                self.valid(),
                self == old(self),
                registry == self@,
                gone == (|id: Uuid| registry.sessions[id].idle_at(now)),
                enumerates(ids@, order.take(i as int).to_set().filter(gone)),
            decreases order.len() - i,
        {
            let id = all[i];
            proof {
                lemma_sweep_step(order, i as int, ids@, gone);
                assert(order.to_set().contains(id));
            }
            match self.sessions.get(&id) {
                Some(entry) => {
                    if entry.session().is_idle_at(now) {
                        ids.push(id);
                    }
                },
                None => {},
            }
            i = i + 1;
        }
        proof {
            assert(order.take(i as int) =~= order);
            assert(registry.sessions.dom().filter(gone) =~= registry.idle(now));
        }
        self.remove_all(ids)
    }
}

/// Removing no sessions changes nothing.
proof fn lemma_without_none(registry: Registry, ids: Seq<Uuid>)
    ensures
        registry == registry.without(ids.take(0).to_set()),
{
    let none = ids.take(0).to_set();
    assert forall|document: Seq<char>| !registry.edited_in(document, none) by {
        assert forall|id: Uuid| !#[trigger] none.contains(id) by {
            if none.contains(id) {
                let k = choose|k: int| 0 <= k < 0 && ids.take(0)[k] == id;
            }
        }
    }
    assert(registry.sessions =~= registry.without(none).sessions);
    assert(registry.documents =~= registry.without(none).documents);
}

/// Removing some sessions is removing all but the last of them, and then that one.
proof fn lemma_without_one_more(registry: Registry, ids: Seq<Uuid>, i: int)
    requires
        0 <= i < ids.len(),
        ids.no_duplicates(),
        ids.to_set().subset_of(registry.sessions.dom()),
    ensures
        ({
            let before = registry.without(ids.take(i).to_set());
            let session = registry.sessions[ids[i]];
            &&& before.sessions.contains_key(ids[i])
            &&& before.sessions[ids[i]] == session
            &&& registry.without(ids.take(i + 1).to_set()) == (Registry {
                sessions: before.sessions.remove(ids[i]),
                documents: before.documents.remove(session.document.id),
            })
        }),
{
    let some = ids.take(i).to_set();
    let more = ids.take(i + 1).to_set();
    let id = ids[i];
    let before = registry.without(some);
    let after = registry.without(more);
    let session = registry.sessions[id];
    ids.take(i).lemma_push_to_set_commute(id);
    assert(ids.take(i + 1) =~= ids.take(i).push(id));
    assert(more == some.insert(id));
    assert(ids.to_set().contains(id));
    assert(!some.contains(id)) by {
        if some.contains(id) {
            let k = choose|k: int| 0 <= k < i && ids.take(i)[k] == id;
            assert(ids[k] == ids[i]);
        }
    }
    assert(after.sessions =~= before.sessions.remove(id));
    assert forall|document: Seq<char>| registry.edited_in(document, more) == (registry.edited_in(
        document,
        some,
    ) || document == session.document.id) by {
        if registry.edited_in(document, some) {
            let other = choose|other: Uuid| #[trigger]
                some.contains(other) && registry.sessions.contains_key(other)
                    && registry.sessions[other].document.id == document;
            assert(more.contains(other));
        }
        if document == session.document.id {
            assert(more.contains(id));
        }
        if registry.edited_in(document, more) {
            let other = choose|other: Uuid| #[trigger]
                more.contains(other) && registry.sessions.contains_key(other)
                    && registry.sessions[other].document.id == document;
            if other != id {
                assert(some.contains(other));
            }
        }
    }
    assert(after.documents =~= before.documents.remove(session.document.id));
}

/// One step of listing the ids for which a test holds.
proof fn lemma_sweep_step(order: Seq<Uuid>, i: int, ids: Seq<Uuid>, gone: spec_fn(Uuid) -> bool)
    requires
        0 <= i < order.len(),
        order.no_duplicates(),
        enumerates(ids, order.take(i).to_set().filter(gone)),
    ensures
        gone(order[i]) ==> enumerates(
            ids.push(order[i]),
            order.take(i + 1).to_set().filter(gone),
        ),
        !gone(order[i]) ==> enumerates(ids, order.take(i + 1).to_set().filter(gone)),
{
    let id = order[i];
    let seen = order.take(i).to_set();
    order.take(i).lemma_push_to_set_commute(id);
    assert(order.take(i + 1) =~= order.take(i).push(id));
    assert(!seen.contains(id)) by {
        if seen.contains(id) {
            let k = choose|k: int| 0 <= k < i && order.take(i)[k] == id;
            assert(order[k] == order[i]);
        }
    }
    if gone(id) {
        lemma_enumerates_push(ids, seen.filter(gone), id);
        assert(seen.insert(id).filter(gone) =~= seen.filter(gone).insert(id));
    } else {
        assert(seen.insert(id).filter(gone) =~= seen.filter(gone));
    }
}

} // verus!

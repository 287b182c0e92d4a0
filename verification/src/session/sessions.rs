//! The sessions of a manager.

use crate::element::Sound;
use crate::ident::Uuid;
use crate::items::enumerates;
use crate::session::collab::CollabSession;
use crate::session::model::SessionModel;
use vstd::prelude::*;

verus! {

/// A guard on an entry of a sharded map, through which it can be read.
#[verifier::external_type_specification]
#[verifier::external_body]
#[verifier::reject_recursive_types(K)]
#[verifier::reject_recursive_types(V)]
pub struct ExRef<'a, K, V>(dashmap::mapref::one::Ref<'a, K, V>);

/// What a map of sessions holds, by the bits of their ids.
pub uninterp spec fn session_entries(map: dashmap::DashMap<u128, CollabSession>) -> Map<
    u128,
    CollabSession,
>;

/// What a guard on an entry of a map of sessions lets read.
pub uninterp spec fn guarded_session(
    guard: dashmap::mapref::one::Ref<'_, u128, CollabSession>,
) -> CollabSession;

/// What an empty map holds.
pub open spec fn no_sessions() -> Map<u128, CollabSession> {
    Map::empty()
}

/// `DashMap::new` makes an empty map.
#[verifier::external_body]
fn sessions_new() -> (map: dashmap::DashMap<u128, CollabSession>)
    ensures
        session_entries(map) == no_sessions(),
{
    dashmap::DashMap::new()
}

/// `DashMap::len` is the number of entries.
#[verifier::external_body]
fn sessions_len(map: &dashmap::DashMap<u128, CollabSession>) -> (len: usize)
    ensures
        len == session_entries(*map).dom().len(),
{
    map.len()
}

/// `DashMap::insert` stores a value under a key, in place of what was there.
#[verifier::external_body]
fn sessions_insert(
    map: &mut dashmap::DashMap<u128, CollabSession>,
    key: u128,
    session: CollabSession,
)
    ensures
        session_entries(*final(map)) == session_entries(*old(map)).insert(key, session),
{
    map.insert(key, session);
}

/// `DashMap::remove` takes a key out and hands back what was stored under it.
#[verifier::external_body]
fn sessions_remove(map: &mut dashmap::DashMap<u128, CollabSession>, key: u128) -> (session: Option<
    CollabSession,
>)
    ensures
        session_entries(*final(map)) == session_entries(*old(map)).remove(key),
        session == if session_entries(*old(map)).contains_key(key) {
            Some(session_entries(*old(map))[key])
        } else {
            None
        },
{
    map.remove(&key).map(|entry| entry.1)
}

/// `DashMap::get` hands out a guard on what is stored under a key, if there is
/// something.
#[verifier::external_body]
fn sessions_get(map: &dashmap::DashMap<u128, CollabSession>, key: u128) -> (guard: Option<
    dashmap::mapref::one::Ref<'_, u128, CollabSession>,
>)
    ensures
        guard is Some == session_entries(*map).contains_key(key),
        guard is Some ==> guarded_session(guard->0) == session_entries(*map)[key],
{
    map.get(&key)
}

/// `Ref::value` reads what a guard is on.
#[verifier::external_body]
fn session_read<'b>(guard: &'b dashmap::mapref::one::Ref<'_, u128, CollabSession>) -> (session:
    &'b CollabSession)
    ensures
        *session == guarded_session(*guard),
{
    guard.value()
}

/// `DashMap::iter` meets each key once, in an order that it does not promise.
#[verifier::external_body]
fn sessions_keys(map: &dashmap::DashMap<u128, CollabSession>) -> (keys: Vec<u128>)
    ensures
        enumerates(keys@, session_entries(*map).dom()),
{
    map.iter().map(|entry| *entry.key()).collect()
}

/// A session that is read where it is stored.
pub struct SessionRef<'a> {
    guard: dashmap::mapref::one::Ref<'a, u128, CollabSession>,
}

impl<'a> View for SessionRef<'a> {
    type V = SessionModel;

    closed spec fn view(&self) -> SessionModel {
        guarded_session(self.guard)@
    }
}

impl<'a> SessionRef<'a> {
    /// Whether the session's representation is sound.
    pub closed spec fn valid(&self) -> bool {
        guarded_session(self.guard).valid()
    }

    /// The session.
    pub fn session(&self) -> (session: &CollabSession)
        ensures
            session@ == self@,
            session.valid() == self.valid(),
    {
        session_read(&self.guard)
    }
}

/// Sessions by their ids.
pub struct Sessions {
    map: dashmap::DashMap<u128, CollabSession>,
}

impl View for Sessions {
    type V = Map<Uuid, SessionModel>;

    closed spec fn view(&self) -> Map<Uuid, SessionModel> {
        Map::new(
            |id: Uuid| session_entries(self.map).contains_key(id.bits),
            |id: Uuid| session_entries(self.map)[id.bits]@,
        )
    }
}

/// A session id with given bits.
spec fn id_with(bits: u128) -> Uuid {
    Uuid { bits }
}

impl Sessions {
    /// Whether there are finitely many sessions, each with a sound representation.
    pub closed spec fn wf(&self) -> bool {
        &&& session_entries(self.map).dom().finite()
        &&& forall|bits: u128| #[trigger]
            session_entries(self.map).contains_key(bits) ==> session_entries(
                self.map,
            )[bits].valid()
    }

    /// No sessions.
    pub fn new() -> (sessions: Sessions)
        ensures
            sessions.wf(),
            sessions@ == Map::<Uuid, SessionModel>::empty(),
    {
        let sessions = Sessions { map: sessions_new() };
        assert(sessions@ =~= Map::<Uuid, SessionModel>::empty());
        sessions
    }

    /// The ids are those whose bits are keys.
    proof fn lemma_ids(&self)
        ensures
            self@.dom() == session_entries(self.map).dom().map(|bits: u128| id_with(bits)),
            self.wf() ==> {
                &&& self@.dom().finite()
                &&& self@.dom().len() == session_entries(self.map).dom().len()
            },
    {
        let keys = session_entries(self.map).dom();
        let ids = keys.map(|bits: u128| id_with(bits));
        assert forall|id: Uuid| self@.dom().contains(id) <==> ids.contains(id) by {
            if self@.dom().contains(id) {
                assert(keys.contains(id.bits));
                assert(id == id_with(id.bits));
            }
        }
        assert(self@.dom() =~= ids);
        if keys.finite() {
            keys.lemma_map_finite(|bits: u128| id_with(bits));
            vstd::set_lib::lemma_map_size(keys, ids, |bits: u128| id_with(bits));
        }
    }

    /// The number of sessions.
    pub fn len(&self) -> (len: usize)
        requires
            self.wf(),
        ensures
            self@.dom().finite(),
            len == self@.dom().len(),
    {
        let len = sessions_len(&self.map);
        proof {
            self.lemma_ids();
        }
        len
    }

    /// Adds a session, in place of one with the same id.
    pub fn insert(&mut self, id: Uuid, session: CollabSession)
        requires
            old(self).wf(),
            session.valid(),
        ensures
            final(self).wf(),
            final(self)@ == old(self)@.insert(id, session@),
    {
        let ghost before = self@;
        let ghost entries = session_entries(self.map);
        sessions_insert(&mut self.map, id.bits, session);
        assert forall|bits: u128| #[trigger]
            session_entries(self.map).contains_key(bits) implies session_entries(
            self.map,
        )[bits].valid() by {
            assert(bits != id.bits ==> entries.contains_key(bits));
        }
        assert(self@ =~= before.insert(id, session@));
    }

    /// Takes a session out.
    pub fn remove(&mut self, id: &Uuid) -> (session: Option<CollabSession>)
        requires
            old(self).wf(),
        ensures
            final(self).wf(),
            final(self)@ == old(self)@.remove(*id),
            match session {
                Some(s) => old(self)@.contains_key(*id) && s.valid() && s@ == old(self)@[*id],
                None => !old(self)@.contains_key(*id),
            },
    {
        let ghost before = self@;
        let ghost entries = session_entries(self.map);
        let session = sessions_remove(&mut self.map, id.bits);
        assert forall|bits: u128| #[trigger]
            session_entries(self.map).contains_key(bits) implies session_entries(
            self.map,
        )[bits].valid() by {
            assert(entries.contains_key(bits));
        }
        assert(self@ =~= before.remove(*id));
        session
    }

    /// Finds the session with an id.
    pub fn get(&self, id: &Uuid) -> (session: Option<SessionRef<'_>>)
        requires
            self.wf(),
        ensures
            match session {
                Some(s) => self@.contains_key(*id) && s.valid() && s@ == self@[*id],
                None => !self@.contains_key(*id),
            },
    {
        match sessions_get(&self.map, id.bits) {
            Some(guard) => Some(SessionRef { guard }),
            None => None,
        }
    }

    /// The ids of all sessions, in some order.
    pub fn ids(&self) -> (ids: Vec<Uuid>)
        ensures
            enumerates(ids@, self@.dom()),
    {
        let keys = sessions_keys(&self.map);
        let mut ids: Vec<Uuid> = Vec::new();
        let mut i: usize = 0;
        while i < keys.len()
            invariant
                i <= keys@.len(),
                i == ids@.len(),
                forall|k: int| 0 <= k < i ==> #[trigger] ids@[k] == id_with(keys@[k]),
            decreases keys@.len() - i,
        {
            ids.push(Uuid { bits: keys[i] });
            i = i + 1;
        }
        proof {
            self.lemma_ids();
            assert forall|a: int, b: int| 0 <= a < b < ids@.len() implies ids@[a] != ids@[b] by {
                assert(ids@[a].bits == keys@[a]);
                assert(ids@[b].bits == keys@[b]);
            }
            assert forall|id: Uuid| ids@.to_set().contains(id) <==> self@.dom().contains(id) by {
                if ids@.to_set().contains(id) {
                    let k = choose|k: int| 0 <= k < ids@.len() && ids@[k] == id;
                    assert(ids@[k] == id_with(keys@[k]));
                    assert(keys@.to_set().contains(keys@[k]));
                }
                if self@.dom().contains(id) {
                    assert(keys@.to_set().contains(id.bits));
                    let k = choose|k: int| 0 <= k < keys@.len() && keys@[k] == id.bits;
                    assert(ids@[k] == id);
                }
            }
            assert(ids@.to_set() =~= self@.dom());
        }
        ids
    }
}

} // verus!

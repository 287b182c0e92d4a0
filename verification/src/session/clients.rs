//! The clients that are connected to a session.

use crate::ident::{ReplicaId, Uuid};
use crate::items::enumerates;
use crate::presence::user::{PresenceState, UserPresence};
use crate::time::Timestamp;
use vstd::prelude::*;

verus! {

/// Client connection info.
#[derive(Debug, Clone)]
pub struct ClientConnection {
    /// Replica ID
    pub replica_id: ReplicaId,
    /// User presence
    pub presence: UserPresence,
    /// Connected timestamp
    pub connected_at: Timestamp,
    /// Last message timestamp
    pub last_message: Timestamp,
    /// Operations sent
    pub ops_sent: u64,
    /// Operations received
    pub ops_received: u64,
}

/// What is known of a client.
#[verifier::ext_equal]
pub struct ClientState {
    /// Replica ID
    pub replica_id: ReplicaId,
    /// User presence
    pub presence: PresenceState,
    /// Connected timestamp
    pub connected_at: Timestamp,
    /// Last message timestamp
    pub last_message: Timestamp,
    /// Operations sent
    pub ops_sent: u64,
    /// Operations received
    pub ops_received: u64,
}

impl View for ClientConnection {
    type V = ClientState;

    open spec fn view(&self) -> ClientState {
        ClientState {
            replica_id: self.replica_id,
            presence: self.presence@,
            connected_at: self.connected_at,
            last_message: self.last_message,
            ops_sent: self.ops_sent,
            ops_received: self.ops_received,
        }
    }
}

/// A sharded map.
#[verifier::external_type_specification]
#[verifier::external_body]
#[verifier::reject_recursive_types(K)]
#[verifier::reject_recursive_types(V)]
#[verifier::reject_recursive_types(S)]
pub struct ExDashMap<K, V, S>(dashmap::DashMap<K, V, S>);

/// What a map of clients holds, by the bits of their replica ids.
pub uninterp spec fn client_entries(map: dashmap::DashMap<u128, ClientConnection>) -> Map<
    u128,
    ClientConnection,
>;

/// What an empty map holds.
pub open spec fn no_entries() -> Map<u128, ClientConnection> {
    Map::empty()
}

/// `DashMap::new` makes an empty map.
#[verifier::external_body]
fn clients_new() -> (map: dashmap::DashMap<u128, ClientConnection>)
    ensures
        client_entries(map) == no_entries(),
{
    dashmap::DashMap::new()
}

/// `DashMap::len` is the number of entries.
#[verifier::external_body]
fn clients_len(map: &dashmap::DashMap<u128, ClientConnection>) -> (len: usize)
    ensures
        len == client_entries(*map).dom().len(),
{
    map.len()
}

/// `DashMap::insert` stores a value under a key, in place of what was there.
#[verifier::external_body]
fn clients_insert(
    map: &mut dashmap::DashMap<u128, ClientConnection>,
    key: u128,
    client: ClientConnection,
)
    ensures
        client_entries(*final(map)) == client_entries(*old(map)).insert(key, client),
{
    map.insert(key, client);
}

/// `DashMap::remove` takes a key out and hands back what was stored under it.
#[verifier::external_body]
fn clients_remove(map: &mut dashmap::DashMap<u128, ClientConnection>, key: u128) -> (client: Option<
    ClientConnection,
>)
    ensures
        client_entries(*final(map)) == client_entries(*old(map)).remove(key),
        client == if client_entries(*old(map)).contains_key(key) {
            Some(client_entries(*old(map))[key])
        } else {
            None
        },
{
    map.remove(&key).map(|entry| entry.1)
}

/// `DashMap::contains_key` tells whether something is stored under a key.
#[verifier::external_body]
fn clients_contain(map: &dashmap::DashMap<u128, ClientConnection>, key: u128) -> (found: bool)
    ensures
        found == client_entries(*map).contains_key(key),
{
    map.contains_key(&key)
}

/// `DashMap::get` finds what is stored under a key; of a client, the number of
/// operations that it has sent is picked out.
#[verifier::external_body]
fn clients_ops_sent(map: &dashmap::DashMap<u128, ClientConnection>, key: u128) -> (ops: Option<u64>)
    ensures
        ops == if client_entries(*map).contains_key(key) {
            Some(client_entries(*map)[key].ops_sent)
        } else {
            None
        },
{
    map.get(&key).map(|entry| entry.value().ops_sent)
}

/// `DashMap::iter` meets each key once, in an order that it does not promise.
#[verifier::external_body]
fn clients_keys(map: &dashmap::DashMap<u128, ClientConnection>) -> (keys: Vec<u128>)
    ensures
        enumerates(keys@, client_entries(*map).dom()),
{
    map.iter().map(|entry| *entry.key()).collect()
}

/// `DashMap::clear` takes everything out.
#[verifier::external_body]
fn clients_clear(map: &mut dashmap::DashMap<u128, ClientConnection>)
    ensures
        client_entries(*final(map)) == no_entries(),
{
    map.clear();
}

/// The clients of a session, by their replicas.
pub struct Clients {
    map: dashmap::DashMap<u128, ClientConnection>,
}

impl View for Clients {
    type V = Map<ReplicaId, ClientState>;

    closed spec fn view(&self) -> Map<ReplicaId, ClientState> {
        Map::new(
            |replica: ReplicaId| client_entries(self.map).contains_key(replica.0.bits),
            |replica: ReplicaId| client_entries(self.map)[replica.0.bits]@,
        )
    }
}

/// A replica id with given bits.
spec fn replica_with(bits: u128) -> ReplicaId {
    ReplicaId(Uuid { bits })
}

impl Clients {
    /// Whether the map is finite.
    pub closed spec fn wf(&self) -> bool {
        client_entries(self.map).dom().finite()
    }

    /// No clients.
    pub fn new() -> (clients: Clients)
        ensures
            clients.wf(),
            clients@ == Map::<ReplicaId, ClientState>::empty(),
    {
        let clients = Clients { map: clients_new() };
        assert(clients@ =~= Map::<ReplicaId, ClientState>::empty());
        clients
    }

    /// The replicas are those whose bits are keys.
    proof fn lemma_replicas(&self)
        ensures
            self@.dom() == client_entries(self.map).dom().map(|bits: u128| replica_with(bits)),
            self.wf() ==> {
                &&& self@.dom().finite()
                &&& self@.dom().len() == client_entries(self.map).dom().len()
            },
    {
        let keys = client_entries(self.map).dom();
        let replicas = keys.map(|bits: u128| replica_with(bits));
        assert forall|replica: ReplicaId| self@.dom().contains(replica) <==> replicas.contains(
            replica,
        ) by {
            if self@.dom().contains(replica) {
                assert(keys.contains(replica.0.bits));
                assert(replica == replica_with(replica.0.bits));
            }
        }
        assert(self@.dom() =~= replicas);
        if keys.finite() {
            keys.lemma_map_finite(|bits: u128| replica_with(bits));
            vstd::set_lib::lemma_map_size(keys, replicas, |bits: u128| replica_with(bits));
        }
    }

    /// The number of clients.
    pub fn len(&self) -> (len: usize)
        requires
            self.wf(),
        ensures
            self@.dom().finite(),
            len == self@.dom().len(),
    {
        let len = clients_len(&self.map);
        proof {
            self.lemma_replicas();
        }
        len
    }

    /// Adds a client, in place of one on the same replica.
    pub fn insert(&mut self, replica: ReplicaId, client: ClientConnection)
        requires
            old(self).wf(),
        ensures
            final(self).wf(),
            final(self)@ == old(self)@.insert(replica, client@),
    {
        let ghost before = self@;
        clients_insert(&mut self.map, replica.0.bits, client);
        assert forall|other: ReplicaId| other.0.bits == replica.0.bits implies other == replica by {
        }
        assert(self@ =~= before.insert(replica, client@));
    }

    /// Takes a client out.
    pub fn remove(&mut self, replica: ReplicaId) -> (client: Option<ClientConnection>)
        requires
            old(self).wf(),
        ensures
            final(self).wf(),
            final(self)@ == old(self)@.remove(replica),
            match client {
                Some(c) => old(self)@.contains_key(replica) && c@ == old(self)@[replica],
                None => !old(self)@.contains_key(replica),
            },
    {
        let ghost before = self@;
        let client = clients_remove(&mut self.map, replica.0.bits);
        assert forall|other: ReplicaId| other.0.bits == replica.0.bits implies other == replica by {
        }
        assert(self@ =~= before.remove(replica));
        client
    }

    /// Whether there is a client on a replica.
    pub fn contains(&self, replica: ReplicaId) -> (found: bool)
        ensures
            found == self@.contains_key(replica),
    {
        clients_contain(&self.map, replica.0.bits)
    }

    /// How many operations the client on a replica has sent.
    pub fn ops_sent(&self, replica: ReplicaId) -> (ops: Option<u64>)
        ensures
            ops == if self@.contains_key(replica) {
                Some(self@[replica].ops_sent)
            } else {
                None
            },
    {
        clients_ops_sent(&self.map, replica.0.bits)
    }

    /// The replicas of all clients, in some order.
    pub fn replicas(&self) -> (replicas: Vec<ReplicaId>)
        ensures
            enumerates(replicas@, self@.dom()),
    {
        let keys = clients_keys(&self.map);
        let mut replicas: Vec<ReplicaId> = Vec::new();
        let mut i: usize = 0;
        while i < keys.len()
            invariant
                i <= keys@.len(),
                i == replicas@.len(),
                forall|k: int| 0 <= k < i ==> #[trigger] replicas@[k] == replica_with(keys@[k]),
            decreases keys@.len() - i,
        {
            replicas.push(ReplicaId(Uuid { bits: keys[i] }));
            i = i + 1;
        }
        proof {
            self.lemma_replicas();
            assert forall|a: int, b: int| 0 <= a < b < replicas@.len() implies replicas@[a]
                != replicas@[b] by {
                assert(replicas@[a].0.bits == keys@[a]);
                assert(replicas@[b].0.bits == keys@[b]);
            }
            assert forall|replica: ReplicaId| replicas@.to_set().contains(replica)
                <==> self@.dom().contains(replica) by {
                if replicas@.to_set().contains(replica) {
                    let k = choose|k: int| 0 <= k < replicas@.len() && replicas@[k] == replica;
                    assert(replicas@[k] == replica_with(keys@[k]));
                    assert(keys@.to_set().contains(keys@[k]));
                }
                if self@.dom().contains(replica) {
                    assert(keys@.to_set().contains(replica.0.bits));
                    let k = choose|k: int| 0 <= k < keys@.len() && keys@[k] == replica.0.bits;
                    assert(replicas@[k] == replica);
                }
            }
            assert(replicas@.to_set() =~= self@.dom());
        }
        replicas
    }

    /// Takes all clients out.
    pub fn clear(&mut self)
        ensures
            final(self).wf(),
            final(self)@ == Map::<ReplicaId, ClientState>::empty(),
    {
        clients_clear(&mut self.map);
        assert(self@ =~= Map::<ReplicaId, ClientState>::empty());
    }
}

} // verus!

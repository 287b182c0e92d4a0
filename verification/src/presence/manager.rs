//! Who is present in a session.

use crate::element::Sound;
use crate::ident::ReplicaId;
use crate::items::{enumerates, lemma_enumerates_push};
use crate::presence::position::{CursorPosition, SelectionRange};
use crate::presence::snapshot::PresenceSnapshot;
use crate::presence::user::{PresenceState, UserPresence};
use crate::table::Table;
use crate::time::{is_instant, Span, Timestamp};
use vstd::prelude::*;

verus! {

/// The state of a presence manager.
#[verifier::ext_equal]
pub struct PresenceBook {
    /// All users by their replicas
    pub users: Map<ReplicaId, PresenceState>,
    /// Timeout for considering users offline
    pub timeout: Span,
}

/// The users who are online at some time.
pub open spec fn online_part(
    users: Map<ReplicaId, PresenceState>,
    timeout: Span,
    now: Timestamp,
) -> Map<ReplicaId, PresenceState> {
    users.restrict(
        users.dom().filter(|replica: ReplicaId| users[replica].online_at(timeout, now)),
    )
}

/// The age from which on a user is stale: the given one, or an hour if that is
/// longer than any difference of two points in time.
pub open spec fn stale_age(max_age: Span) -> int {
    max_age.spec_or(Span { nanos: 3_600_000_000_000 }).nanos as int
}

/// The users who were seen within some age before some time.
pub open spec fn recent_part(
    users: Map<ReplicaId, PresenceState>,
    max_age: Span,
    now: Timestamp,
) -> Map<ReplicaId, PresenceState> {
    users.restrict(
        users.dom().filter(
            |replica: ReplicaId|
                users[replica].last_seen.instant() > now.instant() - stale_age(max_age),
        ),
    )
}

/// The replicas of some users.
pub open spec fn replicas_of(list: Seq<UserPresence>) -> Seq<ReplicaId> {
    list.map_values(|user: UserPresence| user.replica_id)
}

/// Whether a list holds some users, each once.
pub open spec fn lists_users(
    list: Seq<UserPresence>,
    users: Map<ReplicaId, PresenceState>,
) -> bool {
    &&& enumerates(replicas_of(list), users.dom())
    &&& forall|i: int|
        0 <= i < list.len() ==> (#[trigger] list[i]).valid() && list[i]@
            == users[list[i].replica_id]
}

/// What a list of users is with one more.
proof fn lemma_lists_push(
    list: Seq<UserPresence>,
    users: Map<ReplicaId, PresenceState>,
    user: UserPresence,
)
    requires
        lists_users(list, users),
        user.valid(),
        !users.contains_key(user.replica_id),
    ensures
        lists_users(list.push(user), users.insert(user.replica_id, user@)),
{
    let more = list.push(user);
    let after = users.insert(user.replica_id, user@);
    lemma_enumerates_push(replicas_of(list), users.dom(), user.replica_id);
    assert(replicas_of(more) =~= replicas_of(list).push(user.replica_id));
    assert forall|i: int| 0 <= i < more.len() implies (#[trigger] more[i]).valid() && more[i]@
        == after[more[i].replica_id] by {
        if i < list.len() {
            assert(list[i].valid());
            assert(replicas_of(list)[i] == list[i].replica_id);
            assert(replicas_of(list).to_set().contains(list[i].replica_id));
        }
    }
}

/// Presence manager for a collaboration session.
#[derive(Debug)]
pub struct PresenceManager {
    /// All user presences
    users: Table<ReplicaId, UserPresence>,
    /// Timeout for considering users offline
    timeout: Span,
}

impl View for PresenceManager {
    type V = PresenceBook;

    closed spec fn view(&self) -> PresenceBook {
        PresenceBook { users: self.users.deep_view(), timeout: self.timeout }
    }
}

impl Default for PresenceManager {
    fn default() -> (manager: PresenceManager)
        ensures
            manager.valid(),
            manager@.users == Map::<ReplicaId, PresenceState>::empty(),
            manager@.timeout.nanos == 30_000_000_000,
    {
        PresenceManager::new()
    }
}

impl PresenceManager {
    /// Whether the representation is sound: each user is stored under its own
    /// replica.
    pub closed spec fn valid(&self) -> bool {
        &&& self.users.wf()
        &&& forall|replica: ReplicaId| #[trigger]
            self@.users.contains_key(replica) ==> self@.users[replica].replica_id == replica
    }

    /// Each user is stored under its own replica.
    pub proof fn users_are_under_their_replicas(&self)
        requires
            self.valid(),
        ensures
            self@.users.dom().finite(),
            forall|replica: ReplicaId| #[trigger]
                self@.users.contains_key(replica) ==> self@.users[replica].replica_id == replica,
    {
        self.users.order_lists_the_keys();
        assert(self@.users.dom() =~= self.users@.dom());
    }

    /// Create a new presence manager, with a timeout of thirty seconds.
    pub fn new() -> (manager: PresenceManager)
        ensures
            manager.valid(),
            manager@.users == Map::<ReplicaId, PresenceState>::empty(),
            manager@.timeout.nanos == 30_000_000_000,
    {
        PresenceManager::with_timeout(Span::from_secs(30))
    }

    /// Create with custom timeout.
    pub fn with_timeout(timeout: Span) -> (manager: PresenceManager)
        ensures
            manager.valid(),
            manager@ == (PresenceBook { users: Map::empty(), timeout }),
    {
        let manager = PresenceManager { users: Table::new(), timeout };
        assert(manager@.users =~= Map::<ReplicaId, PresenceState>::empty());
        manager
    }

    /// Add or update a user.
    pub fn update(&mut self, presence: UserPresence)
        requires
            old(self).valid(),
            presence.valid(),
        ensures
            final(self).valid(),
            final(self)@ == (PresenceBook {
                users: old(self)@.users.insert(presence.replica_id, presence@),
                ..old(self)@
            }),
    {
        let ghost before = self@;
        self.users.insert(presence.replica_id, presence);
        assert(self@.users =~= before.users.insert(presence.replica_id, presence@));
    }

    /// Remove a user.
    pub fn remove(&mut self, replica_id: &ReplicaId)
        requires
            old(self).valid(),
        ensures
            final(self).valid(),
            final(self)@ == (PresenceBook {
                users: old(self)@.users.remove(*replica_id),
                ..old(self)@
            }),
    {
        let ghost before = self@;
        self.users.remove(replica_id);
        assert(self@.users =~= before.users.remove(*replica_id));
    }

    /// Get a user's presence.
    pub fn get(&self, replica_id: &ReplicaId) -> (presence: Option<UserPresence>)
        requires
            self.valid(),
        ensures
            match presence {
                Some(user) => {
                    &&& self@.users.contains_key(*replica_id)
                    &&& user.valid()
                    &&& user@ == self@.users[*replica_id]
                },
                None => !self@.users.contains_key(*replica_id),
            },
    {
        match self.users.get(replica_id) {
            Some(user) => Some(user.clone()),
            None => None,
        }
    }

    /// Get all users for whom a test on the time of their last activity holds: those
    /// with less than some number of nanoseconds since.
    fn users_seen_within(&self, nanos: i128, now: Timestamp) -> (list: Vec<UserPresence>)
        requires
            self.valid(),
        ensures
            lists_users(
                list@,
                self@.users.restrict(
                    self@.users.dom().filter(
                        |replica: ReplicaId|
                            now.instant() - self@.users[replica].last_seen.instant() < nanos,
                    ),
                ),
            ),
    {
        let ghost users = self@.users;
        let ghost recent = |replica: ReplicaId|
            now.instant() - users[replica].last_seen.instant() < nanos;
        let mut list: Vec<UserPresence> = Vec::new();
        let ghost order = self.users.order();
        let n = self.users.len();
        let mut i: usize = 0;
        proof {
            self.users.order_lists_the_keys();
            assert(replicas_of(list@) =~= Seq::empty());
            assert(Seq::<ReplicaId>::empty().to_set() =~= Set::empty());
            assert(users.restrict(order.take(0).to_set().filter(recent)).dom() =~= Set::empty());
        }
        while i < n
            invariant
                i <= n,
                n == order.len(),
                order == self.users.order(),
                order.no_duplicates(),
                users == self@.users,
                self.valid(),
                recent == (|replica: ReplicaId|
                    now.instant() - users[replica].last_seen.instant() < nanos),
                lists_users(
                    list@,
                    users.restrict(order.take(i as int).to_set().filter(recent)),
                ),
            decreases n - i,
        {
            let ghost seen = order.take(i as int).to_set();
            let ghost part = users.restrict(seen.filter(recent));
            let user = self.users.value_at(i);
            let ghost replica = order[i as int];
            proof {
                order.take(i as int).lemma_push_to_set_commute(replica);
                assert(order.take(i + 1) =~= order.take(i as int).push(replica));
                assert(!seen.contains(replica)) by {
                    if seen.contains(replica) {
                        let k = choose|k: int| 0 <= k < i && order.take(i as int)[k] == replica;
                        assert(order[k] == order[i as int]);
                    }
                }
                assert(users.contains_key(replica));
                assert(users[replica] == user@);
                assert(user.replica_id == replica);
            }
            if now.nanos_since(&user.last_seen) < nanos {
                let copy = user.clone();
                proof {
                    lemma_lists_push(list@, part, copy);
                    assert(users.restrict(seen.insert(replica).filter(recent)) =~= part.insert(
                        replica,
                        user@,
                    ));
                }
                list.push(copy);
            } else {
                assert(users.restrict(seen.insert(replica).filter(recent)) =~= part);
            }
            i = i + 1;
        }
        proof {
            self.users.order_lists_the_keys();
            assert(order.take(i as int) =~= order);
            assert(order.to_set() =~= users.dom());
            assert(users.restrict(users.dom().filter(recent)) =~= users.restrict(
                users.dom().filter(
                    |replica: ReplicaId|
                        now.instant() - self@.users[replica].last_seen.instant() < nanos,
                ),
            ));
        }
        list
    }

    /// Get all online users, in some order, at the time the clock shows.
    pub fn online_users(&self) -> (list: Vec<UserPresence>)
        requires
            self.valid(),
        ensures
            exists|now: Timestamp|
                now.is_clock_reading() && lists_users(
                    list@,
                    #[trigger] online_part(self@.users, self@.timeout, now),
                ),
    {
        let now = Timestamp::now();
        self.online_users_at(now)
    }

    /// Get all users who are online at some time, in some order.
    pub fn online_users_at(&self, now: Timestamp) -> (list: Vec<UserPresence>)
        requires
            self.valid(),
        ensures
            lists_users(list@, online_part(self@.users, self@.timeout, now)),
    {
        let limit = self.timeout.or(Span::from_secs(30));
        let list = self.users_seen_within(limit.nanos as i128, now);
        proof {
            let users = self@.users;
            assert(users.dom().filter(
                |replica: ReplicaId|
                    now.instant() - users[replica].last_seen.instant() < limit.nanos as i128,
            ) =~= users.dom().filter(
                |replica: ReplicaId| users[replica].online_at(self@.timeout, now),
            ));
        }
        list
    }

    /// Get all users (including offline), in some order.
    pub fn all_users(&self) -> (list: Vec<UserPresence>)
        requires
            self.valid(),
        ensures
            lists_users(list@, self@.users),
    {
        let mut list: Vec<UserPresence> = Vec::new();
        let ghost users = self@.users;
        let ghost order = self.users.order();
        let n = self.users.len();
        let mut i: usize = 0;
        proof {
            self.users.order_lists_the_keys();
            assert(replicas_of(list@) =~= Seq::empty());
            assert(Seq::<ReplicaId>::empty().to_set() =~= Set::empty());
            assert(users.restrict(order.take(0).to_set()).dom() =~= Set::empty());
        }
        while i < n
            invariant
                i <= n,
                n == order.len(),
                order == self.users.order(),
                order.no_duplicates(),
                users == self@.users,
                self.valid(),
                lists_users(list@, users.restrict(order.take(i as int).to_set())),
            decreases n - i,
        {
            let ghost seen = order.take(i as int).to_set();
            let user = self.users.value_at(i);
            let ghost replica = order[i as int];
            let copy = user.clone();
            proof {
                order.take(i as int).lemma_push_to_set_commute(replica);
                assert(order.take(i + 1) =~= order.take(i as int).push(replica));
                assert(!seen.contains(replica)) by {
                    if seen.contains(replica) {
                        let k = choose|k: int| 0 <= k < i && order.take(i as int)[k] == replica;
                        assert(order[k] == order[i as int]);
                    }
                }
                assert(users.contains_key(replica));
                assert(users[replica] == user@);
                lemma_lists_push(list@, users.restrict(seen), copy);
                assert(users.restrict(seen.insert(replica)) =~= users.restrict(seen).insert(
                    replica,
                    user@,
                ));
            }
            list.push(copy);
            i = i + 1;
        }
        proof {
            self.users.order_lists_the_keys();
            assert(order.take(i as int) =~= order);
            assert(users.restrict(order.to_set()) =~= users);
        }
        list
    }

    /// Get user count.
    pub fn count(&self) -> (count: usize)
        requires
            self.valid(),
        ensures
            count == self@.users.dom().len(),
    {
        assert(self@.users.dom() =~= self.users@.dom());
        self.users.len()
    }

    /// Get online user count, at the time the clock shows.
    pub fn online_count(&self) -> (count: usize)
        requires
            self.valid(),
        ensures
            exists|now: Timestamp|
                now.is_clock_reading() && count == (#[trigger] online_part(
                    self@.users,
                    self@.timeout,
                    now,
                )).dom().len(),
    {
        let now = Timestamp::now();
        self.online_count_at(now)
    }

    /// Get the number of users who are online at some time.
    pub fn online_count_at(&self, now: Timestamp) -> (count: usize)
        requires
            self.valid(),
        ensures
            count == online_part(self@.users, self@.timeout, now).dom().len(),
    {
        let list = self.online_users_at(now);
        proof {
            replicas_of(list@).unique_seq_to_set();
        }
        list.len()
    }

    /// Update cursor for a user. Nothing happens if there is no such user.
    pub fn update_cursor(&mut self, replica_id: &ReplicaId, cursor: CursorPosition)
        requires
            old(self).valid(),
        ensures
            final(self).valid(),
            if old(self)@.users.contains_key(*replica_id) {
                let seen = final(self)@.users[*replica_id].last_seen;
                &&& seen.is_clock_reading()
                &&& final(self)@ == (PresenceBook {
                    users: old(self)@.users.insert(
                        *replica_id,
                        (PresenceState {
                            cursor: Some(cursor),
                            last_seen: seen,
                            ..old(self)@.users[*replica_id]
                        }),
                    ),
                    ..old(self)@
                })
            } else {
                final(self)@ == old(self)@
            },
    {
        let ghost before = self@;
        match self.users.get_mut(replica_id) {
            Some(user) => {
                user.set_cursor(cursor);
            },
            None => {},
        }
        proof {
            if before.users.contains_key(*replica_id) {
                assert(self@.users =~= before.users.insert(
                    *replica_id,
                    self@.users[*replica_id],
                ));
            } else {
                assert(self@.users =~= before.users);
            }
        }
    }

    /// Update selection for a user. Nothing happens if there is no such user.
    pub fn update_selection(&mut self, replica_id: &ReplicaId, selection: SelectionRange)
        requires
            old(self).valid(),
        ensures
            final(self).valid(),
            if old(self)@.users.contains_key(*replica_id) {
                let seen = final(self)@.users[*replica_id].last_seen;
                &&& seen.is_clock_reading()
                &&& final(self)@ == (PresenceBook {
                    users: old(self)@.users.insert(
                        *replica_id,
                        (PresenceState {
                            selection: Some(selection),
                            last_seen: seen,
                            ..old(self)@.users[*replica_id]
                        }),
                    ),
                    ..old(self)@
                })
            } else {
                final(self)@ == old(self)@
            },
    {
        let ghost before = self@;
        match self.users.get_mut(replica_id) {
            Some(user) => {
                user.set_selection(selection);
            },
            None => {},
        }
        proof {
            if before.users.contains_key(*replica_id) {
                assert(self@.users =~= before.users.insert(
                    *replica_id,
                    self@.users[*replica_id],
                ));
            } else {
                assert(self@.users =~= before.users);
            }
        }
    }

    /// Clean up stale users, at the time the clock shows.
    pub fn cleanup_stale(&mut self, max_age: Span)
        requires
            old(self).valid(),
            is_instant(-stale_age(max_age)),
        ensures
            final(self).valid(),
            final(self)@.timeout == old(self)@.timeout,
            exists|now: Timestamp|
                now.is_clock_reading() && final(self)@.users == #[trigger] recent_part(
                    old(self)@.users,
                    max_age,
                    now,
                ),
    {
        let now = Timestamp::now();
        self.cleanup_stale_at(max_age, now);
    }

    /// Clean up users who are stale at some time: keep those who were seen later
    /// than the age before that time.
    pub fn cleanup_stale_at(&mut self, max_age: Span, now: Timestamp)
        requires
            old(self).valid(),
            is_instant(now.instant() - stale_age(max_age)),
        ensures
            final(self).valid(),
            final(self)@ == (PresenceBook {
                users: recent_part(old(self)@.users, max_age, now),
                ..old(self)@
            }),
    {
        let age = max_age.or(Span::from_secs(3600));
        let ghost users = self@.users;
        let ghost recent = recent_part(users, max_age, now);
        let ghost order = self.users.order();
        let n = self.users.len();
        let mut stale: Vec<ReplicaId> = Vec::new();
        let mut i: usize = 0;
        proof {
            self.users.order_lists_the_keys();
        }
        while i < n
            invariant
                i <= n,
                n == order.len(),
                order == self.users.order(),
                users == self@.users,
                self.valid(),
                age.nanos == stale_age(max_age),
                age.nanos <= i128::MAX,
                recent == recent_part(users, max_age, now),
                forall|k: int|
                    0 <= k < stale@.len() ==> !recent.contains_key(#[trigger] stale@[k]),
                forall|k: int|
                    0 <= k < i ==> recent.contains_key(#[trigger] order[k]) || stale@.contains(
                        order[k],
                    ),
            decreases n - i,
        {
            let replica = *self.users.key_at(i);
            let user = self.users.value_at(i);
            let ghost before = stale@;
            assert(users.contains_key(replica) && users[replica] == user@);
            if now.nanos_since(&user.last_seen) >= age.nanos as i128 {
                stale.push(replica);
                assert(stale@[before.len() as int] == replica);
                assert forall|k: int| 0 <= k < i && before.contains(
                    #[trigger] order[k],
                ) implies stale@.contains(order[k]) by {
                    let j = choose|j: int| 0 <= j < before.len() && before[j] == order[k];
                    assert(stale@[j] == order[k]);
                }
            }
            i = i + 1;
        }
        let mut j: usize = 0;
        assert(self@.users =~= users.remove_keys(stale@.take(0).to_set()));
        while j < stale.len()
            invariant
                j <= stale@.len(),
                self.valid(),
                self.timeout == old(self).timeout,
                self@.users == users.remove_keys(stale@.take(j as int).to_set()),
            decreases stale@.len() - j,
        {
            let replica = stale[j];
            proof {
                stale@.take(j as int).lemma_push_to_set_commute(replica);
                assert(stale@.take(j + 1) =~= stale@.take(j as int).push(replica));
            }
            self.remove(&replica);
            j = j + 1;
            assert(self@.users =~= users.remove_keys(stale@.take(j as int).to_set()));
        }
        proof {
            assert(stale@.take(j as int) =~= stale@);
            assert forall|replica: ReplicaId| users.contains_key(replica) implies recent.contains_key(
                replica,
            ) == !(#[trigger] stale@.to_set().contains(replica)) by {
                assert(order.to_set().contains(replica));
                let k = choose|k: int| 0 <= k < order.len() && order[k] == replica;
                assert(recent.contains_key(order[k]) || stale@.contains(order[k]));
            }
            assert(self@.users =~= recent);
        }
    }

    /// Snapshot of all users for the subscribers, at the time the clock shows.
    pub fn broadcast(&self) -> (snapshot: PresenceSnapshot)
        requires
            self.valid(),
        ensures
            lists_users(snapshot.users@, self@.users),
            snapshot.timestamp.is_clock_reading(),
    {
        PresenceSnapshot { users: self.all_users(), timestamp: Timestamp::now() }
    }
}

/// A cleanup keeps a user or takes the user out, and changes nothing of those it
/// keeps; one that was seen at the time of the cleanup is kept unless the age is
/// zero.
pub proof fn cleanup_only_takes_out(
    users: Map<ReplicaId, PresenceState>,
    max_age: Span,
    now: Timestamp,
    replica: ReplicaId,
)
    ensures
        recent_part(users, max_age, now).submap_of(users),
        users.contains_key(replica) && users[replica].last_seen == now && stale_age(max_age) > 0
            ==> recent_part(users, max_age, now).contains_key(replica),
{
}

/// The users who are online are those seen within the timeout, as they are; nobody else is
/// among them.
pub proof fn online_users_were_seen_within_the_timeout(
    users: Map<ReplicaId, PresenceState>,
    timeout: Span,
    now: Timestamp,
    replica: ReplicaId,
)
    requires
        timeout.nanos <= i64::MAX * 1_000_000,
    ensures
        ({
            let online = online_part(users, timeout, now);
            &&& online.contains_key(replica) == (users.contains_key(replica) && now.instant()
                - users[replica].last_seen.instant() < timeout.nanos)
            &&& online.contains_key(replica) ==> online[replica] == users[replica]
        }),
{
}

/// A cleanup takes out exactly the users who were not seen within the age, an hour if that
/// is longer than any difference of two points in time, and leaves the others as they are.
pub proof fn cleanups_take_out_the_stale(
    users: Map<ReplicaId, PresenceState>,
    max_age: Span,
    now: Timestamp,
    replica: ReplicaId,
)
    ensures
        ({
            let kept = recent_part(users, max_age, now);
            let passed = now.instant() - users[replica].last_seen.instant();
            &&& max_age.nanos <= i64::MAX * 1_000_000 ==> kept.contains_key(replica) == (
            users.contains_key(replica) && passed < max_age.nanos)
            &&& max_age.nanos > i64::MAX * 1_000_000 ==> kept.contains_key(replica) == (
            users.contains_key(replica) && passed < 60 * 60 * 1_000_000_000)
            &&& kept.contains_key(replica) ==> kept[replica] == users[replica]
        }),
{
}

/// A list of users has each user once, as the user is, and nobody else.
pub proof fn lists_have_each_user_once(
    list: Seq<UserPresence>,
    users: Map<ReplicaId, PresenceState>,
    replica: ReplicaId,
)
    requires
        lists_users(list, users),
    ensures
        list.len() == users.dom().len(),
        users.contains_key(replica) == exists|i: int|
            0 <= i < list.len() && (#[trigger] list[i]).replica_id == replica,
        forall|i: int|
            0 <= i < list.len() ==> users.contains_key((#[trigger] list[i]).replica_id)
                && users[list[i].replica_id] == list[i]@,
        forall|i: int, j: int|
            0 <= i < j < list.len() ==> (#[trigger] list[i]).replica_id != (
            #[trigger] list[j]).replica_id,
{
    let replicas = replicas_of(list);
    replicas.unique_seq_to_set();
    assert(replicas.to_set().contains(replica) == replicas.contains(replica));
    if users.contains_key(replica) {
        let i = choose|i: int| 0 <= i < replicas.len() && replicas[i] == replica;
        assert(list[i].replica_id == replica);
    }
    assert forall|i: int| 0 <= i < list.len() implies users.contains_key(
        (#[trigger] list[i]).replica_id,
    ) && users[list[i].replica_id] == list[i]@ by {
        assert(replicas[i] == list[i].replica_id);
        assert(replicas.to_set().contains(replicas[i]));
    }
    assert forall|i: int, j: int| 0 <= i < j < list.len() implies (#[trigger] list[i]).replica_id
        != (#[trigger] list[j]).replica_id by {
        assert(replicas[i] != replicas[j]);
    }
}

} // verus!

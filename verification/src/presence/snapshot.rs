//! Snapshots of who is present, and presence events.

use crate::element::same_text;
use crate::ident::ReplicaId;
use crate::presence::position::{CursorPosition, SelectionRange};
use crate::presence::user::UserPresence;
use crate::time::{Span, Timestamp};
use vstd::prelude::*;

verus! {

/// Snapshot of all presence information.
#[derive(Debug, Clone)]
pub struct PresenceSnapshot {
    /// All user presences
    pub users: Vec<UserPresence>,
    /// Snapshot timestamp
    pub timestamp: Timestamp,
}

/// The users of a list who are online at some time, in the order of the list.
pub open spec fn online_among(
    users: Seq<UserPresence>,
    timeout: Span,
    now: Timestamp,
) -> Seq<UserPresence> {
    users.filter(|user: UserPresence| user@.online_at(timeout, now))
}

impl PresenceSnapshot {
    /// Get online users, at the time the clock shows.
    pub fn online(&self, timeout: Span) -> (online: Vec<&UserPresence>)
        ensures
            exists|now: Timestamp|
                now.is_clock_reading() && online@.unref() == #[trigger] online_among(
                    self.users@,
                    timeout,
                    now,
                ),
    {
        let now = Timestamp::now();
        self.online_at(timeout, now)
    }

    /// Get the users who are online at some time.
    pub fn online_at(&self, timeout: Span, now: Timestamp) -> (online: Vec<&UserPresence>)
        ensures
            online@.unref() == online_among(self.users@, timeout, now),
    {
        let mut online: Vec<&UserPresence> = Vec::new();
        let mut i: usize = 0;
        let ghost test = |user: UserPresence| user@.online_at(timeout, now);
        proof {
            reveal(Seq::filter);
            assert(self.users@.take(0) =~= Seq::empty());
            assert(online@.unref() =~= self.users@.take(0).filter(test));
        }
        while i < self.users.len()
            invariant
                i <= self.users@.len(),
                test == (|user: UserPresence| user@.online_at(timeout, now)),
                online@.unref() == self.users@.take(i as int).filter(test),
            decreases self.users@.len() - i,
        {
            let ghost before = online@;
            let user = &self.users[i];
            proof {
                reveal(Seq::filter);
                assert(self.users@.take(i + 1).drop_last() =~= self.users@.take(i as int));
                assert(self.users@.take(i + 1).last() == *user);
            }
            if user.is_online_at(timeout, now) {
                online.push(user);
                assert(online@.unref() =~= before.unref().push(*user));
            }
            i = i + 1;
        }
        assert(self.users@.take(i as int) =~= self.users@);
        online
    }

    /// Find a user by ID: the first with that ID.
    pub fn find_user(&self, user_id: &str) -> (found: Option<&UserPresence>)
        ensures
            match found {
                Some(user) => exists|i: int|
                    {
                        &&& 0 <= i < self.users@.len()
                        &&& *user == #[trigger] self.users@[i]
                        &&& user.user_id@ == user_id@
                        &&& forall|j: int|
                            0 <= j < i ==> (#[trigger] self.users@[j]).user_id@ != user_id@
                    },
                None => forall|i: int|
                    0 <= i < self.users@.len() ==> (#[trigger] self.users@[i]).user_id@
                        != user_id@,
            },
    {
        let mut i: usize = 0;
        while i < self.users.len()
            invariant
                i <= self.users@.len(),
                forall|j: int| 0 <= j < i ==> (#[trigger] self.users@[j]).user_id@ != user_id@,
            decreases self.users@.len() - i,
        {
            if same_text(self.users[i].user_id.as_str(), user_id) {
                return Some(&self.users[i]);
            }
            i = i + 1;
        }
        None
    }

    /// Find a user by replica ID: the first on that replica.
    pub fn find_replica(&self, replica_id: &ReplicaId) -> (found: Option<&UserPresence>)
        ensures
            match found {
                Some(user) => exists|i: int|
                    {
                        &&& 0 <= i < self.users@.len()
                        &&& *user == #[trigger] self.users@[i]
                        &&& user.replica_id == *replica_id
                        &&& forall|j: int|
                            0 <= j < i ==> (#[trigger] self.users@[j]).replica_id != *replica_id
                    },
                None => forall|i: int|
                    0 <= i < self.users@.len() ==> (#[trigger] self.users@[i]).replica_id
                        != *replica_id,
            },
    {
        let mut i: usize = 0;
        while i < self.users.len()
            invariant
                i <= self.users@.len(),
                forall|j: int|
                    0 <= j < i ==> (#[trigger] self.users@[j]).replica_id != *replica_id,
            decreases self.users@.len() - i,
        {
            if self.users[i].replica_id == *replica_id {
                return Some(&self.users[i]);
            }
            i = i + 1;
        }
        None
    }
}

/// Presence update event.
#[derive(Debug, Clone)]
pub enum PresenceEvent {
    /// User joined
    Join(UserPresence),
    /// User left
    Leave(ReplicaId),
    /// User updated their presence
    Update(UserPresence),
    /// User cursor moved
    CursorMove {
        /// Whose cursor
        replica_id: ReplicaId,
        /// Where it is now
        cursor: CursorPosition,
    },
    /// User selection changed
    SelectionChange {
        /// Whose selection
        replica_id: ReplicaId,
        /// What is selected now
        selection: SelectionRange,
    },
}

/// The users of a list who are online are found by going through the list: a user counts
/// among them exactly if less than the timeout has passed since the last activity, and
/// their order is that of the list.
pub proof fn online_users_are_found_one_by_one(
    users: Seq<UserPresence>,
    user: UserPresence,
    timeout: Span,
    now: Timestamp,
)
    requires
        timeout.nanos <= i64::MAX * 1_000_000,
    ensures
        online_among(Seq::empty(), timeout, now).len() == 0,
        now.instant() - user.last_seen.instant() < timeout.nanos ==> online_among(
            users.push(user),
            timeout,
            now,
        ) == online_among(users, timeout, now).push(user),
        now.instant() - user.last_seen.instant() >= timeout.nanos ==> online_among(
            users.push(user),
            timeout,
            now,
        ) == online_among(users, timeout, now),
{
    reveal(Seq::filter);
    assert(users.push(user).drop_last() =~= users);
}

} // verus!

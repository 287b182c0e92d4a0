//! The presence of a user.

use crate::element::{CopyEntry, Sound};
use crate::ident::ReplicaId;
use crate::presence::color::{color_of, generate_color};
use crate::presence::json::Json;
use crate::presence::position::{CursorPosition, SelectionRange};
use crate::table::Table;
use crate::time::{Span, Timestamp};
use vstd::prelude::*;

verus! {

/// User presence status.
#[derive(Debug, Clone, Copy, PartialEq, Eq, Structural)]
pub enum PresenceStatus {
    /// User is actively editing
    Active,
    /// User is viewing but not editing
    Viewing,
    /// User is idle
    Idle,
    /// User is away
    Away,
    /// User is offline
    Offline,
}

impl Default for PresenceStatus {
    fn default() -> (status: PresenceStatus)
        ensures
            status == PresenceStatus::Active,
    {
        PresenceStatus::Active
    }
}

/// What is known of a user.
#[verifier::ext_equal]
pub struct PresenceState {
    /// User's replica ID
    pub replica_id: ReplicaId,
    /// User ID
    pub user_id: Seq<char>,
    /// Display name
    pub name: Seq<char>,
    /// User color
    pub color: Seq<char>,
    /// Current status
    pub status: PresenceStatus,
    /// Cursor position
    pub cursor: Option<CursorPosition>,
    /// Selection
    pub selection: Option<SelectionRange>,
    /// Custom metadata
    pub metadata: Map<Seq<char>, serde_json::Value>,
    /// Last activity timestamp
    pub last_seen: Timestamp,
}

/// The time without activity after which a user is offline: the timeout, or thirty
/// seconds if the timeout is longer than any difference of two points in time.
pub open spec fn online_limit(timeout: Span) -> int {
    timeout.spec_or(Span { nanos: 30_000_000_000 }).nanos as int
}

impl PresenceState {
    /// The presence of a user who appears at some time.
    pub open spec fn fresh(
        replica_id: ReplicaId,
        user_id: Seq<char>,
        name: Seq<char>,
        now: Timestamp,
    ) -> PresenceState {
        PresenceState {
            replica_id,
            user_id,
            name,
            color: color_of(replica_id),
            status: PresenceStatus::Active,
            cursor: None,
            selection: None,
            metadata: Map::empty(),
            last_seen: now,
        }
    }

    /// Whether the user counts as online at some time: less than the timeout has
    /// passed since the last activity.
    pub open spec fn online_at(self, timeout: Span, now: Timestamp) -> bool {
        now.instant() - self.last_seen.instant() < online_limit(timeout)
    }
}

/// User presence information.
#[derive(Debug)]
pub struct UserPresence {
    /// User's replica ID
    pub replica_id: ReplicaId,
    /// User ID (application-specific)
    pub user_id: String,
    /// Display name
    pub name: String,
    /// User color (for cursors, highlights)
    pub color: String,
    /// Current status
    pub status: PresenceStatus,
    /// Cursor position (if applicable)
    pub cursor: Option<CursorPosition>,
    /// Selection (if applicable)
    pub selection: Option<SelectionRange>,
    /// Custom metadata
    pub metadata: Table<String, Json>,
    /// Last activity timestamp
    pub last_seen: Timestamp,
}

impl View for UserPresence {
    type V = PresenceState;

    open spec fn view(&self) -> PresenceState {
        PresenceState {
            replica_id: self.replica_id,
            user_id: self.user_id@,
            name: self.name@,
            color: self.color@,
            status: self.status,
            cursor: self.cursor,
            selection: self.selection,
            metadata: self.metadata.deep_view(),
            last_seen: self.last_seen,
        }
    }
}

impl DeepView for UserPresence {
    type V = PresenceState;

    open spec fn deep_view(&self) -> PresenceState {
        self@
    }
}

impl Clone for UserPresence {
    fn clone(&self) -> (copy: UserPresence)
        ensures
            self.valid() ==> copy.valid() && copy@ == self@,
            copy.replica_id == self.replica_id,
    {
        UserPresence {
            replica_id: self.replica_id,
            user_id: self.user_id.clone(),
            name: self.name.clone(),
            color: self.color.clone(),
            status: self.status,
            cursor: self.cursor,
            selection: self.selection,
            metadata: self.metadata.duplicate(),
            last_seen: self.last_seen,
        }
    }
}

impl Sound for UserPresence {
    open spec fn valid(&self) -> bool {
        self.metadata.wf()
    }
}

impl CopyEntry for UserPresence {
    fn replicate(&self) -> (copy: Self) {
        self.clone()
    }
}

impl UserPresence {
    /// Create a new user presence.
    pub fn new(replica_id: ReplicaId, user_id: &str, name: &str) -> (presence: UserPresence)
        ensures
            presence.valid(),
            presence@ == PresenceState::fresh(replica_id, user_id@, name@, presence@.last_seen),
            presence@.last_seen.is_clock_reading(),
    {
        UserPresence::new_at(replica_id, user_id, name, Timestamp::now())
    }

    /// Create the presence of a user who appears at some time.
    pub fn new_at(
        replica_id: ReplicaId,
        user_id: &str,
        name: &str,
        now: Timestamp,
    ) -> (presence: UserPresence)
        ensures
            presence.valid(),
            presence@ == PresenceState::fresh(replica_id, user_id@, name@, now),
    {
        let presence = UserPresence {
            replica_id,
            user_id: user_id.to_owned(),
            name: name.to_owned(),
            color: generate_color(&replica_id),
            status: PresenceStatus::Active,
            cursor: None,
            selection: None,
            metadata: Table::new(),
            last_seen: now,
        };
        assert(presence@ =~= PresenceState::fresh(replica_id, user_id@, name@, now));
        presence
    }

    /// Update last seen timestamp.
    pub fn touch(&mut self)
        ensures
            final(self).valid() == old(self).valid(),
            final(self)@ == (PresenceState { last_seen: final(self)@.last_seen, ..old(self)@ }),
            final(self)@.last_seen.is_clock_reading(),
    {
        self.last_seen = Timestamp::now();
    }

    /// Set cursor position.
    pub fn set_cursor(&mut self, position: CursorPosition)
        ensures
            final(self).valid() == old(self).valid(),
            final(self)@ == (PresenceState {
                cursor: Some(position),
                last_seen: final(self)@.last_seen,
                ..old(self)@
            }),
            final(self)@.last_seen.is_clock_reading(),
    {
        self.cursor = Some(position);
        self.touch();
    }

    /// Clear cursor.
    pub fn clear_cursor(&mut self)
        ensures
            final(self).valid() == old(self).valid(),
            final(self)@ == (PresenceState {
                cursor: None,
                last_seen: final(self)@.last_seen,
                ..old(self)@
            }),
            final(self)@.last_seen.is_clock_reading(),
    {
        self.cursor = None;
        self.touch();
    }

    /// Set selection.
    pub fn set_selection(&mut self, selection: SelectionRange)
        ensures
            final(self).valid() == old(self).valid(),
            final(self)@ == (PresenceState {
                selection: Some(selection),
                last_seen: final(self)@.last_seen,
                ..old(self)@
            }),
            final(self)@.last_seen.is_clock_reading(),
    {
        self.selection = Some(selection);
        self.touch();
    }

    /// Clear selection.
    pub fn clear_selection(&mut self)
        ensures
            final(self).valid() == old(self).valid(),
            final(self)@ == (PresenceState {
                selection: None,
                last_seen: final(self)@.last_seen,
                ..old(self)@
            }),
            final(self)@.last_seen.is_clock_reading(),
    {
        self.selection = None;
        self.touch();
    }

    /// Set status.
    pub fn set_status(&mut self, status: PresenceStatus)
        ensures
            final(self).valid() == old(self).valid(),
            final(self)@ == (PresenceState {
                status,
                last_seen: final(self)@.last_seen,
                ..old(self)@
            }),
            final(self)@.last_seen.is_clock_reading(),
    {
        self.status = status;
        self.touch();
    }

    /// Set metadata.
    pub fn set_metadata(&mut self, key: &str, value: serde_json::Value)
        requires
            old(self).valid(),
        ensures
            final(self).valid(),
            final(self)@ == (PresenceState {
                metadata: old(self)@.metadata.insert(key@, value),
                last_seen: final(self)@.last_seen,
                ..old(self)@
            }),
            final(self)@.last_seen.is_clock_reading(),
    {
        let ghost before = self@;
        self.metadata.insert(key.to_owned(), Json(value));
        assert(self@.metadata =~= before.metadata.insert(key@, value));
        self.touch();
    }

    /// Check if user is considered online: whether less than the timeout has passed
    /// since the last activity, at the time the clock shows.
    pub fn is_online(&self, timeout: Span) -> (online: bool)
        ensures
            exists|now: Timestamp|
                now.is_clock_reading() && online == #[trigger] self@.online_at(timeout, now),
    {
        let now = Timestamp::now();
        self.is_online_at(timeout, now)
    }

    /// Check if user is considered online at some time.
    pub fn is_online_at(&self, timeout: Span, now: Timestamp) -> (online: bool)
        ensures
            online == self@.online_at(timeout, now),
    {
        let limit = timeout.or(Span::from_secs(30));
        now.nanos_since(&self.last_seen) < limit.nanos as i128
    }
}

/// A user is online from an activity until the timeout has passed since, and
/// offline from then on.
pub proof fn users_go_offline_once(
    user: PresenceState,
    timeout: Span,
    now: Timestamp,
    later: Timestamp,
)
    requires
        now.instant() <= later.instant(),
    ensures
        online_limit(timeout) > 0 ==> (PresenceState { last_seen: now, ..user }).online_at(
            timeout,
            now,
        ),
        user.online_at(timeout, later) ==> user.online_at(timeout, now),
        later.instant() >= user.last_seen.instant() + online_limit(timeout) ==> !user.online_at(
            timeout,
            later,
        ),
{
}

/// A user is online exactly while less than the timeout has passed since the last activity;
/// a timeout longer than any difference of two points in time counts as thirty seconds.
pub proof fn users_are_online_within_the_timeout(
    user: PresenceState,
    timeout: Span,
    now: Timestamp,
)
    ensures
        ({
            let passed = now.instant() - user.last_seen.instant();
            &&& timeout.nanos <= i64::MAX * 1_000_000 ==> user.online_at(timeout, now) == (passed
                < timeout.nanos)
            &&& timeout.nanos > i64::MAX * 1_000_000 ==> user.online_at(timeout, now) == (passed
                < 30 * 1_000_000_000)
        }),
{
}

/// A user who appears has the name and the ids given and the color of the replica, is
/// active, and has neither cursor nor selection nor metadata.
pub proof fn new_users_are_active(
    replica_id: ReplicaId,
    user_id: Seq<char>,
    name: Seq<char>,
    now: Timestamp,
)
    ensures
        ({
            let user = PresenceState::fresh(replica_id, user_id, name, now);
            &&& user.replica_id == replica_id
            &&& user.user_id == user_id
            &&& user.name == name
            &&& user.color == color_of(replica_id)
            &&& user.status == PresenceStatus::Active
            &&& user.cursor is None
            &&& user.selection is None
            &&& user.metadata.dom() == Set::<Seq<char>>::empty()
            &&& user.last_seen == now
        }),
{
    assert(PresenceState::fresh(replica_id, user_id, name, now).metadata.dom() =~= Set::empty());
}

/// What is known of a user is what its parts say.
pub proof fn users_are_known_by_their_parts(user: UserPresence)
    ensures
        user@.replica_id == user.replica_id,
        user@.user_id == user.user_id@,
        user@.name == user.name@,
        user@.color == user.color@,
        user@.status == user.status,
        user@.cursor == user.cursor,
        user@.selection == user.selection,
        user@.metadata == user.metadata.deep_view(),
        user@.last_seen == user.last_seen,
{
}

} // verus!

//! Session configuration, state and information.

use crate::ident::{ReplicaId, Uuid};
use crate::time::Timestamp;
use crate::vector_clock::VectorClock;
use vstd::prelude::*;

verus! {

/// Session configuration.
#[derive(Debug, Clone, Copy)]
pub struct SessionConfig {
    /// Maximum number of clients
    pub max_clients: usize,
    /// Idle timeout in seconds
    pub idle_timeout_secs: u64,
    /// Enable presence tracking
    pub enable_presence: bool,
    /// Enable cursor sync
    pub enable_cursors: bool,
    /// Enable selection sync
    pub enable_selections: bool,
    /// Sync interval in milliseconds
    pub sync_interval_ms: u64,
    /// Max operations per sync
    pub max_ops_per_sync: usize,
}

impl SessionConfig {
    /// The configuration of a session that is given none: a hundred clients, an hour
    /// until it is idle, everything enabled, and ten syncs a second with a thousand
    /// operations each.
    pub open spec fn spec_default() -> SessionConfig {
        SessionConfig {
            max_clients: 100,
            idle_timeout_secs: 3600,
            enable_presence: true,
            enable_cursors: true,
            enable_selections: true,
            sync_interval_ms: 100,
            max_ops_per_sync: 1000,
        }
    }
}

impl Default for SessionConfig {
    fn default() -> (config: SessionConfig)
        ensures
            config == SessionConfig::spec_default(),
    {
        SessionConfig {
            max_clients: 100,
            idle_timeout_secs: 3600,
            enable_presence: true,
            enable_cursors: true,
            enable_selections: true,
            sync_interval_ms: 100,
            max_ops_per_sync: 1000,
        }
    }
}

/// Session status.
#[derive(Debug, Clone, Copy, PartialEq, Eq, Structural)]
pub enum SessionStatus {
    /// Session is active
    Active,
    /// Session is paused
    Paused,
    /// Session is read-only
    ReadOnly,
    /// Session is closing
    Closing,
    /// Session is closed
    Closed,
}

/// What the state of a session is.
#[verifier::ext_equal]
pub struct ActivityState {
    /// Session status
    pub status: SessionStatus,
    /// Number of connected clients
    pub client_count: nat,
    /// Total operations processed
    pub operations_count: u64,
    /// Last activity timestamp
    pub last_activity: Timestamp,
    /// Vector clock for session
    pub vclock: Map<ReplicaId, u64>,
}

impl ActivityState {
    /// The state of a session that opens at some time.
    pub open spec fn opened(now: Timestamp) -> ActivityState {
        ActivityState {
            status: SessionStatus::Active,
            client_count: 0,
            operations_count: 0,
            last_activity: now,
            vclock: Map::empty(),
        }
    }
}

/// Session state.
#[derive(Debug)]
pub struct SessionState {
    /// Session status
    pub status: SessionStatus,
    /// Number of connected clients
    pub client_count: usize,
    /// Total operations processed
    pub operations_count: u64,
    /// Last activity timestamp
    pub last_activity: Timestamp,
    /// Vector clock for session
    pub vclock: VectorClock,
}

impl View for SessionState {
    type V = ActivityState;

    open spec fn view(&self) -> ActivityState {
        ActivityState {
            status: self.status,
            client_count: self.client_count as nat,
            operations_count: self.operations_count,
            last_activity: self.last_activity,
            vclock: self.vclock@,
        }
    }
}

impl Clone for SessionState {
    fn clone(&self) -> (copy: SessionState)
        ensures
            copy@ == self@,
    {
        SessionState {
            status: self.status,
            client_count: self.client_count,
            operations_count: self.operations_count,
            last_activity: self.last_activity,
            vclock: self.vclock.clone(),
        }
    }
}

impl Default for SessionState {
    fn default() -> (state: SessionState)
        ensures
            state@ == ActivityState::opened(state.last_activity),
            state.last_activity.is_clock_reading(),
    {
        SessionState {
            status: SessionStatus::Active,
            client_count: 0,
            operations_count: 0,
            last_activity: Timestamp::now(),
            vclock: VectorClock::new(),
        }
    }
}

/// Session information.
#[derive(Debug, Clone)]
pub struct SessionInfo {
    /// Session ID
    pub id: Uuid,
    /// Document ID
    pub document_id: String,
    /// Connected clients
    pub client_count: usize,
    /// Session status
    pub status: SessionStatus,
    /// Total operations
    pub operations_count: u64,
    /// Created timestamp
    pub created_at: Timestamp,
    /// Last activity
    pub last_activity: Timestamp,
}

/// What the state of a session is, is what its parts say.
pub proof fn states_are_known_by_their_parts(state: SessionState)
    ensures
        state@.status == state.status,
        state@.client_count == state.client_count,
        state@.operations_count == state.operations_count,
        state@.last_activity == state.last_activity,
        state@.vclock == state.vclock@,
{
}

} // verus!

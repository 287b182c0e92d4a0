//! Conflict-free replicated data types and the state of real-time
//! collaboration sessions built on them.

pub mod clock;
pub mod counter;
pub mod counts;
pub mod crdt;
pub mod document;
pub mod element;
pub mod error;
pub mod g_set;
pub mod ident;
pub mod items;
pub mod lww_map;
pub mod operation;
pub mod or_set;
pub mod presence;
pub mod register;
pub mod session;
pub mod table;
pub mod text;
pub mod time;
pub mod vector_clock;

pub use clock::LogicalClock;
pub use counter::{GCounter, PnCounter};
pub use crdt::Crdt;
pub use document::doc::{ChangeType, Document, DocumentChange, DocumentParts};
pub use document::field::FieldValue;
pub use element::Element;
pub use error::{CollabError, CollabResult};
pub use g_set::GSet;
pub use ident::{ReplicaId, Uuid};
pub use lww_map::LwwMap;
pub use operation::Operation;
pub use or_set::OrSet;
pub use presence::manager::PresenceManager;
pub use presence::position::{CursorPosition, SelectionDirection, SelectionRange};
pub use presence::snapshot::{PresenceEvent, PresenceSnapshot};
pub use presence::user::{PresenceStatus, UserPresence};
pub use register::LwwRegister;
pub use session::clients::ClientConnection;
pub use session::collab::CollabSession;
pub use session::config::{SessionConfig, SessionInfo, SessionState, SessionStatus};
pub use session::event::SessionEvent;
pub use session::manager::SessionManager;
pub use session::sessions::SessionRef;
pub use session::sync::{DocumentState, SyncAction, SyncMessage, SyncStats};
pub use text::cursor::{TextCursor, TextSelection};
pub use text::node::{CharId, CharNode, TextOp};
pub use text::rga::RgaText;
pub use time::{Span, Timestamp};
pub use vector_clock::VectorClock;

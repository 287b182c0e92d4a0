//! What sessions send each other to bring a document up to date.

use crate::error::CollabResult;
use crate::ident::ReplicaId;
use crate::time::Timestamp;
use crate::vector_clock::VectorClock;
use vstd::prelude::*;
use vstd::string::StrSliceExecFns;
use vstd::utf8::{decode_utf8, encode_utf8, valid_utf8};

verus! {

/// Accumulated sync statistics.
#[derive(Debug, Clone, Copy)]
pub struct SyncStats {
    /// Messages sent
    pub messages_sent: u64,
    /// Messages received
    pub messages_received: u64,
    /// Operations synced
    pub operations_synced: u64,
    /// When the last message was received
    pub last_sync: Option<Timestamp>,
}

impl SyncStats {
    /// Statistics before anything has happened.
    pub open spec fn zero() -> SyncStats {
        SyncStats {
            messages_sent: 0,
            messages_received: 0,
            operations_synced: 0,
            last_sync: None,
        }
    }
}

impl Default for SyncStats {
    fn default() -> (stats: SyncStats)
        ensures
            stats == SyncStats::zero(),
    {
        SyncStats {
            messages_sent: 0,
            messages_received: 0,
            operations_synced: 0,
            last_sync: None,
        }
    }
}

/// A document in transfer.
#[derive(Debug, Clone)]
pub struct DocumentState {
    /// Document ID
    pub doc_id: String,
    /// The encoded document
    pub data: Vec<u8>,
    /// Document version
    pub version: u64,
    /// Vector clock of the session that sends it
    pub vclock: VectorClock,
}

/// What a document in transfer is.
#[verifier::ext_equal]
pub struct TransferState {
    /// Document ID
    pub doc_id: Seq<char>,
    /// The encoded document
    pub data: Seq<u8>,
    /// Document version
    pub version: u64,
    /// Vector clock of the session that sends it
    pub vclock: Map<ReplicaId, u64>,
}

impl View for DocumentState {
    type V = TransferState;

    open spec fn view(&self) -> TransferState {
        TransferState {
            doc_id: self.doc_id@,
            data: self.data@,
            version: self.version,
            vclock: self.vclock@,
        }
    }
}

/// Messages between sessions.
#[derive(Debug, Clone)]
pub enum SyncMessage {
    /// Asks for the state of a document
    SyncRequest {
        /// Who asks
        replica_id: ReplicaId,
        /// What the asker has seen
        vclock: VectorClock,
        /// Which document
        doc_id: String,
    },
    /// Carries the state of a document
    SyncResponse {
        /// Who answers
        replica_id: ReplicaId,
        /// The document
        state: DocumentState,
        /// What the answerer has seen
        vclock: VectorClock,
    },
    /// A message of the operation protocol, in its own encoding
    Protocol {
        /// The encoded message
        payload: Vec<u8>,
    },
}

/// What a message says.
pub enum MessageState {
    /// Asks for the state of a document
    SyncRequest {
        /// Who asks
        replica_id: ReplicaId,
        /// What the asker has seen
        vclock: Map<ReplicaId, u64>,
        /// Which document
        doc_id: Seq<char>,
    },
    /// Carries the state of a document
    SyncResponse {
        /// Who answers
        replica_id: ReplicaId,
        /// The document
        state: TransferState,
        /// What the answerer has seen
        vclock: Map<ReplicaId, u64>,
    },
    /// A message of the operation protocol
    Protocol {
        /// The encoded message
        payload: Seq<u8>,
    },
}

impl View for SyncMessage {
    type V = MessageState;

    open spec fn view(&self) -> MessageState {
        match *self {
            SyncMessage::SyncRequest { replica_id, vclock, doc_id } => MessageState::SyncRequest {
                replica_id,
                vclock: vclock@,
                doc_id: doc_id@,
            },
            SyncMessage::SyncResponse { replica_id, state, vclock } => {
                MessageState::SyncResponse { replica_id, state: state@, vclock: vclock@ }
            },
            SyncMessage::Protocol { payload } => MessageState::Protocol { payload: payload@ },
        }
    }
}

/// The text that `String::from_utf8_lossy` reads from bytes.
pub uninterp spec fn lossily_decoded(bytes: Seq<u8>) -> Seq<char>;

/// `String::from_utf8_lossy` reads bytes as UTF-8. What it puts in the place of bytes
/// that are none is not stated.
#[verifier::external_body]
fn text_from_utf8_lossy(bytes: &Vec<u8>) -> (text: String)
    ensures
        text@ == lossily_decoded(bytes@),
        valid_utf8(bytes@) ==> text@ == decode_utf8(bytes@),
{
    String::from_utf8_lossy(bytes).into_owned()
}

/// The bytes that carry the text of a document; none if it could not be written.
pub open spec fn carried_bytes(text: CollabResult<String>) -> Seq<u8> {
    match text {
        Ok(text) => encode_utf8(text@),
        Err(_) => Seq::empty(),
    }
}

/// The bytes that carry the text of a document; none if it could not be written.
pub fn carry(text: CollabResult<String>) -> (bytes: Vec<u8>)
    ensures
        bytes@ == carried_bytes(text),
{
    match text {
        Ok(text) => text.as_str().as_bytes_vec(),
        Err(_) => Vec::new(),
    }
}

/// What is to be done about a message.
#[derive(Debug)]
pub enum SyncAction {
    /// Write the document as a text and send it to a replica
    SendState {
        /// Who asked for it
        replica_id: ReplicaId,
    },
    /// Read a document from a text and apply it
    ApplyState {
        /// The text of the document
        text: String,
        /// What its sender has seen
        vclock: VectorClock,
    },
    /// Hand a message to the operation protocol and forward its answers
    Delegate {
        /// The encoded message
        payload: Vec<u8>,
    },
}

impl SyncAction {
    /// What is to be done about a message: a request is answered with the document, a
    /// response is applied, any other message is delegated.
    pub fn about(message: SyncMessage) -> (action: SyncAction)
        ensures
            action.answers(message@),
    {
        match message {
            SyncMessage::SyncRequest { replica_id, .. } => SyncAction::SendState { replica_id },
            SyncMessage::SyncResponse { state, vclock, .. } => SyncAction::ApplyState {
                text: text_from_utf8_lossy(&state.data),
                vclock,
            },
            SyncMessage::Protocol { payload } => SyncAction::Delegate { payload },
        }
    }

    /// Whether this is what is to be done about a message: a request is answered with
    /// the document, a response is applied, any other message is delegated.
    pub open spec fn answers(self, message: MessageState) -> bool {
        match message {
            MessageState::SyncRequest { replica_id, .. } => self == (SyncAction::SendState {
                replica_id,
            }),
            MessageState::SyncResponse { state, vclock, .. } => {
                &&& self is ApplyState
                &&& self->text@ == lossily_decoded(state.data)
                &&& valid_utf8(state.data) ==> self->text@ == decode_utf8(state.data)
                &&& self->vclock@ == vclock
            },
            MessageState::Protocol { payload } => self is Delegate && self->payload@ == payload,
        }
    }
}

/// The text of a document arrives as it was sent.
pub proof fn sent_texts_arrive(action: SyncAction, message: MessageState, text: Seq<char>)
    requires
        action.answers(message),
        message is SyncResponse,
        message->state.data == encode_utf8(text),
    ensures
        action is ApplyState,
        action->text@ == text,
        action->vclock@ == message->SyncResponse_vclock,
{
    vstd::utf8::encode_utf8_valid_utf8(text);
    vstd::utf8::encode_utf8_decode_utf8(text);
}

/// A request is answered with the document, to the one who asked; a response is applied with
/// the vector clock it came with; a message of the operation protocol is handed on as it is.
pub proof fn messages_are_answered_in_kind(action: SyncAction, message: SyncMessage)
    requires
        action.answers(message@),
    ensures
        match message {
            SyncMessage::SyncRequest { replica_id, .. } => action is SendState
                && action->replica_id == replica_id,
            SyncMessage::SyncResponse { state, vclock, .. } => {
                &&& action is ApplyState
                &&& action->vclock@ == vclock@
                &&& valid_utf8(state.data@) ==> action->text@ == decode_utf8(state.data@)
            },
            SyncMessage::Protocol { payload } => action is Delegate && action->payload@
                == payload@,
        },
{
}

/// The bytes that carry a text read as that text again; no bytes carry one that could not be
/// written.
pub proof fn carried_texts_are_read_again(text: CollabResult<String>)
    ensures
        text matches Ok(string) ==> valid_utf8(carried_bytes(text)) && decode_utf8(
            carried_bytes(text),
        ) == string@,
        text is Err ==> carried_bytes(text).len() == 0,
{
    if let Ok(string) = text {
        vstd::utf8::encode_utf8_valid_utf8(string@);
        vstd::utf8::encode_utf8_decode_utf8(string@);
    }
}

/// What a message says is what it carries.
pub proof fn messages_say_what_they_carry(message: SyncMessage, transfer: DocumentState)
    ensures
        transfer@.doc_id == transfer.doc_id@,
        transfer@.data == transfer.data@,
        transfer@.version == transfer.version,
        transfer@.vclock == transfer.vclock@,
        match message {
            SyncMessage::SyncRequest { replica_id, vclock, doc_id } => {
                &&& message@ is SyncRequest
                &&& message@->SyncRequest_replica_id == replica_id
                &&& message@->SyncRequest_vclock == vclock@
                &&& message@->doc_id == doc_id@
            },
            SyncMessage::SyncResponse { replica_id, state, vclock } => {
                &&& message@ is SyncResponse
                &&& message@->SyncResponse_replica_id == replica_id
                &&& message@->SyncResponse_vclock == vclock@
                &&& message@->state.doc_id == state.doc_id@
                &&& message@->state.data == state.data@
                &&& message@->state.version == state.version
                &&& message@->state.vclock == state.vclock@
            },
            SyncMessage::Protocol { payload } => message@ is Protocol && message@->payload
                == payload@,
        },
{
}

} // verus!

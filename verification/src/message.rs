//! Typed protocol messages and their mathematical views.

use crate::bytes::copy_bytes;
use vstd::prelude::*;

verus! {

/// Why one side ends a connection.
#[derive(Clone, Copy, Debug, PartialEq, Eq, Structural)]
pub enum DisconnectReason {
    NoReasonGiven,
    PeerHasDisconnected,
    ProtocolViolation,
    ShuttingDown,
    TooManyFailures,
    TooManyPeers,
}

impl DisconnectReason {
    /// The byte that stands for this reason on the wire.
    pub open spec fn code(self) -> u8 {
        match self {
            DisconnectReason::NoReasonGiven => 0,
            DisconnectReason::PeerHasDisconnected => 1,
            DisconnectReason::ProtocolViolation => 2,
            DisconnectReason::ShuttingDown => 3,
            DisconnectReason::TooManyFailures => 4,
            DisconnectReason::TooManyPeers => 5,
        }
    }

    /// The reason that a wire byte stands for, if any.
    pub open spec fn from_code(code: u8) -> Option<DisconnectReason> {
        if code == 0 {
            Some(DisconnectReason::NoReasonGiven)
        } else if code == 1 {
            Some(DisconnectReason::PeerHasDisconnected)
        } else if code == 2 {
            Some(DisconnectReason::ProtocolViolation)
        } else if code == 3 {
            Some(DisconnectReason::ShuttingDown)
        } else if code == 4 {
            Some(DisconnectReason::TooManyFailures)
        } else if code == 5 {
            Some(DisconnectReason::TooManyPeers)
        } else {
            None
        }
    }

    /// Computes [`DisconnectReason::code`].
    pub fn to_code(&self) -> (code: u8)
        ensures
            code == self.code(),
    {
        match self {
            DisconnectReason::NoReasonGiven => 0,
            DisconnectReason::PeerHasDisconnected => 1,
            DisconnectReason::ProtocolViolation => 2,
            DisconnectReason::ShuttingDown => 3,
            DisconnectReason::TooManyFailures => 4,
            DisconnectReason::TooManyPeers => 5,
        }
    }

    /// Computes [`DisconnectReason::from_code`].
    pub fn of_code(code: u8) -> (reason: Option<DisconnectReason>)
        ensures
            reason == DisconnectReason::from_code(code),
    {
        if code == 0 {
            Some(DisconnectReason::NoReasonGiven)
        } else if code == 1 {
            Some(DisconnectReason::PeerHasDisconnected)
        } else if code == 2 {
            Some(DisconnectReason::ProtocolViolation)
        } else if code == 3 {
            Some(DisconnectReason::ShuttingDown)
        } else if code == 4 {
            Some(DisconnectReason::TooManyFailures)
        } else if code == 5 {
            Some(DisconnectReason::TooManyPeers)
        } else {
            None
        }
    }

    /// Every reason is recovered from its own code, and every code that
    /// stands for a reason is that reason's code.
    pub proof fn lemma_code_roundtrip(reason: DisconnectReason, code: u8)
        ensures
            DisconnectReason::from_code(reason.code()) == Some(reason),
            DisconnectReason::from_code(code) matches Some(r) ==> r.code() == code,
    {
    }
}

/// A large object carried either by value or by a handle that the recipient
/// resolves against its own store.
#[derive(Debug, PartialEq, Eq)]
pub enum DataPayload {
    /// The object's bytes themselves.
    Inline(Vec<u8>),
    /// A handle under which the recipient finds the object.
    Reference(Vec<u8>),
}

/// What a [`DataPayload`] holds.
pub enum DataPayloadView {
    Inline(Seq<u8>),
    Reference(Seq<u8>),
}

impl DataPayloadView {
    /// The byte that tells the two variants apart on the wire.
    pub open spec fn tag(self) -> u8 {
        match self {
            DataPayloadView::Inline(_) => 0,
            DataPayloadView::Reference(_) => 1,
        }
    }

    /// The bytes after the tag: the object, or the handle.
    pub open spec fn body(self) -> Seq<u8> {
        match self {
            DataPayloadView::Inline(bytes) => bytes,
            DataPayloadView::Reference(handle) => handle,
        }
    }

    /// The object once the handle, if there is one, has been looked up;
    /// `fetched` is what the lookup gave.
    pub open spec fn resolved(self, fetched: Option<Seq<u8>>) -> Option<Seq<u8>> {
        match self {
            DataPayloadView::Inline(bytes) => Some(bytes),
            DataPayloadView::Reference(_) => fetched,
        }
    }
}

impl View for DataPayload {
    type V = DataPayloadView;

    open spec fn view(&self) -> DataPayloadView {
        match self {
            DataPayload::Inline(bytes) => DataPayloadView::Inline(bytes@),
            DataPayload::Reference(handle) => DataPayloadView::Reference(handle@),
        }
    }
}

impl Clone for DataPayload {
    fn clone(&self) -> (copy: DataPayload)
        ensures
            copy@ == self@,
    {
        match self {
            DataPayload::Inline(bytes) => DataPayload::Inline(copy_bytes(bytes.as_slice())),
            DataPayload::Reference(handle) => DataPayload::Reference(copy_bytes(handle.as_slice())),
        }
    }
}

impl DataPayload {
    /// The handle that has to be looked up before the object can be read;
    /// `None` where the object is carried by value.
    pub fn handle(&self) -> (handle: Option<&Vec<u8>>)
        ensures
            match handle {
                Some(h) => self@ == DataPayloadView::Reference(h@),
                None => self@ is Inline,
            },
    {
        match self {
            DataPayload::Inline(_) => None,
            DataPayload::Reference(handle) => Some(handle),
        }
    }

    /// Resolves the payload into the object's bytes. An inline object is
    /// returned as it is and `fetched` is ignored; for a handle the result is
    /// whatever the lookup of that handle gave.
    pub fn resolve(self, fetched: Option<Vec<u8>>) -> (object: Option<Vec<u8>>)
        ensures
            match object {
                Some(bytes) => self@.resolved(
                    match fetched {
                        Some(f) => Some(f@),
                        None => None,
                    },
                ) == Some(bytes@),
                None => self@ is Reference && fetched is None,
            },
    {
        match self {
            DataPayload::Inline(bytes) => Some(bytes),
            DataPayload::Reference(_) => fetched,
        }
    }
}

/// A protocol message.
#[derive(Debug, PartialEq, Eq)]
pub enum Message {
    Disconnect { reason: DisconnectReason },
    PuzzleRequest,
    PuzzleResponse { epoch_challenge: Vec<u8>, block: DataPayload },
    UnconfirmedSolution { solution: Vec<u8> },
    UnconfirmedTransaction { transaction: Vec<u8> },
}

/// What a [`Message`] holds.
pub enum MessageView {
    Disconnect { reason: DisconnectReason },
    PuzzleRequest,
    PuzzleResponse { epoch_challenge: Seq<u8>, block: DataPayloadView },
    UnconfirmedSolution { solution: Seq<u8> },
    UnconfirmedTransaction { transaction: Seq<u8> },
}

impl MessageView {
    /// The identifier of the message's variant: its discriminator on the wire
    /// and its key in a peer's log of seen messages.
    pub open spec fn id(self) -> u16 {
        match self {
            MessageView::Disconnect { .. } => 0,
            MessageView::PuzzleRequest => 1,
            MessageView::PuzzleResponse { .. } => 2,
            MessageView::UnconfirmedSolution { .. } => 3,
            MessageView::UnconfirmedTransaction { .. } => 4,
        }
    }
}

impl View for Message {
    type V = MessageView;

    open spec fn view(&self) -> MessageView {
        match self {
            Message::Disconnect { reason } => MessageView::Disconnect { reason: *reason },
            Message::PuzzleRequest => MessageView::PuzzleRequest,
            Message::PuzzleResponse { epoch_challenge, block } => MessageView::PuzzleResponse {
                epoch_challenge: epoch_challenge@,
                block: block@,
            },
            Message::UnconfirmedSolution { solution } => MessageView::UnconfirmedSolution {
                solution: solution@,
            },
            Message::UnconfirmedTransaction { transaction } => MessageView::UnconfirmedTransaction {
                transaction: transaction@,
            },
        }
    }
}

impl Clone for Message {
    fn clone(&self) -> (copy: Message)
        ensures
            copy@ == self@,
    {
        match self {
            Message::Disconnect { reason } => Message::Disconnect { reason: *reason },
            Message::PuzzleRequest => Message::PuzzleRequest,
            Message::PuzzleResponse { epoch_challenge, block } => Message::PuzzleResponse {
                epoch_challenge: copy_bytes(epoch_challenge.as_slice()),
                block: block.clone(),
            },
            Message::UnconfirmedSolution { solution } => Message::UnconfirmedSolution {
                solution: copy_bytes(solution.as_slice()),
            },
            Message::UnconfirmedTransaction { transaction } => Message::UnconfirmedTransaction {
                transaction: copy_bytes(transaction.as_slice()),
            },
        }
    }
}

impl Message {
    /// Computes [`MessageView::id`].
    pub fn id(&self) -> (id: u16)
        ensures
            id == self@.id(),
    {
        match self {
            Message::Disconnect { .. } => 0,
            Message::PuzzleRequest => 1,
            Message::PuzzleResponse { .. } => 2,
            Message::UnconfirmedSolution { .. } => 3,
            Message::UnconfirmedTransaction { .. } => 4,
        }
    }
}

} // verus!

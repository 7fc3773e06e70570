//! What a node's role contributes to the router: its peer limit and its
//! handlers for the messages that concern the consensus side.
//!
//! A handler never touches the ledger or the memory pool itself. The caller
//! asks them, outside any lock on the router, and hands the handler what they
//! answered.

use crate::address::PeerAddress;
use crate::message::{DataPayload, DataPayloadView, Message, MessageView};
use vstd::prelude::*;

verus! {

/// What a handler decided.
#[derive(Debug, PartialEq, Eq)]
pub struct Handled {
    /// Whether the peer kept to the protocol. `false` is a violation.
    pub compliant: bool,
    /// The message to send back, if any.
    pub reply: Option<Message>,
}

/// What a [`Handled`] holds.
pub struct HandledView {
    pub compliant: bool,
    pub reply: Option<MessageView>,
}

impl View for Handled {
    type V = HandledView;

    open spec fn view(&self) -> HandledView {
        HandledView {
            compliant: self.compliant,
            reply: match self.reply {
                Some(message) => Some(message@),
                None => None,
            },
        }
    }
}

/// The bytes of an optional buffer.
pub open spec fn bytes_view(bytes: Option<Vec<u8>>) -> Option<Seq<u8>> {
    match bytes {
        Some(b) => Some(b@),
        None => None,
    }
}

/// The capabilities that a role brings to the router.
pub trait Routes {
    /// The most peers that a node of this role keeps.
    spec fn peer_limit(&self) -> nat;

    /// What the role does on a puzzle request, given the ledger's latest
    /// epoch challenge (`None` where the lookup failed) and latest block.
    spec fn on_puzzle_request(
        &self,
        peer: PeerAddress,
        epoch_challenge: Option<Seq<u8>>,
        block: Seq<u8>,
    ) -> HandledView;

    /// Whether the peer kept to the protocol in sending a solution that the
    /// memory pool accepted or rejected.
    spec fn on_unconfirmed_solution(
        &self,
        peer: PeerAddress,
        solution: Seq<u8>,
        accepted: bool,
    ) -> bool;

    /// Whether the peer kept to the protocol in sending a transaction that
    /// the memory pool accepted or rejected.
    spec fn on_unconfirmed_transaction(
        &self,
        peer: PeerAddress,
        transaction: Seq<u8>,
        accepted: bool,
    ) -> bool;

    /// Computes [`Routes::peer_limit`].
    fn maximum_peers(&self) -> (maximum: usize)
        ensures
            maximum == self.peer_limit(),
    ;

    /// Computes [`Routes::on_puzzle_request`].
    fn puzzle_request(
        &self,
        peer: PeerAddress,
        epoch_challenge: Option<Vec<u8>>,
        block: Vec<u8>,
    ) -> (handled: Handled)
        ensures
            handled@ == self.on_puzzle_request(peer, bytes_view(epoch_challenge), block@),
    ;

    /// Computes [`Routes::on_unconfirmed_solution`].
    fn unconfirmed_solution(&self, peer: PeerAddress, solution: &Vec<u8>, accepted: bool) -> (compliant:
        bool)
        ensures
            compliant == self.on_unconfirmed_solution(peer, solution@, accepted),
    ;

    /// Computes [`Routes::on_unconfirmed_transaction`].
    fn unconfirmed_transaction(
        &self,
        peer: PeerAddress,
        transaction: &Vec<u8>,
        accepted: bool,
    ) -> (compliant: bool)
        ensures
            compliant == self.on_unconfirmed_transaction(peer, transaction@, accepted),
    ;
}

/// The role that hands out puzzles.
#[derive(Clone, Copy, Debug, PartialEq, Eq, Structural)]
pub struct Beacon;

/// The most peers that a beacon keeps.
pub const MAXIMUM_NUMBER_OF_PEERS: usize = 10;

impl Routes for Beacon {
    open spec fn peer_limit(&self) -> nat {
        10
    }

    /// With a challenge at hand the beacon answers with the challenge and
    /// the block, carried by value. Without one it answers nothing. Either
    /// way the peer has done nothing wrong.
    open spec fn on_puzzle_request(
        &self,
        peer: PeerAddress,
        epoch_challenge: Option<Seq<u8>>,
        block: Seq<u8>,
    ) -> HandledView {
        match epoch_challenge {
            Some(challenge) => HandledView {
                compliant: true,
                reply: Some(
                    MessageView::PuzzleResponse {
                        epoch_challenge: challenge,
                        block: DataPayloadView::Inline(block),
                    },
                ),
            },
            None => HandledView { compliant: true, reply: None },
        }
    }

    /// A solution that the memory pool rejects is no breach of the protocol.
    open spec fn on_unconfirmed_solution(
        &self,
        peer: PeerAddress,
        solution: Seq<u8>,
        accepted: bool,
    ) -> bool {
        true
    }

    /// A transaction that the memory pool rejects is no breach of the
    /// protocol.
    open spec fn on_unconfirmed_transaction(
        &self,
        peer: PeerAddress,
        transaction: Seq<u8>,
        accepted: bool,
    ) -> bool {
        true
    }

    fn maximum_peers(&self) -> (maximum: usize) {
        MAXIMUM_NUMBER_OF_PEERS
    }

    /// Answers a puzzle request with the latest epoch challenge and the
    /// latest block, or with nothing where the challenge could not be had.
    fn puzzle_request(
        &self,
        peer: PeerAddress,
        epoch_challenge: Option<Vec<u8>>,
        block: Vec<u8>,
    ) -> (handled: Handled) {
        match epoch_challenge {
            Some(challenge) => Handled {
                compliant: true,
                reply: Some(
                    Message::PuzzleResponse {
                        epoch_challenge: challenge,
                        block: DataPayload::Inline(block),
                    },
                ),
            },
            None => Handled { compliant: true, reply: None },
        }
    }

    /// Keeps the connection whatever the memory pool said of the solution.
    fn unconfirmed_solution(&self, peer: PeerAddress, solution: &Vec<u8>, accepted: bool) -> (compliant:
        bool) {
        true
    }

    /// Keeps the connection whatever the memory pool said of the
    /// transaction.
    fn unconfirmed_transaction(
        &self,
        peer: PeerAddress,
        transaction: &Vec<u8>,
        accepted: bool,
    ) -> (compliant: bool) {
        true
    }
}

} // verus!

//! The handshake that precedes all message traffic on a connection.
//!
//! Each side sends one challenge, its protocol version and its role, straight
//! over the stream, and waits for the other's. The handshake is a state
//! machine: it is fed events and answers each with the action to perform.
//!
//! ```text
//! Initiated --Begin--> Negotiating --challenge accepted--> Established
//!                                  --anything else-------> Failed
//! ```
//!
//! `Established` and `Failed` are final: no event leaves them.

use crate::address::{ConnectionSide, PeerAddress};
use crate::bytes::{le_u32, lemma_u32_le, push_u32_le, read_u32_le, u32_le};
use vstd::prelude::*;

verus! {

/// The number of bytes of a challenge.
pub const CHALLENGE_LEN: usize = 5;

/// What part a node plays in the network.
#[derive(Clone, Copy, Debug, PartialEq, Eq, Structural)]
pub enum NodeRole {
    Beacon,
    Validator,
    Prover,
    Client,
}

impl NodeRole {
    /// The byte that stands for this role in a challenge.
    pub open spec fn code(self) -> u8 {
        match self {
            NodeRole::Beacon => 0,
            NodeRole::Validator => 1,
            NodeRole::Prover => 2,
            NodeRole::Client => 3,
        }
    }

    /// The role that a byte stands for, if any.
    pub open spec fn from_code(code: u8) -> Option<NodeRole> {
        if code == 0 {
            Some(NodeRole::Beacon)
        } else if code == 1 {
            Some(NodeRole::Validator)
        } else if code == 2 {
            Some(NodeRole::Prover)
        } else if code == 3 {
            Some(NodeRole::Client)
        } else {
            None
        }
    }

    /// Computes [`NodeRole::code`].
    pub fn to_code(&self) -> (code: u8)
        ensures
            code == self.code(),
    {
        match self {
            NodeRole::Beacon => 0,
            NodeRole::Validator => 1,
            NodeRole::Prover => 2,
            NodeRole::Client => 3,
        }
    }

    /// Computes [`NodeRole::from_code`].
    pub fn of_code(code: u8) -> (role: Option<NodeRole>)
        ensures
            role == NodeRole::from_code(code),
    {
        if code == 0 {
            Some(NodeRole::Beacon)
        } else if code == 1 {
            Some(NodeRole::Validator)
        } else if code == 2 {
            Some(NodeRole::Prover)
        } else if code == 3 {
            Some(NodeRole::Client)
        } else {
            None
        }
    }
}

/// What a node says of itself when a connection opens.
#[derive(Clone, Copy, Debug, PartialEq, Eq, Structural)]
pub struct Challenge {
    pub version: u32,
    pub role: NodeRole,
}

impl Challenge {
    /// The challenge on the wire: the version, little-endian, then the role.
    pub open spec fn bytes(self) -> Seq<u8> {
        u32_le(self.version) + seq![self.role.code()]
    }

    /// The challenge that bytes stand for, if they are well formed.
    pub open spec fn parse(bytes: Seq<u8>) -> Option<Challenge> {
        if bytes.len() != 5 {
            None
        } else {
            match NodeRole::from_code(bytes[4]) {
                Some(role) => Some(Challenge { version: le_u32(bytes.subrange(0, 4)), role }),
                None => None,
            }
        }
    }

    /// Parsing undoes writing, and only a challenge's own bytes parse to it.
    pub proof fn lemma_parse_bytes(challenge: Challenge, bytes: Seq<u8>)
        ensures
            Challenge::parse(challenge.bytes()) == Some(challenge),
            Challenge::parse(bytes) matches Some(c) ==> c.bytes() == bytes,
    {
        lemma_u32_le(challenge.version, Seq::empty());
        assert(challenge.bytes().subrange(0, 4) =~= u32_le(challenge.version));
        if let Some(c) = Challenge::parse(bytes) {
            lemma_u32_le(0, bytes.subrange(0, 4));
            assert(c.bytes() =~= bytes);
        }
    }

    /// Writes the challenge out.
    pub fn to_bytes(&self) -> (out: Vec<u8>)
        ensures
            out@ == self.bytes(),
    {
        let mut out: Vec<u8> = Vec::new();
        push_u32_le(&mut out, self.version);
        out.push(self.role.to_code());
        assert(out@ =~= self.bytes());
        out
    }

    /// Reads a challenge; `None` where the bytes are not well formed.
    pub fn from_bytes(bytes: &[u8]) -> (challenge: Option<Challenge>)
        ensures
            challenge == Challenge::parse(bytes@),
    {
        if bytes.len() != CHALLENGE_LEN {
            return None;
        }
        match NodeRole::of_code(bytes[4]) {
            Some(role) => Some(Challenge { version: read_u32_le(bytes, 0), role }),
            None => None,
        }
    }
}

/// Why a handshake failed.
#[derive(Clone, Copy, Debug, PartialEq, Eq, Structural)]
pub enum HandshakeFailure {
    /// The peer speaks a version older than this node accepts.
    BadVersion,
    /// What the peer sent is no challenge.
    MalformedChallenge,
    /// The peer did not answer in time.
    Timeout,
}

/// Where a handshake stands.
#[derive(Clone, Copy, Debug, PartialEq, Eq, Structural)]
pub enum HandshakeState {
    Initiated,
    Negotiating,
    Established,
    Failed(HandshakeFailure),
}

impl HandshakeState {
    /// Whether no event leaves this state.
    pub open spec fn is_final(self) -> bool {
        self is Established || self is Failed
    }
}

/// What happened on the connection.
#[derive(Debug, PartialEq, Eq)]
pub enum HandshakeEvent {
    /// The connection is open and the handshake may start.
    Begin,
    /// The peer's challenge arrived: these are its bytes.
    Received(Vec<u8>),
    /// The time allowed for the peer's challenge ran out.
    TimedOut,
}

/// What a [`HandshakeEvent`] holds.
pub enum HandshakeEventView {
    Begin,
    Received(Seq<u8>),
    TimedOut,
}

impl View for HandshakeEvent {
    type V = HandshakeEventView;

    open spec fn view(&self) -> HandshakeEventView {
        match self {
            HandshakeEvent::Begin => HandshakeEventView::Begin,
            HandshakeEvent::Received(bytes) => HandshakeEventView::Received(bytes@),
            HandshakeEvent::TimedOut => HandshakeEventView::TimedOut,
        }
    }
}

/// What the caller has to do after an event.
#[derive(Debug, PartialEq, Eq)]
pub enum HandshakeAction {
    /// Nothing: the event does not concern the handshake's state.
    Nothing,
    /// Write these bytes to the peer and wait for its challenge.
    Send(Vec<u8>),
    /// The connection is established: register the peer with the router.
    Register,
    /// The handshake failed: close the transport.
    Close,
}

/// What a [`HandshakeAction`] holds.
pub enum HandshakeActionView {
    Nothing,
    Send(Seq<u8>),
    Register,
    Close,
}

impl View for HandshakeAction {
    type V = HandshakeActionView;

    open spec fn view(&self) -> HandshakeActionView {
        match self {
            HandshakeAction::Nothing => HandshakeActionView::Nothing,
            HandshakeAction::Send(bytes) => HandshakeActionView::Send(bytes@),
            HandshakeAction::Register => HandshakeActionView::Register,
            HandshakeAction::Close => HandshakeActionView::Close,
        }
    }
}

/// What a [`Handshake`] holds.
pub struct HandshakeView {
    pub address: PeerAddress,
    pub side: ConnectionSide,
    pub local: Challenge,
    pub minimum_version: u32,
    pub state: HandshakeState,
    pub remote: Option<Challenge>,
}

impl HandshakeView {
    /// A handshake that has not begun.
    pub open spec fn initial(
        address: PeerAddress,
        side: ConnectionSide,
        local: Challenge,
        minimum_version: u32,
    ) -> HandshakeView {
        HandshakeView {
            address,
            side,
            local,
            minimum_version,
            state: HandshakeState::Initiated,
            remote: None,
        }
    }

    /// The peer's challenge is known exactly in `Established`, and it was
    /// acceptable.
    pub open spec fn wf(self) -> bool {
        match self.remote {
            Some(challenge) => self.state is Established && challenge.version
                >= self.minimum_version,
            None => !(self.state is Established),
        }
    }

    /// Whether the peer's challenge establishes the connection.
    pub open spec fn accepts(self, bytes: Seq<u8>) -> bool {
        Challenge::parse(bytes) matches Some(challenge) && challenge.version
            >= self.minimum_version
    }

    /// The handshake after an event.
    pub open spec fn next(self, event: HandshakeEventView) -> HandshakeView {
        match (self.state, event) {
            (HandshakeState::Initiated, HandshakeEventView::Begin) => HandshakeView {
                state: HandshakeState::Negotiating,
                ..self
            },
            (HandshakeState::Negotiating, HandshakeEventView::Received(bytes)) => {
                match Challenge::parse(bytes) {
                    None => HandshakeView {
                        state: HandshakeState::Failed(HandshakeFailure::MalformedChallenge),
                        ..self
                    },
                    Some(challenge) => if challenge.version < self.minimum_version {
                        HandshakeView {
                            state: HandshakeState::Failed(HandshakeFailure::BadVersion),
                            ..self
                        }
                    } else {
                        HandshakeView {
                            state: HandshakeState::Established,
                            remote: Some(challenge),
                            ..self
                        }
                    },
                }
            },
            (HandshakeState::Negotiating, HandshakeEventView::TimedOut) => HandshakeView {
                state: HandshakeState::Failed(HandshakeFailure::Timeout),
                ..self
            },
            _ => self,
        }
    }

    /// What the caller has to do after an event.
    pub open spec fn action(self, event: HandshakeEventView) -> HandshakeActionView {
        match (self.state, event) {
            (HandshakeState::Initiated, HandshakeEventView::Begin) => HandshakeActionView::Send(
                self.local.bytes(),
            ),
            (HandshakeState::Negotiating, HandshakeEventView::Received(bytes)) => {
                if self.accepts(bytes) {
                    HandshakeActionView::Register
                } else {
                    HandshakeActionView::Close
                }
            },
            (HandshakeState::Negotiating, HandshakeEventView::TimedOut) => {
                HandshakeActionView::Close
            },
            _ => HandshakeActionView::Nothing,
        }
    }

    /// The handshake after a run of events, first to last.
    pub open spec fn run(self, events: Seq<HandshakeEventView>) -> HandshakeView
        decreases events.len(),
    {
        if events.len() == 0 {
            self
        } else {
            self.run(events.drop_last()).next(events.last())
        }
    }

    /// A final state is final: whatever happens afterwards, the handshake
    /// stays as it is and asks for nothing.
    pub proof fn lemma_final_states_absorb(self, events: Seq<HandshakeEventView>)
        requires
            self.state.is_final(),
        ensures
            self.run(events) == self,
            forall|event: HandshakeEventView| #[trigger]
                self.action(event) == HandshakeActionView::Nothing,
        decreases events.len(),
    {
        if events.len() > 0 {
            self.lemma_final_states_absorb(events.drop_last());
        }
    }

    /// A handshake reaches `Established` only by way of `Negotiating`, and
    /// only on a well-formed challenge of an accepted version: from a fresh
    /// handshake, whatever the events, the state records it.
    pub proof fn lemma_run_keeps_wf(self, events: Seq<HandshakeEventView>)
        requires
            self.wf(),
        ensures
            self.run(events).wf(),
            self.run(events).address == self.address,
            self.run(events).side == self.side,
            self.run(events).local == self.local,
            self.run(events).minimum_version == self.minimum_version,
        decreases events.len(),
    {
        if events.len() > 0 {
            self.lemma_run_keeps_wf(events.drop_last());
        }
    }

    /// One event never takes a handshake from `Initiated` to a final state:
    /// success and failure both lie behind `Negotiating`.
    pub proof fn lemma_no_shortcut(self, event: HandshakeEventView)
        requires
            self.state is Initiated,
        ensures
            !self.next(event).state.is_final(),
            self.next(event).state is Negotiating <==> event is Begin,
    {
    }
}

/// The handshake of one connection.
#[derive(Clone, Copy, Debug, PartialEq, Eq)]
pub struct Handshake {
    address: PeerAddress,
    side: ConnectionSide,
    local: Challenge,
    minimum_version: u32,
    state: HandshakeState,
    remote: Option<Challenge>,
}

impl View for Handshake {
    type V = HandshakeView;

    closed spec fn view(&self) -> HandshakeView {
        HandshakeView {
            address: self.address,
            side: self.side,
            local: self.local,
            minimum_version: self.minimum_version,
            state: self.state,
            remote: self.remote,
        }
    }
}

impl Handshake {
    /// A handshake for a connection that has just opened. `local` is what
    /// this node says of itself; a peer must speak at least
    /// `minimum_version`.
    pub fn new(
        address: PeerAddress,
        side: ConnectionSide,
        local: Challenge,
        minimum_version: u32,
    ) -> (handshake: Handshake)
        ensures
            handshake@ == HandshakeView::initial(address, side, local, minimum_version),
            handshake@.wf(),
    {
        Handshake {
            address,
            side,
            local,
            minimum_version,
            state: HandshakeState::Initiated,
            remote: None,
        }
    }

    /// The remote endpoint.
    pub fn address(&self) -> (address: PeerAddress)
        ensures
            address == self@.address,
    {
        self.address
    }

    /// Which end of the connection this node is.
    pub fn side(&self) -> (side: ConnectionSide)
        ensures
            side == self@.side,
    {
        self.side
    }

    /// Where the handshake stands.
    pub fn state(&self) -> (state: HandshakeState)
        ensures
            state == self@.state,
    {
        self.state
    }

    /// What the peer said of itself; known once the handshake is established.
    pub fn remote(&self) -> (remote: Option<Challenge>)
        ensures
            remote == self@.remote,
    {
        self.remote
    }

    /// Whether the connection is established.
    pub fn is_established(&self) -> (established: bool)
        ensures
            established == (self@.state is Established),
    {
        match self.state {
            HandshakeState::Established => true,
            _ => false,
        }
    }

    /// Feeds one event to the handshake and says what to do next.
    pub fn step(&mut self, event: HandshakeEvent) -> (action: HandshakeAction)
        requires
            old(self)@.wf(),
        ensures
            final(self)@ == old(self)@.next(event@),
            action@ == old(self)@.action(event@),
            final(self)@.wf(),
    {
        match (self.state, event) {
            (HandshakeState::Initiated, HandshakeEvent::Begin) => {
                self.state = HandshakeState::Negotiating;
                HandshakeAction::Send(self.local.to_bytes())
            },
            (HandshakeState::Negotiating, HandshakeEvent::Received(bytes)) => {
                match Challenge::from_bytes(bytes.as_slice()) {
                    None => {
                        self.state = HandshakeState::Failed(HandshakeFailure::MalformedChallenge);
                        HandshakeAction::Close
                    },
                    Some(challenge) => {
                        if challenge.version < self.minimum_version {
                            self.state = HandshakeState::Failed(HandshakeFailure::BadVersion);
                            HandshakeAction::Close
                        } else {
                            self.state = HandshakeState::Established;
                            self.remote = Some(challenge);
                            HandshakeAction::Register
                        }
                    },
                }
            },
            (HandshakeState::Negotiating, HandshakeEvent::TimedOut) => {
                self.state = HandshakeState::Failed(HandshakeFailure::Timeout);
                HandshakeAction::Close
            },
            _ => HandshakeAction::Nothing,
        }
    }
}

} // verus!

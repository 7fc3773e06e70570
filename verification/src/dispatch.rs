//! The dispatcher: what happens to each message that a connection delivers.
//!
//! A message is processed in two steps, because most messages need an answer
//! from the ledger or the memory pool, and neither may be asked while the
//! router is locked.
//!
//! 1. [`process_message`] files the message in the sender's log and says what
//!    is [`Pending`]: what the caller has to find out.
//! 2. [`conclude`] takes the [`Reply`], lets the role's handler judge, and
//!    returns the [`Action`]s to perform, in order. On a violation these are
//!    a disconnect notice and the closing of the transport, and the router
//!    has restricted the address by then.
//!
//! A message from an address that is not in the table is dropped: nothing is
//! filed, no handler runs, nothing is sent.

use crate::address::PeerAddress;
use crate::failures::{FailureLog, FailureLogView};
use crate::message::{DisconnectReason, Message, MessageView};
use crate::peer::SeenMessage;
use crate::router::{Router, RouterView};
use crate::routes::{bytes_view, Handled, HandledView, Routes};
use rand::Rng;
use vstd::prelude::*;

verus! {

/// What the caller has to find out before a message can be concluded.
#[derive(Debug, PartialEq, Eq)]
pub enum Pending {
    /// The sender is not in the table: the message is dropped.
    Dropped,
    /// The peer said that it is leaving. Nothing has to be asked.
    Departure,
    /// The ledger's latest epoch challenge and latest block.
    Puzzle,
    /// Whether the memory pool accepts this solution.
    Solution(Vec<u8>),
    /// Whether the memory pool accepts this transaction.
    Transaction(Vec<u8>),
    /// The peer answered a question that this node never asks. Nothing has
    /// to be asked.
    Unsolicited,
}

/// What a [`Pending`] holds.
pub enum PendingView {
    Dropped,
    Departure,
    Puzzle,
    Solution(Seq<u8>),
    Transaction(Seq<u8>),
    Unsolicited,
}

impl View for Pending {
    type V = PendingView;

    open spec fn view(&self) -> PendingView {
        match self {
            Pending::Dropped => PendingView::Dropped,
            Pending::Departure => PendingView::Departure,
            Pending::Puzzle => PendingView::Puzzle,
            Pending::Solution(solution) => PendingView::Solution(solution@),
            Pending::Transaction(transaction) => PendingView::Transaction(transaction@),
            Pending::Unsolicited => PendingView::Unsolicited,
        }
    }
}

/// What the ledger or the memory pool answered.
#[derive(Debug, PartialEq, Eq)]
pub enum Reply {
    /// Nothing was asked.
    Nothing,
    /// The ledger's latest epoch challenge, `None` where the lookup failed,
    /// and its latest block.
    Puzzle { epoch_challenge: Option<Vec<u8>>, block: Vec<u8> },
    /// Whether the memory pool accepted what it was offered.
    Added(bool),
}

/// What a [`Reply`] holds.
pub enum ReplyView {
    Nothing,
    Puzzle { epoch_challenge: Option<Seq<u8>>, block: Seq<u8> },
    Added(bool),
}

impl View for Reply {
    type V = ReplyView;

    open spec fn view(&self) -> ReplyView {
        match self {
            Reply::Nothing => ReplyView::Nothing,
            Reply::Puzzle { epoch_challenge, block } => ReplyView::Puzzle {
                epoch_challenge: bytes_view(*epoch_challenge),
                block: block@,
            },
            Reply::Added(accepted) => ReplyView::Added(*accepted),
        }
    }
}

impl ReplyView {
    /// The epoch challenge that the reply carries, if it carries one.
    pub open spec fn epoch_challenge(self) -> Option<Seq<u8>> {
        match self {
            ReplyView::Puzzle { epoch_challenge, .. } => epoch_challenge,
            _ => None,
        }
    }

    /// The block that the reply carries; empty where it carries none.
    pub open spec fn block(self) -> Seq<u8> {
        match self {
            ReplyView::Puzzle { block, .. } => block,
            _ => Seq::empty(),
        }
    }

    /// Whether the memory pool accepted.
    pub open spec fn accepted(self) -> bool {
        self == ReplyView::Added(true)
    }
}

/// What the caller has to do to the connection.
#[derive(Debug, PartialEq, Eq)]
pub enum Action {
    /// Send the message to the peer; a failure to send is not pursued.
    Send(Message),
    /// Close the transport to the peer.
    Disconnect,
}

/// What an [`Action`] holds.
pub enum ActionView {
    Send(MessageView),
    Disconnect,
}

impl View for Action {
    type V = ActionView;

    open spec fn view(&self) -> ActionView {
        match self {
            Action::Send(message) => ActionView::Send(message@),
            Action::Disconnect => ActionView::Disconnect,
        }
    }
}

/// The views of a list of actions.
pub open spec fn actions_view(actions: Seq<Action>) -> Seq<ActionView> {
    actions.map_values(|a: Action| a@)
}

/// What a message from a connected peer leaves pending.
pub open spec fn pending_of(message: MessageView) -> PendingView {
    match message {
        MessageView::Disconnect { .. } => PendingView::Departure,
        MessageView::PuzzleRequest => PendingView::Puzzle,
        MessageView::PuzzleResponse { .. } => PendingView::Unsolicited,
        MessageView::UnconfirmedSolution { solution } => PendingView::Solution(solution),
        MessageView::UnconfirmedTransaction { transaction } => PendingView::Transaction(
            transaction,
        ),
    }
}

/// What is pending after a message from `address`: nothing but a drop where
/// the address is not in the table.
pub open spec fn pending_after(
    router: RouterView,
    address: PeerAddress,
    message: MessageView,
) -> PendingView {
    if router.is_connected(address) {
        pending_of(message)
    } else {
        PendingView::Dropped
    }
}

/// The judgement on a pending message, given the reply.
///
/// A dropped message and a departure are not judged: they count as
/// compliant and have no answer. A puzzle request and an unconfirmed
/// solution or transaction are judged by the role. An unsolicited answer is
/// a violation.
pub open spec fn judgement<R: Routes>(
    role: &R,
    address: PeerAddress,
    pending: PendingView,
    reply: ReplyView,
) -> HandledView {
    match pending {
        PendingView::Dropped => HandledView { compliant: true, reply: None },
        PendingView::Departure => HandledView { compliant: true, reply: None },
        PendingView::Puzzle => role.on_puzzle_request(
            address,
            reply.epoch_challenge(),
            reply.block(),
        ),
        PendingView::Solution(solution) => HandledView {
            compliant: role.on_unconfirmed_solution(address, solution, reply.accepted()),
            reply: None,
        },
        PendingView::Transaction(transaction) => HandledView {
            compliant: role.on_unconfirmed_transaction(address, transaction, reply.accepted()),
            reply: None,
        },
        PendingView::Unsolicited => HandledView { compliant: false, reply: None },
    }
}

/// The notice that a violator is sent.
pub open spec fn violation_notice() -> MessageView {
    MessageView::Disconnect { reason: DisconnectReason::ProtocolViolation }
}

/// The actions that follow from a judgement, in order.
pub open spec fn actions_for(pending: PendingView, handled: HandledView) -> Seq<ActionView> {
    if pending is Dropped {
        Seq::empty()
    } else if !handled.compliant {
        seq![ActionView::Send(violation_notice()), ActionView::Disconnect]
    } else if pending is Departure {
        seq![ActionView::Disconnect]
    } else {
        match handled.reply {
            Some(message) => seq![ActionView::Send(message)],
            None => Seq::empty(),
        }
    }
}

/// The router after a judgement at `now`: a violator is restricted, a peer
/// that leaves is removed, and otherwise nothing changes.
pub open spec fn router_for(
    router: RouterView,
    address: PeerAddress,
    pending: PendingView,
    handled: HandledView,
    now: u64,
) -> RouterView {
    if pending is Dropped {
        router
    } else if !handled.compliant {
        router.restrict(address, DisconnectReason::ProtocolViolation, now)
    } else if pending is Departure {
        router.remove(address)
    } else {
        router
    }
}

/// Draws the nonce under which a message is filed.
///
/// Calls `rand::thread_rng().gen()`. Nothing is claimed of the value: to the
/// verifier any `u32` may come back, and two calls may differ. The thread's
/// generator takes its seed from the operating system, when a thread first
/// uses it and again whenever it reseeds, and panics if the system then has
/// no seed to give.
#[verifier::external_body]
fn fresh_nonce() -> (nonce: u32) {
    rand::thread_rng().gen()
}

/// Files a message from `address` under the given nonce and says what is
/// pending.
///
/// Where the address is in the table, the message's identifier and the nonce
/// enter that peer's log and the result is what the message asks for. Where
/// it is not, the router is unchanged and the message is dropped.
pub fn file_message(router: &mut Router, address: PeerAddress, message: Message, nonce: u32) -> (pending:
    Pending)
    requires
        old(router)@.wf(),
    ensures
        final(router)@ == old(router)@.record(address, SeenMessage { id: message@.id(), nonce }),
        pending@ == pending_after(old(router)@, address, message@),
        pending@ is Dropped <==> !old(router)@.is_connected(address),
        !old(router)@.is_connected(address) ==> final(router)@ == old(router)@,
        final(router)@.restricted == old(router)@.restricted,
        final(router)@.peers.len() == old(router)@.peers.len(),
        forall|other: PeerAddress| #[trigger]
            final(router)@.is_connected(other) == old(router)@.is_connected(other),
        final(router)@.wf(),
{
    if !router.record_seen(address, message.id(), nonce) {
        return Pending::Dropped;
    }
    match message {
        Message::Disconnect { .. } => Pending::Departure,
        Message::PuzzleRequest => Pending::Puzzle,
        Message::PuzzleResponse { .. } => Pending::Unsolicited,
        Message::UnconfirmedSolution { solution } => Pending::Solution(solution),
        Message::UnconfirmedTransaction { transaction } => Pending::Transaction(transaction),
    }
}

/// Takes in a message that a connection delivered: files it in the sender's
/// log under a fresh random nonce and says what is pending.
///
/// Whatever nonce was drawn, the outcome is that of [`file_message`] with
/// that nonce.
pub fn process_message(router: &mut Router, address: PeerAddress, message: Message) -> (pending:
    Pending)
    requires
        old(router)@.wf(),
    ensures
        exists|nonce: u32|
            final(router)@ == #[trigger] old(router)@.record(
                address,
                SeenMessage { id: message@.id(), nonce },
            ),
        pending@ == pending_after(old(router)@, address, message@),
        pending@ is Dropped <==> !old(router)@.is_connected(address),
        !old(router)@.is_connected(address) ==> final(router)@ == old(router)@,
        final(router)@.restricted == old(router)@.restricted,
        final(router)@.peers.len() == old(router)@.peers.len(),
        forall|other: PeerAddress| #[trigger]
            final(router)@.is_connected(other) == old(router)@.is_connected(other),
        final(router)@.wf(),
{
    let nonce: u32 = fresh_nonce();
    file_message(router, address, message, nonce)
}

/// Lets the role judge a pending message.
fn judge<R: Routes>(role: &R, address: PeerAddress, pending: Pending, reply: Reply) -> (handled:
    Handled)
    ensures
        handled@ == judgement(role, address, pending@, reply@),
{
    match pending {
        Pending::Dropped => Handled { compliant: true, reply: None },
        Pending::Departure => Handled { compliant: true, reply: None },
        Pending::Puzzle => match reply {
            Reply::Puzzle { epoch_challenge, block } => role.puzzle_request(
                address,
                epoch_challenge,
                block,
            ),
            _ => {
                let block: Vec<u8> = Vec::new();
                assert(block@ =~= reply@.block());
                role.puzzle_request(address, None, block)
            },
        },
        Pending::Solution(solution) => {
            let accepted = match reply {
                Reply::Added(accepted) => accepted,
                _ => false,
            };
            Handled {
                compliant: role.unconfirmed_solution(address, &solution, accepted),
                reply: None,
            }
        },
        Pending::Transaction(transaction) => {
            let accepted = match reply {
                Reply::Added(accepted) => accepted,
                _ => false,
            };
            Handled {
                compliant: role.unconfirmed_transaction(address, &transaction, accepted),
                reply: None,
            }
        },
        Pending::Unsolicited => Handled { compliant: false, reply: None },
    }
}

/// Concludes a pending message at `now`, given the reply of the ledger or
/// the memory pool, and returns what the caller has to do, in order.
///
/// - A dropped message leads to nothing.
/// - On a violation the actions are exactly one disconnect notice that names
///   the violation, then the closing of the transport; and when this
///   function returns the address is restricted and out of the table, so
///   that every later message from it is dropped.
/// - A peer that leaves is removed from the table, and its transport closed.
/// - Otherwise the handler's answer, if there is one, is sent, and the
///   router is unchanged.
pub fn conclude<R: Routes>(
    router: &mut Router,
    role: &R,
    address: PeerAddress,
    pending: Pending,
    reply: Reply,
    now: u64,
) -> (actions: Vec<Action>)
    requires
        old(router)@.wf(),
    ensures
        actions_view(actions@) == actions_for(
            pending@,
            judgement(role, address, pending@, reply@),
        ),
        final(router)@ == router_for(
            old(router)@,
            address,
            pending@,
            judgement(role, address, pending@, reply@),
            now,
        ),
        actions@.len() == actions_for(pending@, judgement(role, address, pending@, reply@)).len(),
        forall|i: int|
            0 <= i < actions@.len() ==> (#[trigger] actions@[i])@ == actions_for(
                pending@,
                judgement(role, address, pending@, reply@),
            )[i],
        !judgement(role, address, pending@, reply@).compliant ==> {
            &&& actions_view(actions@) == seq![
                ActionView::Send(violation_notice()),
                ActionView::Disconnect,
            ]
            &&& !final(router)@.is_connected(address)
            &&& final(router)@.blocks_until_expiry(address, now)
        },
        final(router)@.wf(),
{
    let ghost pending_view = pending@;
    let dropped = match pending {
        Pending::Dropped => true,
        _ => false,
    };
    let departure = match pending {
        Pending::Departure => true,
        _ => false,
    };
    let handled = judge(role, address, pending, reply);
    let mut actions: Vec<Action> = Vec::new();
    if dropped {
        assert(actions_view(actions@) =~= actions_for(pending_view, handled@));
    } else if !handled.compliant {
        router.restrict(address, DisconnectReason::ProtocolViolation, now);
        actions.push(
            Action::Send(Message::Disconnect { reason: DisconnectReason::ProtocolViolation }),
        );
        actions.push(Action::Disconnect);
        assert(actions_view(actions@) =~= actions_for(pending_view, handled@));
    } else if departure {
        router.remove(address);
        actions.push(Action::Disconnect);
        assert(actions_view(actions@) =~= actions_for(pending_view, handled@));
    } else {
        match handled.reply {
            Some(message) => {
                actions.push(Action::Send(message));
                assert(actions_view(actions@) =~= actions_for(pending_view, handled@));
            },
            None => {
                assert(actions_view(actions@) =~= actions_for(pending_view, handled@));
            },
        }
    }
    actions
}

/// After a violation nothing more is dispatched for the address: whatever
/// it sends next is dropped, until it has registered again.
pub proof fn lemma_violator_is_dropped<R: Routes>(
    router: RouterView,
    role: &R,
    address: PeerAddress,
    pending: PendingView,
    reply: ReplyView,
    now: u64,
    next: MessageView,
)
    requires
        router.wf(),
        !(pending is Dropped),
        !judgement(role, address, pending, reply).compliant,
    ensures
        router_for(router, address, pending, judgement(role, address, pending, reply), now)
            == router.restrict(address, DisconnectReason::ProtocolViolation, now),
        pending_after(
            router_for(router, address, pending, judgement(role, address, pending, reply), now),
            address,
            next,
        ) is Dropped,
        actions_for(pending, judgement(role, address, pending, reply)) == seq![
            ActionView::Send(violation_notice()),
            ActionView::Disconnect,
        ],
{
    router.lemma_restrict(address, DisconnectReason::ProtocolViolation, now);
}

/// A compliant message that is neither dropped nor a departure leaves the
/// router as it is and closes nothing: at most the handler's answer is sent.
pub proof fn lemma_compliant_keeps_the_connection<R: Routes>(
    router: RouterView,
    role: &R,
    address: PeerAddress,
    pending: PendingView,
    reply: ReplyView,
    now: u64,
)
    requires
        judgement(role, address, pending, reply).compliant,
        !(pending is Departure),
    ensures
        router_for(router, address, pending, judgement(role, address, pending, reply), now)
            == router,
        forall|i: int|
            0 <= i < actions_for(pending, judgement(role, address, pending, reply)).len()
                ==> #[trigger] actions_for(
                pending,
                judgement(role, address, pending, reply),
            )[i] is Send,
        actions_for(pending, judgement(role, address, pending, reply)).len() <= 1,
{
}

/// The actions that follow a frame that did not decode.
pub open spec fn actions_for_decode_failure(violator: bool) -> Seq<ActionView> {
    if violator {
        seq![ActionView::Send(violation_notice()), ActionView::Disconnect]
    } else {
        seq![ActionView::Disconnect]
    }
}

/// The router after a frame from `address` did not decode at `now`: the
/// address leaves the table, and as a violator it is restricted as well.
pub open spec fn router_for_decode_failure(
    router: RouterView,
    address: PeerAddress,
    violator: bool,
    now: u64,
) -> RouterView {
    if violator {
        router.restrict(address, DisconnectReason::ProtocolViolation, now)
    } else {
        router.remove(address)
    }
}

/// Deals with a frame from `address` that did not decode.
///
/// The failure ends the connection: the address leaves the table and the
/// transport is to be closed. It also counts against the address. Where it
/// is the one that reaches the log's limit, the address is dealt with as a
/// violator: it is sent the notice of a violation first, and it is
/// restricted from `now` on.
pub fn decode_failed(
    router: &mut Router,
    failures: &mut FailureLog,
    address: PeerAddress,
    now: u64,
) -> (actions: Vec<Action>)
    requires
        old(router)@.wf(),
        old(failures)@.wf(),
    ensures
        actions_view(actions@) == actions_for_decode_failure(old(failures)@.escalates(address)),
        final(router)@ == router_for_decode_failure(
            old(router)@,
            address,
            old(failures)@.escalates(address),
            now,
        ),
        final(failures)@ == old(failures)@.strike(address),
        actions@.len() == actions_for_decode_failure(old(failures)@.escalates(address)).len(),
        forall|i: int|
            0 <= i < actions@.len() ==> (#[trigger] actions@[i])@
                == actions_for_decode_failure(old(failures)@.escalates(address))[i],
        !final(router)@.is_connected(address),
        old(failures)@.escalates(address) ==> final(router)@.blocks_until_expiry(address, now),
        final(router)@.wf(),
        final(failures)@.wf(),
{
    let violator = failures.strike(address);
    let mut actions: Vec<Action> = Vec::new();
    if violator {
        router.restrict(address, DisconnectReason::ProtocolViolation, now);
        actions.push(
            Action::Send(Message::Disconnect { reason: DisconnectReason::ProtocolViolation }),
        );
        actions.push(Action::Disconnect);
        assert(actions_view(actions@) =~= actions_for_decode_failure(violator));
    } else {
        router.remove(address);
        actions.push(Action::Disconnect);
        assert(actions_view(actions@) =~= actions_for_decode_failure(violator));
    }
    actions
}

} // verus!

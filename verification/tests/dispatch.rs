use beacon_node::address::{ConnectionSide, PeerAddress};
use beacon_node::dispatch::{
    conclude, decode_failed, file_message, process_message, Action, Pending, Reply,
};
use beacon_node::failures::FailureLog;
use beacon_node::handshake::{Challenge, Handshake, HandshakeEvent, NodeRole};
use beacon_node::message::{DataPayload, DisconnectReason, Message};
use beacon_node::peer::SeenMessage;
use beacon_node::router::{Admission, RejectReason, RestrictedPeer, Router};
use beacon_node::routes::{Beacon, Handled, Routes, MAXIMUM_NUMBER_OF_PEERS};

fn peer(n: u16) -> PeerAddress {
    PeerAddress::new(0x0a00_0000 + n as u128, 4000 + n)
}

fn router_with(peers: &[u16]) -> Router {
    let mut router = Router::new(Beacon.maximum_peers(), 100, 16);
    for n in peers {
        let local = Challenge { version: 1, role: NodeRole::Beacon };
        let mut handshake = Handshake::new(peer(*n), ConnectionSide::Responder, local, 1);
        handshake.step(HandshakeEvent::Begin);
        handshake.step(HandshakeEvent::Received(vec![1, 0, 0, 0, 2]));
        router.register(&handshake, 0).unwrap();
    }
    router
}

fn notice() -> Message {
    Message::Disconnect { reason: DisconnectReason::ProtocolViolation }
}

#[test]
fn a_beacon_keeps_ten_peers() {
    assert_eq!(Beacon.maximum_peers(), 10);
    assert_eq!(MAXIMUM_NUMBER_OF_PEERS, 10);
}

#[test]
fn a_puzzle_request_is_answered_with_challenge_and_block() {
    let handled = Beacon.puzzle_request(peer(1), Some(vec![0xe]), vec![0xb, 0xb]);
    assert_eq!(
        handled,
        Handled {
            compliant: true,
            reply: Some(Message::PuzzleResponse {
                epoch_challenge: vec![0xe],
                block: DataPayload::Inline(vec![0xb, 0xb]),
            }),
        }
    );
}

#[test]
fn a_puzzle_request_without_a_challenge_is_answered_with_nothing() {
    let handled = Beacon.puzzle_request(peer(1), None, vec![0xb]);
    assert_eq!(handled, Handled { compliant: true, reply: None });
}

#[test]
fn a_beacon_keeps_the_connection_whatever_the_pool_says() {
    assert!(Beacon.unconfirmed_solution(peer(1), &vec![1], true));
    assert!(Beacon.unconfirmed_solution(peer(1), &vec![1], false));
    assert!(Beacon.unconfirmed_transaction(peer(1), &vec![1], true));
    assert!(Beacon.unconfirmed_transaction(peer(1), &vec![1], false));
}

#[test]
fn puzzle_request_with_a_challenge_sends_one_response() {
    let mut router = router_with(&[1]);
    let pending = process_message(&mut router, peer(1), Message::PuzzleRequest);
    assert_eq!(pending, Pending::Puzzle);
    let reply = Reply::Puzzle { epoch_challenge: Some(vec![0xe, 0xe]), block: vec![0xb] };
    let actions = conclude(&mut router, &Beacon, peer(1), pending, reply, 5);
    assert_eq!(
        actions,
        vec![Action::Send(Message::PuzzleResponse {
            epoch_challenge: vec![0xe, 0xe],
            block: DataPayload::Inline(vec![0xb]),
        })]
    );
    assert!(router.is_connected(peer(1)));
    assert_eq!(router.number_of_restricted_peers(), 0);
}

#[test]
fn puzzle_request_without_a_challenge_sends_nothing() {
    let mut router = router_with(&[1]);
    let pending = process_message(&mut router, peer(1), Message::PuzzleRequest);
    let reply = Reply::Puzzle { epoch_challenge: None, block: vec![0xb] };
    let actions = conclude(&mut router, &Beacon, peer(1), pending, reply, 5);
    assert_eq!(actions, vec![]);
    assert!(router.is_connected(peer(1)));
    assert_eq!(router.number_of_restricted_peers(), 0);
}

#[test]
fn puzzle_request_without_any_reply_sends_nothing() {
    let mut router = router_with(&[1]);
    let actions = conclude(&mut router, &Beacon, peer(1), Pending::Puzzle, Reply::Nothing, 5);
    assert_eq!(actions, vec![]);
    let actions = conclude(&mut router, &Beacon, peer(1), Pending::Puzzle, Reply::Added(true), 5);
    assert_eq!(actions, vec![]);
    assert!(router.is_connected(peer(1)));
}

#[test]
fn a_solution_that_the_pool_has_already_keeps_the_connection() {
    let mut router = router_with(&[1, 2]);
    let message = Message::UnconfirmedSolution { solution: vec![1, 2, 3] };
    let pending = process_message(&mut router, peer(1), message);
    assert_eq!(pending, Pending::Solution(vec![1, 2, 3]));
    let actions = conclude(&mut router, &Beacon, peer(1), pending, Reply::Added(false), 5);
    assert_eq!(actions, vec![]);
    assert!(router.is_connected(peer(1)));
    assert!(!router.is_restricted(peer(1), 5));
    assert_eq!(router.number_of_restricted_peers(), 0);
    assert_eq!(router.connected_peers(), vec![peer(1), peer(2)]);
}

#[test]
fn an_accepted_solution_keeps_the_connection() {
    let mut router = router_with(&[1]);
    let message = Message::UnconfirmedSolution { solution: vec![9] };
    let pending = process_message(&mut router, peer(1), message);
    let actions = conclude(&mut router, &Beacon, peer(1), pending, Reply::Added(true), 5);
    assert_eq!(actions, vec![]);
    assert!(router.is_connected(peer(1)));
}

#[test]
fn a_rejected_transaction_keeps_the_connection() {
    let mut router = router_with(&[1]);
    let message = Message::UnconfirmedTransaction { transaction: vec![4, 4] };
    let pending = process_message(&mut router, peer(1), message);
    assert_eq!(pending, Pending::Transaction(vec![4, 4]));
    let actions = conclude(&mut router, &Beacon, peer(1), pending, Reply::Added(false), 5);
    assert_eq!(actions, vec![]);
    assert!(router.is_connected(peer(1)));
    assert_eq!(router.number_of_restricted_peers(), 0);
}

#[test]
fn a_violation_sends_one_notice_closes_and_restricts() {
    let mut router = router_with(&[1, 2]);
    // a compliant message first, then an answer that nobody asked for
    let pending = process_message(&mut router, peer(1), Message::PuzzleRequest);
    let reply = Reply::Puzzle { epoch_challenge: Some(vec![1]), block: vec![2] };
    conclude(&mut router, &Beacon, peer(1), pending, reply, 40);
    let unsolicited = Message::PuzzleResponse {
        epoch_challenge: vec![1],
        block: DataPayload::Inline(vec![2]),
    };
    let pending = process_message(&mut router, peer(1), unsolicited);
    assert_eq!(pending, Pending::Unsolicited);
    let actions = conclude(&mut router, &Beacon, peer(1), pending, Reply::Nothing, 50);
    assert_eq!(actions, vec![Action::Send(notice()), Action::Disconnect]);
    let notices = actions.iter().filter(|a| **a == Action::Send(notice())).count();
    assert_eq!(notices, 1);
    assert!(!router.is_connected(peer(1)));
    assert_eq!(
        router.restricted_peers(),
        &vec![RestrictedPeer {
            address: peer(1),
            restricted_at: 50,
            reason: DisconnectReason::ProtocolViolation
        }]
    );
    assert_eq!(
        router.admission(peer(1), 149),
        Admission::Reject(RejectReason::Restricted)
    );
    assert_eq!(router.admission(peer(1), 150), Admission::Accept);
    // the other peer is untouched
    assert!(router.is_connected(peer(2)));
}

#[test]
fn nothing_is_dispatched_after_a_violation() {
    let mut router = router_with(&[1]);
    let unsolicited = Message::PuzzleResponse {
        epoch_challenge: vec![],
        block: DataPayload::Reference(vec![]),
    };
    let pending = process_message(&mut router, peer(1), unsolicited);
    conclude(&mut router, &Beacon, peer(1), pending, Reply::Nothing, 50);
    let pending = process_message(&mut router, peer(1), Message::PuzzleRequest);
    assert_eq!(pending, Pending::Dropped);
    let reply = Reply::Puzzle { epoch_challenge: Some(vec![1]), block: vec![2] };
    let actions = conclude(&mut router, &Beacon, peer(1), pending, reply, 51);
    assert_eq!(actions, vec![]);
}

#[test]
fn a_message_of_an_unknown_peer_is_dropped() {
    let mut router = router_with(&[1]);
    let message = Message::UnconfirmedSolution { solution: vec![1] };
    let pending = process_message(&mut router, peer(7), message);
    assert_eq!(pending, Pending::Dropped);
    let actions = conclude(&mut router, &Beacon, peer(7), pending, Reply::Added(false), 5);
    assert_eq!(actions, vec![]);
    assert_eq!(router.connected_peers(), vec![peer(1)]);
    assert_eq!(router.number_of_restricted_peers(), 0);
    assert!(router.connected_peer(peer(1)).unwrap().seen_messages().is_empty());
}

#[test]
fn a_peer_that_leaves_is_removed_and_not_restricted() {
    let mut router = router_with(&[1, 2]);
    let message = Message::Disconnect { reason: DisconnectReason::ShuttingDown };
    let pending = process_message(&mut router, peer(1), message);
    assert_eq!(pending, Pending::Departure);
    let actions = conclude(&mut router, &Beacon, peer(1), pending, Reply::Nothing, 5);
    assert_eq!(actions, vec![Action::Disconnect]);
    assert!(!router.is_connected(peer(1)));
    assert!(router.is_connected(peer(2)));
    assert_eq!(router.number_of_restricted_peers(), 0);
    assert_eq!(router.admission(peer(1), 5), Admission::Accept);
}

#[test]
fn a_message_is_filed_under_the_given_nonce() {
    let mut router = router_with(&[1]);
    let message = Message::UnconfirmedTransaction { transaction: vec![1] };
    let pending = file_message(&mut router, peer(1), message, 0xdead_beef);
    assert_eq!(pending, Pending::Transaction(vec![1]));
    let pending = file_message(&mut router, peer(1), Message::PuzzleRequest, 7);
    assert_eq!(pending, Pending::Puzzle);
    assert_eq!(
        router.connected_peer(peer(1)).unwrap().seen_messages(),
        &vec![SeenMessage { id: 4, nonce: 0xdead_beef }, SeenMessage { id: 1, nonce: 7 }]
    );
}

#[test]
fn every_processed_message_is_filed_under_its_identifier() {
    let mut router = router_with(&[1]);
    process_message(&mut router, peer(1), Message::PuzzleRequest);
    let log = router.connected_peer(peer(1)).unwrap().seen_messages().clone();
    assert_eq!(log.len(), 1);
    assert_eq!(log[0].id, 1);
    process_message(&mut router, peer(1), Message::UnconfirmedSolution { solution: vec![] });
    let log = router.connected_peer(peer(1)).unwrap().seen_messages().clone();
    assert_eq!(log.len(), 2);
    assert_eq!(log[1].id, 3);
}

#[test]
fn nonces_are_drawn_afresh() {
    let mut router = Router::new(1, 100, 64);
    let local = Challenge { version: 1, role: NodeRole::Beacon };
    let mut handshake = Handshake::new(peer(1), ConnectionSide::Responder, local, 1);
    handshake.step(HandshakeEvent::Begin);
    handshake.step(HandshakeEvent::Received(vec![1, 0, 0, 0, 2]));
    router.register(&handshake, 0).unwrap();
    for _ in 0..32 {
        process_message(&mut router, peer(1), Message::PuzzleRequest);
    }
    let log = router.connected_peer(peer(1)).unwrap().seen_messages().clone();
    // thirty-two draws of thirty-two bits: all equal only if nothing is drawn
    assert!(log.len() > 1);
    assert!(log.iter().any(|entry| entry.nonce != log[0].nonce));
}

#[test]
fn one_decode_failure_closes_without_restricting() {
    let mut router = router_with(&[1, 2]);
    let mut failures = FailureLog::new(8, 3);
    let actions = decode_failed(&mut router, &mut failures, peer(1), 10);
    assert_eq!(actions, vec![Action::Disconnect]);
    assert!(!router.is_connected(peer(1)));
    assert!(router.is_connected(peer(2)));
    assert_eq!(router.number_of_restricted_peers(), 0);
    assert_eq!(router.admission(peer(1), 10), Admission::Accept);
    assert_eq!(failures.failures_of(peer(1)), 1);
}

#[test]
fn repeated_decode_failures_are_a_violation() {
    let mut router = router_with(&[1]);
    let mut failures = FailureLog::new(8, 3);
    assert_eq!(
        decode_failed(&mut router, &mut failures, peer(1), 10),
        vec![Action::Disconnect]
    );
    assert_eq!(
        decode_failed(&mut router, &mut failures, peer(1), 11),
        vec![Action::Disconnect]
    );
    assert_eq!(router.number_of_restricted_peers(), 0);
    let actions = decode_failed(&mut router, &mut failures, peer(1), 12);
    assert_eq!(actions, vec![Action::Send(notice()), Action::Disconnect]);
    assert!(!router.is_connected(peer(1)));
    assert_eq!(
        router.admission(peer(1), 111),
        Admission::Reject(RejectReason::Restricted)
    );
    assert_eq!(router.admission(peer(1), 112), Admission::Accept);
    assert_eq!(failures.failures_of(peer(1)), 0);
}

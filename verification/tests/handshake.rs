use beacon_node::address::{ConnectionSide, PeerAddress};
use beacon_node::handshake::{
    Challenge, Handshake, HandshakeAction, HandshakeEvent, HandshakeFailure, HandshakeState,
    NodeRole, CHALLENGE_LEN,
};

fn fresh() -> Handshake {
    Handshake::new(
        PeerAddress::new(0x7f00_0001, 4130),
        ConnectionSide::Responder,
        Challenge { version: 7, role: NodeRole::Beacon },
        5,
    )
}

fn negotiating() -> Handshake {
    let mut handshake = fresh();
    handshake.step(HandshakeEvent::Begin);
    handshake
}

#[test]
fn challenge_bytes_are_version_then_role() {
    let challenge = Challenge { version: 0x0102_0304, role: NodeRole::Prover };
    assert_eq!(challenge.to_bytes(), vec![4, 3, 2, 1, 2]);
    assert_eq!(Challenge::from_bytes(&[4, 3, 2, 1, 2]), Some(challenge));
    assert_eq!(CHALLENGE_LEN, 5);
}

#[test]
fn every_role_has_its_code() {
    let roles = [
        (NodeRole::Beacon, 0u8),
        (NodeRole::Validator, 1),
        (NodeRole::Prover, 2),
        (NodeRole::Client, 3),
    ];
    for (role, code) in roles {
        assert_eq!(role.to_code(), code);
        assert_eq!(NodeRole::of_code(code), Some(role));
    }
    assert_eq!(NodeRole::of_code(4), None);
}

#[test]
fn malformed_challenges_do_not_parse() {
    assert_eq!(Challenge::from_bytes(&[]), None);
    assert_eq!(Challenge::from_bytes(&[1, 0, 0, 0]), None);
    assert_eq!(Challenge::from_bytes(&[1, 0, 0, 0, 0, 0]), None);
    assert_eq!(Challenge::from_bytes(&[1, 0, 0, 0, 4]), None);
}

#[test]
fn a_fresh_handshake_is_initiated() {
    let handshake = fresh();
    assert_eq!(handshake.state(), HandshakeState::Initiated);
    assert_eq!(handshake.address(), PeerAddress::new(0x7f00_0001, 4130));
    assert_eq!(handshake.side(), ConnectionSide::Responder);
    assert_eq!(handshake.remote(), None);
    assert!(!handshake.is_established());
}

#[test]
fn beginning_sends_the_local_challenge() {
    let mut handshake = fresh();
    let action = handshake.step(HandshakeEvent::Begin);
    assert_eq!(action, HandshakeAction::Send(vec![7, 0, 0, 0, 0]));
    assert_eq!(handshake.state(), HandshakeState::Negotiating);
}

#[test]
fn an_accepted_challenge_establishes_the_connection() {
    let mut handshake = negotiating();
    let action = handshake.step(HandshakeEvent::Received(vec![5, 0, 0, 0, 3]));
    assert_eq!(action, HandshakeAction::Register);
    assert_eq!(handshake.state(), HandshakeState::Established);
    assert!(handshake.is_established());
    assert_eq!(handshake.remote(), Some(Challenge { version: 5, role: NodeRole::Client }));
}

#[test]
fn an_old_version_fails_the_handshake() {
    let mut handshake = negotiating();
    let action = handshake.step(HandshakeEvent::Received(vec![4, 0, 0, 0, 0]));
    assert_eq!(action, HandshakeAction::Close);
    assert_eq!(handshake.state(), HandshakeState::Failed(HandshakeFailure::BadVersion));
    assert_eq!(handshake.remote(), None);
}

#[test]
fn a_malformed_challenge_fails_the_handshake() {
    let mut handshake = negotiating();
    let action = handshake.step(HandshakeEvent::Received(vec![9, 0, 0]));
    assert_eq!(action, HandshakeAction::Close);
    assert_eq!(
        handshake.state(),
        HandshakeState::Failed(HandshakeFailure::MalformedChallenge)
    );
    let mut handshake = negotiating();
    let action = handshake.step(HandshakeEvent::Received(vec![9, 0, 0, 0, 200]));
    assert_eq!(action, HandshakeAction::Close);
    assert_eq!(
        handshake.state(),
        HandshakeState::Failed(HandshakeFailure::MalformedChallenge)
    );
}

#[test]
fn a_timeout_fails_the_handshake() {
    let mut handshake = negotiating();
    let action = handshake.step(HandshakeEvent::TimedOut);
    assert_eq!(action, HandshakeAction::Close);
    assert_eq!(handshake.state(), HandshakeState::Failed(HandshakeFailure::Timeout));
}

#[test]
fn nothing_happens_before_the_beginning() {
    let mut handshake = fresh();
    let action = handshake.step(HandshakeEvent::Received(vec![5, 0, 0, 0, 0]));
    assert_eq!(action, HandshakeAction::Nothing);
    assert_eq!(handshake.state(), HandshakeState::Initiated);
    let action = handshake.step(HandshakeEvent::TimedOut);
    assert_eq!(action, HandshakeAction::Nothing);
    assert_eq!(handshake.state(), HandshakeState::Initiated);
}

#[test]
fn beginning_twice_sends_once() {
    let mut handshake = negotiating();
    let action = handshake.step(HandshakeEvent::Begin);
    assert_eq!(action, HandshakeAction::Nothing);
    assert_eq!(handshake.state(), HandshakeState::Negotiating);
}

#[test]
fn an_established_handshake_stays_established() {
    let mut handshake = negotiating();
    handshake.step(HandshakeEvent::Received(vec![5, 0, 0, 0, 0]));
    let before = handshake;
    for event in [
        HandshakeEvent::Begin,
        HandshakeEvent::Received(vec![1, 0, 0, 0, 0]),
        HandshakeEvent::Received(vec![]),
        HandshakeEvent::TimedOut,
    ] {
        assert_eq!(handshake.step(event), HandshakeAction::Nothing);
        assert_eq!(handshake, before);
    }
}

#[test]
fn a_failed_handshake_stays_failed() {
    let mut handshake = negotiating();
    handshake.step(HandshakeEvent::TimedOut);
    let before = handshake;
    for event in [
        HandshakeEvent::Begin,
        HandshakeEvent::Received(vec![9, 0, 0, 0, 0]),
        HandshakeEvent::TimedOut,
    ] {
        assert_eq!(handshake.step(event), HandshakeAction::Nothing);
        assert_eq!(handshake, before);
    }
    assert!(!handshake.is_established());
}

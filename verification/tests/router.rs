use beacon_node::address::{ConnectionSide, PeerAddress};
use beacon_node::handshake::{Challenge, Handshake, HandshakeEvent, NodeRole};
use beacon_node::message::DisconnectReason;
use beacon_node::peer::SeenMessage;
use beacon_node::router::{Admission, RegisterError, RejectReason, RestrictedPeer, Router};

fn peer(n: u16) -> PeerAddress {
    PeerAddress::new(0x0a00_0000 + n as u128, 4000 + n)
}

fn pending(address: PeerAddress) -> Handshake {
    let local = Challenge { version: 1, role: NodeRole::Beacon };
    let mut handshake = Handshake::new(address, ConnectionSide::Responder, local, 1);
    handshake.step(HandshakeEvent::Begin);
    handshake
}

fn established(address: PeerAddress) -> Handshake {
    let mut handshake = pending(address);
    handshake.step(HandshakeEvent::Received(vec![1, 0, 0, 0, 2]));
    assert!(handshake.is_established());
    handshake
}

fn restricted(address: PeerAddress, at: u64) -> RestrictedPeer {
    RestrictedPeer { address, restricted_at: at, reason: DisconnectReason::ProtocolViolation }
}

#[test]
fn a_new_router_is_empty() {
    let router = Router::new(3, 60, 8);
    assert_eq!(router.maximum_peers(), 3);
    assert_eq!(router.restriction_secs(), 60);
    assert_eq!(router.number_of_connected_peers(), 0);
    assert_eq!(router.number_of_restricted_peers(), 0);
    assert_eq!(router.connected_peers(), Vec::<PeerAddress>::new());
    assert!(!router.is_connected(peer(1)));
    assert!(!router.is_restricted(peer(1), 0));
    assert_eq!(router.admission(peer(1), 0), Admission::Accept);
}

#[test]
fn a_registered_peer_is_in_the_table() {
    let mut router = Router::new(3, 60, 8);
    assert_eq!(router.register(&established(peer(1)), 17), Ok(()));
    assert!(router.is_connected(peer(1)));
    assert_eq!(router.number_of_connected_peers(), 1);
    let state = router.connected_peer(peer(1)).unwrap();
    assert_eq!(state.address(), peer(1));
    assert_eq!(state.side(), ConnectionSide::Responder);
    assert_eq!(state.connected_at(), 17);
    assert_eq!(state.capacity(), 8);
    assert!(state.seen_messages().is_empty());
    assert!(router.connected_peer(peer(2)).is_none());
}

#[test]
fn peers_are_listed_in_the_order_of_their_registration() {
    let mut router = Router::new(5, 60, 8);
    for n in [3, 1, 2] {
        assert_eq!(router.register(&established(peer(n)), 0), Ok(()));
    }
    assert_eq!(router.connected_peers(), vec![peer(3), peer(1), peer(2)]);
    assert!(router.remove(peer(1)));
    assert_eq!(router.connected_peers(), vec![peer(3), peer(2)]);
}

#[test]
fn a_full_table_rejects_the_next_attempt_before_its_handshake() {
    let maximum = 4;
    let mut router = Router::new(maximum, 60, 8);
    for n in 0..maximum as u16 {
        assert_eq!(router.admission(peer(n), 0), Admission::Accept);
        assert_eq!(router.register(&established(peer(n)), 0), Ok(()));
    }
    assert_eq!(router.number_of_connected_peers(), maximum);
    assert_eq!(
        router.admission(peer(100), 0),
        Admission::Reject(RejectReason::TableFull)
    );
    // also for an address that is in the table
    assert_eq!(router.admission(peer(0), 0), Admission::Reject(RejectReason::TableFull));
    assert_eq!(
        router.register(&established(peer(100)), 0),
        Err(RegisterError::TableFull)
    );
    assert_eq!(router.number_of_connected_peers(), maximum);
    assert!(!router.is_connected(peer(100)));
}

#[test]
fn a_table_with_room_accepts() {
    let mut router = Router::new(3, 60, 8);
    assert_eq!(router.register(&established(peer(1)), 0), Ok(()));
    assert_eq!(router.register(&established(peer(2)), 0), Ok(()));
    assert_eq!(router.admission(peer(3), 0), Admission::Accept);
    // removal makes room again
    assert_eq!(router.register(&established(peer(3)), 0), Ok(()));
    assert_eq!(router.admission(peer(4), 0), Admission::Reject(RejectReason::TableFull));
    assert!(router.remove(peer(2)));
    assert_eq!(router.admission(peer(4), 0), Admission::Accept);
}

#[test]
fn a_router_without_room_accepts_nobody() {
    let mut router = Router::new(0, 60, 8);
    assert_eq!(router.admission(peer(1), 0), Admission::Reject(RejectReason::TableFull));
    assert_eq!(router.register(&established(peer(1)), 0), Err(RegisterError::TableFull));
}

#[test]
fn removal_is_idempotent() {
    let mut router = Router::new(3, 60, 8);
    router.register(&established(peer(1)), 0).unwrap();
    router.register(&established(peer(2)), 0).unwrap();
    assert!(router.remove(peer(1)));
    let after_once = (router.connected_peers(), router.restricted_peers().clone());
    assert!(!router.remove(peer(1)));
    let after_twice = (router.connected_peers(), router.restricted_peers().clone());
    assert_eq!(after_once, after_twice);
    assert!(!router.is_connected(peer(1)));
    assert!(router.is_connected(peer(2)));
    // an address that never was in the table
    assert!(!router.remove(peer(9)));
    assert_eq!(router.connected_peers(), vec![peer(2)]);
}

#[test]
fn a_restricted_address_is_rejected_until_the_restriction_expires() {
    let mut router = Router::new(3, 50, 8);
    router.restrict(peer(1), DisconnectReason::ProtocolViolation, 100);
    for now in [0, 99, 100, 101, 149] {
        assert!(router.is_restricted(peer(1), now));
        assert_eq!(
            router.admission(peer(1), now),
            Admission::Reject(RejectReason::Restricted)
        );
        assert_eq!(
            router.register(&established(peer(1)), now),
            Err(RegisterError::Restricted)
        );
    }
    for now in [150, 151, u64::MAX] {
        assert!(!router.is_restricted(peer(1), now));
        assert_eq!(router.admission(peer(1), now), Admission::Accept);
    }
    // nobody else is affected
    assert_eq!(router.admission(peer(2), 100), Admission::Accept);
}

#[test]
fn a_restriction_survives_what_happens_to_other_addresses() {
    let mut router = Router::new(3, 50, 8);
    router.register(&established(peer(2)), 90).unwrap();
    router.restrict(peer(1), DisconnectReason::ProtocolViolation, 100);
    router.register(&established(peer(3)), 101).unwrap();
    router.remove(peer(2));
    router.restrict(peer(4), DisconnectReason::TooManyFailures, 102);
    router.clear_restriction(peer(4));
    router.sweep(120);
    router.record_seen(peer(3), 1, 1);
    assert!(!router.remove(peer(1)));
    assert_eq!(
        router.admission(peer(1), 149),
        Admission::Reject(RejectReason::Restricted)
    );
    assert!(!router.is_connected(peer(1)));
}

#[test]
fn a_restriction_of_no_duration_blocks_nothing() {
    let mut router = Router::new(3, 0, 8);
    router.restrict(peer(1), DisconnectReason::ProtocolViolation, 100);
    assert!(!router.is_restricted(peer(1), 100));
    assert!(router.is_restricted(peer(1), 99));
    assert_eq!(router.admission(peer(1), 100), Admission::Accept);
}

#[test]
fn a_restriction_near_the_end_of_time_does_not_wrap() {
    let mut router = Router::new(3, 50, 8);
    router.restrict(peer(1), DisconnectReason::ProtocolViolation, u64::MAX - 10);
    assert!(router.is_restricted(peer(1), u64::MAX));
    assert!(router.is_restricted(peer(1), 0));
}

#[test]
fn restricting_disconnects() {
    let mut router = Router::new(3, 50, 8);
    router.register(&established(peer(1)), 0).unwrap();
    router.register(&established(peer(2)), 0).unwrap();
    router.restrict(peer(1), DisconnectReason::ProtocolViolation, 10);
    assert!(!router.is_connected(peer(1)));
    assert!(router.is_connected(peer(2)));
    assert_eq!(router.connected_peers(), vec![peer(2)]);
    assert_eq!(router.restricted_peers(), &vec![restricted(peer(1), 10)]);
}

#[test]
fn restricting_again_refreshes_the_entry() {
    let mut router = Router::new(3, 50, 8);
    router.restrict(peer(1), DisconnectReason::ProtocolViolation, 10);
    router.restrict(peer(2), DisconnectReason::ProtocolViolation, 20);
    router.restrict(peer(1), DisconnectReason::TooManyFailures, 30);
    assert_eq!(
        router.restricted_peers(),
        &vec![
            restricted(peer(2), 20),
            RestrictedPeer {
                address: peer(1),
                restricted_at: 30,
                reason: DisconnectReason::TooManyFailures
            },
        ]
    );
    assert!(router.is_restricted(peer(1), 79));
    assert!(!router.is_restricted(peer(1), 80));
}

#[test]
fn clearing_lifts_a_restriction() {
    let mut router = Router::new(3, 50, 8);
    router.restrict(peer(1), DisconnectReason::ProtocolViolation, 10);
    assert!(router.clear_restriction(peer(1)));
    assert!(!router.is_restricted(peer(1), 10));
    assert_eq!(router.admission(peer(1), 10), Admission::Accept);
    assert!(!router.clear_restriction(peer(1)));
    assert_eq!(router.number_of_restricted_peers(), 0);
}

#[test]
fn sweeping_drops_expired_restrictions_only() {
    let mut router = Router::new(3, 50, 8);
    router.restrict(peer(1), DisconnectReason::ProtocolViolation, 10);
    router.restrict(peer(2), DisconnectReason::ProtocolViolation, 40);
    router.restrict(peer(3), DisconnectReason::ProtocolViolation, 20);
    router.sweep(59);
    assert_eq!(router.number_of_restricted_peers(), 3);
    router.sweep(60);
    assert_eq!(
        router.restricted_peers(),
        &vec![restricted(peer(2), 40), restricted(peer(3), 20)]
    );
    router.sweep(70);
    assert_eq!(router.restricted_peers(), &vec![restricted(peer(2), 40)]);
    router.sweep(90);
    assert_eq!(router.number_of_restricted_peers(), 0);
}

#[test]
fn registration_needs_an_established_handshake() {
    let mut router = Router::new(3, 50, 8);
    let local = Challenge { version: 1, role: NodeRole::Beacon };
    let initiated = Handshake::new(peer(1), ConnectionSide::Initiator, local, 1);
    assert_eq!(router.register(&initiated, 0), Err(RegisterError::HandshakeIncomplete));
    assert_eq!(router.register(&pending(peer(1)), 0), Err(RegisterError::HandshakeIncomplete));
    let mut failed = pending(peer(1));
    failed.step(HandshakeEvent::TimedOut);
    assert_eq!(router.register(&failed, 0), Err(RegisterError::HandshakeIncomplete));
    assert_eq!(router.number_of_connected_peers(), 0);
    // a failed handshake does not restrict
    assert_eq!(router.number_of_restricted_peers(), 0);
    assert_eq!(router.admission(peer(1), 0), Admission::Accept);
}

#[test]
fn an_address_registers_once() {
    let mut router = Router::new(3, 50, 8);
    assert_eq!(router.register(&established(peer(1)), 0), Ok(()));
    assert_eq!(
        router.register(&established(peer(1)), 1),
        Err(RegisterError::AlreadyConnected)
    );
    assert_eq!(router.connected_peers(), vec![peer(1)]);
    assert_eq!(router.connected_peer(peer(1)).unwrap().connected_at(), 0);
}

#[test]
fn registration_errors_come_in_order() {
    // an incomplete handshake is named before a restriction
    let mut router = Router::new(1, 50, 8);
    router.restrict(peer(1), DisconnectReason::ProtocolViolation, 0);
    assert_eq!(router.register(&pending(peer(1)), 0), Err(RegisterError::HandshakeIncomplete));
    // a restriction is named before a full table
    router.register(&established(peer(2)), 0).unwrap();
    assert_eq!(router.register(&established(peer(1)), 0), Err(RegisterError::Restricted));
    // a full table is named before a double registration
    assert_eq!(router.register(&established(peer(2)), 0), Err(RegisterError::TableFull));
}

#[test]
fn registration_drops_an_expired_restriction() {
    let mut router = Router::new(3, 50, 8);
    router.restrict(peer(1), DisconnectReason::ProtocolViolation, 10);
    router.restrict(peer(2), DisconnectReason::ProtocolViolation, 10);
    assert_eq!(router.register(&established(peer(1)), 60), Ok(()));
    assert!(router.is_connected(peer(1)));
    assert_eq!(router.restricted_peers(), &vec![restricted(peer(2), 10)]);
    // not even at an earlier time is the address restricted now
    assert!(!router.is_restricted(peer(1), 10));
}

#[test]
fn no_address_is_connected_and_restricted_at_once() {
    let mut router = Router::new(2, 50, 8);
    let steps: Vec<(u8, u16, u64)> = vec![
        (0, 1, 0),
        (0, 2, 1),
        (1, 1, 2),
        (0, 1, 3),
        (0, 3, 4),
        (2, 2, 5),
        (0, 1, 60),
        (1, 3, 61),
        (3, 0, 200),
        (0, 3, 201),
        (1, 1, 202),
    ];
    for (op, n, now) in steps {
        match op {
            0 => {
                let _ = router.register(&established(peer(n)), now);
            }
            1 => router.restrict(peer(n), DisconnectReason::ProtocolViolation, now),
            2 => {
                router.remove(peer(n));
            }
            _ => router.sweep(now),
        }
        let connected = router.connected_peers();
        assert!(connected.len() <= router.maximum_peers());
        for (i, a) in connected.iter().enumerate() {
            assert!(!connected[..i].contains(a));
            assert!(router.restricted_peers().iter().all(|r| r.address != *a));
        }
    }
}

#[test]
fn seen_messages_are_filed_oldest_first() {
    let mut router = Router::new(3, 50, 3);
    router.register(&established(peer(1)), 0).unwrap();
    assert!(router.record_seen(peer(1), 1, 10));
    assert!(router.record_seen(peer(1), 3, 30));
    assert!(router.record_seen(peer(1), 1, 11));
    let log = router.connected_peer(peer(1)).unwrap().seen_messages().clone();
    assert_eq!(
        log,
        vec![
            SeenMessage { id: 1, nonce: 10 },
            SeenMessage { id: 3, nonce: 30 },
            SeenMessage { id: 1, nonce: 11 }
        ]
    );
    // the log is full: the oldest entry leaves
    assert!(router.record_seen(peer(1), 4, 40));
    let state = router.connected_peer(peer(1)).unwrap();
    assert_eq!(
        state.seen_messages(),
        &vec![
            SeenMessage { id: 3, nonce: 30 },
            SeenMessage { id: 1, nonce: 11 },
            SeenMessage { id: 4, nonce: 40 }
        ]
    );
    assert!(!state.has_seen(1, 10));
    assert!(state.has_seen(4, 40));
}

#[test]
fn a_seen_message_is_filed_once() {
    let mut router = Router::new(3, 50, 3);
    router.register(&established(peer(1)), 0).unwrap();
    router.record_seen(peer(1), 1, 10);
    router.record_seen(peer(1), 2, 20);
    router.record_seen(peer(1), 1, 10);
    let state = router.connected_peer(peer(1)).unwrap();
    assert_eq!(
        state.seen_messages(),
        &vec![SeenMessage { id: 1, nonce: 10 }, SeenMessage { id: 2, nonce: 20 }]
    );
}

#[test]
fn a_log_without_room_stays_empty() {
    let mut router = Router::new(3, 50, 0);
    router.register(&established(peer(1)), 0).unwrap();
    assert!(router.record_seen(peer(1), 1, 10));
    assert!(router.connected_peer(peer(1)).unwrap().seen_messages().is_empty());
}

#[test]
fn a_message_of_an_unknown_peer_is_not_filed() {
    let mut router = Router::new(3, 50, 3);
    router.register(&established(peer(1)), 0).unwrap();
    assert!(!router.record_seen(peer(2), 1, 10));
    assert!(router.connected_peer(peer(1)).unwrap().seen_messages().is_empty());
    assert_eq!(router.connected_peers(), vec![peer(1)]);
}

#[test]
fn filing_touches_one_peer_only() {
    let mut router = Router::new(3, 50, 3);
    router.register(&established(peer(1)), 0).unwrap();
    router.register(&established(peer(2)), 0).unwrap();
    router.record_seen(peer(2), 7, 70);
    assert!(router.connected_peer(peer(1)).unwrap().seen_messages().is_empty());
    assert!(router.connected_peer(peer(2)).unwrap().has_seen(7, 70));
    assert_eq!(router.connected_peers(), vec![peer(1), peer(2)]);
}

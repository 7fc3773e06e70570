use beacon_node::address::{ConnectionSide, PeerAddress};
use beacon_node::peer::{ConnectedPeer, SeenMessage};

#[test]
fn a_new_peer_has_an_empty_log() {
    let address = PeerAddress::new(1, 2);
    let peer = ConnectedPeer::new(address, ConnectionSide::Initiator, 5, 2);
    assert_eq!(peer.address(), address);
    assert_eq!(peer.side(), ConnectionSide::Initiator);
    assert_eq!(peer.connected_at(), 5);
    assert_eq!(peer.capacity(), 2);
    assert!(peer.seen_messages().is_empty());
    assert!(!peer.has_seen(0, 0));
}

#[test]
fn the_log_evicts_its_oldest_entry() {
    let mut peer = ConnectedPeer::new(PeerAddress::new(1, 2), ConnectionSide::Initiator, 5, 2);
    peer.insert_seen_message(1, 100);
    peer.insert_seen_message(2, 200);
    peer.insert_seen_message(3, 300);
    assert_eq!(
        peer.seen_messages(),
        &vec![SeenMessage { id: 2, nonce: 200 }, SeenMessage { id: 3, nonce: 300 }]
    );
    // an entry that is there already changes nothing, and evicts nothing
    peer.insert_seen_message(2, 200);
    assert_eq!(
        peer.seen_messages(),
        &vec![SeenMessage { id: 2, nonce: 200 }, SeenMessage { id: 3, nonce: 300 }]
    );
}

#[test]
fn a_clone_of_a_peer_has_the_same_log() {
    let mut peer = ConnectedPeer::new(PeerAddress::new(1, 2), ConnectionSide::Responder, 5, 4);
    peer.insert_seen_message(1, 100);
    peer.insert_seen_message(2, 200);
    let copy = peer.clone();
    assert_eq!(copy, peer);
    assert_eq!(copy.seen_messages(), peer.seen_messages());
}

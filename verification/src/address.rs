//! Network endpoint identifiers.

use vstd::prelude::*;

verus! {

/// Which end of a connection this node is.
#[derive(Clone, Copy, Debug, PartialEq, Eq, Structural)]
pub enum ConnectionSide {
    /// This node opened the connection.
    Initiator,
    /// The remote endpoint opened the connection.
    Responder,
}

/// A remote endpoint: an IP address, with IPv4 mapped into IPv6, and a port.
#[derive(Clone, Copy, Debug, PartialEq, Eq, Hash, Structural)]
pub struct PeerAddress {
    pub ip: u128,
    pub port: u16,
}

impl PeerAddress {
    /// The endpoint with the given address bits and port.
    pub fn new(ip: u128, port: u16) -> (address: PeerAddress)
        ensures
            address == (PeerAddress { ip, port }),
    {
        PeerAddress { ip, port }
    }
}

} // verus!

//! The router: the table of connected peers and the set of restricted
//! addresses, and the operations that admit, register, remove and restrict.
//!
//! Time is handed in by the caller, in seconds. A restriction made at `t`
//! blocks its address at every `now < t + restriction_secs` and has expired
//! from then on. An expired entry leaves the set when its address registers
//! again, when the address is cleared, or at the next [`Router::sweep`].
//!
//! In every state that the operations reach ([`RouterView::wf`]):
//! an address is in the table at most once; no address is both in the table
//! and in the restricted set; and the table holds no more than the configured
//! maximum.

use crate::address::PeerAddress;
use crate::handshake::{Handshake, HandshakeView};
use crate::message::DisconnectReason;
use crate::peer::{ConnectedPeer, ConnectedPeerView, SeenMessage};
use vstd::prelude::*;

verus! {

/// An address that may not connect for a while.
#[derive(Clone, Copy, Debug, PartialEq, Eq, Structural)]
pub struct RestrictedPeer {
    pub address: PeerAddress,
    /// When the restriction was made, in seconds.
    pub restricted_at: u64,
    pub reason: DisconnectReason,
}

impl RestrictedPeer {
    /// Whether the restriction still holds at `now`, where restrictions last
    /// `period` seconds.
    pub open spec fn active(self, period: u64, now: u64) -> bool {
        now < self.restricted_at + period
    }

    /// Computes [`RestrictedPeer::active`].
    pub fn is_active(&self, period: u64, now: u64) -> (active: bool)
        ensures
            active == self.active(period, now),
    {
        now < self.restricted_at || now - self.restricted_at < period
    }
}

/// Why a connection is refused before its handshake.
#[derive(Clone, Copy, Debug, PartialEq, Eq, Structural)]
pub enum RejectReason {
    /// The address is restricted.
    Restricted,
    /// The table holds as many peers as it may.
    TableFull,
}

/// The verdict on a connection attempt.
#[derive(Clone, Copy, Debug, PartialEq, Eq, Structural)]
pub enum Admission {
    Accept,
    Reject(RejectReason),
}

/// Why a peer was not registered.
#[derive(Clone, Copy, Debug, PartialEq, Eq, Structural)]
pub enum RegisterError {
    /// The handshake has not reached `Established`.
    HandshakeIncomplete,
    /// The address is restricted.
    Restricted,
    /// The table holds as many peers as it may.
    TableFull,
    /// The address is in the table already.
    AlreadyConnected,
}

/// Whether no two entries have the same address.
pub open spec fn distinct_addresses(restricted: Seq<RestrictedPeer>) -> bool {
    forall|i: int, j: int|
        0 <= i < j < restricted.len() ==> (#[trigger] restricted[i]).address != (
        #[trigger] restricted[j]).address
}

/// What a [`Router`] holds.
pub struct RouterView {
    /// The table of connected peers, in the order in which they registered.
    pub peers: Seq<ConnectedPeerView>,
    /// The restricted set, in the order in which the entries were made.
    pub restricted: Seq<RestrictedPeer>,
    pub maximum_peers: nat,
    pub restriction_secs: u64,
    pub seen_capacity: nat,
}

impl RouterView {
    /// A router with no peers and no restrictions.
    pub open spec fn empty(maximum_peers: nat, restriction_secs: u64, seen_capacity: nat) -> RouterView {
        RouterView {
            peers: Seq::empty(),
            restricted: Seq::empty(),
            maximum_peers,
            restriction_secs,
            seen_capacity,
        }
    }

    /// The invariant of the router's state.
    pub open spec fn wf(self) -> bool {
        &&& self.peers.len() <= self.maximum_peers
        &&& forall|i: int, j: int|
            0 <= i < j < self.peers.len() ==> (#[trigger] self.peers[i]).address != (
            #[trigger] self.peers[j]).address
        &&& distinct_addresses(self.restricted)
        &&& forall|i: int, j: int|
            0 <= i < self.peers.len() && 0 <= j < self.restricted.len() ==> (
            #[trigger] self.peers[i]).address != (#[trigger] self.restricted[j]).address
        &&& forall|i: int| 0 <= i < self.peers.len() ==> (#[trigger] self.peers[i]).wf()
    }

    /// Whether the address is in the table.
    pub open spec fn is_connected(self, address: PeerAddress) -> bool {
        exists|i: int| 0 <= i < self.peers.len() && (#[trigger] self.peers[i]).address == address
    }

    /// Where in the table the address is.
    pub open spec fn peer_index(self, address: PeerAddress) -> int {
        choose|i: int| 0 <= i < self.peers.len() && (#[trigger] self.peers[i]).address == address
    }

    /// Whether the restricted set has an entry for the address, expired or
    /// not.
    pub open spec fn is_listed(self, address: PeerAddress) -> bool {
        exists|j: int|
            0 <= j < self.restricted.len() && (#[trigger] self.restricted[j]).address == address
    }

    /// Where in the restricted set the address is.
    pub open spec fn restricted_index(self, address: PeerAddress) -> int {
        choose|j: int|
            0 <= j < self.restricted.len() && (#[trigger] self.restricted[j]).address == address
    }

    /// Whether the address is restricted at `now`.
    pub open spec fn is_restricted(self, address: PeerAddress, now: u64) -> bool {
        exists|j: int|
            0 <= j < self.restricted.len() && (#[trigger] self.restricted[j]).address == address
                && self.restricted[j].active(self.restriction_secs, now)
    }

    /// The verdict on a connection attempt from `address` at `now`: refused
    /// where the address is restricted or the table is full, accepted
    /// otherwise.
    pub open spec fn admission(self, address: PeerAddress, now: u64) -> Admission {
        if self.is_restricted(address, now) {
            Admission::Reject(RejectReason::Restricted)
        } else if self.peers.len() >= self.maximum_peers {
            Admission::Reject(RejectReason::TableFull)
        } else {
            Admission::Accept
        }
    }

    /// The router without the address in its table.
    pub open spec fn remove(self, address: PeerAddress) -> RouterView {
        if self.is_connected(address) {
            RouterView { peers: self.peers.remove(self.peer_index(address)), ..self }
        } else {
            self
        }
    }

    /// The router without the address in its restricted set.
    pub open spec fn clear(self, address: PeerAddress) -> RouterView {
        if self.is_listed(address) {
            RouterView {
                restricted: self.restricted.remove(self.restricted_index(address)),
                ..self
            }
        } else {
            self
        }
    }

    /// The router after the address has been restricted at `now`: the address
    /// has left the table, and its entry, the newest of the set, replaces any
    /// that it had.
    pub open spec fn restrict(
        self,
        address: PeerAddress,
        reason: DisconnectReason,
        now: u64,
    ) -> RouterView {
        let entry = RestrictedPeer { address, restricted_at: now, reason };
        RouterView {
            peers: self.remove(address).peers,
            restricted: self.clear(address).restricted.push(entry),
            ..self
        }
    }

    /// Whether a peer whose handshake stands as given is registered at `now`,
    /// and if not, why not.
    pub open spec fn registration(self, handshake: HandshakeView, now: u64) -> Result<
        (),
        RegisterError,
    > {
        if !(handshake.state is Established) {
            Err(RegisterError::HandshakeIncomplete)
        } else {
            match self.admission(handshake.address, now) {
                Admission::Reject(RejectReason::Restricted) => Err(RegisterError::Restricted),
                Admission::Reject(RejectReason::TableFull) => Err(RegisterError::TableFull),
                Admission::Accept => if self.is_connected(handshake.address) {
                    Err(RegisterError::AlreadyConnected)
                } else {
                    Ok(())
                },
            }
        }
    }

    /// The router after an attempt to register a peer at `now`. Where the
    /// peer is registered it is the last of the table, with an empty log, and
    /// an expired restriction of its address is dropped. Otherwise nothing
    /// changes.
    pub open spec fn register(self, handshake: HandshakeView, now: u64) -> RouterView {
        if self.registration(handshake, now) is Ok {
            RouterView {
                peers: self.peers.push(
                    ConnectedPeerView::fresh(
                        handshake.address,
                        handshake.side,
                        now,
                        self.seen_capacity,
                    ),
                ),
                restricted: self.clear(handshake.address).restricted,
                ..self
            }
        } else {
            self
        }
    }

    /// The router without the restrictions that have expired at `now`.
    pub open spec fn sweep(self, now: u64) -> RouterView {
        RouterView {
            restricted: self.restricted.filter(
                |r: RestrictedPeer| r.active(self.restriction_secs, now),
            ),
            ..self
        }
    }

    /// The router after a message from `address` has been filed in that
    /// peer's log. Where the address is not in the table nothing changes.
    pub open spec fn record(self, address: PeerAddress, entry: SeenMessage) -> RouterView {
        if self.is_connected(address) {
            let i = self.peer_index(address);
            RouterView { peers: self.peers.update(i, self.peers[i].record(entry)), ..self }
        } else {
            self
        }
    }

    /// In a well-formed router an address is at one place of the table only.
    pub proof fn lemma_peer_index(self, address: PeerAddress, i: int)
        requires
            self.wf(),
            0 <= i < self.peers.len(),
            self.peers[i].address == address,
        ensures
            self.is_connected(address),
            self.peer_index(address) == i,
            !self.is_listed(address),
    {
        let k = self.peer_index(address);
        assert(self.peers[k].address == address);
        if k < i {
            assert(self.peers[k].address != self.peers[i].address);
        } else if i < k {
            assert(self.peers[i].address != self.peers[k].address);
        }
    }

    /// In a well-formed router an address is at one place of the restricted
    /// set only.
    pub proof fn lemma_restricted_index(self, address: PeerAddress, j: int)
        requires
            self.wf(),
            0 <= j < self.restricted.len(),
            self.restricted[j].address == address,
        ensures
            self.is_listed(address),
            self.restricted_index(address) == j,
            !self.is_connected(address),
    {
        let k = self.restricted_index(address);
        assert(self.restricted[k].address == address);
        if k < j {
            assert(self.restricted[k].address != self.restricted[j].address);
        } else if j < k {
            assert(self.restricted[j].address != self.restricted[k].address);
        }
    }

    /// Removal keeps the router well formed, leaves the address out of the
    /// table, touches no other address, and is idempotent.
    pub proof fn lemma_remove(self, address: PeerAddress)
        requires
            self.wf(),
        ensures
            self.remove(address).wf(),
            !self.remove(address).is_connected(address),
            self.remove(address).remove(address) == self.remove(address),
            self.remove(address).peers.len() == if self.is_connected(address) {
                self.peers.len() - 1
            } else {
                self.peers.len() as int
            },
            forall|other: PeerAddress|
                other != address ==> (#[trigger] self.remove(address).is_connected(other))
                    == self.is_connected(other),
    {
        let after = self.remove(address);
        if self.is_connected(address) {
            let i = self.peer_index(address);
            assert forall|k: int| 0 <= k < after.peers.len() implies #[trigger] after.peers[k]
                == self.peers[if k < i {
                k
            } else {
                k + 1
            }] by {}
            assert forall|x: int, y: int| 0 <= x < y < after.peers.len() implies (
            #[trigger] after.peers[x]).address != (#[trigger] after.peers[y]).address by {
                let x0 = if x < i {
                    x
                } else {
                    x + 1
                };
                let y0 = if y < i {
                    y
                } else {
                    y + 1
                };
                assert(self.peers[x0].address != self.peers[y0].address);
            }
            assert forall|x: int, j: int|
                0 <= x < after.peers.len() && 0 <= j < after.restricted.len() implies (
            #[trigger] after.peers[x]).address != (#[trigger] after.restricted[j]).address by {
                let x0 = if x < i {
                    x
                } else {
                    x + 1
                };
                assert(self.peers[x0].address != self.restricted[j].address);
            }
            assert forall|x: int| 0 <= x < after.peers.len() implies (
            #[trigger] after.peers[x]).wf() by {
                let x0 = if x < i {
                    x
                } else {
                    x + 1
                };
                assert(self.peers[x0].wf());
            }
            if after.is_connected(address) {
                let k = after.peer_index(address);
                let k0 = if k < i {
                    k
                } else {
                    k + 1
                };
                self.lemma_peer_index(address, k0);
            }
            assert forall|other: PeerAddress| other != address implies (
            #[trigger] after.is_connected(other)) == self.is_connected(other) by {
                if self.is_connected(other) {
                    let j = self.peer_index(other);
                    let j1 = if j < i {
                        j
                    } else {
                        j - 1
                    };
                    assert(after.peers[j1].address == other);
                }
                if after.is_connected(other) {
                    let k = after.peer_index(other);
                    let k0 = if k < i {
                        k
                    } else {
                        k + 1
                    };
                    assert(self.peers[k0].address == other);
                }
            }
        }
    }

    /// Clearing keeps the router well formed, leaves the address out of the
    /// restricted set, touches no other address, and is idempotent.
    pub proof fn lemma_clear(self, address: PeerAddress)
        requires
            self.wf(),
        ensures
            self.clear(address).wf(),
            !self.clear(address).is_listed(address),
            self.clear(address).clear(address) == self.clear(address),
            forall|now: u64| !(#[trigger] self.clear(address).is_restricted(address, now)),
            forall|other: PeerAddress|
                other != address ==> (#[trigger] self.clear(address).is_listed(other))
                    == self.is_listed(other),
            forall|other: PeerAddress, now: u64|
                other != address ==> (#[trigger] self.clear(address).is_restricted(other, now))
                    == self.is_restricted(other, now),
    {
        let after = self.clear(address);
        if self.is_listed(address) {
            let i = self.restricted_index(address);
            assert forall|k: int|
                0 <= k < after.restricted.len() implies #[trigger] after.restricted[k]
                == self.restricted[if k < i {
                k
            } else {
                k + 1
            }] by {}
            assert forall|x: int, y: int| 0 <= x < y < after.restricted.len() implies (
            #[trigger] after.restricted[x]).address != (
            #[trigger] after.restricted[y]).address by {
                let x0 = if x < i {
                    x
                } else {
                    x + 1
                };
                let y0 = if y < i {
                    y
                } else {
                    y + 1
                };
                assert(self.restricted[x0].address != self.restricted[y0].address);
            }
            assert forall|x: int, j: int|
                0 <= x < after.peers.len() && 0 <= j < after.restricted.len() implies (
            #[trigger] after.peers[x]).address != (#[trigger] after.restricted[j]).address by {
                let j0 = if j < i {
                    j
                } else {
                    j + 1
                };
                assert(self.peers[x].address != self.restricted[j0].address);
            }
            if after.is_listed(address) {
                let k = after.restricted_index(address);
                let k0 = if k < i {
                    k
                } else {
                    k + 1
                };
                self.lemma_restricted_index(address, k0);
            }
            assert forall|other: PeerAddress| other != address implies (
            #[trigger] after.is_listed(other)) == self.is_listed(other) by {
                if self.is_listed(other) {
                    let j = self.restricted_index(other);
                    let j1 = if j < i {
                        j
                    } else {
                        j - 1
                    };
                    assert(after.restricted[j1].address == other);
                }
                if after.is_listed(other) {
                    let k = after.restricted_index(other);
                    let k0 = if k < i {
                        k
                    } else {
                        k + 1
                    };
                    assert(self.restricted[k0].address == other);
                }
            }
            assert forall|other: PeerAddress, now: u64| other != address implies (
            #[trigger] after.is_restricted(other, now)) == self.is_restricted(other, now) by {
                if self.is_restricted(other, now) {
                    let j = choose|j: int|
                        0 <= j < self.restricted.len() && (#[trigger] self.restricted[j]).address
                            == other && self.restricted[j].active(self.restriction_secs, now);
                    let j1 = if j < i {
                        j
                    } else {
                        j - 1
                    };
                    assert(after.restricted[j1] == self.restricted[j]);
                }
                if after.is_restricted(other, now) {
                    let k = choose|k: int|
                        0 <= k < after.restricted.len() && (
                        #[trigger] after.restricted[k]).address == other
                            && after.restricted[k].active(after.restriction_secs, now);
                    let k0 = if k < i {
                        k
                    } else {
                        k + 1
                    };
                    assert(self.restricted[k0] == after.restricted[k]);
                }
            }
        }
    }

    /// Whether an address is restricted is read off its one entry.
    pub proof fn lemma_is_restricted(self, address: PeerAddress, now: u64)
        requires
            self.wf(),
        ensures
            self.is_restricted(address, now) <==> self.is_listed(address)
                && self.restricted[self.restricted_index(address)].active(
                self.restriction_secs,
                now,
            ),
    {
        if self.is_restricted(address, now) {
            let j = choose|j: int|
                0 <= j < self.restricted.len() && (#[trigger] self.restricted[j]).address
                    == address && self.restricted[j].active(self.restriction_secs, now);
            self.lemma_restricted_index(address, j);
        }
        if self.is_listed(address) {
            let j = self.restricted_index(address);
            assert(self.restricted[j].address == address);
        }
    }

    /// Restricting keeps the router well formed, takes the address out of
    /// the table, blocks it until the restriction expires, and touches no
    /// other address.
    pub proof fn lemma_restrict(self, address: PeerAddress, reason: DisconnectReason, now: u64)
        requires
            self.wf(),
        ensures
            self.restrict(address, reason, now).wf(),
            !self.restrict(address, reason, now).is_connected(address),
            self.restrict(address, reason, now).is_listed(address),
            self.restrict(address, reason, now).restricted.last() == (RestrictedPeer {
                address,
                restricted_at: now,
                reason,
            }),
            forall|at: u64| #[trigger]
                self.restrict(address, reason, now).is_restricted(address, at) <==> at < now
                    + self.restriction_secs,
            forall|other: PeerAddress|
                other != address ==> (#[trigger] self.restrict(address, reason, now).is_connected(
                    other,
                )) == self.is_connected(other),
            forall|other: PeerAddress, at: u64|
                other != address ==> (#[trigger] self.restrict(address, reason, now).is_restricted(
                    other,
                    at,
                )) == self.is_restricted(other, at),
    {
        let entry = RestrictedPeer { address, restricted_at: now, reason };
        let removed = self.remove(address);
        let cleared = self.clear(address);
        let after = self.restrict(address, reason, now);
        let last = after.restricted.len() - 1;
        self.lemma_remove(address);
        self.lemma_clear(address);
        assert(after.restricted[last] == entry);
        assert forall|k: int| 0 <= k < last implies #[trigger] after.restricted[k]
            == cleared.restricted[k] by {}
        assert forall|x: int, y: int| 0 <= x < y < after.restricted.len() implies (
        #[trigger] after.restricted[x]).address != (#[trigger] after.restricted[y]).address by {
            if y == last {
                assert(cleared.restricted[x].address != address) by {
                    if cleared.restricted[x].address == address {
                        assert(cleared.is_listed(address));
                    }
                }
            } else {
                assert(cleared.restricted[x].address != cleared.restricted[y].address);
            }
        }
        assert forall|x: int, j: int|
            0 <= x < after.peers.len() && 0 <= j < after.restricted.len() implies (
        #[trigger] after.peers[x]).address != (#[trigger] after.restricted[j]).address by {
            assert(removed.peers[x].address != address) by {
                if removed.peers[x].address == address {
                    assert(removed.is_connected(address));
                }
            }
            if j < last {
                // an entry of the set before: some address that was listed,
                // hence not in the table
                if removed.peers[x].address == cleared.restricted[j].address {
                    let b = removed.peers[x].address;
                    assert(removed.is_connected(b));
                    assert(cleared.is_listed(b));
                    assert(self.is_connected(b));
                    assert(self.is_listed(b));
                    let p = self.peer_index(b);
                    let q = self.restricted_index(b);
                    assert(self.peers[p].address != self.restricted[q].address);
                }
            }
        }
        assert forall|x: int| 0 <= x < after.peers.len() implies (#[trigger] after.peers[x]).wf() by {
            assert(removed.peers[x].wf());
        }
        assert(after.wf());
        assert(!after.is_connected(address)) by {
            if after.is_connected(address) {
                let k = after.peer_index(address);
                assert(removed.peers[k].address == address);
                assert(removed.is_connected(address));
            }
        }
        assert(after.is_listed(address));
        after.lemma_restricted_index(address, last);
        assert forall|at: u64| #[trigger]
            after.is_restricted(address, at) <==> at < now + self.restriction_secs by {
            after.lemma_is_restricted(address, at);
        }
        assert forall|other: PeerAddress| other != address implies (#[trigger] after.is_connected(
            other,
        )) == self.is_connected(other) by {
            if after.is_connected(other) {
                let k = after.peer_index(other);
                assert(removed.peers[k].address == other);
                assert(removed.is_connected(other));
            }
            if removed.is_connected(other) {
                let k = removed.peer_index(other);
                assert(after.peers[k].address == other);
            }
        }
        assert forall|other: PeerAddress, at: u64| other != address implies (
        #[trigger] after.is_restricted(other, at)) == self.is_restricted(other, at) by {
            if after.is_restricted(other, at) {
                let k = choose|k: int|
                    0 <= k < after.restricted.len() && (#[trigger] after.restricted[k]).address
                        == other && after.restricted[k].active(after.restriction_secs, at);
                assert(cleared.restricted[k] == after.restricted[k]);
                assert(cleared.is_restricted(other, at));
            }
            if cleared.is_restricted(other, at) {
                let k = choose|k: int|
                    0 <= k < cleared.restricted.len() && (
                    #[trigger] cleared.restricted[k]).address == other
                        && cleared.restricted[k].active(cleared.restriction_secs, at);
                assert(after.restricted[k] == cleared.restricted[k]);
            }
        }
    }

    /// Registration keeps the router well formed. Where it succeeds the peer
    /// is in the table, the table has grown by one, and its address is in
    /// the restricted set no more; no other address is touched.
    pub proof fn lemma_register(self, handshake: HandshakeView, now: u64)
        requires
            self.wf(),
        ensures
            self.register(handshake, now).wf(),
            self.registration(handshake, now) is Ok ==> {
                &&& handshake.state is Established
                &&& !self.is_connected(handshake.address)
                &&& self.admission(handshake.address, now) is Accept
                &&& self.register(handshake, now).is_connected(handshake.address)
                &&& !self.register(handshake, now).is_listed(handshake.address)
                &&& self.register(handshake, now).peers.len() == self.peers.len() + 1
            },
            !(self.registration(handshake, now) is Ok) ==> self.register(handshake, now) == self,
            forall|other: PeerAddress|
                other != handshake.address ==> (#[trigger] self.register(
                    handshake,
                    now,
                ).is_connected(other)) == self.is_connected(other),
            forall|other: PeerAddress, at: u64|
                other != handshake.address ==> (#[trigger] self.register(
                    handshake,
                    now,
                ).is_restricted(other, at)) == self.is_restricted(other, at),
    {
        let address = handshake.address;
        let after = self.register(handshake, now);
        if self.registration(handshake, now) is Ok {
            let cleared = self.clear(address);
            let last = after.peers.len() - 1;
            self.lemma_clear(address);
            assert(after.peers[last].address == address);
            assert forall|k: int| 0 <= k < last implies #[trigger] after.peers[k]
                == self.peers[k] by {}
            assert forall|x: int, y: int| 0 <= x < y < after.peers.len() implies (
            #[trigger] after.peers[x]).address != (#[trigger] after.peers[y]).address by {
                if y == last {
                    assert(self.peers[x].address != address);
                } else {
                    assert(self.peers[x].address != self.peers[y].address);
                }
            }
            assert forall|x: int, j: int|
                0 <= x < after.peers.len() && 0 <= j < after.restricted.len() implies (
            #[trigger] after.peers[x]).address != (#[trigger] after.restricted[j]).address by {
                if x == last {
                    if cleared.restricted[j].address == address {
                        assert(cleared.is_listed(address));
                    }
                } else {
                    assert(cleared.peers[x].address != cleared.restricted[j].address);
                }
            }
            assert forall|x: int| 0 <= x < after.peers.len() implies (
            #[trigger] after.peers[x]).wf() by {
                if x < last {
                    assert(self.peers[x].wf());
                }
            }
            assert(after.is_connected(address));
            assert(!after.is_listed(address)) by {
                if after.is_listed(address) {
                    let j = after.restricted_index(address);
                    assert(cleared.restricted[j].address == address);
                    assert(cleared.is_listed(address));
                }
            }
            assert forall|other: PeerAddress| other != address implies (
            #[trigger] after.is_connected(other)) == self.is_connected(other) by {
                if after.is_connected(other) {
                    let k = after.peer_index(other);
                    assert(self.peers[k].address == other);
                }
                if self.is_connected(other) {
                    let k = self.peer_index(other);
                    assert(after.peers[k].address == other);
                }
            }
            assert forall|other: PeerAddress, at: u64| other != address implies (
            #[trigger] after.is_restricted(other, at)) == self.is_restricted(other, at) by {
                assert(after.restricted == cleared.restricted);
                assert(after.is_restricted(other, at) == cleared.is_restricted(other, at));
            }
        }
    }

    /// Filing a message keeps the router well formed and changes the log of
    /// that one peer only.
    pub proof fn lemma_record(self, address: PeerAddress, entry: SeenMessage)
        requires
            self.wf(),
        ensures
            self.record(address, entry).wf(),
            self.record(address, entry).peers.len() == self.peers.len(),
            self.record(address, entry).restricted == self.restricted,
            forall|other: PeerAddress| #[trigger]
                self.record(address, entry).is_connected(other) == self.is_connected(other),
    {
        let after = self.record(address, entry);
        if self.is_connected(address) {
            let i = self.peer_index(address);
            assert(self.peers[i].wf());
            self.peers[i].lemma_record(entry);
            assert forall|k: int| 0 <= k < after.peers.len() implies (
            #[trigger] after.peers[k]).address == self.peers[k].address by {}
            assert forall|x: int, y: int| 0 <= x < y < after.peers.len() implies (
            #[trigger] after.peers[x]).address != (#[trigger] after.peers[y]).address by {
                assert(self.peers[x].address != self.peers[y].address);
            }
            assert forall|x: int, j: int|
                0 <= x < after.peers.len() && 0 <= j < after.restricted.len() implies (
            #[trigger] after.peers[x]).address != (#[trigger] after.restricted[j]).address by {
                assert(self.peers[x].address != self.restricted[j].address);
            }
            assert forall|x: int| 0 <= x < after.peers.len() implies (
            #[trigger] after.peers[x]).wf() by {
                assert(self.peers[x].wf());
            }
            assert forall|other: PeerAddress| #[trigger]
                after.is_connected(other) == self.is_connected(other) by {
                if after.is_connected(other) {
                    let k = after.peer_index(other);
                    assert(self.peers[k].address == other);
                }
                if self.is_connected(other) {
                    let k = self.peer_index(other);
                    assert(after.peers[k].address == other);
                }
            }
        }
    }

    /// Sweeping keeps the router well formed and the table as it is, and
    /// keeps exactly the restrictions that hold at `now`: afterwards an
    /// address is restricted at some time if and only if it was restricted
    /// before both at that time and at `now`.
    pub proof fn lemma_sweep(self, now: u64)
        requires
            self.wf(),
        ensures
            self.sweep(now).wf(),
            self.sweep(now).peers == self.peers,
            forall|j: int|
                0 <= j < self.sweep(now).restricted.len() ==> (#[trigger] self.sweep(
                    now,
                ).restricted[j]).active(self.restriction_secs, now),
            forall|address: PeerAddress, at: u64| #[trigger]
                self.sweep(now).is_restricted(address, at) <==> self.is_restricted(address, at)
                    && self.is_restricted(address, now),
    {
        let pred = |r: RestrictedPeer| r.active(self.restriction_secs, now);
        let after = self.sweep(now);
        lemma_filter_restricted(self.restricted, pred);
        assert forall|x: int, j: int|
            0 <= x < after.peers.len() && 0 <= j < after.restricted.len() implies (
        #[trigger] after.peers[x]).address != (#[trigger] after.restricted[j]).address by {
            let r = after.restricted[j];
            assert(self.restricted.contains(r));
            let j0 = choose|j0: int| 0 <= j0 < self.restricted.len() && self.restricted[j0] == r;
            assert(self.peers[x].address != self.restricted[j0].address);
        }
        assert forall|address: PeerAddress, at: u64| #[trigger]
            after.is_restricted(address, at) <==> self.is_restricted(address, at)
                && self.is_restricted(address, now) by {
            if after.is_restricted(address, at) {
                let k = choose|k: int|
                    0 <= k < after.restricted.len() && (#[trigger] after.restricted[k]).address
                        == address && after.restricted[k].active(after.restriction_secs, at);
                let r = after.restricted[k];
                assert(self.restricted.contains(r));
                let j0 = choose|j0: int|
                    0 <= j0 < self.restricted.len() && self.restricted[j0] == r;
                assert(self.restricted[j0].address == address);
                assert(pred(r));
            }
            if self.is_restricted(address, at) && self.is_restricted(address, now) {
                self.lemma_is_restricted(address, at);
                self.lemma_is_restricted(address, now);
                let j = self.restricted_index(address);
                assert(pred(self.restricted[j]));
                assert(after.restricted.contains(self.restricted[j]));
                let k = choose|k: int|
                    0 <= k < after.restricted.len() && after.restricted[k] == self.restricted[j];
                assert(after.restricted[k].address == address);
            }
        }
    }
}

/// Filtering a restricted set keeps its entries apart: what is left are
/// exactly the entries that meet the condition, each still with an address of
/// its own.
pub proof fn lemma_filter_restricted(
    s: Seq<RestrictedPeer>,
    pred: spec_fn(RestrictedPeer) -> bool,
)
    requires
        distinct_addresses(s),
    ensures
        distinct_addresses(s.filter(pred)),
        forall|k: int|
            0 <= k < s.filter(pred).len() ==> s.contains(#[trigger] s.filter(pred)[k]) && pred(
                s.filter(pred)[k],
            ),
        forall|j: int| 0 <= j < s.len() && pred(s[j]) ==> s.filter(pred).contains(#[trigger] s[j]),
    decreases s.len(),
{
    reveal(Seq::filter);
    if s.len() > 0 {
        let init = s.drop_last();
        let last = s.last();
        let f = init.filter(pred);
        let out = s.filter(pred);
        assert forall|i: int, j: int| 0 <= i < j < init.len() implies (
        #[trigger] init[i]).address != (#[trigger] init[j]).address by {
            assert(s[i].address != s[j].address);
        }
        lemma_filter_restricted(init, pred);
        assert forall|k: int| 0 <= k < out.len() implies s.contains(#[trigger] out[k]) && pred(
            out[k],
        ) by {
            if k < f.len() {
                assert(out[k] == f[k]);
                assert(init.contains(f[k]));
                let j = choose|j: int| 0 <= j < init.len() && init[j] == f[k];
                assert(s[j] == f[k]);
            } else {
                assert(out[k] == last);
                assert(s[s.len() - 1] == last);
            }
        }
        assert forall|x: int, y: int| 0 <= x < y < out.len() implies (
        #[trigger] out[x]).address != (#[trigger] out[y]).address by {
            if y < f.len() {
                assert(f[x].address != f[y].address);
            } else {
                assert(out[x] == f[x]);
                assert(init.contains(f[x]));
                let j = choose|j: int| 0 <= j < init.len() && init[j] == f[x];
                assert(s[j].address != s[s.len() - 1].address);
            }
        }
        assert forall|j: int| 0 <= j < s.len() && pred(s[j]) implies out.contains(
            #[trigger] s[j],
        ) by {
            if j < init.len() {
                assert(init[j] == s[j]);
                assert(f.contains(init[j]));
                let k = choose|k: int| 0 <= k < f.len() && f[k] == init[j];
                assert(out[k] == s[j]);
            } else {
                assert(out[out.len() - 1] == s[j]);
            }
        }
    }
}

/// The router of one node.
#[derive(Debug)]
pub struct Router {
    peers: Vec<ConnectedPeer>,
    restricted: Vec<RestrictedPeer>,
    maximum_peers: usize,
    restriction_secs: u64,
    seen_capacity: usize,
}

impl View for Router {
    type V = RouterView;

    closed spec fn view(&self) -> RouterView {
        RouterView {
            peers: self.peers@.map_values(|p: ConnectedPeer| p@),
            restricted: self.restricted@,
            maximum_peers: self.maximum_peers as nat,
            restriction_secs: self.restriction_secs,
            seen_capacity: self.seen_capacity as nat,
        }
    }
}

impl Router {
    /// A router with no peers and no restrictions. The table holds at most
    /// `maximum_peers` peers, a restriction lasts `restriction_secs` seconds,
    /// and each peer's log of seen messages holds at most `seen_capacity`
    /// entries.
    pub fn new(maximum_peers: usize, restriction_secs: u64, seen_capacity: usize) -> (router:
        Router)
        ensures
            router@ == RouterView::empty(
                maximum_peers as nat,
                restriction_secs,
                seen_capacity as nat,
            ),
            router@.wf(),
    {
        let router = Router {
            peers: Vec::new(),
            restricted: Vec::new(),
            maximum_peers,
            restriction_secs,
            seen_capacity,
        };
        assert(router@.peers =~= Seq::empty());
        router
    }

    /// The most peers that the table may hold.
    pub fn maximum_peers(&self) -> (maximum: usize)
        ensures
            maximum == self@.maximum_peers,
    {
        self.maximum_peers
    }

    /// How many seconds a restriction lasts.
    pub fn restriction_secs(&self) -> (secs: u64)
        ensures
            secs == self@.restriction_secs,
    {
        self.restriction_secs
    }

    /// How many peers the table holds.
    pub fn number_of_connected_peers(&self) -> (count: usize)
        ensures
            count == self@.peers.len(),
    {
        self.peers.len()
    }

    /// How many entries the restricted set holds, expired ones included.
    pub fn number_of_restricted_peers(&self) -> (count: usize)
        ensures
            count == self@.restricted.len(),
    {
        self.restricted.len()
    }

    /// Where in the table the address is.
    fn find_peer(&self, address: PeerAddress) -> (found: Option<usize>)
        requires
            self@.wf(),
        ensures
            match found {
                Some(i) => i < self@.peers.len() && self@.is_connected(address)
                    && self@.peer_index(address) == i,
                None => !self@.is_connected(address),
            },
    {
        let mut i: usize = 0;
        while i < self.peers.len()
            invariant
                self@.wf(),
                i <= self.peers@.len(),
                forall|k: int| 0 <= k < i ==> (#[trigger] self@.peers[k]).address != address,
            decreases self.peers@.len() - i,
        {
            if self.peers[i].address() == address {
                proof {
                    self@.lemma_peer_index(address, i as int);
                }
                return Some(i);
            }
            i += 1;
        }
        None
    }

    /// Where in the restricted set the address is.
    fn find_restricted(&self, address: PeerAddress) -> (found: Option<usize>)
        requires
            self@.wf(),
        ensures
            match found {
                Some(j) => j < self@.restricted.len() && self@.is_listed(address)
                    && self@.restricted_index(address) == j,
                None => !self@.is_listed(address),
            },
    {
        let mut j: usize = 0;
        while j < self.restricted.len()
            invariant
                self@.wf(),
                j <= self.restricted@.len(),
                forall|k: int| 0 <= k < j ==> (#[trigger] self@.restricted[k]).address != address,
            decreases self.restricted@.len() - j,
        {
            if self.restricted[j].address == address {
                proof {
                    self@.lemma_restricted_index(address, j as int);
                }
                return Some(j);
            }
            j += 1;
        }
        None
    }

    /// Whether the address is in the table.
    pub fn is_connected(&self, address: PeerAddress) -> (connected: bool)
        requires
            self@.wf(),
        ensures
            connected == self@.is_connected(address),
    {
        self.find_peer(address).is_some()
    }

    /// The state of a connected peer; `None` where the address is not in the
    /// table.
    pub fn connected_peer(&self, address: PeerAddress) -> (peer: Option<&ConnectedPeer>)
        requires
            self@.wf(),
        ensures
            match peer {
                Some(p) => self@.is_connected(address) && p@
                    == self@.peers[self@.peer_index(address)] && p@.address == address,
                None => !self@.is_connected(address),
            },
    {
        match self.find_peer(address) {
            Some(i) => Some(&self.peers[i]),
            None => None,
        }
    }

    /// The addresses in the table, in the order in which they registered.
    pub fn connected_peers(&self) -> (addresses: Vec<PeerAddress>)
        ensures
            addresses@.len() == self@.peers.len(),
            forall|i: int|
                0 <= i < addresses@.len() ==> #[trigger] addresses@[i] == self@.peers[i].address,
    {
        let mut addresses: Vec<PeerAddress> = Vec::new();
        let mut i: usize = 0;
        while i < self.peers.len()
            invariant
                i <= self.peers@.len(),
                addresses@.len() == i,
                forall|k: int| 0 <= k < i ==> #[trigger] addresses@[k] == self@.peers[k].address,
            decreases self.peers@.len() - i,
        {
            addresses.push(self.peers[i].address());
            i += 1;
        }
        addresses
    }

    /// The restricted set, expired entries included, in the order in which
    /// the entries were made.
    pub fn restricted_peers(&self) -> (restricted: &Vec<RestrictedPeer>)
        ensures
            restricted@ == self@.restricted,
    {
        &self.restricted
    }

    /// Whether the address is restricted at `now`.
    pub fn is_restricted(&self, address: PeerAddress, now: u64) -> (restricted: bool)
        requires
            self@.wf(),
        ensures
            restricted == self@.is_restricted(address, now),
    {
        proof {
            self@.lemma_is_restricted(address, now);
        }
        match self.find_restricted(address) {
            Some(j) => self.restricted[j].is_active(self.restriction_secs, now),
            None => false,
        }
    }

    /// Decides on a connection attempt before its handshake.
    ///
    /// The attempt is refused if the address is restricted at `now`, or else
    /// if the table is full; otherwise it is accepted.
    pub fn admission(&self, address: PeerAddress, now: u64) -> (verdict: Admission)
        requires
            self@.wf(),
        ensures
            verdict == self@.admission(address, now),
            verdict is Accept <==> !self@.is_restricted(address, now) && self@.peers.len()
                < self@.maximum_peers,
    {
        if self.is_restricted(address, now) {
            Admission::Reject(RejectReason::Restricted)
        } else if self.peers.len() >= self.maximum_peers {
            Admission::Reject(RejectReason::TableFull)
        } else {
            Admission::Accept
        }
    }

    /// Takes the address out of the table and says whether it was there.
    /// Removing an address that is not in the table changes nothing.
    pub fn remove(&mut self, address: PeerAddress) -> (removed: bool)
        requires
            old(self)@.wf(),
        ensures
            final(self)@ == old(self)@.remove(address),
            removed == old(self)@.is_connected(address),
            !final(self)@.is_connected(address),
            final(self)@.wf(),
    {
        proof {
            self@.lemma_remove(address);
        }
        match self.find_peer(address) {
            Some(i) => {
                self.peers.remove(i);
                assert(self@.peers =~= old(self)@.remove(address).peers);
                true
            },
            None => false,
        }
    }

    /// Takes the address out of the restricted set and says whether it was
    /// there.
    pub fn clear_restriction(&mut self, address: PeerAddress) -> (cleared: bool)
        requires
            old(self)@.wf(),
        ensures
            final(self)@ == old(self)@.clear(address),
            cleared == old(self)@.is_listed(address),
            !final(self)@.is_listed(address),
            final(self)@.wf(),
    {
        proof {
            self@.lemma_clear(address);
        }
        match self.find_restricted(address) {
            Some(j) => {
                self.restricted.remove(j);
                true
            },
            None => false,
        }
    }

    /// Restricts the address from `now` on: takes it out of the table and
    /// gives it a fresh entry in the restricted set, in place of any that it
    /// had.
    pub fn restrict(&mut self, address: PeerAddress, reason: DisconnectReason, now: u64)
        requires
            old(self)@.wf(),
        ensures
            final(self)@ == old(self)@.restrict(address, reason, now),
            !final(self)@.is_connected(address),
            forall|at: u64| #[trigger]
                final(self)@.is_restricted(address, at) <==> at < now + old(
                    self,
                )@.restriction_secs,
            final(self)@.wf(),
    {
        proof {
            self@.lemma_restrict(address, reason, now);
        }
        let ghost before = self@;
        self.remove(address);
        let ghost removed = self@;
        self.clear_restriction(address);
        proof {
            assert(removed.restricted == before.restricted);
            if before.is_listed(address) {
                let j = before.restricted_index(address);
                assert(removed.restricted[j].address == address);
                removed.lemma_restricted_index(address, j);
            } else if removed.is_listed(address) {
                let j = removed.restricted_index(address);
                assert(before.restricted[j].address == address);
            }
            assert(self@.restricted == before.clear(address).restricted);
        }
        self.restricted.push(RestrictedPeer { address, restricted_at: now, reason });
        assert(self@.peers =~= before.restrict(address, reason, now).peers);
    }

    /// Registers a peer whose handshake has succeeded.
    ///
    /// The peer is registered if and only if its handshake is established,
    /// its address is not restricted at `now`, the table has room, and the
    /// address is not in the table; the error names the first of these that
    /// fails. A registered peer is the last of the table, with an empty log.
    pub fn register(&mut self, handshake: &Handshake, now: u64) -> (result: Result<
        (),
        RegisterError,
    >)
        requires
            old(self)@.wf(),
        ensures
            result == old(self)@.registration(handshake@, now),
            final(self)@ == old(self)@.register(handshake@, now),
            result is Ok ==> final(self)@.is_connected(handshake@.address),
            final(self)@.wf(),
    {
        proof {
            self@.lemma_register(handshake@, now);
        }
        if !handshake.is_established() {
            return Err(RegisterError::HandshakeIncomplete);
        }
        let address = handshake.address();
        match self.admission(address, now) {
            Admission::Reject(RejectReason::Restricted) => {
                return Err(RegisterError::Restricted);
            },
            Admission::Reject(RejectReason::TableFull) => {
                return Err(RegisterError::TableFull);
            },
            Admission::Accept => {},
        }
        if self.is_connected(address) {
            return Err(RegisterError::AlreadyConnected);
        }
        self.clear_restriction(address);
        self.peers.push(ConnectedPeer::new(address, handshake.side(), now, self.seen_capacity));
        assert(self@.peers =~= old(self)@.register(handshake@, now).peers);
        Ok(())
    }

    /// Drops the restrictions that have expired at `now`.
    pub fn sweep(&mut self, now: u64)
        requires
            old(self)@.wf(),
        ensures
            final(self)@ == old(self)@.sweep(now),
            final(self)@.wf(),
    {
        proof {
            self@.lemma_sweep(now);
        }
        let ghost pred = |r: RestrictedPeer| r.active(self.restriction_secs, now);
        let mut kept: Vec<RestrictedPeer> = Vec::new();
        let mut j: usize = 0;
        assert(self.restricted@.subrange(0, 0).filter(pred) =~= Seq::empty()) by {
            reveal(Seq::filter);
        }
        while j < self.restricted.len()
            invariant
                j <= self.restricted@.len(),
                pred == (|r: RestrictedPeer| r.active(self.restriction_secs, now)),
                kept@ == self.restricted@.subrange(0, j as int).filter(pred),
            decreases self.restricted@.len() - j,
        {
            let entry = self.restricted[j];
            proof {
                reveal(Seq::filter);
                let next = self.restricted@.subrange(0, j + 1);
                assert(next.drop_last() =~= self.restricted@.subrange(0, j as int));
                assert(next.last() == entry);
            }
            if entry.is_active(self.restriction_secs, now) {
                kept.push(entry);
            }
            j += 1;
        }
        assert(self.restricted@.subrange(0, j as int) =~= self.restricted@);
        self.restricted = kept;
    }

    /// Files a message from `address` in that peer's log of seen messages
    /// and says whether the peer is in the table. Where it is not, nothing
    /// changes.
    pub fn record_seen(&mut self, address: PeerAddress, id: u16, nonce: u32) -> (recorded: bool)
        requires
            old(self)@.wf(),
        ensures
            final(self)@ == old(self)@.record(address, SeenMessage { id, nonce }),
            recorded == old(self)@.is_connected(address),
            !recorded ==> final(self)@ == old(self)@,
            final(self)@.restricted == old(self)@.restricted,
            final(self)@.peers.len() == old(self)@.peers.len(),
            forall|other: PeerAddress| #[trigger]
                final(self)@.is_connected(other) == old(self)@.is_connected(other),
            final(self)@.wf(),
    {
        proof {
            self@.lemma_record(address, SeenMessage { id, nonce });
        }
        match self.find_peer(address) {
            Some(i) => {
                let mut peer = self.peers.remove(i);
                assert(peer@ == old(self)@.peers[i as int]);
                peer.insert_seen_message(id, nonce);
                self.peers.insert(i, peer);
                assert(self@.peers =~= old(self)@.record(
                    address,
                    SeenMessage { id, nonce },
                ).peers);
                true
            },
            None => false,
        }
    }
}

} // verus!

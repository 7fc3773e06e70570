//! What holds of the router over whole runs of operations.

use crate::address::PeerAddress;
use crate::handshake::HandshakeView;
use crate::message::DisconnectReason;
use crate::peer::SeenMessage;
use crate::router::{Admission, RegisterError, RejectReason, RouterView};
use vstd::prelude::*;

verus! {

/// One operation on a router.
pub enum RouterOp {
    Register { handshake: HandshakeView, now: u64 },
    Remove { address: PeerAddress },
    Restrict { address: PeerAddress, reason: DisconnectReason, now: u64 },
    Clear { address: PeerAddress },
    Sweep { now: u64 },
    Record { address: PeerAddress, entry: SeenMessage },
}

impl RouterOp {
    /// Whether the operation leaves a restriction of `address` made at `at`
    /// in force, in a router whose restrictions last `period` seconds: it
    /// does not clear that address, and it happens after the restriction was
    /// made and before it expires.
    pub open spec fn respects(self, address: PeerAddress, at: u64, period: u64) -> bool {
        match self {
            RouterOp::Register { handshake, now } => now < at + period,
            RouterOp::Remove { .. } => true,
            RouterOp::Restrict { address: restricted, now, .. } => restricted != address || at
                <= now,
            RouterOp::Clear { address: cleared } => cleared != address,
            RouterOp::Sweep { now } => now < at + period,
            RouterOp::Record { .. } => true,
        }
    }
}

/// Whether two routers restrict the same addresses at the same times.
pub open spec fn same_restrictions(a: RouterView, b: RouterView) -> bool {
    &&& forall|address: PeerAddress, at: u64| #[trigger]
        a.is_restricted(address, at) == b.is_restricted(address, at)
    &&& forall|address: PeerAddress| #[trigger] a.is_listed(address) == b.is_listed(address)
}

/// Routers with the same restricted set and the same period restrict alike.
pub proof fn lemma_same_restrictions(a: RouterView, b: RouterView)
    requires
        a.restricted == b.restricted,
        a.restriction_secs == b.restriction_secs,
    ensures
        same_restrictions(a, b),
{
    assert forall|address: PeerAddress, at: u64| #[trigger]
        a.is_restricted(address, at) == b.is_restricted(address, at) by {
        if a.is_restricted(address, at) {
            let j = choose|j: int|
                0 <= j < a.restricted.len() && (#[trigger] a.restricted[j]).address == address
                    && a.restricted[j].active(a.restriction_secs, at);
            assert(b.restricted[j].address == address);
        }
        if b.is_restricted(address, at) {
            let j = choose|j: int|
                0 <= j < b.restricted.len() && (#[trigger] b.restricted[j]).address == address
                    && b.restricted[j].active(b.restriction_secs, at);
            assert(a.restricted[j].address == address);
        }
    }
    assert forall|address: PeerAddress| #[trigger]
        a.is_listed(address) == b.is_listed(address) by {
        if a.is_listed(address) {
            let j = a.restricted_index(address);
            assert(b.restricted[j].address == address);
        }
        if b.is_listed(address) {
            let j = b.restricted_index(address);
            assert(a.restricted[j].address == address);
        }
    }
}

impl RouterView {
    /// The router after one operation.
    pub open spec fn apply(self, op: RouterOp) -> RouterView {
        match op {
            RouterOp::Register { handshake, now } => self.register(handshake, now),
            RouterOp::Remove { address } => self.remove(address),
            RouterOp::Restrict { address, reason, now } => self.restrict(address, reason, now),
            RouterOp::Clear { address } => self.clear(address),
            RouterOp::Sweep { now } => self.sweep(now),
            RouterOp::Record { address, entry } => self.record(address, entry),
        }
    }

    /// The router after a run of operations, first to last.
    pub open spec fn run(self, ops: Seq<RouterOp>) -> RouterView
        decreases ops.len(),
    {
        if ops.len() == 0 {
            self
        } else {
            self.run(ops.drop_last()).apply(ops.last())
        }
    }

    /// Whether the address is blocked at every moment before a restriction
    /// made at `at` expires.
    pub open spec fn blocks_until_expiry(self, address: PeerAddress, at: u64) -> bool {
        forall|now: u64|
            now < at + self.restriction_secs ==> #[trigger] self.is_restricted(address, now)
    }

    /// Every operation keeps the router well formed and its configuration as
    /// it is.
    pub proof fn lemma_apply_keeps_wf(self, op: RouterOp)
        requires
            self.wf(),
        ensures
            self.apply(op).wf(),
            self.apply(op).maximum_peers == self.maximum_peers,
            self.apply(op).restriction_secs == self.restriction_secs,
            self.apply(op).seen_capacity == self.seen_capacity,
    {
        match op {
            RouterOp::Register { handshake, now } => self.lemma_register(handshake, now),
            RouterOp::Remove { address } => self.lemma_remove(address),
            RouterOp::Restrict { address, reason, now } => self.lemma_restrict(
                address,
                reason,
                now,
            ),
            RouterOp::Clear { address } => self.lemma_clear(address),
            RouterOp::Sweep { now } => self.lemma_sweep(now),
            RouterOp::Record { address, entry } => self.lemma_record(address, entry),
        }
    }

    /// The invariant holds in every state that a run of operations reaches:
    /// no address is in the table twice, none is both in the table and
    /// restricted, and the table never holds more than the maximum.
    pub proof fn lemma_run_keeps_wf(self, ops: Seq<RouterOp>)
        requires
            self.wf(),
        ensures
            self.run(ops).wf(),
            self.run(ops).peers.len() <= self.maximum_peers,
            self.run(ops).maximum_peers == self.maximum_peers,
            self.run(ops).restriction_secs == self.restriction_secs,
            self.run(ops).seen_capacity == self.seen_capacity,
            forall|address: PeerAddress|
                !(#[trigger] self.run(ops).is_connected(address) && self.run(ops).is_listed(
                    address,
                )),
        decreases ops.len(),
    {
        if ops.len() > 0 {
            self.lemma_run_keeps_wf(ops.drop_last());
            self.run(ops.drop_last()).lemma_apply_keeps_wf(ops.last());
        }
        let end = self.run(ops);
        assert forall|address: PeerAddress|
            !(#[trigger] end.is_connected(address) && end.is_listed(address)) by {
            if end.is_connected(address) && end.is_listed(address) {
                let i = end.peer_index(address);
                let j = end.restricted_index(address);
                assert(end.peers[i].address != end.restricted[j].address);
            }
        }
    }

    /// A full table refuses every connection attempt before its handshake.
    pub proof fn lemma_full_table_rejects(self, address: PeerAddress, now: u64)
        requires
            self.peers.len() >= self.maximum_peers,
        ensures
            self.admission(address, now) is Reject,
            !self.is_restricted(address, now) ==> self.admission(address, now)
                == Admission::Reject(RejectReason::TableFull),
            forall|handshake: HandshakeView| !(#[trigger] self.registration(handshake, now) is Ok),
    {
    }

    /// Removing an address twice leaves the router as removing it once: the
    /// address is gone and the second removal changes nothing.
    pub proof fn lemma_remove_is_idempotent(self, address: PeerAddress)
        requires
            self.wf(),
        ensures
            self.remove(address).remove(address) == self.remove(address),
            !self.remove(address).is_connected(address),
            !self.is_connected(address) ==> self.remove(address) == self,
    {
        self.lemma_remove(address);
    }

    /// One operation leaves a restriction in force, if it respects it.
    pub proof fn lemma_apply_keeps_blocking(self, op: RouterOp, address: PeerAddress, at: u64)
        requires
            self.wf(),
            self.blocks_until_expiry(address, at),
            op.respects(address, at, self.restriction_secs),
        ensures
            self.apply(op).blocks_until_expiry(address, at),
    {
        let after = self.apply(op);
        self.lemma_apply_keeps_wf(op);
        match op {
            RouterOp::Register { handshake, now } => {
                self.lemma_register(handshake, now);
                if handshake.address == address {
                    assert(self.is_restricted(address, now));
                    assert(after == self);
                } else {
                    assert forall|t: u64| t < at + after.restriction_secs implies #[trigger]
                        after.is_restricted(address, t) by {
                        assert(self.is_restricted(address, t));
                    }
                }
            },
            RouterOp::Remove { address: removed } => {
                lemma_same_restrictions(after, self);
                assert forall|t: u64| t < at + after.restriction_secs implies #[trigger]
                    after.is_restricted(address, t) by {
                    assert(self.is_restricted(address, t));
                }
            },
            RouterOp::Restrict { address: restricted, reason, now } => {
                self.lemma_restrict(restricted, reason, now);
                assert forall|t: u64| t < at + after.restriction_secs implies #[trigger]
                    after.is_restricted(address, t) by {
                    assert(self.is_restricted(address, t));
                }
            },
            RouterOp::Clear { address: cleared } => {
                self.lemma_clear(cleared);
                assert forall|t: u64| t < at + after.restriction_secs implies #[trigger]
                    after.is_restricted(address, t) by {
                    assert(self.is_restricted(address, t));
                }
            },
            RouterOp::Sweep { now } => {
                self.lemma_sweep(now);
                assert(self.is_restricted(address, now));
                assert forall|t: u64| t < at + after.restriction_secs implies #[trigger]
                    after.is_restricted(address, t) by {
                    assert(self.is_restricted(address, t));
                }
            },
            RouterOp::Record { address: peer, entry } => {
                self.lemma_record(peer, entry);
                lemma_same_restrictions(after, self);
                assert forall|t: u64| t < at + after.restriction_secs implies #[trigger]
                    after.is_restricted(address, t) by {
                    assert(self.is_restricted(address, t));
                }
            },
        }
    }

    /// Once an address has been restricted, every connection attempt from it
    /// is refused until the restriction is cleared or expires.
    ///
    /// The restriction is made at `at`. Whatever operations follow, as long
    /// as each respects the restriction ([`RouterOp::respects`]), at every
    /// `now` before the expiry the address is refused admission, cannot be
    /// registered, and is not in the table.
    pub proof fn lemma_restricted_until_cleared_or_expired(
        self,
        address: PeerAddress,
        reason: DisconnectReason,
        at: u64,
        ops: Seq<RouterOp>,
        now: u64,
    )
        requires
            self.wf(),
            forall|k: int|
                0 <= k < ops.len() ==> (#[trigger] ops[k]).respects(
                    address,
                    at,
                    self.restriction_secs,
                ),
            now < at + self.restriction_secs,
        ensures
            self.restrict(address, reason, at).run(ops).blocks_until_expiry(address, at),
            self.restrict(address, reason, at).run(ops).admission(address, now)
                == Admission::Reject(RejectReason::Restricted),
            !self.restrict(address, reason, at).run(ops).is_connected(address),
            forall|handshake: HandshakeView|
                handshake.address == address ==> !(#[trigger] self.restrict(
                    address,
                    reason,
                    at,
                ).run(ops).registration(handshake, now) is Ok),
        decreases ops.len(),
    {
        let start = self.restrict(address, reason, at);
        let end = start.run(ops);
        self.lemma_restrict(address, reason, at);
        start.lemma_run_keeps_wf(ops);
        if ops.len() == 0 {
            assert(end.blocks_until_expiry(address, at));
        } else {
            let before = start.run(ops.drop_last());
            assert forall|k: int| 0 <= k < ops.drop_last().len() implies (
            #[trigger] ops.drop_last()[k]).respects(address, at, self.restriction_secs) by {
                assert(ops[k].respects(address, at, self.restriction_secs));
            }
            self.lemma_restricted_until_cleared_or_expired(
                address,
                reason,
                at,
                ops.drop_last(),
                now,
            );
            start.lemma_run_keeps_wf(ops.drop_last());
            assert(ops.last() == ops[ops.len() - 1]);
            before.lemma_apply_keeps_blocking(ops.last(), address, at);
        }
        assert(end.is_restricted(address, now));
        assert(!end.is_connected(address)) by {
            let j = choose|j: int|
                0 <= j < end.restricted.len() && (#[trigger] end.restricted[j]).address
                    == address && end.restricted[j].active(end.restriction_secs, now);
            end.lemma_restricted_index(address, j);
        }
    }

    /// Whether each of the handshakes, registered in turn at the time that
    /// goes with it, is registered.
    pub open spec fn registers_all(self, handshakes: Seq<(HandshakeView, u64)>) -> bool
        decreases handshakes.len(),
    {
        handshakes.len() == 0 || (self.registers_all(handshakes.drop_last())
            && self.register_all(handshakes.drop_last()).registration(
            handshakes.last().0,
            handshakes.last().1,
        ) is Ok)
    }

    /// The router after the handshakes have been registered in turn.
    pub open spec fn register_all(self, handshakes: Seq<(HandshakeView, u64)>) -> RouterView
        decreases handshakes.len(),
    {
        if handshakes.len() == 0 {
            self
        } else {
            self.register_all(handshakes.drop_last()).register(
                handshakes.last().0,
                handshakes.last().1,
            )
        }
    }

    /// Each successful handshake takes one place of the table: after a run
    /// of them the table has grown by their number, which therefore never
    /// exceeds the room that was left.
    pub proof fn lemma_registrations_fill(self, handshakes: Seq<(HandshakeView, u64)>)
        requires
            self.wf(),
            self.registers_all(handshakes),
        ensures
            self.register_all(handshakes).wf(),
            self.register_all(handshakes).maximum_peers == self.maximum_peers,
            self.register_all(handshakes).peers.len() == self.peers.len() + handshakes.len(),
            self.peers.len() + handshakes.len() <= self.maximum_peers,
        decreases handshakes.len(),
    {
        if handshakes.len() > 0 {
            self.lemma_registrations_fill(handshakes.drop_last());
            self.register_all(handshakes.drop_last()).lemma_register(
                handshakes.last().0,
                handshakes.last().1,
            );
        }
    }

    /// After as many successful handshakes as the table has room for, the
    /// next connection attempt is refused before its handshake, whatever its
    /// address; and while there is room, an address that is not restricted
    /// is accepted.
    pub proof fn lemma_admission_after_handshakes(
        self,
        handshakes: Seq<(HandshakeView, u64)>,
        address: PeerAddress,
        now: u64,
    )
        requires
            self.wf(),
            self.registers_all(handshakes),
        ensures
            self.peers.len() + handshakes.len() == self.maximum_peers ==> self.register_all(
                handshakes,
            ).admission(address, now) is Reject,
            self.peers.len() + handshakes.len() < self.maximum_peers && !self.register_all(
                handshakes,
            ).is_restricted(address, now) ==> self.register_all(handshakes).admission(
                address,
                now,
            ) is Accept,
    {
        self.lemma_registrations_fill(handshakes);
    }

    /// No peer without a handshake: a handshake short of `Established`
    /// registers nothing.
    pub proof fn lemma_no_peer_without_handshake(self, handshake: HandshakeView, now: u64)
        requires
            self.wf(),
            !(handshake.state is Established),
        ensures
            self.registration(handshake, now) == Err::<(), RegisterError>(
                RegisterError::HandshakeIncomplete,
            ),
            self.register(handshake, now) == self,
    {
    }

    /// An address enters the table by a successful registration and in no
    /// other way: an operation after which an address is connected that was
    /// not connected before is the registration of an established handshake
    /// with that address.
    pub proof fn lemma_connected_only_by_registration(self, op: RouterOp, address: PeerAddress)
        requires
            self.wf(),
            !self.is_connected(address),
            self.apply(op).is_connected(address),
        ensures
            op matches RouterOp::Register { handshake, now } && handshake.address == address
                && handshake.state is Established && self.registration(handshake, now) is Ok,
    {
        let after = self.apply(op);
        match op {
            RouterOp::Register { handshake, now } => {
                self.lemma_register(handshake, now);
                if handshake.address != address {
                    assert(after.is_connected(address) == self.is_connected(address));
                }
            },
            RouterOp::Remove { address: removed } => {
                self.lemma_remove(removed);
                if removed != address {
                    assert(after.is_connected(address) == self.is_connected(address));
                }
            },
            RouterOp::Restrict { address: restricted, reason, now } => {
                self.lemma_restrict(restricted, reason, now);
                if restricted != address {
                    assert(after.is_connected(address) == self.is_connected(address));
                }
            },
            RouterOp::Clear { address: cleared } => {
                let i = after.peer_index(address);
                assert(self.peers[i].address == address);
            },
            RouterOp::Sweep { now } => {
                let i = after.peer_index(address);
                assert(self.peers[i].address == address);
            },
            RouterOp::Record { address: peer, entry } => {
                self.lemma_record(peer, entry);
                assert(after.is_connected(address) == self.is_connected(address));
            },
        }
    }
}

} // verus!

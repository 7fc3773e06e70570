//! The state that the router keeps of one connected peer.

use crate::address::{ConnectionSide, PeerAddress};
use vstd::prelude::*;

verus! {

/// One entry of a peer's log of seen messages: the message's identifier and
/// the nonce it was filed under.
#[derive(Clone, Copy, Debug, PartialEq, Eq, Structural)]
pub struct SeenMessage {
    pub id: u16,
    pub nonce: u32,
}

/// What a [`ConnectedPeer`] holds.
pub struct ConnectedPeerView {
    pub address: PeerAddress,
    pub side: ConnectionSide,
    /// When the peer was registered, in seconds.
    pub connected_at: u64,
    /// The log of seen messages, oldest first.
    pub seen: Seq<SeenMessage>,
    /// The most entries that the log holds.
    pub capacity: nat,
}

impl ConnectedPeerView {
    /// A peer that has just been registered: its log is empty.
    pub open spec fn fresh(
        address: PeerAddress,
        side: ConnectionSide,
        connected_at: u64,
        capacity: nat,
    ) -> ConnectedPeerView {
        ConnectedPeerView { address, side, connected_at, seen: Seq::empty(), capacity }
    }

    /// The log is bounded and holds no entry twice.
    pub open spec fn wf(self) -> bool {
        &&& self.seen.len() <= self.capacity
        &&& self.seen.no_duplicates()
    }

    /// The peer after a message has been seen.
    ///
    /// An entry that the log already holds changes nothing. Otherwise the
    /// entry becomes the newest, and where the log is full the oldest entry
    /// leaves to make room. A log of capacity zero stays empty.
    pub open spec fn record(self, entry: SeenMessage) -> ConnectedPeerView {
        if self.capacity == 0 || self.seen.contains(entry) {
            self
        } else if self.seen.len() < self.capacity {
            ConnectedPeerView { seen: self.seen.push(entry), ..self }
        } else {
            ConnectedPeerView { seen: self.seen.drop_first().push(entry), ..self }
        }
    }

    /// Recording keeps the log bounded and free of repetitions, keeps what
    /// was there in its order but for the oldest entry where room is needed,
    /// and leaves the entry in the log unless the log has no room at all.
    pub proof fn lemma_record(self, entry: SeenMessage)
        requires
            self.wf(),
        ensures
            self.record(entry).wf(),
            self.record(entry).address == self.address,
            self.record(entry).side == self.side,
            self.record(entry).connected_at == self.connected_at,
            self.record(entry).capacity == self.capacity,
            self.capacity > 0 ==> self.record(entry).seen.contains(entry),
            self.capacity > 0 && !self.seen.contains(entry) ==> self.record(entry).seen.last()
                == entry,
    {
        let after = self.record(entry).seen;
        if self.capacity == 0 || self.seen.contains(entry) {
        } else if self.seen.len() < self.capacity {
            assert(after[after.len() - 1] == entry);
            assert forall|i: int, j: int| 0 <= i < after.len() && 0 <= j < after.len() && i != j
                implies after[i] != after[j] by {
                if i < self.seen.len() {
                    assert(self.seen.contains(self.seen[i]));
                }
                if j < self.seen.len() {
                    assert(self.seen.contains(self.seen[j]));
                }
            }
        } else {
            let rest = self.seen.drop_first();
            assert(after[after.len() - 1] == entry);
            assert forall|i: int, j: int| 0 <= i < after.len() && 0 <= j < after.len() && i != j
                implies after[i] != after[j] by {
                if i < rest.len() {
                    assert(rest[i] == self.seen[i + 1]);
                    assert(self.seen.contains(self.seen[i + 1]));
                }
                if j < rest.len() {
                    assert(rest[j] == self.seen[j + 1]);
                    assert(self.seen.contains(self.seen[j + 1]));
                }
            }
        }
    }
}

/// A peer whose handshake has succeeded.
#[derive(Debug, PartialEq, Eq)]
pub struct ConnectedPeer {
    address: PeerAddress,
    side: ConnectionSide,
    connected_at: u64,
    seen: Vec<SeenMessage>,
    capacity: usize,
}

impl View for ConnectedPeer {
    type V = ConnectedPeerView;

    closed spec fn view(&self) -> ConnectedPeerView {
        ConnectedPeerView {
            address: self.address,
            side: self.side,
            connected_at: self.connected_at,
            seen: self.seen@,
            capacity: self.capacity as nat,
        }
    }
}

impl Clone for ConnectedPeer {
    fn clone(&self) -> (copy: ConnectedPeer)
        ensures
            copy@ == self@,
    {
        let mut seen: Vec<SeenMessage> = Vec::new();
        let mut i: usize = 0;
        while i < self.seen.len()
            invariant
                i <= self.seen@.len(),
                seen@ == self.seen@.subrange(0, i as int),
            decreases self.seen@.len() - i,
        {
            seen.push(self.seen[i]);
            i += 1;
            assert(seen@ =~= self.seen@.subrange(0, i as int));
        }
        assert(seen@ =~= self.seen@);
        ConnectedPeer {
            address: self.address,
            side: self.side,
            connected_at: self.connected_at,
            seen,
            capacity: self.capacity,
        }
    }
}

impl ConnectedPeer {
    /// A peer registered at `connected_at` whose log holds at most `capacity`
    /// entries.
    pub fn new(
        address: PeerAddress,
        side: ConnectionSide,
        connected_at: u64,
        capacity: usize,
    ) -> (peer: ConnectedPeer)
        ensures
            peer@ == ConnectedPeerView::fresh(address, side, connected_at, capacity as nat),
            peer@.wf(),
    {
        ConnectedPeer { address, side, connected_at, seen: Vec::new(), capacity }
    }

    /// The peer's endpoint.
    pub fn address(&self) -> (address: PeerAddress)
        ensures
            address == self@.address,
    {
        self.address
    }

    /// Which end of the connection this node is.
    pub fn side(&self) -> (side: ConnectionSide)
        ensures
            side == self@.side,
    {
        self.side
    }

    /// When the peer was registered, in seconds.
    pub fn connected_at(&self) -> (at: u64)
        ensures
            at == self@.connected_at,
    {
        self.connected_at
    }

    /// The most entries that the log holds.
    pub fn capacity(&self) -> (capacity: usize)
        ensures
            capacity == self@.capacity,
    {
        self.capacity
    }

    /// The log of seen messages, oldest first.
    pub fn seen_messages(&self) -> (seen: &Vec<SeenMessage>)
        ensures
            seen@ == self@.seen,
    {
        &self.seen
    }

    /// Whether the log holds the entry.
    pub fn has_seen(&self, id: u16, nonce: u32) -> (found: bool)
        ensures
            found == self@.seen.contains(SeenMessage { id, nonce }),
    {
        let entry = SeenMessage { id, nonce };
        let mut i: usize = 0;
        while i < self.seen.len()
            invariant
                i <= self.seen@.len(),
                entry == (SeenMessage { id, nonce }),
                forall|k: int| 0 <= k < i ==> self.seen@[k] != entry,
            decreases self.seen@.len() - i,
        {
            if self.seen[i] == entry {
                assert(self.seen@[i as int] == entry);
                return true;
            }
            i += 1;
        }
        false
    }

    /// Files a message in the log of seen messages; see
    /// [`ConnectedPeerView::record`].
    pub fn insert_seen_message(&mut self, id: u16, nonce: u32)
        requires
            old(self)@.wf(),
        ensures
            final(self)@ == old(self)@.record(SeenMessage { id, nonce }),
            final(self)@.wf(),
    {
        let entry = SeenMessage { id, nonce };
        proof {
            self@.lemma_record(entry);
        }
        if self.capacity == 0 || self.has_seen(id, nonce) {
            return ;
        }
        if self.seen.len() >= self.capacity {
            self.seen.remove(0);
            assert(self.seen@ =~= old(self).seen@.drop_first());
        }
        self.seen.push(entry);
    }
}

} // verus!

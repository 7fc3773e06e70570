//! Decode failures, counted per address.
//!
//! A frame that does not decode ends its connection, and the address is
//! given a strike. Strikes outlive connections. An address that reaches the
//! limit is treated as a violator, and its strikes are forgotten. The log
//! holds a bounded number of addresses, the most recently struck last; where
//! it is full, the address struck longest ago is forgotten to make room.

use crate::address::PeerAddress;
use vstd::prelude::*;

verus! {

/// The decode failures of one address.
#[derive(Clone, Copy, Debug, PartialEq, Eq, Structural)]
pub struct Strike {
    pub address: PeerAddress,
    pub count: u32,
}

/// What a [`FailureLog`] holds.
pub struct FailureLogView {
    /// The addresses with strikes, the most recently struck last.
    pub strikes: Seq<Strike>,
    /// The most addresses that the log holds.
    pub capacity: nat,
    /// The number of failures at which an address is a violator.
    pub limit: u32,
}

impl FailureLogView {
    /// A log without strikes.
    pub open spec fn empty(capacity: nat, limit: u32) -> FailureLogView {
        FailureLogView { strikes: Seq::empty(), capacity, limit }
    }

    /// The log is bounded, holds no address twice, and every count in it is
    /// at least one and short of the limit.
    pub open spec fn wf(self) -> bool {
        &&& self.strikes.len() <= self.capacity
        &&& forall|i: int, j: int|
            0 <= i < j < self.strikes.len() ==> (#[trigger] self.strikes[i]).address != (
            #[trigger] self.strikes[j]).address
        &&& forall|i: int|
            0 <= i < self.strikes.len() ==> 1 <= (#[trigger] self.strikes[i]).count < self.limit
    }

    /// Whether the address has strikes.
    pub open spec fn is_listed(self, address: PeerAddress) -> bool {
        exists|i: int|
            0 <= i < self.strikes.len() && (#[trigger] self.strikes[i]).address == address
    }

    /// Where in the log the address is.
    pub open spec fn index_of(self, address: PeerAddress) -> int {
        choose|i: int|
            0 <= i < self.strikes.len() && (#[trigger] self.strikes[i]).address == address
    }

    /// How many failures the log remembers of the address.
    pub open spec fn failures_of(self, address: PeerAddress) -> nat {
        if self.is_listed(address) {
            self.strikes[self.index_of(address)].count as nat
        } else {
            0
        }
    }

    /// Whether one more failure makes the address a violator.
    pub open spec fn escalates(self, address: PeerAddress) -> bool {
        self.failures_of(address) + 1 >= self.limit
    }

    /// The log without the address.
    pub open spec fn forget(self, address: PeerAddress) -> FailureLogView {
        if self.is_listed(address) {
            FailureLogView { strikes: self.strikes.remove(self.index_of(address)), ..self }
        } else {
            self
        }
    }

    /// The log after one more failure of the address.
    ///
    /// Where the failure makes the address a violator, its strikes are
    /// forgotten. Otherwise its count, one higher, becomes the newest entry;
    /// a full log first forgets its oldest entry, and a log without room
    /// remembers nothing.
    pub open spec fn strike(self, address: PeerAddress) -> FailureLogView {
        let rest = self.forget(address).strikes;
        let entry = Strike { address, count: (self.failures_of(address) + 1) as u32 };
        if self.escalates(address) || self.capacity == 0 {
            FailureLogView { strikes: rest, ..self }
        } else if rest.len() < self.capacity {
            FailureLogView { strikes: rest.push(entry), ..self }
        } else {
            FailureLogView { strikes: rest.drop_first().push(entry), ..self }
        }
    }

    /// In a well-formed log an address is at one place only.
    pub proof fn lemma_index_of(self, address: PeerAddress, i: int)
        requires
            self.wf(),
            0 <= i < self.strikes.len(),
            self.strikes[i].address == address,
        ensures
            self.is_listed(address),
            self.index_of(address) == i,
            self.failures_of(address) == self.strikes[i].count,
    {
        let k = self.index_of(address);
        assert(self.strikes[k].address == address);
        if k < i {
            assert(self.strikes[k].address != self.strikes[i].address);
        } else if i < k {
            assert(self.strikes[i].address != self.strikes[k].address);
        }
    }

    /// Forgetting keeps the log well formed and leaves the address without
    /// strikes.
    pub proof fn lemma_forget(self, address: PeerAddress)
        requires
            self.wf(),
        ensures
            self.forget(address).wf(),
            !self.forget(address).is_listed(address),
            self.forget(address).failures_of(address) == 0,
            self.forget(address).strikes.len() == if self.is_listed(address) {
                self.strikes.len() - 1
            } else {
                self.strikes.len() as int
            },
    {
        let after = self.forget(address);
        if self.is_listed(address) {
            let i = self.index_of(address);
            assert forall|k: int| 0 <= k < after.strikes.len() implies #[trigger] after.strikes[k]
                == self.strikes[if k < i {
                k
            } else {
                k + 1
            }] by {}
            assert forall|x: int, y: int| 0 <= x < y < after.strikes.len() implies (
            #[trigger] after.strikes[x]).address != (#[trigger] after.strikes[y]).address by {
                let x0 = if x < i {
                    x
                } else {
                    x + 1
                };
                let y0 = if y < i {
                    y
                } else {
                    y + 1
                };
                assert(self.strikes[x0].address != self.strikes[y0].address);
            }
            assert forall|x: int| 0 <= x < after.strikes.len() implies 1 <= (
            #[trigger] after.strikes[x]).count < after.limit by {
                let x0 = if x < i {
                    x
                } else {
                    x + 1
                };
                assert(1 <= self.strikes[x0].count < self.limit);
            }
            if after.is_listed(address) {
                let k = after.index_of(address);
                let k0 = if k < i {
                    k
                } else {
                    k + 1
                };
                self.lemma_index_of(address, k0);
            }
        }
    }

    /// A strike keeps the log well formed. It either makes the address a
    /// violator and clears its count, or raises its count by one, unless the
    /// log has no room at all.
    pub proof fn lemma_strike(self, address: PeerAddress)
        requires
            self.wf(),
        ensures
            self.strike(address).wf(),
            self.strike(address).capacity == self.capacity,
            self.strike(address).limit == self.limit,
            self.escalates(address) ==> self.strike(address).failures_of(address) == 0,
            !self.escalates(address) && self.capacity > 0 ==> self.strike(address).failures_of(
                address,
            ) == self.failures_of(address) + 1,
    {
        let forgotten = self.forget(address);
        let rest = forgotten.strikes;
        let after = self.strike(address);
        let entry = Strike { address, count: (self.failures_of(address) + 1) as u32 };
        self.lemma_forget(address);
        if self.is_listed(address) {
            assert(1 <= self.strikes[self.index_of(address)].count < self.limit);
        }
        if self.escalates(address) || self.capacity == 0 {
            assert(after == forgotten);
        } else {
            let kept = if rest.len() < self.capacity {
                rest
            } else {
                rest.drop_first()
            };
            let shift: int = if rest.len() < self.capacity {
                0
            } else {
                1
            };
            let last = after.strikes.len() - 1;
            assert(after.strikes =~= kept.push(entry));
            assert forall|k: int| 0 <= k < kept.len() implies #[trigger] kept[k] == rest[k
                + shift] by {}
            assert forall|k: int| 0 <= k < kept.len() implies (#[trigger] kept[k]).address
                != address by {
                if rest[k + shift].address == address {
                    assert(forgotten.is_listed(address));
                }
            }
            assert forall|x: int, y: int| 0 <= x < y < after.strikes.len() implies (
            #[trigger] after.strikes[x]).address != (#[trigger] after.strikes[y]).address by {
                if y == last {
                    assert(kept[x].address != address);
                } else {
                    assert(rest[x + shift].address != rest[y + shift].address);
                }
            }
            assert forall|x: int| 0 <= x < after.strikes.len() implies 1 <= (
            #[trigger] after.strikes[x]).count < after.limit by {
                if x < last {
                    assert(1 <= rest[x + shift].count < self.limit);
                }
            }
            assert(after.strikes[last] == entry);
            after.lemma_index_of(address, last);
        }
    }
}

/// The log of decode failures.
#[derive(Debug)]
pub struct FailureLog {
    strikes: Vec<Strike>,
    capacity: usize,
    limit: u32,
}

impl View for FailureLog {
    type V = FailureLogView;

    closed spec fn view(&self) -> FailureLogView {
        FailureLogView {
            strikes: self.strikes@,
            capacity: self.capacity as nat,
            limit: self.limit,
        }
    }
}

impl FailureLog {
    /// A log without strikes that holds at most `capacity` addresses and
    /// makes an address a violator at its `limit`-th failure.
    pub fn new(capacity: usize, limit: u32) -> (log: FailureLog)
        ensures
            log@ == FailureLogView::empty(capacity as nat, limit),
            forall|address: PeerAddress| #[trigger] log@.failures_of(address) == 0,
            log@.wf(),
    {
        FailureLog { strikes: Vec::new(), capacity, limit }
    }

    /// Where in the log the address is.
    fn find(&self, address: PeerAddress) -> (found: Option<usize>)
        requires
            self@.wf(),
        ensures
            match found {
                Some(i) => i < self@.strikes.len() && self@.is_listed(address) && self@.index_of(
                    address,
                ) == i,
                None => !self@.is_listed(address),
            },
    {
        let mut i: usize = 0;
        while i < self.strikes.len()
            invariant
                self@.wf(),
                i <= self.strikes@.len(),
                forall|k: int| 0 <= k < i ==> (#[trigger] self@.strikes[k]).address != address,
            decreases self.strikes@.len() - i,
        {
            if self.strikes[i].address == address {
                proof {
                    self@.lemma_index_of(address, i as int);
                }
                return Some(i);
            }
            i += 1;
        }
        None
    }

    /// How many failures the log remembers of the address.
    pub fn failures_of(&self, address: PeerAddress) -> (count: u32)
        requires
            self@.wf(),
        ensures
            count == self@.failures_of(address),
    {
        match self.find(address) {
            Some(i) => self.strikes[i].count,
            None => 0,
        }
    }

    /// Counts one more failure of the address and says whether that makes it
    /// a violator.
    pub fn strike(&mut self, address: PeerAddress) -> (violator: bool)
        requires
            old(self)@.wf(),
        ensures
            final(self)@ == old(self)@.strike(address),
            violator == old(self)@.escalates(address),
            violator ==> final(self)@.failures_of(address) == 0,
            !violator && old(self)@.capacity > 0 ==> final(self)@.failures_of(address) == old(
                self,
            )@.failures_of(address) + 1,
            final(self)@.capacity == old(self)@.capacity,
            final(self)@.limit == old(self)@.limit,
            final(self)@.wf(),
    {
        proof {
            self@.lemma_strike(address);
            self@.lemma_forget(address);
        }
        let found = self.find(address);
        let before: u32 = match found {
            Some(i) => self.strikes[i].count,
            None => 0,
        };
        if let Some(i) = found {
            self.strikes.remove(i);
        }
        assert(self@.strikes == old(self)@.forget(address).strikes);
        if self.limit == 0 || before >= self.limit - 1 {
            return true;
        }
        if self.capacity == 0 {
            return false;
        }
        if self.strikes.len() >= self.capacity {
            self.strikes.remove(0);
            assert(self@.strikes =~= old(self)@.forget(address).strikes.drop_first());
        }
        self.strikes.push(Strike { address, count: before + 1 });
        false
    }
}

} // verus!

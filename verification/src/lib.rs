//! The peer-to-peer core of a node that hands out puzzles.
//!
//! The crate decides and leaves the doing to its caller. It takes plain
//! values, addresses, bytes, clock readings and what the ledger answered, and
//! returns plain values: verdicts, frames, and lists of actions to perform.
//!
//! - [`address`]: network endpoints.
//! - [`message`], [`codec`]: the protocol's messages and their frames.
//! - [`handshake`]: the negotiation that precedes all traffic.
//! - [`peer`], [`router`]: the table of connected peers and the set of
//!   restricted addresses; [`laws`] states what holds of them over whole runs
//!   of operations.
//! - [`routes`]: what a node's role contributes, and the beacon's role.
//! - [`dispatch`], [`failures`]: what happens to each inbound message, and to
//!   frames that do not decode.
//! - [`account`], [`base58`]: the text form of an account's private key.
//! - [`bytes`]: little-endian integers.

pub mod account;
pub mod address;
pub mod base58;
pub mod bytes;
pub mod codec;
pub mod dispatch;
pub mod failures;
pub mod handshake;
pub mod laws;
pub mod message;
pub mod peer;
pub mod router;
pub mod routes;

//! Core of a minimal peer-to-peer node: a cryptographic peer identity, a
//! structured network address built from a textual `host[:port]`, and the
//! connection-management and liveness-probe state machines that turn
//! transport-level occurrences into an ordered stream of observable events.
//!
//! The underlying transport (encryption, multiplexing, sockets) is an
//! external collaborator; this crate holds the protocol logic and proves
//! its contracts.

pub mod address;
pub mod heartbeat;
pub mod identity;
pub mod manager;
pub mod wire;

use vstd::prelude::*;

verus! {

/// The transport port used when a dial target or listener gives none.
pub const DEFAULT_PORT: u16 = 8080;

} // verus!

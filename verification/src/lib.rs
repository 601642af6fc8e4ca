//! Session-scoped pub/sub relay for a retro-console game running under a
//! static recompilation host.
//!
//! The crate holds the verified core of both halves of the system: the relay
//! hub's connection/session state machine with its fan-out policy, the
//! client's connection lifecycle and inbound-event demultiplexer, and the
//! byte-level marshaling between guest memory and in-process values. The
//! socket layer, the host-facing C ABI and the JSON plumbing around it live
//! outside the library.

use vstd::prelude::*;

pub mod assoc;
pub mod client;
pub mod codec;
pub mod guest;
pub mod hub;
pub mod marshal;
pub mod messages;
pub mod types;

verus! {

/// Errors surfaced by the client session core to its callers.
#[derive(Clone, Copy, Debug, PartialEq, Eq, Structural)]
pub enum ClientError {
    /// `connect` was called while a connection is already established.
    AlreadyConnected,
    /// An operation that needs an established connection was called without one.
    NotConnected,
}

} // verus!

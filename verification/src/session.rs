//! The handshake: version exchange, security negotiation and
//! initialisation, as a state machine for each side. The machines take
//! bytes that have arrived and give bytes to send; they never wait.
use vstd::prelude::*;

pub mod client;
pub mod server;

pub use client::{ClientHandshake, ClientStep};
pub use server::{ServerHandshake, ServerStep};

verus! {

/// Where a session stands.
#[derive(Debug, Clone, Copy, PartialEq, Eq)]
pub enum State {
    /// Waiting for the version of the other side.
    AwaitingVersion,
    /// Waiting for the security types that the server offers or, on the
    /// server, for the one that the client picks.
    AwaitingSecurityList,
    /// Waiting for the outcome of authentication and, before that, for what
    /// the chosen security type exchanges.
    AwaitingSecurityResult,
    /// Waiting for the initialisation message of the other side.
    AwaitingInit,
    /// The handshake is done; messages flow.
    Established,
    /// The session has failed or ended, for good.
    Closed,
}

} // verus!

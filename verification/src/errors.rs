//! The error taxonomy: connection establishment and request dispatch each
//! report a distinguishable error value; no failure is a silent no-op.

use vstd::prelude::*;

verus! {

/// Why a connection could not be established.
#[derive(Clone, Copy, Debug, PartialEq, Eq, Structural)]
pub enum ConnectError {
    /// The endpoint string is not a valid URL.
    InvalidEndpoint,
    /// Name resolution or the transport-level connection failed.
    Network,
    /// The server declined the protocol upgrade.
    HandshakeRejected,
    /// A configured deadline elapsed before the handshake completed.
    Timeout,
}

/// Why a request could not be dispatched over a registered socket.
#[derive(Clone, Copy, Debug, PartialEq, Eq, Structural)]
pub enum DispatchError {
    /// No socket is registered under the identifier.
    NotConnected,
    /// The socket broke during the exchange; its entry has been removed.
    ConnectionLost,
    /// The peer's reply could not be decoded.
    SerializationFailure,
}

} // verus!

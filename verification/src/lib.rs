//! A keyed WebSocket connection registry with authenticated handshake
//! establishment.
//!
//! The library builds an authenticated upgrade request from connection
//! parameters, keeps a registry mapping caller-chosen identifiers to open
//! sockets, and prepares and completes request/response exchanges over a
//! registered socket.  Network I/O itself is performed by the surrounding
//! application; every decision and every byte of the wire format is made
//! here, under contract.

pub mod dispatch;
pub mod errors;
pub mod handshake;
pub mod registry;
pub mod wire;

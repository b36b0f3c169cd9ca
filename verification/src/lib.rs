//! A network filesystem core: a typed operation/response protocol, a
//! deterministic byte codec, length-delimited framing, an authenticated
//! encrypted channel, and the client- and server-side dispatch logic that
//! drives one request/response exchange at a time over a byte stream.
//!
//! Everything here is pure protocol logic on plain values; sockets and real
//! filesystem calls live with the embedding program, which feeds bytes in and
//! carries bytes out.

pub mod protocol;
pub mod codec;
pub mod channel;
pub mod frame;
pub mod client;
pub mod server;
pub mod filesystem;

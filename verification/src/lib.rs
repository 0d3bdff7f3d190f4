//! A WebSocket endpoint without the sockets: the frame codec, the
//! handshake and the per-connection state machine, as functions on
//! bytes and plain values.

pub mod client;
pub mod endian;
pub mod frame;
pub mod handler;
pub mod handshake;
pub mod server;

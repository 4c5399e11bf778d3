//! Tunnelling of UDP datagrams over a reliable byte stream.
//!
//! The library holds the parts of the tunnel that decide: the frame codec,
//! the client relay's connection and routing rules, and the server session's
//! rules. Sockets, timers and the event loops that drive these decisions live
//! in the program around the library.

pub mod client;
pub mod codec;
pub mod endpoint;
pub mod server;

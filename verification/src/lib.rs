//! A verified core for a UDP multipath relay: a client spreads WireGuard
//! traffic over every usable network interface, and a server fans the
//! traffic back out to every client address that is still alive.
//!
//! The library holds the decisions: which interface address is usable, which
//! sending routine is stale, which client has timed out, how settings are
//! completed with their defaults, and the text the programs print.
//! Sockets, timers and logging stay with the programs that use it.

pub mod client;
pub mod header;
pub mod interfaces;
pub mod net;
pub mod notice;
pub mod server;

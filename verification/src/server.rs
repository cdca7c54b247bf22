//! The server side: its settings and the table of client addresses it
//! relays to.

pub mod clients;
pub mod settings;

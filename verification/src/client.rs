//! The client side: its settings, the table of sending routines (one per
//! usable interface) and the decisions the client's loops take.

pub mod routines;
pub mod service;
pub mod settings;

//! Core of a small shared-state meal-voting service: an in-memory store of
//! dinner options and people, a validated command protocol with an
//! admin-gated authorization model, snapshot conversion for persistence, and
//! the read-only queries of the wire protocol.

pub mod command;
pub mod digits;
pub mod laws;
pub mod protocol;
pub mod store;
pub mod table;

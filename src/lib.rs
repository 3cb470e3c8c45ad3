//! Reassembly of author-tagged messages that a line transport splits into
//! fragments, and their ordered fan-out to independent consumers.

pub mod record;
pub mod reassembly;
pub mod hub;
pub mod store;
pub mod chat;

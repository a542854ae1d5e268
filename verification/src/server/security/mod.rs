//! Checks on what clients hand the server.

pub mod net;
pub mod path;

//! The MovieBox API: mirrors, answers and visitor sessions.

pub mod client;
pub mod session;

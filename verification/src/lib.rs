//! Download catalogue, job pipeline and library naming for the MovieBox server.

pub mod json;
pub mod text;
pub mod urls;
pub mod catalog;
pub mod server;
pub mod providers;

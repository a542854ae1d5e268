//! Upstream content providers.

pub mod moviebox;

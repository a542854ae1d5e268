//! What the HTTP API decides for its requests.

pub mod assets;
pub mod discover;
pub mod jobs;
pub mod mcp;

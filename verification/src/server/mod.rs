//! The download server: configuration, jobs, library layout and request checks.

pub mod auth;
pub mod config;
pub mod error;
pub mod events;
pub mod jobs;
pub mod library;
pub mod notify;
pub mod routes;
pub mod security;

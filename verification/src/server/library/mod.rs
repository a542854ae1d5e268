//! Library layout and subtitle handling.

pub mod components;
pub mod jellyfin;
pub mod naming;
pub mod subsync;
pub mod subtitles;

pub use naming::{LibraryError, MediaIdentity, MediaPaths};
pub use subtitles::SubtitlePreference;

//! Catalogue data, opaque identifiers, source ranking and discovery rows.

pub mod models;
pub mod moviebox;
pub mod quality;
pub mod tmdb;

pub use models::{
    AudioOption, CatalogDetails, CatalogError, CatalogId, CatalogItem, EpisodeInfo, EpisodeRequest,
    MediaType, OpaqueIdCodec, OpaquePayload, QualityPolicy, SearchPage, SeasonInfo, SourceId, SourceOption,
    SubtitleId, SubtitleTrack,
};
pub use quality::QualityTier;

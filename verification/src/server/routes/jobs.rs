//! The decisions behind the job endpoints: which requests are refused, which
//! source a new job uses, what the job records, and how failures are reported.

use vstd::prelude::*;

use crate::catalog::{CatalogDetails, CatalogError, CatalogId, MediaType, SourceId, SourceOption, SubtitleId};
use crate::catalog::models::duplicate_text;
use crate::server::error::ApiError;
use crate::server::jobs::model::{JobRepositoryError, NewJob};
use crate::server::library::naming::{MediaIdentity, MediaPaths};
use crate::text::str_eq;

verus! {

/// Jobs listed at most in one page.
pub const MAX_LIST_LIMIT: u32 = 50;

/// The page size of a listing: fifty unless given, and between one and fifty.
pub fn list_limit(limit: Option<u32>) -> (r: Result<u32, ApiError>)
    ensures
        match limit {
            None => r == Ok::<u32, ApiError>(50),
            Some(l) => if 1 <= l && l <= 50 {
                r == Ok::<u32, ApiError>(l)
            } else {
                r == Err::<u32, ApiError>(ApiError::InvalidRequest)
            },
        },
{
    let l = match limit {
        Some(l) => l,
        None => 50,
    };
    if !(1 <= l && l <= MAX_LIST_LIMIT) {
        return Err(ApiError::InvalidRequest);
    }
    Ok(l)
}

/// A job must ask for some height, and not above the server's ceiling.
pub fn check_requested_height(requested_height: u16, maximum_height: u16) -> (r: Result<(), ApiError>)
    ensures
        requested_height == 0 ==> r == Err::<(), ApiError>(ApiError::InvalidRequest),
        requested_height != 0 && requested_height > maximum_height ==> r == Err::<(), ApiError>(
            ApiError::QualityExceedsLimit,
        ),
        requested_height != 0 && requested_height <= maximum_height ==> r is Ok,
{
    if requested_height == 0 {
        return Err(ApiError::InvalidRequest);
    }
    if requested_height > maximum_height {
        return Err(ApiError::QualityExceedsLimit);
    }
    Ok(())
}

/// The first source with the requested id, which must offer the requested height.
pub open spec fn source_choice(sources: Seq<SourceOption>, id: Seq<char>, requested_height: u16) -> Result<int, ApiError> {
    if exists|i: int| 0 <= i < sources.len() && (#[trigger] sources[i]).id.0@ == id {
        let i = choose|i: int| 0 <= i < sources.len() && (#[trigger] sources[i]).id.0@ == id && forall|j: int|
            0 <= j < i ==> (#[trigger] sources[j]).id.0@ != id;
        if sources[i].height != requested_height {
            Err(ApiError::QualityUnavailable)
        } else {
            Ok(i)
        }
    } else {
        Err(ApiError::InvalidSource)
    }
}

pub fn select_source(sources: &Vec<SourceOption>, source_id: &SourceId, requested_height: u16) -> (r: Result<usize, ApiError>)
    ensures
        match (r, source_choice(sources@, source_id.0@, requested_height)) {
            (Ok(i), Ok(j)) => i == j,
            (Err(e), Err(f)) => e == f,
            _ => false,
        },
{
    let mut i: usize = 0;
    while i < sources.len()
        invariant
            i <= sources@.len(),
            forall|j: int| 0 <= j < i ==> (#[trigger] sources@[j]).id.0@ != source_id.0@,
        decreases sources@.len() - i,
    {
        if str_eq(sources[i].id.0.as_str(), source_id.0.as_str()) {
            proof {
                let k = choose|k: int| 0 <= k < sources@.len() && (#[trigger] sources@[k]).id.0@ == source_id.0@
                    && forall|j: int| 0 <= j < k ==> (#[trigger] sources@[j]).id.0@ != source_id.0@;
                if k < i {
                } else if k > i {
                    assert(sources@[i as int].id.0@ == source_id.0@);
                }
                assert(k == i);
            }
            if sources[i].height != requested_height {
                return Err(ApiError::QualityUnavailable);
            }
            return Ok(i);
        }
        i = i + 1;
    }
    Err(ApiError::InvalidSource)
}

/// How a catalogue failure is reported to the client.
pub open spec fn catalog_error_reply(error: CatalogError) -> ApiError {
    match error {
        CatalogError::QualityUnavailable { requested_height: Some(h), .. } => if h > 1080 {
            ApiError::QualityExceedsLimit
        } else {
            ApiError::QualityUnavailable
        },
        CatalogError::NotFound(_) => ApiError::NotFound,
        CatalogError::Provider(_) => ApiError::ProviderUnavailable,
        CatalogError::InvalidOpaqueId => ApiError::InvalidSource,
        CatalogError::OpaqueIdVerificationFailed => ApiError::InvalidSource,
        _ => ApiError::QualityUnavailable,
    }
}

pub fn map_catalog_error(error: &CatalogError) -> (r: ApiError)
    ensures
        r == catalog_error_reply(*error),
{
    match error {
        CatalogError::QualityUnavailable { requested_height: Some(h), .. } => {
            if *h > 1080 {
                ApiError::QualityExceedsLimit
            } else {
                ApiError::QualityUnavailable
            }
        },
        CatalogError::NotFound(_) => ApiError::NotFound,
        CatalogError::Provider(_) => ApiError::ProviderUnavailable,
        CatalogError::InvalidOpaqueId | CatalogError::OpaqueIdVerificationFailed => ApiError::InvalidSource,
        _ => ApiError::QualityUnavailable,
    }
}

/// How a repository failure is reported: missing jobs are not found, stale
/// versions and refused moves conflict, anything else is internal.
pub fn map_job_error(error: &JobRepositoryError) -> (r: ApiError)
    ensures
        r == match *error {
            JobRepositoryError::NotFound(_) => ApiError::NotFound,
            JobRepositoryError::InvalidTransition { .. } => ApiError::Conflict,
            JobRepositoryError::Conflict { .. } => ApiError::Conflict,
            _ => ApiError::Internal,
        },
{
    match error {
        JobRepositoryError::NotFound(_) => ApiError::NotFound,
        JobRepositoryError::InvalidTransition { .. } | JobRepositoryError::Conflict { .. } => ApiError::Conflict,
        _ => ApiError::Internal,
    }
}

/// The episode title a new job records: the episode's own, for episodes.
pub open spec fn identity_episode_title(identity: MediaIdentity) -> Option<String> {
    match identity {
        MediaIdentity::Episode { episode_title, .. } => episode_title,
        _ => None,
    }
}

/// The job a download request creates, from the catalogue entry, the identity it
/// names and the planned library paths.
pub fn new_job_for(
    catalog_id: CatalogId,
    source_id: SourceId,
    subtitle_id: Option<String>,
    details: &CatalogDetails,
    identity: &MediaIdentity,
    season: Option<u16>,
    episode: Option<u16>,
    requested_height: u16,
    paths: MediaPaths,
) -> (r: NewJob)
    ensures
        r.catalog_id == catalog_id,
        r.source_id == source_id,
        r.subtitle_id == match subtitle_id {
            Some(s) => Some(SubtitleId(s)),
            None => None,
        },
        r.title == details.title,
        r.year == details.year,
        r.media_type == details.media_type,
        r.season_number == season,
        r.episode_number == episode,
        r.episode_title == identity_episode_title(*identity),
        r.requested_height == requested_height,
        r.final_video_path == paths.video_relative,
        r.final_subtitle_path == paths.subtitle_relative,
        r.partial_video_path == paths.partial_video_relative,
        r.partial_subtitle_path == paths.partial_subtitle_relative,
{
    NewJob {
        catalog_id,
        source_id,
        subtitle_id: match subtitle_id {
            Some(s) => Some(SubtitleId::new(s)),
            None => None,
        },
        title: details.title.clone(),
        year: duplicate_text(&details.year),
        media_type: details.media_type,
        season_number: season,
        episode_number: episode,
        episode_title: match identity {
            MediaIdentity::Episode { episode_title, .. } => duplicate_text(episode_title),
            _ => None,
        },
        requested_height,
        final_video_path: paths.video_relative,
        final_subtitle_path: paths.subtitle_relative,
        partial_video_path: paths.partial_video_relative,
        partial_subtitle_path: paths.partial_subtitle_relative,
    }
}

} // verus!

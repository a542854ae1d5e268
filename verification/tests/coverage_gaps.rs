use moviebox_tui::catalog::moviebox::{
    catalog_key, check_subtitle_source, ensure_moviebox_provider, source_key, subtitle_key,
};
use moviebox_tui::catalog::{
    CatalogDetails, CatalogError, CatalogId, EpisodeInfo, MediaType, OpaquePayload, SeasonInfo,
    SourceId,
};
use moviebox_tui::providers::moviebox::session::MovieBoxSession;
use moviebox_tui::server::error::ApiError;
use moviebox_tui::server::jobs::dash::{
    build_ffmpeg_arguments, check_manifest_heights, classify_proxy_failure, proxy_decision,
    proxy_error_or, record_proxy_failure, upstream_response, DashError, ProxyDecision,
    ProxyFailure,
};
use moviebox_tui::server::jobs::model::{JobId, JobRepositoryError, JobState};
use moviebox_tui::server::jobs::worker::{
    resolution_failure, subtitle_warning_patch, JobStatePatch, SystemDiskSpaceChecker,
};
use moviebox_tui::server::library::naming::{LibraryError, MediaIdentity, MediaPaths};
use moviebox_tui::server::routes::jobs::{map_job_error, new_job_for};
use moviebox_tui::urls::parse_url;

fn catalog_payload() -> OpaquePayload {
    OpaquePayload::Catalog { provider: "moviebox".to_string(), subject_id: "42".to_string() }
}

fn source_payload() -> OpaquePayload {
    OpaquePayload::Source {
        provider: "moviebox".to_string(),
        subject_id: "42".to_string(),
        resource_id: "r1".to_string(),
        season: Some(1),
        episode: Some(2),
        height: 720,
        language: None,
    }
}

fn subtitle_payload() -> OpaquePayload {
    OpaquePayload::Subtitle {
        provider: "moviebox".to_string(),
        subject_id: "42".to_string(),
        resource_id: "r1".to_string(),
        index: 3,
        language: "en".to_string(),
        format: Some("srt".to_string()),
    }
}

fn series() -> CatalogDetails {
    CatalogDetails {
        id: CatalogId::new("c".to_string()),
        title: "Paatal Lok".to_string(),
        media_type: MediaType::Series,
        year: Some("2020".to_string()),
        description: None,
        tagline: None,
        imdb_rating: None,
        duration: None,
        genres: vec![],
        country: None,
        seasons: vec![SeasonInfo {
            number: 1,
            episodes: vec![EpisodeInfo { number: 2, title: Some("The Hunt".to_string()) }],
        }],
        audio_options: vec![],
    }
}

#[test]
fn payload_keys_are_read_by_their_kind() {
    assert_eq!(catalog_key(&catalog_payload()).unwrap(), ("moviebox".to_string(), "42".to_string()));
    assert_eq!(catalog_key(&source_payload()), Err(CatalogError::InvalidOpaqueId));
    let key = source_key(source_payload()).unwrap();
    assert_eq!(key.2, "r1");
    assert_eq!((key.3, key.4, key.5), (Some(1), Some(2), 720));
    assert_eq!(source_key(catalog_payload()), Err(CatalogError::InvalidOpaqueId));
    let subtitle = subtitle_key(subtitle_payload()).unwrap();
    assert_eq!((subtitle.3, subtitle.4.as_str()), (3, "en"));
    assert_eq!(subtitle_key(source_payload()), Err(CatalogError::InvalidOpaqueId));
    assert_eq!(check_subtitle_source(&subtitle, "42", "r1"), Ok(()));
    assert_eq!(check_subtitle_source(&subtitle, "42", "r2"), Err(CatalogError::InvalidOpaqueId));
}

#[test]
fn only_moviebox_records_are_served() {
    assert_eq!(ensure_moviebox_provider("moviebox"), Ok(()));
    assert_eq!(
        ensure_moviebox_provider("other"),
        Err(CatalogError::UnsupportedProvider("other".to_string()))
    );
}

#[test]
fn the_first_proxy_failure_is_kept_and_explains_the_tool_error() {
    let first = record_proxy_failure(None, ProxyFailure::Auth(403));
    assert_eq!(first, Some(ProxyFailure::Auth(403)));
    assert_eq!(record_proxy_failure(first, ProxyFailure::Network), Some(ProxyFailure::Auth(403)));
    assert_eq!(
        proxy_error_or(DashError::InvalidProbeOutput, first),
        DashError::Download(Some(403))
    );
    assert_eq!(
        proxy_error_or(DashError::InvalidProbeOutput, Some(ProxyFailure::Security)),
        DashError::ProxySecurity
    );
    assert_eq!(proxy_error_or(DashError::InvalidProbeOutput, None), DashError::InvalidProbeOutput);
    assert_eq!(classify_proxy_failure(true), ProxyFailure::Network);
    assert_eq!(classify_proxy_failure(false), ProxyFailure::Security);
}

#[test]
fn upstream_statuses_decide_what_is_passed_on() {
    assert_eq!(upstream_response(206), (None, true));
    assert_eq!(upstream_response(401), (Some(ProxyFailure::Auth(401)), false));
    assert_eq!(upstream_response(403), (Some(ProxyFailure::Auth(403)), false));
    assert_eq!(upstream_response(404), (None, false));
}

#[test]
fn the_proxy_refuses_other_methods_and_serves_its_manifest() {
    let origin = parse_url("https://cdn.example.com/video/").unwrap();
    let decision = proxy_decision(false, "/m.mpd", "/m.mpd", "tok", &origin, &vec![]);
    assert!(matches!(decision, ProxyDecision::MethodNotAllowed));
    let decision = proxy_decision(true, "/m.mpd", "/m.mpd", "tok", &origin, &vec![]);
    assert!(matches!(decision, ProxyDecision::ServeManifest));
    let decision = proxy_decision(true, "/tok/unknown.m4s", "/m.mpd", "tok", &origin, &vec![]);
    assert!(matches!(decision, ProxyDecision::NotFound));
}

#[test]
fn manifests_must_offer_a_representation_within_the_ceiling() {
    let manifest = r#"<MPD><Representation height="1080"/><Representation height="720"/></MPD>"#;
    assert_eq!(check_manifest_heights(manifest, 720), Ok(()));
    assert_eq!(
        check_manifest_heights(manifest, 480),
        Err(DashError::InvalidManifest("no video representation is within the requested height"))
    );
    assert_eq!(check_manifest_heights("<MPD></MPD>", 480), Ok(()));
}

#[test]
fn diagnostic_ffmpeg_arguments_map_stream_zero() {
    let args = build_ffmpeg_arguments("http://127.0.0.1:9/m.mpd", "out.mkv");
    assert_eq!(args.len(), 17);
    assert_eq!(args[7], "http://127.0.0.1:9/m.mpd");
    assert_eq!(args[9], "0:0");
    assert_eq!(args[16], "out.mkv");
}

#[test]
fn resolution_failures_name_their_cause() {
    assert_eq!(
        resolution_failure(&CatalogError::QualityUnavailable {
            maximum_height: 1080,
            requested_height: Some(2160)
        }),
        ("quality_unavailable", "no source is available at or below 1080p")
    );
    assert_eq!(
        resolution_failure(&CatalogError::InvalidOpaqueId),
        ("source_resolve_failed", "source resolution failed")
    );
}

#[test]
fn subtitle_warnings_touch_only_the_warning() {
    let patch = subtitle_warning_patch("subtitle unavailable".to_string());
    assert_eq!(
        patch,
        JobStatePatch { warning: Some(Some("subtitle unavailable".to_string())), ..JobStatePatch::default() }
    );
}

#[test]
fn disk_space_is_asked_of_the_nearest_existing_path() {
    let checker = SystemDiskSpaceChecker;
    assert_eq!(checker.probe_path("/media/a".to_string(), true, Some("/media".to_string())), "/media/a");
    assert_eq!(checker.probe_path("/media/a".to_string(), false, Some("/media".to_string())), "/media");
    assert_eq!(checker.probe_path("a".to_string(), false, None), "a");
}

#[test]
fn identities_come_from_the_catalogue_entry() {
    let details = series();
    match MediaIdentity::from_details(&details, Some(1), Some(2)) {
        Ok(MediaIdentity::Episode { series_title, season, episode, episode_title, .. }) => {
            assert_eq!(series_title, "Paatal Lok");
            assert_eq!((season, episode), (1, 2));
            assert_eq!(episode_title.as_deref(), Some("The Hunt"));
        }
        other => panic!("unexpected {other:?}"),
    }
    assert_eq!(
        MediaIdentity::from_details(&details, Some(1), Some(9)),
        Err(LibraryError::EpisodeNotFound { season: 1, episode: 9 })
    );
    assert_eq!(MediaIdentity::from_details(&details, None, Some(2)), Err(LibraryError::MissingEpisodeSelection));
}

#[test]
fn a_download_request_becomes_a_new_job() {
    let details = series();
    let identity = MediaIdentity::from_details(&details, Some(1), Some(2)).unwrap();
    let paths = MediaPaths {
        video_relative: "Shows/Paatal Lok (2020)/Season 01/Paatal Lok - S01E02.mkv".to_string(),
        subtitle_relative: None,
        partial_video_relative: "_moviebox/jobs/x/video.part".to_string(),
        partial_subtitle_relative: None,
    };
    let job = new_job_for(
        CatalogId::new("c".to_string()),
        SourceId::new("s".to_string()),
        Some("sub".to_string()),
        &details,
        &identity,
        Some(1),
        Some(2),
        720,
        paths,
    );
    assert_eq!(job.title, "Paatal Lok");
    assert_eq!(job.episode_title.as_deref(), Some("The Hunt"));
    assert_eq!(job.subtitle_id.as_ref().map(|s| s.as_str()), Some("sub"));
    assert_eq!(job.requested_height, 720);
    assert_eq!(job.final_video_path, "Shows/Paatal Lok (2020)/Season 01/Paatal Lok - S01E02.mkv");
    assert!(job.validate().is_ok());
}

#[test]
fn repository_errors_map_to_api_errors() {
    assert_eq!(map_job_error(&JobRepositoryError::NotFound(JobId::new(1))), ApiError::NotFound);
    assert_eq!(
        map_job_error(&JobRepositoryError::Conflict { expected_version: 1, actual_version: 2 }),
        ApiError::Conflict
    );
    assert_eq!(
        map_job_error(&JobRepositoryError::InvalidTransition {
            from: JobState::Ready,
            to: JobState::Queued
        }),
        ApiError::Conflict
    );
    assert_eq!(map_job_error(&JobRepositoryError::Storage("disk".to_string())), ApiError::Internal);
}

#[test]
fn an_explicit_user_id_wins_over_the_token_claim() {
    let session = MovieBoxSession::from_token_and_payload(
        "token".to_string(),
        Some("explicit".to_string()),
        (Some("claimed".to_string()), Some(99)),
    );
    assert_eq!(session.user_id(), Some("explicit"));
    let session =
        MovieBoxSession::from_token_and_payload("token".to_string(), None, (Some("claimed".to_string()), Some(99)));
    assert_eq!(session.user_id(), Some("claimed"));
    assert_eq!(session.token(), "token");
}

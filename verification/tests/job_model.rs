use moviebox_tui::catalog::{CatalogId, MediaType, SourceId, SubtitleId};
use moviebox_tui::server::jobs::model::apply_event_fields;
use moviebox_tui::server::jobs::{
    can_transition, JobEvent, JobEventKind, JobRepositoryError, JobState, NewJob,
};

fn movie() -> NewJob {
    NewJob {
        catalog_id: CatalogId::new("catalog".to_string()),
        source_id: SourceId::new("source".to_string()),
        subtitle_id: None,
        title: "Cocktail 2".to_string(),
        year: Some("2026".to_string()),
        media_type: MediaType::Movie,
        season_number: None,
        episode_number: None,
        episode_title: None,
        requested_height: 1080,
        final_video_path: "Movies/Cocktail 2 (2026)/Cocktail 2 (2026).mkv".to_string(),
        final_subtitle_path: None,
        partial_video_path: "_moviebox/jobs/x/Cocktail 2 (2026).mkv.part".to_string(),
        partial_subtitle_path: None,
    }
}

fn message(result: Result<(), JobRepositoryError>) -> String {
    match result {
        Err(JobRepositoryError::InvalidData(message)) => message,
        other => panic!("unexpected {other:?}"),
    }
}

#[test]
fn states_round_trip_through_their_names() {
    for state in [
        JobState::Queued,
        JobState::Resolving,
        JobState::Downloading,
        JobState::Paused,
        JobState::Finalizing,
        JobState::Ready,
        JobState::Failed,
        JobState::Cancelled,
    ] {
        assert_eq!(JobState::parse(state.as_str()).unwrap(), state);
    }
    match JobState::parse("running") {
        Err(JobRepositoryError::InvalidData(message)) => {
            assert_eq!(message, "unknown job state: running")
        }
        other => panic!("unexpected {other:?}"),
    }
}

#[test]
fn finished_jobs_never_move() {
    for to in [JobState::Queued, JobState::Failed, JobState::Ready] {
        assert!(!can_transition(JobState::Ready, to));
        assert!(!can_transition(JobState::Cancelled, to));
    }
    assert!(can_transition(JobState::Failed, JobState::Queued));
    assert!(can_transition(JobState::Downloading, JobState::Paused));
    assert!(!can_transition(JobState::Queued, JobState::Downloading));
}

#[test]
fn valid_jobs_pass_and_each_check_names_its_field() {
    assert!(movie().validate().is_ok());

    let mut job = movie();
    job.catalog_id = CatalogId::new("  ".to_string());
    assert_eq!(message(job.validate()), "catalog_id must not be empty");

    let mut job = movie();
    job.subtitle_id = Some(SubtitleId::new("https://x".to_string()));
    assert_eq!(message(job.validate()), "subtitle_id must not contain a direct URL");

    let mut job = movie();
    job.requested_height = 2160;
    assert_eq!(
        message(job.validate()),
        "requested height must be between 1 and 1080"
    );

    let mut job = movie();
    job.season_number = Some(1);
    assert_eq!(
        message(job.validate()),
        "movie jobs must not include episode identity"
    );

    let mut job = movie();
    job.media_type = MediaType::Series;
    assert_eq!(
        message(job.validate()),
        "series jobs require season and episode numbers"
    );

    let mut job = movie();
    job.final_video_path = "/etc/passwd".to_string();
    assert_eq!(message(job.validate()), "final_video_path must be relative");

    let mut job = movie();
    job.partial_video_path = "a/../b".to_string();
    assert_eq!(
        message(job.validate()),
        "partial_video_path must contain only normal path components"
    );

    let mut job = movie();
    job.final_subtitle_path = Some("./x.srt".to_string());
    assert_eq!(
        message(job.validate()),
        "final_subtitle_path must contain only normal path components"
    );

    let mut job = movie();
    job.final_video_path = "Movies/./a..b/x.mkv".to_string();
    assert!(job.validate().is_ok());
}

#[test]
fn event_text_is_sanitized() {
    let event = JobEvent::new(JobEventKind::StateChanged)
        .with_error("  code ".to_string(), "went wrong".to_string())
        .unwrap();
    assert_eq!(event.error_code.as_deref(), Some("code"));
    assert_eq!(event.error_message.as_deref(), Some("went wrong"));

    match JobEvent::new(JobEventKind::StateChanged).with_error("x".repeat(65), "m".to_string()) {
        Err(JobRepositoryError::InvalidData(message)) => assert_eq!(message, "text exceeds 64 bytes"),
        other => panic!("unexpected {other:?}"),
    }
    match JobEvent::new(JobEventKind::StateChanged).with_warning("a\u{7}b".to_string()) {
        Err(JobRepositoryError::InvalidData(message)) => {
            assert_eq!(message, "text must not contain control characters")
        }
        other => panic!("unexpected {other:?}"),
    }
    assert_eq!(JobEventKind::ProgressUpdated.as_str(), "progress_updated");
}

#[test]
fn failed_transitions_need_both_error_fields() {
    let mut event = JobEvent::new(JobEventKind::StateChanged);
    event.error_code = Some("code".to_string());
    match apply_event_fields(JobState::Failed, None, Some(&event)) {
        Err(JobRepositoryError::InvalidData(message)) => assert_eq!(
            message,
            "failed transitions require both error_code and error_message"
        ),
        other => panic!("unexpected {other:?}"),
    }
    let fields = apply_event_fields(JobState::Queued, Some("kept"), Some(&event)).unwrap();
    assert_eq!(fields.error_code, None);
    assert_eq!(fields.warning.as_deref(), Some("kept"));
}

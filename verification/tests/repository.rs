use moviebox_tui::catalog::{CatalogId, MediaType, SourceId, SubtitleId};
use moviebox_tui::server::jobs::repository::{
    is_claimable, job_from_row, list_limit, media_type_as_str, parse_job_id, parse_media_type,
    plan_claim, plan_create, plan_force, plan_progress, plan_transition, recorded_kind, to_i64,
    to_u16, to_u32, to_u64, JobRow,
};
use moviebox_tui::server::jobs::worker::JobStatePatch;
use moviebox_tui::server::jobs::{
    DownloadJob, JobEvent, JobEventKind, JobId, JobProgress, JobRepositoryError, JobState, NewJob,
};

const ID: u128 = 0x0123_4567_89ab_cdef_0123_4567_89ab_cdef;

fn request() -> NewJob {
    NewJob {
        catalog_id: CatalogId::new("catalog".to_string()),
        source_id: SourceId::new("source".to_string()),
        subtitle_id: Some(SubtitleId::new("subtitle".to_string())),
        title: "Cocktail 2".to_string(),
        year: Some("2026".to_string()),
        media_type: MediaType::Series,
        season_number: Some(2),
        episode_number: Some(7),
        episode_title: Some("Pilot".to_string()),
        requested_height: 720,
        final_video_path: "Shows/Cocktail 2/Season 02/Cocktail 2 - S02E07.mkv".to_string(),
        final_subtitle_path: None,
        partial_video_path: "_moviebox/jobs/x/video.part".to_string(),
        partial_subtitle_path: None,
    }
}

fn stored() -> DownloadJob {
    let row = plan_create(JobId::new(ID), request(), 1_000).unwrap();
    job_from_row(row).unwrap()
}

fn in_state(state: JobState) -> DownloadJob {
    DownloadJob { state, version: 3, attempt: 2, next_attempt_at: Some(5_000), ..stored() }
}

fn data_message<T: std::fmt::Debug>(result: Result<T, JobRepositoryError>) -> String {
    match result {
        Err(JobRepositoryError::InvalidData(message)) => message,
        other => panic!("unexpected {other:?}"),
    }
}

#[test]
fn listing_limits_are_clamped_to_one_through_a_hundred() {
    assert_eq!(list_limit(0), 1);
    assert_eq!(list_limit(1), 1);
    assert_eq!(list_limit(40), 40);
    assert_eq!(list_limit(100), 100);
    assert_eq!(list_limit(5_000), 100);
}

#[test]
fn stored_numbers_are_range_checked() {
    assert_eq!(to_u16(65_535).unwrap(), 65_535);
    assert_eq!(data_message(to_u16(65_536)), "value out of range for u16: 65536");
    assert_eq!(data_message(to_u16(-1)), "value out of range for u16: -1");
    assert_eq!(to_u32(7).unwrap(), 7);
    assert_eq!(data_message(to_u32(4_294_967_296)), "value out of range for u32: 4294967296");
    assert_eq!(to_u64(0).unwrap(), 0);
    assert_eq!(
        data_message(to_u64(i64::MIN)),
        "value out of range for u64: -9223372036854775808"
    );
    assert_eq!(to_i64(42).unwrap(), 42);
    assert_eq!(data_message(to_i64(u64::MAX)), "value out of range for i64: 18446744073709551615");
}

#[test]
fn media_types_round_trip_through_their_names() {
    for media_type in [MediaType::Movie, MediaType::Series] {
        assert_eq!(parse_media_type(media_type_as_str(media_type)).unwrap(), media_type);
    }
    assert_eq!(data_message(parse_media_type("documentary")), "unknown media type: documentary");
}

#[test]
fn job_ids_are_read_from_their_hyphenated_form() {
    let id = parse_job_id("01234567-89ab-cdef-0123-456789abcdef").unwrap();
    assert_eq!(id, JobId::new(ID));
    assert_eq!(JobId::new(ID).to_text(), "01234567-89ab-cdef-0123-456789abcdef");
    assert!(data_message(parse_job_id("not-a-uuid")).starts_with("invalid uuid: "));
}

#[test]
fn a_new_job_reads_back_queued_and_untouched() {
    let job = stored();
    assert_eq!(job.id, JobId::new(ID));
    assert_eq!(job.state, JobState::Queued);
    assert_eq!(job.title, "Cocktail 2");
    assert_eq!(job.media_type, MediaType::Series);
    assert_eq!(job.season_number, Some(2));
    assert_eq!(job.episode_number, Some(7));
    assert_eq!(job.requested_height, 720);
    assert_eq!(job.subtitle_id, Some(SubtitleId::new("subtitle".to_string())));
    assert_eq!(job.downloaded_bytes, 0);
    assert_eq!(job.total_bytes, None);
    assert_eq!(job.attempt, 0);
    assert_eq!(job.version, 0);
    assert_eq!(job.created_at, 1_000);
    assert_eq!(job.updated_at, 1_000);
    assert_eq!(job.next_attempt_at, None);
}

#[test]
fn an_invalid_request_is_not_stored() {
    let mut input = request();
    input.title = "   ".to_string();
    assert_eq!(
        data_message(plan_create(JobId::new(ID), input, 0)),
        "title must not be empty"
    );
}

#[test]
fn rows_with_bad_columns_name_the_first_one() {
    let row = plan_create(JobId::new(ID), request(), 1_000).unwrap();
    let bad_state = JobRow { state: "running".to_string(), ..row.clone() };
    assert_eq!(data_message(job_from_row(bad_state)), "unknown job state: running");
    let bad_height = JobRow { requested_height: 70_000, state: "x".to_string(), ..row.clone() };
    assert_eq!(data_message(job_from_row(bad_height)), "value out of range for u16: 70000");
    let bad_media = JobRow { media_type: "clip".to_string(), requested_height: -3, ..row.clone() };
    assert_eq!(data_message(job_from_row(bad_media)), "unknown media type: clip");
    let bad_bytes = JobRow { downloaded_bytes: -5, ..row.clone() };
    assert_eq!(data_message(job_from_row(bad_bytes)), "value out of range for u64: -5");
    let bad_attempt = JobRow { attempt: -1, ..row };
    assert_eq!(data_message(job_from_row(bad_attempt)), "value out of range for u32: -1");
}

#[test]
fn a_stale_version_is_a_conflict() {
    let job = in_state(JobState::Downloading);
    match plan_transition(job, 2, JobState::Paused, None, 9_000) {
        Err(JobRepositoryError::Conflict { expected_version, actual_version }) => {
            assert_eq!((expected_version, actual_version), (2, 3))
        }
        other => panic!("unexpected {other:?}"),
    }
}

#[test]
fn transitions_follow_the_lifecycle() {
    match plan_transition(in_state(JobState::Ready), 3, JobState::Queued, None, 9_000) {
        Err(JobRepositoryError::InvalidTransition { from, to }) => {
            assert_eq!((from, to), (JobState::Ready, JobState::Queued))
        }
        other => panic!("unexpected {other:?}"),
    }
    let paused = plan_transition(in_state(JobState::Downloading), 3, JobState::Paused, None, 9_000)
        .unwrap();
    assert_eq!(paused.state, JobState::Paused);
    assert_eq!(paused.version, 4);
    assert_eq!(paused.updated_at, 9_000);
    assert_eq!(paused.attempt, 2);
    assert_eq!(paused.next_attempt_at, Some(5_000));
    assert_eq!(recorded_kind(None, JobEventKind::StateChanged), JobEventKind::StateChanged);
}

#[test]
fn requeueing_starts_a_fresh_attempt_budget() {
    let queued = plan_transition(in_state(JobState::Failed), 3, JobState::Queued, None, 9_000)
        .unwrap();
    assert_eq!(queued.state, JobState::Queued);
    assert_eq!(queued.attempt, 0);
    assert_eq!(queued.next_attempt_at, None);
}

#[test]
fn failing_records_the_error_and_keeps_the_warning() {
    let mut job = in_state(JobState::Downloading);
    job.warning = Some("slow mirror".to_string());
    let event = JobEvent::new(JobEventKind::StateChanged)
        .with_error("network".to_string(), "  connection reset  ".to_string())
        .unwrap();
    let failed = plan_transition(job, 3, JobState::Failed, Some(&event), 9_000).unwrap();
    assert_eq!(failed.error_code.as_deref(), Some("network"));
    assert_eq!(failed.error_message.as_deref(), Some("connection reset"));
    assert_eq!(failed.warning.as_deref(), Some("slow mirror"));
    assert_eq!(recorded_kind(Some(&event), JobEventKind::ProgressUpdated), JobEventKind::StateChanged);
}

#[test]
fn progress_is_only_recorded_while_transferring() {
    let progress = JobProgress {
        expected_version: 3,
        downloaded_bytes: 10,
        total_bytes: Some(100),
        speed_bytes_per_second: None,
    };
    match plan_progress(in_state(JobState::Paused), &progress, None, 9_000) {
        Err(JobRepositoryError::InvalidProgressState(state)) => assert_eq!(state, JobState::Paused),
        other => panic!("unexpected {other:?}"),
    }
    let job = plan_progress(in_state(JobState::Downloading), &progress, None, 9_000).unwrap();
    assert_eq!(job.downloaded_bytes, 10);
    assert_eq!(job.total_bytes, Some(100));
    assert_eq!(job.speed_bytes_per_second, None);
    assert_eq!(job.state, JobState::Downloading);
    assert_eq!(job.version, 4);
    let huge = JobProgress { total_bytes: Some(u64::MAX), ..progress };
    assert_eq!(
        data_message(plan_progress(in_state(JobState::Finalizing), &huge, None, 9_000)),
        "value out of range for i64: 18446744073709551615"
    );
}

#[test]
fn forcing_applies_only_the_patched_fields() {
    let mut job = in_state(JobState::Downloading);
    job.downloaded_bytes = 55;
    job.warning = Some("kept".to_string());
    let patch = JobStatePatch {
        total_bytes: Some(None),
        error_code: Some(Some("interrupted".to_string())),
        ..JobStatePatch::default()
    };
    let forced = plan_force(job, 3, JobState::Queued, patch, 9_000).unwrap();
    assert_eq!(forced.state, JobState::Queued);
    assert_eq!(forced.downloaded_bytes, 55);
    assert_eq!(forced.total_bytes, None);
    assert_eq!(forced.error_code.as_deref(), Some("interrupted"));
    assert_eq!(forced.warning.as_deref(), Some("kept"));
    assert_eq!(forced.attempt, 2);
    assert_eq!(forced.version, 4);
    match plan_force(in_state(JobState::Ready), 9, JobState::Failed, JobStatePatch::default(), 0) {
        Err(JobRepositoryError::Conflict { .. }) => {}
        other => panic!("unexpected {other:?}"),
    }
}

#[test]
fn only_queued_jobs_past_their_backoff_are_claimed() {
    let waiting = in_state(JobState::Queued);
    assert!(!is_claimable(&waiting, 4_999));
    assert!(is_claimable(&waiting, 5_000));
    assert!(!is_claimable(&in_state(JobState::Paused), 10_000));
    let claimed = plan_claim(waiting, 6_000).unwrap();
    assert_eq!(claimed.state, JobState::Resolving);
    assert_eq!(claimed.attempt, 3);
    assert_eq!(claimed.next_attempt_at, None);
    assert_eq!(claimed.updated_at, 6_000);
    assert_eq!(claimed.version, 4);
    let exhausted = DownloadJob { attempt: u32::MAX, ..in_state(JobState::Queued) };
    assert_eq!(data_message(plan_claim(exhausted, 0)), "value out of range for u32: 4294967296");
}

use moviebox_tui::server::jobs::worker::{progress_for, TransferProgress};

#[test]
fn forwarded_progress_passes_each_version_on() {
    let reports = [
        TransferProgress { downloaded_bytes: 10, total_bytes: Some(100), speed_bytes_per_second: Some(5) },
        TransferProgress { downloaded_bytes: 60, total_bytes: Some(100), speed_bytes_per_second: None },
        TransferProgress { downloaded_bytes: 100, total_bytes: None, speed_bytes_per_second: Some(7) },
    ];
    let mut job = in_state(JobState::Downloading);
    for (k, report) in reports.iter().enumerate() {
        let request = progress_for(&job, report);
        assert_eq!(request.expected_version, job.version);
        job = plan_progress(job, &request, None, 9_000 + k as i64).unwrap();
        assert_eq!(job.version, 4 + k as i64);
        assert_eq!(job.state, JobState::Downloading);
        assert_eq!(job.downloaded_bytes, report.downloaded_bytes);
        assert_eq!(job.total_bytes, report.total_bytes);
    }
    let stale = progress_for(&in_state(JobState::Downloading), &reports[0]);
    assert!(matches!(plan_progress(job, &stale, None, 9_999), Err(JobRepositoryError::Conflict { .. })));
}

use moviebox_tui::catalog::CatalogError;
use moviebox_tui::server::jobs::pipeline::{claim_step, initial_claim_state, ClaimAction, ClaimEvent, ClaimPhase};
use moviebox_tui::catalog::{CatalogId, MediaType, SourceId};
use moviebox_tui::server::events::{sanitize_field, JobEvent};
use moviebox_tui::server::jobs::model::{DownloadJob, JobEventKind, JobId, JobState};
use moviebox_tui::server::jobs::recovery::{final_video_is_complete, recovery_action, RecoveryAction};
use moviebox_tui::server::jobs::worker::{
    active_transfer_path, after_transfer, cancels_directly, clear_job_errors, completed_transfer_patch, failure_patch,
    finalizing_patch, has_room, insufficient_space_patch, paths_are_safe, paused_transfer_patch, should_emit_warning,
    stop_command, ActiveCommand, TransferError, TransferNext, TransferReport,
};

fn job(state: JobState) -> DownloadJob {
    DownloadJob {
        id: JobId(0x0123_4567_89ab_cdef_0123_4567_89ab_cdef),
        catalog_id: CatalogId::new("catalog".to_string()),
        source_id: SourceId::new("source".to_string()),
        subtitle_id: None,
        title: "Cocktail 2".to_string(),
        year: Some("2026".to_string()),
        media_type: MediaType::Movie,
        season_number: None,
        episode_number: None,
        episode_title: None,
        requested_height: 1080,
        state,
        final_video_path: "Movies/Cocktail 2 (2026)/Cocktail 2 (2026).mkv".to_string(),
        final_subtitle_path: None,
        partial_video_path: ".partial/abc/video.mkv.part".to_string(),
        partial_subtitle_path: None,
        downloaded_bytes: 10,
        total_bytes: Some(100),
        speed_bytes_per_second: Some(5),
        attempt: 1,
        error_code: Some("download_failed".to_string()),
        error_message: Some("fetch https://cdn.example/x failed".to_string()),
        warning: Some("subtitle in ../x".to_string()),
        next_attempt_at: None,
        created_at: 1,
        updated_at: 2,
        version: 3,
    }
}

#[test]
fn event_text_that_looks_like_a_url_or_path_is_dropped() {
    let event = JobEvent::from_job(&job(JobState::Downloading), JobEventKind::ProgressUpdated);
    assert_eq!(event.job_id, "01234567-89ab-cdef-0123-456789abcdef");
    assert_eq!(event.kind, "progress_updated");
    assert_eq!(event.state, "downloading");
    assert_eq!(event.downloaded_bytes, 10);
    assert_eq!(event.error_code.as_deref(), Some("download_failed"));
    assert_eq!(event.error_message, None);
    assert_eq!(event.warning, None);
    assert_eq!(sanitize_field(Some("/etc/passwd".to_string())), None);
    assert_eq!(sanitize_field(Some("a\\b".to_string())), None);
    assert_eq!(sanitize_field(Some("plain words".to_string())), Some("plain words".to_string()));
}

#[test]
fn space_checks_saturate() {
    assert!(has_room(101, 50, Some(50)));
    assert!(!has_room(100, 50, Some(50)));
    assert!(has_room(51, 50, None));
    assert!(!has_room(u64::MAX, 1, Some(u64::MAX)));
}

#[test]
fn warnings_are_throttled_to_one_per_five_minutes() {
    assert!(should_emit_warning(None, 0));
    assert!(!should_emit_warning(Some(1_000), 300_999));
    assert!(should_emit_warning(Some(1_000), 301_000));
    assert!(!should_emit_warning(Some(10_000), 5_000));
}

#[test]
fn active_paths_drop_the_part_suffix() {
    assert_eq!(active_transfer_path("a/video.mkv.part"), Some("a/video.mkv".to_string()));
    assert_eq!(active_transfer_path("a/video.mkv"), None);
}

#[test]
fn transfers_end_in_the_right_next_step() {
    assert_eq!(after_transfer(&TransferReport::Completed, 1), TransferNext::Finalize);
    assert_eq!(after_transfer(&TransferReport::Stopped(ActiveCommand::Cancel), 1), TransferNext::Cancel);
    assert_eq!(after_transfer(&TransferReport::Failed(TransferError::Download(Some(403))), 1), TransferNext::Refresh);
    assert_eq!(after_transfer(&TransferReport::Failed(TransferError::Download(Some(403))), 2), TransferNext::Fail);
    assert_eq!(after_transfer(&TransferReport::Failed(TransferError::Download(Some(500))), 1), TransferNext::Fail);
    assert_eq!(after_transfer(&TransferReport::Failed(TransferError::Io("disk".to_string())), 1), TransferNext::Fail);
    assert_eq!(stop_command(None), ActiveCommand::Pause);
    assert_eq!(stop_command(Some(ActiveCommand::Cancel)), ActiveCommand::Cancel);
}

#[test]
fn patches_set_exactly_their_fields() {
    let p = failure_patch("code", "message");
    assert_eq!(p.error_code, Some(Some("code".to_string())));
    assert_eq!(p.speed_bytes_per_second, Some(None));
    assert_eq!(p.downloaded_bytes, None);
    let c = clear_job_errors();
    assert_eq!(c.error_code, Some(None));
    assert_eq!(c.warning, None);
    assert_eq!(completed_transfer_patch(7).total_bytes, Some(Some(7)));
    assert_eq!(paused_transfer_patch(7).total_bytes, None);
    assert_eq!(insufficient_space_patch().error_code, Some(Some("insufficient_space".to_string())));
    let f = finalizing_patch(&job(JobState::Downloading));
    assert_eq!(f.downloaded_bytes, Some(100));
    assert_eq!(f.warning, Some(Some("subtitle in ../x".to_string())));
    assert!(cancels_directly(JobState::Paused));
    assert!(!cancels_directly(JobState::Downloading));
}

#[test]
fn stored_paths_must_stay_under_the_root() {
    assert!(paths_are_safe("/srv/media", &job(JobState::Queued)));
    let mut escaping = job(JobState::Queued);
    escaping.final_video_path = "../outside.mkv".to_string();
    assert!(!paths_are_safe("/srv/media", &escaping));
}

#[test]
fn interrupted_jobs_are_recovered() {
    assert_eq!(recovery_action(&job(JobState::Queued), true, None), RecoveryAction::Keep);
    assert!(matches!(recovery_action(&job(JobState::Downloading), false, None), RecoveryAction::Fail(_)));
    assert_eq!(recovery_action(&job(JobState::Finalizing), true, Some(100)), RecoveryAction::MarkReady);
    assert_eq!(
        recovery_action(&job(JobState::Finalizing), true, Some(99)),
        RecoveryAction::Requeue(clear_job_errors())
    );
    assert!(final_video_is_complete(None, Some(1)));
    assert!(!final_video_is_complete(None, Some(0)));
    assert!(!final_video_is_complete(Some(5), None));
}

#[test]
fn a_claimed_job_runs_through_every_check_before_downloading() {
    let st = initial_claim_state(100);
    let (st, a) = claim_step(st, ClaimEvent::Claimed { paths_safe: true, requested_height: 1080 });
    assert_eq!(a, ClaimAction::Resolve);
    let (st, a) = claim_step(st, ClaimEvent::Resolved(Ok(Some(50))));
    assert_eq!(a, ClaimAction::CheckTarget);
    let (st, a) = claim_step(st, ClaimEvent::TargetChecked { exists: false });
    assert_eq!(a, ClaimAction::CheckSpace);
    let (low, a) = claim_step(st, ClaimEvent::SpaceChecked { available: 150 });
    assert_eq!(a, ClaimAction::Requeue);
    assert_eq!(low.phase, ClaimPhase::Finished);
    let (st, a) = claim_step(st, ClaimEvent::SpaceChecked { available: 151 });
    assert_eq!(a, ClaimAction::StartDownload);
    let (st, a) = claim_step(st, ClaimEvent::TransferEnded(TransferReport::Failed(TransferError::Download(Some(410)))));
    assert_eq!(a, ClaimAction::Refresh);
    let (st, a) = claim_step(st, ClaimEvent::Refreshed(Ok(None)));
    assert_eq!(a, ClaimAction::Retransfer);
    let (failed, a) = claim_step(st, ClaimEvent::TransferEnded(TransferReport::Failed(TransferError::Download(Some(410)))));
    assert_eq!(a, ClaimAction::Fail { code: "download_failed", message: "download request failed" });
    assert_eq!(failed.phase, ClaimPhase::Finished);
    let (st, a) = claim_step(st, ClaimEvent::TransferEnded(TransferReport::Completed));
    assert_eq!(a, ClaimAction::FinalizeVideo);
    let (st, a) = claim_step(st, ClaimEvent::VideoFinalized);
    assert_eq!(a, ClaimAction::FinalizeSubtitle);
    let (_, a) = claim_step(st, ClaimEvent::SubtitleFinalized { warning: true });
    assert_eq!(a, ClaimAction::Ready { warning: true });

    let (_, a) = claim_step(initial_claim_state(0), ClaimEvent::Claimed { paths_safe: false, requested_height: 720 });
    assert_eq!(a, ClaimAction::Fail { code: "unsafe_path", message: "job paths failed validation" });
    let (st, _) = claim_step(initial_claim_state(0), ClaimEvent::Claimed { paths_safe: true, requested_height: 720 });
    let (_, a) = claim_step(
        st,
        ClaimEvent::Resolved(Err(CatalogError::QualityUnavailable { maximum_height: 1080, requested_height: None })),
    );
    assert_eq!(a, ClaimAction::Fail { code: "quality_unavailable", message: "no source is available at or below 1080p" });
    let (_, a) = claim_step(st, ClaimEvent::Resolved(Err(CatalogError::NotFound("source"))));
    assert_eq!(a, ClaimAction::Fail { code: "source_resolve_failed", message: "source resolution failed" });
    let (_, a) = claim_step(st, ClaimEvent::VideoFinalized);
    assert_eq!(a, ClaimAction::Abort);
    let (high, _) = claim_step(initial_claim_state(0), ClaimEvent::Claimed { paths_safe: true, requested_height: 2160 });
    assert_eq!(claim_step(high, ClaimEvent::Resolved(Ok(None))).1, ClaimAction::Abort);
}

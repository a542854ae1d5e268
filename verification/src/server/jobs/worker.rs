//! The decisions the download worker takes around each outside step.
//!
//! The worker claims a job, resolves its source, checks the library and the free
//! space, transfers, and finalises. Each step's outcome is handed to one of these
//! functions, which says what the worker does next and what it stores.

use vstd::prelude::*;

use crate::catalog::CatalogError;
use crate::server::jobs::model::{DownloadJob, JobProgress, JobRepositoryError, JobState};
use crate::server::jobs::repository::{progress_outcome, takes_progress};
use crate::text::{chars_of, opt_text, owned};

verus! {

/// Free space the worker keeps in reserve unless configured otherwise: 10 GiB.
pub const DEFAULT_RESERVE_BYTES: u64 = 10737418240;

/// How long a repeated warning about the same job stays quiet: five minutes.
pub const WARNING_THROTTLE_MILLIS: u64 = 300000;

/// Redirects a transfer may follow.
pub const TRANSFER_REDIRECTS: u8 = 5;

/// Fields to overwrite when a job is forced into a state; `None` leaves a field
/// as it is, `Some(None)` clears it.
#[derive(Debug, Clone, PartialEq, Eq)]
pub struct JobStatePatch {
    pub downloaded_bytes: Option<u64>,
    pub total_bytes: Option<Option<u64>>,
    pub speed_bytes_per_second: Option<Option<u64>>,
    pub error_code: Option<Option<String>>,
    pub error_message: Option<Option<String>>,
    pub warning: Option<Option<String>>,
}

pub struct PatchView {
    pub downloaded_bytes: Option<u64>,
    pub total_bytes: Option<Option<u64>>,
    pub speed_bytes_per_second: Option<Option<u64>>,
    pub error_code: Option<Option<Seq<char>>>,
    pub error_message: Option<Option<Seq<char>>>,
    pub warning: Option<Option<Seq<char>>>,
}

pub open spec fn field_view(f: Option<Option<String>>) -> Option<Option<Seq<char>>> {
    match f {
        Some(v) => Some(opt_text(v)),
        None => None,
    }
}

impl View for JobStatePatch {
    type V = PatchView;

    open spec fn view(&self) -> PatchView {
        PatchView {
            downloaded_bytes: self.downloaded_bytes,
            total_bytes: self.total_bytes,
            speed_bytes_per_second: self.speed_bytes_per_second,
            error_code: field_view(self.error_code),
            error_message: field_view(self.error_message),
            warning: field_view(self.warning),
        }
    }
}

pub open spec fn empty_patch() -> PatchView {
    PatchView {
        downloaded_bytes: None,
        total_bytes: None,
        speed_bytes_per_second: None,
        error_code: None,
        error_message: None,
        warning: None,
    }
}

impl Default for JobStatePatch {
    fn default() -> (r: Self)
        ensures
            r@ == empty_patch(),
    {
        JobStatePatch {
            downloaded_bytes: None,
            total_bytes: None,
            speed_bytes_per_second: None,
            error_code: None,
            error_message: None,
            warning: None,
        }
    }
}

/// What a transfer reports as it goes.
#[derive(Debug, Clone, Copy, PartialEq, Eq, Structural)]
pub struct TransferProgress {
    pub downloaded_bytes: u64,
    pub total_bytes: Option<u64>,
    pub speed_bytes_per_second: Option<u64>,
}

/// The store request that records a transfer's report for a job: it expects
/// the job's version as last stored.
pub open spec fn progress_request(job: DownloadJob, p: TransferProgress) -> JobProgress {
    JobProgress {
        expected_version: job.version,
        downloaded_bytes: p.downloaded_bytes,
        total_bytes: p.total_bytes,
        speed_bytes_per_second: p.speed_bytes_per_second,
    }
}

/// The request that forwards a transfer's report to the store, made from the
/// job the previous update returned.
pub fn progress_for(job: &DownloadJob, p: &TransferProgress) -> (r: JobProgress)
    ensures
        r == progress_request(*job, *p),
{
    JobProgress {
        expected_version: job.version,
        downloaded_bytes: p.downloaded_bytes,
        total_bytes: p.total_bytes,
        speed_bytes_per_second: p.speed_bytes_per_second,
    }
}

/// A report forwarded for a downloading or finalizing job, from the job as last
/// stored, is recorded whenever its counts fit the store: the store gives back
/// the job with the report's counts, the same state and the next version, so the
/// request for the next report, made from that job, is accepted in turn.
pub proof fn lemma_forwarded_progress_chains(
    current: DownloadJob,
    p: TransferProgress,
    now: i64,
    r: Result<DownloadJob, JobRepositoryError>,
)
    requires
        takes_progress(current.state),
        p.downloaded_bytes <= i64::MAX,
        p.total_bytes matches Some(t) ==> t <= i64::MAX,
        p.speed_bytes_per_second matches Some(t) ==> t <= i64::MAX,
        progress_outcome(current, progress_request(current, p), None, now, r),
    ensures
        r matches Ok(job) && {
            &&& job.version == current.version + 1
            &&& job.state == current.state
            &&& job.downloaded_bytes == p.downloaded_bytes
            &&& job.total_bytes == p.total_bytes
            &&& job.speed_bytes_per_second == p.speed_bytes_per_second
            &&& takes_progress(job.state)
        },
{
}

/// Why a transfer failed.
#[derive(Debug, Clone, PartialEq, Eq)]
pub enum TransferError {
    /// The download failed; the HTTP status when the server answered with one.
    Download(Option<u16>),
    Io(String),
}

/// Reports the free space of the filesystem that holds a path.
pub trait DiskSpaceChecker {
    fn available_bytes(&self, path: &str) -> Result<u64, String>;
}

/// Free space on the library's filesystem, as `statvfs` reports it; the asking
/// is the caller's part.
#[derive(Debug, Clone, Copy, Default)]
pub struct SystemDiskSpaceChecker;

impl SystemDiskSpaceChecker {
    /// The path whose filesystem is asked about: the path itself when it
    /// exists, else its parent, else the path.
    pub fn probe_path(&self, path: String, exists: bool, parent: Option<String>) -> (r: String)
        ensures
            r == (if exists {
                path
            } else {
                match parent {
                    Some(p) => p,
                    None => path,
                }
            }),
    {
        if exists {
            path
        } else {
            match parent {
                Some(p) => p,
                None => path,
            }
        }
    }
}

/// What a pause or cancel request asks of a running transfer.
#[derive(Debug, Clone, Copy, PartialEq, Eq, Structural)]
pub enum ActiveCommand {
    Pause,
    Cancel,
}

/// Jobs are failed with this code and message when a stored path is unsafe.
pub const UNSAFE_PATH_CODE: &'static str = "unsafe_path";

pub const UNSAFE_PATH_MESSAGE: &'static str = "job paths failed validation";

/// The patch that fails a job: the error code and message, and no speed.
pub open spec fn failure_patch_view(code: Seq<char>, message: Seq<char>) -> PatchView {
    PatchView {
        error_code: Some(Some(code)),
        error_message: Some(Some(message)),
        speed_bytes_per_second: Some(None),
        ..empty_patch()
    }
}

pub fn failure_patch(code: &'static str, message: &'static str) -> (r: JobStatePatch)
    ensures
        r@ == failure_patch_view(code@, message@),
{
    JobStatePatch {
        error_code: Some(Some(owned(code))),
        error_message: Some(Some(owned(message))),
        speed_bytes_per_second: Some(None),
        ..JobStatePatch::default()
    }
}

/// The patch that clears a job's error and speed before it runs again.
pub open spec fn cleared_patch() -> PatchView {
    PatchView {
        error_code: Some(None),
        error_message: Some(None),
        speed_bytes_per_second: Some(None),
        ..empty_patch()
    }
}

pub fn clear_job_errors() -> (r: JobStatePatch)
    ensures
        r@ == cleared_patch(),
{
    JobStatePatch {
        error_code: Some(None),
        error_message: Some(None),
        speed_bytes_per_second: Some(None),
        ..JobStatePatch::default()
    }
}

/// The code and message a failed resolution is recorded with.
pub open spec fn resolution_failure_of(error: CatalogError) -> (Seq<char>, Seq<char>) {
    match error {
        CatalogError::QualityUnavailable { .. } => (
            "quality_unavailable"@,
            "no source is available at or below 1080p"@,
        ),
        _ => ("source_resolve_failed"@, "source resolution failed"@),
    }
}

pub fn resolution_failure(error: &CatalogError) -> (r: (&'static str, &'static str))
    ensures
        (r.0@, r.1@) == resolution_failure_of(*error),
{
    match error {
        CatalogError::QualityUnavailable { .. } => (
            "quality_unavailable",
            "no source is available at or below 1080p",
        ),
        _ => ("source_resolve_failed", "source resolution failed"),
    }
}

/// Jobs are failed with this code and message when the finished file is already there.
pub const DUPLICATE_TARGET_CODE: &'static str = "duplicate_target";

pub const DUPLICATE_TARGET_MESSAGE: &'static str = "final media target already exists";

/// Jobs are failed with this code and message when the transfer cannot be done.
pub const DOWNLOAD_FAILED_CODE: &'static str = "download_failed";

pub const DOWNLOAD_FAILED_MESSAGE: &'static str = "download request failed";

/// Whether the download fits: the free space must exceed the reserve plus the
/// expected size, with the sum saturating.
pub fn has_room(available: u64, reserve: u64, expected_size: Option<u64>) -> (r: bool)
    ensures
        r == (available as int > (if reserve as int + (match expected_size {
            Some(s) => s as int,
            None => 0int,
        }) > u64::MAX { u64::MAX as int } else { reserve as int + (match expected_size {
            Some(s) => s as int,
            None => 0int,
        }) })),
{
    let expected = match expected_size {
        Some(s) => s,
        None => 0,
    };
    available > reserve.saturating_add(expected)
}

/// The patch that sends a job back to the queue for want of space.
pub open spec fn insufficient_space_view() -> PatchView {
    PatchView {
        error_code: Some(Some("insufficient_space"@)),
        error_message: Some(Some("insufficient free space"@)),
        ..empty_patch()
    }
}

pub fn insufficient_space_patch() -> (r: JobStatePatch)
    ensures
        r@ == insufficient_space_view(),
{
    JobStatePatch {
        error_code: Some(Some(owned("insufficient_space"))),
        error_message: Some(Some(owned("insufficient free space"))),
        ..JobStatePatch::default()
    }
}

/// A warning about a job is published unless one was published for it less than
/// five minutes before; `now` and `last` are milliseconds on a monotonic clock,
/// and a clock that went back counts as no time elapsed.
pub fn should_emit_warning(last: Option<u64>, now: u64) -> (r: bool)
    ensures
        r == match last {
            Some(l) => (if now >= l { now - l } else { 0 }) >= WARNING_THROTTLE_MILLIS,
            None => true,
        },
{
    match last {
        Some(l) => now.saturating_sub(l) >= WARNING_THROTTLE_MILLIS,
        None => true,
    }
}

/// The file a transfer writes to: the partial path without its `.part`.
pub open spec fn active_path_of(partial: Seq<char>) -> Option<Seq<char>> {
    if crate::text::ends_with(partial, ".part"@) {
        Some(partial.take(partial.len() - 5))
    } else {
        None
    }
}

pub fn active_transfer_path(partial_relative: &str) -> (r: Option<String>)
    ensures
        opt_text(r) == active_path_of(partial_relative@),
{
    let v = chars_of(partial_relative);
    let suffix = chars_of(".part");
    proof {
        reveal_strlit(".part");
    }
    if crate::text::ends_with_chars(v.as_slice(), suffix.as_slice()) {
        let head = crate::text::slice_chars(v.as_slice(), 0, v.len() - 5);
        assert(head@ =~= partial_relative@.take(partial_relative@.len() - 5));
        Some(crate::text::string_of(head.as_slice()))
    } else {
        None
    }
}

/// Statuses that mean the source URL has expired and may be resolved again.
pub fn is_expired_status(status: u16) -> (r: bool)
    ensures
        r == (status == 404 || status == 403 || status == 410),
{
    status == 404 || status == 403 || status == 410
}

/// How a transfer attempt ended.
#[derive(Debug, Clone, PartialEq, Eq)]
pub enum TransferReport {
    Completed,
    Stopped(ActiveCommand),
    Failed(TransferError),
}

/// What the worker does after a transfer attempt.
#[derive(Debug, Clone, Copy, PartialEq, Eq, Structural)]
pub enum TransferNext {
    Finalize,
    Pause,
    Cancel,
    /// Resolve the source again and retry once.
    Refresh,
    Fail,
}

/// After a transfer attempt: a stop follows its command, an expired source is
/// resolved again after the first attempt only, and any other failure fails the
/// job.
pub open spec fn next_after(report: TransferReport, attempts: u8) -> TransferNext {
    match report {
        TransferReport::Completed => TransferNext::Finalize,
        TransferReport::Stopped(ActiveCommand::Pause) => TransferNext::Pause,
        TransferReport::Stopped(ActiveCommand::Cancel) => TransferNext::Cancel,
        TransferReport::Failed(TransferError::Download(Some(status))) => if attempts == 1 && (status
            == 404 || status == 403 || status == 410) {
            TransferNext::Refresh
        } else {
            TransferNext::Fail
        },
        TransferReport::Failed(_) => TransferNext::Fail,
    }
}

pub fn after_transfer(report: &TransferReport, attempts: u8) -> (r: TransferNext)
    ensures
        r == next_after(*report, attempts),
{
    match report {
        TransferReport::Completed => TransferNext::Finalize,
        TransferReport::Stopped(ActiveCommand::Pause) => TransferNext::Pause,
        TransferReport::Stopped(ActiveCommand::Cancel) => TransferNext::Cancel,
        TransferReport::Failed(TransferError::Download(Some(status))) => {
            if attempts == 1 && is_expired_status(*status) {
                TransferNext::Refresh
            } else {
                TransferNext::Fail
            }
        },
        TransferReport::Failed(_) => TransferNext::Fail,
    }
}

/// A stop follows the user's command: an attempt leads to cancelling the job
/// (and removing its files) exactly when it was stopped by a cancel command,
/// and to pausing it (keeping what was downloaded) exactly when it was stopped
/// by a pause command, whatever the attempt count.
pub proof fn lemma_stops_follow_their_command(report: TransferReport, attempts: u8)
    ensures
        (next_after(report, attempts) == TransferNext::Cancel) <==> (report == TransferReport::Stopped(
            ActiveCommand::Cancel,
        )),
        (next_after(report, attempts) == TransferNext::Pause) <==> (report == TransferReport::Stopped(
            ActiveCommand::Pause,
        )),
{
}

/// A finished transfer is finalized and nothing else is; a source is resolved
/// again only after the first attempt failed with an expired-source status (404,
/// 403 or 410); every other failure fails the job.
pub proof fn lemma_transfer_outcomes(report: TransferReport, attempts: u8)
    ensures
        (next_after(report, attempts) == TransferNext::Finalize) <==> (report == TransferReport::Completed),
        (next_after(report, attempts) == TransferNext::Refresh) <==> (attempts == 1 && (report matches TransferReport::Failed(
            TransferError::Download(Some(s)),
        ) && (s == 404 || s == 403 || s == 410))),
        report is Failed ==> (next_after(report, attempts) == TransferNext::Refresh || next_after(report, attempts)
            == TransferNext::Fail),
{
}

/// A transfer stopped without a recorded command is paused.
pub fn stop_command(recorded: Option<ActiveCommand>) -> (r: ActiveCommand)
    ensures
        r == match recorded {
            Some(c) => c,
            None => ActiveCommand::Pause,
        },
{
    match recorded {
        Some(c) => c,
        None => ActiveCommand::Pause,
    }
}

/// What a finished transfer stores: the byte count as the total, and no speed.
pub open spec fn completed_view(bytes: u64) -> PatchView {
    PatchView {
        downloaded_bytes: Some(bytes),
        total_bytes: Some(Some(bytes)),
        speed_bytes_per_second: Some(None),
        ..empty_patch()
    }
}

pub fn completed_transfer_patch(bytes: u64) -> (r: JobStatePatch)
    ensures
        r@ == completed_view(bytes),
{
    JobStatePatch {
        downloaded_bytes: Some(bytes),
        total_bytes: Some(Some(bytes)),
        speed_bytes_per_second: Some(None),
        ..JobStatePatch::default()
    }
}

/// What a stopped transfer stores: the bytes so far, and no speed.
pub open spec fn paused_view(bytes: u64) -> PatchView {
    PatchView { downloaded_bytes: Some(bytes), speed_bytes_per_second: Some(None), ..empty_patch() }
}

pub fn paused_transfer_patch(bytes: u64) -> (r: JobStatePatch)
    ensures
        r@ == paused_view(bytes),
{
    JobStatePatch {
        downloaded_bytes: Some(bytes),
        speed_bytes_per_second: Some(None),
        ..JobStatePatch::default()
    }
}

/// What entering finalisation stores: the total (or the bytes so far when the
/// total is unknown) as downloaded, the total, no speed, and the job's warning.
pub open spec fn finalizing_view(job: DownloadJob) -> PatchView {
    PatchView {
        downloaded_bytes: Some(
            match job.total_bytes {
                Some(t) => t,
                None => job.downloaded_bytes,
            },
        ),
        total_bytes: Some(job.total_bytes),
        speed_bytes_per_second: Some(None),
        warning: Some(opt_text(job.warning)),
        ..empty_patch()
    }
}

pub fn finalizing_patch(job: &DownloadJob) -> (r: JobStatePatch)
    ensures
        r@ == finalizing_view(*job),
{
    JobStatePatch {
        downloaded_bytes: Some(
            match job.total_bytes {
                Some(t) => t,
                None => job.downloaded_bytes,
            },
        ),
        total_bytes: Some(job.total_bytes),
        speed_bytes_per_second: Some(None),
        warning: Some(crate::catalog::models::duplicate_text(&job.warning)),
        ..JobStatePatch::default()
    }
}

/// The warning stored when the subtitle could not be fetched.
pub const SUBTITLE_DOWNLOAD_FAILED: &'static str = "subtitle_download_failed";

pub fn subtitle_warning_patch(warning: String) -> (r: JobStatePatch)
    ensures
        r@ == (PatchView { warning: Some(Some(warning@)), ..empty_patch() }),
{
    JobStatePatch { warning: Some(Some(warning)), ..JobStatePatch::default() }
}

/// A job that is not running can be cancelled directly only while it waits.
pub fn cancels_directly(state: JobState) -> (r: bool)
    ensures
        r == (state == JobState::Queued || state == JobState::Paused),
{
    match state {
        JobState::Queued | JobState::Paused => true,
        _ => false,
    }
}

/// Whether every stored path of a job stays under the media root.
pub open spec fn job_paths_safe(root: Seq<char>, job: DownloadJob) -> bool {
    &&& crate::server::security::path::containment(root, job.final_video_path@) is Ok
    &&& crate::server::security::path::containment(root, job.partial_video_path@) is Ok
    &&& (job.final_subtitle_path matches Some(p) ==> crate::server::security::path::containment(root, p@) is Ok)
    &&& (job.partial_subtitle_path matches Some(p) ==> crate::server::security::path::containment(root, p@) is Ok)
}

pub fn paths_are_safe(root: &str, job: &DownloadJob) -> (r: bool)
    ensures
        r == job_paths_safe(root@, *job),
{
    path_contained(root, job.final_video_path.as_str()) && path_contained(root, job.partial_video_path.as_str())
        && match &job.final_subtitle_path {
        Some(p) => path_contained(root, p.as_str()),
        None => true,
    } && match &job.partial_subtitle_path {
        Some(p) => path_contained(root, p.as_str()),
        None => true,
    }
}

fn path_contained(root: &str, relative: &str) -> (r: bool)
    ensures
        r == crate::server::security::path::containment(root@, relative@) is Ok,
{
    crate::server::security::path::contained_path(root, relative).is_ok()
}

} // verus!

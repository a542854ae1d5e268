//! The rules of the job store: which writes it refuses, what a stored job becomes
//! when a write goes through, and how a stored row reads back as a job.
//!
//! The store itself (a database) lives outside the library; each write there is
//! one of the plans below followed by the row update it describes.

use vstd::prelude::*;

use crate::catalog::{CatalogId, MediaType, SourceId, SubtitleId};
use crate::text::{
    dec_digits, dec_string, joined, opt_text, owned, push_chars, push_str, signed_dec_digits,
    signed_dec_string, str_eq,
};
use super::model::{
    apply_event_fields, as_data_error, can_transition, event_fields, hyphenated,
    transition_allowed, new_job_error, DownloadJob, JobEvent, JobEventKind, JobId, JobProgress,
    JobRepositoryError, JobState, NewJob,
};
use super::worker::JobStatePatch;

verus! {

/// The most jobs one page of the listing holds.
pub const MAX_LIST_LIMIT: u32 = 100;

/// How many jobs a listing returns for a requested limit: at least one, at most
/// a hundred.
pub fn list_limit(limit: u32) -> (r: u32)
    ensures
        r == (if limit < 1 {
            1
        } else if limit > MAX_LIST_LIMIT {
            MAX_LIST_LIMIT
        } else {
            limit
        }),
{
    if limit < 1 {
        1
    } else if limit > MAX_LIST_LIMIT {
        MAX_LIST_LIMIT
    } else {
        limit
    }
}

// ---------------------------------------------------------------------------
// Numbers between the store's signed columns and the job's fields.

/// The message for a stored number that does not fit the field it goes into.
pub open spec fn out_of_range(kind: Seq<char>, value: int) -> Seq<char> {
    "value out of range for "@ + kind + ": "@ + signed_dec_string(value)
}

fn out_of_range_error(kind: &str, digits: Vec<char>, Ghost(value): Ghost<int>) -> (e:
    JobRepositoryError)
    requires
        digits@ == signed_dec_string(value),
    ensures
        e matches JobRepositoryError::InvalidData(m) && m@ == out_of_range(kind@, value),
{
    let mut m = owned("value out of range for ");
    push_str(&mut m, kind);
    push_str(&mut m, ": ");
    push_chars(&mut m, digits.as_slice());
    JobRepositoryError::InvalidData(m)
}

/// Reads a stored number into a `u16` field.
pub fn to_u16(value: i64) -> (r: Result<u16, JobRepositoryError>)
    ensures
        0 <= value <= u16::MAX ==> r == Ok::<u16, JobRepositoryError>(value as u16),
        !(0 <= value <= u16::MAX) ==> as_data_error(r, out_of_range("u16"@, value as int)),
{
    if 0 <= value && value <= 65535 {
        Ok(value as u16)
    } else {
        Err(out_of_range_error("u16", signed_dec_digits(value), Ghost(value as int)))
    }
}

/// Reads a stored number into a `u32` field.
pub fn to_u32(value: i64) -> (r: Result<u32, JobRepositoryError>)
    ensures
        0 <= value <= u32::MAX ==> r == Ok::<u32, JobRepositoryError>(value as u32),
        !(0 <= value <= u32::MAX) ==> as_data_error(r, out_of_range("u32"@, value as int)),
{
    if 0 <= value && value <= 4294967295 {
        Ok(value as u32)
    } else {
        Err(out_of_range_error("u32", signed_dec_digits(value), Ghost(value as int)))
    }
}

/// Reads a stored number into a `u64` field.
pub fn to_u64(value: i64) -> (r: Result<u64, JobRepositoryError>)
    ensures
        0 <= value ==> r == Ok::<u64, JobRepositoryError>(value as u64),
        value < 0 ==> as_data_error(r, out_of_range("u64"@, value as int)),
{
    if 0 <= value {
        Ok(value as u64)
    } else {
        Err(out_of_range_error("u64", signed_dec_digits(value), Ghost(value as int)))
    }
}

/// Writes a `u64` field into a stored (signed) number.
pub fn to_i64(value: u64) -> (r: Result<i64, JobRepositoryError>)
    ensures
        value <= i64::MAX ==> r == Ok::<i64, JobRepositoryError>(value as i64),
        value > i64::MAX ==> as_data_error(r, out_of_range("i64"@, value as int)),
{
    if value <= 9223372036854775807u64 {
        Ok(value as i64)
    } else {
        let digits = dec_digits(value);
        assert(signed_dec_string(value as int) == dec_string(value as nat));
        Err(out_of_range_error("i64", digits, Ghost(value as int)))
    }
}

fn optional_to_i64(value: Option<u64>) -> (r: Result<Option<i64>, JobRepositoryError>)
    ensures
        match value {
            None => r == Ok::<Option<i64>, JobRepositoryError>(None),
            Some(v) => if v <= i64::MAX {
                r == Ok::<Option<i64>, JobRepositoryError>(Some(v as i64))
            } else {
                as_data_error(r, out_of_range("i64"@, v as int))
            },
        },
{
    match value {
        None => Ok(None),
        Some(v) => match to_i64(v) {
            Ok(x) => Ok(Some(x)),
            Err(e) => Err(e),
        },
    }
}

// ---------------------------------------------------------------------------
// Media types as the store names them.

/// The stored name of a media type.
pub open spec fn media_name(m: MediaType) -> Seq<char> {
    match m {
        MediaType::Movie => "movie"@,
        MediaType::Series => "series"@,
    }
}

/// The two media types have different stored names.
pub proof fn lemma_media_names_distinct(a: MediaType, b: MediaType)
    ensures
        media_name(a) == media_name(b) ==> a == b,
{
    reveal_strlit("movie");
    reveal_strlit("series");
    if a != b {
        assert(media_name(a)[0] != media_name(b)[0]);
    }
}

/// The name a media type is stored under.
pub fn media_type_as_str(media_type: MediaType) -> (r: &'static str)
    ensures
        r@ == media_name(media_type),
{
    match media_type {
        MediaType::Movie => "movie",
        MediaType::Series => "series",
    }
}

/// Reads a stored media type name; anything else is invalid data.
pub fn parse_media_type(value: &str) -> (r: Result<MediaType, JobRepositoryError>)
    ensures
        r matches Ok(m) ==> media_name(m) == value@,
        (exists|m: MediaType| media_name(m) == value@) ==> r is Ok,
        !(exists|m: MediaType| media_name(m) == value@) ==> as_data_error(
            r,
            "unknown media type: "@ + value@,
        ),
{
    if str_eq(value, "movie") {
        assert(media_name(MediaType::Movie) == value@);
        Ok(MediaType::Movie)
    } else if str_eq(value, "series") {
        assert(media_name(MediaType::Series) == value@);
        Ok(MediaType::Series)
    } else {
        assert forall|m: MediaType| media_name(m) != value@ by {
            match m {
                MediaType::Movie => {},
                MediaType::Series => {},
            }
        }
        Err(JobRepositoryError::InvalidData(joined("unknown media type: ", value)))
    }
}

// ---------------------------------------------------------------------------
// Writes: what each one checks and what the stored job becomes.

/// Everything a write leaves as it was: what the job is, where it goes, and when
/// it was made.
pub open spec fn same_request(a: DownloadJob, b: DownloadJob) -> bool {
    &&& a.id == b.id
    &&& a.catalog_id == b.catalog_id
    &&& a.source_id == b.source_id
    &&& a.subtitle_id == b.subtitle_id
    &&& a.title == b.title
    &&& a.year == b.year
    &&& a.media_type == b.media_type
    &&& a.season_number == b.season_number
    &&& a.episode_number == b.episode_number
    &&& a.episode_title == b.episode_title
    &&& a.requested_height == b.requested_height
    &&& a.final_video_path == b.final_video_path
    &&& a.final_subtitle_path == b.final_subtitle_path
    &&& a.partial_video_path == b.partial_video_path
    &&& a.partial_subtitle_path == b.partial_subtitle_path
    &&& a.created_at == b.created_at
}

/// The byte counts of two jobs agree.
pub open spec fn same_progress(a: DownloadJob, b: DownloadJob) -> bool {
    &&& a.downloaded_bytes == b.downloaded_bytes
    &&& a.total_bytes == b.total_bytes
    &&& a.speed_bytes_per_second == b.speed_bytes_per_second
}

/// The event a write passes, if any.
pub open spec fn event_of(event: Option<&JobEvent>) -> Option<JobEvent> {
    match event {
        Some(e) => Some(*e),
        None => None,
    }
}

/// A write that names a version other than the stored one.
pub open spec fn conflict(expected_version: i64, actual_version: i64) -> JobRepositoryError {
    JobRepositoryError::Conflict { expected_version, actual_version }
}

/// The kind of event a write records: the one passed, or the write's own.
pub fn recorded_kind(event: Option<&JobEvent>, default: JobEventKind) -> (r: JobEventKind)
    ensures
        r == (match event {
            Some(e) => e.kind,
            None => default,
        }),
{
    match event {
        Some(e) => e.kind,
        None => default,
    }
}

fn borrowed(value: &Option<String>) -> (r: Option<&str>)
    ensures
        match r {
            Some(t) => *value matches Some(v) && t@ == v@,
            None => value is None,
        },
{
    match value {
        Some(v) => Some(v.as_str()),
        None => None,
    }
}

/// `job` is `current` moved into `to` with the given error code, message and
/// warning at `now`; a move back to the queue starts a fresh budget of attempts
/// with no backoff pending.
pub open spec fn transitioned(
    current: DownloadJob,
    job: DownloadJob,
    to: JobState,
    fields: (Option<Seq<char>>, Option<Seq<char>>, Option<Seq<char>>),
    now: i64,
) -> bool {
    &&& same_request(job, current)
    &&& same_progress(job, current)
    &&& job.state == to
    &&& opt_text(job.error_code) == fields.0
    &&& opt_text(job.error_message) == fields.1
    &&& opt_text(job.warning) == fields.2
    &&& job.attempt == (if to == JobState::Queued {
        0
    } else {
        current.attempt
    })
    &&& job.next_attempt_at == (if to == JobState::Queued {
        None
    } else {
        current.next_attempt_at
    })
    &&& job.updated_at == now
    &&& job.version == current.version + 1
}

/// The outcome of a transition, checked in the store's order: the version, then
/// the lifecycle, then the event's fields.
pub open spec fn transition_outcome(
    current: DownloadJob,
    expected_version: i64,
    to: JobState,
    event: Option<JobEvent>,
    now: i64,
    r: Result<DownloadJob, JobRepositoryError>,
) -> bool {
    if current.version != expected_version {
        r == Err::<DownloadJob, JobRepositoryError>(conflict(expected_version, current.version))
    } else if !transition_allowed(current.state, to) {
        r == Err::<DownloadJob, JobRepositoryError>(
            JobRepositoryError::InvalidTransition { from: current.state, to },
        )
    } else {
        match event_fields(to, opt_text(current.warning), event) {
            Err(m) => as_data_error(r, m),
            Ok(fields) => r matches Ok(job) && transitioned(current, job, to, fields, now),
        }
    }
}

/// The job a transition of `current` into `to` stores at `now`.
pub fn plan_transition(
    current: DownloadJob,
    expected_version: i64,
    to: JobState,
    event: Option<&JobEvent>,
    now: i64,
) -> (r: Result<DownloadJob, JobRepositoryError>)
    requires
        current.version < i64::MAX,
    ensures
        transition_outcome(current, expected_version, to, event_of(event), now, r),
{
    if current.version != expected_version {
        return Err(
            JobRepositoryError::Conflict { expected_version, actual_version: current.version },
        );
    }
    if !can_transition(current.state, to) {
        return Err(JobRepositoryError::InvalidTransition { from: current.state, to });
    }
    let fields = match apply_event_fields(to, borrowed(&current.warning), event) {
        Ok(f) => f,
        Err(e) => return Err(e),
    };
    let restarting = to == JobState::Queued;
    let attempt = if restarting {
        0
    } else {
        current.attempt
    };
    let next_attempt_at = if restarting {
        None
    } else {
        current.next_attempt_at
    };
    Ok(
        DownloadJob {
            state: to,
            error_code: fields.error_code,
            error_message: fields.error_message,
            warning: fields.warning,
            attempt,
            next_attempt_at,
            updated_at: now,
            version: current.version + 1,
            ..current
        },
    )
}

/// Whether progress may be recorded for a job in this state.
pub open spec fn takes_progress(state: JobState) -> bool {
    state == JobState::Downloading || state == JobState::Finalizing
}

/// The outcome of recording progress, checked in the store's order: the version,
/// the state, the event's warning, then the three counts as stored numbers.
pub open spec fn progress_outcome(
    current: DownloadJob,
    progress: JobProgress,
    event: Option<JobEvent>,
    now: i64,
    r: Result<DownloadJob, JobRepositoryError>,
) -> bool {
    if current.version != progress.expected_version {
        r == Err::<DownloadJob, JobRepositoryError>(
            conflict(progress.expected_version, current.version),
        )
    } else if !takes_progress(current.state) {
        r == Err::<DownloadJob, JobRepositoryError>(
            JobRepositoryError::InvalidProgressState(current.state),
        )
    } else {
        match event_fields(current.state, opt_text(current.warning), event) {
            Err(m) => as_data_error(r, m),
            Ok(fields) => if progress.downloaded_bytes > i64::MAX {
                as_data_error(r, out_of_range("i64"@, progress.downloaded_bytes as int))
            } else if progress.total_bytes matches Some(t) && t > i64::MAX {
                as_data_error(r, out_of_range("i64"@, progress.total_bytes->0 as int))
            } else if progress.speed_bytes_per_second matches Some(t) && t > i64::MAX {
                as_data_error(r, out_of_range("i64"@, progress.speed_bytes_per_second->0 as int))
            } else {
                r matches Ok(job) && progressed(current, job, progress, fields.2, now)
            },
        }
    }
}

/// `job` is `current` with the counts of `progress` and the given warning at `now`.
pub open spec fn progressed(
    current: DownloadJob,
    job: DownloadJob,
    progress: JobProgress,
    warning: Option<Seq<char>>,
    now: i64,
) -> bool {
    &&& same_request(job, current)
    &&& job.state == current.state
    &&& job.downloaded_bytes == progress.downloaded_bytes
    &&& job.total_bytes == progress.total_bytes
    &&& job.speed_bytes_per_second == progress.speed_bytes_per_second
    &&& job.error_code == current.error_code
    &&& job.error_message == current.error_message
    &&& opt_text(job.warning) == warning
    &&& job.attempt == current.attempt
    &&& job.next_attempt_at == current.next_attempt_at
    &&& job.updated_at == now
    &&& job.version == current.version + 1
}

/// The job that recording `progress` for `current` stores at `now`.
pub fn plan_progress(
    current: DownloadJob,
    progress: &JobProgress,
    event: Option<&JobEvent>,
    now: i64,
) -> (r: Result<DownloadJob, JobRepositoryError>)
    requires
        current.version < i64::MAX,
    ensures
        progress_outcome(current, *progress, event_of(event), now, r),
{
    if current.version != progress.expected_version {
        return Err(
            JobRepositoryError::Conflict {
                expected_version: progress.expected_version,
                actual_version: current.version,
            },
        );
    }
    if !(current.state == JobState::Downloading || current.state == JobState::Finalizing) {
        return Err(JobRepositoryError::InvalidProgressState(current.state));
    }
    let fields = match apply_event_fields(current.state, borrowed(&current.warning), event) {
        Ok(f) => f,
        Err(e) => return Err(e),
    };
    if let Err(e) = to_i64(progress.downloaded_bytes) {
        return Err(e);
    }
    if let Err(e) = optional_to_i64(progress.total_bytes) {
        return Err(e);
    }
    if let Err(e) = optional_to_i64(progress.speed_bytes_per_second) {
        return Err(e);
    }
    Ok(
        DownloadJob {
            downloaded_bytes: progress.downloaded_bytes,
            total_bytes: progress.total_bytes,
            speed_bytes_per_second: progress.speed_bytes_per_second,
            warning: fields.warning,
            updated_at: now,
            version: current.version + 1,
            ..current
        },
    )
}

/// A patched field: the patch's value where it has one, else the current one.
pub open spec fn patched<T>(patch: Option<T>, current: T) -> T {
    match patch {
        Some(v) => v,
        None => current,
    }
}

/// The outcome of forcing `current` into `to` with a patch: the version is
/// checked, then the patched counts as stored numbers; the rest is overwritten.
pub open spec fn force_outcome(
    current: DownloadJob,
    expected_version: i64,
    to: JobState,
    patch: JobStatePatch,
    now: i64,
    r: Result<DownloadJob, JobRepositoryError>,
) -> bool {
    let downloaded = patched(patch.downloaded_bytes, current.downloaded_bytes);
    let total = patched(patch.total_bytes, current.total_bytes);
    let speed = patched(patch.speed_bytes_per_second, current.speed_bytes_per_second);
    if current.version != expected_version {
        r == Err::<DownloadJob, JobRepositoryError>(conflict(expected_version, current.version))
    } else if downloaded > i64::MAX {
        as_data_error(r, out_of_range("i64"@, downloaded as int))
    } else if total matches Some(t) && t > i64::MAX {
        as_data_error(r, out_of_range("i64"@, total->0 as int))
    } else if speed matches Some(t) && t > i64::MAX {
        as_data_error(r, out_of_range("i64"@, speed->0 as int))
    } else {
        r matches Ok(job) && {
            &&& same_request(job, current)
            &&& job.state == to
            &&& job.downloaded_bytes == downloaded
            &&& job.total_bytes == total
            &&& job.speed_bytes_per_second == speed
            &&& job.error_code == patched(patch.error_code, current.error_code)
            &&& job.error_message == patched(patch.error_message, current.error_message)
            &&& job.warning == patched(patch.warning, current.warning)
            &&& job.attempt == current.attempt
            &&& job.next_attempt_at == current.next_attempt_at
            &&& job.updated_at == now
            &&& job.version == current.version + 1
        }
    }
}

fn patch_field<T>(patch: Option<T>, current: T) -> (r: T)
    ensures
        r == patched(patch, current),
{
    match patch {
        Some(v) => v,
        None => current,
    }
}

/// The job that forcing `current` into `to` with `patch` stores at `now`.
pub fn plan_force(
    current: DownloadJob,
    expected_version: i64,
    to: JobState,
    patch: JobStatePatch,
    now: i64,
) -> (r: Result<DownloadJob, JobRepositoryError>)
    requires
        current.version < i64::MAX,
    ensures
        force_outcome(current, expected_version, to, patch, now, r),
{
    if current.version != expected_version {
        return Err(
            JobRepositoryError::Conflict { expected_version, actual_version: current.version },
        );
    }
    let downloaded_bytes = patch_field(patch.downloaded_bytes, current.downloaded_bytes);
    let total_bytes = patch_field(patch.total_bytes, current.total_bytes);
    let speed_bytes_per_second = patch_field(
        patch.speed_bytes_per_second,
        current.speed_bytes_per_second,
    );
    if let Err(e) = to_i64(downloaded_bytes) {
        return Err(e);
    }
    if let Err(e) = optional_to_i64(total_bytes) {
        return Err(e);
    }
    if let Err(e) = optional_to_i64(speed_bytes_per_second) {
        return Err(e);
    }
    let error_code = patch_field(patch.error_code, current.error_code);
    let error_message = patch_field(patch.error_message, current.error_message);
    let warning = patch_field(patch.warning, current.warning);
    Ok(
        DownloadJob {
            state: to,
            downloaded_bytes,
            total_bytes,
            speed_bytes_per_second,
            error_code,
            error_message,
            warning,
            updated_at: now,
            version: current.version + 1,
            ..current
        },
    )
}

/// Whether the queue may hand out a job at `now`: it is queued and no backoff
/// is pending past `now`.
pub open spec fn claimable(job: DownloadJob, now: i64) -> bool {
    &&& job.state == JobState::Queued
    &&& match job.next_attempt_at {
        None => true,
        Some(t) => t <= now,
    }
}

/// Whether the queue may hand out `job` at `now`.
pub fn is_claimable(job: &DownloadJob, now: i64) -> (r: bool)
    ensures
        r == claimable(*job, now),
{
    job.state == JobState::Queued && match job.next_attempt_at {
        None => true,
        Some(t) => t <= now,
    }
}

/// `job` is `current` handed out at `now`: resolving, one more attempt, no
/// backoff pending.
pub open spec fn claimed(current: DownloadJob, job: DownloadJob, now: i64) -> bool {
    &&& same_request(job, current)
    &&& same_progress(job, current)
    &&& job.state == JobState::Resolving
    &&& job.error_code == current.error_code
    &&& job.error_message == current.error_message
    &&& job.warning == current.warning
    &&& job.attempt == current.attempt + 1
    &&& job.next_attempt_at is None
    &&& job.updated_at == now
    &&& job.version == current.version + 1
}

/// The job a claim at `now` stores: resolving, one more attempt, no backoff
/// pending. A count of attempts past what the job can hold reads back as
/// invalid data.
pub fn plan_claim(current: DownloadJob, now: i64) -> (r: Result<DownloadJob, JobRepositoryError>)
    requires
        current.version < i64::MAX,
    ensures
        current.attempt == u32::MAX ==> as_data_error(r, out_of_range("u32"@, u32::MAX + 1)),
        current.attempt < u32::MAX ==> (r matches Ok(job) && claimed(current, job, now)),
{
    if current.attempt == u32::MAX {
        let n: i64 = 4294967296;
        return Err(out_of_range_error("u32", signed_dec_digits(n), Ghost(n as int)));
    }
    Ok(
        DownloadJob {
            state: JobState::Resolving,
            attempt: current.attempt + 1,
            next_attempt_at: None,
            updated_at: now,
            version: current.version + 1,
            ..current
        },
    )
}

// ---------------------------------------------------------------------------
// Rows: a job as the store keeps it, column by column.

/// One row of the jobs table. Identifiers, names and the state are text;
/// counts, heights and times (milliseconds since the epoch) are signed numbers.
#[derive(Debug, Clone, PartialEq, Eq)]
pub struct JobRow {
    pub id: String,
    pub catalog_id: String,
    pub source_id: String,
    pub subtitle_id: Option<String>,
    pub title: String,
    pub year: Option<String>,
    pub media_type: String,
    pub season_number: Option<i64>,
    pub episode_number: Option<i64>,
    pub episode_title: Option<String>,
    pub requested_height: i64,
    pub state: String,
    pub final_video_path: String,
    pub final_subtitle_path: Option<String>,
    pub partial_video_path: String,
    pub partial_subtitle_path: Option<String>,
    pub downloaded_bytes: i64,
    pub total_bytes: Option<i64>,
    pub speed_bytes_per_second: Option<i64>,
    pub attempt: i64,
    pub error_code: Option<String>,
    pub error_message: Option<String>,
    pub warning: Option<String>,
    pub next_attempt_at: Option<i64>,
    pub created_at: i64,
    pub updated_at: i64,
    pub version: i64,
}

/// What `Uuid::parse_str` makes of a text: the UUID's 128 bits, or the crate's
/// description of what is wrong with it.
pub uninterp spec fn uuid_parsed(text: Seq<char>) -> Result<u128, Seq<char>>;

/// The parse result as text, the same as the named one.
pub open spec fn same_parse(r: Result<u128, String>, parsed: Result<u128, Seq<char>>) -> bool {
    match r {
        Ok(v) => parsed == Ok::<u128, Seq<char>>(v),
        Err(e) => parsed == Err::<u128, Seq<char>>(e@),
    }
}

/// `uuid::Uuid::parse_str`, as its 128 bits (`Uuid::as_u128`) or the error's
/// text. Besides naming the result, the contract states one fact of the crate's
/// parser: the hyphenated lower-case form that `Uuid::to_string` writes is read
/// back as the same value.
#[verifier::external_body]
fn parse_uuid_text(text: &str) -> (r: Result<u128, String>)
    ensures
        same_parse(r, uuid_parsed(text@)),
        forall|v: u128| #[trigger] hyphenated(v) == text@ ==> same_parse(r, Ok(v)),
{
    match uuid::Uuid::parse_str(text) {
        Ok(u) => Ok(u.as_u128()),
        Err(e) => Err(e.to_string()),
    }
}

/// Reads a stored job identifier.
pub fn parse_job_id(text: &str) -> (r: Result<JobId, JobRepositoryError>)
    ensures
        match uuid_parsed(text@) {
            Ok(v) => r == Ok::<JobId, JobRepositoryError>(JobId(v)),
            Err(m) => as_data_error(r, "invalid uuid: "@ + m),
        },
        forall|v: u128| #[trigger] hyphenated(v) == text@ ==> r == Ok::<JobId, JobRepositoryError>(
            JobId(v),
        ),
{
    match parse_uuid_text(text) {
        Ok(v) => Ok(JobId(v)),
        Err(m) => Err(JobRepositoryError::InvalidData(joined("invalid uuid: ", m.as_str()))),
    }
}

/// Whether a stored number fits a `u16` field.
pub open spec fn fits_u16(v: i64) -> bool {
    0 <= v <= u16::MAX
}

/// The optional stored number, if present, does not fit a `u16` field.
pub open spec fn optional_too_big_u16(v: Option<i64>) -> bool {
    v matches Some(x) && !fits_u16(x)
}

/// The optional stored number, if present, is negative.
pub open spec fn optional_negative(v: Option<i64>) -> bool {
    v matches Some(x) && x < 0
}

/// The first thing wrong with a row once its identifier has been read, in the
/// order the columns are read; `None` when every column reads.
pub open spec fn row_fault(row: JobRow) -> Option<Seq<char>> {
    if !(exists|m: MediaType| media_name(m) == row.media_type@) {
        Some("unknown media type: "@ + row.media_type@)
    } else if optional_too_big_u16(row.season_number) {
        Some(out_of_range("u16"@, row.season_number->0 as int))
    } else if optional_too_big_u16(row.episode_number) {
        Some(out_of_range("u16"@, row.episode_number->0 as int))
    } else if !fits_u16(row.requested_height) {
        Some(out_of_range("u16"@, row.requested_height as int))
    } else if !(exists|s: JobState| super::model::state_name(s) == row.state@) {
        Some("unknown job state: "@ + row.state@)
    } else if row.downloaded_bytes < 0 {
        Some(out_of_range("u64"@, row.downloaded_bytes as int))
    } else if optional_negative(row.total_bytes) {
        Some(out_of_range("u64"@, row.total_bytes->0 as int))
    } else if optional_negative(row.speed_bytes_per_second) {
        Some(out_of_range("u64"@, row.speed_bytes_per_second->0 as int))
    } else if !(0 <= row.attempt <= u32::MAX) {
        Some(out_of_range("u32"@, row.attempt as int))
    } else {
        None
    }
}

/// A stored optional number read into a `u16` field.
pub open spec fn small(v: Option<i64>) -> Option<u16> {
    match v {
        Some(x) => Some(x as u16),
        None => None,
    }
}

/// A stored optional number read into a `u64` field.
pub open spec fn count(v: Option<i64>) -> Option<u64> {
    match v {
        Some(x) => Some(x as u64),
        None => None,
    }
}

/// The job a row describes, when every column reads (`row_fault` is `None`).
pub open spec fn row_job(row: JobRow, id: u128) -> DownloadJob {
    DownloadJob {
        id: JobId(id),
        catalog_id: CatalogId(row.catalog_id),
        source_id: SourceId(row.source_id),
        subtitle_id: match row.subtitle_id {
            Some(t) => Some(SubtitleId(t)),
            None => None,
        },
        title: row.title,
        year: row.year,
        media_type: choose|m: MediaType| media_name(m) == row.media_type@,
        season_number: small(row.season_number),
        episode_number: small(row.episode_number),
        episode_title: row.episode_title,
        requested_height: row.requested_height as u16,
        state: choose|s: JobState| super::model::state_name(s) == row.state@,
        final_video_path: row.final_video_path,
        final_subtitle_path: row.final_subtitle_path,
        partial_video_path: row.partial_video_path,
        partial_subtitle_path: row.partial_subtitle_path,
        downloaded_bytes: row.downloaded_bytes as u64,
        total_bytes: count(row.total_bytes),
        speed_bytes_per_second: count(row.speed_bytes_per_second),
        attempt: row.attempt as u32,
        error_code: row.error_code,
        error_message: row.error_message,
        warning: row.warning,
        next_attempt_at: row.next_attempt_at,
        created_at: row.created_at,
        updated_at: row.updated_at,
        version: row.version,
    }
}

/// What reading a row gives: the identifier is read first, then the other
/// columns in order; the first that does not read names the error.
pub open spec fn read_row(row: JobRow) -> Result<DownloadJob, Seq<char>> {
    match uuid_parsed(row.id@) {
        Err(m) => Err("invalid uuid: "@ + m),
        Ok(id) => match row_fault(row) {
            Some(m) => Err(m),
            None => Ok(row_job(row, id)),
        },
    }
}

fn optional_u16(value: Option<i64>) -> (r: Result<Option<u16>, JobRepositoryError>)
    ensures
        !optional_too_big_u16(value) ==> r == Ok::<Option<u16>, JobRepositoryError>(small(value)),
        optional_too_big_u16(value) ==> as_data_error(r, out_of_range("u16"@, value->0 as int)),
{
    match value {
        None => Ok(None),
        Some(v) => match to_u16(v) {
            Ok(x) => Ok(Some(x)),
            Err(e) => Err(e),
        },
    }
}

fn optional_u64(value: Option<i64>) -> (r: Result<Option<u64>, JobRepositoryError>)
    ensures
        !optional_negative(value) ==> r == Ok::<Option<u64>, JobRepositoryError>(count(value)),
        optional_negative(value) ==> as_data_error(r, out_of_range("u64"@, value->0 as int)),
{
    match value {
        None => Ok(None),
        Some(v) => match to_u64(v) {
            Ok(x) => Ok(Some(x)),
            Err(e) => Err(e),
        },
    }
}

/// Reads a stored row back as a job.
pub fn job_from_row(row: JobRow) -> (r: Result<DownloadJob, JobRepositoryError>)
    ensures
        match read_row(row) {
            Ok(job) => r == Ok::<DownloadJob, JobRepositoryError>(job),
            Err(m) => as_data_error(r, m),
        },
{
    let id = match parse_job_id(row.id.as_str()) {
        Ok(id) => id,
        Err(e) => return Err(e),
    };
    let media_type = match parse_media_type(row.media_type.as_str()) {
        Ok(m) => m,
        Err(e) => return Err(e),
    };
    proof {
        lemma_media_names_distinct(media_type, choose|m: MediaType| media_name(m) == row.media_type@);
    }
    let season_number = match optional_u16(row.season_number) {
        Ok(v) => v,
        Err(e) => return Err(e),
    };
    let episode_number = match optional_u16(row.episode_number) {
        Ok(v) => v,
        Err(e) => return Err(e),
    };
    let requested_height = match to_u16(row.requested_height) {
        Ok(v) => v,
        Err(e) => return Err(e),
    };
    let state = match JobState::parse(row.state.as_str()) {
        Ok(s) => s,
        Err(e) => return Err(e),
    };
    proof {
        super::model::lemma_state_names_distinct(
            state,
            choose|s: JobState| super::model::state_name(s) == row.state@,
        );
    }
    let downloaded_bytes = match to_u64(row.downloaded_bytes) {
        Ok(v) => v,
        Err(e) => return Err(e),
    };
    let total_bytes = match optional_u64(row.total_bytes) {
        Ok(v) => v,
        Err(e) => return Err(e),
    };
    let speed_bytes_per_second = match optional_u64(row.speed_bytes_per_second) {
        Ok(v) => v,
        Err(e) => return Err(e),
    };
    let attempt = match to_u32(row.attempt) {
        Ok(v) => v,
        Err(e) => return Err(e),
    };
    let subtitle_id = match row.subtitle_id {
        Some(t) => Some(SubtitleId(t)),
        None => None,
    };
    Ok(
        DownloadJob {
            id,
            catalog_id: CatalogId(row.catalog_id),
            source_id: SourceId(row.source_id),
            subtitle_id,
            title: row.title,
            year: row.year,
            media_type,
            season_number,
            episode_number,
            episode_title: row.episode_title,
            requested_height,
            state,
            final_video_path: row.final_video_path,
            final_subtitle_path: row.final_subtitle_path,
            partial_video_path: row.partial_video_path,
            partial_subtitle_path: row.partial_subtitle_path,
            downloaded_bytes,
            total_bytes,
            speed_bytes_per_second,
            attempt,
            error_code: row.error_code,
            error_message: row.error_message,
            warning: row.warning,
            next_attempt_at: row.next_attempt_at,
            created_at: row.created_at,
            updated_at: row.updated_at,
            version: row.version,
        },
    )
}

/// A stored optional field of a `u16`.
pub open spec fn widened(v: Option<u16>) -> Option<i64> {
    match v {
        Some(x) => Some(x as i64),
        None => None,
    }
}

/// The text of an optional subtitle identifier.
pub open spec fn subtitle_text(v: Option<SubtitleId>) -> Option<String> {
    match v {
        Some(s) => Some(s.0),
        None => None,
    }
}

/// `row` is how a new job with `id` for `input` is first stored at `now`:
/// queued, nothing downloaded, no attempt made, no error, version zero.
pub open spec fn inserted(id: JobId, input: NewJob, now: i64, row: JobRow) -> bool {
    &&& row.id@ == hyphenated(id.0)
    &&& row.catalog_id == input.catalog_id.0
    &&& row.source_id == input.source_id.0
    &&& row.subtitle_id == subtitle_text(input.subtitle_id)
    &&& row.title == input.title
    &&& row.year == input.year
    &&& row.media_type@ == media_name(input.media_type)
    &&& row.season_number == widened(input.season_number)
    &&& row.episode_number == widened(input.episode_number)
    &&& row.episode_title == input.episode_title
    &&& row.requested_height == input.requested_height as i64
    &&& row.state@ == super::model::state_name(JobState::Queued)
    &&& row.final_video_path == input.final_video_path
    &&& row.final_subtitle_path == input.final_subtitle_path
    &&& row.partial_video_path == input.partial_video_path
    &&& row.partial_subtitle_path == input.partial_subtitle_path
    &&& row.downloaded_bytes == 0
    &&& row.total_bytes is None
    &&& row.speed_bytes_per_second is None
    &&& row.attempt == 0
    &&& row.error_code is None
    &&& row.error_message is None
    &&& row.warning is None
    &&& row.next_attempt_at is None
    &&& row.created_at == now
    &&& row.updated_at == now
    &&& row.version == 0
}

fn widen(v: Option<u16>) -> (r: Option<i64>)
    ensures
        r == widened(v),
{
    match v {
        Some(x) => Some(x as i64),
        None => None,
    }
}

/// The row a request is stored as, once it has passed its checks; a request
/// that fails them is refused with the first failure.
pub fn plan_create(id: JobId, input: NewJob, now: i64) -> (r: Result<JobRow, JobRepositoryError>)
    ensures
        match r {
            Ok(row) => new_job_error(input) is None && inserted(id, input, now, row),
            Err(e) => e matches JobRepositoryError::InvalidData(m) && new_job_error(input) == Some(
                m@,
            ),
        },
{
    if let Err(e) = input.validate() {
        return Err(e);
    }
    let subtitle_id = match input.subtitle_id {
        Some(s) => Some(s.0),
        None => None,
    };
    Ok(
        JobRow {
            id: super::model::uuid_text(id.0),
            catalog_id: input.catalog_id.0,
            source_id: input.source_id.0,
            subtitle_id,
            title: input.title,
            year: input.year,
            media_type: owned(media_type_as_str(input.media_type)),
            season_number: widen(input.season_number),
            episode_number: widen(input.episode_number),
            episode_title: input.episode_title,
            requested_height: input.requested_height as i64,
            state: owned(JobState::Queued.as_str()),
            final_video_path: input.final_video_path,
            final_subtitle_path: input.final_subtitle_path,
            partial_video_path: input.partial_video_path,
            partial_subtitle_path: input.partial_subtitle_path,
            downloaded_bytes: 0,
            total_bytes: None,
            speed_bytes_per_second: None,
            attempt: 0,
            error_code: None,
            error_message: None,
            warning: None,
            next_attempt_at: None,
            created_at: now,
            updated_at: now,
            version: 0,
        },
    )
}

/// The job a new request becomes: the request's fields, queued, nothing
/// downloaded, no attempt made, no error, created at `now`, version zero.
pub open spec fn fresh_job(id: JobId, input: NewJob, now: i64) -> DownloadJob {
    DownloadJob {
        id,
        catalog_id: input.catalog_id,
        source_id: input.source_id,
        subtitle_id: input.subtitle_id,
        title: input.title,
        year: input.year,
        media_type: input.media_type,
        season_number: input.season_number,
        episode_number: input.episode_number,
        episode_title: input.episode_title,
        requested_height: input.requested_height,
        state: JobState::Queued,
        final_video_path: input.final_video_path,
        final_subtitle_path: input.final_subtitle_path,
        partial_video_path: input.partial_video_path,
        partial_subtitle_path: input.partial_subtitle_path,
        downloaded_bytes: 0,
        total_bytes: None,
        speed_bytes_per_second: None,
        attempt: 0,
        error_code: None,
        error_message: None,
        warning: None,
        next_attempt_at: None,
        created_at: now,
        updated_at: now,
        version: 0,
    }
}

/// A job is read back from the row it was first stored as: every column reads,
/// and the job is the request, queued and untouched. (The identifier column is
/// the hyphenated form, which `parse_job_id` reads back as the same identifier.)
pub proof fn lemma_new_row_reads_back(id: JobId, input: NewJob, now: i64, row: JobRow)
    requires
        inserted(id, input, now, row),
    ensures
        row_fault(row) is None,
        row_job(row, id.0) == fresh_job(id, input, now),
{
    assert(media_name(input.media_type) == row.media_type@);
    assert(super::model::state_name(JobState::Queued) == row.state@);
    let m = choose|m: MediaType| media_name(m) == row.media_type@;
    lemma_media_names_distinct(m, input.media_type);
    let s = choose|s: JobState| super::model::state_name(s) == row.state@;
    super::model::lemma_state_names_distinct(s, JobState::Queued);
    assert(row_job(row, id.0).subtitle_id == input.subtitle_id);
}

} // verus!

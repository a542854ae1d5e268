//! Download jobs: their lifecycle states, the requests that create them, and the
//! events recorded along the way.

use vstd::prelude::*;

use crate::catalog::{CatalogId, MediaType, SourceId, SubtitleId};
use crate::text::{
    byte_len, byte_len_of, chars_of, contains, contains_chars, dec_digits, dec_string,
    has_control, is_control, joined, owned, push_chars, push_str, starts_with,
    starts_with_chars, str_blank, str_eq, string_of, trim, trim_chars, occurs_at,
    occurs_at_exec, opt_text,
};

verus! {

pub const MAX_REQUESTED_HEIGHT: u16 = 1080;

pub const MAX_ERROR_CODE_LEN: usize = 64;

pub const MAX_ERROR_MESSAGE_LEN: usize = 512;

pub const MAX_WARNING_LEN: usize = 512;

/// A job's identity: the 128 bits of its UUID.
#[derive(Debug, Clone, Copy, PartialEq, Eq, Hash, Structural)]
pub struct JobId(pub u128);

impl JobId {
    pub fn new(value: u128) -> (r: Self)
        ensures
            r.0 == value,
    {
        JobId(value)
    }

    /// The identifier in its hyphenated form, as it is shown and stored.
    pub fn to_text(&self) -> (r: String)
        ensures
            r@ == hyphenated(self.0),
    {
        uuid_text(self.0)
    }
}

pub open spec fn hex_char(d: nat) -> char {
    if d < 10 {
        ((d + 48) as u32) as char
    } else {
        ((d + 87) as u32) as char
    }
}

/// The last `count` hexadecimal digits of `n`, zero-padded, lower-case.
pub open spec fn hex_digits(n: nat, count: nat) -> Seq<char>
    decreases count,
{
    if count == 0 {
        seq![]
    } else {
        hex_digits(n / 16, (count - 1) as nat).push(hex_char(n % 16))
    }
}

/// The 32 hexadecimal digits of a UUID in groups of 8, 4, 4, 4 and 12, joined by
/// hyphens.
pub open spec fn hyphenated(v: u128) -> Seq<char> {
    let h = hex_digits(v as nat, 32);
    h.subrange(0, 8) + seq!['-'] + h.subrange(8, 12) + seq!['-'] + h.subrange(12, 16) + seq!['-']
        + h.subrange(16, 20) + seq!['-'] + h.subrange(20, 32)
}

/// `Uuid::from_u128(..).to_string()`: the hyphenated lower-case form, as the
/// crate documents it.
#[verifier::external_body]
pub(crate) fn uuid_text(v: u128) -> (r: String)
    ensures
        r@ == hyphenated(v),
{
    uuid::Uuid::from_u128(v).to_string()
}

/// Keyset cursor for job listing: creation time in milliseconds, then id.
#[derive(Debug, Clone, Copy, PartialEq, Eq, Hash, Structural)]
pub struct JobListCursor {
    pub created_at: i64,
    pub id: JobId,
}

impl JobListCursor {
    pub fn new(created_at: i64, id: JobId) -> (r: Self)
        ensures
            r.created_at == created_at,
            r.id == id,
    {
        JobListCursor { created_at, id }
    }

    pub fn from_job(job: &DownloadJob) -> (r: Self)
        ensures
            r.created_at == job.created_at,
            r.id == job.id,
    {
        JobListCursor { created_at: job.created_at, id: job.id }
    }

    pub fn created_at(self) -> (r: i64)
        ensures
            r == self.created_at,
    {
        self.created_at
    }

    pub fn id(self) -> (r: JobId)
        ensures
            r == self.id,
    {
        self.id
    }
}

#[derive(Debug, Clone, Copy, PartialEq, Eq, Hash, Structural)]
pub enum JobState {
    Queued,
    Resolving,
    Downloading,
    Paused,
    Finalizing,
    Ready,
    Failed,
    Cancelled,
}

/// The stored name of a state.
pub open spec fn state_name(s: JobState) -> Seq<char> {
    match s {
        JobState::Queued => "queued"@,
        JobState::Resolving => "resolving"@,
        JobState::Downloading => "downloading"@,
        JobState::Paused => "paused"@,
        JobState::Finalizing => "finalizing"@,
        JobState::Ready => "ready"@,
        JobState::Failed => "failed"@,
        JobState::Cancelled => "cancelled"@,
    }
}

/// Distinct states have distinct stored names, so a stored name reads back as the
/// state that was written.
pub proof fn lemma_state_names_distinct(a: JobState, b: JobState)
    ensures
        state_name(a) == state_name(b) ==> a == b,
{
    reveal_strlit("queued");
    reveal_strlit("resolving");
    reveal_strlit("downloading");
    reveal_strlit("paused");
    reveal_strlit("finalizing");
    reveal_strlit("ready");
    reveal_strlit("failed");
    reveal_strlit("cancelled");
    if state_name(a) == state_name(b) && a != b {
        assert(state_name(a).len() != state_name(b).len() || exists|i: int|
            0 <= i < state_name(a).len() && state_name(a)[i] != state_name(b)[i]) by {
            if state_name(a).len() == state_name(b).len() {
                assert(state_name(a)[0] != state_name(b)[0] || state_name(a)[1] != state_name(
                    b,
                )[1]);
            }
        }
    }
}

impl JobState {
    pub fn as_str(self) -> (r: &'static str)
        ensures
            r@ == state_name(self),
    {
        match self {
            JobState::Queued => "queued",
            JobState::Resolving => "resolving",
            JobState::Downloading => "downloading",
            JobState::Paused => "paused",
            JobState::Finalizing => "finalizing",
            JobState::Ready => "ready",
            JobState::Failed => "failed",
            JobState::Cancelled => "cancelled",
        }
    }

    /// Reads a stored state name; anything else is invalid data.
    pub fn parse(value: &str) -> (r: Result<JobState, JobRepositoryError>)
        ensures
            r matches Ok(s) ==> state_name(s) == value@,
            r is Err ==> forall|s: JobState| state_name(s) != value@,
            r matches Err(e) ==> e matches JobRepositoryError::InvalidData(m) && m@
                == "unknown job state: "@ + value@,
    {
        if str_eq(value, "queued") {
            Ok(JobState::Queued)
        } else if str_eq(value, "resolving") {
            Ok(JobState::Resolving)
        } else if str_eq(value, "downloading") {
            Ok(JobState::Downloading)
        } else if str_eq(value, "paused") {
            Ok(JobState::Paused)
        } else if str_eq(value, "finalizing") {
            Ok(JobState::Finalizing)
        } else if str_eq(value, "ready") {
            Ok(JobState::Ready)
        } else if str_eq(value, "failed") {
            Ok(JobState::Failed)
        } else if str_eq(value, "cancelled") {
            Ok(JobState::Cancelled)
        } else {
            Err(JobRepositoryError::InvalidData(joined("unknown job state: ", value)))
        }
    }
}

/// Reading back the name that `as_str` wrote gives the same state.
pub proof fn lemma_state_round_trip(s: JobState, parsed: JobState)
    requires
        state_name(parsed) == state_name(s),
    ensures
        parsed == s,
{
    lemma_state_names_distinct(parsed, s);
}

#[derive(Debug, Clone, PartialEq, Eq)]
pub struct DownloadJob {
    pub id: JobId,
    pub catalog_id: CatalogId,
    pub source_id: SourceId,
    pub subtitle_id: Option<SubtitleId>,
    pub title: String,
    pub year: Option<String>,
    pub media_type: MediaType,
    pub season_number: Option<u16>,
    pub episode_number: Option<u16>,
    pub episode_title: Option<String>,
    pub requested_height: u16,
    pub state: JobState,
    pub final_video_path: String,
    pub final_subtitle_path: Option<String>,
    pub partial_video_path: String,
    pub partial_subtitle_path: Option<String>,
    pub downloaded_bytes: u64,
    pub total_bytes: Option<u64>,
    pub speed_bytes_per_second: Option<u64>,
    pub attempt: u32,
    pub error_code: Option<String>,
    pub error_message: Option<String>,
    pub warning: Option<String>,
    /// Milliseconds since the epoch before which a queued job must not be claimed.
    pub next_attempt_at: Option<i64>,
    /// Milliseconds since the epoch.
    pub created_at: i64,
    /// Milliseconds since the epoch.
    pub updated_at: i64,
    pub version: i64,
}

#[derive(Debug, Clone, PartialEq, Eq)]
pub struct NewJob {
    pub catalog_id: CatalogId,
    pub source_id: SourceId,
    pub subtitle_id: Option<SubtitleId>,
    pub title: String,
    pub year: Option<String>,
    pub media_type: MediaType,
    pub season_number: Option<u16>,
    pub episode_number: Option<u16>,
    pub episode_title: Option<String>,
    pub requested_height: u16,
    pub final_video_path: String,
    pub final_subtitle_path: Option<String>,
    pub partial_video_path: String,
    pub partial_subtitle_path: Option<String>,
}

/// The message for an identifier that is blank or carries a direct URL.
pub open spec fn opaque_id_error(field: Seq<char>, value: Seq<char>) -> Option<Seq<char>> {
    if trim(value).len() == 0 {
        Some(field + " must not be empty"@)
    } else if contains(value, "://"@) {
        Some(field + " must not contain a direct URL"@)
    } else {
        None
    }
}

/// `comp` is a whole `/`-separated component of `path` at position `i`.
pub open spec fn component_at(path: Seq<char>, comp: Seq<char>, i: int) -> bool {
    &&& occurs_at(path, comp, i)
    &&& (i == 0 || path[i - 1] == '/')
    &&& (i + comp.len() == path.len() || path[i + comp.len()] == '/')
}

/// Every component that `Path::components` yields for the relative path is a
/// normal one: it does not start at `.`, and no component is `..`.
pub open spec fn only_normal_components(path: Seq<char>) -> bool {
    &&& !component_at(path, "."@, 0)
    &&& forall|i: int| !component_at(path, ".."@, i)
}

/// The message for a stored path that is blank, absolute, or climbs out.
pub open spec fn relative_path_error(field: Seq<char>, value: Seq<char>) -> Option<Seq<char>> {
    if trim(value).len() == 0 {
        Some(field + " must not be empty"@)
    } else if value.len() > 0 && value[0] == '/' {
        Some(field + " must be relative"@)
    } else if !only_normal_components(value) {
        Some(field + " must contain only normal path components"@)
    } else {
        None
    }
}

pub open spec fn optional_relative_path_error(field: Seq<char>, value: Option<String>) -> Option<
    Seq<char>,
> {
    match value {
        Some(v) => relative_path_error(field, v@),
        None => None,
    }
}

/// The first of two checks that fails.
pub open spec fn first_failure(a: Option<Seq<char>>, b: Option<Seq<char>>) -> Option<Seq<char>> {
    if a is Some {
        a
    } else {
        b
    }
}

/// What is wrong with an episode identity for its media type.
pub open spec fn identity_error(job: NewJob) -> Option<Seq<char>> {
    match job.media_type {
        MediaType::Movie => if job.season_number is Some || job.episode_number is Some
            || job.episode_title is Some {
            Some("movie jobs must not include episode identity"@)
        } else {
            None
        },
        MediaType::Series => if job.season_number is None || job.episode_number is None {
            Some("series jobs require season and episode numbers"@)
        } else {
            None
        },
    }
}

/// The first check that a new job fails, in the order they are made.
pub open spec fn new_job_error(job: NewJob) -> Option<Seq<char>> {
    first_failure(
        opaque_id_error("catalog_id"@, job.catalog_id.0@),
        first_failure(
            opaque_id_error("source_id"@, job.source_id.0@),
            first_failure(
                match job.subtitle_id {
                    Some(s) => opaque_id_error("subtitle_id"@, s.0@),
                    None => None,
                },
                first_failure(
                    if trim(job.title@).len() == 0 {
                        Some("title must not be empty"@)
                    } else {
                        None
                    },
                    first_failure(
                        if job.requested_height == 0 || job.requested_height
                            > MAX_REQUESTED_HEIGHT {
                            Some("requested height must be between 1 and 1080"@)
                        } else {
                            None
                        },
                        first_failure(
                            identity_error(job),
                            first_failure(
                                relative_path_error("final_video_path"@, job.final_video_path@),
                                first_failure(
                                    optional_relative_path_error(
                                        "final_subtitle_path"@,
                                        job.final_subtitle_path,
                                    ),
                                    first_failure(
                                        relative_path_error(
                                            "partial_video_path"@,
                                            job.partial_video_path@,
                                        ),
                                        optional_relative_path_error(
                                            "partial_subtitle_path"@,
                                            job.partial_subtitle_path,
                                        ),
                                    ),
                                ),
                            ),
                        ),
                    ),
                ),
            ),
        ),
    )
}

/// The outcome of a check: `Ok` exactly when it found nothing, else the message.
pub open spec fn check_outcome(r: Result<(), JobRepositoryError>, expected: Option<Seq<char>>) -> bool {
    match r {
        Ok(_) => expected is None,
        Err(e) => e matches JobRepositoryError::InvalidData(m) && expected == Some(m@),
    }
}

fn invalid(field: &str, message: &str) -> (e: JobRepositoryError)
    ensures
        e matches JobRepositoryError::InvalidData(m) && m@ == field@ + message@,
{
    JobRepositoryError::InvalidData(joined(field, message))
}

fn ensure_opaque_id(field: &str, value: &str) -> (r: Result<(), JobRepositoryError>)
    ensures
        check_outcome(r, opaque_id_error(field@, value@)),
{
    if str_blank(value) {
        return Err(invalid(field, " must not be empty"));
    }
    let chars = chars_of(value);
    let url = chars_of("://");
    if contains_chars(chars.as_slice(), url.as_slice()) {
        return Err(invalid(field, " must not contain a direct URL"));
    }
    Ok(())
}

/// Whether `comp` occurs as a whole component at `i`.
fn component_at_exec(path: &[char], comp: &[char], i: usize) -> (b: bool)
    ensures
        b == component_at(path@, comp@, i as int),
{
    if !occurs_at_exec(path, comp, i) {
        return false;
    }
    assert(i + comp@.len() <= path@.len());
    assert(path@.len() == path.len() && comp@.len() == comp.len());
    let end = i + comp.len();
    (i == 0 || path[i - 1] == '/') && (end == path.len() || path[end] == '/')
}

fn only_normal_components_exec(path: &[char]) -> (b: bool)
    ensures
        b == only_normal_components(path@),
{
    let dot = chars_of(".");
    let dots = chars_of("..");
    if component_at_exec(path, dot.as_slice(), 0) {
        return false;
    }
    let mut i: usize = 0;
    while i < path.len()
        invariant
            i <= path@.len(),
            dots@ == ".."@,
            forall|j: int| 0 <= j < i ==> !component_at(path@, ".."@, j),
        decreases path@.len() - i,
    {
        if component_at_exec(path, dots.as_slice(), i) {
            return false;
        }
        i = i + 1;
    }
    assert forall|j: int| !component_at(path@, ".."@, j) by {
        reveal_strlit("..");
        if j >= i {
            assert(!occurs_at(path@, ".."@, j));
        }
    }
    true
}

fn ensure_relative_path(field: &str, value: &str) -> (r: Result<(), JobRepositoryError>)
    ensures
        check_outcome(r, relative_path_error(field@, value@)),
{
    if str_blank(value) {
        return Err(invalid(field, " must not be empty"));
    }
    let chars = chars_of(value);
    if chars.len() > 0 && chars[0] == '/' {
        return Err(invalid(field, " must be relative"));
    }
    if !only_normal_components_exec(chars.as_slice()) {
        return Err(invalid(field, " must contain only normal path components"));
    }
    Ok(())
}

fn ensure_optional_relative_path(field: &str, value: &Option<String>) -> (r: Result<
    (),
    JobRepositoryError,
>)
    ensures
        check_outcome(r, optional_relative_path_error(field@, *value)),
{
    match value {
        Some(v) => ensure_relative_path(field, v.as_str()),
        None => Ok(()),
    }
}

fn data_error(message: &str) -> (e: JobRepositoryError)
    ensures
        e matches JobRepositoryError::InvalidData(m) && m@ == message@,
{
    JobRepositoryError::InvalidData(owned(message))
}

impl NewJob {
    /// Checks a job request before it is stored; the error names the first check that fails.
    pub fn validate(&self) -> (r: Result<(), JobRepositoryError>)
        ensures
            check_outcome(r, new_job_error(*self)),
    {
        let r = ensure_opaque_id("catalog_id", self.catalog_id.as_str());
        if r.is_err() {
            return r;
        }
        let r = ensure_opaque_id("source_id", self.source_id.as_str());
        if r.is_err() {
            return r;
        }
        if let Some(subtitle_id) = &self.subtitle_id {
            let r = ensure_opaque_id("subtitle_id", subtitle_id.as_str());
            if r.is_err() {
                return r;
            }
        }
        if str_blank(self.title.as_str()) {
            return Err(data_error("title must not be empty"));
        }
        if self.requested_height == 0 || self.requested_height > MAX_REQUESTED_HEIGHT {
            return Err(data_error("requested height must be between 1 and 1080"));
        }
        match self.media_type {
            MediaType::Movie => {
                if self.season_number.is_some() || self.episode_number.is_some()
                    || self.episode_title.is_some() {
                    return Err(data_error("movie jobs must not include episode identity"));
                }
            },
            MediaType::Series => {
                if self.season_number.is_none() || self.episode_number.is_none() {
                    return Err(data_error("series jobs require season and episode numbers"));
                }
            },
        }
        let r = ensure_relative_path("final_video_path", self.final_video_path.as_str());
        if r.is_err() {
            return r;
        }
        let r = ensure_optional_relative_path("final_subtitle_path", &self.final_subtitle_path);
        if r.is_err() {
            return r;
        }
        let r = ensure_relative_path("partial_video_path", self.partial_video_path.as_str());
        if r.is_err() {
            return r;
        }
        ensure_optional_relative_path("partial_subtitle_path", &self.partial_subtitle_path)
    }
}

#[derive(Debug, Clone, PartialEq, Eq)]
pub struct JobProgress {
    pub expected_version: i64,
    pub downloaded_bytes: u64,
    pub total_bytes: Option<u64>,
    pub speed_bytes_per_second: Option<u64>,
}

#[derive(Debug, Clone, PartialEq, Eq)]
pub struct JobEvent {
    pub kind: JobEventKind,
    pub error_code: Option<String>,
    pub error_message: Option<String>,
    pub warning: Option<String>,
}

#[derive(Debug, Clone, PartialEq, Eq)]
pub struct JobEventFields {
    pub error_code: Option<String>,
    pub error_message: Option<String>,
    pub warning: Option<String>,
}

/// Stored text: trimmed, non-empty, at most `max_len` bytes, free of control characters.
pub open spec fn sanitized(value: Seq<char>, max_len: nat) -> Result<Seq<char>, Seq<char>> {
    let t = trim(value);
    if t.len() == 0 {
        Err("text must not be empty"@)
    } else if byte_len(t) > max_len {
        Err("text exceeds "@ + dec_string(max_len) + " bytes"@)
    } else if exists|i: int| 0 <= i < t.len() && #[trigger] is_control(t[i]) {
        Err("text must not contain control characters"@)
    } else {
        Ok(t)
    }
}

/// The sanitizer's outcome as strings.
pub open spec fn sanitize_outcome(r: Result<String, String>, expected: Result<Seq<char>, Seq<char>>) -> bool {
    match r {
        Ok(s) => expected == Ok::<Seq<char>, Seq<char>>(s@),
        Err(m) => expected == Err::<Seq<char>, Seq<char>>(m@),
    }
}

fn sanitize_text(value: &str, max_len: usize) -> (r: Result<String, String>)
    ensures
        sanitize_outcome(r, sanitized(value@, max_len as nat)),
{
    let chars = chars_of(value);
    let t = trim_chars(chars.as_slice());
    if t.len() == 0 {
        return Err(owned("text must not be empty"));
    }
    if byte_len_of(t.as_slice()) > max_len as u128 {
        let mut m = owned("text exceeds ");
        let digits = dec_digits(max_len as u64);
        push_chars(&mut m, digits.as_slice());
        push_str(&mut m, " bytes");
        return Err(m);
    }
    if has_control(t.as_slice()) {
        return Err(owned("text must not contain control characters"));
    }
    Ok(string_of(t.as_slice()))
}

/// The error kind the repository reports for sanitizer messages.
pub open spec fn as_data_error<T>(r: Result<T, JobRepositoryError>, m: Seq<char>) -> bool {
    r matches Err(e) && e matches JobRepositoryError::InvalidData(s) && s@ == m
}

impl JobEvent {
    pub fn new(kind: JobEventKind) -> (r: Self)
        ensures
            r.kind == kind,
            r.error_code is None,
            r.error_message is None,
            r.warning is None,
    {
        JobEvent { kind, error_code: None, error_message: None, warning: None }
    }

    /// Attaches a sanitized error code (at most 64 bytes) and message (at most 512 bytes).
    pub fn with_error(self, code: String, message: String) -> (r: Result<Self, JobRepositoryError>)
        ensures
            match (sanitized(code@, 64), sanitized(message@, 512)) {
                (Err(m), _) => as_data_error(r, m),
                (Ok(_), Err(m)) => as_data_error(r, m),
                (Ok(c), Ok(msg)) => r matches Ok(e) && e.kind == self.kind && e.warning
                    == self.warning && opt_text(e.error_code) == Some(c) && opt_text(
                    e.error_message,
                ) == Some(msg),
            },
    {
        let code = match sanitize_text(code.as_str(), MAX_ERROR_CODE_LEN) {
            Ok(c) => c,
            Err(m) => return Err(JobRepositoryError::InvalidData(m)),
        };
        let message = match sanitize_text(message.as_str(), MAX_ERROR_MESSAGE_LEN) {
            Ok(c) => c,
            Err(m) => return Err(JobRepositoryError::InvalidData(m)),
        };
        Ok(
            JobEvent {
                kind: self.kind,
                error_code: Some(code),
                error_message: Some(message),
                warning: self.warning,
            },
        )
    }

    /// Attaches a sanitized warning of at most 512 bytes.
    pub fn with_warning(self, warning: String) -> (r: Result<Self, JobRepositoryError>)
        ensures
            match sanitized(warning@, 512) {
                Err(m) => as_data_error(r, m),
                Ok(w) => r matches Ok(e) && e.kind == self.kind && e.error_code == self.error_code
                    && e.error_message == self.error_message && opt_text(e.warning) == Some(w),
            },
    {
        let warning = match sanitize_text(warning.as_str(), MAX_WARNING_LEN) {
            Ok(w) => w,
            Err(m) => return Err(JobRepositoryError::InvalidData(m)),
        };
        Ok(
            JobEvent {
                kind: self.kind,
                error_code: self.error_code,
                error_message: self.error_message,
                warning: Some(warning),
            },
        )
    }
}

#[derive(Debug, Clone, Copy, PartialEq, Eq, Structural)]
pub enum JobEventKind {
    Created,
    Claimed,
    StateChanged,
    ProgressUpdated,
}

pub open spec fn event_kind_name(k: JobEventKind) -> Seq<char> {
    match k {
        JobEventKind::Created => "created"@,
        JobEventKind::Claimed => "claimed"@,
        JobEventKind::StateChanged => "state_changed"@,
        JobEventKind::ProgressUpdated => "progress_updated"@,
    }
}

impl JobEventKind {
    pub fn as_str(self) -> (r: &'static str)
        ensures
            r@ == event_kind_name(self),
    {
        match self {
            JobEventKind::Created => "created",
            JobEventKind::Claimed => "claimed",
            JobEventKind::StateChanged => "state_changed",
            JobEventKind::ProgressUpdated => "progress_updated",
        }
    }
}

#[derive(Debug, Clone, PartialEq, Eq)]
pub enum JobRepositoryError {
    NotFound(JobId),
    InvalidTransition { from: JobState, to: JobState },
    InvalidProgressState(JobState),
    Conflict { expected_version: i64, actual_version: i64 },
    InvalidData(String),
    /// The database reported a failure; the text is its description.
    Storage(String),
}

/// The allowed lifecycle moves.
pub open spec fn transition_allowed(from: JobState, to: JobState) -> bool {
    ||| (from == JobState::Queued && to == JobState::Resolving)
    ||| (from == JobState::Queued && to == JobState::Cancelled)
    ||| (from == JobState::Resolving && to == JobState::Downloading)
    ||| (from == JobState::Resolving && to == JobState::Failed)
    ||| (from == JobState::Downloading && to == JobState::Paused)
    ||| (from == JobState::Downloading && to == JobState::Finalizing)
    ||| (from == JobState::Downloading && to == JobState::Failed)
    ||| (from == JobState::Downloading && to == JobState::Cancelled)
    ||| (from == JobState::Paused && to == JobState::Queued)
    ||| (from == JobState::Paused && to == JobState::Cancelled)
    ||| (from == JobState::Finalizing && to == JobState::Ready)
    ||| (from == JobState::Finalizing && to == JobState::Failed)
    ||| (from == JobState::Failed && to == JobState::Queued)
}

pub fn can_transition(from: JobState, to: JobState) -> (r: bool)
    ensures
        r == transition_allowed(from, to),
{
    match (from, to) {
        (JobState::Queued, JobState::Resolving) | (JobState::Queued, JobState::Cancelled) | (
            JobState::Resolving,
            JobState::Downloading,
        ) | (JobState::Resolving, JobState::Failed) | (JobState::Downloading, JobState::Paused) | (
            JobState::Downloading,
            JobState::Finalizing,
        ) | (JobState::Downloading, JobState::Failed) | (
            JobState::Downloading,
            JobState::Cancelled,
        ) | (JobState::Paused, JobState::Queued) | (JobState::Paused, JobState::Cancelled) | (
            JobState::Finalizing,
            JobState::Ready,
        ) | (JobState::Finalizing, JobState::Failed) | (JobState::Failed, JobState::Queued) => true,
        _ => false,
    }
}

/// Ready and cancelled jobs are finished: no transition leaves them, and none
/// stays in place.
pub proof fn lemma_lifecycle_shape(from: JobState, to: JobState)
    ensures
        from == JobState::Ready ==> !transition_allowed(from, to),
        from == JobState::Cancelled ==> !transition_allowed(from, to),
        !transition_allowed(from, from),
        transition_allowed(from, JobState::Ready) ==> from == JobState::Finalizing,
        from == JobState::Failed && transition_allowed(from, to) ==> to == JobState::Queued,
{
}

/// Each state of the run moves to the next by an allowed transition.
pub open spec fn lifecycle_run(p: Seq<JobState>) -> bool
    decreases p.len(),
{
    p.len() <= 1 || (transition_allowed(p[0], p[1]) && lifecycle_run(p.drop_first()))
}

proof fn lemma_run_witness(p: Seq<JobState>)
    requires
        p.len() <= 6,
        forall|k: int| 0 <= k < p.len() - 1 ==> transition_allowed(#[trigger] p[k], p[k + 1]),
    ensures
        lifecycle_run(p),
    decreases p.len(),
{
    if p.len() > 1 {
        assert(transition_allowed(p[0], p[1]));
        let q = p.drop_first();
        assert forall|k: int| 0 <= k < q.len() - 1 implies transition_allowed(#[trigger] q[k], q[k + 1]) by {
            assert(q[k] == p[k + 1] && q[k + 1] == p[k + 2]);
            assert(transition_allowed(p[k + 1], p[k + 2]));
        }
        lemma_run_witness(q);
    }
}

/// No job is stranded short of cancellation: from every state but `Cancelled`,
/// a run of allowed transitions leads to `Ready`. In particular a paused job can
/// be resumed and a failed one retried.
pub proof fn lemma_unfinished_jobs_can_complete(s: JobState)
    requires
        s != JobState::Cancelled,
    ensures
        exists|p: Seq<JobState>| p.len() > 0 && p[0] == s && p.last() == JobState::Ready && lifecycle_run(p),
{
    let tail = seq![JobState::Queued, JobState::Resolving, JobState::Downloading, JobState::Finalizing, JobState::Ready];
    let p = match s {
        JobState::Queued => tail,
        JobState::Resolving => tail.drop_first(),
        JobState::Downloading => tail.skip(2),
        JobState::Finalizing => tail.skip(3),
        JobState::Ready => tail.skip(4),
        JobState::Paused => seq![JobState::Paused] + tail,
        JobState::Failed => seq![JobState::Failed] + tail,
        JobState::Cancelled => tail,
    };
    assert forall|k: int| 0 <= k < p.len() - 1 implies transition_allowed(#[trigger] p[k], p[k + 1]) by {
        if s == JobState::Paused || s == JobState::Failed {
            if k > 0 {
                assert(p[k] == tail[k - 1] && p[k + 1] == tail[k]);
            }
        }
    }
    lemma_run_witness(p);
    assert(p[0] == s);
    assert(p.last() == JobState::Ready);
}

/// Every job that is not finished can be called off, and a pause can be
/// undone: from any state but `Ready` and `Cancelled` a run of allowed
/// transitions leads to `Cancelled`; queued, downloading and paused jobs are
/// cancelled directly; and a downloading job can be paused and brought back to
/// downloading.
pub proof fn lemma_jobs_can_be_called_off(s: JobState)
    requires
        s != JobState::Ready,
        s != JobState::Cancelled,
    ensures
        exists|p: Seq<JobState>| p.len() > 0 && p[0] == s && p.last() == JobState::Cancelled && lifecycle_run(p),
        (s == JobState::Queued || s == JobState::Downloading || s == JobState::Paused) ==> transition_allowed(
            s,
            JobState::Cancelled,
        ),
        lifecycle_run(seq![JobState::Downloading, JobState::Paused, JobState::Queued, JobState::Resolving, JobState::Downloading]),
{
    let p = match s {
        JobState::Resolving => seq![JobState::Resolving, JobState::Failed, JobState::Queued, JobState::Cancelled],
        JobState::Finalizing => seq![JobState::Finalizing, JobState::Failed, JobState::Queued, JobState::Cancelled],
        JobState::Failed => seq![JobState::Failed, JobState::Queued, JobState::Cancelled],
        _ => seq![s, JobState::Cancelled],
    };
    lemma_run_witness(p);
    assert(p[0] == s);
    assert(p.last() == JobState::Cancelled);
    let back = seq![JobState::Downloading, JobState::Paused, JobState::Queued, JobState::Resolving, JobState::Downloading];
    lemma_run_witness(back);
}

/// The event fields a transition into `state` records: error code and message only
/// when failing (both or neither), and the event's warning or else the existing one.
pub open spec fn event_fields(
    state: JobState,
    existing_warning: Option<Seq<char>>,
    event: Option<JobEvent>,
) -> Result<(Option<Seq<char>>, Option<Seq<char>>, Option<Seq<char>>), Seq<char>> {
    let code: Result<Option<Seq<char>>, Seq<char>> = if state == JobState::Failed {
        match event {
            Some(e) => match e.error_code {
                Some(c) => match sanitized(c@, 64) {
                    Ok(t) => Ok(Some(t)),
                    Err(m) => Err(m),
                },
                None => Ok(None),
            },
            None => Ok(None),
        }
    } else {
        Ok(None)
    };
    let message: Result<Option<Seq<char>>, Seq<char>> = if state == JobState::Failed {
        match event {
            Some(e) => match e.error_message {
                Some(c) => match sanitized(c@, 512) {
                    Ok(t) => Ok(Some(t)),
                    Err(m) => Err(m),
                },
                None => Ok(None),
            },
            None => Ok(None),
        }
    } else {
        Ok(None)
    };
    let warning: Result<Option<Seq<char>>, Seq<char>> = match event {
        Some(e) => match e.warning {
            Some(w) => match sanitized(w@, 512) {
                Ok(t) => Ok(Some(t)),
                Err(m) => Err(m),
            },
            None => Ok(existing_warning),
        },
        None => Ok(existing_warning),
    };
    match code {
        Err(m) => Err(m),
        Ok(c) => match message {
            Err(m) => Err(m),
            Ok(msg) => if state == JobState::Failed && (c is Some != msg is Some) {
                Err("failed transitions require both error_code and error_message"@)
            } else {
                match warning {
                    Err(m) => Err(m),
                    Ok(w) => Ok((c, msg, w)),
                }
            },
        },
    }
}

fn sanitize_optional(value: &Option<String>, max_len: usize) -> (r: Result<
    Option<String>,
    JobRepositoryError,
>)
    ensures
        match *value {
            None => r matches Ok(x) && x is None,
            Some(v) => match sanitized(v@, max_len as nat) {
                Ok(t) => r matches Ok(x) && opt_text(x) == Some(t),
                Err(m) => as_data_error(r, m),
            },
        },
{
    match value {
        None => Ok(None),
        Some(v) => match sanitize_text(v.as_str(), max_len) {
            Ok(t) => Ok(Some(t)),
            Err(m) => Err(JobRepositoryError::InvalidData(m)),
        },
    }
}

/// The error code, message and warning to store with a move into `state`.
pub fn apply_event_fields(
    state: JobState,
    existing_warning: Option<&str>,
    event: Option<&JobEvent>,
) -> (r: Result<JobEventFields, JobRepositoryError>)
    ensures
        match event_fields(
            state,
            match existing_warning {
                Some(w) => Some(w@),
                None => None,
            },
            match event {
                Some(e) => Some(*e),
                None => None,
            },
        ) {
            Ok((c, m, w)) => r matches Ok(f) && opt_text(f.error_code) == c && opt_text(
                f.error_message,
            ) == m && opt_text(f.warning) == w,
            Err(m) => as_data_error(r, m),
        },
{
    let failed = state == JobState::Failed;
    let error_code = if failed {
        match event {
            Some(e) => sanitize_optional(&e.error_code, MAX_ERROR_CODE_LEN),
            None => Ok(None),
        }
    } else {
        Ok(None)
    };
    let error_code = match error_code {
        Ok(c) => c,
        Err(e) => return Err(e),
    };
    let error_message = if failed {
        match event {
            Some(e) => sanitize_optional(&e.error_message, MAX_ERROR_MESSAGE_LEN),
            None => Ok(None),
        }
    } else {
        Ok(None)
    };
    let error_message = match error_message {
        Ok(c) => c,
        Err(e) => return Err(e),
    };
    if failed && (error_code.is_some() != error_message.is_some()) {
        return Err(data_error("failed transitions require both error_code and error_message"));
    }
    let warning = match event {
        Some(e) => match &e.warning {
            Some(w) => match sanitize_text(w.as_str(), MAX_WARNING_LEN) {
                Ok(t) => Some(t),
                Err(m) => return Err(JobRepositoryError::InvalidData(m)),
            },
            None => match existing_warning {
                Some(w) => Some(owned(w)),
                None => None,
            },
        },
        None => match existing_warning {
            Some(w) => Some(owned(w)),
            None => None,
        },
    };
    Ok(JobEventFields { error_code, error_message, warning })
}

} // verus!

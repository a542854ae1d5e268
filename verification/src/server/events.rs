//! Job events as they are sent to browsers.

use vstd::prelude::*;

use crate::server::jobs::model::{hyphenated, DownloadJob, JobEventKind};
use crate::text::{contains, opt_text, starts_with};

verus! {

/// A job's state as published to subscribers.
#[derive(Debug, Clone, PartialEq, Eq)]
pub struct JobEvent {
    pub job_id: String,
    pub kind: String,
    pub state: String,
    pub downloaded_bytes: u64,
    pub total_bytes: Option<u64>,
    pub speed_bytes_per_second: Option<u64>,
    pub error_code: Option<String>,
    pub error_message: Option<String>,
    pub warning: Option<String>,
}

/// Text that looks like a URL or a path is not published.
pub open spec fn publishable(v: Seq<char>) -> bool {
    !(contains(v, "://"@) || contains(v, "../"@) || contains(v, seq!['.', '.', '\\']) || starts_with(
        v,
        seq!['/'],
    ) || contains(v, seq!['\\']))
}

pub open spec fn sanitized_field(v: Option<Seq<char>>) -> Option<Seq<char>> {
    match v {
        Some(t) => if publishable(t) {
            Some(t)
        } else {
            None
        },
        None => None,
    }
}

pub fn sanitize_field(value: Option<String>) -> (r: Option<String>)
    ensures
        opt_text(r) == sanitized_field(opt_text(value)),
{
    let value = match value {
        Some(v) => v,
        None => return None,
    };
    let v = crate::text::chars_of(value.as_str());
    let mut dots_back: Vec<char> = Vec::new();
    dots_back.push('.');
    dots_back.push('.');
    dots_back.push('\\');
    let mut back: Vec<char> = Vec::new();
    back.push('\\');
    let mut slash: Vec<char> = Vec::new();
    slash.push('/');
    assert(dots_back@ =~= seq!['.', '.', '\\']);
    assert(back@ =~= seq!['\\']);
    assert(slash@ =~= seq!['/']);
    if crate::text::contains_chars(v.as_slice(), crate::text::chars_of("://").as_slice())
        || crate::text::contains_chars(v.as_slice(), crate::text::chars_of("../").as_slice())
        || crate::text::contains_chars(v.as_slice(), dots_back.as_slice())
        || crate::text::starts_with_chars(v.as_slice(), slash.as_slice())
        || crate::text::contains_chars(v.as_slice(), back.as_slice()) {
        return None;
    }
    Some(value)
}

impl JobEvent {
    /// The event published for a job: its id, the kind of change, its state and
    /// progress, and its error and warning text unless they look like URLs or paths.
    pub fn from_job(job: &DownloadJob, kind: JobEventKind) -> (r: Self)
        ensures
            r.job_id@ == hyphenated(job.id.0),
            r.kind@ == crate::server::jobs::model::event_kind_name(kind),
            r.state@ == crate::server::jobs::model::state_name(job.state),
            r.downloaded_bytes == job.downloaded_bytes,
            r.total_bytes == job.total_bytes,
            r.speed_bytes_per_second == job.speed_bytes_per_second,
            opt_text(r.error_code) == sanitized_field(opt_text(job.error_code)),
            opt_text(r.error_message) == sanitized_field(opt_text(job.error_message)),
            opt_text(r.warning) == sanitized_field(opt_text(job.warning)),
    {
        JobEvent {
            job_id: job.id.to_text(),
            kind: crate::text::owned(kind.as_str()),
            state: crate::text::owned(job.state.as_str()),
            downloaded_bytes: job.downloaded_bytes,
            total_bytes: job.total_bytes,
            speed_bytes_per_second: job.speed_bytes_per_second,
            error_code: sanitize_field(crate::catalog::models::duplicate_text(&job.error_code)),
            error_message: sanitize_field(crate::catalog::models::duplicate_text(&job.error_message)),
            warning: sanitize_field(crate::catalog::models::duplicate_text(&job.warning)),
        }
    }
}

} // verus!

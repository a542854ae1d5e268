//! What becomes of jobs that were running when the server stopped.

use vstd::prelude::*;

use crate::server::jobs::model::{DownloadJob, JobState};
use crate::server::jobs::worker::{
    clear_job_errors, cleared_patch, failure_patch, failure_patch_view, JobStatePatch, PatchView,
    UNSAFE_PATH_CODE, UNSAFE_PATH_MESSAGE,
};

verus! {

/// What recovery does with one stored job.
#[derive(Debug, Clone, PartialEq, Eq)]
pub enum RecoveryAction {
    /// The job was not running: it is left alone.
    Keep,
    /// Forced to `Failed` with this patch.
    Fail(JobStatePatch),
    /// Forced to `Ready` with an empty patch.
    MarkReady,
    /// Forced back to `Queued` with this patch.
    Requeue(JobStatePatch),
}

/// A finished file is complete when it has the expected size, or any bytes when
/// the size was never known.
pub open spec fn complete_file(total_bytes: Option<u64>, size: Option<u64>) -> bool {
    match size {
        None => false,
        Some(len) => match total_bytes {
            Some(expected) => len == expected,
            None => len > 0,
        },
    }
}

pub fn final_video_is_complete(total_bytes: Option<u64>, size: Option<u64>) -> (r: bool)
    ensures
        r == complete_file(total_bytes, size),
{
    match size {
        None => false,
        Some(len) => match total_bytes {
            Some(expected) => len == expected,
            None => len > 0,
        },
    }
}

pub open spec fn interrupted(state: JobState) -> bool {
    state == JobState::Resolving || state == JobState::Downloading || state == JobState::Finalizing
}

/// Recovery of one job: only interrupted jobs are touched; unsafe paths fail it;
/// a finalising job whose file is complete becomes ready; any other is queued
/// again with its error and speed cleared. `final_video_size` is the size of the
/// finished file, when it exists under the root.
pub fn recovery_action(job: &DownloadJob, paths_safe: bool, final_video_size: Option<u64>) -> (r: RecoveryAction)
    ensures
        !interrupted(job.state) ==> r is Keep,
        interrupted(job.state) && !paths_safe ==> (r matches RecoveryAction::Fail(p) && p@ == failure_patch_view(
            UNSAFE_PATH_CODE@,
            UNSAFE_PATH_MESSAGE@,
        )),
        interrupted(job.state) && paths_safe && job.state == JobState::Finalizing && complete_file(
            job.total_bytes,
            final_video_size,
        ) ==> r is MarkReady,
        interrupted(job.state) && paths_safe && !(job.state == JobState::Finalizing && complete_file(
            job.total_bytes,
            final_video_size,
        )) ==> (r matches RecoveryAction::Requeue(p) && p@ == cleared_patch()),
{
    let running = match job.state {
        JobState::Resolving | JobState::Downloading | JobState::Finalizing => true,
        _ => false,
    };
    if !running {
        return RecoveryAction::Keep;
    }
    if !paths_safe {
        return RecoveryAction::Fail(failure_patch(UNSAFE_PATH_CODE, UNSAFE_PATH_MESSAGE));
    }
    let finalizing = match job.state {
        JobState::Finalizing => true,
        _ => false,
    };
    if finalizing && final_video_is_complete(job.total_bytes, final_video_size) {
        return RecoveryAction::MarkReady;
    }
    RecoveryAction::Requeue(clear_job_errors())
}

} // verus!

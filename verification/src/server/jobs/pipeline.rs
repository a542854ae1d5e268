//! The course of a claimed job, as the worker runs it.
//!
//! The worker checks a claimed job's paths, resolves its source, refuses a
//! download whose target already exists or that does not fit on disk, then
//! transfers it (resolving the source once more when the first attempt finds
//! it expired), moves the finished files into place and marks it ready. The
//! work itself (the catalogue, the disk, the transfer, the store) is the
//! caller's; each step here takes what the last piece of work gave and says
//! what to do next.

use vstd::prelude::*;

use crate::catalog::CatalogError;
use crate::server::jobs::worker::{
    after_transfer, has_room, next_after, TransferNext,
    TransferReport, DOWNLOAD_FAILED_CODE, DOWNLOAD_FAILED_MESSAGE, DUPLICATE_TARGET_CODE,
    DUPLICATE_TARGET_MESSAGE, UNSAFE_PATH_CODE, UNSAFE_PATH_MESSAGE,
};

verus! {

/// Downloads above this height are never run.
pub const WORKER_MAXIMUM_HEIGHT: u16 = 1080;

/// Where a claimed job stands.
#[derive(Debug, Clone, Copy, PartialEq, Eq, Structural)]
pub enum ClaimPhase {
    Claimed,
    Resolving,
    CheckingTarget,
    CheckingSpace,
    Transferring,
    Refreshing,
    FinalizingVideo,
    FinalizingSubtitle,
    Finished,
}

/// A claimed job's progress through the worker.
#[derive(Debug, Clone, Copy, PartialEq, Eq, Structural)]
pub struct ClaimState {
    pub phase: ClaimPhase,
    /// Transfer attempts started so far.
    pub attempts: u8,
    pub requested_height: u16,
    /// The size the resolved source announced.
    pub expected_size: Option<u64>,
    /// Free space that must remain after the download.
    pub reserve: u64,
}

/// What the last piece of work gave.
#[derive(Debug, PartialEq, Eq)]
pub enum ClaimEvent {
    /// The job was claimed; whether its stored paths stay under the media root.
    Claimed { paths_safe: bool, requested_height: u16 },
    /// The source resolved, with the size it announced, or the catalogue's refusal.
    Resolved(Result<Option<u64>, CatalogError>),
    TargetChecked { exists: bool },
    SpaceChecked { available: u64 },
    TransferEnded(TransferReport),
    /// The source was resolved again after it expired.
    Refreshed(Result<Option<u64>, CatalogError>),
    VideoFinalized,
    /// The subtitle was handled; whether it left a warning.
    SubtitleFinalized { warning: bool },
}

/// What the worker does next.
#[derive(Debug, Clone, Copy, PartialEq, Eq)]
pub enum ClaimAction {
    Resolve,
    CheckTarget,
    CheckSpace,
    /// Fail the job with this code and message and publish it.
    Fail { code: &'static str, message: &'static str },
    /// Send the job back to the queue for want of space.
    Requeue,
    /// Move the job to `Downloading`, publish it, and start the first transfer.
    StartDownload,
    /// Resolve the source again after it expired.
    Refresh,
    /// Start another transfer with the refreshed source.
    Retransfer,
    Pause,
    Cancel,
    /// Store the finalising patch and move the video into place.
    FinalizeVideo,
    FinalizeSubtitle,
    /// Mark the job ready, storing the subtitle warning first when there is one.
    Ready { warning: bool },
    /// Stop without touching the job: its data is invalid or the event was not expected.
    Abort,
}

/// The state a job starts in once claimed.
pub open spec fn claimed_state(reserve: u64) -> ClaimState {
    ClaimState { phase: ClaimPhase::Claimed, attempts: 0, requested_height: 0, expected_size: None, reserve }
}

pub fn initial_claim_state(reserve: u64) -> (r: ClaimState)
    ensures
        r == claimed_state(reserve),
{
    ClaimState { phase: ClaimPhase::Claimed, attempts: 0, requested_height: 0, expected_size: None, reserve }
}

pub open spec fn finished(st: ClaimState) -> ClaimState {
    ClaimState { phase: ClaimPhase::Finished, ..st }
}

/// One step of a claimed job.
pub open spec fn claim_next(st: ClaimState, ev: ClaimEvent) -> (ClaimState, ClaimAction) {
    match (st.phase, ev) {
        (ClaimPhase::Claimed, ClaimEvent::Claimed { paths_safe, requested_height }) => if !paths_safe {
            (finished(st), ClaimAction::Fail { code: UNSAFE_PATH_CODE, message: UNSAFE_PATH_MESSAGE })
        } else {
            (ClaimState { phase: ClaimPhase::Resolving, requested_height, ..st }, ClaimAction::Resolve)
        },
        (ClaimPhase::Resolving, ClaimEvent::Resolved(outcome)) => match outcome {
            Err(e) => (finished(st), ClaimAction::Fail { code: failure_code(e), message: failure_message(e) }),
            Ok(size) => if st.requested_height > WORKER_MAXIMUM_HEIGHT {
                (finished(st), ClaimAction::Abort)
            } else {
                (
                    ClaimState { phase: ClaimPhase::CheckingTarget, expected_size: size, ..st },
                    ClaimAction::CheckTarget,
                )
            },
        },
        (ClaimPhase::CheckingTarget, ClaimEvent::TargetChecked { exists }) => if exists {
            (
                finished(st),
                ClaimAction::Fail { code: DUPLICATE_TARGET_CODE, message: DUPLICATE_TARGET_MESSAGE },
            )
        } else {
            (ClaimState { phase: ClaimPhase::CheckingSpace, ..st }, ClaimAction::CheckSpace)
        },
        (ClaimPhase::CheckingSpace, ClaimEvent::SpaceChecked { available }) => if room_for(
            available,
            st.reserve,
            st.expected_size,
        ) {
            (ClaimState { phase: ClaimPhase::Transferring, attempts: 1, ..st }, ClaimAction::StartDownload)
        } else {
            (finished(st), ClaimAction::Requeue)
        },
        (ClaimPhase::Transferring, ClaimEvent::TransferEnded(report)) => match next_after(report, st.attempts) {
            TransferNext::Finalize => (
                ClaimState { phase: ClaimPhase::FinalizingVideo, ..st },
                ClaimAction::FinalizeVideo,
            ),
            TransferNext::Pause => (finished(st), ClaimAction::Pause),
            TransferNext::Cancel => (finished(st), ClaimAction::Cancel),
            TransferNext::Refresh => (ClaimState { phase: ClaimPhase::Refreshing, ..st }, ClaimAction::Refresh),
            TransferNext::Fail => (
                finished(st),
                ClaimAction::Fail { code: DOWNLOAD_FAILED_CODE, message: DOWNLOAD_FAILED_MESSAGE },
            ),
        },
        (ClaimPhase::Refreshing, ClaimEvent::Refreshed(outcome)) => match outcome {
            Ok(size) => if st.attempts < 255 {
                (
                    ClaimState {
                        phase: ClaimPhase::Transferring,
                        attempts: (st.attempts + 1) as u8,
                        expected_size: size,
                        ..st
                    },
                    ClaimAction::Retransfer,
                )
            } else {
                (finished(st), ClaimAction::Abort)
            },
            Err(_) => (
                finished(st),
                ClaimAction::Fail { code: DOWNLOAD_FAILED_CODE, message: DOWNLOAD_FAILED_MESSAGE },
            ),
        },
        (ClaimPhase::FinalizingVideo, ClaimEvent::VideoFinalized) => (
            ClaimState { phase: ClaimPhase::FinalizingSubtitle, ..st },
            ClaimAction::FinalizeSubtitle,
        ),
        (ClaimPhase::FinalizingSubtitle, ClaimEvent::SubtitleFinalized { warning }) => (
            finished(st),
            ClaimAction::Ready { warning },
        ),
        _ => (finished(st), ClaimAction::Abort),
    }
}

/// The space check of the worker: free space above the reserve plus the
/// expected size, the sum saturating.
pub open spec fn room_for(available: u64, reserve: u64, expected: Option<u64>) -> bool {
    let need = reserve as int + match expected {
        Some(s) => s as int,
        None => 0int,
    };
    available as int > (if need > u64::MAX { u64::MAX as int } else { need })
}

pub open spec fn failure_code(e: CatalogError) -> &'static str {
    match e {
        CatalogError::QualityUnavailable { .. } => "quality_unavailable",
        _ => "source_resolve_failed",
    }
}

pub open spec fn failure_message(e: CatalogError) -> &'static str {
    match e {
        CatalogError::QualityUnavailable { .. } => "no source is available at or below 1080p",
        _ => "source resolution failed",
    }
}

/// Takes one step.
pub fn claim_step(st: ClaimState, ev: ClaimEvent) -> (r: (ClaimState, ClaimAction))
    ensures
        r == claim_next(st, ev),
{
    let done = ClaimState { phase: ClaimPhase::Finished, ..st };
    match (st.phase, ev) {
        (ClaimPhase::Claimed, ClaimEvent::Claimed { paths_safe, requested_height }) => {
            if !paths_safe {
                (done, ClaimAction::Fail { code: UNSAFE_PATH_CODE, message: UNSAFE_PATH_MESSAGE })
            } else {
                (ClaimState { phase: ClaimPhase::Resolving, requested_height, ..st }, ClaimAction::Resolve)
            }
        },
        (ClaimPhase::Resolving, ClaimEvent::Resolved(outcome)) => match outcome {
            Err(e) => (done, ClaimAction::Fail { code: failure_code_of(&e), message: failure_message_of(&e) }),
            Ok(size) => {
                if st.requested_height > WORKER_MAXIMUM_HEIGHT {
                    (done, ClaimAction::Abort)
                } else {
                    (
                        ClaimState { phase: ClaimPhase::CheckingTarget, expected_size: size, ..st },
                        ClaimAction::CheckTarget,
                    )
                }
            },
        },
        (ClaimPhase::CheckingTarget, ClaimEvent::TargetChecked { exists }) => {
            if exists {
                (done, ClaimAction::Fail { code: DUPLICATE_TARGET_CODE, message: DUPLICATE_TARGET_MESSAGE })
            } else {
                (ClaimState { phase: ClaimPhase::CheckingSpace, ..st }, ClaimAction::CheckSpace)
            }
        },
        (ClaimPhase::CheckingSpace, ClaimEvent::SpaceChecked { available }) => {
            if has_room(available, st.reserve, st.expected_size) {
                (ClaimState { phase: ClaimPhase::Transferring, attempts: 1, ..st }, ClaimAction::StartDownload)
            } else {
                (done, ClaimAction::Requeue)
            }
        },
        (ClaimPhase::Transferring, ClaimEvent::TransferEnded(report)) => match after_transfer(&report, st.attempts) {
            TransferNext::Finalize => (
                ClaimState { phase: ClaimPhase::FinalizingVideo, ..st },
                ClaimAction::FinalizeVideo,
            ),
            TransferNext::Pause => (done, ClaimAction::Pause),
            TransferNext::Cancel => (done, ClaimAction::Cancel),
            TransferNext::Refresh => (ClaimState { phase: ClaimPhase::Refreshing, ..st }, ClaimAction::Refresh),
            TransferNext::Fail => (
                done,
                ClaimAction::Fail { code: DOWNLOAD_FAILED_CODE, message: DOWNLOAD_FAILED_MESSAGE },
            ),
        },
        (ClaimPhase::Refreshing, ClaimEvent::Refreshed(outcome)) => match outcome {
            Ok(size) => {
                if st.attempts < 255 {
                    (
                        ClaimState {
                            phase: ClaimPhase::Transferring,
                            attempts: st.attempts + 1,
                            expected_size: size,
                            ..st
                        },
                        ClaimAction::Retransfer,
                    )
                } else {
                    (done, ClaimAction::Abort)
                }
            },
            Err(_) => (done, ClaimAction::Fail { code: DOWNLOAD_FAILED_CODE, message: DOWNLOAD_FAILED_MESSAGE }),
        },
        (ClaimPhase::FinalizingVideo, ClaimEvent::VideoFinalized) => (
            ClaimState { phase: ClaimPhase::FinalizingSubtitle, ..st },
            ClaimAction::FinalizeSubtitle,
        ),
        (ClaimPhase::FinalizingSubtitle, ClaimEvent::SubtitleFinalized { warning }) => (done, ClaimAction::Ready { warning }),
        _ => (done, ClaimAction::Abort),
    }
}

fn failure_code_of(e: &CatalogError) -> (r: &'static str)
    ensures
        r == failure_code(*e),
{
    match e {
        CatalogError::QualityUnavailable { .. } => "quality_unavailable",
        _ => "source_resolve_failed",
    }
}

fn failure_message_of(e: &CatalogError) -> (r: &'static str)
    ensures
        r == failure_message(*e),
{
    match e {
        CatalogError::QualityUnavailable { .. } => "no source is available at or below 1080p",
        _ => "source resolution failed",
    }
}

/// The actions a run of events leads to, one per event.
pub open spec fn claim_actions(st: ClaimState, events: Seq<ClaimEvent>) -> Seq<ClaimAction>
    decreases events.len(),
{
    if events.len() == 0 {
        seq![]
    } else {
        let (next, action) = claim_next(st, events[0]);
        seq![action] + claim_actions(next, events.drop_first())
    }
}

proof fn lemma_actions_len(st: ClaimState, events: Seq<ClaimEvent>)
    ensures
        claim_actions(st, events).len() == events.len(),
    decreases events.len(),
{
    if events.len() > 0 {
        lemma_actions_len(claim_next(st, events[0]).0, events.drop_first());
    }
}

pub open spec fn past_checks(p: ClaimPhase) -> bool {
    !(p == ClaimPhase::Claimed || p == ClaimPhase::Resolving || p == ClaimPhase::CheckingTarget
        || p == ClaimPhase::CheckingSpace)
}

proof fn lemma_no_start_after_checks(st: ClaimState, events: Seq<ClaimEvent>)
    requires
        past_checks(st.phase),
    ensures
        claim_actions(st, events).len() == events.len(),
        forall|k: int| 0 <= k < events.len() ==> !(#[trigger] claim_actions(st, events)[k] is StartDownload),
    decreases events.len(),
{
    if events.len() > 0 {
        let (next, action) = claim_next(st, events[0]);
        assert(past_checks(next.phase));
        lemma_no_start_after_checks(next, events.drop_first());
        let acts = claim_actions(st, events);
        assert forall|k: int| 0 <= k < events.len() implies !(#[trigger] acts[k] is StartDownload) by {
            if k > 0 {
                assert(acts[k] == claim_actions(next, events.drop_first())[k - 1]);
            }
        }
    }
}

/// A download is started only as the fourth step of a claimed job, after its
/// paths were found safe, its source resolved within 1080p, its target found
/// free and the disk found to have room for it beyond the reserve.
pub proof fn lemma_downloads_start_only_after_every_check(reserve: u64, events: Seq<ClaimEvent>, k: int)
    requires
        0 <= k < events.len(),
        claim_actions(claimed_state(reserve), events)[k] is StartDownload,
    ensures
        k == 3,
        events[0] matches ClaimEvent::Claimed { paths_safe, requested_height } && paths_safe && requested_height
            <= WORKER_MAXIMUM_HEIGHT,
        events[1] matches ClaimEvent::Resolved(Ok(_)),
        events[2] == (ClaimEvent::TargetChecked { exists: false }),
        events[3] matches ClaimEvent::SpaceChecked { available } && room_for(
            available,
            reserve,
            events[1]->Resolved_0->Ok_0,
        ),
{
    let s0 = claimed_state(reserve);
    let e1 = events.drop_first();
    let (s1, a0) = claim_next(s0, events[0]);
    lemma_actions_len(s1, e1);
    assert(claim_actions(s0, events)[0] == a0);
    if k == 0 || past_checks(s1.phase) {
        if k > 0 {
            lemma_no_start_after_checks(s1, e1);
            assert(claim_actions(s0, events)[k] == claim_actions(s1, e1)[k - 1]);
        }
        return;
    }
    assert(e1.len() > 0);
    let e2 = e1.drop_first();
    let (s2, a1) = claim_next(s1, e1[0]);
    lemma_actions_len(s2, e2);
    assert(claim_actions(s0, events)[k] == claim_actions(s1, e1)[k - 1]);
    if k == 1 || past_checks(s2.phase) {
        if k > 1 {
            lemma_no_start_after_checks(s2, e2);
            assert(claim_actions(s1, e1)[k - 1] == claim_actions(s2, e2)[k - 2]);
        }
        return;
    }
    let e3 = e2.drop_first();
    let (s3, a2) = claim_next(s2, e2[0]);
    lemma_actions_len(s3, e3);
    assert(claim_actions(s1, e1)[k - 1] == claim_actions(s2, e2)[k - 2]);
    if k == 2 || past_checks(s3.phase) {
        if k > 2 {
            lemma_no_start_after_checks(s3, e3);
            assert(claim_actions(s2, e2)[k - 2] == claim_actions(s3, e3)[k - 3]);
        }
        return;
    }
    let e4 = e3.drop_first();
    let (s4, a3) = claim_next(s3, e3[0]);
    lemma_actions_len(s4, e4);
    assert(claim_actions(s2, e2)[k - 2] == claim_actions(s3, e3)[k - 3]);
    assert(past_checks(s4.phase));
    if k > 3 {
        lemma_no_start_after_checks(s4, e4);
        assert(claim_actions(s3, e3)[k - 3] == claim_actions(s4, e4)[k - 4]);
    }
}

} // verus!

//! Aligning a subtitle to the audio it belongs to.
//!
//! A subtitle and a video routinely come from different releases of the same
//! film, so the text is right and the timings are not. `ffsubsync` listens to
//! the audio and shifts the subtitle to match. It writes to a sibling file
//! first, and only a non-empty result replaces the original; any failure keeps
//! the subtitle as it was. Running the program is the caller's part.

use vstd::prelude::*;

use crate::text::owned;

verus! {

/// How long `ffsubsync` may run, in seconds: long enough for a feature film.
pub const SYNC_TIMEOUT_SECONDS: u64 = 300;

/// Realigns a subtitle file against its video, in place; returns whether the
/// subtitle was changed. A failure is not an error: the original stays.
pub trait SubtitleSyncer {
    fn sync(&self, video: &str, subtitle: &str) -> bool;
}

/// Used when automatic alignment is turned off or unavailable.
#[derive(Debug, Clone, Copy, Default)]
pub struct NoopSubtitleSyncer;

impl SubtitleSyncer for NoopSubtitleSyncer {
    /// Never changes anything.
    fn sync(&self, video: &str, subtitle: &str) -> (changed: bool)
        ensures
            !changed,
    {
        false
    }
}

/// Aligns subtitles by running `ffsubsync`.
#[derive(Debug, Clone)]
pub struct FfsubsyncSyncer {
    pub program: String,
}

impl Default for FfsubsyncSyncer {
    fn default() -> (r: Self)
        ensures
            r.program@ == "ffsubsync"@,
    {
        FfsubsyncSyncer { program: owned("ffsubsync") }
    }
}

impl FfsubsyncSyncer {
    /// Use a specific executable rather than the one on `PATH`.
    pub fn with_program(program: String) -> (r: Self)
        ensures
            r.program == program,
    {
        FfsubsyncSyncer { program }
    }

    /// The program and its arguments: the video, then the subtitle as input and
    /// its sibling as output.
    pub fn command(&self, video: &str, subtitle: &str) -> (r: (String, Vec<String>))
        ensures
            r.0 == self.program,
            r.1@.len() == 5,
            r.1@[0]@ == video@,
            r.1@[1]@ == "-i"@,
            r.1@[2]@ == subtitle@,
            r.1@[3]@ == "-o"@,
            r.1@[4]@ == aligned_path_of(subtitle@),
    {
        let mut args: Vec<String> = Vec::new();
        args.push(owned(video));
        args.push(owned("-i"));
        args.push(owned(subtitle));
        args.push(owned("-o"));
        args.push(aligned_path(subtitle));
        (self.program.clone(), args)
    }
}

/// The sibling that `ffsubsync` writes before it replaces the subtitle.
pub open spec fn aligned_path_of(subtitle: Seq<char>) -> Seq<char> {
    subtitle + ".synced"@
}

pub fn aligned_path(subtitle: &str) -> (r: String)
    ensures
        r@ == aligned_path_of(subtitle@),
{
    crate::text::joined(subtitle, ".synced")
}

/// Whether the aligned file replaces the subtitle: the run finished
/// successfully within the time allowed and wrote something. Otherwise the
/// sibling is removed and the original kept.
pub fn keep_aligned(finished: bool, aligned_size: Option<u64>) -> (r: bool)
    ensures
        r == (finished && (aligned_size matches Some(n) && n > 0)),
{
    finished && match aligned_size {
        Some(n) => n > 0,
        None => false,
    }
}

} // verus!

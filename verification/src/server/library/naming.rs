//! Where a finished download lives in the media library.
//!
//! Movies go to `Movies/<Title (Year)>/<Title (Year)>.<ext>`, episodes to
//! `Shows/<Series (Year)>/Season NN/<Series (Year)> SxxEyy <Episode>.<ext>`, and
//! files in progress to `_moviebox/jobs/<job>/<stem>…part`. `plan_paths` lays the
//! paths out; `paths_for` checks them against the media root with what the
//! filesystem said of each (where it resolves, whether it exists), as
//! `TargetFacts`, and refuses a video or subtitle target that already exists.

use vstd::prelude::*;

use crate::catalog::{CatalogDetails, EpisodeInfo, MediaType, SeasonInfo};
use crate::catalog::models::duplicate_text;
use crate::server::library::components::{
    display_title, display_title_of, episode_stem, episode_stem_of, filename_stem_byte_limit,
    normalize_extension, normalized_extension, sanitize_language, sanitized_language,
    stem_byte_limit, MAX_COMPONENT_BYTES,
};
use crate::server::security::path::{
    components_of, contained_path, containment, path_components, path_join, push_component,
    PathRefusal, PathSecurityError,
};
use crate::server::jobs::model::{hyphenated, JobId};
use crate::text::{byte_len, byte_len_of, chars_of, concat_chars, opt_text, string_of};

verus! {

#[derive(Debug, Clone, PartialEq, Eq)]
pub enum MediaIdentity {
    Movie { title: String, year: Option<String> },
    Episode {
        series_title: String,
        year: Option<String>,
        season: u16,
        episode: u16,
        episode_title: Option<String>,
    },
}

/// Library paths relative to the media root.
#[derive(Debug, Clone, PartialEq, Eq)]
pub struct MediaPaths {
    pub video_relative: String,
    pub subtitle_relative: Option<String>,
    pub partial_video_relative: String,
    pub partial_subtitle_relative: Option<String>,
}

pub struct MediaPathsView {
    pub video_relative: Seq<char>,
    pub subtitle_relative: Option<Seq<char>>,
    pub partial_video_relative: Seq<char>,
    pub partial_subtitle_relative: Option<Seq<char>>,
}

impl View for MediaPaths {
    type V = MediaPathsView;

    open spec fn view(&self) -> MediaPathsView {
        MediaPathsView {
            video_relative: self.video_relative@,
            subtitle_relative: opt_text(self.subtitle_relative),
            partial_video_relative: self.partial_video_relative@,
            partial_subtitle_relative: opt_text(self.partial_subtitle_relative),
        }
    }
}

#[derive(Debug, Clone, PartialEq, Eq)]
pub enum LibraryError {
    MissingEpisodeSelection,
    UnexpectedEpisodeSelection,
    EpisodeNotFound { season: u16, episode: u16 },
    UnsupportedVideoExtension(String),
    UnsupportedSubtitleExtension(String),
    AlreadyExists { relative_path: String },
    ComponentTooLong { relative_path: String },
    Path(PathSecurityError),
}

/// A library error with its text as character sequences.
pub enum LibraryFault {
    MissingEpisodeSelection,
    UnexpectedEpisodeSelection,
    EpisodeNotFound { season: u16, episode: u16 },
    UnsupportedVideoExtension(Seq<char>),
    UnsupportedSubtitleExtension(Seq<char>),
    AlreadyExists(Seq<char>),
    ComponentTooLong(Seq<char>),
    Path(PathRefusal),
}

impl View for LibraryError {
    type V = LibraryFault;

    open spec fn view(&self) -> LibraryFault {
        match self {
            LibraryError::MissingEpisodeSelection => LibraryFault::MissingEpisodeSelection,
            LibraryError::UnexpectedEpisodeSelection => LibraryFault::UnexpectedEpisodeSelection,
            LibraryError::EpisodeNotFound { season, episode } => LibraryFault::EpisodeNotFound {
                season: *season,
                episode: *episode,
            },
            LibraryError::UnsupportedVideoExtension(s) => LibraryFault::UnsupportedVideoExtension(
                s@,
            ),
            LibraryError::UnsupportedSubtitleExtension(s) =>
                LibraryFault::UnsupportedSubtitleExtension(s@),
            LibraryError::AlreadyExists { relative_path } => LibraryFault::AlreadyExists(
                relative_path@,
            ),
            LibraryError::ComponentTooLong { relative_path } => LibraryFault::ComponentTooLong(
                relative_path@,
            ),
            LibraryError::Path(e) => LibraryFault::Path(e@),
        }
    }
}

/// `Iterator::find` on season numbers.
pub open spec fn find_season(seasons: Seq<SeasonInfo>, number: u16) -> Option<SeasonInfo>
    decreases seasons.len(),
{
    if seasons.len() == 0 {
        None
    } else if seasons[0].number == number {
        Some(seasons[0])
    } else {
        find_season(seasons.drop_first(), number)
    }
}

/// `Iterator::find` on episode numbers.
pub open spec fn find_episode(episodes: Seq<EpisodeInfo>, number: u16) -> Option<EpisodeInfo>
    decreases episodes.len(),
{
    if episodes.len() == 0 {
        None
    } else if episodes[0].number == number {
        Some(episodes[0])
    } else {
        find_episode(episodes.drop_first(), number)
    }
}

/// What a catalogue entry and an episode selection identify: a movie takes no
/// selection; a series needs both numbers, and the episode must be listed under
/// the first season with that number.
pub open spec fn identity_of(details: CatalogDetails, season: Option<u16>, episode: Option<u16>) -> Result<MediaIdentity, LibraryError> {
    match details.media_type {
        MediaType::Movie => if season is Some || episode is Some {
            Err(LibraryError::UnexpectedEpisodeSelection)
        } else {
            Ok(MediaIdentity::Movie { title: details.title, year: details.year })
        },
        MediaType::Series => match (season, episode) {
            (Some(s), Some(e)) => match find_season(details.seasons@, s) {
                Some(info) => match find_episode(info.episodes@, e) {
                    Some(item) => Ok(
                        MediaIdentity::Episode {
                            series_title: details.title,
                            year: details.year,
                            season: s,
                            episode: e,
                            episode_title: item.title,
                        },
                    ),
                    None => Err(LibraryError::EpisodeNotFound { season: s, episode: e }),
                },
                None => Err(LibraryError::EpisodeNotFound { season: s, episode: e }),
            },
            _ => Err(LibraryError::MissingEpisodeSelection),
        },
    }
}

fn season_index(seasons: &Vec<SeasonInfo>, number: u16) -> (r: Option<usize>)
    ensures
        match (r, find_season(seasons@, number)) {
            (Some(i), Some(s)) => i < seasons@.len() && seasons@[i as int] == s,
            (None, None) => true,
            _ => false,
        },
{
    let mut i: usize = 0;
    assert(seasons@.subrange(0, seasons@.len() as int) =~= seasons@);
    while i < seasons.len()
        invariant
            i <= seasons@.len(),
            find_season(seasons@, number) == find_season(
                seasons@.subrange(i as int, seasons@.len() as int),
                number,
            ),
        decreases seasons@.len() - i,
    {
        let ghost rest = seasons@.subrange(i as int, seasons@.len() as int);
        assert(rest[0] == seasons@[i as int]);
        if seasons[i].number == number {
            return Some(i);
        }
        assert(rest.drop_first() =~= seasons@.subrange(i + 1, seasons@.len() as int));
        i = i + 1;
    }
    None
}

fn episode_index(episodes: &Vec<EpisodeInfo>, number: u16) -> (r: Option<usize>)
    ensures
        match (r, find_episode(episodes@, number)) {
            (Some(i), Some(e)) => i < episodes@.len() && episodes@[i as int] == e,
            (None, None) => true,
            _ => false,
        },
{
    let mut i: usize = 0;
    assert(episodes@.subrange(0, episodes@.len() as int) =~= episodes@);
    while i < episodes.len()
        invariant
            i <= episodes@.len(),
            find_episode(episodes@, number) == find_episode(
                episodes@.subrange(i as int, episodes@.len() as int),
                number,
            ),
        decreases episodes@.len() - i,
    {
        let ghost rest = episodes@.subrange(i as int, episodes@.len() as int);
        assert(rest[0] == episodes@[i as int]);
        if episodes[i].number == number {
            return Some(i);
        }
        assert(rest.drop_first() =~= episodes@.subrange(i + 1, episodes@.len() as int));
        i = i + 1;
    }
    None
}

impl MediaIdentity {
    /// The movie or episode a download request names.
    pub fn from_details(details: &CatalogDetails, season: Option<u16>, episode: Option<u16>) -> (r: Result<Self, LibraryError>)
        ensures
            r == identity_of(*details, season, episode),
    {
        match details.media_type {
            MediaType::Movie => {
                if season.is_some() || episode.is_some() {
                    return Err(LibraryError::UnexpectedEpisodeSelection);
                }
                Ok(MediaIdentity::Movie { title: details.title.clone(), year: duplicate_text(&details.year) })
            },
            MediaType::Series => {
                let (s, e) = match (season, episode) {
                    (Some(s), Some(e)) => (s, e),
                    _ => return Err(LibraryError::MissingEpisodeSelection),
                };
                let si = match season_index(&details.seasons, s) {
                    Some(i) => i,
                    None => return Err(LibraryError::EpisodeNotFound { season: s, episode: e }),
                };
                let info = &details.seasons[si];
                let ei = match episode_index(&info.episodes, e) {
                    Some(i) => i,
                    None => return Err(LibraryError::EpisodeNotFound { season: s, episode: e }),
                };
                let item = &info.episodes[ei];
                Ok(
                    MediaIdentity::Episode {
                        series_title: details.title.clone(),
                        year: duplicate_text(&details.year),
                        season: s,
                        episode: e,
                        episode_title: duplicate_text(&item.title),
                    },
                )
            },
        }
    }
}

pub open spec fn video_extension_supported(e: Seq<char>) -> bool {
    e == "mp4"@ || e == "mkv"@ || e == "webm"@ || e == "avi"@ || e == "mov"@ || e == "m4v"@
}

pub open spec fn subtitle_extension_supported(e: Seq<char>) -> bool {
    e == "srt"@ || e == "vtt"@ || e == "ass"@ || e == "ssa"@ || e == "sub"@
}

/// The normalised video extension, or the refusal naming it.
pub open spec fn video_extension_of(value: Seq<char>) -> Result<Seq<char>, LibraryFault> {
    let n = normalized_extension(value);
    if video_extension_supported(n) {
        Ok(n)
    } else {
        Err(LibraryFault::UnsupportedVideoExtension(n))
    }
}

/// The normalised subtitle extension, or the refusal naming it.
pub open spec fn subtitle_extension_of(value: Seq<char>) -> Result<Seq<char>, LibraryFault> {
    let n = normalized_extension(value);
    if subtitle_extension_supported(n) {
        Ok(n)
    } else {
        Err(LibraryFault::UnsupportedSubtitleExtension(n))
    }
}

fn one_of(v: &[char], names: &[&str]) -> (b: bool)
    ensures
        b == exists|i: int| 0 <= i < names@.len() && v@ == (#[trigger] names@[i])@,
{
    let mut i: usize = 0;
    while i < names.len()
        invariant
            i <= names@.len(),
            forall|j: int| 0 <= j < i ==> v@ != (#[trigger] names@[j])@,
        decreases names@.len() - i,
    {
        let name = chars_of(names[i]);
        if crate::text::chars_eq(v, name.as_slice()) {
            return true;
        }
        i = i + 1;
    }
    false
}

pub fn normalize_video_extension(value: &[char]) -> (r: Result<Vec<char>, LibraryError>)
    ensures
        match (r, video_extension_of(value@)) {
            (Ok(a), Ok(b)) => a@ == b,
            (Err(e), Err(f)) => e@ == f,
            _ => false,
        },
{
    let n = normalize_extension(value);
    let names = ["mp4", "mkv", "webm", "avi", "mov", "m4v"];
    let supported = one_of(n.as_slice(), names.as_slice());
    proof {
        let ns = names@;
        assert(ns[0] == "mp4" && ns[1] == "mkv" && ns[2] == "webm" && ns[3] == "avi" && ns[4]
            == "mov" && ns[5] == "m4v");
        if video_extension_supported(n@) {
            if n@ == "mp4"@ { assert(n@ == ns[0]@); }
            if n@ == "mkv"@ { assert(n@ == ns[1]@); }
            if n@ == "webm"@ { assert(n@ == ns[2]@); }
            if n@ == "avi"@ { assert(n@ == ns[3]@); }
            if n@ == "mov"@ { assert(n@ == ns[4]@); }
            if n@ == "m4v"@ { assert(n@ == ns[5]@); }
        }
    }
    if supported {
        Ok(n)
    } else {
        Err(LibraryError::UnsupportedVideoExtension(string_of(n.as_slice())))
    }
}

pub fn normalize_subtitle_extension(value: &[char]) -> (r: Result<Vec<char>, LibraryError>)
    ensures
        match (r, subtitle_extension_of(value@)) {
            (Ok(a), Ok(b)) => a@ == b,
            (Err(e), Err(f)) => e@ == f,
            _ => false,
        },
{
    let n = normalize_extension(value);
    let names = ["srt", "vtt", "ass", "ssa", "sub"];
    let supported = one_of(n.as_slice(), names.as_slice());
    proof {
        let ns = names@;
        assert(ns[0] == "srt" && ns[1] == "vtt" && ns[2] == "ass" && ns[3] == "ssa" && ns[4]
            == "sub");
        if subtitle_extension_supported(n@) {
            if n@ == "srt"@ { assert(n@ == ns[0]@); }
            if n@ == "vtt"@ { assert(n@ == ns[1]@); }
            if n@ == "ass"@ { assert(n@ == ns[2]@); }
            if n@ == "ssa"@ { assert(n@ == ns[3]@); }
            if n@ == "sub"@ { assert(n@ == ns[4]@); }
        }
    }
    if supported {
        Ok(n)
    } else {
        Err(LibraryError::UnsupportedSubtitleExtension(string_of(n.as_slice())))
    }
}

/// A component longer than a filesystem name may be.
pub open spec fn component_too_long(p: Seq<char>) -> bool {
    exists|i: int|
        0 <= i < path_components(p).len() && byte_len(#[trigger] path_components(p)[i])
            > MAX_COMPONENT_BYTES
}

/// What the filesystem said of one planned path: what checking it against the
/// media root gave (the resolved path, or the refusal), and whether the resolved
/// path exists.
#[derive(Debug, PartialEq, Eq)]
pub struct TargetFacts {
    pub relative: String,
    pub contained: Result<String, PathSecurityError>,
    pub exists: bool,
}

/// The facts given for a relative path, the first that names it.
pub open spec fn target_of(facts: Seq<TargetFacts>, p: Seq<char>) -> Option<TargetFacts>
    decreases facts.len(),
{
    if facts.len() == 0 {
        None
    } else if facts[0].relative@ == p {
        Some(facts[0])
    } else {
        target_of(facts.drop_first(), p)
    }
}

pub open spec fn refusal_of(r: Result<String, PathSecurityError>) -> Result<Seq<char>, PathRefusal> {
    match r {
        Ok(p) => Ok(p@),
        Err(e) => Err(e@),
    }
}

/// Where a relative path lies under the root: as the facts say, else as its
/// text alone says (a path nothing is known of resolves nowhere).
pub open spec fn target_outcome(root: Seq<char>, facts: Seq<TargetFacts>, p: Seq<char>) -> Result<Seq<char>, PathRefusal> {
    match target_of(facts, p) {
        Some(f) => refusal_of(f.contained),
        None => containment(root, p),
    }
}

/// Whether the facts say the path's target exists; a path nothing is known of
/// does not.
pub open spec fn target_exists(facts: Seq<TargetFacts>, p: Seq<char>) -> bool {
    match target_of(facts, p) {
        Some(f) => f.exists,
        None => false,
    }
}

/// Why a relative path cannot be used under the root, if it cannot: a component
/// too long for a filesystem name, then the containment check.
pub open spec fn path_fault(root: Seq<char>, facts: Seq<TargetFacts>, p: Seq<char>) -> Option<LibraryFault> {
    if component_too_long(p) {
        Some(LibraryFault::ComponentTooLong(p))
    } else {
        match target_outcome(root, facts, p) {
            Err(e) => Some(LibraryFault::Path(e)),
            Ok(_) => None,
        }
    }
}

/// Why a target cannot be used: as `path_fault`, then because it already exists.
pub open spec fn target_fault(root: Seq<char>, facts: Seq<TargetFacts>, p: Seq<char>) -> Option<LibraryFault> {
    if path_fault(root, facts, p) is Some {
        path_fault(root, facts, p)
    } else if target_exists(facts, p) {
        Some(LibraryFault::AlreadyExists(p))
    } else {
        None
    }
}

fn find_target(facts: &Vec<TargetFacts>, p: &[char]) -> (r: Option<usize>)
    ensures
        match (r, target_of(facts@, p@)) {
            (Some(i), Some(f)) => i < facts@.len() && facts@[i as int] == f,
            (None, None) => true,
            _ => false,
        },
{
    let mut i: usize = 0;
    assert(facts@.subrange(0, facts@.len() as int) =~= facts@);
    while i < facts.len()
        invariant
            i <= facts@.len(),
            target_of(facts@, p@) == target_of(facts@.subrange(i as int, facts@.len() as int), p@),
        decreases facts@.len() - i,
    {
        let ghost rest = facts@.subrange(i as int, facts@.len() as int);
        assert(rest[0] == facts@[i as int]);
        if crate::text::chars_eq(chars_of(facts[i].relative.as_str()).as_slice(), p) {
            return Some(i);
        }
        assert(rest.drop_first() =~= facts@.subrange(i + 1, facts@.len() as int));
        i = i + 1;
    }
    None
}

fn copy_refusal(e: &PathSecurityError) -> (r: PathSecurityError)
    ensures
        r@ == e@,
{
    match e {
        PathSecurityError::AbsolutePath => PathSecurityError::AbsolutePath,
        PathSecurityError::Traversal => PathSecurityError::Traversal,
        PathSecurityError::ControlCharacter(s) => PathSecurityError::ControlCharacter(s.clone()),
        PathSecurityError::OutsideRoot(s) => PathSecurityError::OutsideRoot(s.clone()),
        PathSecurityError::UnsupportedComponent => PathSecurityError::UnsupportedComponent,
        PathSecurityError::Io(s) => PathSecurityError::Io(s.clone()),
    }
}

/// Checks one planned path: the length of each component, then where it lies
/// under the root, then, for a target, that it does not exist yet.
fn check_target(root: &str, facts: &Vec<TargetFacts>, p: &[char], target: bool) -> (r: Result<(), LibraryError>)
    ensures
        match (r, if target { target_fault(root@, facts@, p@) } else { path_fault(root@, facts@, p@) }) {
            (Ok(_), None) => true,
            (Err(e), Some(f)) => e@ == f,
            _ => false,
        },
{
    let cs = components_of(p);
    let ghost all = path_components(p@);
    let mut i: usize = 0;
    while i < cs.len()
        invariant
            i <= cs@.len(),
            cs@.len() == all.len(),
            all == path_components(p@),
            forall|k: int| 0 <= k < cs@.len() ==> #[trigger] cs@[k]@ == all[k],
            forall|k: int| 0 <= k < i ==> byte_len(#[trigger] all[k]) <= MAX_COMPONENT_BYTES,
        decreases cs@.len() - i,
    {
        assert(cs@[i as int]@ == all[i as int]);
        if byte_len_of(cs[i].as_slice()) > MAX_COMPONENT_BYTES as u128 {
            return Err(LibraryError::ComponentTooLong { relative_path: string_of(p) });
        }
        i = i + 1;
    }
    match find_target(facts, p) {
        Some(k) => {
            match &facts[k].contained {
                Ok(_) => {},
                Err(e) => return Err(LibraryError::Path(copy_refusal(e))),
            }
            if target && facts[k].exists {
                return Err(LibraryError::AlreadyExists { relative_path: string_of(p) });
            }
            Ok(())
        },
        None => {
            let text = string_of(p);
            match contained_path(root, text.as_str()) {
                Ok(_) => Ok(()),
                Err(e) => Err(LibraryError::Path(e)),
            }
        },
    }
}

/// The folder of a title and the stem of its files.
pub open spec fn placement(identity: MediaIdentity, max_stem: int) -> (Seq<char>, Seq<char>) {
    match identity {
        MediaIdentity::Movie { title, year } => {
            let display = display_title_of(title@, opt_text(year), max_stem);
            (path_join("Movies"@, display), display)
        },
        MediaIdentity::Episode { series_title, year, season, episode, episode_title } => {
            let show = display_title_of(series_title@, opt_text(year), MAX_COMPONENT_BYTES as int);
            (
                path_join(
                    path_join("Shows"@, show),
                    "Season "@ + crate::text::dec_string2(season as nat),
                ),
                episode_stem_of(show, season, episode, opt_text(episode_title), max_stem),
            )
        },
    }
}

/// `a.b`.
pub open spec fn dotted(a: Seq<char>, b: Seq<char>) -> Seq<char> {
    a + seq!['.'] + b
}

/// The sanitised language and normalised extension of the subtitle, if any.
pub open spec fn subtitle_part(subtitle: Option<(Seq<char>, Seq<char>)>) -> Result<
    Option<(Seq<char>, Seq<char>)>,
    LibraryFault,
> {
    match subtitle {
        None => Ok(None),
        Some((language, extension)) => match subtitle_extension_of(extension) {
            Err(f) => Err(f),
            Ok(e) => Ok(Some((sanitized_language(language), e))),
        },
    }
}

/// The first of the four paths that cannot be used, in the order they are
/// checked: the video and whether it exists, the subtitle and whether it
/// exists, then the two files in progress.
pub open spec fn first_fault(root: Seq<char>, facts: Seq<TargetFacts>, p: MediaPathsView) -> Option<LibraryFault> {
    if target_fault(root, facts, p.video_relative) is Some {
        target_fault(root, facts, p.video_relative)
    } else if p.subtitle_relative is Some && target_fault(root, facts, p.subtitle_relative->0) is Some {
        target_fault(root, facts, p.subtitle_relative->0)
    } else if path_fault(root, facts, p.partial_video_relative) is Some {
        path_fault(root, facts, p.partial_video_relative)
    } else if p.partial_subtitle_relative is Some && path_fault(
        root,
        facts,
        p.partial_subtitle_relative->0,
    ) is Some {
        path_fault(root, facts, p.partial_subtitle_relative->0)
    } else {
        None
    }
}

/// The four paths of a download, laid out from the identity and the
/// normalised extensions, before any of them is checked.
pub open spec fn laid_out(
    identity: MediaIdentity,
    video_extension: Seq<char>,
    subtitle: Option<(Seq<char>, Seq<char>)>,
    job_id: Seq<char>,
) -> Result<MediaPathsView, LibraryFault> {
    match video_extension_of(video_extension) {
        Err(f) => Err(f),
        Ok(ext) => match subtitle_part(subtitle) {
            Err(f) => Err(f),
            Ok(sub) => {
                let (folder, stem) = placement(identity, stem_byte_limit(ext));
                let partial_dir = path_join(path_join("_moviebox"@, "jobs"@), job_id);
                Ok(
                    MediaPathsView {
                        video_relative: path_join(folder, dotted(stem, ext)),
                        subtitle_relative: match sub {
                            Some((l, e)) => Some(path_join(folder, dotted(dotted(stem, l), e))),
                            None => None,
                        },
                        partial_video_relative: path_join(partial_dir, dotted(stem, ext) + ".part"@),
                        partial_subtitle_relative: match sub {
                            Some((l, e)) => Some(
                                path_join(partial_dir, dotted(dotted(stem, l), e) + ".part"@),
                            ),
                            None => None,
                        },
                    },
                )
            },
        },
    }
}

/// The paths planned for a download, checked against the root and the
/// filesystem's facts.
pub open spec fn planned_paths(
    root: Seq<char>,
    identity: MediaIdentity,
    video_extension: Seq<char>,
    subtitle: Option<(Seq<char>, Seq<char>)>,
    job_id: Seq<char>,
    facts: Seq<TargetFacts>,
) -> Result<MediaPathsView, LibraryFault> {
    match laid_out(identity, video_extension, subtitle, job_id) {
        Err(f) => Err(f),
        Ok(paths) => match first_fault(root, facts, paths) {
            Some(f) => Err(f),
            None => Ok(paths),
        },
    }
}

pub open spec fn pair_text(subtitle: Option<(&str, &str)>) -> Option<(Seq<char>, Seq<char>)> {
    match subtitle {
        Some((l, e)) => Some((l@, e@)),
        None => None,
    }
}

/// Lays out finished media under a media root.
#[derive(Debug, Clone)]
pub struct LibraryNamer {
    media_root: String,
}

fn dotted_chars(a: &[char], b: &[char]) -> (r: Vec<char>)
    ensures
        r@ == dotted(a@, b@),
{
    let mut head = concat_chars(a, &[]);
    assert(head@ =~= a@);
    head.push('.');
    concat_chars(head.as_slice(), b)
}

fn joined_path(base: &[char], part: &[char]) -> (r: Vec<char>)
    ensures
        r@ == path_join(base@, part@),
{
    let mut p = concat_chars(base, &[]);
    assert(p@ =~= base@);
    push_component(&mut p, part);
    p
}

impl LibraryNamer {
    /// A namer for the media root, given as the filesystem resolved it.
    pub fn new(media_root: String) -> (r: Self)
        ensures
            r.root_text() == media_root@,
    {
        LibraryNamer { media_root }
    }

    /// The media root, as text.
    pub closed spec fn root_text(&self) -> Seq<char> {
        self.media_root@
    }

    /// The media root.
    pub fn media_root(&self) -> (r: &str)
        ensures
            r@ == self.root_text(),
    {
        self.media_root.as_str()
    }
}

fn text_chars(t: &Option<String>) -> (r: Option<Vec<char>>)
    ensures
        match (r, opt_text(*t)) {
            (Some(a), Some(b)) => a@ == b,
            (None, None) => true,
            _ => false,
        },
{
    match t {
        Some(s) => Some(chars_of(s.as_str())),
        None => None,
    }
}

fn as_slice_opt(v: &Option<Vec<char>>) -> (r: Option<&[char]>)
    ensures
        match (r, *v) {
            (Some(a), Some(b)) => a@ == b@,
            (None, None) => true,
            _ => false,
        },
{
    match v {
        Some(x) => Some(x.as_slice()),
        None => None,
    }
}

/// The folder and file stem for a title.
fn placement_of(identity: &MediaIdentity, max_stem: usize) -> (r: (Vec<char>, Vec<char>))
    ensures
        (r.0@, r.1@) == placement(*identity, max_stem as int),
{
    match identity {
        MediaIdentity::Movie { title, year } => {
            let t = chars_of(title.as_str());
            let y = text_chars(year);
            let display = display_title(t.as_slice(), as_slice_opt(&y), max_stem);
            let movies = chars_of("Movies");
            let folder = joined_path(movies.as_slice(), display.as_slice());
            (folder, display)
        },
        MediaIdentity::Episode { series_title, year, season, episode, episode_title } => {
            let t = chars_of(series_title.as_str());
            let y = text_chars(year);
            let show = display_title(t.as_slice(), as_slice_opt(&y), MAX_COMPONENT_BYTES);
            let shows = chars_of("Shows");
            let season_word = chars_of("Season ");
            let digits = crate::text::dec_digits2(*season as u64);
            let season_dir = concat_chars(season_word.as_slice(), digits.as_slice());
            let folder = joined_path(
                joined_path(shows.as_slice(), show.as_slice()).as_slice(),
                season_dir.as_slice(),
            );
            let et = text_chars(episode_title);
            let stem = episode_stem(show.as_slice(), *season, *episode, as_slice_opt(&et), max_stem);
            (folder, stem)
        },
    }
}

pub open spec fn pair_view(p: Option<(Vec<char>, Vec<char>)>) -> Option<(Seq<char>, Seq<char>)> {
    match p {
        Some((l, e)) => Some((l@, e@)),
        None => None,
    }
}

fn with_part(v: &[char]) -> (r: Vec<char>)
    ensures
        r@ == v@ + ".part"@,
{
    let part = chars_of(".part");
    concat_chars(v, part.as_slice())
}

impl LibraryNamer {
    /// Lays out the library paths of a download: the extensions are normalised
    /// and must be supported, and titles are sanitised and cut to fit the name
    /// limits. Nothing is checked against the root yet.
    pub fn plan_paths(
        &self,
        identity: &MediaIdentity,
        video_extension: &str,
        subtitle: Option<(&str, &str)>,
        job_id: JobId,
    ) -> (r: Result<MediaPaths, LibraryError>)
        ensures
            match (r, laid_out(*identity, video_extension@, pair_text(subtitle), hyphenated(job_id.0))) {
                (Ok(a), Ok(b)) => a@ == b,
                (Err(e), Err(f)) => e@ == f,
                _ => false,
            },
    {
        let ghost sub_view = pair_text(subtitle);
        let ext = match normalize_video_extension(chars_of(video_extension).as_slice()) {
            Ok(e) => e,
            Err(e) => return Err(e),
        };
        let sub: Option<(Vec<char>, Vec<char>)> = match subtitle {
            None => None,
            Some((language, extension)) => {
                let lang = sanitize_language(chars_of(language).as_slice());
                match normalize_subtitle_extension(chars_of(extension).as_slice()) {
                    Ok(e) => Some((lang, e)),
                    Err(e) => return Err(e),
                }
            },
        };
        let ghost sub_spec = pair_view(sub);
        assert(subtitle_part(sub_view) == Ok::<Option<(Seq<char>, Seq<char>)>, LibraryFault>(sub_spec));
        let max_stem = filename_stem_byte_limit(ext.as_slice());
        let (folder, stem) = placement_of(identity, max_stem);
        let video_name = dotted_chars(stem.as_slice(), ext.as_slice());
        let video = joined_path(folder.as_slice(), video_name.as_slice());
        let moviebox = chars_of("_moviebox");
        let jobs = chars_of("jobs");
        let partial_dir = joined_path(
            joined_path(moviebox.as_slice(), jobs.as_slice()).as_slice(),
            chars_of(job_id.to_text().as_str()).as_slice(),
        );
        let partial_video = joined_path(partial_dir.as_slice(), with_part(video_name.as_slice()).as_slice());
        let (subtitle_path, partial_subtitle): (Option<Vec<char>>, Option<Vec<char>>) = match &sub {
            None => (None, None),
            Some((l, e)) => {
                let name = dotted_chars(dotted_chars(stem.as_slice(), l.as_slice()).as_slice(), e.as_slice());
                (
                    Some(joined_path(folder.as_slice(), name.as_slice())),
                    Some(joined_path(partial_dir.as_slice(), with_part(name.as_slice()).as_slice())),
                )
            },
        };
        Ok(
            MediaPaths {
                video_relative: string_of(video.as_slice()),
                subtitle_relative: match &subtitle_path {
                    Some(p) => Some(string_of(p.as_slice())),
                    None => None,
                },
                partial_video_relative: string_of(partial_video.as_slice()),
                partial_subtitle_relative: match &partial_subtitle {
                    Some(p) => Some(string_of(p.as_slice())),
                    None => None,
                },
            },
        )
    }

    /// Plans the library paths of a download and checks them, in order: the
    /// video path against the root, then that no video is there yet; the same
    /// for the subtitle; then the two files in progress. `facts` says, for each
    /// planned path, what resolving it under the root gave and whether that
    /// place exists; a path it does not name is read by its text alone and taken
    /// not to exist.
    pub fn paths_for(
        &self,
        identity: &MediaIdentity,
        video_extension: &str,
        subtitle: Option<(&str, &str)>,
        job_id: JobId,
        facts: &Vec<TargetFacts>,
    ) -> (r: Result<MediaPaths, LibraryError>)
        ensures
            match (
                r,
                planned_paths(
                    self.root_text(),
                    *identity,
                    video_extension@,
                    pair_text(subtitle),
                    hyphenated(job_id.0),
                    facts@,
                ),
            ) {
                (Ok(a), Ok(b)) => a@ == b,
                (Err(e), Err(f)) => e@ == f,
                _ => false,
            },
    {
        let paths = match self.plan_paths(identity, video_extension, subtitle, job_id) {
            Ok(p) => p,
            Err(e) => return Err(e),
        };
        let root = self.media_root.as_str();
        match check_target(root, facts, chars_of(paths.video_relative.as_str()).as_slice(), true) {
            Ok(_) => {},
            Err(e) => return Err(e),
        }
        match &paths.subtitle_relative {
            Some(p) => match check_target(root, facts, chars_of(p.as_str()).as_slice(), true) {
                Ok(_) => {},
                Err(e) => return Err(e),
            },
            None => {},
        }
        match check_target(root, facts, chars_of(paths.partial_video_relative.as_str()).as_slice(), false) {
            Ok(_) => {},
            Err(e) => return Err(e),
        }
        match &paths.partial_subtitle_relative {
            Some(p) => match check_target(root, facts, chars_of(p.as_str()).as_slice(), false) {
                Ok(_) => {},
                Err(e) => return Err(e),
            },
            None => {},
        }
        Ok(paths)
    }

    /// A download never lands on a file that is already there: when the
    /// planned paths are accepted, the facts say neither the video nor the
    /// subtitle target exists, and an existing one is refused by name.
    pub proof fn lemma_accepted_targets_are_new(
        &self,
        identity: MediaIdentity,
        video_extension: Seq<char>,
        subtitle: Option<(Seq<char>, Seq<char>)>,
        job_id: Seq<char>,
        facts: Seq<TargetFacts>,
    )
        ensures
            planned_paths(self.root_text(), identity, video_extension, subtitle, job_id, facts) matches Ok(p)
                ==> !target_exists(facts, p.video_relative) && (p.subtitle_relative matches Some(t)
                ==> !target_exists(facts, t)),
            laid_out(identity, video_extension, subtitle, job_id) matches Ok(p) ==> (path_fault(
                self.root_text(),
                facts,
                p.video_relative,
            ) is None && target_exists(facts, p.video_relative) ==> planned_paths(
                self.root_text(),
                identity,
                video_extension,
                subtitle,
                job_id,
                facts,
            ) == Err::<MediaPathsView, LibraryFault>(LibraryFault::AlreadyExists(p.video_relative))),
    {
    }
}

} // verus!

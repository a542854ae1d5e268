//! Automatic subtitle-track selection.
//!
//! When a download request does not name a track, the server picks the best match
//! for a preferred language on the user's behalf.

use vstd::prelude::*;

use crate::catalog::SubtitleTrack;
use crate::text::{
    chars_blank, chars_eq, chars_of, contains, contains_chars, lower_chars, lower_seq, owned,
    string_of, trim, trim_chars,
};

verus! {

/// Language preference used when a download request does not name a subtitle.
#[derive(Debug, Clone, PartialEq, Eq)]
pub enum SubtitlePreference {
    /// Attach nothing unless the request names a track.
    Disabled,
    /// Attach the best track matching this language name or code.
    Language(String),
}

/// `str::eq_ignore_ascii_case`.
pub open spec fn eq_ignore_case(a: Seq<char>, b: Seq<char>) -> bool {
    lower_seq(a) == lower_seq(b)
}

/// What a configured preference means: blank, `off` and `none` disable automatic
/// selection; anything else is a language name or code, lower-cased.
pub open spec fn preference_of(value: Seq<char>) -> Option<Seq<char>> {
    let t = trim(value);
    if t.len() == 0 || eq_ignore_case(t, "off"@) || eq_ignore_case(t, "none"@) {
        None
    } else {
        Some(lower_seq(t))
    }
}

pub open spec fn is_label_delimiter(c: char) -> bool {
    c == '(' || c == '[' || c == '-' || c == ','
}

/// Length of the label before its first `(`, `[`, `-` or `,`.
pub open spec fn base_len(v: Seq<char>) -> nat
    decreases v.len(),
{
    if v.len() == 0 || is_label_delimiter(v[0]) {
        0
    } else {
        1 + base_len(v.drop_first())
    }
}

/// A language label reduced to a comparable base name: the text before the first
/// delimiter, trimmed, with `en`, `eng` and `english` folded together.
pub open spec fn canonical_language(v: Seq<char>) -> Seq<char> {
    let base = trim(v.take(base_len(v) as int));
    if base == "en"@ || base == "eng"@ || base == "english"@ {
        "english"@
    } else {
        base
    }
}

/// Rank of a track for the wanted language, lower is better; `None` when it does not
/// match. Plain labels beat hearing-impaired and forced variants, and an exact label
/// beats an alias.
pub open spec fn track_score(language: Seq<char>, wanted: Seq<char>) -> Option<u8> {
    let l = lower_seq(trim(language));
    if canonical_language(l) != canonical_language(wanted) {
        None
    } else {
        let annotated = contains(l, "sdh"@) || contains(l, "hearing"@) || contains(l, "forced"@)
            || contains(l, "cc"@);
        let exact = l == canonical_language(wanted);
        Some(
            if exact && !annotated {
                0
            } else if !exact && !annotated {
                1
            } else if exact && annotated {
                2
            } else {
                3
            },
        )
    }
}

/// The track `select` picks: matching, with the lowest score, the first of equals.
pub open spec fn selected(tracks: Seq<SubtitleTrack>, wanted: Seq<char>, i: int) -> bool {
    &&& 0 <= i < tracks.len()
    &&& track_score(tracks[i].language@, wanted) is Some
    &&& forall|j: int|
        0 <= j < tracks.len() && track_score((#[trigger] tracks[j]).language@, wanted) is Some
            ==> track_score(tracks[i].language@, wanted)->0 <= track_score(
            tracks[j].language@,
            wanted,
        )->0
    &&& forall|j: int|
        0 <= j < i && track_score((#[trigger] tracks[j]).language@, wanted) is Some
            ==> track_score(tracks[i].language@, wanted)->0 < track_score(
            tracks[j].language@,
            wanted,
        )->0
}

fn label_base_end(v: &[char]) -> (n: usize)
    ensures
        n == base_len(v@),
        n <= v@.len(),
{
 let mut i: usize = 0;
    assert(v@.subrange(0, v@.len() as int) =~= v@);
    while i < v.len() && !(v[i] == '(' || v[i] == '[' || v[i] == '-' || v[i] == ',')
        invariant
            i <= v@.len(),
            base_len(v@) == i + base_len(v@.subrange(i as int, v@.len() as int)),
        decreases v@.len() - i,
    {
        assert(v@.subrange(i as int, v@.len() as int).drop_first() =~= v@.subrange(
            i + 1,
            v@.len() as int,
        ));
        i = i + 1;
    }
    i
}

fn is_literal(v: &[char], literal: &str) -> (b: bool)
    ensures
        b == (v@ == literal@),
{
    let l = chars_of(literal);
    chars_eq(v, l.as_slice())
}

/// Reduce a language label to a comparable base name.
fn canonical_language_of(v: &[char]) -> (r: Vec<char>)
    ensures
        r@ == canonical_language(v@),
{
    let n = label_base_end(v);
    let head = crate::text::slice_chars(v, 0, n);
    assert(head@ =~= v@.take(base_len(v@) as int));
    let base = trim_chars(head.as_slice());
    if is_literal(base.as_slice(), "en") || is_literal(base.as_slice(), "eng") || is_literal(
        base.as_slice(),
        "english",
    ) {
        chars_of("english")
    } else {
        base
    }
}

fn score(language: &str, wanted: &[char]) -> (r: Option<u8>)
    ensures
        r == track_score(language@, wanted@),
{
    let raw = chars_of(language);
    let trimmed = trim_chars(raw.as_slice());
    let lowered = lower_chars(trimmed.as_slice());
    let canonical = canonical_language_of(lowered.as_slice());
    let wanted_canonical = canonical_language_of(wanted);
    if !chars_eq(canonical.as_slice(), wanted_canonical.as_slice()) {
        return None;
    }
    let sdh = chars_of("sdh");
    let hearing = chars_of("hearing");
    let forced = chars_of("forced");
    let cc = chars_of("cc");
    let annotated = contains_chars(lowered.as_slice(), sdh.as_slice()) || contains_chars(
        lowered.as_slice(),
        hearing.as_slice(),
    ) || contains_chars(lowered.as_slice(), forced.as_slice()) || contains_chars(
        lowered.as_slice(),
        cc.as_slice(),
    );
    let exact = chars_eq(lowered.as_slice(), wanted_canonical.as_slice());
    Some(
        if exact && !annotated {
            0
        } else if !exact && !annotated {
            1
        } else if exact && annotated {
            2
        } else {
            3
        },
    )
}

impl SubtitlePreference {
    /// Parse a configured preference.
    pub fn parse(value: &str) -> (r: Self)
        ensures
            match preference_of(value@) {
                None => r == SubtitlePreference::Disabled,
                Some(l) => r matches SubtitlePreference::Language(s) && s@ == l,
            },
    {
        let raw = chars_of(value);
        let t = trim_chars(raw.as_slice());
        let lowered = lower_chars(t.as_slice());
        let off = chars_of("off");
        let none = chars_of("none");
        assert(lower_seq(off@) =~= off@) by {
            reveal_strlit("off");
        }
        assert(lower_seq(none@) =~= none@) by {
            reveal_strlit("none");
        }
        if t.len() == 0 || chars_eq(lowered.as_slice(), off.as_slice()) || chars_eq(
            lowered.as_slice(),
            none.as_slice(),
        ) {
            SubtitlePreference::Disabled
        } else {
            SubtitlePreference::Language(string_of(lowered.as_slice()))
        }
    }

    /// The index of the track to attach, or `None` when nothing suitable is offered.
    pub fn select_index(&self, tracks: &[SubtitleTrack]) -> (r: Option<usize>)
        ensures
            match self {
                SubtitlePreference::Disabled => r is None,
                SubtitlePreference::Language(wanted) => match r {
                    Some(i) => selected(tracks@, wanted@, i as int),
                    None => forall|j: int|
                        0 <= j < tracks@.len() ==> track_score(
                            (#[trigger] tracks@[j]).language@,
                            wanted@,
                        ) is None,
                },
            },
    {
        let wanted = match self {
            SubtitlePreference::Disabled => return None,
            SubtitlePreference::Language(w) => w,
        };
        let wanted_chars = chars_of(wanted.as_str());
        let mut best: Option<(usize, u8)> = None;
        let mut i: usize = 0;
        while i < tracks.len()
            invariant
                i <= tracks@.len(),
                wanted_chars@ == wanted@,
                match best {
                    Some((b, s)) => b < i && Some(s) == track_score(tracks@[b as int].language@, wanted@)
                        && selected(tracks@.subrange(0, i as int), wanted@, b as int),
                    None => forall|j: int|
                        0 <= j < i ==> track_score(
                            (#[trigger] tracks@[j]).language@,
                            wanted@,
                        ) is None,
                },
            decreases tracks@.len() - i,
        {
            let ghost prefix = tracks@.subrange(0, i as int);
            let ghost next = tracks@.subrange(0, i + 1);
            let s = score(tracks[i].language.as_str(), wanted_chars.as_slice());
            match s {
                Some(value) => {
                    let better = match best {
                        None => true,
                        Some((_, current)) => value < current,
                    };
                    if better {
                        proof {
                            assert forall|j: int|
                                0 <= j < next.len() && track_score(
                                    (#[trigger] next[j]).language@,
                                    wanted@,
                                ) is Some implies track_score(next[i as int].language@, wanted@)->0
                                <= track_score(next[j].language@, wanted@)->0 by {
                                if j < i {
                                    assert(next[j] == prefix[j]);
                                }
                            }
                            assert forall|j: int|
                                0 <= j < i && track_score(
                                    (#[trigger] next[j]).language@,
                                    wanted@,
                                ) is Some implies track_score(next[i as int].language@, wanted@)->0
                                < track_score(next[j].language@, wanted@)->0 by {
                                assert(next[j] == prefix[j]);
                            }
                        }
                        best = Some((i, value));
                    } else {
                        proof {
                            let b = best.unwrap().0 as int;
                            assert forall|j: int|
                                0 <= j < next.len() && track_score(
                                    (#[trigger] next[j]).language@,
                                    wanted@,
                                ) is Some implies track_score(next[b].language@, wanted@)->0
                                <= track_score(next[j].language@, wanted@)->0 by {
                                if j < i {
                                    assert(next[j] == prefix[j]);
                                }
                            }
                            assert forall|j: int|
                                0 <= j < b && track_score(
                                    (#[trigger] next[j]).language@,
                                    wanted@,
                                ) is Some implies track_score(next[b].language@, wanted@)->0
                                < track_score(next[j].language@, wanted@)->0 by {
                                assert(next[j] == prefix[j]);
                            }
                        }
                    }
                },
                None => {
                    proof {
                        if let Some((b, _)) = best {
                            let b = b as int;
                            assert forall|j: int|
                                0 <= j < next.len() && track_score(
                                    (#[trigger] next[j]).language@,
                                    wanted@,
                                ) is Some implies track_score(next[b].language@, wanted@)->0
                                <= track_score(next[j].language@, wanted@)->0 by {
                                if j < i {
                                    assert(next[j] == prefix[j]);
                                }
                            }
                            assert forall|j: int|
                                0 <= j < b && track_score(
                                    (#[trigger] next[j]).language@,
                                    wanted@,
                                ) is Some implies track_score(next[b].language@, wanted@)->0
                                < track_score(next[j].language@, wanted@)->0 by {
                                assert(next[j] == prefix[j]);
                            }
                        }
                    }
                },
            }
            i = i + 1;
        }
        assert(tracks@.subrange(0, tracks@.len() as int) =~= tracks@);
        match best {
            Some((b, _)) => Some(b),
            None => None,
        }
    }

    /// Pick the track to attach, or `None` when nothing suitable is offered.
    pub fn select<'a>(&self, tracks: &'a [SubtitleTrack]) -> (r: Option<&'a SubtitleTrack>)
        ensures
            match self {
                SubtitlePreference::Disabled => r is None,
                SubtitlePreference::Language(wanted) => match r {
                    Some(t) => exists|i: int| selected(tracks@, wanted@, i) && *t == tracks@[i],
                    None => forall|j: int|
                        0 <= j < tracks@.len() ==> track_score(
                            (#[trigger] tracks@[j]).language@,
                            wanted@,
                        ) is None,
                },
            },
    {
        match self.select_index(tracks) {
            Some(i) => Some(&tracks[i]),
            None => None,
        }
    }
}

impl Default for SubtitlePreference {
    fn default() -> (r: Self)
        ensures
            r matches SubtitlePreference::Language(s) && s@ == "english"@,
    {
        SubtitlePreference::Language(owned("english"))
    }
}

/// Hearing-impaired, forced and closed-caption variants are a last resort: a
/// track whose trimmed, lower-cased label contains `sdh`, `hearing`, `forced`
/// or `cc` is never the one selected while a track of the wanted language whose
/// label holds none of these words is offered.
pub proof fn lemma_plain_tracks_win(tracks: Seq<SubtitleTrack>, wanted: Seq<char>, i: int, j: int)
    requires
        selected(tracks, wanted, i),
        0 <= j < tracks.len(),
        canonical_language(lower_seq(trim(tracks[j].language@))) == canonical_language(wanted),
        !contains(lower_seq(trim(tracks[j].language@)), "sdh"@),
        !contains(lower_seq(trim(tracks[j].language@)), "hearing"@),
        !contains(lower_seq(trim(tracks[j].language@)), "forced"@),
        !contains(lower_seq(trim(tracks[j].language@)), "cc"@),
    ensures
        !contains(lower_seq(trim(tracks[i].language@)), "sdh"@),
        !contains(lower_seq(trim(tracks[i].language@)), "hearing"@),
        !contains(lower_seq(trim(tracks[i].language@)), "forced"@),
        !contains(lower_seq(trim(tracks[i].language@)), "cc"@),
{
    assert(track_score(tracks[j].language@, wanted) is Some);
    assert(track_score(tracks[j].language@, wanted)->0 <= 1);
}

/// Among plain tracks the exact label wins: when a track of the wanted language
/// whose trimmed, lower-cased label is the language's canonical name, and names
/// no variant, is offered, the selected track's label is that name too.
pub proof fn lemma_exact_label_wins(tracks: Seq<SubtitleTrack>, wanted: Seq<char>, i: int, j: int)
    requires
        selected(tracks, wanted, i),
        0 <= j < tracks.len(),
        canonical_language(lower_seq(trim(tracks[j].language@))) == canonical_language(wanted),
        lower_seq(trim(tracks[j].language@)) == canonical_language(wanted),
        !contains(lower_seq(trim(tracks[j].language@)), "sdh"@),
        !contains(lower_seq(trim(tracks[j].language@)), "hearing"@),
        !contains(lower_seq(trim(tracks[j].language@)), "forced"@),
        !contains(lower_seq(trim(tracks[j].language@)), "cc"@),
    ensures
        lower_seq(trim(tracks[i].language@)) == canonical_language(wanted),
        !contains(lower_seq(trim(tracks[i].language@)), "sdh"@),
        !contains(lower_seq(trim(tracks[i].language@)), "hearing"@),
        !contains(lower_seq(trim(tracks[i].language@)), "forced"@),
        !contains(lower_seq(trim(tracks[i].language@)), "cc"@),
{
    assert(track_score(tracks[j].language@, wanted) == Some(0u8));
}

} // verus!



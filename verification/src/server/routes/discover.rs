//! The browse endpoints' checks: what a search term and a filter request must
//! look like, and which fetched rows the browse view keeps.

use vstd::prelude::*;

use crate::catalog::tmdb::{MediaKind, RowQuery, RowQueryView};
use crate::server::notify::opt_str;
use crate::text::{
    byte_len, byte_len_of, chars_of, dec_digits, dec_string, lower_chars, lower_seq, opt_text,
    owned, str_eq, string_of, trim, trim_chars,
};

verus! {

/// Why a browse request is refused.
#[derive(Debug, Clone, Copy, PartialEq, Eq, Structural)]
pub enum DiscoverError {
    InvalidQuery,
    InvalidKind,
    InvalidLanguage,
    InvalidYear,
    /// Browsing is not configured, or nothing could be fetched.
    Unavailable,
}

/// The error code the API reports for a refusal.
pub open spec fn discover_code(e: DiscoverError) -> Seq<char> {
    match e {
        DiscoverError::InvalidQuery => "invalid_query"@,
        DiscoverError::InvalidKind => "invalid_kind"@,
        DiscoverError::InvalidLanguage => "invalid_language"@,
        DiscoverError::InvalidYear => "invalid_year"@,
        DiscoverError::Unavailable => "discovery_unavailable"@,
    }
}

/// The message the API reports for a refusal.
pub open spec fn discover_message(e: DiscoverError) -> Seq<char> {
    match e {
        DiscoverError::InvalidQuery => "The search query must be between 2 and 100 characters."@,
        DiscoverError::InvalidKind => "The kind must be movie or series."@,
        DiscoverError::InvalidLanguage => "The language must be a two or three letter code."@,
        DiscoverError::InvalidYear => "The year must be between 1900 and 2100."@,
        DiscoverError::Unavailable => "Browsing is not configured on this server."@,
    }
}

impl DiscoverError {
    /// The HTTP status the refusal is answered with.
    pub fn status(&self) -> (r: u16)
        ensures
            r == (if *self == DiscoverError::Unavailable {
                503u16
            } else {
                400u16
            }),
    {
        match self {
            DiscoverError::Unavailable => 503,
            _ => 400,
        }
    }

    /// The error code the API reports.
    pub fn code(&self) -> (r: &'static str)
        ensures
            r@ == discover_code(*self),
    {
        match self {
            DiscoverError::InvalidQuery => "invalid_query",
            DiscoverError::InvalidKind => "invalid_kind",
            DiscoverError::InvalidLanguage => "invalid_language",
            DiscoverError::InvalidYear => "invalid_year",
            DiscoverError::Unavailable => "discovery_unavailable",
        }
    }

    /// The message the API reports.
    pub fn message(&self) -> (r: &'static str)
        ensures
            r@ == discover_message(*self),
    {
        match self {
            DiscoverError::InvalidQuery => "The search query must be between 2 and 100 characters.",
            DiscoverError::InvalidKind => "The kind must be movie or series.",
            DiscoverError::InvalidLanguage => "The language must be a two or three letter code.",
            DiscoverError::InvalidYear => "The year must be between 1900 and 2100.",
            DiscoverError::Unavailable => "Browsing is not configured on this server.",
        }
    }
}

/// A search term is the query trimmed, between 2 and 100 bytes long.
pub fn search_term(q: &str) -> (r: Result<String, DiscoverError>)
    ensures
        match r {
            Ok(t) => t@ == trim(q@) && 2 <= byte_len(t@) <= 100,
            Err(e) => e == DiscoverError::InvalidQuery && !(2 <= byte_len(trim(q@)) <= 100),
        },
{
    let term = trim_chars(chars_of(q).as_slice());
    let n = byte_len_of(term.as_slice());
    if n < 2 || n > 100 {
        return Err(DiscoverError::InvalidQuery);
    }
    Ok(string_of(term.as_slice()))
}

/// The kind a filter asks for: films unless it names series.
pub open spec fn kind_of(kind: Option<Seq<char>>) -> Option<MediaKind> {
    match kind {
        None => Some(MediaKind::Movie),
        Some(k) => if k == "series"@ {
            Some(MediaKind::Series)
        } else if k == "movie"@ {
            Some(MediaKind::Movie)
        } else {
            None
        },
    }
}

pub open spec fn ascii_letter(c: char) -> bool {
    ('a' <= c && c <= 'z') || ('A' <= c && c <= 'Z')
}

/// A language filter: blank means none; otherwise two or three ASCII letters,
/// lower-cased; anything else is refused (`Err`).
pub open spec fn language_of(language: Option<Seq<char>>) -> Result<Option<Seq<char>>, ()> {
    match language {
        None => Ok(None),
        Some(l) => {
            let t = trim(l);
            if t.len() == 0 {
                Ok(None)
            } else if 2 <= t.len() <= 3 && forall|i: int| 0 <= i < t.len() ==> #[trigger] ascii_letter(t[i]) {
                Ok(Some(lower_seq(t)))
            } else {
                Err(())
            }
        },
    }
}

/// The label of a filtered row: its year, else "All years".
pub open spec fn filter_label(year: Option<u16>) -> Seq<char> {
    match year {
        Some(y) => dec_string(y as nat),
        None => "All years"@,
    }
}

fn ascii_letters(v: &[char]) -> (r: bool)
    ensures
        r == forall|i: int| 0 <= i < v@.len() ==> #[trigger] ascii_letter(v@[i]),
{
    let mut i: usize = 0;
    while i < v.len()
        invariant
            i <= v@.len(),
            forall|j: int| 0 <= j < i ==> #[trigger] ascii_letter(v@[j]),
        decreases v@.len() - i,
    {
        let c = v[i];
        if !(('a' <= c && c <= 'z') || ('A' <= c && c <= 'Z')) {
            assert(!ascii_letter(v@[i as int]));
            return false;
        }
        i = i + 1;
    }
    true
}

fn filter_language(language: Option<&str>) -> (r: Result<Option<String>, DiscoverError>)
    ensures
        match language_of(opt_str(language)) {
            Err(_) => r == Err::<Option<String>, DiscoverError>(DiscoverError::InvalidLanguage),
            Ok(l) => r matches Ok(x) && opt_text(x) == l,
        },
{
    let l = match language {
        None => return Ok(None),
        Some(l) => l,
    };
    let t = trim_chars(chars_of(l).as_slice());
    if t.len() == 0 {
        return Ok(None);
    }
    if 2 <= t.len() && t.len() <= 3 && ascii_letters(t.as_slice()) {
        Ok(Some(string_of(lower_chars(t.as_slice()).as_slice())))
    } else {
        Err(DiscoverError::InvalidLanguage)
    }
}

/// The row a filter request asks for, with its label: the kind is checked
/// first, then the language, then the year, which must lie in 1900..=2100.
pub fn filter_query(kind: Option<&str>, language: Option<&str>, year: Option<u16>) -> (r: Result<
    (RowQuery, String),
    DiscoverError,
>)
    ensures
        match kind_of(opt_str(kind)) {
            None => r == Err::<(RowQuery, String), DiscoverError>(DiscoverError::InvalidKind),
            Some(k) => match language_of(opt_str(language)) {
                Err(_) => r == Err::<(RowQuery, String), DiscoverError>(DiscoverError::InvalidLanguage),
                Ok(l) => if year matches Some(y) && !(1900 <= y <= 2100) {
                    r == Err::<(RowQuery, String), DiscoverError>(DiscoverError::InvalidYear)
                } else {
                    r matches Ok(p) && p.0@ == (RowQueryView::Filtered {
                        kind: k,
                        language: l,
                        year,
                        region: None,
                        genre: None,
                    }) && p.1@ == filter_label(year)
                },
            },
        },
{
    let k = match kind {
        None => MediaKind::Movie,
        Some(k) => if str_eq(k, "series") {
            MediaKind::Series
        } else if str_eq(k, "movie") {
            MediaKind::Movie
        } else {
            return Err(DiscoverError::InvalidKind);
        },
    };
    let language = match filter_language(language) {
        Ok(l) => l,
        Err(e) => return Err(e),
    };
    if let Some(y) = year {
        if y < 1900 || y > 2100 {
            return Err(DiscoverError::InvalidYear);
        }
    }
    let label = match year {
        Some(y) => string_of(dec_digits(y as u64).as_slice()),
        None => owned("All years"),
    };
    Ok((RowQuery::Filtered { kind: k, language, year, region: None, genre: None }, label))
}

/// The rows the browse view keeps, by position: those that were fetched and
/// hold titles.
pub open spec fn kept(counts: Seq<Option<usize>>) -> Seq<usize>
    decreases counts.len(),
{
    if counts.len() == 0 {
        Seq::empty()
    } else {
        let rest = kept(counts.drop_last());
        if counts.last() matches Some(n) && n > 0 {
            rest.push((counts.len() - 1) as usize)
        } else {
            rest
        }
    }
}

/// Which fetched rows are shown: a row that failed (`None`) or came back empty
/// is dropped; when none is left, browsing is unavailable.
pub fn kept_rows(counts: &Vec<Option<usize>>) -> (r: Result<Vec<usize>, DiscoverError>)
    ensures
        kept(counts@).len() == 0 ==> r == Err::<Vec<usize>, DiscoverError>(DiscoverError::Unavailable),
        kept(counts@).len() > 0 ==> (r matches Ok(v) && v@ == kept(counts@)),
{
    let mut out: Vec<usize> = Vec::new();
    let mut i: usize = 0;
    while i < counts.len()
        invariant
            i <= counts@.len(),
            out@ == kept(counts@.take(i as int)),
        decreases counts@.len() - i,
    {
        proof {
            assert(counts@.take(i + 1).drop_last() =~= counts@.take(i as int));
        }
        match counts[i] {
            Some(n) => if n > 0 {
                out.push(i);
            },
            None => {},
        }
        i = i + 1;
    }
    assert(counts@.take(counts@.len() as int) =~= counts@);
    if out.len() == 0 {
        return Err(DiscoverError::Unavailable);
    }
    Ok(out)
}

} // verus!

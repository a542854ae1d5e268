//! Finding a finished download in Jellyfin and linking to it.
//!
//! After a download is ready the server asks Jellyfin to rescan its library and
//! then searches for the title, polling a few times while the scan runs. The
//! requests themselves are sent by the caller; what is asked for, how an answer
//! is read and what status the job reports are decided here.

use vstd::prelude::*;

use crate::text::{chars_of, lower_seq, opt_text, parse_i32, string_of};
use crate::urls::{join_url, parsed_view, url_join, ParsedUrl, ParsedUrlView};

verus! {

/// How long to wait between searches while Jellyfin scans, in milliseconds.
pub const DEFAULT_POLL_INTERVAL_MILLIS: u64 = 5000;

/// How many searches to make before giving up.
pub const DEFAULT_MAX_ATTEMPTS: usize = 12;

#[derive(Debug, Clone, PartialEq, Eq)]
pub struct JellyfinItem {
    pub id: String,
}

#[derive(Debug, Clone, Copy, PartialEq, Eq, Structural)]
pub enum JellyfinStatus {
    Ready,
    ScanPending,
    Unavailable,
}

#[derive(Debug, Clone, PartialEq, Eq)]
pub struct JellyfinLibraryStatus {
    pub status: JellyfinStatus,
    pub url: Option<String>,
}

#[derive(Debug, Clone, Copy, PartialEq, Eq, Structural)]
pub enum JellyfinError {
    Unavailable,
    InvalidResponse,
    InvalidBaseUrl,
    SecretUnavailable,
}

/// One entry of the answer to an `Items` search.
#[derive(Debug, Clone, PartialEq, Eq)]
pub struct JellyfinEntry {
    pub id: String,
    pub name: String,
    pub production_year: Option<i32>,
}

/// Whether an entry is the title searched for: the names agree apart from ASCII
/// case, and, when a year is given, the entry's year is what the year text
/// parses to (an entry without a year matches a year that does not parse).
pub open spec fn entry_matches(e: JellyfinEntry, title: Seq<char>, year: Option<Seq<char>>) -> bool {
    lower_seq(e.name@) == lower_seq(title) && match year {
        None => true,
        Some(w) => match (e.production_year, parse_i32(w)) {
            (Some(a), Some(b)) => a as int == b,
            (None, None) => true,
            _ => false,
        },
    }
}

/// The first entry of the answer that is the title searched for.
pub fn matching_item(entries: &[JellyfinEntry], title: &str, year: Option<&str>) -> (r: Option<JellyfinItem>)
    ensures
        match r {
            Some(item) => exists|i: int|
                0 <= i < entries@.len() && entry_matches(
                    #[trigger] entries@[i],
                    title@,
                    crate::server::notify::opt_str(year),
                ) && item.id == entries@[i].id && forall|j: int|
                    0 <= j < i ==> !entry_matches(
                        #[trigger] entries@[j],
                        title@,
                        crate::server::notify::opt_str(year),
                    ),
            None => forall|i: int|
                0 <= i < entries@.len() ==> !entry_matches(
                    #[trigger] entries@[i],
                    title@,
                    crate::server::notify::opt_str(year),
                ),
        },
{
    let ghost y = crate::server::notify::opt_str(year);
    let wanted = crate::text::lower_chars(chars_of(title).as_slice());
    let parsed: Option<Option<i32>> = match year {
        Some(w) => Some(crate::text::parse_i32_chars(chars_of(w).as_slice())),
        None => None,
    };
    let mut i: usize = 0;
    while i < entries.len()
        invariant
            i <= entries@.len(),
            wanted@ == lower_seq(title@),
            y == crate::server::notify::opt_str(year),
            match (parsed, y) {
                (None, None) => true,
                (Some(p), Some(w)) => match p {
                    Some(n) => parse_i32(w) == Some(n as int),
                    None => parse_i32(w) is None,
                },
                _ => false,
            },
            forall|j: int| 0 <= j < i ==> !entry_matches(#[trigger] entries@[j], title@, y),
        decreases entries@.len() - i,
    {
        let e = &entries[i];
        let name = crate::text::lower_chars(chars_of(e.name.as_str()).as_slice());
        let same_name = crate::text::chars_eq(name.as_slice(), wanted.as_slice());
        let same_year = match &parsed {
            None => true,
            Some(p) => match (e.production_year, p) {
                (Some(a), Some(b)) => a == *b,
                (None, None) => true,
                _ => false,
            },
        };
        if same_name && same_year {
            assert(entry_matches(entries@[i as int], title@, y));
            return Some(JellyfinItem { id: e.id.clone() });
        }
        assert(!entry_matches(entries@[i as int], title@, y));
        i = i + 1;
    }
    None
}

/// What `Url::set_fragment(Some(fragment))` leaves of the URL that `Url::parse`
/// reads from the text, serialised.
pub uninterp spec fn url_with_fragment(text: Seq<char>, fragment: Seq<char>) -> Option<Seq<char>>;

/// What `query_pairs_mut().append_pair(key, value)` leaves of the URL that
/// `Url::parse` reads from the text, serialised.
pub uninterp spec fn url_with_query_pair(text: Seq<char>, key: Seq<char>, value: Seq<char>) -> Option<Seq<char>>;

/// `Url::set_fragment` on a parsed URL.
#[verifier::external_body]
fn set_fragment(text: &str, fragment: &str) -> (r: Option<String>)
    ensures
        opt_text(r) == url_with_fragment(text@, fragment@),
{
    url::Url::parse(text).ok().map(|mut u| {
        u.set_fragment(Some(fragment));
        u.to_string()
    })
}

/// `Url::query_pairs_mut().append_pair` on a parsed URL.
#[verifier::external_body]
fn append_query_pair(text: &str, key: &str, value: &str) -> (r: Option<String>)
    ensures
        opt_text(r) == url_with_query_pair(text@, key@, value@),
{
    url::Url::parse(text).ok().map(|mut u| {
        u.query_pairs_mut().append_pair(key, value);
        u.to_string()
    })
}

/// The address of an endpoint under the base URL, or `InvalidBaseUrl`.
pub open spec fn endpoint_of(base: Seq<char>, path: Seq<char>) -> Result<ParsedUrlView, JellyfinError> {
    match url_join(base, path) {
        Some(u) => Ok(u),
        None => Err(JellyfinError::InvalidBaseUrl),
    }
}

/// The page of an item in Jellyfin's web client.
pub open spec fn deep_link_of(base: Seq<char>, item_id: Seq<char>) -> Result<Seq<char>, JellyfinError> {
    match endpoint_of(base, "web/index.html"@) {
        Err(e) => Err(e),
        Ok(u) => match url_with_fragment(u.serialization, "!/details?id="@ + item_id) {
            Some(t) => Ok(t),
            None => Err(JellyfinError::InvalidBaseUrl),
        },
    }
}

/// The search for a title across the library.
pub open spec fn items_url_of(base: Seq<char>, title: Seq<char>) -> Result<Seq<char>, JellyfinError> {
    match endpoint_of(base, "Items"@) {
        Err(e) => Err(e),
        Ok(u) => match url_with_query_pair(u.serialization, "searchTerm"@, title) {
            None => Err(JellyfinError::InvalidBaseUrl),
            Some(t) => match url_with_query_pair(t, "Recursive"@, "true"@) {
                None => Err(JellyfinError::InvalidBaseUrl),
                Some(v) => Ok(v),
            },
        },
    }
}

/// A response is accepted when one came and its status is a success (2xx).
pub open spec fn response_accepted(status: Option<u16>) -> bool {
    match status {
        Some(s) => 200 <= s && s <= 299,
        None => false,
    }
}

/// Reads the status of a refresh or search response; `None` when the request
/// itself failed.
pub fn check_response(status: Option<u16>) -> (r: Result<(), JellyfinError>)
    ensures
        r is Ok <==> response_accepted(status),
        r matches Err(e) ==> e == JellyfinError::Unavailable,
{
    match status {
        Some(s) => {
            if 200 <= s && s <= 299 {
                Ok(())
            } else {
                Err(JellyfinError::Unavailable)
            }
        },
        None => Err(JellyfinError::Unavailable),
    }
}

/// What the search loop does after one search.
#[derive(Debug, Clone, PartialEq, Eq)]
pub enum FindStep {
    Found(JellyfinItem),
    /// Wait the poll interval and search again.
    Retry,
    NotFound,
}

/// After search number `attempt` (from zero) of `max_attempts`: the first
/// matching entry is found; otherwise search again while attempts remain.
pub fn find_step(
    attempt: usize,
    max_attempts: usize,
    entries: &[JellyfinEntry],
    title: &str,
    year: Option<&str>,
) -> (r: FindStep)
    requires
        attempt < max_attempts,
    ensures
        match matching_item_of(entries@, title@, crate::server::notify::opt_str(year)) {
            Some(i) => r matches FindStep::Found(item) && item.id == entries@[i].id,
            None => if attempt + 1 < max_attempts {
                r is Retry
            } else {
                r is NotFound
            },
        },
{
    match matching_item(entries, title, year) {
        Some(item) => {
            proof {
                let y = crate::server::notify::opt_str(year);
                let i = choose|i: int|
                    0 <= i < entries@.len() && entry_matches(#[trigger] entries@[i], title@, y)
                        && item.id == entries@[i].id && forall|j: int|
                        0 <= j < i ==> !entry_matches(#[trigger] entries@[j], title@, y);
                lemma_first_match_is(entries@, title@, y, i);
            }
            FindStep::Found(item)
        },
        None => {
            if attempt + 1 < max_attempts {
                FindStep::Retry
            } else {
                FindStep::NotFound
            }
        },
    }
}

/// The position of the first matching entry.
pub open spec fn matching_item_of(entries: Seq<JellyfinEntry>, title: Seq<char>, year: Option<Seq<char>>) -> Option<int> {
    if exists|i: int| 0 <= i < entries.len() && entry_matches(#[trigger] entries[i], title, year) {
        Some(
            choose|i: int|
                0 <= i < entries.len() && entry_matches(#[trigger] entries[i], title, year) && forall|j: int|
                    0 <= j < i ==> !entry_matches(#[trigger] entries[j], title, year),
        )
    } else {
        None
    }
}

proof fn lemma_first_match_is(entries: Seq<JellyfinEntry>, title: Seq<char>, year: Option<Seq<char>>, i: int)
    requires
        0 <= i < entries.len(),
        entry_matches(entries[i], title, year),
        forall|j: int| 0 <= j < i ==> !entry_matches(#[trigger] entries[j], title, year),
    ensures
        matching_item_of(entries, title, year) == Some(i),
{
    let k = choose|k: int|
        0 <= k < entries.len() && entry_matches(#[trigger] entries[k], title, year) && forall|j: int|
            0 <= j < k ==> !entry_matches(#[trigger] entries[j], title, year);
    if k < i {
        assert(!entry_matches(entries[k], title, year));
    } else if k > i {
        assert(!entry_matches(entries[i], title, year));
    }
}

/// Where and how the server reaches Jellyfin; the HTTP client is the caller's.
#[derive(Debug, Clone)]
pub struct JellyfinClient {
    pub base_url: String,
    /// The API key, kept only when it is a valid header value.
    pub api_key: Option<String>,
    pub poll_interval_millis: u64,
    pub max_attempts: usize,
}

impl JellyfinClient {
    /// A client with the default polling.
    pub fn new(base_url: String, api_key: Option<String>) -> (r: Self)
        ensures
            r.base_url == base_url,
            r.api_key == (match api_key {
                Some(k) => if crate::text::valid_header_value(k@) {
                    Some(k)
                } else {
                    None
                },
                None => None,
            }),
            r.poll_interval_millis == DEFAULT_POLL_INTERVAL_MILLIS,
            r.max_attempts == DEFAULT_MAX_ATTEMPTS,
    {
        Self::with_polling(base_url, api_key, DEFAULT_POLL_INTERVAL_MILLIS, DEFAULT_MAX_ATTEMPTS)
    }

    /// A client with its own polling; at least one search is always made, and an
    /// API key that is not a valid header value is dropped.
    pub fn with_polling(base_url: String, api_key: Option<String>, poll_interval_millis: u64, max_attempts: usize) -> (r: Self)
        ensures
            r.base_url == base_url,
            r.api_key == (match api_key {
                Some(k) => if crate::text::valid_header_value(k@) {
                    Some(k)
                } else {
                    None
                },
                None => None,
            }),
            r.poll_interval_millis == poll_interval_millis,
            r.max_attempts == if max_attempts < 1 { 1 } else { max_attempts },
    {
        let api_key = match api_key {
            Some(k) => {
                if crate::text::is_header_value(k.as_str()) {
                    Some(k)
                } else {
                    None
                }
            },
            None => None,
        };
        JellyfinClient {
            base_url,
            api_key,
            poll_interval_millis,
            max_attempts: if max_attempts < 1 {
                1
            } else {
                max_attempts
            },
        }
    }

    /// The address of an endpoint under the base URL.
    pub fn endpoint(&self, path: &str) -> (r: Result<ParsedUrl, JellyfinError>)
        ensures
            match (r, endpoint_of(self.base_url@, path@)) {
                (Ok(a), Ok(b)) => a@ == b,
                (Err(e), Err(f)) => e == f,
                _ => false,
            },
    {
        match join_url(self.base_url.as_str(), path) {
            Some(u) => Ok(u),
            None => Err(JellyfinError::InvalidBaseUrl),
        }
    }

    /// The item's page in Jellyfin's web client.
    pub fn deep_link(&self, item_id: &str) -> (r: Result<String, JellyfinError>)
        ensures
            match (r, deep_link_of(self.base_url@, item_id@)) {
                (Ok(a), Ok(b)) => a@ == b,
                (Err(e), Err(f)) => e == f,
                _ => false,
            },
    {
        let u = match self.endpoint("web/index.html") {
            Ok(u) => u,
            Err(e) => return Err(e),
        };
        let fragment = crate::text::joined("!/details?id=", item_id);
        match set_fragment(u.serialization.as_str(), fragment.as_str()) {
            Some(t) => Ok(t),
            None => Err(JellyfinError::InvalidBaseUrl),
        }
    }

    /// The search request for a title.
    pub fn items_url(&self, title: &str) -> (r: Result<String, JellyfinError>)
        ensures
            match (r, items_url_of(self.base_url@, title@)) {
                (Ok(a), Ok(b)) => a@ == b,
                (Err(e), Err(f)) => e == f,
                _ => false,
            },
    {
        let u = match self.endpoint("Items") {
            Ok(u) => u,
            Err(e) => return Err(e),
        };
        let t = match append_query_pair(u.serialization.as_str(), "searchTerm", title) {
            Some(t) => t,
            None => return Err(JellyfinError::InvalidBaseUrl),
        };
        match append_query_pair(t.as_str(), "Recursive", "true") {
            Some(v) => Ok(v),
            None => Err(JellyfinError::InvalidBaseUrl),
        }
    }

    /// The status a ready job reports: without an API key the scan is left to
    /// Jellyfin; otherwise the item the search found, with its link, or
    /// unavailable when none was found.
    pub fn ready_status(&self, found: Option<JellyfinItem>) -> (r: Result<JellyfinLibraryStatus, JellyfinError>)
        ensures
            self.api_key is None ==> r == Ok::<JellyfinLibraryStatus, JellyfinError>(
                JellyfinLibraryStatus { status: JellyfinStatus::ScanPending, url: None },
            ),
            self.api_key is Some && found is None ==> r == Ok::<JellyfinLibraryStatus, JellyfinError>(
                JellyfinLibraryStatus { status: JellyfinStatus::Unavailable, url: None },
            ),
            self.api_key is Some ==> (found matches Some(item) ==> match (
                r,
                deep_link_of(self.base_url@, item.id@),
            ) {
                (Ok(s), Ok(link)) => s.status == JellyfinStatus::Ready && opt_text(s.url) == Some(link),
                (Err(e), Err(f)) => e == f,
                _ => false,
            }),
    {
        if self.api_key.is_none() {
            return Ok(JellyfinLibraryStatus { status: JellyfinStatus::ScanPending, url: None });
        }
        match found {
            None => Ok(JellyfinLibraryStatus { status: JellyfinStatus::Unavailable, url: None }),
            Some(item) => match self.deep_link(item.id.as_str()) {
                Ok(link) => Ok(JellyfinLibraryStatus { status: JellyfinStatus::Ready, url: Some(link) }),
                Err(e) => Err(e),
            },
        }
    }
}

} // verus!

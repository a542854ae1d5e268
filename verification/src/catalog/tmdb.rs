//! TMDB discovery rows and request URLs.
//!
//! TMDB answers "what exists?" for roughly a million titles, so it drives
//! browsing while the download provider keeps its job of supplying sources.

use vstd::prelude::*;
use vstd::string::StringSliceAdditionalSpecFns;

use crate::json::{as_items, as_signed, field, get, get_text, items_of, signed_of, text_field, JsonValue};
use crate::text::{
    byte_len, chars_of, dec_digits, dec_string, push_char, push_chars, push_str, string_of, trim,
    trim_chars, chars_blank, char_utf8_len, utf8_len, owned, opt_text,
};

verus! {

#[derive(Debug, Clone, Copy, PartialEq, Eq, Structural)]
pub enum TmdbError {
    Unavailable,
    InvalidResponse,
}

/// Whether a title is a film or a show, which decides how it is downloaded.
#[derive(Debug, Clone, Copy, PartialEq, Eq, Structural)]
pub enum MediaKind {
    Movie,
    Series,
}

pub open spec fn segment_text(kind: MediaKind) -> Seq<char> {
    match kind {
        MediaKind::Movie => "movie"@,
        MediaKind::Series => "tv"@,
    }
}

impl MediaKind {
    /// The TMDB path segment for this kind.
    pub fn segment(self) -> (r: &'static str)
        ensures
            r@ == segment_text(self),
    {
        match self {
            MediaKind::Movie => "movie",
            MediaKind::Series => "tv",
        }
    }
}

/// What a row should contain, independent of how TMDB spells it.
#[derive(Debug, Clone, PartialEq, Eq)]
pub enum RowQuery {
    /// What is popular across TMDB this week.
    Trending(MediaKind),
    /// Broadly popular titles.
    Popular(MediaKind),
    /// Highest rated of all time.
    TopRated(MediaKind),
    /// Titles filtered by original language, year, origin country or genre.
    Filtered {
        kind: MediaKind,
        language: Option<String>,
        year: Option<u16>,
        region: Option<String>,
        genre: Option<u16>,
    },
}

/// A row query with its text fields as character sequences.
pub enum RowQueryView {
    Trending(MediaKind),
    Popular(MediaKind),
    TopRated(MediaKind),
    Filtered {
        kind: MediaKind,
        language: Option<Seq<char>>,
        year: Option<u16>,
        region: Option<Seq<char>>,
        genre: Option<u16>,
    },
}

impl View for RowQuery {
    type V = RowQueryView;

    open spec fn view(&self) -> RowQueryView {
        match self {
            RowQuery::Trending(k) => RowQueryView::Trending(*k),
            RowQuery::Popular(k) => RowQueryView::Popular(*k),
            RowQuery::TopRated(k) => RowQueryView::TopRated(*k),
            RowQuery::Filtered { kind, language, year, region, genre } => RowQueryView::Filtered {
                kind: *kind,
                language: opt_text(*language),
                year: *year,
                region: opt_text(*region),
                genre: *genre,
            },
        }
    }
}

pub open spec fn query_kind(q: RowQueryView) -> MediaKind {
    match q {
        RowQueryView::Trending(k) => k,
        RowQueryView::Popular(k) => k,
        RowQueryView::TopRated(k) => k,
        RowQueryView::Filtered { kind, .. } => kind,
    }
}

impl RowQuery {
    /// Which kind of title this row returns.
    pub fn kind(&self) -> (r: MediaKind)
        ensures
            r == query_kind(self@),
    {
        match self {
            RowQuery::Trending(kind) => *kind,
            RowQuery::Popular(kind) => *kind,
            RowQuery::TopRated(kind) => *kind,
            RowQuery::Filtered { kind, .. } => *kind,
        }
    }
}

pub open spec fn api_root() -> Seq<char> {
    "https://api.themoviedb.org/3"@
}

pub open spec fn language_part(language: Option<Seq<char>>) -> Seq<char> {
    match language {
        Some(l) => "&with_original_language="@ + l,
        None => Seq::<char>::empty(),
    }
}

pub open spec fn year_part(kind: MediaKind, year: Option<u16>) -> Seq<char> {
    match year {
        Some(y) => "&"@ + match kind {
            MediaKind::Movie => "primary_release_year"@,
            MediaKind::Series => "first_air_date_year"@,
        } + "="@ + dec_string(y as nat),
        None => Seq::<char>::empty(),
    }
}

pub open spec fn region_part(region: Option<Seq<char>>) -> Seq<char> {
    match region {
        Some(r) => "&with_origin_country="@ + r,
        None => Seq::<char>::empty(),
    }
}

pub open spec fn genre_part(genre: Option<u16>) -> Seq<char> {
    match genre {
        Some(g) => "&with_genres="@ + dec_string(g as nat),
        None => Seq::<char>::empty(),
    }
}

/// The request URL for a row.
pub open spec fn row_url_text(q: RowQueryView) -> Seq<char> {
    match q {
        RowQueryView::Trending(k) => api_root() + "/trending/"@ + segment_text(k) + "/week"@,
        RowQueryView::Popular(k) => api_root() + "/"@ + segment_text(k) + "/popular"@,
        RowQueryView::TopRated(k) => api_root() + "/"@ + segment_text(k) + "/top_rated"@,
        RowQueryView::Filtered { kind, language, year, region, genre } => api_root()
            + "/discover/"@ + segment_text(kind)
            + "?include_adult=false&sort_by=popularity.desc&vote_count.gte=10"@ + language_part(
            language,
        ) + year_part(kind, year) + region_part(region) + genre_part(genre),
    }
}

fn push_language(url: &mut String, language: &Option<String>)
    ensures
        final(url)@ == old(url)@ + language_part(opt_text(*language)),
{
    if let Some(language) = language {
        push_str(url, "&with_original_language=");
        push_str(url, language.as_str());
    } else {
        assert(url@ =~= old(url)@ + Seq::<char>::empty());
    }
}

fn push_year(url: &mut String, kind: MediaKind, year: Option<u16>)
    ensures
        final(url)@ == old(url)@ + year_part(kind, year),
{
    if let Some(year) = year {
        push_str(url, "&");
        match kind {
            MediaKind::Movie => push_str(url, "primary_release_year"),
            MediaKind::Series => push_str(url, "first_air_date_year"),
        }
        push_str(url, "=");
        let digits = dec_digits(year as u64);
        push_chars(url, digits.as_slice());
        assert(url@ =~= old(url)@ + year_part(kind, Some(year)));
    } else {
        assert(url@ =~= old(url)@ + Seq::<char>::empty());
    }
}

fn push_region(url: &mut String, region: &Option<String>)
    ensures
        final(url)@ == old(url)@ + region_part(opt_text(*region)),
{
    if let Some(region) = region {
        push_str(url, "&with_origin_country=");
        push_str(url, region.as_str());
    } else {
        assert(url@ =~= old(url)@ + Seq::<char>::empty());
    }
}

fn push_genre(url: &mut String, genre: Option<u16>)
    ensures
        final(url)@ == old(url)@ + genre_part(genre),
{
    if let Some(genre) = genre {
        push_str(url, "&with_genres=");
        let digits = dec_digits(genre as u64);
        push_chars(url, digits.as_slice());
    } else {
        assert(url@ =~= old(url)@ + Seq::<char>::empty());
    }
}

/// The TMDB URL that lists a row's titles.
pub fn row_url(query: &RowQuery) -> (r: String)
    ensures
        r@ == row_url_text(query@),
{
    let mut url = String::new();
    push_str(&mut url, "https://api.themoviedb.org/3");
    match query {
        RowQuery::Trending(kind) => {
            push_str(&mut url, "/trending/");
            push_str(&mut url, kind.segment());
            push_str(&mut url, "/week");
        },
        RowQuery::Popular(kind) => {
            push_str(&mut url, "/");
            push_str(&mut url, kind.segment());
            push_str(&mut url, "/popular");
        },
        RowQuery::TopRated(kind) => {
            push_str(&mut url, "/");
            push_str(&mut url, kind.segment());
            push_str(&mut url, "/top_rated");
        },
        RowQuery::Filtered { kind, language, year, region, genre } => {
            push_str(&mut url, "/discover/");
            push_str(&mut url, kind.segment());
            push_str(&mut url, "?include_adult=false&sort_by=popularity.desc&vote_count.gte=10");
            push_language(&mut url, language);
            push_year(&mut url, *kind, *year);
            push_region(&mut url, region);
            push_genre(&mut url, *genre);
        },
    }
    url
}

/// One byte of a query value: unreserved characters stay, a space becomes `+`,
/// anything else becomes `%XX` in upper-case hex.
pub open spec fn encoded_byte(b: u8) -> Seq<char> {
    if (0x41 <= b && b <= 0x5A) || (0x61 <= b && b <= 0x7A) || (0x30 <= b && b <= 0x39) || b
        == 0x2D || b == 0x5F || b == 0x2E || b == 0x7E {
        seq![b as char]
    } else if b == 0x20 {
        seq!['+']
    } else {
        seq!['%', hex_digit(b / 16), hex_digit(b % 16)]
    }
}

pub open spec fn hex_digit(d: u8) -> char {
    if d < 10 {
        ((d + 48) as u8) as char
    } else {
        ((d + 55) as u8) as char
    }
}

/// The percent-encoding of a byte string.
pub open spec fn url_encoded(bytes: Seq<u8>) -> Seq<char>
    decreases bytes.len(),
{
    if bytes.len() == 0 {
        Seq::<char>::empty()
    } else {
        url_encoded(bytes.drop_last()) + encoded_byte(bytes.last())
    }
}

fn hex_char(d: u8) -> (c: char)
    requires
        d < 16,
    ensures
        c == hex_digit(d),
{
    if d < 10 {
        (d + 48) as char
    } else {
        (d + 55) as char
    }
}

/// Percent-encode a query value for a URL, byte by byte of its UTF-8 form.
pub fn urlencoding(value: &str) -> (r: String)
    ensures
        r@ == url_encoded(value.spec_bytes()),
{
    let bytes = value.as_bytes();
    let mut out = String::new();
    let mut i: usize = 0;
    while i < bytes.len()
        invariant
            i <= bytes@.len(),
            bytes@ == value.spec_bytes(),
            out@ == url_encoded(bytes@.subrange(0, i as int)),
        decreases bytes@.len() - i,
    {
        let b = bytes[i];
        let ghost before = out@;
        if (0x41 <= b && b <= 0x5A) || (0x61 <= b && b <= 0x7A) || (0x30 <= b && b <= 0x39) || b
            == 0x2D || b == 0x5F || b == 0x2E || b == 0x7E {
            push_char(&mut out, b as char);
        } else if b == 0x20 {
            push_char(&mut out, '+');
        } else {
            push_char(&mut out, '%');
            push_char(&mut out, hex_char(b / 16));
            push_char(&mut out, hex_char(b % 16));
        }
        proof {
            assert(bytes@.subrange(0, i + 1).drop_last() =~= bytes@.subrange(0, i as int));
            assert(out@ =~= before + encoded_byte(b));
        }
        i = i + 1;
    }
    assert(bytes@.subrange(0, bytes@.len() as int) =~= bytes@);
    out
}

/// The search URL for one kind of title: the page is clamped to `1..=500`.
pub open spec fn search_url_text(kind: MediaKind, query: Seq<u8>, page: u32) -> Seq<char> {
    let clamped: nat = if page < 1 {
        1
    } else if page > 500 {
        500
    } else {
        page as nat
    };
    api_root() + "/search/"@ + segment_text(kind) + "?query="@ + url_encoded(query) + "&page="@
        + dec_string(clamped) + "&include_adult=false"@
}

/// The TMDB search URL for one kind of title.
pub fn search_url(kind: MediaKind, query: &str, page: u32) -> (r: String)
    ensures
        r@ == search_url_text(kind, query.spec_bytes(), page),
{
    let clamped: u32 = if page < 1 {
        1
    } else if page > 500 {
        500
    } else {
        page
    };
    let mut url = String::new();
    push_str(&mut url, "https://api.themoviedb.org/3");
    push_str(&mut url, "/search/");
    push_str(&mut url, kind.segment());
    push_str(&mut url, "?query=");
    let encoded = urlencoding(query);
    push_str(&mut url, encoded.as_str());
    push_str(&mut url, "&page=");
    let digits = dec_digits(clamped as u64);
    push_chars(&mut url, digits.as_slice());
    push_str(&mut url, "&include_adult=false");
    assert(url@ =~= search_url_text(kind, query.spec_bytes(), page));
    url
}

/// The configured token with surrounding whitespace removed, or `None` when
/// there is none or it is blank: without it no TMDB client is built.
pub fn usable_token(token: Option<String>) -> (r: Option<String>)
    ensures
        match token {
            None => r is None,
            Some(t) => if trim(t@).len() == 0 {
                r is None
            } else {
                r matches Some(u) && u@ == trim(t@)
            },
        },
{
    match token {
        None => None,
        Some(t) => {
            let chars = chars_of(t.as_str());
            if chars_blank(chars.as_slice()) {
                None
            } else {
                let trimmed = trim_chars(chars.as_slice());
                Some(string_of(trimmed.as_slice()))
            }
        },
    }
}

pub open spec fn indian(year: Option<u16>, kind: MediaKind) -> RowQueryView {
    RowQueryView::Filtered {
        kind,
        language: Some("hi"@),
        year,
        region: None,
        genre: None,
    }
}

pub open spec fn genre_row(id: u16) -> RowQueryView {
    RowQueryView::Filtered {
        kind: MediaKind::Movie,
        language: None,
        year: None,
        region: None,
        genre: Some(id),
    }
}

/// The standard browse rows: key, heading and query of each, in display order.
pub open spec fn default_rows_text(year: u16) -> Seq<(Seq<char>, Seq<char>, RowQueryView)> {
    seq![
        ("trending"@, "Trending This Week"@, RowQueryView::Trending(MediaKind::Movie)),
        ("indian-latest"@, "Latest Indian · "@ + dec_string(year as nat), indian(Some(year), MediaKind::Movie)),
        ("trending-tv"@, "Trending Shows"@, RowQueryView::Trending(MediaKind::Series)),
        ("popular"@, "Popular Now"@, RowQueryView::Popular(MediaKind::Movie)),
        ("indian-tv"@, "Indian Shows"@, indian(None, MediaKind::Series)),
        ("action"@, "Action"@, genre_row(28)),
        ("horror"@, "Horror"@, genre_row(27)),
        ("comedy"@, "Comedy"@, genre_row(35)),
        ("indian-acclaimed"@, "Acclaimed Indian Cinema"@, indian(None, MediaKind::Movie)),
        ("top-rated"@, "Highest Rated of All Time"@, RowQueryView::TopRated(MediaKind::Movie)),
    ]
}

/// The row as character sequences.
pub open spec fn row_view(row: (String, String, RowQuery)) -> (Seq<char>, Seq<char>, RowQueryView) {
    (row.0@, row.1@, row.2@)
}

fn row(id: &str, title: String, query: RowQuery) -> (r: (String, String, RowQuery))
    ensures
        r.0@ == id@,
        r.1 == title,
        r.2 == query,
{
    (crate::text::owned(id), title, query)
}

fn indian_query(year: Option<u16>, kind: MediaKind) -> (r: RowQuery)
    ensures
        r@ == indian(year, kind),
{
    RowQuery::Filtered {
        kind,
        language: Some(crate::text::owned("hi")),
        year,
        region: None,
        genre: None,
    }
}

fn genre_query(id: u16) -> (r: RowQuery)
    ensures
        r@ == genre_row(id),
{
    RowQuery::Filtered { kind: MediaKind::Movie, language: None, year: None, region: None, genre: Some(id) }
}

/// Build the standard set of browse rows. The year is passed in so the labels
/// stay in step with the query.
pub fn default_rows(current_year: u16) -> (r: Vec<(String, String, RowQuery)>)
    ensures
        r@.map_values(|x: (String, String, RowQuery)| row_view(x)) == default_rows_text(
            current_year,
        ),
{
    let mut rows: Vec<(String, String, RowQuery)> = Vec::new();
    rows.push(row("trending", crate::text::owned("Trending This Week"), RowQuery::Trending(MediaKind::Movie)));
    let mut latest = crate::text::owned("Latest Indian · ");
    let digits = dec_digits(current_year as u64);
    push_chars(&mut latest, digits.as_slice());
    rows.push(row("indian-latest", latest, indian_query(Some(current_year), MediaKind::Movie)));
    rows.push(row("trending-tv", crate::text::owned("Trending Shows"), RowQuery::Trending(MediaKind::Series)));
    rows.push(row("popular", crate::text::owned("Popular Now"), RowQuery::Popular(MediaKind::Movie)));
    rows.push(row("indian-tv", crate::text::owned("Indian Shows"), indian_query(None, MediaKind::Series)));
    rows.push(row("action", crate::text::owned("Action"), genre_query(28)));
    rows.push(row("horror", crate::text::owned("Horror"), genre_query(27)));
    rows.push(row("comedy", crate::text::owned("Comedy"), genre_query(35)));
    rows.push(row("indian-acclaimed", crate::text::owned("Acclaimed Indian Cinema"), indian_query(None, MediaKind::Movie)));
    rows.push(row("top-rated", crate::text::owned("Highest Rated of All Time"), RowQuery::TopRated(MediaKind::Movie)));
    assert(rows@.map_values(|x: (String, String, RowQuery)| row_view(x)) =~= default_rows_text(
        current_year,
    ));
    rows
}

// ---------------------------------------------------------------------------
// Titles in a TMDB list answer.

/// A title as TMDB lists it, with artwork ready for the browse grid. Its
/// rating is a fraction, which the caller reads from the entry at `position`
/// in the answer's results.
#[derive(Debug, Clone, PartialEq, Eq)]
pub struct TitleDraft {
    pub position: usize,
    pub tmdb_id: i64,
    pub title: String,
    pub year: Option<String>,
    pub overview: Option<String>,
    pub poster_url: Option<String>,
    pub backdrop_url: Option<String>,
    pub language: Option<String>,
    pub media_kind: MediaKind,
}

/// A title draft with its text as character sequences.
pub struct TitleView {
    pub position: int,
    pub tmdb_id: i64,
    pub title: Seq<char>,
    pub year: Option<Seq<char>>,
    pub overview: Option<Seq<char>>,
    pub poster_url: Option<Seq<char>>,
    pub backdrop_url: Option<Seq<char>>,
    pub language: Option<Seq<char>>,
    pub media_kind: MediaKind,
}

impl View for TitleDraft {
    type V = TitleView;

    open spec fn view(&self) -> TitleView {
        TitleView {
            position: self.position as int,
            tmdb_id: self.tmdb_id,
            title: self.title@,
            year: opt_text(self.year),
            overview: opt_text(self.overview),
            poster_url: opt_text(self.poster_url),
            backdrop_url: opt_text(self.backdrop_url),
            language: opt_text(self.language),
            media_kind: self.media_kind,
        }
    }
}

/// The text under `first`, or under `second` when `first` is absent (not when
/// it holds something other than text).
pub open spec fn either_text(item: JsonValue, first: Seq<char>, second: Seq<char>) -> Option<
    Seq<char>,
> {
    match field(item, first) {
        Some(_) => text_field(item, first),
        None => text_field(item, second),
    }
}

/// The entry's numeric id.
pub open spec fn entry_id(item: JsonValue) -> Option<i64> {
    match field(item, "id"@) {
        Some(v) => signed_of(v),
        None => None,
    }
}

/// An entry is offered when it has a title, a poster and a numeric id; a card
/// without artwork looks broken, so it is not offered at all.
pub open spec fn offered(item: JsonValue) -> bool {
    &&& either_text(item, "title"@, "name"@) is Some
    &&& text_field(item, "poster_path"@) is Some
    &&& entry_id(item) is Some
}

/// The first `n` bytes of a text, when a character ends there.
pub open spec fn byte_prefix(s: Seq<char>, n: nat) -> Option<Seq<char>> {
    if exists|k: int| 0 <= k <= s.len() && byte_len(s.take(k)) == n {
        Some(s.take(choose|k: int| 0 <= k <= s.len() && byte_len(s.take(k)) == n))
    } else {
        None
    }
}

/// The release date of an entry: films carry `release_date`, shows
/// `first_air_date`.
pub open spec fn release_date(item: JsonValue) -> Option<Seq<char>> {
    either_text(item, "release_date"@, "first_air_date"@)
}

/// The year of a release date: its first four bytes, when it has that many.
pub open spec fn year_of(date: Option<Seq<char>>) -> Option<Seq<char>> {
    match date {
        Some(d) => if byte_len(d) >= 4 {
            byte_prefix(d, 4)
        } else {
            None
        },
        None => None,
    }
}

/// A date of four bytes or more has a character ending at its fourth byte.
pub open spec fn date_cuts_cleanly(item: JsonValue) -> bool {
    match release_date(item) {
        Some(d) => byte_len(d) < 4 || byte_prefix(d, 4) is Some,
        None => true,
    }
}

/// The results of a list answer.
pub open spec fn results_of(payload: JsonValue) -> Option<Seq<JsonValue>> {
    match field(payload, "results"@) {
        Some(v) => items_of(v),
        None => None,
    }
}

/// Every offered entry's date can be cut at its year.
pub open spec fn years_readable(payload: JsonValue) -> bool {
    match results_of(payload) {
        Some(rs) => forall|i: int| 0 <= i < rs.len() && offered(#[trigger] rs[i]) ==> date_cuts_cleanly(rs[i]),
        None => true,
    }
}

pub open spec fn image_url(size: Seq<char>, path: Seq<char>) -> Seq<char> {
    "https://image.tmdb.org/t/p/"@ + size + path
}

/// The title an offered entry at `position` becomes.
pub open spec fn title_view(item: JsonValue, position: int, kind: MediaKind) -> TitleView {
    TitleView {
        position,
        tmdb_id: entry_id(item)->0,
        title: either_text(item, "title"@, "name"@)->0,
        year: year_of(release_date(item)),
        overview: match text_field(item, "overview"@) {
            Some(t) => if t.len() > 0 {
                Some(t)
            } else {
                None
            },
            None => None,
        },
        poster_url: Some(image_url("w500"@, text_field(item, "poster_path"@)->0)),
        backdrop_url: match text_field(item, "backdrop_path"@) {
            Some(p) => Some(image_url("w1280"@, p)),
            None => None,
        },
        language: text_field(item, "original_language"@),
        media_kind: kind,
    }
}

/// The titles of the offered entries among `rs`, in order.
pub open spec fn titles_in(rs: Seq<JsonValue>, kind: MediaKind) -> Seq<TitleView>
    decreases rs.len(),
{
    if rs.len() == 0 {
        Seq::empty()
    } else {
        let rest = titles_in(rs.drop_last(), kind);
        if offered(rs.last()) {
            rest.push(title_view(rs.last(), rs.len() - 1, kind))
        } else {
            rest
        }
    }
}

pub open spec fn title_views(ds: Seq<TitleDraft>) -> Seq<TitleView> {
    ds.map_values(|d: TitleDraft| d@)
}

proof fn lemma_byte_len_take_step(s: Seq<char>, k: int)
    requires
        0 <= k < s.len(),
    ensures
        byte_len(s.take(k + 1)) == byte_len(s.take(k)) + utf8_len(s[k]),
{
    assert(s.take(k + 1).drop_last() =~= s.take(k));
}

proof fn lemma_byte_len_take_grows(s: Seq<char>, j: int, k: int)
    requires
        0 <= j <= k <= s.len(),
    ensures
        byte_len(s.take(j)) + (k - j) <= byte_len(s.take(k)),
    decreases k - j,
{
    if j < k {
        lemma_byte_len_take_grows(s, j, k - 1);
        lemma_byte_len_take_step(s, k - 1);
    }
}

/// The number of characters that make up the first `n` bytes, when a
/// character ends there.
fn chars_in_bytes(v: &[char], n: u128) -> (r: Option<usize>)
    requires
        n <= 4,
    ensures
        match r {
            Some(k) => k <= v@.len() && byte_len(v@.take(k as int)) == n,
            None => !(exists|k: int| 0 <= k <= v@.len() && byte_len(v@.take(k)) == n),
        },
{
    let mut count: u128 = 0;
    let mut i: usize = 0;
    assert(v@.take(0) =~= Seq::<char>::empty());
    while i < v.len() && count < n
        invariant
            n <= 4,
            i <= v@.len(),
            count == byte_len(v@.take(i as int)),
            forall|j: int| 0 <= j < i ==> byte_len(v@.take(j)) < n,
        decreases v@.len() - i,
    {
        proof {
            lemma_byte_len_take_step(v@, i as int);
        }
        assert(count < n);
        count = count + char_utf8_len(v[i]);
        i = i + 1;
    }
    if count == n {
        Some(i)
    } else {
        proof {
            assert forall|k: int| 0 <= k <= v@.len() implies byte_len(v@.take(k)) != n by {
                if k < i {
                } else if k > i {
                    lemma_byte_len_take_grows(v@, i as int, k);
                    if count < n {
                        assert(i == v@.len());
                    }
                }
            }
        }
        None
    }
}

/// The year of a release date, or nothing when it is shorter than four bytes.
fn year_text(date: &str) -> (r: Option<String>)
    requires
        byte_len(date@) < 4 || byte_prefix(date@, 4) is Some,
    ensures
        opt_text(r) == year_of(Some(date@)),
{
    let chars = chars_of(date);
    let total = crate::text::byte_len_of(chars.as_slice());
    if total < 4 {
        return None;
    }
    match chars_in_bytes(chars.as_slice(), 4) {
        Some(k) => {
            proof {
                let c = choose|j: int| 0 <= j <= date@.len() && byte_len(date@.take(j)) == 4;
                if c < k {
                    lemma_byte_len_take_grows(date@, c, k as int);
                } else if c > k {
                    lemma_byte_len_take_grows(date@, k as int, c);
                }
            }
            Some(string_of(crate::text::slice_chars(chars.as_slice(), 0, k).as_slice()))
        },
        None => None,
    }
}

fn text_either<'a>(item: &'a JsonValue, first: &str, second: &str) -> (r: Option<&'a str>)
    ensures
        match r {
            Some(t) => either_text(*item, first@, second@) == Some(t@),
            None => either_text(*item, first@, second@) is None,
        },
{
    match get(item, first) {
        Some(_) => get_text(item, first),
        None => get_text(item, second),
    }
}

fn image(size: &str, path: &str) -> (r: String)
    ensures
        r@ == image_url(size@, path@),
{
    let mut url = owned("https://image.tmdb.org/t/p/");
    push_str(&mut url, size);
    push_str(&mut url, path);
    url
}

/// The title an entry makes, if it is offered.
fn title_of(item: &JsonValue, position: usize, kind: MediaKind) -> (r: Option<TitleDraft>)
    requires
        offered(*item) ==> date_cuts_cleanly(*item),
    ensures
        match r {
            Some(d) => offered(*item) && d@ == title_view(*item, position as int, kind),
            None => !offered(*item),
        },
{
    let title = match text_either(item, "title", "name") {
        Some(t) => t,
        None => return None,
    };
    let poster = match get_text(item, "poster_path") {
        Some(p) => p,
        None => return None,
    };
    let tmdb_id = match get(item, "id") {
        Some(v) => match as_signed(v) {
            Some(n) => n,
            None => return None,
        },
        None => return None,
    };
    let year = match text_either(item, "release_date", "first_air_date") {
        Some(d) => year_text(d),
        None => None,
    };
    let overview = match get_text(item, "overview") {
        Some(t) => if chars_of(t).len() > 0 {
            Some(owned(t))
        } else {
            None
        },
        None => None,
    };
    let backdrop_url = match get_text(item, "backdrop_path") {
        Some(p) => Some(image("w1280", p)),
        None => None,
    };
    let language = match get_text(item, "original_language") {
        Some(t) => Some(owned(t)),
        None => None,
    };
    Some(
        TitleDraft {
            position,
            tmdb_id,
            title: owned(title),
            year,
            overview,
            poster_url: Some(image("w500", poster)),
            backdrop_url,
            language,
            media_kind: kind,
        },
    )
}

/// The titles of a TMDB list answer, in order; entries without a title, a
/// poster or an id are dropped, and an answer without a results array has none.
pub fn parse_titles(payload: &JsonValue, kind: MediaKind) -> (r: Vec<TitleDraft>)
    requires
        years_readable(*payload),
    ensures
        title_views(r@) == match results_of(*payload) {
            Some(rs) => titles_in(rs, kind),
            None => Seq::empty(),
        },
{
    let results = match get(payload, "results") {
        Some(v) => match as_items(v) {
            Some(items) => items,
            None => return Vec::new(),
        },
        None => return Vec::new(),
    };
    let ghost rs = results@;
    assert(results_of(*payload) == Some(rs));
    assert forall|j: int| 0 <= j < rs.len() && offered(#[trigger] rs[j]) implies date_cuts_cleanly(
        rs[j],
    ) by {
        let all = results_of(*payload)->0;
        assert(all == rs);
        assert(offered(all[j]) ==> date_cuts_cleanly(all[j]));
    }
    let mut out: Vec<TitleDraft> = Vec::new();
    let mut i: usize = 0;
    while i < results.len()
        invariant
            i <= rs.len(),
            rs == results@,
            forall|j: int| 0 <= j < rs.len() && offered(#[trigger] rs[j]) ==> date_cuts_cleanly(rs[j]),
            title_views(out@) == titles_in(rs.take(i as int), kind),
        decreases rs.len() - i,
    {
        proof {
            assert(rs.take(i + 1).drop_last() =~= rs.take(i as int));
            assert(rs.take(i + 1).last() == rs[i as int]);
        }
        match title_of(&results[i], i, kind) {
            Some(d) => {
                out.push(d);
                assert(title_views(out@) =~= titles_in(rs.take(i + 1), kind));
            },
            None => {
                assert(title_views(out@) =~= titles_in(rs.take(i + 1), kind));
            },
        }
        i = i + 1;
    }
    assert(rs.take(rs.len() as int) =~= rs);
    out
}

fn is_offered(item: &JsonValue) -> (r: bool)
    ensures
        r == offered(*item),
{
    text_either(item, "title", "name").is_some() && get_text(item, "poster_path").is_some()
        && match get(item, "id") {
        Some(v) => as_signed(v).is_some(),
        None => false,
    }
}

fn cuts_cleanly(item: &JsonValue) -> (r: bool)
    ensures
        r == date_cuts_cleanly(*item),
{
    match text_either(item, "release_date", "first_air_date") {
        Some(d) => {
            let chars = chars_of(d);
            let total = crate::text::byte_len_of(chars.as_slice());
            total < 4 || chars_in_bytes(chars.as_slice(), 4).is_some()
        },
        None => true,
    }
}

/// Whether every offered entry's release date can be cut at its year, as
/// `parse_titles` needs.
pub fn titles_readable(payload: &JsonValue) -> (r: bool)
    ensures
        r == years_readable(*payload),
{
    let results = match get(payload, "results") {
        Some(v) => match as_items(v) {
            Some(items) => items,
            None => return true,
        },
        None => return true,
    };
    let ghost rs = results@;
    assert(results_of(*payload) == Some(rs));
    let mut i: usize = 0;
    while i < results.len()
        invariant
            i <= rs.len(),
            rs == results@,
            results_of(*payload) == Some(rs),
            forall|j: int| 0 <= j < i && offered(#[trigger] rs[j]) ==> date_cuts_cleanly(rs[j]),
        decreases rs.len() - i,
    {
        if is_offered(&results[i]) && !cuts_cleanly(&results[i]) {
            proof {
                let all = results_of(*payload)->0;
                assert(all == rs);
                assert(0 <= i < all.len() && offered(all[i as int]) && !date_cuts_cleanly(all[i as int]));
                assert(!years_readable(*payload));
            }
            return false;
        }
        i = i + 1;
    }
    true
}

} // verus!

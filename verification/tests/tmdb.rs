use moviebox_tui::catalog::tmdb::{
    default_rows, parse_titles, row_url, search_url, titles_readable, urlencoding, usable_token,
    MediaKind, RowQuery,
};
use moviebox_tui::json::{JsonNumber, JsonValue};

fn object(members: Vec<(&str, JsonValue)>) -> JsonValue {
    JsonValue::Object(members.into_iter().map(|(k, v)| (k.to_string(), v)).collect())
}

fn text(value: &str) -> JsonValue {
    JsonValue::String(value.to_string())
}

fn number(value: u64) -> JsonValue {
    JsonValue::Number(JsonNumber::PosInt(value))
}

fn fraction() -> JsonValue {
    JsonValue::Number(JsonNumber::Float)
}

fn results(entries: Vec<JsonValue>) -> JsonValue {
    object(vec![("results", JsonValue::Array(entries))])
}

#[test]
fn filtered_rows_combine_language_and_year() {
    let url = row_url(&RowQuery::Filtered {
        kind: MediaKind::Movie,
        language: Some("hi".to_string()),
        year: Some(2026),
        region: None,
        genre: None,
    });
    assert!(url.contains("/discover/movie"));
    assert!(url.contains("with_original_language=hi"));
    assert!(url.contains("primary_release_year=2026"));
    assert!(url.contains("sort_by=popularity.desc"));
}

#[test]
fn shows_use_their_own_endpoint_and_year_field() {
    let url = row_url(&RowQuery::Filtered {
        kind: MediaKind::Series,
        language: None,
        year: Some(2026),
        region: None,
        genre: None,
    });
    assert!(url.contains("/discover/tv"));
    assert!(url.contains("first_air_date_year=2026"));
    assert!(!url.contains("primary_release_year"));
}

#[test]
fn trending_and_top_rated_follow_the_requested_kind() {
    assert!(row_url(&RowQuery::Trending(MediaKind::Series)).contains("/trending/tv/week"));
    assert!(row_url(&RowQuery::TopRated(MediaKind::Movie)).contains("/movie/top_rated"));
}

#[test]
fn genre_rows_filter_by_genre_id() {
    let url = row_url(&RowQuery::Filtered {
        kind: MediaKind::Movie,
        language: None,
        year: None,
        region: None,
        genre: Some(27),
    });
    assert!(url.contains("with_genres=27"));
}

#[test]
fn default_rows_track_the_given_year_and_include_shows() {
    let rows = default_rows(2026);
    let indian = rows
        .iter()
        .find(|(id, _, _)| id == "indian-latest")
        .expect("an Indian row");
    assert_eq!(indian.1, "Latest Indian · 2026");
    assert_eq!(
        indian.2,
        RowQuery::Filtered {
            kind: MediaKind::Movie,
            language: Some("hi".to_string()),
            year: Some(2026),
            region: None,
            genre: None,
        }
    );
    assert!(rows.iter().any(|(_, _, query)| query.kind() == MediaKind::Series));
    assert!(rows.iter().any(|(id, _, _)| id == "horror"));
}

#[test]
fn query_values_are_encoded() {
    assert_eq!(urlencoding("Come and See"), "Come+and+See");
    assert_eq!(urlencoding("Kabhi Khushi & Gham"), "Kabhi+Khushi+%26+Gham");
}

#[test]
fn non_ascii_query_values_are_encoded_byte_by_byte() {
    assert_eq!(urlencoding("é~"), "%C3%A9~");
}

#[test]
fn full_urls_are_exact() {
    assert_eq!(
        row_url(&RowQuery::Popular(MediaKind::Movie)),
        "https://api.themoviedb.org/3/movie/popular"
    );
    assert_eq!(
        row_url(&RowQuery::Filtered {
            kind: MediaKind::Series,
            language: Some("hi".to_string()),
            year: Some(2020),
            region: Some("IN".to_string()),
            genre: Some(35),
        }),
        "https://api.themoviedb.org/3/discover/tv?include_adult=false&sort_by=popularity.desc&vote_count.gte=10&with_original_language=hi&first_air_date_year=2020&with_origin_country=IN&with_genres=35"
    );
    assert_eq!(
        search_url(MediaKind::Series, "a b", 0),
        "https://api.themoviedb.org/3/search/tv?query=a+b&page=1&include_adult=false"
    );
    assert_eq!(
        search_url(MediaKind::Movie, "x", 900),
        "https://api.themoviedb.org/3/search/movie?query=x&page=500&include_adult=false"
    );
}

#[test]
fn blank_tokens_build_no_client() {
    assert_eq!(usable_token(None), None);
    assert_eq!(usable_token(Some("   ".to_string())), None);
    assert_eq!(usable_token(Some(" token ".to_string())), Some("token".to_string()));
}

#[test]
fn titles_are_parsed_with_artwork_and_year() {
    let payload = results(vec![object(vec![
        ("id", number(12345)),
        ("title", text("Joyland")),
        ("release_date", text("2022-11-18")),
        ("overview", text("A story.")),
        ("poster_path", text("/poster.jpg")),
        ("backdrop_path", text("/backdrop.jpg")),
        ("vote_average", fraction()),
        ("original_language", text("ur")),
    ])]);
    assert!(titles_readable(&payload));
    let titles = parse_titles(&payload, MediaKind::Movie);
    assert_eq!(titles.len(), 1);
    let title = &titles[0];
    assert_eq!(title.tmdb_id, 12345);
    assert_eq!(title.title, "Joyland");
    assert_eq!(title.year.as_deref(), Some("2022"));
    assert_eq!(title.poster_url.as_deref(), Some("https://image.tmdb.org/t/p/w500/poster.jpg"));
    assert_eq!(
        title.backdrop_url.as_deref(),
        Some("https://image.tmdb.org/t/p/w1280/backdrop.jpg")
    );
    assert_eq!(title.position, 0);
    assert_eq!(title.language.as_deref(), Some("ur"));
}

#[test]
fn entries_without_a_poster_are_dropped() {
    let payload = results(vec![
        object(vec![("id", number(1)), ("title", text("No Art")), ("vote_average", fraction())]),
        object(vec![
            ("id", number(2)),
            ("title", text("Has Art")),
            ("poster_path", text("/p.jpg")),
            ("vote_average", fraction()),
        ]),
    ]);
    let titles = parse_titles(&payload, MediaKind::Movie);
    assert_eq!(titles.len(), 1);
    assert_eq!(titles[0].title, "Has Art");
    assert_eq!(titles[0].position, 1);
}

#[test]
fn a_missing_results_array_yields_no_titles() {
    assert!(parse_titles(&object(vec![]), MediaKind::Movie).is_empty());
    assert!(parse_titles(&object(vec![("results", text("nonsense"))]), MediaKind::Movie).is_empty());
}

#[test]
fn shows_parse_their_air_date_as_the_year() {
    let payload = results(vec![object(vec![
        ("id", number(7)),
        ("name", text("Paatal Lok")),
        ("first_air_date", text("2020-05-15")),
        ("poster_path", text("/p.jpg")),
        ("vote_average", fraction()),
    ])]);
    let titles = parse_titles(&payload, MediaKind::Series);
    assert_eq!(titles[0].title, "Paatal Lok");
    assert_eq!(titles[0].year.as_deref(), Some("2020"));
    assert_eq!(titles[0].media_kind, MediaKind::Series);
}

#[test]
fn short_dates_and_blank_overviews_are_left_out() {
    let payload = results(vec![object(vec![
        ("id", number(3)),
        ("title", text("Short")),
        ("release_date", text("99")),
        ("overview", text("")),
        ("poster_path", text("/s.jpg")),
    ])]);
    let titles = parse_titles(&payload, MediaKind::Movie);
    assert_eq!(titles[0].year, None);
    assert_eq!(titles[0].overview, None);
    assert_eq!(titles[0].backdrop_url, None);
}

#[test]
fn a_date_that_cannot_be_cut_at_four_bytes_is_reported() {
    let payload = results(vec![object(vec![
        ("id", number(4)),
        ("title", text("Odd")),
        ("release_date", text("202\u{e9}-01-01")),
        ("poster_path", text("/o.jpg")),
    ])]);
    assert!(!titles_readable(&payload));
}

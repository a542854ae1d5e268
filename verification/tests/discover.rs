use moviebox_tui::catalog::tmdb::{MediaKind, RowQuery};
use moviebox_tui::server::routes::discover::{filter_query, kept_rows, search_term, DiscoverError};

#[test]
fn search_terms_are_trimmed_and_bounded() {
    assert_eq!(search_term("  Joyland ").unwrap(), "Joyland");
    assert_eq!(search_term(" a "), Err(DiscoverError::InvalidQuery));
    assert_eq!(search_term(&"x".repeat(101)), Err(DiscoverError::InvalidQuery));
    assert_eq!(search_term(&"x".repeat(100)).unwrap().len(), 100);
}

#[test]
fn filters_check_kind_language_and_year_in_turn() {
    let (query, label) = filter_query(Some("series"), Some(" HI "), Some(2026)).unwrap();
    assert_eq!(
        query,
        RowQuery::Filtered {
            kind: MediaKind::Series,
            language: Some("hi".to_string()),
            year: Some(2026),
            region: None,
            genre: None,
        }
    );
    assert_eq!(label, "2026");
    let (query, label) = filter_query(None, Some("  "), None).unwrap();
    assert_eq!(query.kind(), MediaKind::Movie);
    assert_eq!(label, "All years");
    assert_eq!(filter_query(Some("anime"), Some("x1"), Some(1)), Err(DiscoverError::InvalidKind));
    assert_eq!(filter_query(Some("movie"), Some("hindi"), Some(1)), Err(DiscoverError::InvalidLanguage));
    assert_eq!(filter_query(Some("movie"), Some("h1"), None), Err(DiscoverError::InvalidLanguage));
    assert_eq!(filter_query(Some("movie"), None, Some(1899)), Err(DiscoverError::InvalidYear));
}

#[test]
fn failed_and_empty_rows_are_dropped() {
    assert_eq!(kept_rows(&vec![Some(3), None, Some(0), Some(1)]).unwrap(), vec![0, 3]);
    assert_eq!(kept_rows(&vec![None, Some(0)]), Err(DiscoverError::Unavailable));
}

#[test]
fn refusals_carry_their_status_code_and_message() {
    assert_eq!(DiscoverError::InvalidKind.status(), 400);
    assert_eq!(DiscoverError::Unavailable.status(), 503);
    assert_eq!(DiscoverError::InvalidYear.code(), "invalid_year");
    assert_eq!(DiscoverError::Unavailable.code(), "discovery_unavailable");
    assert_eq!(DiscoverError::InvalidKind.message(), "The kind must be movie or series.");
    assert_eq!(
        DiscoverError::InvalidQuery.message(),
        "The search query must be between 2 and 100 characters."
    );
}

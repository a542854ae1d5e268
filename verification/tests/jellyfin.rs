use moviebox_tui::server::library::jellyfin::{
    check_response, find_step, matching_item, FindStep, JellyfinClient, JellyfinEntry, JellyfinError, JellyfinItem,
    JellyfinStatus,
};
use moviebox_tui::server::library::subsync::{
    aligned_path, keep_aligned, FfsubsyncSyncer, NoopSubtitleSyncer, SubtitleSyncer,
};

fn entry(id: &str, name: &str, year: Option<i32>) -> JellyfinEntry {
    JellyfinEntry { id: id.to_string(), name: name.to_string(), production_year: year }
}

#[test]
fn items_match_by_name_and_year() {
    let entries = vec![entry("a", "Cocktail", Some(2012)), entry("b", "COCKTAIL 2", Some(2026)), entry("c", "Cocktail 2", None)];
    assert_eq!(matching_item(&entries, "cocktail 2", Some("2026")), Some(JellyfinItem { id: "b".to_string() }));
    assert_eq!(matching_item(&entries, "cocktail 2", None), Some(JellyfinItem { id: "b".to_string() }));
    assert_eq!(matching_item(&entries, "Cocktail 2", Some("soon")), Some(JellyfinItem { id: "c".to_string() }));
    assert_eq!(matching_item(&entries, "Cocktail 2", Some("1999")), None);
    assert_eq!(matching_item(&entries, "Cocktail", Some("-2012")), None);
}

#[test]
fn searches_repeat_until_found_or_out_of_attempts() {
    let entries = vec![entry("x", "Other", None)];
    assert_eq!(find_step(0, 3, &entries, "Title", None), FindStep::Retry);
    assert_eq!(find_step(2, 3, &entries, "Title", None), FindStep::NotFound);
    assert_eq!(
        find_step(2, 3, &entries, "other", None),
        FindStep::Found(JellyfinItem { id: "x".to_string() })
    );
    assert_eq!(check_response(Some(204)), Ok(()));
    assert_eq!(check_response(Some(500)), Err(JellyfinError::Unavailable));
    assert_eq!(check_response(None), Err(JellyfinError::Unavailable));
}

#[test]
fn links_and_searches_are_built_under_the_base_url() {
    let client = JellyfinClient::new("http://jellyfin:8096/".to_string(), Some("key".to_string()));
    assert_eq!(client.max_attempts, 12);
    assert_eq!(client.deep_link("abc").unwrap(), "http://jellyfin:8096/web/index.html#!/details?id=abc");
    assert_eq!(
        client.items_url("Cocktail 2").unwrap(),
        "http://jellyfin:8096/Items?searchTerm=Cocktail+2&Recursive=true"
    );
    assert_eq!(
        client.ready_status(Some(JellyfinItem { id: "abc".to_string() })).unwrap().url.as_deref(),
        Some("http://jellyfin:8096/web/index.html#!/details?id=abc")
    );
    assert_eq!(client.ready_status(None).unwrap().status, JellyfinStatus::Unavailable);
    let keyless = JellyfinClient::with_polling("http://jellyfin:8096/".to_string(), Some("bad\nkey".to_string()), 10, 0);
    assert_eq!(keyless.api_key, None);
    assert_eq!(keyless.max_attempts, 1);
    assert_eq!(keyless.ready_status(None).unwrap().status, JellyfinStatus::ScanPending);
    let broken = JellyfinClient::new("not a url".to_string(), None);
    assert_eq!(broken.endpoint("Items").unwrap_err(), JellyfinError::InvalidBaseUrl);
}

#[test]
fn the_noop_syncer_never_claims_to_have_changed_anything() {
    assert!(!NoopSubtitleSyncer.sync("/tmp/v.mkv", "/tmp/s.srt"));
}

#[test]
fn ffsubsync_writes_a_sibling_that_replaces_only_when_non_empty() {
    let syncer = FfsubsyncSyncer::with_program("definitely-not-installed-anywhere".to_string());
    let (program, args) = syncer.command("/tmp/video.mkv", "/tmp/subtitle.srt");
    assert_eq!(program, "definitely-not-installed-anywhere");
    assert_eq!(args, vec!["/tmp/video.mkv", "-i", "/tmp/subtitle.srt", "-o", "/tmp/subtitle.srt.synced"]);
    assert_eq!(FfsubsyncSyncer::default().program, "ffsubsync");
    assert_eq!(aligned_path("movie.srt"), "movie.srt.synced");
    assert!(keep_aligned(true, Some(10)));
    assert!(!keep_aligned(true, Some(0)));
    assert!(!keep_aligned(true, None));
    assert!(!keep_aligned(false, Some(10)));
}

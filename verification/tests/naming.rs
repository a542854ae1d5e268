use moviebox_tui::server::library::components::{
    collapse_double_dots, display_title, ensure_non_reserved, episode_stem, filename_stem_byte_limit,
    normalize_extension, sanitize_component, sanitize_language, sanitize_year, truncate_component,
    truncate_to_utf8_bytes,
};
use moviebox_tui::server::jobs::model::JobId;
use moviebox_tui::server::library::naming::{
    normalize_subtitle_extension, normalize_video_extension, LibraryError, LibraryNamer, MediaIdentity,
    TargetFacts,
};
use moviebox_tui::server::security::path::PathSecurityError;

fn chars(s: &str) -> Vec<char> {
    s.chars().collect()
}

fn text(v: Vec<char>) -> String {
    v.into_iter().collect()
}

#[test]
fn components_lose_separators_and_controls() {
    assert_eq!(text(sanitize_component(&chars("AC/DC: Live?"))), "AC DC Live");
    assert_eq!(text(sanitize_component(&chars("  ..Hidden..  "))), "Hidden");
    assert_eq!(text(sanitize_component(&chars("a\u{200B}b\tc"))), "abc");
    assert_eq!(text(sanitize_component(&chars("a \u{3000} b"))), "a b");
    assert_eq!(text(sanitize_component(&chars("..."))), "Untitled");
    assert_eq!(text(sanitize_component(&chars("Wait... What"))), "Wait. What");
}

#[test]
fn reserved_device_names_get_an_underscore() {
    assert_eq!(text(ensure_non_reserved(&chars("CON"))), "CON_");
    assert_eq!(text(ensure_non_reserved(&chars("com1.txt"))), "com1_.txt");
    assert_eq!(text(ensure_non_reserved(&chars("COM10"))), "COM10");
    assert_eq!(text(ensure_non_reserved(&chars(""))), "Untitled");
    assert_eq!(text(sanitize_component(&chars("nul"))), "nul_");
}

#[test]
fn years_are_the_first_run_of_four_digits() {
    assert_eq!(sanitize_year(&chars("2026-01-01")).map(text), Some("2026".to_string()));
    assert_eq!(sanitize_year(&chars("c. 19 99")), None);
    assert_eq!(sanitize_year(&chars("x12345")).map(text), Some("1234".to_string()));
}

#[test]
fn truncation_respects_bytes_and_graphemes() {
    assert_eq!(text(truncate_to_utf8_bytes(&chars("héllo"), 2)), "h");
    assert_eq!(text(truncate_component(&chars("abc def"), 4, 255)), "abc");
    assert_eq!(text(truncate_component(&chars("ééé"), 10, 4)), "éé");
    assert_eq!(text(collapse_double_dots(&chars("..a...b.."))), "a.b");
}

#[test]
fn titles_and_episodes_are_named() {
    assert_eq!(text(display_title(&chars("Cocktail 2"), Some(&chars("2026")), 200)), "Cocktail 2 (2026)");
    assert_eq!(text(display_title(&chars("Cocktail 2"), None, 200)), "Cocktail 2");
    assert_eq!(
        text(episode_stem(&chars("Severance (2022)"), 2, 3, Some(&chars("Who Is Alive?")), 200)),
        "Severance (2022) S02E03 Who Is Alive"
    );
    assert_eq!(text(episode_stem(&chars("Show"), 1, 12, None, 200)), "Show S01E12");
}

#[test]
fn extensions_are_normalised_and_checked() {
    assert_eq!(text(normalize_extension(&chars(" .MKV "))), "mkv");
    assert_eq!(text(normalize_video_extension(&chars(".Mp4")).unwrap()), "mp4");
    assert_eq!(
        normalize_video_extension(&chars("exe")).unwrap_err(),
        LibraryError::UnsupportedVideoExtension("exe".to_string())
    );
    assert_eq!(text(normalize_subtitle_extension(&chars("SRT")).unwrap()), "srt");
    assert!(normalize_subtitle_extension(&chars("txt")).is_err());
    assert_eq!(text(sanitize_language(&chars("English (SDH)"))), "English (SDH)");
    assert_eq!(filename_stem_byte_limit(&chars("mkv")), 117);
}

#[test]
fn movie_paths_are_laid_out_under_the_root() {
    let namer = LibraryNamer::new("/srv/media".to_string());
    assert_eq!(namer.media_root(), "/srv/media");
    let paths = namer
        .paths_for(
            &MediaIdentity::Movie { title: "Cocktail 2".to_string(), year: Some("2026".to_string()) },
            "MKV",
            Some(("English", ".srt")),
            JobId(1),
            &vec![],
        )
        .unwrap();
    assert_eq!(paths.video_relative, "Movies/Cocktail 2 (2026)/Cocktail 2 (2026).mkv");
    assert_eq!(paths.subtitle_relative.as_deref(), Some("Movies/Cocktail 2 (2026)/Cocktail 2 (2026).English.srt"));
    assert_eq!(paths.partial_video_relative, "_moviebox/jobs/00000000-0000-0000-0000-000000000001/Cocktail 2 (2026).mkv.part");
    assert_eq!(
        paths.partial_subtitle_relative.as_deref(),
        Some("_moviebox/jobs/00000000-0000-0000-0000-000000000001/Cocktail 2 (2026).English.srt.part")
    );
}

#[test]
fn episode_paths_use_season_folders() {
    let namer = LibraryNamer::new("/srv/media".to_string());
    let paths = namer
        .paths_for(
            &MediaIdentity::Episode {
                series_title: "Severance".to_string(),
                year: Some("2022".to_string()),
                season: 2,
                episode: 3,
                episode_title: None,
            },
            "mp4",
            None,
            JobId(2),
            &vec![],
        )
        .unwrap();
    assert_eq!(paths.video_relative, "Shows/Severance (2022)/Season 02/Severance (2022) S02E03.mp4");
    assert_eq!(paths.subtitle_relative, None);
    assert_eq!(
        namer
            .paths_for(&MediaIdentity::Movie { title: "x".to_string(), year: None }, "exe", None, JobId(3), &vec![])
            .unwrap_err(),
        LibraryError::UnsupportedVideoExtension("exe".to_string())
    );
}

fn cocktail() -> MediaIdentity {
    MediaIdentity::Movie { title: "Cocktail 2".to_string(), year: Some("2026".to_string()) }
}

fn fact(relative: &str, contained: Result<String, PathSecurityError>, exists: bool) -> TargetFacts {
    TargetFacts { relative: relative.to_string(), contained, exists }
}

#[test]
fn an_existing_video_target_is_refused() {
    let namer = LibraryNamer::new("/srv/media".to_string());
    let video = "Movies/Cocktail 2 (2026)/Cocktail 2 (2026).mkv";
    let facts = vec![fact(video, Ok(format!("/srv/media/{video}")), true)];
    assert_eq!(
        namer.paths_for(&cocktail(), "mkv", Some(("English", "srt")), JobId(1), &facts).unwrap_err(),
        LibraryError::AlreadyExists { relative_path: video.to_string() }
    );
    let planned = namer.plan_paths(&cocktail(), "mkv", None, JobId(1)).unwrap();
    assert_eq!(planned.video_relative, video);
}

#[test]
fn an_existing_subtitle_target_is_refused_after_the_video() {
    let namer = LibraryNamer::new("/srv/media".to_string());
    let subtitle = "Movies/Cocktail 2 (2026)/Cocktail 2 (2026).English.srt";
    let facts = vec![fact(subtitle, Ok(format!("/srv/media/{subtitle}")), true)];
    assert_eq!(
        namer.paths_for(&cocktail(), "mkv", Some(("English", "srt")), JobId(1), &facts).unwrap_err(),
        LibraryError::AlreadyExists { relative_path: subtitle.to_string() }
    );
    let video = "Movies/Cocktail 2 (2026)/Cocktail 2 (2026).mkv";
    let facts = vec![
        fact(subtitle, Ok(format!("/srv/media/{subtitle}")), true),
        fact(video, Err(PathSecurityError::OutsideRoot("/etc/x.mkv".to_string())), false),
    ];
    assert_eq!(
        namer.paths_for(&cocktail(), "mkv", Some(("English", "srt")), JobId(1), &facts).unwrap_err(),
        LibraryError::Path(PathSecurityError::OutsideRoot("/etc/x.mkv".to_string()))
    );
}

#[test]
fn files_in_progress_may_already_exist() {
    let namer = LibraryNamer::new("/srv/media".to_string());
    let part = "_moviebox/jobs/00000000-0000-0000-0000-000000000001/Cocktail 2 (2026).mkv.part";
    let facts = vec![fact(part, Ok(format!("/srv/media/{part}")), true)];
    let paths = namer.paths_for(&cocktail(), "mkv", None, JobId(1), &facts).unwrap();
    assert_eq!(paths.partial_video_relative, part);
}

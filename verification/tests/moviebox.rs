use moviebox_tui::catalog::moviebox::{
    adapt_details, adapt_search_page, adapt_sources, adapt_subtitles, ensure_object_ids,
    ensure_object_with_subject_id, find_source_item, parse_episode_numbers, parse_extension, resolve_source_item,
    resolve_subtitle_from_payload, validate_source_item_resolution,
};
use moviebox_tui::catalog::{CatalogError, MediaType, OpaquePayload, QualityPolicy};

use moviebox_tui::json::{JsonNumber, JsonValue};

fn convert(value: &serde_json::Value) -> JsonValue {
    match value {
        serde_json::Value::Null => JsonValue::Null,
        serde_json::Value::Bool(b) => JsonValue::Bool(*b),
        serde_json::Value::Number(n) => {
            if let Some(u) = n.as_u64() {
                JsonValue::Number(JsonNumber::PosInt(u))
            } else if let Some(i) = n.as_i64() {
                JsonValue::Number(JsonNumber::NegInt(i))
            } else {
                JsonValue::Number(JsonNumber::Float)
            }
        }
        serde_json::Value::String(s) => JsonValue::String(s.clone()),
        serde_json::Value::Array(items) => JsonValue::Array(items.iter().map(convert).collect()),
        serde_json::Value::Object(map) => {
            JsonValue::Object(map.iter().map(|(k, v)| (k.clone(), convert(v))).collect())
        }
    }
}

fn parse(text: &str) -> JsonValue {
    convert(&serde_json::from_str::<serde_json::Value>(text).unwrap())
}

fn source_of(key: &OpaquePayload) -> (String, u16, Option<u16>) {
    match key {
        OpaquePayload::Source { resource_id, height, season, .. } => (resource_id.clone(), *height, *season),
        _ => panic!("not a source"),
    }
}

#[test]
fn sources_are_filtered_sorted_and_the_first_recommended() {
    let payload = parse(
        r#"{"subjectId":"42","list":[
            {"resourceId":"a","resolution":720,"codecName":"h264","size":"1000","se":1},
            {"resourceId":"b","resolution":"2160","sizeBytes":5},
            {"resourceId":"c","resolution":1080,"codecName":" hevc ","lanName":"Hindi"},
            {"resourceId":"d","resolution":720}
        ]}"#,
    );
    let drafts = adapt_sources(&payload, QualityPolicy::new(1080)).unwrap();
    let summary: Vec<_> = drafts.iter().map(|d| (source_of(&d.key).0, d.label.clone(), d.recommended)).collect();
    assert_eq!(
        summary,
        vec![
            ("c".to_string(), "1080p HEVC".to_string(), true),
            ("a".to_string(), "720p H264".to_string(), false),
            ("d".to_string(), "720p".to_string(), false)
        ]
    );
    assert_eq!(drafts[1].size_bytes, Some(1000));
    assert_eq!(source_of(&drafts[1].key).2, Some(1));
    assert_eq!(drafts[0].language.as_deref(), Some("Hindi"));
    let option = drafts[0].clone().with_id(moviebox_tui::catalog::SourceId::new("id".to_string()));
    assert!(option.recommended);
}

#[test]
fn sources_refuse_malformed_entries_and_empty_lists() {
    let missing = parse(r#"{"list":[]}"#);
    assert_eq!(adapt_sources(&missing, QualityPolicy::new(1080)).unwrap_err(), CatalogError::InvalidPayload("subjectId"));
    let no_list = parse(r#"{"subjectId":"1"}"#);
    assert_eq!(adapt_sources(&no_list, QualityPolicy::new(1080)).unwrap_err(), CatalogError::InvalidPayload("list"));
    let no_height = parse(r#"{"subjectId":"1","list":[{"resourceId":"a"}]}"#);
    assert_eq!(adapt_sources(&no_height, QualityPolicy::new(1080)).unwrap_err(), CatalogError::InvalidPayload("resolution"));
    let too_high = parse(r#"{"subjectId":"1","list":[{"resourceId":"a","resolution":2160}]}"#);
    assert_eq!(
        adapt_sources(&too_high, QualityPolicy::new(1080)).unwrap_err(),
        CatalogError::QualityUnavailable { maximum_height: 1080, requested_height: None }
    );
}

#[test]
fn subtitles_keep_their_index_and_guess_their_format() {
    let payload = parse(
        r#"{"extCaptions":[
            {"url":"https://cdn.example/sub/en.vtt?x=1","lanName":"English"},
            {"url":""},
            {"url":"https://cdn.example/sub/noext","format":" ass "},
            {"url":"https://cdn.example/sub/plain"}
        ]}"#,
    );
    let source = OpaquePayload::Source {
        provider: "moviebox".to_string(),
        subject_id: "42".to_string(),
        resource_id: "r".to_string(),
        season: None,
        episode: None,
        height: 1080,
        language: None,
    };
    let drafts = adapt_subtitles(&payload, &source).unwrap();
    let summary: Vec<_> = drafts.iter().map(|d| (d.language.clone(), d.format.clone())).collect();
    assert_eq!(
        summary,
        vec![
            ("English".to_string(), Some("vtt".to_string())),
            ("Unknown".to_string(), Some("ass".to_string())),
            ("Unknown".to_string(), Some("srt".to_string()))
        ]
    );
    match &drafts[1].key {
        OpaquePayload::Subtitle { index, resource_id, .. } => {
            assert_eq!(*index, 2);
            assert_eq!(resource_id, "r");
        }
        _ => panic!("not a subtitle"),
    }
    let other = OpaquePayload::Source {
        provider: "elsewhere".to_string(),
        subject_id: "42".to_string(),
        resource_id: "r".to_string(),
        season: None,
        episode: None,
        height: 1080,
        language: None,
    };
    assert_eq!(adapt_subtitles(&payload, &other).unwrap_err(), CatalogError::UnsupportedProvider("elsewhere".to_string()));
    let catalog = OpaquePayload::Catalog { provider: "moviebox".to_string(), subject_id: "1".to_string() };
    assert_eq!(adapt_subtitles(&payload, &catalog).unwrap_err(), CatalogError::InvalidOpaqueId);
}

#[test]
fn resolution_checks_the_signed_height() {
    let payload = parse(
        r#"{"list":[{"resourceId":"a","resolution":720,"resourceLink":"https://cdn.example/v/a.mp4","sizeBytes":"99"},
                    {"resourceId":"b","resolution":1080,"resourceLink":"https://cdn.example/v/b"}]}"#,
    );
    let policy = QualityPolicy::new(1080);
    let link = resolve_source_item(&payload, "a", 720, policy).unwrap();
    assert_eq!(link.url.serialization, "https://cdn.example/v/a.mp4");
    assert_eq!(link.expected_size, Some(99));
    assert_eq!(link.extension, "mp4");
    assert_eq!(resolve_source_item(&payload, "b", 1080, policy).unwrap().extension, "mkv");
    assert_eq!(
        resolve_source_item(&payload, "a", 1080, policy).unwrap_err(),
        CatalogError::SourceResolutionMismatch { signed_height: 1080, actual_height: 720 }
    );
    assert_eq!(resolve_source_item(&payload, "z", 720, policy).unwrap_err(), CatalogError::NotFound("source"));
    let item = find_source_item(&payload, "b").unwrap();
    assert_eq!(
        validate_source_item_resolution(item, 1080, QualityPolicy::new(720)).unwrap_err(),
        CatalogError::QualityUnavailable { maximum_height: 720, requested_height: Some(1080) }
    );
}

#[test]
fn subtitle_resolution_reads_the_caption_at_the_index() {
    let payload = parse(r#"{"extCaptions":[{"url":"https://cdn.example/s/en.srt","lanName":"English"},{"lanName":"x"}]}"#);
    let link = resolve_subtitle_from_payload(&payload, 0).unwrap().unwrap();
    assert_eq!(link.language, "English");
    assert_eq!(link.extension, "srt");
    assert_eq!(resolve_subtitle_from_payload(&payload, 1).unwrap_err(), CatalogError::InvalidPayload("url"));
    assert_eq!(resolve_subtitle_from_payload(&payload, 2).unwrap_err(), CatalogError::NotFound("subtitle"));
    assert!(resolve_subtitle_from_payload(&parse("{}"), 0).unwrap().is_none());
}

#[test]
fn search_pages_and_details_are_read() {
    let payload = parse(
        r#"{"results":[{"subjects":[
            {"subjectId":"1","title":"Joyland","subjectType":1,"releaseDate":"2022-11-18"},
            {"subjectId":"2"},
            {"subjectId":"3","title":"Paatal Lok","subjectType":2,"year":2020,"season":2}
        ]}],"pager":{"hasMore":true}}"#,
    );
    let page = adapt_search_page(&payload, 3).unwrap();
    assert_eq!(page.page, 3);
    assert!(page.has_more);
    assert_eq!(page.items.len(), 2);
    assert_eq!(page.items[0].year.as_deref(), Some("2022"));
    assert_eq!(page.items[1].media_type, MediaType::Series);
    assert_eq!(page.items[1].year.as_deref(), Some("2020"));
    assert_eq!(page.items[1].season_count, Some(2));
    assert!(!adapt_search_page(&parse(r#"{"results":[{"subjects":[]}],"pager":{"has_more":"yes"}}"#), 1).unwrap().has_more);
    assert_eq!(
        adapt_search_page(&parse(r#"{"results":[]}"#), 1).unwrap_err(),
        CatalogError::InvalidPayload("results[0].subjects")
    );

    let details = parse(
        r#"{"subjectId":"3","title":"Paatal Lok","subjectType":2,"description":"  A show. ","genre":["Crime",7,"Drama"],
            "seasons":{"seasons":[{"se":1,"allEp":"1, 2,x,3"},{"se":2,"maxEp":2},{"maxEp":4}]},
            "dubs":[{"subjectId":"9","lanName":"Original"},{"lanName":"Hindi"}]}"#,
    );
    let d = adapt_details(&details).unwrap();
    assert_eq!(d.description.as_deref(), Some("A show."));
    assert_eq!(d.genres, vec!["Crime".to_string(), "Drama".to_string()]);
    assert_eq!(d.seasons.len(), 2);
    assert_eq!(d.seasons[0].episodes.iter().map(|e| e.number).collect::<Vec<_>>(), vec![1, 2, 3]);
    assert_eq!(d.seasons[1].episodes.iter().map(|e| e.number).collect::<Vec<_>>(), vec![1, 2]);
    assert_eq!(d.audio_options.len(), 1);
    assert!(d.audio_options[0].original);
    assert_eq!(adapt_details(&parse(r#"{"title":"x"}"#)).unwrap_err(), CatalogError::InvalidPayload("subjectId"));
}

#[test]
fn episode_lists_fall_back_to_the_maximum() {
    assert_eq!(parse_episode_numbers(&parse(r#"{"allEp":"x,y","maxEp":3}"#)), vec![1, 2, 3]);
    assert_eq!(parse_episode_numbers(&parse(r#"{}"#)), vec![1]);
    assert_eq!(parse_episode_numbers(&parse(r#"{"maxEp":0}"#)), Vec::<u16>::new());
    assert_eq!(parse_episode_numbers(&parse(r#"{"maxEp":70000}"#)), vec![1]);
}

#[test]
fn extensions_come_from_the_last_path_segment() {
    assert_eq!(parse_extension("https://a.example/x/y.tar.gz?q=1", "srt"), "gz");
    assert_eq!(parse_extension("https://a.example/x.y/z", "srt"), "srt");
    assert_eq!(parse_extension("https://a.example/x/y.", "mkv"), "mkv");
    assert_eq!(parse_extension("not a url", "mkv"), "mkv");
    assert_eq!(parse_extension("mailto:a.b@c.d", "mkv"), "mkv");
}

#[test]
fn missing_ids_are_filled_in() {
    let filled = ensure_object_with_subject_id(parse(r#"{"list":[]}"#), "42");
    assert_eq!(adapt_sources(&filled, QualityPolicy::new(1080)).unwrap_err(), CatalogError::QualityUnavailable { maximum_height: 1080, requested_height: None });
    let kept = ensure_object_with_subject_id(parse(r#"{"subjectId":"7"}"#), "42");
    assert_eq!(kept, parse(r#"{"subjectId":"7"}"#));
    let both = ensure_object_ids(parse("{}"), "1", "2");
    assert_eq!(moviebox_tui::json::get_text(&both, "subjectId"), Some("1"));
    assert_eq!(moviebox_tui::json::get_text(&both, "resourceId"), Some("2"));
    assert_eq!(ensure_object_ids(JsonValue::Null, "1", "2"), JsonValue::Null);
}

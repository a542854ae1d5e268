use moviebox_tui::catalog::{SubtitleId, SubtitleTrack};
use moviebox_tui::server::library::SubtitlePreference;

fn track(language: &str) -> SubtitleTrack {
    SubtitleTrack {
        id: SubtitleId::new(format!("id-{language}")),
        language: language.to_string(),
        format: Some("srt".to_string()),
    }
}

#[test]
fn english_is_selected_by_default() {
    let tracks = [track("Spanish"), track("English"), track("Arabic")];
    let selected = SubtitlePreference::default().select(&tracks).unwrap();
    assert_eq!(selected.language, "English");
}

#[test]
fn language_codes_count_as_english() {
    for label in ["en", "eng", "EN", "English"] {
        let tracks = [track("French"), track(label)];
        assert_eq!(
            SubtitlePreference::default()
                .select(&tracks)
                .unwrap()
                .language,
            label
        );
    }
}

#[test]
fn plain_english_beats_annotated_variants() {
    let tracks = [
        track("English (SDH)"),
        track("English Forced"),
        track("English"),
    ];
    assert_eq!(
        SubtitlePreference::default()
            .select(&tracks)
            .unwrap()
            .language,
        "English"
    );
}

#[test]
fn annotated_english_is_better_than_nothing() {
    let tracks = [track("German"), track("English (SDH)")];
    assert_eq!(
        SubtitlePreference::default()
            .select(&tracks)
            .unwrap()
            .language,
        "English (SDH)"
    );
}

#[test]
fn no_match_selects_nothing() {
    let tracks = [track("German"), track("Spanish")];
    assert!(SubtitlePreference::default().select(&tracks).is_none());
}

#[test]
fn empty_track_list_selects_nothing() {
    assert!(SubtitlePreference::default().select(&[]).is_none());
}

#[test]
fn disabled_preference_never_selects() {
    let tracks = [track("English")];
    for value in ["off", "none", "", "  "] {
        assert_eq!(
            SubtitlePreference::parse(value),
            SubtitlePreference::Disabled
        );
        assert!(SubtitlePreference::parse(value).select(&tracks).is_none());
    }
}

#[test]
fn other_languages_can_be_preferred() {
    let tracks = [track("English"), track("Urdu")];
    let selected = SubtitlePreference::parse("Urdu").select(&tracks).unwrap();
    assert_eq!(selected.language, "Urdu");
}

#[test]
fn preferences_are_trimmed_and_lowered() {
    assert_eq!(
        SubtitlePreference::parse("  OFF "),
        SubtitlePreference::Disabled
    );
    assert_eq!(
        SubtitlePreference::parse(" Urdu "),
        SubtitlePreference::Language("urdu".to_string())
    );
}

#[test]
fn the_first_of_equal_tracks_is_taken() {
    let mut first = track("English");
    first.id = SubtitleId::new("first".to_string());
    let tracks = [track("Spanish"), first, track("English")];
    let selected = SubtitlePreference::default().select(&tracks).unwrap();
    assert_eq!(selected.id.as_str(), "first");
}

#[test]
fn an_exact_label_is_the_canonical_wanted_name() {
    let preference = SubtitlePreference::parse("en");
    let tracks = [track("en"), track("English")];
    assert_eq!(preference.select(&tracks).unwrap().language, "English");
    let preference = SubtitlePreference::parse("pt-BR");
    let tracks = [track("pt-BR"), track("pt")];
    assert_eq!(preference.select(&tracks).unwrap().language, "pt");
}

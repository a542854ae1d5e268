use moviebox_tui::server::jobs::dash::{
    check_output_size, choose_video_height, decode_xml_entities, is_unsafe_scheme, template_matches,
    temporary_output_path, DashCapability, DashError,
};
use moviebox_tui::server::jobs::manifest::{parse_dash_manifest, validate_manifest};
use moviebox_tui::urls::parse_url;

fn chars(s: &str) -> Vec<char> {
    s.chars().collect()
}

#[test]
fn capability_templates_preserve_dash_variables_and_query_strings() {
    assert!(template_matches(
        "/segments/$Number$.m4s",
        "/segments/17.m4s"
    ));
    assert!(template_matches("a=$Time$&b=fixture", "a=900&b=fixture"));
    assert!(!template_matches("/segments/$Number$.m4s", "/other/17.m4s"));
    let manifest = br#"<MPD><Period><BaseURL>media/</BaseURL><AdaptationSet><SegmentTemplate media="seg-$Number$.m4s?x=1&amp;y=$Time$" /></AdaptationSet></Period></MPD>"#;
    let remote = parse_url("https://cdn.example.invalid/path/index.mpd").unwrap();
    let parsed = parse_dash_manifest(manifest, &remote, "opaque-token").unwrap();
    assert!(
        parsed
            .bytes
            .windows(b"/__dash/opaque-token/path/media/seg-".len())
            .any(|window| window == b"/__dash/opaque-token/path/media/seg-")
    );
    assert!(
        parsed
            .bytes
            .windows(b"&amp;".len())
            .any(|window| window == b"&amp;")
    );
    assert!(parsed.capabilities.iter().any(|capability| {
        capability.path_template == "/path/media/seg-$Number$.m4s"
            && capability.query_template.as_deref() == Some("x=1&y=$Time$")
    }));
}

#[test]
fn capability_matching_requires_an_exact_opaque_token_route() {
    let capability = DashCapability {
        path_template: "/segments/$Number$.m4s".to_string(),
        query_template: None,
    };
    assert!(capability.matches("/segments/3.m4s", None));
    assert!(!capability.matches("/segments/3.m4s", Some("x=1")));
}

#[test]
fn query_capabilities_need_a_matching_query() {
    let capability = DashCapability {
        path_template: "/s/$Number$.m4s".to_string(),
        query_template: Some("t=$Time$".to_string()),
    };
    assert!(capability.matches("/s/1.m4s", Some("t=5")));
    assert!(!capability.matches("/s/1.m4s", None));
    assert!(!capability.matches("/s/1.m4s", Some("u=5")));
}

#[test]
fn manifests_with_foreign_references_are_refused() {
    let remote = parse_url("https://cdn.example.invalid/path/index.mpd").unwrap();
    let manifest = br#"<MPD><Period><BaseURL>https://elsewhere.example/</BaseURL></Period></MPD>"#;
    assert!(parse_dash_manifest(manifest, &remote, "t").is_err());
    let manifest = br#"<MPD><Period><BaseURL>file:///etc/</BaseURL></Period></MPD>"#;
    assert!(parse_dash_manifest(manifest, &remote, "t").is_err());
}

#[test]
fn video_heights_are_chosen_under_the_ceiling() {
    let manifest = r#"<MPD><Representation height="2160"/><Representation height="1080"/><Representation height="720"/></MPD>"#;
    assert_eq!(choose_video_height(manifest, 1080), Some(1080));
    assert_eq!(choose_video_height(manifest, 900), Some(720));
    assert_eq!(choose_video_height(manifest, 480), None);
}

#[test]
fn entities_are_decoded_and_unknown_ones_refused() {
    assert_eq!(decode_xml_entities(&chars("a&amp;b&lt;&#65;&#x42;")).unwrap(), chars("a&b<AB"));
    assert_eq!(decode_xml_entities(&chars("a&bogus;")), Err(DashError::UnsafeManifestReference));
    assert_eq!(decode_xml_entities(&chars("&lt;!DOCTYPE")), Err(DashError::UnsafeManifestReference));
}

#[test]
fn unsafe_schemes_are_recognised() {
    assert!(is_unsafe_scheme(&chars("file:///etc/passwd")));
    assert!(is_unsafe_scheme(&chars("FILE:x")));
    assert!(!is_unsafe_scheme(&chars("media/seg.m4s")));
}

#[test]
fn output_paths_and_sizes() {
    assert_eq!(temporary_output_path("/lib/movie.mkv"), "/lib/movie.mkv.dash.tmp");
    assert!(check_output_size(1024).is_ok());
    assert_eq!(check_output_size(917554), Err(DashError::NoticeMedia));
}

#[test]
fn plain_manifests_validate() {
    assert!(validate_manifest(b"<MPD><Period/></MPD>").is_ok());
}

use moviebox_tui::server::jobs::dash::{
    dash_begin, dash_step, DashAction, DashEvent, DashOutcome, DashPhase, DashRun, ProxyFailure,
};

fn run_in(phase: DashPhase) -> DashRun {
    DashRun { phase, maximum_height: 720 }
}

#[test]
fn only_dash_requests_with_a_usable_duration_start() {
    let (_, action) = dash_begin(false, 720, false, Ok(()));
    assert_eq!(
        action,
        DashAction::Done { result: Err(DashError::InvalidManifest("non-DASH request")), remove_output: false }
    );
    let (_, action) = dash_begin(true, 720, true, Ok(()));
    assert_eq!(action, DashAction::Done { result: Ok(DashOutcome::Paused), remove_output: false });
    let (_, action) = dash_begin(true, 720, false, Err(DashError::InvalidManifest("provider duration is invalid")));
    assert_eq!(
        action,
        DashAction::Done { result: Err(DashError::InvalidManifest("provider duration is invalid")), remove_output: false }
    );
    let (run, action) = dash_begin(true, 720, false, Ok(()));
    assert_eq!(action, DashAction::FetchManifest);
    assert_eq!(run.phase, DashPhase::FetchingManifest);
}

#[test]
fn the_manifest_must_answer_decode_and_fit_the_ceiling() {
    let (_, action) = dash_step(run_in(DashPhase::FetchingManifest), DashEvent::ManifestAnswered { status: 404 });
    assert_eq!(action, DashAction::Done { result: Err(DashError::Download(Some(404))), remove_output: false });
    let (run, action) = dash_step(run_in(DashPhase::FetchingManifest), DashEvent::ManifestAnswered { status: 200 });
    assert_eq!(action, DashAction::ReadManifest);
    let (_, action) = dash_step(run, DashEvent::ManifestRead { body: vec![0xff, 0xfe], cancelled: false });
    assert_eq!(action, DashAction::Done { result: Err(DashError::InvalidManifest("not UTF-8")), remove_output: false });
    let tall = br#"<MPD><Representation height="1080"/></MPD>"#.to_vec();
    let (_, action) = dash_step(run_in(DashPhase::ReadingManifest), DashEvent::ManifestRead { body: tall, cancelled: false });
    assert_eq!(
        action,
        DashAction::Done {
            result: Err(DashError::InvalidManifest("no video representation is within the requested height")),
            remove_output: false
        }
    );
    let fits = br#"<MPD><Representation height="720"/></MPD>"#.to_vec();
    let (_, action) = dash_step(run_in(DashPhase::ReadingManifest), DashEvent::ManifestRead { body: fits, cancelled: false });
    assert_eq!(action, DashAction::StartProxy);
}

#[test]
fn conversion_failures_prefer_what_the_proxy_recorded() {
    let (_, action) = dash_step(
        run_in(DashPhase::Converting),
        DashEvent::Converted { success: false, code: Some(1), proxy_failure: Some(ProxyFailure::Auth(403)) },
    );
    assert_eq!(action, DashAction::Done { result: Err(DashError::Download(Some(403))), remove_output: true });
    let (_, action) = dash_step(
        run_in(DashPhase::Converting),
        DashEvent::Converted { success: false, code: Some(1), proxy_failure: None },
    );
    assert_eq!(
        action,
        DashAction::Done { result: Err(DashError::ToolFailed { tool: "ffmpeg", status: Some(1) }), remove_output: true }
    );
    let (_, action) = dash_step(
        run_in(DashPhase::Converting),
        DashEvent::Converted { success: true, code: Some(0), proxy_failure: None },
    );
    assert_eq!(action, DashAction::ProbeOutput);
}

#[test]
fn the_notice_clip_is_refused_and_real_output_finishes() {
    let (_, action) = dash_step(run_in(DashPhase::MeasuringOutput), DashEvent::OutputMeasured { bytes: 917_554, cancelled: false });
    assert_eq!(action, DashAction::Done { result: Err(DashError::NoticeMedia), remove_output: true });
    let (_, action) = dash_step(run_in(DashPhase::MeasuringOutput), DashEvent::OutputMeasured { bytes: 5_000_000, cancelled: false });
    assert_eq!(action, DashAction::Finish { bytes: 5_000_000 });
    let (_, action) = dash_step(run_in(DashPhase::Converting), DashEvent::Cancelled);
    assert_eq!(action, DashAction::Done { result: Ok(DashOutcome::Paused), remove_output: true });
}

use moviebox_tui::json::{JsonNumber, JsonValue};
use moviebox_tui::server::jobs::dash::{choose_video_stream, streams_of, ProbeStream};

fn probe_object(pairs: Vec<(&str, JsonValue)>) -> JsonValue {
    JsonValue::Object(pairs.into_iter().map(|(k, v)| (k.to_string(), v)).collect())
}

fn probe_number(n: u64) -> JsonValue {
    JsonValue::Number(JsonNumber::PosInt(n))
}

fn probe_stream(kind: &str, index: JsonValue, height: JsonValue) -> JsonValue {
    probe_object(vec![("codec_type", JsonValue::String(kind.to_string())), ("index", index), ("height", height)])
}

fn probe_of(streams: Vec<JsonValue>) -> JsonValue {
    probe_object(vec![("streams", JsonValue::Array(streams))])
}

#[test]
fn probe_streams_are_read_member_by_member() {
    let probe = probe_of(vec![
        probe_stream("video", probe_number(0), probe_number(1080)),
        probe_object(vec![("codec_type", JsonValue::String("audio".to_string())), ("index", probe_number(1))]),
        probe_object(vec![("index", JsonValue::String("2".to_string())), ("height", JsonValue::Number(JsonNumber::NegInt(-1)))]),
    ]);
    assert_eq!(
        streams_of(&probe),
        Some(vec![
            ProbeStream { codec_type: Some("video".to_string()), index: Some(0), height: Some(1080) },
            ProbeStream { codec_type: Some("audio".to_string()), index: Some(1), height: None },
            ProbeStream { codec_type: None, index: None, height: None },
        ])
    );
    assert_eq!(streams_of(&probe_object(vec![("streams", JsonValue::Null)])), None);
    assert_eq!(streams_of(&JsonValue::Array(vec![])), None);
    assert_eq!(streams_of(&probe_of(vec![])), Some(vec![]));
}

#[test]
fn the_tallest_video_stream_within_the_ceiling_is_converted() {
    let probe = probe_of(vec![
        probe_stream("audio", probe_number(0), probe_number(0)),
        probe_stream("video", probe_number(3), probe_number(1080)),
        probe_stream("video", probe_number(2), probe_number(720)),
        probe_stream("video", probe_number(1), probe_number(720)),
    ]);
    assert_eq!(choose_video_stream(&probe, 720), Ok(1));
    assert_eq!(choose_video_stream(&probe, 2160), Ok(3));
    assert_eq!(
        choose_video_stream(&probe, 480),
        Err(DashError::InvalidManifest("no video stream is within the requested height"))
    );
    assert_eq!(choose_video_stream(&JsonValue::Null, 720), Err(DashError::InvalidProbeOutput));
    let bad_height = probe_of(vec![probe_stream("video", probe_number(0), probe_number(70000))]);
    assert_eq!(choose_video_stream(&bad_height, 720), Err(DashError::InvalidProbeOutput));
    let no_index = probe_of(vec![probe_object(vec![("codec_type", JsonValue::String("video".to_string())), ("height", probe_number(480))])]);
    assert_eq!(choose_video_stream(&no_index, 720), Err(DashError::InvalidProbeOutput));
}

use moviebox_tui::server::jobs::dash::{hex_string, proxy_manifest_path, proxy_setup, random_proxy_token};

#[test]
fn the_proxy_listens_on_loopback_under_a_secret_path() {
    assert_eq!(hex_string(&[0x00, 0x0f, 0xa5, 0xff]), "000fa5ff");
    let token = random_proxy_token();
    assert_eq!(token.len(), 48);
    assert!(token.chars().all(|c| c.is_ascii_digit() || ('a'..='f').contains(&c)));
    assert_ne!(token, random_proxy_token());
    assert_eq!(proxy_manifest_path("abc"), "/__dash/abc/manifest.mpd");
    let remote = parse_url("https://user@cdn.example.com:8443/a/b/manifest.mpd?sig=1#frag").unwrap();
    let setup = proxy_setup(&remote, "abc", 40123).unwrap();
    assert_eq!(setup.manifest_path, "/__dash/abc/manifest.mpd");
    assert_eq!(setup.origin.serialization, "https://user@cdn.example.com:8443/");
    assert_eq!(setup.origin.query, None);
    assert_eq!(setup.origin.fragment, None);
    assert_eq!(setup.url.serialization, "http://127.0.0.1:40123/__dash/abc/manifest.mpd");
    assert_eq!(setup.url.port, Some(40123));
}

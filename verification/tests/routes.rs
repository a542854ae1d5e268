use moviebox_tui::catalog::{CatalogError, QualityTier, SourceId, SourceOption};
use moviebox_tui::server::error::ApiError;
use moviebox_tui::json::{JsonNumber, JsonValue};
use moviebox_tui::server::routes::mcp;
use moviebox_tui::server::routes::jobs::{check_requested_height, list_limit, map_catalog_error, select_source};
use moviebox_tui::server::security::path::{
    contained_path, path_within, start_containment, ContainStep, Resolution, PathSecurityError,
};

fn source(id: &str, height: u16) -> SourceOption {
    SourceOption {
        id: SourceId::new(id.to_string()),
        height,
        label: format!("{height}p"),
        size_bytes: None,
        language: None,
        recommended: false,
        quality: QualityTier::Good,
    }
}

#[test]
fn listing_limits_are_bounded() {
    assert_eq!(list_limit(None), Ok(50));
    assert_eq!(list_limit(Some(10)), Ok(10));
    assert_eq!(list_limit(Some(0)), Err(ApiError::InvalidRequest));
    assert_eq!(list_limit(Some(51)), Err(ApiError::InvalidRequest));
}

#[test]
fn requested_heights_are_checked() {
    assert_eq!(check_requested_height(0, 1080), Err(ApiError::InvalidRequest));
    assert_eq!(check_requested_height(2160, 1080), Err(ApiError::QualityExceedsLimit));
    assert_eq!(check_requested_height(720, 1080), Ok(()));
}

#[test]
fn the_first_source_with_the_id_must_offer_the_height() {
    let sources = vec![source("a", 720), source("b", 1080), source("b", 720)];
    assert_eq!(select_source(&sources, &SourceId::new("b".to_string()), 1080), Ok(1));
    assert_eq!(select_source(&sources, &SourceId::new("b".to_string()), 720), Err(ApiError::QualityUnavailable));
    assert_eq!(select_source(&sources, &SourceId::new("z".to_string()), 720), Err(ApiError::InvalidSource));
}

#[test]
fn catalogue_failures_map_to_replies() {
    assert_eq!(
        map_catalog_error(&CatalogError::QualityUnavailable { maximum_height: 1080, requested_height: Some(2160) }),
        ApiError::QualityExceedsLimit
    );
    assert_eq!(
        map_catalog_error(&CatalogError::QualityUnavailable { maximum_height: 1080, requested_height: Some(720) }),
        ApiError::QualityUnavailable
    );
    assert_eq!(map_catalog_error(&CatalogError::NotFound("title")), ApiError::NotFound);
    assert_eq!(map_catalog_error(&CatalogError::Provider("down".to_string())), ApiError::ProviderUnavailable);
    assert_eq!(map_catalog_error(&CatalogError::OpaqueIdVerificationFailed), ApiError::InvalidSource);
}

#[test]
fn relative_paths_stay_under_the_root() {
    assert_eq!(contained_path("/srv/media", "Movies/./A/b.mkv").unwrap(), "/srv/media/Movies/A/b.mkv");
    assert_eq!(contained_path("/srv/media/", "a//b").unwrap(), "/srv/media/a/b");
    assert_eq!(contained_path("/srv/media", "/etc/passwd").unwrap_err(), PathSecurityError::AbsolutePath);
    assert_eq!(contained_path("/srv/media", "a/../../x").unwrap_err(), PathSecurityError::Traversal);
    assert_eq!(
        contained_path("/srv/media", "a\u{7}b/c").unwrap_err(),
        PathSecurityError::ControlCharacter("a\u{7}b".to_string())
    );
}

#[test]
fn path_prefixes_compare_whole_components() {
    assert!(path_within("/mnt/mac-remote", "/mnt/mac-remote/x"));
    assert!(path_within("/mnt/mac-remote", "/mnt//mac-remote/"));
    assert!(!path_within("/mnt/mac-remote", "/mnt/mac-remote2"));
    assert!(!path_within("/mnt/mac-remote", "mnt/mac-remote"));
}

fn args(pairs: Vec<(&str, moviebox_tui::json::JsonValue)>) -> moviebox_tui::json::JsonValue {
    moviebox_tui::json::JsonValue::Object(pairs.into_iter().map(|(k, v)| (k.to_string(), v)).collect())
}

#[test]
fn agent_calls_are_routed_and_checked() {
    let query = args(vec![("query", JsonValue::String("  Joyland ".to_string()))]);
    assert_eq!(mcp::search_query(&query), Ok("Joyland".to_string()));
    let short = args(vec![("query", JsonValue::String(" a ".to_string()))]);
    assert_eq!(mcp::search_query(&short), Err("query must be between 2 and 100 characters".to_string()));
    assert_eq!(mcp::search_query(&args(vec![])), Err("missing required argument: query".to_string()));
    assert_eq!(mcp::page_argument(&args(vec![])), 1);
    assert_eq!(mcp::page_argument(&args(vec![("page", JsonValue::Number(JsonNumber::PosInt(99)))])), 50);
    assert_eq!(mcp::limit_argument(&args(vec![("limit", JsonValue::Number(JsonNumber::PosInt(0)))])), 1);
    assert_eq!(mcp::limit_argument(&args(vec![])), 20);
    assert_eq!(mcp::optional_u16(&args(vec![("season", JsonValue::Number(JsonNumber::PosInt(2)))]), "season"), Some(2));
    assert_eq!(mcp::rpc_method("tools/call"), mcp::RpcMethod::ToolsCall);
    assert_eq!(mcp::rpc_method("shutdown"), mcp::RpcMethod::NotFound);
    assert_eq!(mcp::tool_named("get_download"), Ok(mcp::Tool::GetDownload));
    assert_eq!(mcp::tool_named("rm"), Err("unknown tool: rm".to_string()));
    assert!(mcp::presented_token_matches(Some("Bearer  s3cret "), "s3cret"));
    assert!(!mcp::presented_token_matches(Some("Bearer other"), "s3cret"));
    assert!(!mcp::presented_token_matches(Some("Basic s3cret"), "s3cret"));
    assert!(!mcp::presented_token_matches(None, "s3cret"));
}

#[test]
fn agent_downloads_pick_a_source_within_the_ceiling() {
    let sources = vec![source("a", 2160), source("b", 1080), source("c", 720)];
    assert_eq!(mcp::download_source(&sources, Some("c"), 1080), Ok(2));
    assert!(mcp::download_source(&sources, Some("a"), 1080).is_err());
    assert!(mcp::download_source(&sources, Some("z"), 1080).is_err());
    assert_eq!(mcp::download_source(&sources, None, 1080), Ok(1));
    assert!(mcp::download_source(&sources, None, 480).is_err());
}

fn asked(step: &ContainStep) -> String {
    match step {
        ContainStep::Ask(p) => p.clone(),
        other => panic!("unexpected {other:?}"),
    }
}

#[test]
fn containment_follows_the_filesystem_and_stays_under_the_root() {
    let (state, step) = start_containment("/srv/media", "Movies/A/b.mkv");
    assert_eq!(asked(&step), "/srv/media");
    let (state, step) = state.step(Resolution::Resolved("/data/media".to_string()));
    assert_eq!(asked(&step), "/data/media/Movies");
    let (state, step) = state.step(Resolution::Resolved("/data/media/Movies".to_string()));
    assert_eq!(asked(&step), "/data/media/Movies/A");
    let (state, step) = state.step(Resolution::Missing);
    assert_eq!(asked(&step), "/data/media/Movies/A/b.mkv");
    let (state, step) = state.step(Resolution::Missing);
    assert_eq!(asked(&step), "/data/media/Movies/A/b.mkv");
    let (_, step) = state.step(Resolution::Missing);
    assert_eq!(step, ContainStep::Done(Ok("/data/media/Movies/A/b.mkv".to_string())));
}

#[test]
fn a_link_out_of_the_root_is_refused() {
    let (state, _) = start_containment("/srv/media", "Movies/evil/x");
    let (state, _) = state.step(Resolution::Resolved("/srv/media".to_string()));
    let (state, _) = state.step(Resolution::Missing);
    let (_, step) = state.step(Resolution::Resolved("/etc".to_string()));
    assert_eq!(step, ContainStep::Done(Err(PathSecurityError::OutsideRoot("/etc".to_string()))));
    let (state, _) = start_containment("/srv/media", "a/../b");
    let (state, step) = state.step(Resolution::Resolved("/srv/media".to_string()));
    assert_eq!(asked(&step), "/srv/media/a");
    let (_, step) = state.step(Resolution::Missing);
    assert_eq!(step, ContainStep::Done(Err(PathSecurityError::Traversal)));
    let (_, step) = start_containment("/srv/media", "/etc/passwd");
    assert_eq!(step, ContainStep::Done(Err(PathSecurityError::AbsolutePath)));
    let (state, _) = start_containment("/srv/media", "x");
    let (_, step) = state.step(Resolution::Failed("No such file or directory (os error 2)".to_string()));
    assert_eq!(
        step,
        ContainStep::Done(Err(PathSecurityError::Io("No such file or directory (os error 2)".to_string())))
    );
}

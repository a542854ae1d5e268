use moviebox_tui::server::routes::assets::{
    plan_asset, route_asset, AssetPlan, ASSET_CACHE_CONTROL, INDEX_CACHE_CONTROL,
};

#[test]
fn api_paths_are_never_assets_and_routes_fall_back() {
    assert_eq!(route_asset("api/jobs"), None);
    assert_eq!(route_asset("assets/app.js"), Some(false));
    assert_eq!(route_asset("library/shows"), Some(true));
    assert_eq!(route_asset("v1.2/shows"), Some(true));
    assert_eq!(route_asset("favicon.ico"), Some(false));
}

#[test]
fn bundled_files_are_served_with_their_type_and_long_caching() {
    assert_eq!(
        plan_asset("assets/app.js", false, true, true),
        AssetPlan::Serve {
            served_path: "assets/app.js".to_string(),
            content_type: "text/javascript".to_string(),
            cache_control: ASSET_CACHE_CONTROL,
        }
    );
    assert_eq!(
        plan_asset("assets/blob.unknownext", false, true, true),
        AssetPlan::Serve {
            served_path: "assets/blob.unknownext".to_string(),
            content_type: "application/octet-stream".to_string(),
            cache_control: ASSET_CACHE_CONTROL,
        }
    );
}

#[test]
fn app_routes_get_the_uncached_entry_page() {
    assert_eq!(
        plan_asset("library/shows", true, false, true),
        AssetPlan::Serve {
            served_path: "index.html".to_string(),
            content_type: "text/html".to_string(),
            cache_control: INDEX_CACHE_CONTROL,
        }
    );
    assert_eq!(plan_asset("library/shows", true, false, false), AssetPlan::NotFound);
    assert_eq!(plan_asset("assets/missing.js", false, false, true), AssetPlan::NotFound);
}

//! Serving the bundled web app: which file a request gets, and the headers it is
//! sent with. Whether a file is in the bundle is the caller's to say.

use vstd::prelude::*;

use crate::catalog::moviebox::{after_last, after_last_chars};
use crate::text::{chars_of, has_char, owned, starts_with, starts_with_chars, str_eq};

verus! {

/// The app's entry page, which routes without a file extension fall back to.
pub const INDEX_PATH: &'static str = "index.html";

pub const INDEX_CACHE_CONTROL: &'static str = "no-store";

pub const ASSET_CACHE_CONTROL: &'static str = "public, max-age=31536000, immutable";

/// Artwork comes from TMDB's image host, which is the one outside source allowed.
pub const CONTENT_SECURITY_POLICY: &'static str = "default-src 'self'; style-src 'self' 'unsafe-inline' https://fonts.googleapis.com; font-src 'self' https://fonts.gstatic.com; img-src 'self' data: https://image.tmdb.org; script-src 'self'; frame-ancestors 'none'; base-uri 'self'; form-action 'self'";

pub const CONTENT_TYPE_OPTIONS: &'static str = "nosniff";

pub const REFERRER_POLICY: &'static str = "no-referrer";

/// What `mime_guess` makes of a path: the first MIME type it knows for the
/// path's extension, else `application/octet-stream`.
pub uninterp spec fn guessed_mime(path: Seq<char>) -> Seq<char>;

/// `mime_guess::from_path(..).first_or_octet_stream()`, as text. The mapping
/// is the crate's table, which is named, not stated.
#[verifier::external_body]
fn mime_for(path: &str) -> (r: String)
    ensures
        r@ == guessed_mime(path@),
{
    let mime = mime_guess::from_path(path).first_or_octet_stream();
    let text: &str = mime.as_ref();
    text.to_owned()
}

/// Whether a request path may fall back to the entry page: `None` for API
/// paths, which are never assets; otherwise whether its last segment has no
/// dot, as a route of the app has none.
pub open spec fn asset_route(path: Seq<char>) -> Option<bool> {
    if starts_with(path, "api/"@) {
        None
    } else {
        Some(!after_last(path, '/').contains('.'))
    }
}

pub fn route_asset(path: &str) -> (r: Option<bool>)
    ensures
        r == asset_route(path@),
{
    let chars = chars_of(path);
    if starts_with_chars(chars.as_slice(), chars_of("api/").as_slice()) {
        return None;
    }
    let name = after_last_chars(chars.as_slice(), '/');
    Some(!has_char(name.as_slice(), '.'))
}

/// How an asset is answered.
#[derive(Debug, Clone, PartialEq, Eq)]
pub enum AssetPlan {
    NotFound,
    Serve { served_path: String, content_type: String, cache_control: &'static str },
}

/// The file served for a path: the path itself when the bundle has it; the
/// entry page when the path may fall back and the bundle has that; else none.
pub open spec fn served_path(path: Seq<char>, fallback: bool, exists: bool, index_exists: bool) -> Option<Seq<char>> {
    if exists {
        Some(path)
    } else if fallback && index_exists {
        Some(INDEX_PATH@)
    } else {
        None
    }
}

/// What a request for `path` is answered with, given whether the bundle holds
/// the path and the entry page: the served file's type by its name, and a
/// cache policy that never keeps the entry page and keeps everything else for a
/// year.
pub fn plan_asset(path: &str, fallback: bool, exists: bool, index_exists: bool) -> (r: AssetPlan)
    ensures
        match served_path(path@, fallback, exists, index_exists) {
            None => r == AssetPlan::NotFound,
            Some(p) => r matches AssetPlan::Serve { served_path, content_type, cache_control }
                && served_path@ == p && content_type@ == guessed_mime(p)
                && cache_control@ == (if p == INDEX_PATH@ {
                    INDEX_CACHE_CONTROL@
                } else {
                    ASSET_CACHE_CONTROL@
                }),
        },
{
    let served = if exists {
        owned(path)
    } else if fallback && index_exists {
        owned(INDEX_PATH)
    } else {
        return AssetPlan::NotFound;
    };
    let content_type = mime_for(served.as_str());
    let cache_control = if str_eq(served.as_str(), INDEX_PATH) {
        INDEX_CACHE_CONTROL
    } else {
        ASSET_CACHE_CONTROL
    };
    AssetPlan::Serve { served_path: served, content_type, cache_control }
}

} // verus!

//! Server configuration from environment variables.
//!
//! Every setting is required unless noted, and each is refused with the variable's
//! name. What the filesystem says about the configured paths, and whether the
//! bind address and database URL parse for the networking and database layers,
//! are gathered first and handed in as plain facts; `config_paths` lists the
//! paths whose facts are read.

use vstd::prelude::*;

use crate::server::library::subtitles::{preference_of, SubtitlePreference};
use crate::server::security::path::{is_absolute, path_components, within};
use crate::text::{
    all_digits, chars_blank, chars_of, is_blank, opt_text, parse_unsigned, parse_unsigned_chars,
    str_blank, str_eq, string_of, trim, trim_chars,
};
use crate::urls::{parse_url, url_parse, ParsedUrlView};

verus! {

pub const MINIMUM_RESERVE_GIB: u16 = 10;

pub const COOKIE_NAME: &'static str = "moviebox_session";

/// Directories that must never be used: a mount of another machine.
pub const FORBIDDEN_ROOT: &'static str = "/mnt/mac-remote";

#[derive(Debug, Clone, Copy, PartialEq, Eq, Structural)]
pub enum LogFormat {
    Text,
    Json,
}

#[derive(Debug, Clone, Copy, PartialEq, Eq)]
pub enum ConfigError {
    MissingVar(&'static str),
    InvalidBind(&'static str),
    InvalidDatabaseUrl(&'static str),
    NonAbsoluteDirectory(&'static str),
    RootDirectory(&'static str),
    ForbiddenDirectory(&'static str),
    MissingDirectory(&'static str),
    NonAbsoluteFile(&'static str),
    MissingFile(&'static str),
    EmptySecret(&'static str),
    UnsafeSecretPermissions(&'static str),
    InvalidMaximumHeight(&'static str),
    InvalidDownloadConcurrency(&'static str),
    InvalidReserve(&'static str),
    InvalidLogFormat(&'static str),
    InvalidUrl(&'static str),
    InvalidJellyfinBaseUrl(&'static str),
    UnreadableSecret(&'static str),
}

/// What the filesystem says about one configured path.
#[derive(Debug, Clone)]
pub struct PathFacts {
    pub path: String,
    pub exists: bool,
    pub is_dir: bool,
    pub is_file: bool,
    /// The file's text, when it could be read as UTF-8.
    pub contents: Option<String>,
    /// The permission bits, when the metadata could be read.
    pub mode: Option<u32>,
}

/// Facts about the host that the configuration is checked against.
#[derive(Debug, Clone)]
pub struct HostFacts {
    /// `MOVIEBOX_BIND` parses as a socket address.
    pub bind_parses: bool,
    /// The database layer accepts `MOVIEBOX_DATABASE_URL` as connection options.
    pub database_options_parse: bool,
    pub paths: Vec<PathFacts>,
}

/// The value of a variable; a later entry wins over an earlier one.
pub open spec fn env_get(env: Seq<(String, String)>, key: Seq<char>) -> Option<Seq<char>>
    decreases env.len(),
{
    if env.len() == 0 {
        None
    } else if env.last().0@ == key {
        Some(env.last().1@)
    } else {
        env_get(env.drop_last(), key)
    }
}

/// The value of a variable.
pub fn env_lookup(env: &[(String, String)], key: &str) -> (r: Option<String>)
    ensures
        opt_text(r) == env_get(env@, key@),
{
    let mut i: usize = env.len();
    assert(env@.subrange(0, env@.len() as int) =~= env@);
    while i > 0
        invariant
            i <= env@.len(),
            env_get(env@, key@) == env_get(env@.subrange(0, i as int), key@),
        decreases i,
    {
        let ghost prefix = env@.subrange(0, i as int);
        assert(prefix.last() == env@[i - 1]);
        assert(prefix.drop_last() =~= env@.subrange(0, i - 1));
        if str_eq(env[i - 1].0.as_str(), key) {
            return Some(env[i - 1].1.clone());
        }
        i = i - 1;
    }
    None
}

/// A variable that must be set to something other than white space.
pub open spec fn required(env: Seq<(String, String)>, key: &'static str) -> Result<Seq<char>, ConfigError> {
    match env_get(env, key@) {
        Some(v) => if is_blank(v) {
            Err(ConfigError::MissingVar(key))
        } else {
            Ok(v)
        },
        None => Err(ConfigError::MissingVar(key)),
    }
}

pub fn required_var(env: &[(String, String)], key: &'static str) -> (r: Result<String, ConfigError>)
    ensures
        match (r, required(env@, key)) {
            (Ok(a), Ok(b)) => a@ == b,
            (Err(e), Err(f)) => e == f,
            _ => false,
        },
{
    match env_lookup(env, key) {
        Some(v) => {
            if str_blank(v.as_str()) {
                Err(ConfigError::MissingVar(key))
            } else {
                Ok(v)
            }
        },
        None => Err(ConfigError::MissingVar(key)),
    }
}

/// The facts gathered for a path, if any were.
pub open spec fn facts_of(ps: Seq<PathFacts>, p: Seq<char>) -> Option<PathFacts>
    decreases ps.len(),
{
    if ps.len() == 0 {
        None
    } else if ps[0].path@ == p {
        Some(ps[0])
    } else {
        facts_of(ps.drop_first(), p)
    }
}

fn find_facts(ps: &Vec<PathFacts>, p: &str) -> (r: Option<usize>)
    ensures
        match (r, facts_of(ps@, p@)) {
            (Some(i), Some(f)) => i < ps@.len() && ps@[i as int] == f,
            (None, None) => true,
            _ => false,
        },
{
    let mut i: usize = 0;
    assert(ps@.subrange(0, ps@.len() as int) =~= ps@);
    while i < ps.len()
        invariant
            i <= ps@.len(),
            facts_of(ps@, p@) == facts_of(ps@.subrange(i as int, ps@.len() as int), p@),
        decreases ps@.len() - i,
    {
        let ghost rest = ps@.subrange(i as int, ps@.len() as int);
        assert(rest[0] == ps@[i as int]);
        if str_eq(ps[i].path.as_str(), p) {
            return Some(i);
        }
        assert(rest.drop_first() =~= ps@.subrange(i + 1, ps@.len() as int));
        i = i + 1;
    }
    None
}

/// The path `/` itself, however it is written.
pub open spec fn is_root_path(p: Seq<char>) -> bool {
    is_absolute(p) && path_components(p).len() == 0
}

/// `validate_directory`: an absolute directory that is not `/` and not under the
/// forbidden mount, and that exists.
pub open spec fn directory_check(var: &'static str, p: Seq<char>, facts: Seq<PathFacts>) -> Result<Seq<char>, ConfigError> {
    if !is_absolute(p) {
        Err(ConfigError::NonAbsoluteDirectory(var))
    } else if is_root_path(p) {
        Err(ConfigError::RootDirectory(var))
    } else if within(FORBIDDEN_ROOT@, p) {
        Err(ConfigError::ForbiddenDirectory(var))
    } else if !(facts_of(facts, p) matches Some(f) && f.is_dir) {
        Err(ConfigError::MissingDirectory(var))
    } else {
        Ok(p)
    }
}

fn absolute(p: &str) -> (r: bool)
    ensures
        r == is_absolute(p@),
{
    let v = chars_of(p);
    v.len() > 0 && v[0] == '/'
}

fn root_path(p: &str) -> (r: bool)
    ensures
        r == is_root_path(p@),
{
    let v = chars_of(p);
    absolute(p) && crate::server::security::path::components_of(v.as_slice()).len() == 0
}

pub fn validate_directory(var: &'static str, p: &str, facts: &HostFacts) -> (r: Result<String, ConfigError>)
    ensures
        match (r, directory_check(var, p@, facts.paths@)) {
            (Ok(a), Ok(b)) => a@ == b,
            (Err(e), Err(f)) => e == f,
            _ => false,
        },
{
    if !absolute(p) {
        return Err(ConfigError::NonAbsoluteDirectory(var));
    }
    if root_path(p) {
        return Err(ConfigError::RootDirectory(var));
    }
    if crate::server::security::path::path_within(FORBIDDEN_ROOT, p) {
        return Err(ConfigError::ForbiddenDirectory(var));
    }
    match find_facts(&facts.paths, p) {
        Some(i) => {
            if !facts.paths[i].is_dir {
                return Err(ConfigError::MissingDirectory(var));
            }
        },
        None => return Err(ConfigError::MissingDirectory(var)),
    }
    Ok(p.to_owned())
}

/// `validate_secret_file`: an absolute regular file with text in it, readable by
/// its owner only.
pub open spec fn secret_check(var: &'static str, p: Seq<char>, facts: Seq<PathFacts>) -> Result<Seq<char>, ConfigError> {
    if !is_absolute(p) {
        Err(ConfigError::NonAbsoluteFile(var))
    } else {
        match facts_of(facts, p) {
            None => Err(ConfigError::MissingFile(var)),
            Some(f) => if !f.is_file {
                Err(ConfigError::MissingFile(var))
            } else {
                match f.contents {
                    None => Err(ConfigError::UnreadableSecret(var)),
                    Some(c) => if is_blank(c@) {
                        Err(ConfigError::EmptySecret(var))
                    } else {
                        match f.mode {
                            None => Err(ConfigError::UnreadableSecret(var)),
                            Some(m) => if m & 63 != 0 {
                                Err(ConfigError::UnsafeSecretPermissions(var))
                            } else {
                                Ok(p)
                            },
                        }
                    },
                }
            },
        }
    }
}

pub fn validate_secret_file(var: &'static str, p: &str, facts: &HostFacts) -> (r: Result<String, ConfigError>)
    ensures
        match (r, secret_check(var, p@, facts.paths@)) {
            (Ok(a), Ok(b)) => a@ == b,
            (Err(e), Err(f)) => e == f,
            _ => false,
        },
{
    if !absolute(p) {
        return Err(ConfigError::NonAbsoluteFile(var));
    }
    let i = match find_facts(&facts.paths, p) {
        Some(i) => i,
        None => return Err(ConfigError::MissingFile(var)),
    };
    let f = &facts.paths[i];
    if !f.is_file {
        return Err(ConfigError::MissingFile(var));
    }
    match &f.contents {
        None => return Err(ConfigError::UnreadableSecret(var)),
        Some(c) => {
            if str_blank(c.as_str()) {
                return Err(ConfigError::EmptySecret(var));
            }
        },
    }
    match f.mode {
        None => Err(ConfigError::UnreadableSecret(var)),
        Some(m) => {
            if m & 63 != 0 {
                Err(ConfigError::UnsafeSecretPermissions(var))
            } else {
                Ok(p.to_owned())
            }
        },
    }
}

/// An optional secret file: unset or blank means none.
pub open spec fn optional_secret(env: Seq<(String, String)>, key: &'static str, facts: Seq<PathFacts>) -> Result<Option<Seq<char>>, ConfigError> {
    match env_get(env, key@) {
        Some(v) => if is_blank(v) {
            Ok(None)
        } else {
            match secret_check(key, v, facts) {
                Ok(p) => Ok(Some(p)),
                Err(e) => Err(e),
            }
        },
        None => Ok(None),
    }
}

pub fn optional_secret_file(env: &[(String, String)], key: &'static str, facts: &HostFacts) -> (r: Result<Option<String>, ConfigError>)
    ensures
        match (r, optional_secret(env@, key, facts.paths@)) {
            (Ok(a), Ok(b)) => opt_text(a) == b,
            (Err(e), Err(f)) => e == f,
            _ => false,
        },
{
    match env_lookup(env, key) {
        Some(v) => {
            if str_blank(v.as_str()) {
                Ok(None)
            } else {
                match validate_secret_file(key, v.as_str(), facts) {
                    Ok(p) => Ok(Some(p)),
                    Err(e) => Err(e),
                }
            }
        },
        None => Ok(None),
    }
}

/// `MOVIEBOX_MAX_HEIGHT`: a `u16` of at most 1080.
pub open spec fn maximum_height_of(v: Seq<char>) -> Result<u16, ConfigError> {
    match parse_unsigned(v, 65535) {
        Some(n) => if n > 1080 {
            Err(ConfigError::InvalidMaximumHeight("MOVIEBOX_MAX_HEIGHT"))
        } else {
            Ok(n as u16)
        },
        None => Err(ConfigError::InvalidMaximumHeight("MOVIEBOX_MAX_HEIGHT")),
    }
}

pub fn parse_maximum_height(value: &str) -> (r: Result<u16, ConfigError>)
    ensures
        r == maximum_height_of(value@),
{
    match parse_unsigned_chars(chars_of(value).as_slice(), 65535) {
        Some(n) => {
            if n > 1080 {
                Err(ConfigError::InvalidMaximumHeight("MOVIEBOX_MAX_HEIGHT"))
            } else {
                Ok(n as u16)
            }
        },
        None => Err(ConfigError::InvalidMaximumHeight("MOVIEBOX_MAX_HEIGHT")),
    }
}

/// `MOVIEBOX_DOWNLOAD_CONCURRENCY`: exactly one download at a time.
pub open spec fn concurrency_of(v: Seq<char>) -> Result<usize, ConfigError> {
    if parse_unsigned(v, usize::MAX as nat) == Some(1nat) {
        Ok(1usize)
    } else {
        Err(ConfigError::InvalidDownloadConcurrency("MOVIEBOX_DOWNLOAD_CONCURRENCY"))
    }
}

pub fn parse_download_concurrency(value: &str) -> (r: Result<usize, ConfigError>)
    ensures
        r == concurrency_of(value@),
{
    match parse_unsigned_chars(chars_of(value).as_slice(), usize::MAX as u64) {
        Some(n) => {
            if n != 1 {
                Err(ConfigError::InvalidDownloadConcurrency("MOVIEBOX_DOWNLOAD_CONCURRENCY"))
            } else {
                Ok(1)
            }
        },
        None => Err(ConfigError::InvalidDownloadConcurrency("MOVIEBOX_DOWNLOAD_CONCURRENCY")),
    }
}

/// `MOVIEBOX_RESERVE_GIB`: a `u16` of at least ten.
pub open spec fn reserve_of(v: Seq<char>) -> Result<u16, ConfigError> {
    match parse_unsigned(v, 65535) {
        Some(n) => if n < MINIMUM_RESERVE_GIB {
            Err(ConfigError::InvalidReserve("MOVIEBOX_RESERVE_GIB"))
        } else {
            Ok(n as u16)
        },
        None => Err(ConfigError::InvalidReserve("MOVIEBOX_RESERVE_GIB")),
    }
}

pub fn parse_reserve_gib(value: &str) -> (r: Result<u16, ConfigError>)
    ensures
        r == reserve_of(value@),
{
    match parse_unsigned_chars(chars_of(value).as_slice(), 65535) {
        Some(n) => {
            if n < MINIMUM_RESERVE_GIB as u64 {
                Err(ConfigError::InvalidReserve("MOVIEBOX_RESERVE_GIB"))
            } else {
                Ok(n as u16)
            }
        },
        None => Err(ConfigError::InvalidReserve("MOVIEBOX_RESERVE_GIB")),
    }
}

/// `MOVIEBOX_LOG_FORMAT`: `text` or `json`, exactly.
pub open spec fn log_format_of(v: Seq<char>) -> Result<LogFormat, ConfigError> {
    if v == "text"@ {
        Ok(LogFormat::Text)
    } else if v == "json"@ {
        Ok(LogFormat::Json)
    } else {
        Err(ConfigError::InvalidLogFormat("MOVIEBOX_LOG_FORMAT"))
    }
}

pub fn parse_log_format(value: &str) -> (r: Result<LogFormat, ConfigError>)
    ensures
        r == log_format_of(value@),
{
    if str_eq(value, "text") {
        Ok(LogFormat::Text)
    } else if str_eq(value, "json") {
        Ok(LogFormat::Json)
    } else {
        Err(ConfigError::InvalidLogFormat("MOVIEBOX_LOG_FORMAT"))
    }
}

/// A Jellyfin server the media server may call: HTTP(S) on a loopback address,
/// `localhost` in any case, or the `jellyfin` service name.
pub open spec fn jellyfin_host_allowed(u: ParsedUrlView) -> bool {
    match u.host {
        Some(crate::urls::HostView::Ipv4(a)) => crate::urls::ipv4_loopback(a),
        Some(crate::urls::HostView::Ipv6(a)) => crate::urls::ipv6_loopback(a),
        Some(crate::urls::HostView::Domain(d)) => crate::text::lower_seq(d)
            == "localhost"@ || d == "jellyfin"@,
        None => false,
    }
}

/// `MOVIEBOX_JELLYFIN_BASE_URL`, as the URL parser serialises it.
pub open spec fn jellyfin_url_of(v: Seq<char>) -> Result<Seq<char>, ConfigError> {
    match url_parse(v) {
        None => Err(ConfigError::InvalidJellyfinBaseUrl("MOVIEBOX_JELLYFIN_BASE_URL")),
        Some(u) => if !(u.scheme == "http"@ || u.scheme == "https"@) || !jellyfin_host_allowed(u) {
            Err(ConfigError::InvalidJellyfinBaseUrl("MOVIEBOX_JELLYFIN_BASE_URL"))
        } else {
            Ok(u.serialization)
        },
    }
}

fn lower_is(d: &str, word: &str) -> (r: bool)
    requires
        crate::text::lower_seq(word@) == word@,
    ensures
        r == (crate::text::lower_seq(d@) == word@),
{
    let l = crate::text::lower_chars(chars_of(d).as_slice());
    crate::text::chars_eq(l.as_slice(), chars_of(word).as_slice())
}

pub fn parse_jellyfin_base_url(value: &str) -> (r: Result<String, ConfigError>)
    ensures
        match (r, jellyfin_url_of(value@)) {
            (Ok(a), Ok(b)) => a@ == b,
            (Err(e), Err(f)) => e == f,
            _ => false,
        },
{
    let u = match parse_url(value) {
        Some(u) => u,
        None => return Err(ConfigError::InvalidJellyfinBaseUrl("MOVIEBOX_JELLYFIN_BASE_URL")),
    };
    let web = str_eq(u.scheme.as_str(), "http") || str_eq(u.scheme.as_str(), "https");
    let localhost = chars_of("localhost");
    assert(crate::text::lower_seq(localhost@) =~= localhost@) by {
        reveal_strlit("localhost");
    };
    let allowed = match &u.host {
        Some(crate::urls::UrlHost::Ipv4(a)) => crate::urls::is_ipv4_loopback(a),
        Some(crate::urls::UrlHost::Ipv6(a)) => crate::urls::is_ipv6_loopback(a),
        Some(crate::urls::UrlHost::Domain(d)) => lower_is(d.as_str(), "localhost") || str_eq(
            d.as_str(),
            "jellyfin",
        ),
        None => false,
    };
    if !web || !allowed {
        return Err(ConfigError::InvalidJellyfinBaseUrl("MOVIEBOX_JELLYFIN_BASE_URL"));
    }
    Ok(u.serialization)
}

/// The text that `percent_decode_str` followed by `decode_utf8` gives, or `None`
/// when the decoded bytes are not UTF-8.
pub uninterp spec fn percent_decoded(text: Seq<char>) -> Option<Seq<char>>;

/// The name/value pairs that `form_urlencoded::parse` reads, in order.
pub uninterp spec fn form_pairs(text: Seq<char>) -> Seq<(Seq<char>, Seq<char>)>;

/// The SHA-256 digest of a message.
pub uninterp spec fn sha256_digest(message: Seq<u8>) -> Seq<u8>;

/// `percent_decode_str(..).decode_utf8()`; its result is named, not restated.
#[verifier::external_body]
fn percent_decode(text: &str) -> (r: Option<String>)
    ensures
        opt_text(r) == percent_decoded(text@),
{
    percent_encoding::percent_decode_str(text).decode_utf8().ok().map(|c| c.into_owned())
}

/// `url::form_urlencoded::parse` of the text's bytes, each pair owned.
#[verifier::external_body]
fn form_urlencoded_pairs(text: &str) -> (r: Vec<(String, String)>)
    ensures
        r@.len() == form_pairs(text@).len(),
        forall|i: int|
            0 <= i < r@.len() ==> (#[trigger] r@[i]).0@ == form_pairs(text@)[i].0 && r@[i].1@
                == form_pairs(text@)[i].1,
{
    url::form_urlencoded::parse(text.as_bytes()).map(|(k, v)| (k.into_owned(), v.into_owned())).collect()
}

/// `Sha256::digest`; the digest is named, and it is 32 bytes long.
#[verifier::external_body]
pub(crate) fn sha256(message: &[u8]) -> (r: Vec<u8>)
    ensures
        r@ == sha256_digest(message@),
        r@.len() == 32,
{
    <sha2::Sha256 as sha2::Digest>::digest(message).to_vec()
}

/// The parent of an absolute path with at least one component, with its
/// components rejoined under `/`.
pub open spec fn parent_text(p: Seq<char>) -> Seq<char> {
    let cs = path_components(p);
    crate::server::security::path::join_all(
        seq!['/'],
        if cs.len() > 0 {
            cs.drop_last()
        } else {
            cs
        },
    )
}

/// Whether the query asks for an in-memory database.
pub open spec fn memory_mode(pairs: Seq<(Seq<char>, Seq<char>)>) -> bool {
    exists|i: int| 0 <= i < pairs.len() && (#[trigger] pairs[i]).0 == "mode"@ && pairs[i].1 == "memory"@
}

/// The file part of a SQLite URL, percent-decoded: after `sqlite://` or `sqlite:`
/// and before any `?`.
pub open spec fn database_file(v: Seq<char>) -> Option<Seq<char>> {
    let rest = if crate::text::starts_with(v, "sqlite://"@) {
        v.skip(9)
    } else {
        v.skip(7)
    };
    percent_decoded(crate::text::split_once(rest, '?').0)
}

/// `MOVIEBOX_DATABASE_URL`: a SQLite URL naming an absolute file that is not `/`
/// nor under the forbidden mount, not in memory, whose directory passes the
/// directory checks and which, if it exists, is a regular file.
pub open spec fn database_url_of(v: Seq<char>, facts: HostFacts) -> Result<Seq<char>, ConfigError> {
    let bad = ConfigError::InvalidDatabaseUrl("MOVIEBOX_DATABASE_URL");
    if !(crate::text::starts_with(v, "sqlite://"@) || crate::text::starts_with(v, "sqlite:"@)) {
        Err(bad)
    } else if !facts.database_options_parse {
        Err(bad)
    } else {
        match database_file(v) {
            None => Err(bad),
            Some(path) => {
                let params = match crate::text::split_once(v, '?').1 {
                    Some(q) => q,
                    None => seq![],
                };
                if !is_absolute(path) || is_root_path(path) || within(FORBIDDEN_ROOT@, path) {
                    Err(bad)
                } else if memory_mode(form_pairs(params)) {
                    Err(bad)
                } else {
                    match directory_check("MOVIEBOX_DATABASE_URL", parent_text(path), facts.paths@) {
                        Err(e) => Err(e),
                        Ok(_) => if facts_of(facts.paths@, path) matches Some(f) && f.exists
                            && !f.is_file {
                            Err(bad)
                        } else {
                            Ok(v)
                        },
                    }
                }
            },
        }
    }
}

fn parent_of(p: &[char]) -> (r: String)
    ensures
        r@ == parent_text(p@),
{
    let cs = crate::server::security::path::components_of(p);
    let ghost all = path_components(p@);
    let n: usize = if cs.len() > 0 {
        cs.len() - 1
    } else {
        0
    };
    let ghost kept = if all.len() > 0 {
        all.drop_last()
    } else {
        all
    };
    let mut out: Vec<char> = Vec::new();
    out.push('/');
    assert(out@ =~= seq!['/']);
    let mut i: usize = 0;
    assert(kept.subrange(0, 0) =~= Seq::<Seq<char>>::empty());
    while i < n
        invariant
            cs@.len() == all.len(),
            forall|k: int| 0 <= k < cs@.len() ==> #[trigger] cs@[k]@ == all[k],
            n == if cs@.len() > 0 { cs@.len() - 1 } else { 0 },
            kept.len() == n,
            forall|k: int| 0 <= k < n ==> #[trigger] kept[k] == all[k],
            i <= n,
            out@ == crate::server::security::path::join_all(seq!['/'], kept.subrange(0, i as int)),
        decreases n - i,
    {
        assert(kept[i as int] == cs@[i as int]@);
        crate::server::security::path::push_component(&mut out, cs[i].as_slice());
        assert(kept.subrange(0, i + 1).drop_last() =~= kept.subrange(0, i as int));
        i = i + 1;
    }
    assert(kept.subrange(0, i as int) =~= kept);
    string_of(out.as_slice())
}

fn has_memory_mode(params: &str) -> (r: bool)
    ensures
        r == memory_mode(form_pairs(params@)),
{
    let pairs = form_urlencoded_pairs(params);
    let mut i: usize = 0;
    while i < pairs.len()
        invariant
            i <= pairs@.len(),
            pairs@.len() == form_pairs(params@).len(),
            forall|k: int|
                0 <= k < pairs@.len() ==> (#[trigger] pairs@[k]).0@ == form_pairs(params@)[k].0
                    && pairs@[k].1@ == form_pairs(params@)[k].1,
            forall|k: int|
                0 <= k < i ==> !((#[trigger] form_pairs(params@)[k]).0 == "mode"@ && form_pairs(
                    params@,
                )[k].1 == "memory"@),
        decreases pairs@.len() - i,
    {
        assert(pairs@[i as int].0@ == form_pairs(params@)[i as int].0);
        if str_eq(pairs[i].0.as_str(), "mode") && str_eq(pairs[i].1.as_str(), "memory") {
            return true;
        }
        i = i + 1;
    }
    false
}

pub fn parse_database_url(value: &str, facts: &HostFacts) -> (r: Result<String, ConfigError>)
    ensures
        match (r, database_url_of(value@, *facts)) {
            (Ok(a), Ok(b)) => a@ == b,
            (Err(e), Err(f)) => e == f,
            _ => false,
        },
{
    let bad = ConfigError::InvalidDatabaseUrl("MOVIEBOX_DATABASE_URL");
    let v = chars_of(value);
    let long_prefix = chars_of("sqlite://");
    let short_prefix = chars_of("sqlite:");
    let long = crate::text::starts_with_chars(v.as_slice(), long_prefix.as_slice());
    let short = crate::text::starts_with_chars(v.as_slice(), short_prefix.as_slice());
    if !(long || short) {
        return Err(bad);
    }
    if !facts.database_options_parse {
        return Err(bad);
    }
    proof {
        reveal_strlit("sqlite://");
        reveal_strlit("sqlite:");
    }
    let rest = if long {
        crate::text::slice_chars(v.as_slice(), 9, v.len())
    } else {
        crate::text::slice_chars(v.as_slice(), 7, v.len())
    };
    let (file_part, _) = crate::text::split_once_chars(rest.as_slice(), '?');
    let path = match percent_decode(string_of(file_part.as_slice()).as_str()) {
        Some(p) => p,
        None => return Err(bad),
    };
    let (_, query) = crate::text::split_once_chars(v.as_slice(), '?');
    let params = match query {
        Some(q) => string_of(q.as_slice()),
        None => String::new(),
    };
    if !absolute(path.as_str()) || root_path(path.as_str())
        || crate::server::security::path::path_within(FORBIDDEN_ROOT, path.as_str()) {
        return Err(bad);
    }
    if has_memory_mode(params.as_str()) {
        return Err(bad);
    }
    let parent = parent_of(chars_of(path.as_str()).as_slice());
    match validate_directory("MOVIEBOX_DATABASE_URL", parent.as_str(), facts) {
        Err(e) => return Err(e),
        Ok(_) => {},
    }
    match find_facts(&facts.paths, path.as_str()) {
        Some(i) => {
            if facts.paths[i].exists && !facts.paths[i].is_file {
                return Err(bad);
            }
        },
        None => {},
    }
    Ok(value.to_owned())
}

/// A secret read from a file: its text trimmed, which must not be empty.
pub open spec fn secret_value(var: &'static str, contents: Option<Seq<char>>) -> Result<Seq<char>, ConfigError> {
    match contents {
        None => Err(ConfigError::UnreadableSecret(var)),
        Some(c) => if is_blank(c) {
            Err(ConfigError::EmptySecret(var))
        } else {
            Ok(trim(c))
        },
    }
}

/// The trimmed text of a secret file, given what reading it gave.
pub fn secret_text(var: &'static str, contents: Option<String>) -> (r: Result<String, ConfigError>)
    ensures
        match (r, secret_value(var, opt_text(contents))) {
            (Ok(a), Ok(b)) => a@ == b,
            (Err(e), Err(f)) => e == f,
            _ => false,
        },
{
    match contents {
        None => Err(ConfigError::UnreadableSecret(var)),
        Some(c) => {
            let v = chars_of(c.as_str());
            if chars_blank(v.as_slice()) {
                Err(ConfigError::EmptySecret(var))
            } else {
                Ok(string_of(trim_chars(v.as_slice()).as_slice()))
            }
        },
    }
}

/// The key that session tokens are hashed with: the SHA-256 digest of the
/// trimmed session secret.
pub open spec fn pepper_of(contents: Option<Seq<char>>) -> Result<Seq<u8>, ConfigError> {
    match secret_value("MOVIEBOX_SESSION_KEY_FILE", contents) {
        Err(e) => Err(e),
        Ok(t) => Ok(sha256_digest(vstd::utf8::encode_utf8(t))),
    }
}

pub fn derive_session_pepper(contents: Option<String>) -> (r: Result<Vec<u8>, ConfigError>)
    ensures
        match (r, pepper_of(opt_text(contents))) {
            (Ok(a), Ok(b)) => a@ == b && a@.len() == 32,
            (Err(e), Err(f)) => e == f,
            _ => false,
        },
{
    match secret_text("MOVIEBOX_SESSION_KEY_FILE", contents) {
        Err(e) => Err(e),
        Ok(t) => {
            let bytes = t.as_str().as_bytes_vec();
            Ok(sha256(bytes.as_slice()))
        },
    }
}

/// `MOVIEBOX_NOTIFY_RECIPIENT`, trimmed; blank means none.
pub open spec fn recipient_of(env: Seq<(String, String)>) -> Option<Seq<char>> {
    match env_get(env, "MOVIEBOX_NOTIFY_RECIPIENT"@) {
        Some(v) => if is_blank(v) {
            None
        } else {
            Some(trim(v))
        },
        None => None,
    }
}

/// `MOVIEBOX_NOTIFY_LINK_URL`, trimmed and parsed; blank means none.
pub open spec fn link_url_of(env: Seq<(String, String)>) -> Result<Option<Seq<char>>, ConfigError> {
    match env_get(env, "MOVIEBOX_NOTIFY_LINK_URL"@) {
        Some(v) => if is_blank(v) {
            Ok(None)
        } else {
            match url_parse(trim(v)) {
                Some(u) => Ok(Some(u.serialization)),
                None => Err(ConfigError::InvalidUrl("MOVIEBOX_NOTIFY_LINK_URL")),
            }
        },
        None => Ok(None),
    }
}

/// `MOVIEBOX_SUBTITLE_LANGUAGE`: unset means English; `None` means disabled.
pub open spec fn subtitle_language_of(env: Seq<(String, String)>) -> Option<Seq<char>> {
    match env_get(env, "MOVIEBOX_SUBTITLE_LANGUAGE"@) {
        Some(v) => preference_of(v),
        None => Some("english"@),
    }
}

/// The language of a preference, or `None` when it is disabled.
pub open spec fn preference_language(p: SubtitlePreference) -> Option<Seq<char>> {
    match p {
        SubtitlePreference::Disabled => None,
        SubtitlePreference::Language(l) => Some(l@),
    }
}

/// The server's configuration. Paths and URLs are kept as text.
#[derive(Debug, Clone)]
pub struct ServerConfig {
    pub bind_addr: String,
    pub database_url: String,
    pub media_root: String,
    pub partial_root: String,
    pub config_root: String,
    pub admin_password_file: String,
    pub session_key_file: String,
    pub maximum_height: u16,
    pub download_concurrency: usize,
    pub reserve_bytes: u64,
    pub reserve_gib: u16,
    pub jellyfin_base_url: String,
    pub jellyfin_api_key_file: Option<String>,
    /// Bearer token file for the MCP endpoint; unset leaves the endpoint disabled.
    pub mcp_token_file: Option<String>,
    /// Webhook posted when a download is ready; unset disables notifications.
    pub notify_webhook_url_file: Option<String>,
    /// Name used to address the notification.
    pub notify_recipient: Option<String>,
    /// Where tapping the notification should take the viewer.
    pub notify_link_url: Option<String>,
    pub log_format: LogFormat,
    /// Language attached automatically when a download names no subtitle.
    pub subtitle_preference: SubtitlePreference,
    pub session_cookie_name: String,
    pub session_pepper: Vec<u8>,
}

pub struct ServerConfigView {
    pub bind_addr: Seq<char>,
    pub database_url: Seq<char>,
    pub media_root: Seq<char>,
    pub partial_root: Seq<char>,
    pub config_root: Seq<char>,
    pub admin_password_file: Seq<char>,
    pub session_key_file: Seq<char>,
    pub maximum_height: u16,
    pub download_concurrency: usize,
    pub reserve_bytes: u64,
    pub reserve_gib: u16,
    pub jellyfin_base_url: Seq<char>,
    pub jellyfin_api_key_file: Option<Seq<char>>,
    pub mcp_token_file: Option<Seq<char>>,
    pub notify_webhook_url_file: Option<Seq<char>>,
    pub notify_recipient: Option<Seq<char>>,
    pub notify_link_url: Option<Seq<char>>,
    pub log_format: LogFormat,
    pub subtitle_language: Option<Seq<char>>,
    pub session_cookie_name: Seq<char>,
    pub session_pepper: Seq<u8>,
}

impl View for ServerConfig {
    type V = ServerConfigView;

    open spec fn view(&self) -> ServerConfigView {
        ServerConfigView {
            bind_addr: self.bind_addr@,
            database_url: self.database_url@,
            media_root: self.media_root@,
            partial_root: self.partial_root@,
            config_root: self.config_root@,
            admin_password_file: self.admin_password_file@,
            session_key_file: self.session_key_file@,
            maximum_height: self.maximum_height,
            download_concurrency: self.download_concurrency,
            reserve_bytes: self.reserve_bytes,
            reserve_gib: self.reserve_gib,
            jellyfin_base_url: self.jellyfin_base_url@,
            jellyfin_api_key_file: opt_text(self.jellyfin_api_key_file),
            mcp_token_file: opt_text(self.mcp_token_file),
            notify_webhook_url_file: opt_text(self.notify_webhook_url_file),
            notify_recipient: opt_text(self.notify_recipient),
            notify_link_url: opt_text(self.notify_link_url),
            log_format: self.log_format,
            subtitle_language: preference_language(self.subtitle_preference),
            session_cookie_name: self.session_cookie_name@,
            session_pepper: self.session_pepper@,
        }
    }
}

pub open spec fn directory_var(env: Seq<(String, String)>, key: &'static str, ps: Seq<PathFacts>) -> Result<Seq<char>, ConfigError> {
    match required(env, key) {
        Err(e) => Err(e),
        Ok(v) => directory_check(key, v, ps),
    }
}

pub open spec fn secret_var(env: Seq<(String, String)>, key: &'static str, ps: Seq<PathFacts>) -> Result<Seq<char>, ConfigError> {
    match required(env, key) {
        Err(e) => Err(e),
        Ok(v) => secret_check(key, v, ps),
    }
}

pub open spec fn file_contents(ps: Seq<PathFacts>, p: Seq<char>) -> Option<Seq<char>> {
    match facts_of(ps, p) {
        Some(f) => opt_text(f.contents),
        None => None,
    }
}

/// The configuration the variables and facts give, or the first refusal, in
/// the order the variables are read.
pub open spec fn config_of(env: Seq<(String, String)>, facts: HostFacts) -> Result<ServerConfigView, ConfigError> {
    let ps = facts.paths@;
    match required(env, "MOVIEBOX_BIND") {
        Err(e) => Err(e),
        Ok(bind) => if !facts.bind_parses {
            Err(ConfigError::InvalidBind("MOVIEBOX_BIND"))
        } else {
            match required(env, "MOVIEBOX_DATABASE_URL") {
                Err(e) => Err(e),
                Ok(db_text) => match database_url_of(db_text, facts) {
                    Err(e) => Err(e),
                    Ok(db) => match directory_var(env, "MOVIEBOX_MEDIA_ROOT", ps) {
                        Err(e) => Err(e),
                        Ok(media) => match directory_var(env, "MOVIEBOX_PARTIAL_ROOT", ps) {
                            Err(e) => Err(e),
                            Ok(partial) => match directory_var(env, "MOVIEBOX_CONFIG_ROOT", ps) {
                                Err(e) => Err(e),
                                Ok(config) => config_rest(env, facts, bind, db, media, partial, config),
                            },
                        },
                    },
                },
            }
        },
    }
}

/// The settings read after the directories.
pub open spec fn config_rest(
    env: Seq<(String, String)>,
    facts: HostFacts,
    bind: Seq<char>,
    db: Seq<char>,
    media: Seq<char>,
    partial: Seq<char>,
    config: Seq<char>,
) -> Result<ServerConfigView, ConfigError> {
    let ps = facts.paths@;
    match secret_var(env, "MOVIEBOX_ADMIN_PASSWORD_FILE", ps) {
        Err(e) => Err(e),
        Ok(admin) => match secret_var(env, "MOVIEBOX_SESSION_KEY_FILE", ps) {
            Err(e) => Err(e),
            Ok(session_key) => match required(env, "MOVIEBOX_MAX_HEIGHT") {
                Err(e) => Err(e),
                Ok(h) => match maximum_height_of(h) {
                    Err(e) => Err(e),
                    Ok(height) => match required(env, "MOVIEBOX_DOWNLOAD_CONCURRENCY") {
                        Err(e) => Err(e),
                        Ok(c) => match concurrency_of(c) {
                            Err(e) => Err(e),
                            Ok(concurrency) => match required(env, "MOVIEBOX_RESERVE_GIB") {
                                Err(e) => Err(e),
                                Ok(r) => match reserve_of(r) {
                                    Err(e) => Err(e),
                                    Ok(reserve) => config_tail(
                                        env,
                                        facts,
                                        ServerConfigView {
                                            bind_addr: bind,
                                            database_url: db,
                                            media_root: media,
                                            partial_root: partial,
                                            config_root: config,
                                            admin_password_file: admin,
                                            session_key_file: session_key,
                                            maximum_height: height,
                                            download_concurrency: concurrency,
                                            reserve_bytes: (reserve as u64 * 1073741824) as u64,
                                            reserve_gib: reserve,
                                            jellyfin_base_url: seq![],
                                            jellyfin_api_key_file: None,
                                            mcp_token_file: None,
                                            notify_webhook_url_file: None,
                                            notify_recipient: None,
                                            notify_link_url: None,
                                            log_format: LogFormat::Text,
                                            subtitle_language: None,
                                            session_cookie_name: COOKIE_NAME@,
                                            session_pepper: seq![],
                                        },
                                    ),
                                },
                            },
                        },
                    },
                },
            },
        },
    }
}

/// The remaining settings, filled into `head`.
pub open spec fn config_tail(env: Seq<(String, String)>, facts: HostFacts, head: ServerConfigView) -> Result<ServerConfigView, ConfigError> {
    let ps = facts.paths@;
    match required(env, "MOVIEBOX_JELLYFIN_BASE_URL") {
        Err(e) => Err(e),
        Ok(j) => match jellyfin_url_of(j) {
            Err(e) => Err(e),
            Ok(jellyfin) => match optional_secret(env, "MOVIEBOX_JELLYFIN_API_KEY_FILE", ps) {
                Err(e) => Err(e),
                Ok(key_file) => match optional_secret(env, "MOVIEBOX_MCP_TOKEN_FILE", ps) {
                    Err(e) => Err(e),
                    Ok(mcp) => match optional_secret(env, "MOVIEBOX_NOTIFY_WEBHOOK_URL_FILE", ps) {
                        Err(e) => Err(e),
                        Ok(webhook) => match link_url_of(env) {
                            Err(e) => Err(e),
                            Ok(link) => match required(env, "MOVIEBOX_LOG_FORMAT") {
                                Err(e) => Err(e),
                                Ok(l) => match log_format_of(l) {
                                    Err(e) => Err(e),
                                    Ok(format) => match pepper_of(
                                        file_contents(ps, head.session_key_file),
                                    ) {
                                        Err(e) => Err(e),
                                        Ok(pepper) => Ok(
                                            ServerConfigView {
                                                jellyfin_base_url: jellyfin,
                                                jellyfin_api_key_file: key_file,
                                                mcp_token_file: mcp,
                                                notify_webhook_url_file: webhook,
                                                notify_recipient: recipient_of(env),
                                                notify_link_url: link,
                                                log_format: format,
                                                subtitle_language: subtitle_language_of(env),
                                                session_pepper: pepper,
                                                ..head
                                            },
                                        ),
                                    },
                                },
                            },
                        },
                    },
                },
            },
        },
    }
}

fn directory_setting(env: &[(String, String)], key: &'static str, facts: &HostFacts) -> (r: Result<String, ConfigError>)
    ensures
        match (r, directory_var(env@, key, facts.paths@)) {
            (Ok(a), Ok(b)) => a@ == b,
            (Err(e), Err(f)) => e == f,
            _ => false,
        },
{
    match required_var(env, key) {
        Err(e) => Err(e),
        Ok(v) => validate_directory(key, v.as_str(), facts),
    }
}

fn secret_setting(env: &[(String, String)], key: &'static str, facts: &HostFacts) -> (r: Result<String, ConfigError>)
    ensures
        match (r, secret_var(env@, key, facts.paths@)) {
            (Ok(a), Ok(b)) => a@ == b,
            (Err(e), Err(f)) => e == f,
            _ => false,
        },
{
    match required_var(env, key) {
        Err(e) => Err(e),
        Ok(v) => validate_secret_file(key, v.as_str(), facts),
    }
}

fn notify_recipient(env: &[(String, String)]) -> (r: Option<String>)
    ensures
        opt_text(r) == recipient_of(env@),
{
    match env_lookup(env, "MOVIEBOX_NOTIFY_RECIPIENT") {
        Some(v) => {
            let c = chars_of(v.as_str());
            if chars_blank(c.as_slice()) {
                None
            } else {
                Some(string_of(trim_chars(c.as_slice()).as_slice()))
            }
        },
        None => None,
    }
}

fn notify_link_url(env: &[(String, String)]) -> (r: Result<Option<String>, ConfigError>)
    ensures
        match (r, link_url_of(env@)) {
            (Ok(a), Ok(b)) => opt_text(a) == b,
            (Err(e), Err(f)) => e == f,
            _ => false,
        },
{
    match env_lookup(env, "MOVIEBOX_NOTIFY_LINK_URL") {
        Some(v) => {
            let c = chars_of(v.as_str());
            if chars_blank(c.as_slice()) {
                Ok(None)
            } else {
                let t = string_of(trim_chars(c.as_slice()).as_slice());
                match parse_url(t.as_str()) {
                    Some(u) => Ok(Some(u.serialization)),
                    None => Err(ConfigError::InvalidUrl("MOVIEBOX_NOTIFY_LINK_URL")),
                }
            }
        },
        None => Ok(None),
    }
}

fn subtitle_preference(env: &[(String, String)]) -> (r: SubtitlePreference)
    ensures
        preference_language(r) == subtitle_language_of(env@),
{
    match env_lookup(env, "MOVIEBOX_SUBTITLE_LANGUAGE") {
        Some(v) => SubtitlePreference::parse(v.as_str()),
        None => SubtitlePreference::default(),
    }
}

fn contents_of(facts: &HostFacts, p: &str) -> (r: Option<String>)
    ensures
        opt_text(r) == file_contents(facts.paths@, p@),
{
    match find_facts(&facts.paths, p) {
        Some(i) => match &facts.paths[i].contents {
            Some(c) => Some(c.clone()),
            None => None,
        },
        None => None,
    }
}

impl ServerConfig {
    /// Reads the configuration from the variables, checking each setting in turn
    /// against the gathered facts; the first refusal is returned.
    pub fn from_map(env: &[(String, String)], facts: &HostFacts) -> (r: Result<Self, ConfigError>)
        ensures
            match (r, config_of(env@, *facts)) {
                (Ok(a), Ok(b)) => a@ == b,
                (Err(e), Err(f)) => e == f,
                _ => false,
            },
    {
        let bind_addr = match required_var(env, "MOVIEBOX_BIND") {
            Ok(v) => v,
            Err(e) => return Err(e),
        };
        if !facts.bind_parses {
            return Err(ConfigError::InvalidBind("MOVIEBOX_BIND"));
        }
        let database_url = match required_var(env, "MOVIEBOX_DATABASE_URL") {
            Ok(v) => match parse_database_url(v.as_str(), facts) {
                Ok(d) => d,
                Err(e) => return Err(e),
            },
            Err(e) => return Err(e),
        };
        let media_root = match directory_setting(env, "MOVIEBOX_MEDIA_ROOT", facts) {
            Ok(v) => v,
            Err(e) => return Err(e),
        };
        let partial_root = match directory_setting(env, "MOVIEBOX_PARTIAL_ROOT", facts) {
            Ok(v) => v,
            Err(e) => return Err(e),
        };
        let config_root = match directory_setting(env, "MOVIEBOX_CONFIG_ROOT", facts) {
            Ok(v) => v,
            Err(e) => return Err(e),
        };
        Self::from_map_rest(env, facts, bind_addr, database_url, media_root, partial_root, config_root)
    }

    fn from_map_rest(
        env: &[(String, String)],
        facts: &HostFacts,
        bind_addr: String,
        database_url: String,
        media_root: String,
        partial_root: String,
        config_root: String,
    ) -> (r: Result<Self, ConfigError>)
        ensures
            match (
                r,
                config_rest(
                    env@,
                    *facts,
                    bind_addr@,
                    database_url@,
                    media_root@,
                    partial_root@,
                    config_root@,
                ),
            ) {
                (Ok(a), Ok(b)) => a@ == b,
                (Err(e), Err(f)) => e == f,
                _ => false,
            },
    {
        let admin_password_file = match secret_setting(env, "MOVIEBOX_ADMIN_PASSWORD_FILE", facts) {
            Ok(v) => v,
            Err(e) => return Err(e),
        };
        let session_key_file = match secret_setting(env, "MOVIEBOX_SESSION_KEY_FILE", facts) {
            Ok(v) => v,
            Err(e) => return Err(e),
        };
        let maximum_height = match required_var(env, "MOVIEBOX_MAX_HEIGHT") {
            Ok(v) => match parse_maximum_height(v.as_str()) {
                Ok(h) => h,
                Err(e) => return Err(e),
            },
            Err(e) => return Err(e),
        };
        let download_concurrency = match required_var(env, "MOVIEBOX_DOWNLOAD_CONCURRENCY") {
            Ok(v) => match parse_download_concurrency(v.as_str()) {
                Ok(c) => c,
                Err(e) => return Err(e),
            },
            Err(e) => return Err(e),
        };
        let reserve_gib = match required_var(env, "MOVIEBOX_RESERVE_GIB") {
            Ok(v) => match parse_reserve_gib(v.as_str()) {
                Ok(g) => g,
                Err(e) => return Err(e),
            },
            Err(e) => return Err(e),
        };
        let head = ServerConfig {
            bind_addr,
            database_url,
            media_root,
            partial_root,
            config_root,
            admin_password_file,
            session_key_file,
            maximum_height,
            download_concurrency,
            reserve_bytes: reserve_gib as u64 * 1073741824,
            reserve_gib,
            jellyfin_base_url: String::new(),
            jellyfin_api_key_file: None,
            mcp_token_file: None,
            notify_webhook_url_file: None,
            notify_recipient: None,
            notify_link_url: None,
            log_format: LogFormat::Text,
            subtitle_preference: SubtitlePreference::Disabled,
            session_cookie_name: crate::text::owned(COOKIE_NAME),
            session_pepper: Vec::new(),
        };
        Self::from_map_tail(env, facts, head)
    }

    fn from_map_tail(env: &[(String, String)], facts: &HostFacts, head: ServerConfig) -> (r: Result<Self, ConfigError>)
        ensures
            match (r, config_tail(env@, *facts, head@)) {
                (Ok(a), Ok(b)) => a@ == b,
                (Err(e), Err(f)) => e == f,
                _ => false,
            },
    {
        let jellyfin_base_url = match required_var(env, "MOVIEBOX_JELLYFIN_BASE_URL") {
            Ok(v) => match parse_jellyfin_base_url(v.as_str()) {
                Ok(u) => u,
                Err(e) => return Err(e),
            },
            Err(e) => return Err(e),
        };
        let jellyfin_api_key_file = match optional_secret_file(env, "MOVIEBOX_JELLYFIN_API_KEY_FILE", facts) {
            Ok(v) => v,
            Err(e) => return Err(e),
        };
        let mcp_token_file = match optional_secret_file(env, "MOVIEBOX_MCP_TOKEN_FILE", facts) {
            Ok(v) => v,
            Err(e) => return Err(e),
        };
        let notify_webhook_url_file = match optional_secret_file(env, "MOVIEBOX_NOTIFY_WEBHOOK_URL_FILE", facts) {
            Ok(v) => v,
            Err(e) => return Err(e),
        };
        let notify_recipient = notify_recipient(env);
        let notify_link_url = match notify_link_url(env) {
            Ok(v) => v,
            Err(e) => return Err(e),
        };
        let log_format = match required_var(env, "MOVIEBOX_LOG_FORMAT") {
            Ok(v) => match parse_log_format(v.as_str()) {
                Ok(f) => f,
                Err(e) => return Err(e),
            },
            Err(e) => return Err(e),
        };
        let subtitle_preference = subtitle_preference(env);
        let session_pepper = match derive_session_pepper(contents_of(facts, head.session_key_file.as_str())) {
            Ok(p) => p,
            Err(e) => return Err(e),
        };
        Ok(ServerConfig {
            jellyfin_base_url,
            jellyfin_api_key_file,
            mcp_token_file,
            notify_webhook_url_file,
            notify_recipient,
            notify_link_url,
            log_format,
            subtitle_preference,
            session_pepper,
            ..head
        })
    }
}

/// The variables that name files or directories.
pub open spec fn path_var(key: Seq<char>) -> bool {
    ||| key == "MOVIEBOX_MEDIA_ROOT"@
    ||| key == "MOVIEBOX_PARTIAL_ROOT"@
    ||| key == "MOVIEBOX_CONFIG_ROOT"@
    ||| key == "MOVIEBOX_ADMIN_PASSWORD_FILE"@
    ||| key == "MOVIEBOX_SESSION_KEY_FILE"@
    ||| key == "MOVIEBOX_JELLYFIN_API_KEY_FILE"@
    ||| key == "MOVIEBOX_MCP_TOKEN_FILE"@
    ||| key == "MOVIEBOX_NOTIFY_WEBHOOK_URL_FILE"@
}

/// The paths whose facts the configuration may read: the values of the path
/// variables, and the database file with its directory.
pub open spec fn consulted(env: Seq<(String, String)>, p: Seq<char>) -> bool {
    ||| exists|key: Seq<char>| path_var(key) && env_get(env, key) == Some(p)
    ||| database_paths(env, p)
}

/// The database file and its directory.
pub open spec fn database_paths(env: Seq<(String, String)>, p: Seq<char>) -> bool {
    match env_get(env, "MOVIEBOX_DATABASE_URL"@) {
        Some(v) => crate::text::starts_with(v, "sqlite:"@) && match database_file(v) {
            Some(f) => p == f || p == parent_text(f),
            None => false,
        },
        None => false,
    }
}

/// Whether a path is in the list.
pub open spec fn listed(out: Seq<String>, p: Seq<char>) -> bool {
    exists|j: int| 0 <= j < out.len() && (#[trigger] out[j])@ == p
}

proof fn lemma_listed_push(out: Seq<String>, s: String)
    ensures
        listed(out.push(s), s@),
        forall|p: Seq<char>| listed(out, p) ==> listed(out.push(s), p),
{
    assert(out.push(s)[out.len() as int] == s);
    assert forall|p: Seq<char>| listed(out, p) implies listed(out.push(s), p) by {
        let j = choose|j: int| 0 <= j < out.len() && (#[trigger] out[j])@ == p;
        assert(out.push(s)[j] == out[j]);
    }
}

/// Every path the configuration may ask the filesystem about.
pub fn config_paths(env: &[(String, String)]) -> (r: Vec<String>)
    ensures
        forall|p: Seq<char>| consulted(env@, p) ==> listed(r@, p),
{
    let keys = [
        "MOVIEBOX_MEDIA_ROOT",
        "MOVIEBOX_PARTIAL_ROOT",
        "MOVIEBOX_CONFIG_ROOT",
        "MOVIEBOX_ADMIN_PASSWORD_FILE",
        "MOVIEBOX_SESSION_KEY_FILE",
        "MOVIEBOX_JELLYFIN_API_KEY_FILE",
        "MOVIEBOX_MCP_TOKEN_FILE",
        "MOVIEBOX_NOTIFY_WEBHOOK_URL_FILE",
    ];
    let ghost ks = keys@;
    assert(ks[0]@ == "MOVIEBOX_MEDIA_ROOT"@ && ks[1]@ == "MOVIEBOX_PARTIAL_ROOT"@ && ks[2]@
        == "MOVIEBOX_CONFIG_ROOT"@ && ks[3]@ == "MOVIEBOX_ADMIN_PASSWORD_FILE"@ && ks[4]@
        == "MOVIEBOX_SESSION_KEY_FILE"@ && ks[5]@ == "MOVIEBOX_JELLYFIN_API_KEY_FILE"@ && ks[6]@
        == "MOVIEBOX_MCP_TOKEN_FILE"@ && ks[7]@ == "MOVIEBOX_NOTIFY_WEBHOOK_URL_FILE"@);
    let mut out: Vec<String> = Vec::new();
    let mut i: usize = 0;
    while i < keys.len()
        invariant
            i <= keys@.len(),
            keys@ == ks,
            ks.len() == 8,
            forall|k: int|
                0 <= k < i ==> match env_get(env@, (#[trigger] ks[k])@) {
                    Some(p) => listed(out@, p),
                    None => true,
                },
        decreases keys@.len() - i,
    {
        match env_lookup(env, keys[i]) {
            Some(v) => {
                proof {
                    lemma_listed_push(out@, v);
                }
                out.push(v);
            },
            None => {},
        }
        i = i + 1;
    }
    assert forall|key: Seq<char>, p: Seq<char>| path_var(key) && env_get(env@, key) == Some(p) implies listed(out@, p) by {
        let k: int = if key == ks[0]@ {
            0
        } else if key == ks[1]@ {
            1
        } else if key == ks[2]@ {
            2
        } else if key == ks[3]@ {
            3
        } else if key == ks[4]@ {
            4
        } else if key == ks[5]@ {
            5
        } else if key == ks[6]@ {
            6
        } else {
            7
        };
        assert(ks[k]@ == key);
    }
    match env_lookup(env, "MOVIEBOX_DATABASE_URL") {
        Some(value) => {
            let v = chars_of(value.as_str());
            let short_prefix = chars_of("sqlite:");
            if crate::text::starts_with_chars(v.as_slice(), short_prefix.as_slice()) {
                let long_prefix = chars_of("sqlite://");
                proof {
                    reveal_strlit("sqlite://");
                    reveal_strlit("sqlite:");
                }
                let rest = if crate::text::starts_with_chars(v.as_slice(), long_prefix.as_slice()) {
                    crate::text::slice_chars(v.as_slice(), 9, v.len())
                } else {
                    crate::text::slice_chars(v.as_slice(), 7, v.len())
                };
                let (file_part, _) = crate::text::split_once_chars(rest.as_slice(), '?');
                match percent_decode(string_of(file_part.as_slice()).as_str()) {
                    Some(path) => {
                        let parent = parent_of(chars_of(path.as_str()).as_slice());
                        proof {
                            lemma_listed_push(out@, path);
                        }
                        out.push(path);
                        proof {
                            lemma_listed_push(out@, parent);
                        }
                        out.push(parent);
                    },
                    None => {},
                }
            }
        },
        None => {},
    }
    out
}

} // verus!

//! Sessions, request origins and login throttling.
//!
//! A session cookie is `<session id>.<token>`; only a keyed hash of the token is
//! stored. Mutating requests must come from an HTTPS origin on the host they are
//! sent to and carry the session's CSRF token. Five failed logins from one source
//! within ten minutes lock it out until the oldest failure ages.

use argon2::{PasswordHasher, PasswordVerifier};
use rand::RngExt;
use vstd::prelude::*;

use crate::text::{
    bytes_eq, char_index, chars_of, push_str, is_blank, lower_seq, opt_text, owned, split_once,
    split_once_chars, str_eq, string_of, trim, trim_chars,
};
use crate::catalog::models::{base64_url_text, encode_base64_url, hmac_sha256, hmac_sha256_tag};
use crate::server::config::ServerConfig;
use crate::server::error::{ApiError, ServerError};
use crate::server::jobs::model::{hyphenated, uuid_text};
use crate::urls::{parse_url, url_parse, HostView, ParsedUrl, ParsedUrlView, UrlHost};

verus! {

pub const ADMIN_USERNAME: &'static str = "admin";

pub const LOGIN_FAILURE_LIMIT: usize = 5;

/// Failures older than this no longer count: ten minutes, in nanoseconds.
pub const LOGIN_WINDOW_NANOS: i128 = 600000000000;

/// A session lapses after this long without use: thirty minutes, in seconds.
pub const IDLE_SESSION_SECONDS: i64 = 1800;

/// A session lapses this long after login, however it is used: seven days, in seconds.
pub const ABSOLUTE_SESSION_SECONDS: i64 = 604800;

pub struct AuthenticatedSession {
    pub session_id: String,
    pub username: String,
    pub csrf_token: String,
}

/// The cookie pieces of a header, each trimmed.
pub open spec fn cookie_value(parts: Seq<Seq<char>>, name: Seq<char>) -> Option<Seq<char>>
    decreases parts.len(),
{
    if parts.len() == 0 {
        None
    } else {
        let (key, value) = split_once(trim(parts[0]), '=');
        match value {
            Some(v) => if key == name {
                Some(v)
            } else {
                cookie_value(parts.drop_first(), name)
            },
            None => cookie_value(parts.drop_first(), name),
        }
    }
}

/// The value of the first cookie with that name in a `Cookie` header.
pub open spec fn named_cookie(header: Option<Seq<char>>, name: Seq<char>) -> Option<Seq<char>> {
    match header {
        Some(h) => cookie_value(crate::text::split_pieces(h, ';'), name),
        None => None,
    }
}

pub fn parse_named_cookie(cookie_header: Option<&str>, name: &str) -> (r: Option<String>)
    ensures
        opt_text(r) == named_cookie(crate::server::notify::opt_str(cookie_header), name@),
{
    let header = match cookie_header {
        Some(h) => h,
        None => return None,
    };
    let parts = crate::text::split_chars(chars_of(header).as_slice(), ';');
    let ghost all = parts@.map_values(|p: Vec<char>| p@);
    let want = chars_of(name);
    let mut i: usize = 0;
    assert(all.skip(0) =~= all);
    while i < parts.len()
        invariant
            i <= parts@.len(),
            all == parts@.map_values(|p: Vec<char>| p@),
            want@ == name@,
            crate::server::notify::opt_str(cookie_header) == Some(header@),
            named_cookie(Some(header@), name@) == cookie_value(all.skip(i as int), name@),
        decreases parts@.len() - i,
    {
        let ghost rest = all.skip(i as int);
        assert(rest[0] == parts@[i as int]@);
        assert(rest.drop_first() =~= all.skip(i + 1));
        let t = trim_chars(parts[i].as_slice());
        let (key, value) = split_once_chars(t.as_slice(), '=');
        match value {
            Some(v) => {
                if crate::text::chars_eq(key.as_slice(), want.as_slice()) {
                    return Some(string_of(v.as_slice()));
                }
            },
            None => {},
        }
        i = i + 1;
    }
    None
}

/// A session cookie is `<session id>.<token>`, both parts non-empty.
pub open spec fn session_parts(cookie: Seq<char>) -> Option<(Seq<char>, Seq<char>)> {
    let (id, token) = split_once(cookie, '.');
    match token {
        Some(t) => if id.len() > 0 && t.len() > 0 {
            Some((id, t))
        } else {
            None
        },
        None => None,
    }
}

pub fn split_session_cookie(cookie: &str) -> (r: Result<(String, String), ApiError>)
    ensures
        match (r, session_parts(cookie@)) {
            (Ok((a, b)), Some((c, d))) => a@ == c && b@ == d,
            (Err(e), None) => e == ApiError::AuthenticationRequired,
            _ => false,
        },
{
    let (id, token) = split_once_chars(chars_of(cookie).as_slice(), '.');
    match token {
        Some(t) => {
            if id.len() == 0 || t.len() == 0 {
                return Err(ApiError::AuthenticationRequired);
            }
            Ok((string_of(id.as_slice()), string_of(t.as_slice())))
        },
        None => Err(ApiError::AuthenticationRequired),
    }
}

/// Where a login attempt comes from: the first `X-Forwarded-For` entry when the
/// header is there, else `X-Real-IP`, trimmed; `unknown` when that is blank.
pub open spec fn request_source(forwarded_for: Option<Seq<char>>, real_ip: Option<Seq<char>>) -> Seq<char> {
    let picked = match forwarded_for {
        Some(f) => Some(split_once(f, ',').0),
        None => real_ip,
    };
    match picked {
        Some(p) => if is_blank(p) {
            "unknown"@
        } else {
            trim(p)
        },
        None => "unknown"@,
    }
}

/// What a `Host` header names: parsed as the authority of an HTTPS URL, with no
/// credentials, path, query or fragment, and with a host.
pub open spec fn host_header_url(host: Seq<char>) -> Option<ParsedUrlView> {
    let h = trim(host);
    if h.len() == 0 {
        None
    } else {
        match url_parse("https://"@ + h) {
            None => None,
            Some(u) => if u.username.len() > 0 || u.has_password || u.path != "/"@ || u.query is Some
                || u.fragment is Some || u.host is None {
                None
            } else {
                Some(u)
            },
        }
    }
}

pub fn parse_host_header(host: &str) -> (r: Option<ParsedUrl>)
    ensures
        match (r, host_header_url(host@)) {
            (Some(a), Some(b)) => a@ == b,
            (None, None) => true,
            _ => false,
        },
{
    let h = trim_chars(chars_of(host).as_slice());
    if h.len() == 0 {
        return None;
    }
    let text = crate::text::joined("https://", string_of(h.as_slice()).as_str());
    let u = match parse_url(text.as_str()) {
        Some(u) => u,
        None => return None,
    };
    if chars_of(u.username.as_str()).len() > 0 || u.has_password || !str_eq(u.path.as_str(), "/")
        || u.query.is_some() || u.fragment.is_some() || u.host.is_none() {
        return None;
    }
    Some(u)
}

/// Hosts match when both are the same kind: names compared without regard to
/// ASCII case, addresses exactly.
pub open spec fn hosts_agree(a: HostView, b: HostView) -> bool {
    match (a, b) {
        (HostView::Domain(x), HostView::Domain(y)) => lower_seq(x) == lower_seq(y),
        (HostView::Ipv4(x), HostView::Ipv4(y)) => x == y,
        (HostView::Ipv6(x), HostView::Ipv6(y)) => x == y,
        _ => false,
    }
}

pub fn hosts_match(a: &UrlHost, b: &UrlHost) -> (r: bool)
    ensures
        r == hosts_agree(a@, b@),
{
    match (a, b) {
        (UrlHost::Domain(x), UrlHost::Domain(y)) => {
            let lx = crate::text::lower_chars(chars_of(x.as_str()).as_slice());
            let ly = crate::text::lower_chars(chars_of(y.as_str()).as_slice());
            crate::text::chars_eq(lx.as_slice(), ly.as_slice())
        },
        (UrlHost::Ipv4(_), UrlHost::Ipv4(_)) | (UrlHost::Ipv6(_), UrlHost::Ipv6(_)) => {
            let sa = Some(a.duplicate());
            let sb = Some(b.duplicate());
            crate::urls::hosts_equal(&sa, &sb)
        },
        _ => false,
    }
}

/// The port a URL reaches: the written one, else the default of HTTP or HTTPS.
pub open spec fn port_of(u: ParsedUrlView) -> Option<u16> {
    match u.port {
        Some(p) => Some(p),
        None => if u.scheme == "http"@ {
            Some(80u16)
        } else if u.scheme == "https"@ {
            Some(443u16)
        } else {
            None
        },
    }
}

pub fn effective_port(u: &ParsedUrl) -> (r: Option<u16>)
    ensures
        r == port_of(u@),
{
    match u.port {
        Some(p) => Some(p),
        None => {
            if str_eq(u.scheme.as_str(), "http") {
                Some(80)
            } else if str_eq(u.scheme.as_str(), "https") {
                Some(443)
            } else {
                None
            }
        },
    }
}

/// A mutating request must come from an HTTPS page on the host and port it is
/// sent to.
pub open spec fn origin_allowed(origin: Option<Seq<char>>, host: Option<Seq<char>>) -> bool {
    match (origin, host) {
        (Some(o), Some(h)) => match (url_parse(o), host_header_url(h)) {
            (Some(po), Some(expected)) => po.scheme == "https"@ && match (po.host, expected.host) {
                (Some(a), Some(b)) => hosts_agree(a, b) && port_of(po) == port_of(expected),
                _ => false,
            },
            _ => false,
        },
        _ => false,
    }
}

// ---------------------------------------------------------------------------
// Passwords, tokens and cookies, from the outside crates that make them.

/// What argon2 says of a password against a stored PHC hash string.
pub uninterp spec fn argon2_accepts(password: Seq<char>, password_hash: Seq<char>) -> bool;

/// `argon2`: parses the stored hash (`PasswordHash::new`) and checks the password
/// against it with Argon2id, version 0x13 (`PasswordVerifier::verify_password`);
/// a hash that does not parse accepts nothing. The answer is named, not stated.
#[verifier::external_body]
fn verify_password(password: &str, password_hash: &str) -> (r: bool)
    ensures
        r == argon2_accepts(password@, password_hash@),
{
    let Ok(hash) = argon2::PasswordHash::new(password_hash) else {
        return false;
    };
    argon2::Argon2::new(argon2::Algorithm::Argon2id, argon2::Version::V0x13, argon2::Params::default())
        .verify_password(password.as_bytes(), &hash)
        .is_ok()
}

/// `argon2`: hashes a password with Argon2id, version 0x13, default parameters and
/// a fresh salt from the operating system's generator, as a PHC string; `None`
/// when hashing fails. The salt is random, so the text is not named; the contract
/// states only what the crate documents of every outcome: the hash accepts the
/// password it was made from.
#[verifier::external_body]
fn hash_password(password: &str) -> (r: Option<String>)
    ensures
        r matches Some(h) ==> argon2_accepts(password@, h@),
{
    let salt = argon2::password_hash::SaltString::generate(&mut argon2::password_hash::rand_core::OsRng);
    argon2::Argon2::new(argon2::Algorithm::Argon2id, argon2::Version::V0x13, argon2::Params::default())
        .hash_password(password.as_bytes(), &salt)
        .map(|hash| hash.to_string())
        .ok()
}

/// `rand`: `size` bytes from the thread's generator (`rand::rng`, filled with
/// `RngExt::fill`). Only how many there are is stated.
#[verifier::external_body]
pub(crate) fn random_bytes(size: usize) -> (r: Vec<u8>)
    ensures
        r@.len() == size,
{
    let mut bytes = vec![0_u8; size];
    rand::rng().fill(bytes.as_mut_slice());
    bytes
}

/// `uuid`: the 128 bits of a fresh random (version 4) UUID; nothing is stated
/// of them.
#[verifier::external_body]
fn random_uuid() -> (r: u128) {
    uuid::Uuid::new_v4().as_u128()
}

/// The attributes every session cookie carries, in the order the `cookie` crate
/// writes them.
pub open spec fn cookie_attributes() -> Seq<char> {
    "; HttpOnly; SameSite=Strict; Secure; Path=/"@
}

/// `cookie`: `Cookie::build((name, value))` with path `/`, HttpOnly, Secure and
/// SameSite=Strict, written with `to_string`, which puts the name and value
/// first and the attributes after them in this order.
#[verifier::external_body]
fn session_cookie_text(name: &str, value: &str) -> (r: String)
    ensures
        r@ == name@ + "="@ + value@ + cookie_attributes(),
{
    cookie::Cookie::build((name.to_owned(), value.to_owned()))
        .path("/")
        .http_only(true)
        .secure(true)
        .same_site(cookie::SameSite::Strict)
        .build()
        .to_string()
}

/// `cookie`: the same cookie with an empty value and `max_age` of zero seconds,
/// which the crate writes last, as `Max-Age=0`.
#[verifier::external_body]
fn expired_cookie_text(name: &str) -> (r: String)
    ensures
        r@ == name@ + "="@ + cookie_attributes() + "; Max-Age=0"@,
{
    cookie::Cookie::build((name.to_owned(), String::new()))
        .path("/")
        .http_only(true)
        .secure(true)
        .same_site(cookie::SameSite::Strict)
        .max_age(cookie::time::Duration::seconds(0))
        .build()
        .to_string()
}

/// A random token: `size` random bytes in unpadded URL-safe base64.
pub fn random_token(size: usize) -> (r: String)
    ensures
        exists|b: Seq<u8>| b.len() == size && r@ == base64_url_text(b),
{
    let bytes = random_bytes(size);
    encode_base64_url(bytes.as_slice())
}

/// The administrator's password hash to store at start-up: nothing when an
/// account already exists; else the hash of the password file's trimmed text.
/// `secret` is the file's text, `None` when it could not be read.
pub fn bootstrap_password_hash(existing_user: bool, secret: Option<String>) -> (r: Result<Option<String>, ServerError>)
    ensures
        existing_user ==> r == Ok::<Option<String>, ServerError>(None),
        !existing_user && secret is None ==> (r matches Err(ServerError::Startup(m))
            && m@ == "admin bootstrap secret could not be loaded"@),
        !existing_user && secret is Some ==> match r {
            Ok(Some(h)) => argon2_accepts(trim(secret->0@), h@),
            Ok(None) => false,
            Err(ServerError::Startup(m)) => m@ == "admin bootstrap secret could not be hashed"@,
        },
{
    if existing_user {
        return Ok(None);
    }
    let password = match secret {
        Some(text) => string_of(trim_chars(chars_of(text.as_str()).as_slice()).as_slice()),
        None => return Err(ServerError::Startup(owned("admin bootstrap secret could not be loaded"))),
    };
    match hash_password(password.as_str()) {
        Some(h) => Ok(Some(h)),
        None => Err(ServerError::Startup(owned("admin bootstrap secret could not be hashed"))),
    }
}

// ---------------------------------------------------------------------------
// The service.

/// The stored hash of a session token: HMAC-SHA256 keyed with the pepper over
/// the token's UTF-8 bytes.
pub open spec fn token_hash(pepper: Seq<u8>, token: Seq<char>) -> Seq<u8> {
    hmac_sha256_tag(pepper, vstd::utf8::encode_utf8(token))
}

/// Sessions and login throttling for the administrator account.
pub struct AuthService {
    pub session_cookie_name: String,
    pub session_pepper: Vec<u8>,
    pub login_failures: LoginFailures,
}

/// A session about to be stored: what the cookie carries and what is kept.
pub struct NewSession {
    /// A fresh UUID in its hyphenated form.
    pub session_id: String,
    pub token: String,
    /// What is stored in place of the token.
    pub token_hash: Vec<u8>,
    pub csrf_token: String,
    pub created_at: i64,
    pub expires_at: i64,
    pub absolute_expires_at: i64,
    /// The `Set-Cookie` value: `<session id>.<token>` under the session cookie's name.
    pub cookie: String,
}

/// What a presented session comes to.
#[derive(Debug, Clone, Copy, PartialEq, Eq, Structural)]
pub enum SessionCheck {
    /// The token is not the session's.
    WrongToken,
    /// The session has lapsed and is to be deleted.
    Expired,
    /// The session holds; it is kept alive until `next_expiry`.
    Valid { next_expiry: i64 },
}

fn copy_bytes(v: &Vec<u8>) -> (r: Vec<u8>)
    ensures
        r@ == v@,
{
    let mut out: Vec<u8> = Vec::new();
    let mut i: usize = 0;
    while i < v.len()
        invariant
            i <= v@.len(),
            out@ == v@.take(i as int),
        decreases v@.len() - i,
    {
        out.push(v[i]);
        i = i + 1;
        assert(out@ =~= v@.take(i as int));
    }
    assert(v@.take(v@.len() as int) =~= v@);
    out
}

/// Dropping aged failures twice drops nothing more.
proof fn lemma_pruned_twice(times: Seq<i128>, now: i128)
    ensures
        pruned(pruned(times, now), now) == pruned(times, now),
    decreases times.len(),
{
    if times.len() > 0 && now - times[0] > LOGIN_WINDOW_NANOS {
        lemma_pruned_twice(times.drop_first(), now);
    }
}

impl AuthService {
    pub fn new(config: &ServerConfig) -> (r: Self)
        ensures
            r.session_cookie_name == config.session_cookie_name,
            r.session_pepper@ == config.session_pepper@,
            forall|s: Seq<char>| #[trigger] r.login_failures.history(s) == Seq::<i128>::empty(),
    {
        AuthService {
            session_cookie_name: config.session_cookie_name.clone(),
            session_pepper: copy_bytes(&config.session_pepper),
            login_failures: LoginFailures::new(),
        }
    }

    /// The `Set-Cookie` value that ends a session in the browser.
    pub fn clear_session_cookie(&self) -> (r: String)
        ensures
            r@ == self.session_cookie_name@ + "="@ + cookie_attributes() + "; Max-Age=0"@,
    {
        expired_cookie_text(self.session_cookie_name.as_str())
    }

    /// The `Set-Cookie` value that carries a session.
    pub fn build_session_cookie(&self, value: &str) -> (r: String)
        ensures
            r@ == self.session_cookie_name@ + "="@ + value@ + cookie_attributes(),
    {
        session_cookie_text(self.session_cookie_name.as_str(), value)
    }

    /// The checks of a login attempt from `source` at `now` (nanoseconds):
    /// a throttled source is refused before anything else; without an account
    /// the login needs one; a wrong password is recorded against the source; a
    /// right one forgets the source's failures. `stored_hash` is the account's
    /// password hash, when there is an account.
    pub fn check_login(&mut self, source: &str, now: i128, stored_hash: Option<&str>, password: &str) -> (r: Result<(), ApiError>)
        ensures
            ({
                let before = pruned(old(self).login_failures.history(source@), now);
                let after = final(self).login_failures.history(source@);
                if before.len() >= LOGIN_FAILURE_LIMIT {
                    r == Err::<(), ApiError>(ApiError::TooManyAttempts) && after == before
                } else {
                    match stored_hash {
                        None => r == Err::<(), ApiError>(ApiError::AuthenticationRequired) && after == before,
                        Some(h) => if argon2_accepts(password@, h@) {
                            r == Ok::<(), ApiError>(()) && after == Seq::<i128>::empty()
                        } else {
                            r == Err::<(), ApiError>(ApiError::InvalidCredentials) && after == before.push(now)
                        },
                    }
                }
            }),
            forall|t: Seq<char>| t != source@ ==> #[trigger] final(self).login_failures.history(t)
                == old(self).login_failures.history(t),
            final(self).session_cookie_name == old(self).session_cookie_name,
            final(self).session_pepper == old(self).session_pepper,
    {
        proof {
            lemma_pruned_twice(self.login_failures.history(source@), now);
        }
        if self.login_failures.is_throttled(source, now) {
            return Err(ApiError::TooManyAttempts);
        }
        let h = match stored_hash {
            Some(h) => h,
            None => return Err(ApiError::AuthenticationRequired),
        };
        if !verify_password(password, h) {
            self.login_failures.record_failure(source, now);
            return Err(ApiError::InvalidCredentials);
        }
        self.login_failures.clear_failures(source);
        Ok(())
    }

    /// A new session created at `now` (seconds): a fresh id, a 32-byte token and
    /// a 24-byte CSRF token, idle expiry thirty minutes on and absolute expiry
    /// seven days on.
    pub fn start_session(&self, now: i64) -> (r: NewSession)
        requires
            now <= i64::MAX - ABSOLUTE_SESSION_SECONDS,
        ensures
            exists|v: u128| r.session_id@ == hyphenated(v),
            exists|b: Seq<u8>| b.len() == 32 && r.token@ == base64_url_text(b),
            exists|b: Seq<u8>| b.len() == 24 && r.csrf_token@ == base64_url_text(b),
            r.token_hash@ == token_hash(self.session_pepper@, r.token@),
            r.created_at == now,
            r.expires_at == now + IDLE_SESSION_SECONDS,
            r.absolute_expires_at == now + ABSOLUTE_SESSION_SECONDS,
            r.cookie@ == self.session_cookie_name@ + "="@ + r.session_id@ + "."@ + r.token@
                + cookie_attributes(),
    {
        let session_id = uuid_text(random_uuid());
        let token = random_token(32);
        let csrf_token = random_token(24);
        let token_hash = self.hash_session_token(token.as_str());
        let mut value = session_id.clone();
        push_str(&mut value, ".");
        push_str(&mut value, token.as_str());
        let cookie = self.build_session_cookie(value.as_str());
        proof {
            assert(cookie@ =~= self.session_cookie_name@ + "="@ + session_id@ + "."@ + token@
                + cookie_attributes());
        }
        NewSession {
            session_id,
            token,
            token_hash,
            csrf_token,
            created_at: now,
            expires_at: now + IDLE_SESSION_SECONDS,
            absolute_expires_at: now + ABSOLUTE_SESSION_SECONDS,
            cookie,
        }
    }

    /// The session cookie of a request, split into its id and token.
    pub fn presented_session(&self, cookie_header: Option<&str>) -> (r: Result<(String, String), ApiError>)
        ensures
            match named_cookie(crate::server::notify::opt_str(cookie_header), self.session_cookie_name@) {
                None => r == Err::<(String, String), ApiError>(ApiError::AuthenticationRequired),
                Some(c) => match session_parts(c) {
                    Some((id, token)) => r matches Ok(p) && p.0@ == id && p.1@ == token,
                    None => r == Err::<(String, String), ApiError>(ApiError::AuthenticationRequired),
                },
            },
    {
        match parse_named_cookie(cookie_header, self.session_cookie_name.as_str()) {
            Some(cookie) => split_session_cookie(cookie.as_str()),
            None => Err(ApiError::AuthenticationRequired),
        }
    }

    /// What a stored session comes to when its token is presented at `now`
    /// (seconds): the token must hash to the stored hash, and neither expiry may
    /// have passed.
    pub fn check_session(&self, stored_hash: &[u8], token: &str, expires_at: i64, absolute_expires_at: i64, now: i64) -> (r: SessionCheck)
        ensures
            stored_hash@ != token_hash(self.session_pepper@, token@) ==> r == SessionCheck::WrongToken,
            stored_hash@ == token_hash(self.session_pepper@, token@) && (now > expires_at
                || now > absolute_expires_at) ==> r == SessionCheck::Expired,
            stored_hash@ == token_hash(self.session_pepper@, token@) && !(now > expires_at
                || now > absolute_expires_at) ==> r == (SessionCheck::Valid {
                next_expiry: if now as int + IDLE_SESSION_SECONDS > i64::MAX {
                    i64::MAX
                } else {
                    (now + IDLE_SESSION_SECONDS) as i64
                },
            }),
    {
        if !self.session_token_matches(stored_hash, token) {
            return SessionCheck::WrongToken;
        }
        if session_expired(now, expires_at, absolute_expires_at) {
            return SessionCheck::Expired;
        }
        SessionCheck::Valid { next_expiry: next_idle_expiry(now) }
    }

    /// The CSRF token must be presented, non-empty, and equal to the session's.
    pub fn validate_csrf(&self, presented: Option<&str>, expected: &str) -> (r: Result<(), ApiError>)
        ensures
            r is Ok <==> (presented matches Some(t) && t@.len() > 0 && t@ == expected@),
            r matches Err(e) ==> e == ApiError::CsrfMismatch,
    {
        match presented {
            Some(token) => {
                if chars_of(token).len() > 0 && str_eq(token, expected) {
                    Ok(())
                } else {
                    Err(ApiError::CsrfMismatch)
                }
            },
            None => Err(ApiError::CsrfMismatch),
        }
    }

    pub fn source_from_headers(&self, forwarded_for: Option<&str>, real_ip: Option<&str>) -> (r: String)
        ensures
            r@ == request_source(
                crate::server::notify::opt_str(forwarded_for),
                crate::server::notify::opt_str(real_ip),
            ),
    {
        let picked: Option<Vec<char>> = match forwarded_for {
            Some(f) => {
                let (first, _) = split_once_chars(chars_of(f).as_slice(), ',');
                Some(first)
            },
            None => match real_ip {
                Some(r) => Some(chars_of(r)),
                None => None,
            },
        };
        match picked {
            Some(p) => {
                if crate::text::chars_blank(p.as_slice()) {
                    owned("unknown")
                } else {
                    string_of(trim_chars(p.as_slice()).as_slice())
                }
            },
            None => owned("unknown"),
        }
    }

    pub fn validate_origin(&self, origin: Option<&str>, host: Option<&str>) -> (r: Result<(), ApiError>)
        ensures
            r is Ok <==> origin_allowed(
                crate::server::notify::opt_str(origin),
                crate::server::notify::opt_str(host),
            ),
            r matches Err(e) ==> e == ApiError::InvalidOrigin,
    {
        let (o, h) = match (origin, host) {
            (Some(o), Some(h)) => (o, h),
            _ => return Err(ApiError::InvalidOrigin),
        };
        let parsed = match parse_url(o) {
            Some(u) => u,
            None => return Err(ApiError::InvalidOrigin),
        };
        if !str_eq(parsed.scheme.as_str(), "https") {
            return Err(ApiError::InvalidOrigin);
        }
        let expected = match parse_host_header(h) {
            Some(u) => u,
            None => return Err(ApiError::InvalidOrigin),
        };
        match (&parsed.host, &expected.host) {
            (Some(a), Some(b)) => {
                if !hosts_match(a, b) || effective_port(&parsed) != effective_port(&expected) {
                    return Err(ApiError::InvalidOrigin);
                }
                Ok(())
            },
            _ => Err(ApiError::InvalidOrigin),
        }
    }

    /// A session is over once the idle or the absolute expiry has passed.
    /// What is stored in place of a session token: its HMAC-SHA256, keyed with the
    /// session pepper, over the token's UTF-8 bytes.
    pub fn hash_session_token(&self, token: &str) -> (r: Vec<u8>)
        ensures
            r@ == token_hash(self.session_pepper@, token@),
    {
        let bytes = token.as_bytes_vec();
        hmac_sha256(self.session_pepper.as_slice(), bytes.as_slice())
    }

    /// A presented token belongs to a session when its hash is the stored one.
    pub fn session_token_matches(&self, stored_hash: &[u8], token: &str) -> (r: bool)
        ensures
            r == (stored_hash@ == token_hash(self.session_pepper@, token@)),
    {
        let presented = self.hash_session_token(token);
        bytes_eq(stored_hash, presented.as_slice())
    }
}

pub fn session_expired(now: i64, expires_at: i64, absolute_expires_at: i64) -> (r: bool)
    ensures
        r == (now > expires_at || now > absolute_expires_at),
{
    now > expires_at || now > absolute_expires_at
}

/// The idle expiry a session gets when it is used at `now`.
pub fn next_idle_expiry(now: i64) -> (r: i64)
    ensures
        r == if now as int + IDLE_SESSION_SECONDS > i64::MAX { i64::MAX as int } else { now as int + IDLE_SESSION_SECONDS },
{
    if now > i64::MAX - IDLE_SESSION_SECONDS {
        i64::MAX
    } else {
        now + IDLE_SESSION_SECONDS
    }
}

/// The failure times of a source, oldest first, after those older than the
/// window are dropped.
pub open spec fn pruned(times: Seq<i128>, now: i128) -> Seq<i128>
    decreases times.len(),
{
    if times.len() > 0 && now - times[0] > LOGIN_WINDOW_NANOS {
        pruned(times.drop_first(), now)
    } else {
        times
    }
}

/// The failure times of a source after failures are recorded at each of `times`
/// in turn, starting from `history`, as `record_failure` leaves them.
pub open spec fn recorded(history: Seq<i128>, times: Seq<i128>) -> Seq<i128>
    decreases times.len(),
{
    if times.len() == 0 {
        history
    } else {
        pruned(recorded(history, times.drop_last()), times.last()).push(times.last())
    }
}

/// Failures that are all within the window of `now` are all kept.
pub proof fn lemma_recent_failures_are_kept(times: Seq<i128>, now: i128)
    requires
        forall|i: int| 0 <= i < times.len() ==> now - #[trigger] times[i] <= LOGIN_WINDOW_NANOS,
    ensures
        pruned(times, now) == times,
{
}

/// Failures that are all older than the window at `now` are all forgotten.
pub proof fn lemma_old_failures_age_out(times: Seq<i128>, now: i128)
    requires
        forall|i: int| 0 <= i < times.len() ==> now - #[trigger] times[i] > LOGIN_WINDOW_NANOS,
    ensures
        pruned(times, now).len() == 0,
    decreases times.len(),
{
    if times.len() > 0 {
        assert forall|i: int| 0 <= i < times.drop_first().len() implies now - #[trigger] times.drop_first()[i]
            > LOGIN_WINDOW_NANOS by {
            assert(times.drop_first()[i] == times[i + 1]);
        }
        lemma_old_failures_age_out(times.drop_first(), now);
    }
}

/// Five failed logins from a source, in time order and all within ten minutes of
/// `now`, starting from a clean slate, throttle that source at `now`: each
/// failure is kept when the next is recorded, and the check at `now` counts them all.
pub proof fn lemma_repeated_failures_throttle(times: Seq<i128>, now: i128)
    requires
        times.len() >= LOGIN_FAILURE_LIMIT,
        forall|i: int, j: int| 0 <= i <= j < times.len() ==> times[i] <= times[j],
        forall|i: int| 0 <= i < times.len() ==> #[trigger] times[i] <= now,
        now - times[0] <= LOGIN_WINDOW_NANOS,
    ensures
        recorded(Seq::empty(), times) == times,
        pruned(recorded(Seq::empty(), times), now).len() >= LOGIN_FAILURE_LIMIT,
{
    lemma_recorded_in_window(times, now);
    assert forall|i: int| 0 <= i < times.len() implies now - #[trigger] times[i] <= LOGIN_WINDOW_NANOS by {
        assert(times[0] <= times[i]);
    }
    lemma_recent_failures_are_kept(times, now);
}

proof fn lemma_recorded_in_window(times: Seq<i128>, now: i128)
    requires
        forall|i: int, j: int| 0 <= i <= j < times.len() ==> times[i] <= times[j],
        forall|i: int| 0 <= i < times.len() ==> #[trigger] times[i] <= now,
        times.len() > 0 ==> now - times[0] <= LOGIN_WINDOW_NANOS,
    ensures
        recorded(Seq::empty(), times) == times,
    decreases times.len(),
{
    if times.len() > 0 {
        let rest = times.drop_last();
        let last = times.last();
        assert forall|i: int| 0 <= i < rest.len() implies #[trigger] rest[i] <= last by {
            assert(rest[i] == times[i]);
            assert(times[i] <= times[times.len() - 1]);
        }
        lemma_recorded_in_window(rest, last);
        assert forall|i: int| 0 <= i < rest.len() implies last - #[trigger] rest[i] <= LOGIN_WINDOW_NANOS by {
            assert(rest[i] == times[i]);
            assert(times[0] <= times[i]);
        }
        lemma_recent_failures_are_kept(rest, last);
        assert(rest.push(last) =~= times);
    }
}

/// After a successful login clears a source, the source is not throttled, and
/// recording fewer than five failures afterwards does not throttle it either.
pub proof fn lemma_cleared_source_is_not_throttled(times: Seq<i128>, now: i128)
    requires
        times.len() < LOGIN_FAILURE_LIMIT,
    ensures
        pruned(Seq::<i128>::empty(), now).len() < LOGIN_FAILURE_LIMIT,
        pruned(recorded(Seq::empty(), times), now).len() < LOGIN_FAILURE_LIMIT,
{
    lemma_recorded_len(Seq::empty(), times);
    lemma_pruned_len(recorded(Seq::empty(), times), now);
}

proof fn lemma_pruned_len(times: Seq<i128>, now: i128)
    ensures
        pruned(times, now).len() <= times.len(),
    decreases times.len(),
{
    if times.len() > 0 {
        lemma_pruned_len(times.drop_first(), now);
    }
}

proof fn lemma_recorded_len(history: Seq<i128>, times: Seq<i128>)
    ensures
        recorded(history, times).len() <= history.len() + times.len(),
    decreases times.len(),
{
    if times.len() > 0 {
        lemma_recorded_len(history, times.drop_last());
        lemma_pruned_len(recorded(history, times.drop_last()), times.last());
    }
}

/// The failure times recorded for a source: those of its first entry.
pub open spec fn history_in(entries: Seq<(String, Vec<i128>)>, source: Seq<char>) -> Seq<i128>
    decreases entries.len(),
{
    if entries.len() == 0 {
        seq![]
    } else if entries[0].0@ == source {
        entries[0].1@
    } else {
        history_in(entries.drop_first(), source)
    }
}

proof fn lemma_history_update(entries: Seq<(String, Vec<i128>)>, i: int, source: Seq<char>, next: (String, Vec<i128>), t: Seq<char>)
    requires
        0 <= i < entries.len(),
        entries[i].0@ == source,
        forall|j: int| 0 <= j < i ==> (#[trigger] entries[j]).0@ != source,
        next.0@ == source,
    ensures
        history_in(entries.update(i, next), t) == if t == source {
            next.1@
        } else {
            history_in(entries, t)
        },
    decreases entries.len(),
{
    if i == 0 {
        assert(entries.update(0, next).drop_first() =~= entries.drop_first());
    } else {
        assert(entries.update(i, next).drop_first() =~= entries.drop_first().update(i - 1, next));
        assert forall|j: int| 0 <= j < i - 1 implies (#[trigger] entries.drop_first()[j]).0@ != source by {
            assert(entries.drop_first()[j] == entries[j + 1]);
        }
        lemma_history_update(entries.drop_first(), i - 1, source, next, t);
        assert(entries[0].0@ != source);
    }
}

proof fn lemma_history_push(entries: Seq<(String, Vec<i128>)>, source: Seq<char>, next: (String, Vec<i128>), t: Seq<char>)
    requires
        forall|j: int| 0 <= j < entries.len() ==> (#[trigger] entries[j]).0@ != source,
        next.0@ == source,
    ensures
        history_in(entries.push(next), t) == if t == source {
            next.1@
        } else {
            history_in(entries, t)
        },
    decreases entries.len(),
{
    let e = entries.push(next);
    if entries.len() == 0 {
        assert(e[0] == next);
        assert(e.drop_first() =~= Seq::<(String, Vec<i128>)>::empty());
        assert(history_in(e.drop_first(), t) == Seq::<i128>::empty());
        assert(history_in(entries, t) == Seq::<i128>::empty());
    } else {
        assert(e[0] == entries[0]);
        assert(entries[0].0@ != source);
        assert(e.drop_first() =~= entries.drop_first().push(next));
        assert forall|j: int| 0 <= j < entries.drop_first().len() implies (#[trigger] entries.drop_first()[j]).0@ != source by {
            assert(entries.drop_first()[j] == entries[j + 1]);
        }
        lemma_history_push(entries.drop_first(), source, next, t);
    }
}

/// Failed logins per source.
pub struct LoginFailures {
    entries: Vec<(String, Vec<i128>)>,
}

/// Whether a failure at `then` is older than the window at `now`.
fn aged(now: i128, then: i128) -> (r: bool)
    ensures
        r == (now - then > LOGIN_WINDOW_NANOS),
{
    if now <= then {
        false
    } else {
        match now.checked_sub(then) {
            Some(d) => d > LOGIN_WINDOW_NANOS,
            None => true,
        }
    }
}

fn prune_times(times: &Vec<i128>, now: i128) -> (r: Vec<i128>)
    ensures
        r@ == pruned(times@, now),
{
    let mut lo: usize = 0;
    assert(times@.skip(0) =~= times@);
    while lo < times.len() && aged(now, times[lo])
        invariant
            lo <= times@.len(),
            pruned(times@, now) == pruned(times@.skip(lo as int), now),
        decreases times@.len() - lo,
    {
        assert(times@.skip(lo as int).drop_first() =~= times@.skip(lo + 1));
        lo = lo + 1;
    }
    let mut out: Vec<i128> = Vec::new();
    let mut k = lo;
    while k < times.len()
        invariant
            lo <= k <= times@.len(),
            out@ == times@.subrange(lo as int, k as int),
        decreases times@.len() - k,
    {
        out.push(times[k]);
        k = k + 1;
        assert(out@ =~= times@.subrange(lo as int, k as int));
    }
    assert(out@ =~= times@.skip(lo as int));
    out
}

impl LoginFailures {
    /// The failure times recorded for a source, oldest first.
    pub closed spec fn history(&self, source: Seq<char>) -> Seq<i128> {
        history_in(self.entries@, source)
    }

    pub fn new() -> (r: Self)
        ensures
            forall|s: Seq<char>| #[trigger] r.history(s) == Seq::<i128>::empty(),
    {
        LoginFailures { entries: Vec::new() }
    }

    fn position(&self, source: &str) -> (r: Option<usize>)
        ensures
            match r {
                Some(i) => i < self.entries@.len() && self.entries@[i as int].0@ == source@
                    && forall|j: int| 0 <= j < i ==> (#[trigger] self.entries@[j]).0@ != source@,
                None => forall|j: int| 0 <= j < self.entries@.len() ==> (#[trigger] self.entries@[j]).0@ != source@,
            },
    {
        let mut i: usize = 0;
        while i < self.entries.len()
            invariant
                i <= self.entries@.len(),
                forall|j: int| 0 <= j < i ==> (#[trigger] self.entries@[j]).0@ != source@,
            decreases self.entries@.len() - i,
        {
            if str_eq(self.entries[i].0.as_str(), source) {
                return Some(i);
            }
            i = i + 1;
        }
        None
    }

    proof fn lemma_first_match(entries: Seq<(String, Vec<i128>)>, i: int, source: Seq<char>)
        requires
            0 <= i < entries.len(),
            entries[i].0@ == source,
            forall|j: int| 0 <= j < i ==> (#[trigger] entries[j]).0@ != source,
        ensures
            history_in(entries, source) == entries[i].1@,
        decreases i,
    {
        if i > 0 {
            assert forall|j: int| 0 <= j < i - 1 implies (#[trigger] entries.drop_first()[j]).0@ != source by {
                assert(entries.drop_first()[j] == entries[j + 1]);
            }
            Self::lemma_first_match(entries.drop_first(), i - 1, source);
            assert(entries[0].0@ != source);
        }
    }

    proof fn lemma_no_match(entries: Seq<(String, Vec<i128>)>, source: Seq<char>)
        requires
            forall|j: int| 0 <= j < entries.len() ==> (#[trigger] entries[j]).0@ != source,
        ensures
            history_in(entries, source) == Seq::<i128>::empty(),
        decreases entries.len(),
    {
        if entries.len() > 0 {
            assert forall|j: int| 0 <= j < entries.drop_first().len() implies (#[trigger] entries.drop_first()[j]).0@ != source by {
                assert(entries.drop_first()[j] == entries[j + 1]);
            }
            Self::lemma_no_match(entries.drop_first(), source);
        }
    }

    /// Replaces the failure times of a source.
    fn store(&mut self, source: &str, times: Vec<i128>)
        ensures
            forall|t: Seq<char>| #[trigger] final(self).history(t) == if t == source@ {
                times@
            } else {
                old(self).history(t)
            },
    {
        let ghost before = self.entries@;
        let ghost times_v = times@;
        let entry = (owned(source), times);
        match self.position(source) {
            Some(i) => {
                self.entries.set(i, entry);
                proof {
                    assert forall|t: Seq<char>| #[trigger] history_in(self.entries@, t) == if t == source@ {
                        times_v
                    } else {
                        history_in(before, t)
                    } by {
                        lemma_history_update(before, i as int, source@, entry, t);
                    }
                }
            },
            None => {
                self.entries.push(entry);
                proof {
                    assert forall|t: Seq<char>| #[trigger] history_in(self.entries@, t) == if t == source@ {
                        times_v
                    } else {
                        history_in(before, t)
                    } by {
                        lemma_history_push(before, source@, entry, t);
                    }
                }
            },
        }
    }

    fn times_of(&self, source: &str) -> (r: Vec<i128>)
        ensures
            r@ == self.history(source@),
    {
        match self.position(source) {
            Some(i) => {
                proof {
                    Self::lemma_first_match(self.entries@, i as int, source@);
                }
                let mut out: Vec<i128> = Vec::new();
                let times = &self.entries[i].1;
                let mut k: usize = 0;
                while k < times.len()
                    invariant
                        k <= times@.len(),
                        out@ == times@.take(k as int),
                    decreases times@.len() - k,
                {
                    out.push(times[k]);
                    k = k + 1;
                    assert(out@ =~= times@.take(k as int));
                }
                assert(times@.take(times@.len() as int) =~= times@);
                out
            },
            None => {
                proof {
                    Self::lemma_no_match(self.entries@, source@);
                }
                Vec::new()
            },
        }
    }

    /// Whether a source has failed five times within the window; the failures
    /// that aged out are forgotten.
    pub fn is_throttled(&mut self, source: &str, now: i128) -> (r: bool)
        ensures
            r == (pruned(old(self).history(source@), now).len() >= LOGIN_FAILURE_LIMIT),
            forall|t: Seq<char>| #[trigger] final(self).history(t) == if t == source@ {
                pruned(old(self).history(source@), now)
            } else {
                old(self).history(t)
            },
    {
        let times = prune_times(&self.times_of(source), now);
        let throttled = times.len() >= LOGIN_FAILURE_LIMIT;
        self.store(source, times);
        throttled
    }

    /// Records a failed login at `now`, after forgetting the failures that aged out.
    pub fn record_failure(&mut self, source: &str, now: i128)
        ensures
            forall|t: Seq<char>| #[trigger] final(self).history(t) == if t == source@ {
                pruned(old(self).history(source@), now).push(now)
            } else {
                old(self).history(t)
            },
    {
        let mut times = prune_times(&self.times_of(source), now);
        times.push(now);
        self.store(source, times);
    }

    /// Forgets the failures of a source after a successful login.
    pub fn clear_failures(&mut self, source: &str)
        ensures
            forall|t: Seq<char>| #[trigger] final(self).history(t) == if t == source@ {
                Seq::<i128>::empty()
            } else {
                old(self).history(t)
            },
    {
        self.store(source, Vec::new());
    }
}

} // verus!

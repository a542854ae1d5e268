use moviebox_tui::server::auth::{
    bootstrap_password_hash, effective_port, next_idle_expiry, parse_host_header,
    parse_named_cookie, random_token, session_expired, split_session_cookie, AuthService,
    LoginFailures, SessionCheck,
};
use moviebox_tui::server::config::{LogFormat, ServerConfig};
use moviebox_tui::server::error::{ApiError, ServerError};
use moviebox_tui::server::library::subtitles::SubtitlePreference;

fn config() -> ServerConfig {
    ServerConfig {
        bind_addr: "127.0.0.1:8080".to_string(),
        database_url: "sqlite:///data/moviebox.db".to_string(),
        media_root: "/media".to_string(),
        partial_root: "/partial".to_string(),
        config_root: "/config".to_string(),
        admin_password_file: "/run/secrets/admin".to_string(),
        session_key_file: "/run/secrets/session".to_string(),
        maximum_height: 1080,
        download_concurrency: 1,
        reserve_bytes: 0,
        reserve_gib: 0,
        jellyfin_base_url: "http://jellyfin:8096/".to_string(),
        jellyfin_api_key_file: None,
        mcp_token_file: None,
        notify_webhook_url_file: None,
        notify_recipient: None,
        notify_link_url: None,
        log_format: LogFormat::Text,
        subtitle_preference: SubtitlePreference::Disabled,
        session_cookie_name: "moviebox_session".to_string(),
        session_pepper: vec![7u8; 32],
    }
}

fn service() -> AuthService {
    AuthService::new(&config())
}

#[test]
fn cookies_are_found_by_name_and_trimmed() {
    assert_eq!(
        parse_named_cookie(Some("a=1;  moviebox_session=abc.def ; b=2"), "moviebox_session"),
        Some("abc.def".to_string())
    );
    assert_eq!(parse_named_cookie(Some("a=1; b"), "b"), None);
    assert_eq!(parse_named_cookie(None, "a"), None);
    assert_eq!(parse_named_cookie(Some("a=x=y"), "a"), Some("x=y".to_string()));
}

#[test]
fn session_cookies_need_both_parts() {
    assert_eq!(split_session_cookie("id.token").unwrap(), ("id".to_string(), "token".to_string()));
    assert_eq!(split_session_cookie("id.to.ken").unwrap(), ("id".to_string(), "to.ken".to_string()));
    assert_eq!(split_session_cookie(".token").unwrap_err(), ApiError::AuthenticationRequired);
    assert_eq!(split_session_cookie("id.").unwrap_err(), ApiError::AuthenticationRequired);
    assert_eq!(split_session_cookie("plain").unwrap_err(), ApiError::AuthenticationRequired);
}

#[test]
fn csrf_tokens_must_be_present_and_equal() {
    assert!(service().validate_csrf(Some("t0k"), "t0k").is_ok());
    assert_eq!(service().validate_csrf(Some("other"), "t0k").unwrap_err(), ApiError::CsrfMismatch);
    assert_eq!(service().validate_csrf(Some(""), "").unwrap_err(), ApiError::CsrfMismatch);
    assert_eq!(service().validate_csrf(None, "t0k").unwrap_err(), ApiError::CsrfMismatch);
}

#[test]
fn login_sources_come_from_proxy_headers() {
    assert_eq!(service().source_from_headers(Some(" 203.0.113.9 , 10.0.0.1"), Some("1.1.1.1")), "203.0.113.9");
    assert_eq!(service().source_from_headers(None, Some(" 198.51.100.2 ")), "198.51.100.2");
    assert_eq!(service().source_from_headers(Some("  "), Some("1.1.1.1")), "unknown");
    assert_eq!(service().source_from_headers(None, None), "unknown");
}

#[test]
fn origins_must_be_https_on_the_same_host_and_port() {
    assert!(service().validate_origin(Some("https://media.example"), Some("media.example")).is_ok());
    assert!(service().validate_origin(Some("https://MEDIA.example:443"), Some("media.example")).is_ok());
    assert!(service().validate_origin(Some("https://media.example:8443"), Some("media.example:8443")).is_ok());
    assert_eq!(
        service().validate_origin(Some("http://media.example"), Some("media.example")).unwrap_err(),
        ApiError::InvalidOrigin
    );
    assert_eq!(
        service().validate_origin(Some("https://evil.example"), Some("media.example")).unwrap_err(),
        ApiError::InvalidOrigin
    );
    assert_eq!(
        service().validate_origin(Some("https://media.example:8443"), Some("media.example")).unwrap_err(),
        ApiError::InvalidOrigin
    );
    assert_eq!(service().validate_origin(None, Some("media.example")).unwrap_err(), ApiError::InvalidOrigin);
}

#[test]
fn host_headers_are_bare_authorities() {
    let u = parse_host_header(" media.example:8443 ").unwrap();
    assert_eq!(effective_port(&u), Some(8443));
    assert_eq!(effective_port(&parse_host_header("media.example").unwrap()), Some(443));
    assert!(parse_host_header("media.example/path").is_none());
    assert!(parse_host_header("user@media.example").is_none());
    assert!(parse_host_header("   ").is_none());
}

#[test]
fn sessions_lapse_when_idle_or_old() {
    assert!(!session_expired(100, 100, 200));
    assert!(session_expired(101, 100, 200));
    assert!(session_expired(201, 300, 200));
    assert_eq!(next_idle_expiry(1000), 2800);
    assert_eq!(next_idle_expiry(i64::MAX - 10), i64::MAX);
}

#[test]
fn five_recent_failures_throttle_a_source() {
    let mut failures = LoginFailures::new();
    let minute: i128 = 60_000_000_000;
    for k in 0..4 {
        failures.record_failure("1.2.3.4", k * minute);
    }
    assert!(!failures.is_throttled("1.2.3.4", 4 * minute));
    failures.record_failure("1.2.3.4", 4 * minute);
    assert!(failures.is_throttled("1.2.3.4", 5 * minute));
    assert!(!failures.is_throttled("5.6.7.8", 5 * minute));
    assert!(!failures.is_throttled("1.2.3.4", 10 * minute + 1));
    failures.clear_failures("1.2.3.4");
    assert!(!failures.is_throttled("1.2.3.4", 5 * minute));
}

#[test]
fn session_tokens_are_stored_as_keyed_hashes() {
    let auth = service();
    let stored = auth.hash_session_token("token-a");
    assert_eq!(stored.len(), 32);
    assert_eq!(stored, auth.hash_session_token("token-a"));
    assert_ne!(stored, auth.hash_session_token("token-b"));
    let other = AuthService { session_pepper: vec![8u8; 32], ..service() };
    assert_ne!(stored, other.hash_session_token("token-a"));
    assert!(auth.session_token_matches(&stored, "token-a"));
    assert!(!auth.session_token_matches(&stored, "token-b"));
    assert!(!auth.session_token_matches(&stored[..31], "token-a"));
}

#[test]
fn session_cookies_are_strict_secure_and_http_only() {
    let auth = service();
    assert_eq!(
        auth.build_session_cookie("id.token"),
        "moviebox_session=id.token; HttpOnly; SameSite=Strict; Secure; Path=/"
    );
    assert_eq!(
        auth.clear_session_cookie(),
        "moviebox_session=; HttpOnly; SameSite=Strict; Secure; Path=/; Max-Age=0"
    );
}

#[test]
fn random_tokens_are_url_safe_base64_of_the_requested_length() {
    let token = random_token(32);
    assert_eq!(token.len(), 43);
    assert!(token.chars().all(|c| c.is_ascii_alphanumeric() || c == '-' || c == '_'));
    assert_ne!(token, random_token(32));
    assert_eq!(random_token(24).len(), 32);
}

#[test]
fn a_new_session_carries_its_id_and_token_in_the_cookie() {
    let auth = service();
    let session = auth.start_session(1_000);
    assert_eq!(session.session_id.len(), 36);
    assert_eq!(session.expires_at, 1_000 + 1_800);
    assert_eq!(session.absolute_expires_at, 1_000 + 604_800);
    assert_eq!(session.token_hash, auth.hash_session_token(&session.token));
    assert_eq!(
        session.cookie,
        format!(
            "moviebox_session={}.{}; HttpOnly; SameSite=Strict; Secure; Path=/",
            session.session_id, session.token
        )
    );
    let presented = format!("other=1; moviebox_session={}.{}", session.session_id, session.token);
    assert_eq!(
        auth.presented_session(Some(&presented)).unwrap(),
        (session.session_id.clone(), session.token.clone())
    );
    assert_eq!(auth.presented_session(None).unwrap_err(), ApiError::AuthenticationRequired);
}

#[test]
fn presented_sessions_need_the_right_token_and_time() {
    let auth = service();
    let stored = auth.hash_session_token("tok");
    assert_eq!(auth.check_session(&stored, "bad", 100, 200, 50), SessionCheck::WrongToken);
    assert_eq!(auth.check_session(&stored, "tok", 100, 200, 150), SessionCheck::Expired);
    assert_eq!(auth.check_session(&stored, "tok", 300, 200, 250), SessionCheck::Expired);
    assert_eq!(
        auth.check_session(&stored, "tok", 100, 200, 50),
        SessionCheck::Valid { next_expiry: 1_850 }
    );
}

#[test]
fn logins_are_checked_against_the_stored_hash_and_throttled() {
    let mut auth = service();
    let hash = bootstrap_password_hash(false, Some("  hunter2 \n".to_string())).unwrap().unwrap();
    assert!(hash.starts_with("$argon2id$v=19$"));
    assert_eq!(auth.check_login("1.2.3.4", 0, Some(&hash), "hunter2"), Ok(()));
    assert_eq!(auth.check_login("1.2.3.4", 0, None, "hunter2"), Err(ApiError::AuthenticationRequired));
    assert_eq!(auth.check_login("1.2.3.4", 0, Some(&hash), "wrong"), Err(ApiError::InvalidCredentials));
    for i in 1..5 {
        assert_eq!(
            auth.check_login("1.2.3.4", i, Some("not a hash"), "hunter2"),
            Err(ApiError::InvalidCredentials)
        );
    }
    assert_eq!(auth.check_login("1.2.3.4", 6, Some(&hash), "hunter2"), Err(ApiError::TooManyAttempts));
    assert_eq!(auth.check_login("5.6.7.8", 6, Some(&hash), "hunter2"), Ok(()));
    assert_eq!(auth.check_login("1.2.3.4", 6, Some("not a hash"), "hunter2"), Err(ApiError::TooManyAttempts));
    let later = 6 + 600_000_000_001;
    assert_eq!(auth.check_login("1.2.3.4", later, Some(&hash), "hunter2"), Ok(()));
}

#[test]
fn the_admin_account_is_bootstrapped_once() {
    assert_eq!(bootstrap_password_hash(true, None), Ok(None));
    assert_eq!(
        bootstrap_password_hash(false, None),
        Err(ServerError::Startup("admin bootstrap secret could not be loaded".to_string()))
    );
}

use moviebox_tui::server::config::{
    config_paths, derive_session_pepper, env_lookup, parse_database_url, parse_download_concurrency,
    parse_jellyfin_base_url, parse_log_format, parse_maximum_height, parse_reserve_gib, required_var, secret_text,
    validate_directory, validate_secret_file, ConfigError, HostFacts, LogFormat, PathFacts, ServerConfig,
};
use moviebox_tui::server::library::subtitles::SubtitlePreference;

fn dir(path: &str) -> PathFacts {
    PathFacts { path: path.to_string(), exists: true, is_dir: true, is_file: false, contents: None, mode: Some(0o755) }
}

fn secret(path: &str, contents: &str, mode: u32) -> PathFacts {
    PathFacts {
        path: path.to_string(),
        exists: true,
        is_dir: false,
        is_file: true,
        contents: Some(contents.to_string()),
        mode: Some(mode),
    }
}

fn env_of(pairs: &[(&str, &str)]) -> Vec<(String, String)> {
    pairs.iter().map(|(k, v)| (k.to_string(), v.to_string())).collect()
}

fn full_env() -> Vec<(String, String)> {
    env_of(&[
        ("MOVIEBOX_BIND", "127.0.0.1:8080"),
        ("MOVIEBOX_DATABASE_URL", "sqlite:///srv/moviebox/db/jobs.sqlite?mode=rwc"),
        ("MOVIEBOX_MEDIA_ROOT", "/srv/media"),
        ("MOVIEBOX_PARTIAL_ROOT", "/srv/partial"),
        ("MOVIEBOX_CONFIG_ROOT", "/srv/config"),
        ("MOVIEBOX_ADMIN_PASSWORD_FILE", "/srv/secrets/admin"),
        ("MOVIEBOX_SESSION_KEY_FILE", "/srv/secrets/session"),
        ("MOVIEBOX_MAX_HEIGHT", "1080"),
        ("MOVIEBOX_DOWNLOAD_CONCURRENCY", "1"),
        ("MOVIEBOX_RESERVE_GIB", "20"),
        ("MOVIEBOX_JELLYFIN_BASE_URL", "http://jellyfin:8096"),
        ("MOVIEBOX_LOG_FORMAT", "json"),
        ("MOVIEBOX_NOTIFY_RECIPIENT", "  Nabeegh "),
    ])
}

fn full_facts() -> HostFacts {
    HostFacts {
        bind_parses: true,
        database_options_parse: true,
        paths: vec![
            dir("/srv/moviebox/db"),
            dir("/srv/media"),
            dir("/srv/partial"),
            dir("/srv/config"),
            secret("/srv/secrets/admin", "hunter2\n", 0o600),
            secret("/srv/secrets/session", "  key  ", 0o400),
        ],
    }
}

#[test]
fn a_complete_configuration_is_read() {
    let config = ServerConfig::from_map(&full_env(), &full_facts()).unwrap();
    assert_eq!(config.bind_addr, "127.0.0.1:8080");
    assert_eq!(config.media_root, "/srv/media");
    assert_eq!(config.maximum_height, 1080);
    assert_eq!(config.download_concurrency, 1);
    assert_eq!(config.reserve_gib, 20);
    assert_eq!(config.reserve_bytes, 20 * 1_073_741_824);
    assert_eq!(config.jellyfin_base_url, "http://jellyfin:8096/");
    assert_eq!(config.log_format, LogFormat::Json);
    assert_eq!(config.notify_recipient.as_deref(), Some("Nabeegh"));
    assert!(config.jellyfin_api_key_file.is_none());
    assert!(matches!(config.subtitle_preference, SubtitlePreference::Language(ref l) if l == "english"));
    assert_eq!(config.session_pepper.len(), 32);
    assert_eq!(config.session_cookie_name, "moviebox_session");
}

#[test]
fn the_first_refusal_is_reported() {
    let mut env = full_env();
    env.retain(|(k, _)| k != "MOVIEBOX_BIND");
    assert_eq!(ServerConfig::from_map(&env, &full_facts()).unwrap_err(), ConfigError::MissingVar("MOVIEBOX_BIND"));
    let mut env = full_env();
    env.push(("MOVIEBOX_MAX_HEIGHT".to_string(), "2160".to_string()));
    assert_eq!(
        ServerConfig::from_map(&env, &full_facts()).unwrap_err(),
        ConfigError::InvalidMaximumHeight("MOVIEBOX_MAX_HEIGHT")
    );
    let mut facts = full_facts();
    facts.paths[4].mode = Some(0o644);
    assert_eq!(
        ServerConfig::from_map(&full_env(), &facts).unwrap_err(),
        ConfigError::UnsafeSecretPermissions("MOVIEBOX_ADMIN_PASSWORD_FILE")
    );
}

#[test]
fn later_variables_win_and_blank_ones_are_missing() {
    let env = env_of(&[("A", "1"), ("B", "2"), ("A", "3"), ("C", "   ")]);
    assert_eq!(env_lookup(&env, "A"), Some("3".to_string()));
    assert_eq!(env_lookup(&env, "D"), None);
    assert_eq!(required_var(&env, "C").unwrap_err(), ConfigError::MissingVar("C"));
}

#[test]
fn numeric_settings_are_bounded() {
    assert_eq!(parse_maximum_height("720"), Ok(720));
    assert_eq!(parse_maximum_height("1081"), Err(ConfigError::InvalidMaximumHeight("MOVIEBOX_MAX_HEIGHT")));
    assert_eq!(parse_maximum_height("abc"), Err(ConfigError::InvalidMaximumHeight("MOVIEBOX_MAX_HEIGHT")));
    assert_eq!(parse_download_concurrency("1"), Ok(1));
    assert_eq!(
        parse_download_concurrency("2"),
        Err(ConfigError::InvalidDownloadConcurrency("MOVIEBOX_DOWNLOAD_CONCURRENCY"))
    );
    assert_eq!(parse_reserve_gib("10"), Ok(10));
    assert_eq!(parse_reserve_gib("9"), Err(ConfigError::InvalidReserve("MOVIEBOX_RESERVE_GIB")));
    assert_eq!(parse_log_format("text"), Ok(LogFormat::Text));
    assert_eq!(parse_log_format("JSON"), Err(ConfigError::InvalidLogFormat("MOVIEBOX_LOG_FORMAT")));
}

#[test]
fn jellyfin_must_be_local() {
    assert_eq!(parse_jellyfin_base_url("http://LOCALHOST:8096").unwrap(), "http://localhost:8096/");
    assert_eq!(parse_jellyfin_base_url("http://127.0.0.1:8096/jf").unwrap(), "http://127.0.0.1:8096/jf");
    assert_eq!(
        parse_jellyfin_base_url("https://jellyfin.example.com"),
        Err(ConfigError::InvalidJellyfinBaseUrl("MOVIEBOX_JELLYFIN_BASE_URL"))
    );
    assert_eq!(
        parse_jellyfin_base_url("ftp://localhost"),
        Err(ConfigError::InvalidJellyfinBaseUrl("MOVIEBOX_JELLYFIN_BASE_URL"))
    );
}

#[test]
fn directories_are_absolute_existing_and_allowed() {
    let facts = full_facts();
    assert_eq!(validate_directory("V", "/srv/media", &facts).unwrap(), "/srv/media");
    assert_eq!(validate_directory("V", "srv/media", &facts).unwrap_err(), ConfigError::NonAbsoluteDirectory("V"));
    assert_eq!(validate_directory("V", "//", &facts).unwrap_err(), ConfigError::RootDirectory("V"));
    assert_eq!(
        validate_directory("V", "/mnt/mac-remote/x", &facts).unwrap_err(),
        ConfigError::ForbiddenDirectory("V")
    );
    assert_eq!(validate_directory("V", "/srv/none", &facts).unwrap_err(), ConfigError::MissingDirectory("V"));
}

#[test]
fn secret_files_are_checked() {
    let mut facts = full_facts();
    facts.paths.push(secret("/srv/secrets/blank", "  \n", 0o600));
    assert_eq!(validate_secret_file("S", "/srv/secrets/admin", &facts).unwrap(), "/srv/secrets/admin");
    assert_eq!(validate_secret_file("S", "/srv/secrets/blank", &facts).unwrap_err(), ConfigError::EmptySecret("S"));
    assert_eq!(validate_secret_file("S", "/srv/media", &facts).unwrap_err(), ConfigError::MissingFile("S"));
    assert_eq!(validate_secret_file("S", "rel", &facts).unwrap_err(), ConfigError::NonAbsoluteFile("S"));
    assert_eq!(secret_text("S", Some(" abc \n".to_string())).unwrap(), "abc");
    assert_eq!(secret_text("S", None).unwrap_err(), ConfigError::UnreadableSecret("S"));
}

#[test]
fn database_urls_name_a_file_in_an_existing_directory() {
    let facts = full_facts();
    let good = "sqlite:///srv/moviebox/db/jobs.sqlite?mode=rwc";
    assert_eq!(parse_database_url(good, &facts).unwrap(), good);
    let bad = ConfigError::InvalidDatabaseUrl("MOVIEBOX_DATABASE_URL");
    assert_eq!(parse_database_url("postgres://x/y", &facts).unwrap_err(), bad);
    assert_eq!(parse_database_url("sqlite:///srv/moviebox/db/j.sqlite?mode=memory", &facts).unwrap_err(), bad);
    assert_eq!(parse_database_url("sqlite:relative.sqlite", &facts).unwrap_err(), bad);
    assert_eq!(
        parse_database_url("sqlite:///srv/elsewhere/j.sqlite", &facts).unwrap_err(),
        ConfigError::MissingDirectory("MOVIEBOX_DATABASE_URL")
    );
}

#[test]
fn the_session_pepper_hashes_the_trimmed_secret() {
    let a = derive_session_pepper(Some("  key \n".to_string())).unwrap();
    let b = derive_session_pepper(Some("key".to_string())).unwrap();
    assert_eq!(a, b);
    assert_eq!(a.len(), 32);
    assert_eq!(a[0], 0x2c);
    assert_eq!(derive_session_pepper(Some("   ".to_string())).unwrap_err(), ConfigError::EmptySecret("MOVIEBOX_SESSION_KEY_FILE"));
}

#[test]
fn every_consulted_path_is_listed() {
    let paths = config_paths(&full_env());
    for p in ["/srv/media", "/srv/secrets/session", "/srv/moviebox/db/jobs.sqlite", "/srv/moviebox/db"] {
        assert!(paths.iter().any(|q| q == p), "{p} missing");
    }
}

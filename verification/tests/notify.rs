use moviebox_tui::server::notify::{
    is_acceptable_webhook, webhook_from_secret, DownloadNotifier, NoopNotifier, NotifyError, WebhookNotifier,
};
use moviebox_tui::urls::parse_url;

#[test]
fn message_greets_the_configured_recipient() {
    assert_eq!(
        WebhookNotifier::compose(Some("Nabeegh"), "Cocktail 2", Some("2026")),
        "Hey Nabeegh, Cocktail 2 (2026) is ready to watch."
    );
}

#[test]
fn message_without_a_recipient_stays_impersonal() {
    assert_eq!(
        WebhookNotifier::compose(None, "Cocktail 2", Some("2026")),
        "Cocktail 2 (2026) is ready to watch."
    );
    assert_eq!(
        WebhookNotifier::compose(Some("   "), "Cocktail 2", Some("2026")),
        "Cocktail 2 (2026) is ready to watch."
    );
}

#[test]
fn message_omits_a_missing_or_blank_year() {
    assert_eq!(
        WebhookNotifier::compose(Some("Nabeegh"), "Cocktail 2", None),
        "Hey Nabeegh, Cocktail 2 is ready to watch."
    );
    assert_eq!(
        WebhookNotifier::compose(Some("Nabeegh"), "Cocktail 2", Some("")),
        "Hey Nabeegh, Cocktail 2 is ready to watch."
    );
}

#[test]
fn only_encrypted_or_local_webhooks_are_accepted() {
    for accepted in [
        "https://hark.example/hooks/whk_token",
        "http://localhost:8080/hook",
        "http://127.0.0.1:8080/hook",
    ] {
        assert!(
            is_acceptable_webhook(&parse_url(accepted).unwrap()),
            "rejected {accepted}"
        );
    }
    for rejected in [
        "http://hark.example/hooks/whk_token",
        "http://192.168.1.10/hook",
        "ftp://example.com/hook",
        "file:///etc/passwd",
    ] {
        assert!(
            !is_acceptable_webhook(&parse_url(rejected).unwrap()),
            "accepted {rejected}"
        );
    }
}

#[test]
fn episode_titles_pass_through_unchanged() {
    assert_eq!(
        WebhookNotifier::compose(Some("Nabeegh"), "Severance S02E03", None),
        "Hey Nabeegh, Severance S02E03 is ready to watch."
    );
}

#[test]
fn recipient_names_are_trimmed() {
    assert_eq!(
        WebhookNotifier::compose(Some("  Nabeegh "), "Cocktail 2", Some("2026")),
        "Hey Nabeegh, Cocktail 2 (2026) is ready to watch."
    );
}

#[test]
fn webhook_secrets_are_read_trimmed_and_checked() {
    assert_eq!(webhook_from_secret(Err(())).unwrap_err(), NotifyError::SecretUnavailable);
    assert!(webhook_from_secret(Ok(None)).unwrap().is_none());
    let url = webhook_from_secret(Ok(Some("  https://hark.example/hooks/x \n".to_string())))
        .unwrap()
        .unwrap();
    assert_eq!(url.serialization, "https://hark.example/hooks/x");
    assert_eq!(
        webhook_from_secret(Ok(Some("http://hark.example/hook".to_string()))).unwrap_err(),
        NotifyError::InvalidUrl
    );
    assert_eq!(
        webhook_from_secret(Ok(Some("not a url".to_string()))).unwrap_err(),
        NotifyError::InvalidUrl
    );
}

#[test]
fn notifiers_carry_the_recipient_and_link_into_the_payload() {
    let notifier = WebhookNotifier::from_parts(
        Ok(Some("https://hark.example/hooks/x".to_string())),
        Some("Nabeegh".to_string()),
        Some("https://media.example/".to_string()),
    )
    .unwrap()
    .unwrap();
    let payload = notifier.payload("Cocktail 2", Some("2026"));
    assert_eq!(payload.title, "MovieBox");
    assert_eq!(payload.project, "MovieBox");
    assert_eq!(payload.body, "Hey Nabeegh, Cocktail 2 (2026) is ready to watch.");
    assert_eq!(payload.url.as_deref(), Some("https://media.example/"));
    assert!(WebhookNotifier::from_parts(Ok(None), None, None).unwrap().is_none());
    NoopNotifier.notify_ready("Cocktail 2", None);
}

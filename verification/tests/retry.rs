use std::time::Duration;

use moviebox_tui::catalog::CatalogError;
use moviebox_tui::server::jobs::retry::backoff_seconds;
use moviebox_tui::server::jobs::{
    backoff_delay, classify_catalog_error, may_retry, FailureClass, MAX_AUTOMATIC_ATTEMPTS,
};

const MAX_BACKOFF: Duration = Duration::from_secs(300);

#[test]
fn provider_failures_are_transient() {
    assert_eq!(
        classify_catalog_error(&CatalogError::Provider("502".into())),
        FailureClass::Transient
    );
    assert_eq!(
        classify_catalog_error(&CatalogError::InvalidPayload("data")),
        FailureClass::Transient
    );
}

#[test]
fn identity_failures_are_permanent() {
    assert_eq!(
        classify_catalog_error(&CatalogError::NotFound("source")),
        FailureClass::Permanent
    );
    assert_eq!(
        classify_catalog_error(&CatalogError::InvalidOpaqueId),
        FailureClass::Permanent
    );
    assert_eq!(
        classify_catalog_error(&CatalogError::QualityUnavailable {
            maximum_height: 1080,
            requested_height: Some(2160),
        }),
        FailureClass::Permanent
    );
}

#[test]
fn backoff_grows_then_saturates() {
    assert_eq!(backoff_delay(1), Duration::from_secs(15));
    assert_eq!(backoff_delay(2), Duration::from_secs(30));
    assert_eq!(backoff_delay(3), Duration::from_secs(60));
    assert_eq!(backoff_delay(4), Duration::from_secs(120));
    assert_eq!(backoff_delay(5), Duration::from_secs(240));
    assert_eq!(backoff_delay(6), MAX_BACKOFF);
    assert_eq!(backoff_delay(99), MAX_BACKOFF);
}

#[test]
fn retries_stop_at_the_attempt_ceiling() {
    assert!(may_retry(1));
    assert!(may_retry(MAX_AUTOMATIC_ATTEMPTS - 1));
    assert!(!may_retry(MAX_AUTOMATIC_ATTEMPTS));
    assert!(!may_retry(MAX_AUTOMATIC_ATTEMPTS + 1));
}

#[test]
fn the_first_claim_and_huge_counts_stay_bounded() {
    assert_eq!(backoff_seconds(0), 15);
    assert_eq!(backoff_seconds(u32::MAX), 300);
    assert!(FailureClass::Transient.is_transient());
    assert!(!FailureClass::Permanent.is_transient());
}

use moviebox_tui::catalog::{CatalogError, OpaqueIdCodec, QualityPolicy};

#[test]
fn quality_policy_refuses_heights_above_the_ceiling() {
    let policy = QualityPolicy::new(1080);
    assert_eq!(policy.maximum_height(), 1080);
    assert_eq!(policy.validate(1080), Ok(()));
    assert_eq!(
        policy.validate(2160),
        Err(CatalogError::QualityUnavailable {
            maximum_height: 1080,
            requested_height: Some(2160),
        })
    );
}

#[test]
fn opaque_ids_round_trip_and_reject_tampering() {
    let codec = OpaqueIdCodec::new([7u8; 32]);
    let id = codec.encode(br#"{"kind":"catalog"}"#);
    assert!(id.contains('.'));
    assert_eq!(codec.decode(&id).unwrap(), br#"{"kind":"catalog"}"#.to_vec());
    let other = OpaqueIdCodec::new([8u8; 32]);
    assert_eq!(other.decode(&id), Err(CatalogError::OpaqueIdVerificationFailed));
    assert_eq!(codec.decode("no-dot"), Err(CatalogError::InvalidOpaqueId));
    assert_eq!(codec.decode("!!.!!"), Err(CatalogError::InvalidOpaqueId));
}

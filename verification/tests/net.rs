use moviebox_tui::server::security::net::{
    ensure_public_address, equivalent_ip, normalize_ip, validate_connected_peer, validate_public_http_url,
    lookup_target, public_addresses, redirect_next, sorted_unique,
    IpAddress, NetSecurityError,
};
use moviebox_tui::urls::parse_url;

#[test]
fn missing_connected_peer_is_rejected() {
    let error = validate_connected_peer(&[IpAddress::V4([1, 1, 1, 1])], None).unwrap_err();

    assert!(matches!(
        error,
        NetSecurityError::ConnectedAddressUnavailable
    ));
}

#[test]
fn connected_peer_must_be_one_of_the_validated_addresses() {
    assert!(validate_connected_peer(&[IpAddress::V4([1, 1, 1, 1])], Some(IpAddress::V4([1, 1, 1, 1]))).is_ok());
    let mapped = IpAddress::V6([0, 0, 0, 0, 0, 0xffff, 0x0101, 0x0101]);
    assert!(validate_connected_peer(&[IpAddress::V4([1, 1, 1, 1])], Some(mapped)).is_ok());
    assert_eq!(
        validate_connected_peer(&[IpAddress::V4([1, 1, 1, 1])], Some(IpAddress::V4([8, 8, 8, 8]))).unwrap_err(),
        NetSecurityError::ConnectedAddressMismatch(IpAddress::V4([8, 8, 8, 8]))
    );
}

#[test]
fn private_and_special_addresses_are_refused() {
    for address in [
        [10, 0, 0, 1],
        [172, 16, 0, 1],
        [192, 168, 1, 10],
        [127, 0, 0, 1],
        [169, 254, 1, 1],
        [0, 0, 0, 0],
        [255, 255, 255, 255],
        [224, 0, 0, 1],
    ] {
        assert_eq!(
            ensure_public_address(IpAddress::V4(address)).unwrap_err(),
            NetSecurityError::UnsafeAddress(IpAddress::V4(address))
        );
    }
    assert!(ensure_public_address(IpAddress::V4([1, 1, 1, 1])).is_ok());
    assert!(ensure_public_address(IpAddress::V6([0, 0, 0, 0, 0, 0, 0, 1])).is_err());
    assert!(ensure_public_address(IpAddress::V6([0x2606, 0x4700, 0, 0, 0, 0, 0, 0x1111])).is_ok());
}

#[test]
fn mapped_addresses_normalize_to_ipv4() {
    let mapped = IpAddress::V6([0, 0, 0, 0, 0, 0xffff, 0x0a00, 0x0001]);
    assert_eq!(normalize_ip(mapped), IpAddress::V4([10, 0, 0, 1]));
    assert!(equivalent_ip(mapped, IpAddress::V4([10, 0, 0, 1])));
    assert!(!equivalent_ip(mapped, IpAddress::V4([10, 0, 0, 2])));
    assert!(ensure_public_address(mapped).is_err());
}

#[test]
fn only_http_urls_with_a_host_are_fetched() {
    assert!(validate_public_http_url(&parse_url("https://example.com/a").unwrap()).is_ok());
    assert!(matches!(
        validate_public_http_url(&parse_url("ftp://example.com/a").unwrap()).unwrap_err(),
        NetSecurityError::InvalidScheme(s) if s == "ftp"
    ));
    assert!(validate_public_http_url(&parse_url("http://127.0.0.1/").unwrap()).is_ok());
    let mut hostless = parse_url("https://example.com/a").unwrap();
    hostless.host = None;
    assert_eq!(validate_public_http_url(&hostless).unwrap_err(), NetSecurityError::MissingHost);
}

#[test]
fn resolved_addresses_are_sorted_deduplicated_and_public() {
    let url = parse_url("https://media.example:8443/x").unwrap();
    assert_eq!(lookup_target(&url), Some(("media.example".to_string(), 8443)));
    let found = vec![
        IpAddress::V6([0x2606, 0x4700, 0, 0, 0, 0, 0, 0x1111]),
        IpAddress::V4([8, 8, 8, 8]),
        IpAddress::V4([1, 1, 1, 1]),
        IpAddress::V4([8, 8, 8, 8]),
    ];
    assert_eq!(
        public_addresses(&url, Ok(found.clone())).unwrap(),
        vec![
            IpAddress::V4([1, 1, 1, 1]),
            IpAddress::V4([8, 8, 8, 8]),
            IpAddress::V6([0x2606, 0x4700, 0, 0, 0, 0, 0, 0x1111])
        ]
    );
    assert_eq!(sorted_unique(&found).len(), 3);
    let mut with_private = found.clone();
    with_private.push(IpAddress::V4([10, 0, 0, 1]));
    assert_eq!(
        public_addresses(&url, Ok(with_private)).unwrap_err(),
        NetSecurityError::UnsafeAddress(IpAddress::V4([10, 0, 0, 1]))
    );
    assert_eq!(
        public_addresses(&url, Ok(vec![])).unwrap_err(),
        NetSecurityError::NoResolvedAddresses("media.example".to_string())
    );
    assert_eq!(
        public_addresses(&url, Err("timeout".to_string())).unwrap_err(),
        NetSecurityError::DnsLookup { host: "media.example".to_string(), port: 8443, source: "timeout".to_string() }
    );
    let literal = parse_url("http://127.0.0.1/").unwrap();
    assert_eq!(lookup_target(&literal), None);
    assert_eq!(
        public_addresses(&literal, Ok(vec![])).unwrap_err(),
        NetSecurityError::UnsafeAddress(IpAddress::V4([127, 0, 0, 1]))
    );
}

#[test]
fn redirects_are_followed_within_the_limit() {
    let current = parse_url("https://a.example/dir/file").unwrap();
    assert!(redirect_next(0, 5, 200, None, &current).unwrap().is_none());
    let next = redirect_next(0, 5, 302, Some(Some("../other".to_string())), &current).unwrap().unwrap();
    assert_eq!(next.serialization, "https://a.example/other");
    assert_eq!(
        redirect_next(5, 5, 302, Some(Some("/x".to_string())), &current).unwrap_err(),
        NetSecurityError::RedirectLimitExceeded(5)
    );
    assert_eq!(redirect_next(0, 5, 301, None, &current).unwrap_err(), NetSecurityError::MissingRedirectLocation);
    assert_eq!(
        redirect_next(0, 5, 301, Some(None), &current).unwrap_err(),
        NetSecurityError::InvalidRedirectTarget("<non-utf8>".to_string())
    );
}

use base64::Engine;
use moviebox_tui::providers::moviebox::session::{claims_identity, jwt_payload, ClaimValue, JwtClaims, MovieBoxSession};

#[test]
fn expiry_and_empty_tokens_are_rejected() {
    assert!(!MovieBoxSession::new("".into(), None, Some(u64::MAX)).is_valid());
    assert!(!MovieBoxSession::new("fixture".into(), None, Some(0)).is_valid());
    assert!(MovieBoxSession::new("fixture".into(), None, Some(u64::MAX)).is_valid());
}

#[test]
fn parses_claims_without_retaining_a_renderable_token() {
    let payload = r#"{"userId":"fixture-visitor","exp":4102444800}"#;
    let encoded = base64::engine::general_purpose::URL_SAFE_NO_PAD.encode(payload);
    let token = format!("header.{encoded}.signature");
    let bytes = jwt_payload(&token).unwrap();
    assert_eq!(bytes, payload.as_bytes());
    let value: serde_json::Value = serde_json::from_slice(&bytes).unwrap();
    let claims = JwtClaims {
        user_id: value.get("userId").and_then(|v| v.as_str()).map(|s| ClaimValue::Text(s.to_string())),
        uid: None,
        sub: None,
        exp: value.get("exp").and_then(|v| v.as_u64()).map(ClaimValue::Unsigned),
    };
    let (user_id, expiry) = claims_identity(&claims);
    assert_eq!(user_id.as_deref(), Some("fixture-visitor"));
    assert_eq!(expiry, Some(4102444800));
}

#[test]
fn padded_and_malformed_payloads() {
    let payload = b"{\"a\":1}";
    let padded = base64::engine::general_purpose::URL_SAFE.encode(payload);
    assert_eq!(jwt_payload(&format!("h.{padded}.s")).unwrap(), payload);
    assert!(jwt_payload("no-dots-here").is_none());
    assert!(jwt_payload("h.!!!.s").is_none());
}

#[test]
fn identifiers_fall_back_and_numbers_print_in_decimal() {
    let claims = JwtClaims {
        user_id: None,
        uid: Some(ClaimValue::Signed(-42)),
        sub: Some(ClaimValue::Text("ignored".to_string())),
        exp: Some(ClaimValue::Text("1700000000".to_string())),
    };
    assert_eq!(claims_identity(&claims), (Some("-42".to_string()), Some(1700000000)));
    let claims = JwtClaims {
        user_id: Some(ClaimValue::Other),
        uid: None,
        sub: Some(ClaimValue::Unsigned(7)),
        exp: Some(ClaimValue::Signed(-1)),
    };
    assert_eq!(claims_identity(&claims), (Some("7".to_string()), None));
}

#[test]
fn sessions_expire_at_their_deadline() {
    let s = MovieBoxSession::new("t".into(), None, Some(100));
    assert!(s.is_valid_at(39));
    assert!(!s.is_valid_at(40));
    let undated = MovieBoxSession::new("t".into(), None, None);
    assert!(undated.is_valid_at(undated.created_at));
    assert!(!undated.is_valid_at(undated.created_at + 604_800));
}

use moviebox_tui::json::{JsonNumber, JsonValue};
use moviebox_tui::providers::moviebox::session::claims_of;

#[test]
fn payload_members_become_claims() {
    let payload = JsonValue::Object(vec![
        ("uid".to_string(), JsonValue::Number(JsonNumber::NegInt(-3))),
        ("sub".to_string(), JsonValue::Bool(true)),
        ("exp".to_string(), JsonValue::String("1700000000".to_string())),
        ("other".to_string(), JsonValue::Number(JsonNumber::PosInt(1))),
    ]);
    let claims = claims_of(&payload);
    assert_eq!(
        claims,
        JwtClaims {
            user_id: None,
            uid: Some(ClaimValue::Signed(-3)),
            sub: Some(ClaimValue::Other),
            exp: Some(ClaimValue::Text("1700000000".to_string())),
        }
    );
    assert_eq!(claims_identity(&claims), (Some("-3".to_string()), Some(1700000000)));
    let fraction = JsonValue::Object(vec![("userId".to_string(), JsonValue::Number(JsonNumber::Float))]);
    assert_eq!(claims_of(&fraction).user_id, Some(ClaimValue::Other));
    assert_eq!(claims_identity(&claims_of(&fraction)), (None, None));
    assert_eq!(claims_of(&JsonValue::Null), JwtClaims { user_id: None, uid: None, sub: None, exp: None });
}

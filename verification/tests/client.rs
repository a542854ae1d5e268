use moviebox_tui::json::{JsonNumber, JsonValue};
use moviebox_tui::providers::moviebox::client::{
    answer_data, host_step, host_url, media_user_agent, read_visitor_login, read_x_user, retry_with_fresh_session,
    should_invalidate, start_rotation, HostAction, HostEvent, HostFailure, LoginError,
};

fn obj(pairs: Vec<(&str, JsonValue)>) -> JsonValue {
    JsonValue::Object(pairs.into_iter().map(|(k, v)| (k.to_string(), v)).collect())
}

fn text(s: &str) -> JsonValue {
    JsonValue::String(s.to_string())
}

#[test]
fn mirrors_are_tried_in_turn_from_the_last_good_one() {
    let (r, a) = start_rotation(5);
    assert_eq!(a, HostAction::Send(5));
    let (r, a) = host_step(r, HostEvent::Answered(401));
    assert_eq!(a, HostAction::Send(6));
    let (r, a) = host_step(r, HostEvent::Failed);
    assert_eq!(a, HostAction::Send(0));
    let (r, a) = host_step(r, HostEvent::Answered(503));
    assert_eq!(a, HostAction::Send(1));
    assert_eq!(r.remembered, None);
    let (r2, a) = host_step(r, HostEvent::Answered(200));
    assert_eq!(a, HostAction::Read(1));
    assert_eq!(r2.remembered, Some(1));
    let (r3, a) = host_step(r2, HostEvent::Unreadable);
    assert_eq!(a, HostAction::Send(2));
    assert_eq!(r3.remembered, Some(1));
    let (r4, a) = host_step(r3, HostEvent::Answered(404));
    assert_eq!(a, HostAction::Send(3));
    assert_eq!(r4.remembered, Some(2));
    let (r5, a) = host_step(r4, HostEvent::Answered(204));
    assert_eq!(a, HostAction::Read(3));
    assert_eq!(r5.remembered, Some(3));
    let mut r = r;
    let mut last = HostAction::Send(1);
    for _ in 0..4 {
        let (next, action) = host_step(r, HostEvent::Failed);
        r = next;
        last = action;
    }
    assert_eq!(last, HostAction::GiveUp(HostFailure::ApiStatus(401)));
    let (mut r, _) = start_rotation(0);
    for _ in 0..7 {
        let (next, action) = host_step(r, HostEvent::Failed);
        r = next;
        last = action;
    }
    assert_eq!(last, HostAction::GiveUp(HostFailure::HostsExhausted));
    assert_eq!(host_url(6, "/wefeed-mobile-bff/x?y=1"), "https://api.inmoviebox.com/wefeed-mobile-bff/x?y=1");
}

#[test]
fn answers_unwrap_their_data() {
    let body = obj(vec![("code", JsonValue::Number(JsonNumber::PosInt(0))), ("data", text("inner"))]);
    assert_eq!(answer_data(body), text("inner"));
    let plain = obj(vec![("list", JsonValue::Array(vec![]))]);
    assert_eq!(answer_data(plain), obj(vec![("list", JsonValue::Array(vec![]))]));
}

#[test]
fn visitor_logins_name_a_token_and_maybe_a_visitor() {
    let direct = obj(vec![("token", text("t1")), ("userId", JsonValue::Number(JsonNumber::PosInt(77)))]);
    assert_eq!(read_visitor_login(&direct), Ok(("t1".to_string(), Some("77".to_string()))));
    let nested = obj(vec![("data", obj(vec![("token", text("t2")), ("uid", JsonValue::Number(JsonNumber::NegInt(-5)))]))]);
    assert_eq!(read_visitor_login(&nested), Ok(("t2".to_string(), Some("-5".to_string()))));
    let blank = obj(vec![("token", text("  ")), ("data", obj(vec![("token", text("t3"))]))]);
    assert_eq!(read_visitor_login(&blank), Err(LoginError::MissingToken));
    assert_eq!(read_visitor_login(&JsonValue::Null), Err(LoginError::MissingToken));
}

#[test]
fn x_user_headers_hand_over_sessions() {
    let header = obj(vec![("token", text("abc")), ("uid", JsonValue::Number(JsonNumber::PosInt(9)))]);
    assert_eq!(read_x_user(&header), Some(("abc".to_string(), Some("9".to_string()))));
    let signed = obj(vec![("token", text("abc")), ("uid", JsonValue::Number(JsonNumber::NegInt(-9)))]);
    assert_eq!(read_x_user(&signed), Some(("abc".to_string(), None)));
    assert_eq!(read_x_user(&obj(vec![("token", text(""))])), None);
    assert!(should_invalidate(Some("abc"), "abc"));
    assert!(!should_invalidate(Some("new"), "abc"));
    assert!(!should_invalidate(None, "abc"));
    assert!(retry_with_fresh_session(&HostFailure::ApiStatus(403)));
    assert!(!retry_with_fresh_session(&HostFailure::HostsExhausted));
    assert_eq!(media_user_agent("okhttp/4.12.0").as_deref(), Some("okhttp/4.12.0"));
    assert_eq!(media_user_agent("bad\nagent"), None);
}

#[test]
fn only_successful_answers_are_read() {
    for status in [200u16, 201, 299] {
        let (r, _) = start_rotation(2);
        let (r, a) = host_step(r, HostEvent::Answered(status));
        assert_eq!(a, HostAction::Read(2));
        assert_eq!(r.remembered, Some(2));
    }
    for status in [100u16, 301, 400, 404, 418, 501, 599] {
        let (r, _) = start_rotation(2);
        let (r, a) = host_step(r, HostEvent::Answered(status));
        assert_eq!(a, HostAction::Send(3));
        assert_eq!(r.remembered, Some(2));
    }
    for status in [401u16, 403, 429, 503] {
        let (r, _) = start_rotation(2);
        let (r, a) = host_step(r, HostEvent::Answered(status));
        assert_eq!(a, HostAction::Send(3));
        assert_eq!(r.remembered, None);
    }
    let (mut r, _) = start_rotation(6);
    let mut last = HostAction::Send(6);
    for _ in 0..7 {
        let (next, action) = host_step(r, HostEvent::Answered(404));
        r = next;
        last = action;
    }
    assert_eq!(last, HostAction::GiveUp(HostFailure::HostsExhausted));
    assert_eq!(r.remembered, Some(5));
}

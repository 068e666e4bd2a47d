use chat_relay::protocol::{Request, Response};
use chat_relay::notifications::Notification;

#[test]
fn encode_init_chat_canonical() {
    let r = Request::InitChat { addressee_nickname: String::from("bob") };
    assert_eq!(r.as_json_str(), "{\"type\":\"init_chat\",\"addressee_nickname\":\"bob\"}");
}

#[test]
fn encode_msg_canonical() {
    let r = Request::Msg { msg: String::from("hi") };
    assert_eq!(r.as_json_str(), "{\"type\":\"msg\",\"msg\":\"hi\"}");
}

#[test]
fn encode_chat_init_success() {
    assert_eq!(Response::ChatInitSuccess.as_json_str(), "{\"type\":\"chat_init_success\"}");
}

#[test]
fn encode_chat_init_failure() {
    let r = Response::ChatInitFailure { error: String::from("Addressee not found") };
    assert_eq!(r.as_json_str(), "{\"type\":\"chat_init_failure\",\"error\":\"Addressee not found\"}");
}

#[test]
fn encode_msg_response_both_tags() {
    let echo = Response::Msg { msg: String::from("hi"), is_sender: true };
    assert_eq!(echo.as_json_str(), "{\"type\":\"msg\",\"msg\":\"hi\",\"is_sender\":true}");
    let copy = Response::Msg { msg: String::from("hi"), is_sender: false };
    assert_eq!(copy.as_json_str(), "{\"type\":\"msg\",\"msg\":\"hi\",\"is_sender\":false}");
}

#[test]
fn encode_escapes_specials() {
    let r = Request::Msg { msg: String::from("a\"b\\c\nd\te\rf") };
    assert_eq!(
        r.as_json_str(),
        "{\"type\":\"msg\",\"msg\":\"a\\\"b\\\\c\\nd\\te\\rf\"}"
    );
}

#[test]
fn encode_escapes_controls_as_hex() {
    let r = Request::Msg { msg: String::from("\u{0001}\u{001f}\u{0008}\u{000c}") };
    assert_eq!(
        r.as_json_str(),
        "{\"type\":\"msg\",\"msg\":\"\\u0001\\u001f\\b\\f\"}"
    );
}

#[test]
fn decode_canonical_init_chat() {
    match Request::from("{\"type\":\"init_chat\",\"addressee_nickname\":\"bob\"}") {
        Some(Request::InitChat { addressee_nickname }) => assert_eq!(addressee_nickname, "bob"),
        _ => panic!("expected an init_chat request"),
    }
}

#[test]
fn decode_tolerates_whitespace() {
    match Request::from("  {  \"type\" : \"msg\" ,\n\t\"msg\" : \"hi there\" }  ") {
        Some(Request::Msg { msg }) => assert_eq!(msg, "hi there"),
        _ => panic!("expected a msg request"),
    }
}

#[test]
fn decode_tolerates_any_member_order() {
    match Request::from("{\"addressee_nickname\":\"bob\",\"type\":\"init_chat\"}") {
        Some(Request::InitChat { addressee_nickname }) => assert_eq!(addressee_nickname, "bob"),
        _ => panic!("expected an init_chat request"),
    }
}

#[test]
fn decode_resolves_escapes() {
    match Request::from("{\"type\":\"msg\",\"msg\":\"\\u0041\\n\\\"\\\\\\/\\b\\f\\r\\t\"}") {
        Some(Request::Msg { msg }) => assert_eq!(msg, "A\n\"\\/\u{0008}\u{000c}\r\t"),
        _ => panic!("expected a msg request"),
    }
}

#[test]
fn decode_keeps_raw_unicode() {
    match Request::from("{\"type\":\"msg\",\"msg\":\"grüße 縦\"}") {
        Some(Request::Msg { msg }) => assert_eq!(msg, "grüße 縦"),
        _ => panic!("expected a msg request"),
    }
}

#[test]
fn decode_rejects_malformed_frames() {
    // Not JSON at all.
    assert!(Request::from("hello").is_none());
    // Unterminated string.
    assert!(Request::from("{\"type\":\"msg\",\"msg\":\"hi}").is_none());
    // Raw control character inside a string.
    assert!(Request::from("{\"type\":\"msg\",\"msg\":\"a\u{0001}b\"}").is_none());
    // Surrogate escape: not a Unicode scalar value.
    assert!(Request::from("{\"type\":\"msg\",\"msg\":\"\\ud800\"}").is_none());
    // Trailing garbage after the object.
    assert!(Request::from("{\"type\":\"msg\",\"msg\":\"hi\"} x").is_none());
}

#[test]
fn decode_rejects_wrong_shapes() {
    // Unknown type tag.
    assert!(Request::from("{\"type\":\"quit\"}").is_none());
    // Missing field.
    assert!(Request::from("{\"type\":\"msg\"}").is_none());
    // Extra field.
    assert!(Request::from("{\"type\":\"msg\",\"msg\":\"hi\",\"x\":\"y\"}").is_none());
    // Duplicate field.
    assert!(Request::from("{\"type\":\"msg\",\"msg\":\"a\",\"msg\":\"b\"}").is_none());
    // Wrong value kind.
    assert!(Request::from("{\"type\":\"msg\",\"msg\":true}").is_none());
    // A response frame is not a request.
    assert!(Request::from("{\"type\":\"chat_init_success\"}").is_none());
}

#[test]
fn decode_response_frames() {
    match Response::from("{\"type\":\"msg\",\"msg\":\"hi\",\"is_sender\":false}") {
        Some(Response::Msg { msg, is_sender }) => {
            assert_eq!(msg, "hi");
            assert!(!is_sender);
        },
        _ => panic!("expected a msg response"),
    }
    assert!(matches!(
        Response::from("{\"type\":\"chat_init_success\"}"),
        Some(Response::ChatInitSuccess)
    ));
    match Response::from("{\"type\":\"chat_init_failure\",\"error\":\"Addressee not found\"}") {
        Some(Response::ChatInitFailure { error }) => assert_eq!(error, "Addressee not found"),
        _ => panic!("expected a failure response"),
    }
    assert!(Response::from("{\"type\":\"msg\",\"msg\":\"hi\",\"is_sender\":\"yes\"}").is_none());
}

#[test]
fn round_trip_requests() {
    let cases = vec![
        String::from("plain"),
        String::from(""),
        String::from("with \"quotes\" and \\slashes\\"),
        String::from("line\nbreaks\tand\u{0002}controls"),
        String::from("ünïcödé 話"),
    ];
    for text in cases {
        let encoded = Request::Msg { msg: text.clone() }.as_json_str();
        match Request::from(&encoded) {
            Some(Request::Msg { msg }) => assert_eq!(msg, text),
            _ => panic!("round trip lost the message"),
        }
        let encoded = Request::InitChat { addressee_nickname: text.clone() }.as_json_str();
        match Request::from(&encoded) {
            Some(Request::InitChat { addressee_nickname }) => assert_eq!(addressee_nickname, text),
            _ => panic!("round trip lost the nickname"),
        }
    }
}

#[test]
fn round_trip_responses() {
    let encoded = Response::Msg { msg: String::from("hé\"llo\n"), is_sender: true }.as_json_str();
    match Response::from(&encoded) {
        Some(Response::Msg { msg, is_sender }) => {
            assert_eq!(msg, "hé\"llo\n");
            assert!(is_sender);
        },
        _ => panic!("round trip lost the response"),
    }
}

#[test]
fn encode_notification_payload() {
    let n = Notification {
        addressee_nickname: String::from("alice"),
        message: String::from("hi"),
    };
    assert_eq!(n.as_json_str(), "{\"addressee_nickname\":\"alice\",\"message\":\"hi\"}");
}

#[test]
fn encoded_frames_are_json_for_serde() {
    let encoded = Request::Msg { msg: String::from("a\"b\\c\nd\u{0003}") }.as_json_str();
    let v: serde_json::Value = serde_json::from_str(&encoded).expect("serde_json must accept it");
    assert_eq!(v.get("type").and_then(|t| t.as_str()), Some("msg"));
    assert_eq!(v.get("msg").and_then(|m| m.as_str()), Some("a\"b\\c\nd\u{0003}"));

    let encoded = Response::Msg { msg: String::from("ok"), is_sender: true }.as_json_str();
    let v: serde_json::Value = serde_json::from_str(&encoded).expect("serde_json must accept it");
    assert_eq!(v.get("is_sender").and_then(|b| b.as_bool()), Some(true));
}

#[test]
fn decode_agrees_with_serde_forms() {
    // What serde_json itself prints for the same object decodes identically.
    let text = serde_json::to_string(&serde_json::from_str::<serde_json::Value>(
        "{\"type\":\"msg\",\"msg\":\"héllo\"}",
    )
    .unwrap())
    .unwrap();
    match Request::from(&text) {
        Some(Request::Msg { msg }) => assert_eq!(msg, "héllo"),
        _ => panic!("expected a msg request"),
    }
}

use ec::json::Document;
use ec::nostr::messages::{extract_request_id, request_id_from_value, OutboundMessage};

fn json_of(message: &OutboundMessage) -> serde_json::Value {
    serde_json::from_str(&message.to_json()).unwrap()
}

#[test]
fn extracts_request_id_from_valid_request() {
    let content = r#"{"action":"register","election_id":"e1","registration_token":"t","request_id":"abc123"}"#;
    let id = extract_request_id(content);
    assert_eq!(id.as_deref(), Some("abc123"));
}

#[test]
fn extracts_request_id_even_when_action_is_unknown() {
    let content = r#"{"action":"no-such-action","request_id":"abc123"}"#;
    let id = extract_request_id(content);
    assert_eq!(id.as_deref(), Some("abc123"));
}

#[test]
fn returns_none_when_request_id_missing() {
    let content = r#"{"action":"register","election_id":"e1","registration_token":"t"}"#;
    let id = extract_request_id(content);
    assert_eq!(id, None);
}

#[test]
fn returns_none_when_request_id_is_not_a_string() {
    let content = r#"{"action":"register","request_id":42}"#;
    let id = extract_request_id(content);
    assert_eq!(id, None);
}

#[test]
fn returns_none_for_malformed_json() {
    let id = extract_request_id("not json at all");
    assert_eq!(id, None);
}

#[test]
fn returns_none_when_request_id_exceeds_length_cap() {
    let long_id = "x".repeat(65);
    let content = format!(r#"{{"action":"register","request_id":"{long_id}"}}"#);
    let id = extract_request_id(&content);
    assert_eq!(id, None);
}

#[test]
fn accepts_request_id_at_length_cap() {
    let max_id = "x".repeat(64);
    let content = format!(r#"{{"action":"register","request_id":"{max_id}"}}"#);
    let id = extract_request_id(&content);
    assert_eq!(id.as_deref(), Some(max_id.as_str()));
}

#[test]
fn ok_response_echoes_request_id() {
    let response =
        OutboundMessage::ok("register-confirmed").with_request_id(Some("abc123".to_string()));
    let json = json_of(&response);
    assert_eq!(json["status"], "ok");
    assert_eq!(json["action"], "register-confirmed");
    assert_eq!(json["request_id"], "abc123");
}

#[test]
fn ok_with_signature_echoes_request_id() {
    let response = OutboundMessage::ok_with_signature("token-issued", "sig".to_string())
        .with_request_id(Some("id-1".to_string()));
    let json = json_of(&response);
    assert_eq!(json["action"], "token-issued");
    assert_eq!(json["blind_signature"], "sig");
    assert_eq!(json["request_id"], "id-1");
}

#[test]
fn error_response_echoes_request_id() {
    let response = OutboundMessage::error("INVALID_TOKEN", "bad token")
        .with_request_id(Some("abc123".to_string()));
    let json = json_of(&response);
    assert_eq!(json["status"], "error");
    assert_eq!(json["code"], "INVALID_TOKEN");
    assert_eq!(json["request_id"], "abc123");
}

#[test]
fn responses_omit_request_id_when_absent() {
    let ok = OutboundMessage::ok("register-confirmed").with_request_id(None);
    let err = OutboundMessage::error("INTERNAL_ERROR", "boom").with_request_id(None);
    let ok_json = json_of(&ok);
    let err_json = json_of(&err);
    assert!(ok_json.get("request_id").is_none());
    assert!(err_json.get("request_id").is_none());
}

#[test]
fn messages_have_their_members_in_order() {
    assert_eq!(OutboundMessage::ok("a").to_json(), r#"{"status":"ok","action":"a"}"#);
    assert_eq!(
        OutboundMessage::ok_with_signature("a", "s".to_string())
            .with_request_id(Some("r".to_string()))
            .to_json(),
        r#"{"status":"ok","action":"a","blind_signature":"s","request_id":"r"}"#
    );
    assert_eq!(
        OutboundMessage::error("C", "m").with_request_id(Some("r".to_string())).to_json(),
        r#"{"status":"error","code":"C","message":"m","request_id":"r"}"#
    );
}

#[test]
fn odd_characters_are_escaped() {
    let words = "a\"b\\c/\n\r\t\u{8}\u{c}\u{1}\u{1f}\u{7f}\u{e9}\u{1f5f3}";
    let message = OutboundMessage::error("C", words);
    assert_eq!(json_of(&message)["message"], words);
    assert_eq!(
        message.to_json(),
        "{\"status\":\"error\",\"code\":\"C\",\"message\":\"a\\\"b\\\\c/\\n\\r\\t\\b\\f\\u0001\\u001f\u{7f}\u{e9}\u{1f5f3}\"}"
    );
}

#[test]
fn length_of_request_id_is_in_bytes() {
    let content = |id: &str| format!(r#"{{"request_id":"{id}"}}"#);
    let at_cap = "\u{e9}".repeat(32);
    assert_eq!(extract_request_id(&content(&at_cap)), Some(at_cap));
    assert_eq!(extract_request_id(&content(&"\u{e9}".repeat(33))), None);
}

#[test]
fn only_objects_have_request_ids() {
    for content in ["[\"request_id\"]", "\"request_id\"", "null", "7", "true", "{}"] {
        assert_eq!(extract_request_id(content), None);
    }
    for held in ["null", "true", "[\"x\"]", "{\"request_id\":\"x\"}"] {
        assert_eq!(extract_request_id(&format!("{{\"request_id\":{held}}}")), None);
    }
    assert_eq!(extract_request_id("{\"request_id\":\"\"}"), Some(String::new()));
}

#[test]
fn request_id_is_read_off_a_document() {
    let entry = |key: &str, text: Option<&str>| (key.to_string(), text.map(|t| t.to_string()));
    let document = Document::Object(vec![
        entry("action", Some("register")),
        entry("request_id", Some("r1")),
    ]);
    assert_eq!(request_id_from_value(&document).as_deref(), Some("r1"));
    let document = Document::Object(vec![entry("request_id", None)]);
    assert_eq!(request_id_from_value(&document), None);
    assert_eq!(request_id_from_value(&Document::Other), None);
}

#[test]
fn a_request_id_replaces_the_one_before() {
    let message = OutboundMessage::ok("a")
        .with_request_id(Some("one".to_string()))
        .with_request_id(Some("two".to_string()));
    assert_eq!(json_of(&message)["request_id"], "two");
    let message = message.with_request_id(None);
    assert!(json_of(&message).get("request_id").is_none());
}

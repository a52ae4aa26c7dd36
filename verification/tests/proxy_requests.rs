use prefix_x::allocator::Allocator;
use prefix_x::json::{JsonNumber, JsonValue};
use prefix_x::proxy::{inject, response_content_type, route, trend_block, Forward, InjectError};
use prefix_x::x::Post;

fn s(x: &str) -> JsonValue {
    JsonValue::Str(x.to_string())
}

fn obj(entries: Vec<(&str, JsonValue)>) -> JsonValue {
    JsonValue::Object(entries.into_iter().map(|(k, v)| (k.to_string(), v)).collect())
}

fn msg(role: &str, content: &str) -> JsonValue {
    obj(vec![("role", s(role)), ("content", s(content))])
}

fn request(user: &str) -> JsonValue {
    obj(vec![
        ("model", s("grok-4")),
        ("messages", JsonValue::Array(vec![msg("user", user)])),
        ("max_tokens", JsonValue::Number(JsonNumber::PosInt(64))),
    ])
}

#[test]
fn inject_puts_the_block_first() {
    let out = inject(request("hi"), "BLOCK").unwrap();
    let expected = obj(vec![
        ("model", s("grok-4")),
        ("messages", JsonValue::Array(vec![msg("system", "BLOCK"), msg("user", "hi")])),
        ("max_tokens", JsonValue::Number(JsonNumber::PosInt(64))),
    ]);
    assert_eq!(out, expected);
}

#[test]
fn inject_gives_every_request_the_same_front() {
    let a = inject(request("first user"), "SAME").unwrap();
    let b = inject(request("someone else entirely"), "SAME").unwrap();
    let first = |v: &JsonValue| match v {
        JsonValue::Object(e) => match &e[1].1 {
            JsonValue::Array(m) => format!("{:?}", m[0]),
            _ => panic!("no messages"),
        },
        _ => panic!("not an object"),
    };
    assert_eq!(first(&a), first(&b));
    assert_eq!(first(&a), format!("{:?}", msg("system", "SAME")));
}

#[test]
fn inject_refuses_bodies_without_messages() {
    assert_eq!(inject(s("text"), "P").unwrap_err(), InjectError::NoMessages);
    assert_eq!(inject(obj(vec![("model", s("m"))]), "P").unwrap_err(), InjectError::NoMessages);
    assert_eq!(inject(obj(vec![("messages", s("m"))]), "P").unwrap_err(), InjectError::NoMessages);
    assert_eq!(inject(JsonValue::Array(vec![]), "P").unwrap_err(), InjectError::NoMessages);
}

#[test]
fn inject_into_empty_messages() {
    let out = inject(obj(vec![("messages", JsonValue::Array(vec![]))]), "P").unwrap();
    assert_eq!(out, obj(vec![("messages", JsonValue::Array(vec![msg("system", "P")]))]));
}

fn allocator() -> Allocator {
    let mut a = Allocator::new("t".to_string(), 5, 8);
    let p = Post {
        id: "1".to_string(),
        text: "post".to_string(),
        created_at: String::new(),
        likes: 1,
        retweets: 1,
        impressions: 1,
    };
    a.refresh(vec![("Nvidia".to_string(), vec![p])]);
    a
}

#[test]
fn route_injects_for_a_held_trend() {
    let a = allocator();
    let t = a.get("Nvidia").unwrap();
    match route(&a, Some("Nvidia"), Some("user-42")) {
        Forward::Inject { prefix, conv_id } => {
            assert_eq!(prefix, t.prefix);
            assert_eq!(conv_id, t.conv_id);
        }
        other => panic!("expected injection, got {other:?}"),
    }
}

#[test]
fn route_passes_untouched_otherwise() {
    let a = allocator();
    match route(&a, Some("nvidia"), Some("user-42")) {
        Forward::Pass { header_conv_id } => assert_eq!(header_conv_id.as_deref(), Some("user-42")),
        other => panic!("expected pass, got {other:?}"),
    }
    match route(&a, None, None) {
        Forward::Pass { header_conv_id } => assert!(header_conv_id.is_none()),
        other => panic!("expected pass, got {other:?}"),
    }
}

#[test]
fn trend_block_answers_held_trends_only() {
    let a = allocator();
    assert_eq!(trend_block(&a, "Nvidia"), Some(a.get("Nvidia").unwrap().prefix));
    assert_eq!(trend_block(&a, "Missing"), None);
}

#[test]
fn response_content_type_defaults_to_json() {
    assert_eq!(response_content_type(None), "application/json");
    assert_eq!(response_content_type(Some("text/event-stream".to_string())), "text/event-stream");
}

#[test]
fn inject_body_works_on_raw_bytes() {
    let body = br#"{"model":"grok-4","messages":[{"role":"user","content":"hi"}],"stream":false}"#;
    let out = prefix_x::proxy::inject_body(body, "BLOCK").unwrap();
    let expected = br#"{"messages":[{"content":"BLOCK","role":"system"},{"content":"hi","role":"user"}],"model":"grok-4","stream":false}"#;
    assert_eq!(String::from_utf8(out).unwrap(), String::from_utf8(expected.to_vec()).unwrap());
}

#[test]
fn inject_body_keeps_numbers() {
    let body = br#"{"messages":[],"max_tokens":64,"temperature":0.5,"seed":-3}"#;
    let out = prefix_x::proxy::inject_body(body, "P").unwrap();
    assert_eq!(
        String::from_utf8(out).unwrap(),
        r#"{"max_tokens":64,"messages":[{"content":"P","role":"system"}],"seed":-3,"temperature":0.5}"#
    );
}

#[test]
fn inject_body_errors() {
    assert_eq!(prefix_x::proxy::inject_body(b"not json", "P").unwrap_err(), InjectError::NotJson);
    assert_eq!(prefix_x::proxy::inject_body(b"", "P").unwrap_err(), InjectError::NotJson);
    assert_eq!(prefix_x::proxy::inject_body(br#"{"model":"m"}"#, "P").unwrap_err(), InjectError::NoMessages);
    assert_eq!(prefix_x::proxy::inject_body(br#"{"messages":"x"}"#, "P").unwrap_err(), InjectError::NoMessages);
}

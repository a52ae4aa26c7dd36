use prefix_x::json::{JsonNumber, JsonValue};
use prefix_x::measure::{payload, Request, Sample, StreamReader};

fn s(x: &str) -> JsonValue {
    JsonValue::Str(x.to_string())
}

fn obj(entries: Vec<(&str, JsonValue)>) -> JsonValue {
    JsonValue::Object(entries.into_iter().map(|(k, v)| (k.to_string(), v)).collect())
}

fn n(x: u64) -> JsonValue {
    JsonValue::Number(JsonNumber::PosInt(x))
}

fn delta_event(text: &str) -> JsonValue {
    obj(vec![(
        "choices",
        JsonValue::Array(vec![obj(vec![("delta", obj(vec![("content", s(text))]))])]),
    )])
}

fn usage_event(prompt: u64, cached: u64, completion: u64) -> JsonValue {
    obj(vec![
        ("choices", JsonValue::Array(vec![])),
        (
            "usage",
            obj(vec![
                ("prompt_tokens", n(prompt)),
                ("completion_tokens", n(completion)),
                ("prompt_tokens_details", obj(vec![("cached_tokens", n(cached))])),
            ]),
        ),
    ])
}

fn sample(cached: u64) -> Sample {
    Sample {
        ttft_ms: 1,
        total_ms: 2,
        prompt_tokens: 10,
        cached_tokens: cached,
        completion_tokens: 3,
        preview: String::new(),
    }
}

#[test]
fn hit_means_some_cached_tokens() {
    assert!(sample(1).hit());
    assert!(sample(900).hit());
    assert!(!sample(0).hit());
}

fn msg(role: &str, content: &str) -> JsonValue {
    obj(vec![("role", s(role)), ("content", s(content))])
}

#[test]
fn body_puts_the_prefix_first() {
    let req = Request { model: "grok-4", prefix: Some("BLOCK"), user: "q?", conv_id: "trend-1", max_tokens: 50 };
    let expected = obj(vec![
        ("model", s("grok-4")),
        ("stream", JsonValue::Bool(true)),
        ("stream_options", obj(vec![("include_usage", JsonValue::Bool(true))])),
        ("max_tokens", n(50)),
        ("messages", JsonValue::Array(vec![msg("system", "BLOCK"), msg("user", "q?")])),
    ]);
    assert_eq!(req.body(), expected);
}

#[test]
fn body_without_prefix_has_only_the_user_message() {
    let req = Request { model: "m", prefix: None, user: "hello", conv_id: "c", max_tokens: 0 };
    match req.body() {
        JsonValue::Object(e) => {
            assert_eq!(e.len(), 5);
            assert_eq!(e[4].1, JsonValue::Array(vec![msg("user", "hello")]));
        }
        other => panic!("not an object: {other:?}"),
    }
}

fn line(text: &str) -> Vec<char> {
    text.chars().collect()
}

#[test]
fn payload_reads_data_lines_only() {
    assert_eq!(payload(&line("data: {\"a\":1}")), Some("{\"a\":1}".to_string()));
    assert_eq!(payload(&line("  data:{}  \r")), Some("{}".to_string()));
    assert_eq!(payload(&line("data: [DONE]")), None);
    assert_eq!(payload(&line("data:   ")), None);
    assert_eq!(payload(&line(": keep-alive")), None);
    assert_eq!(payload(&line("event: x")), None);
    assert_eq!(payload(&line("")), None);
    assert_eq!(payload(&line("data: [DONE] more")), Some("[DONE] more".to_string()));
}

#[test]
fn feed_holds_back_the_unfinished_line() {
    let mut r = StreamReader::new();
    assert!(r.feed(b"data: {\"x\"").is_empty());
    assert_eq!(r.feed(b":1}\n\ndata: [DONE]\n"), vec!["{\"x\":1}".to_string()]);
    assert!(r.feed(b"").is_empty());
}

#[test]
fn chunking_does_not_matter() {
    let whole = b"data: one\n: ping\ndata: two\ndata: thr";
    let mut a = StreamReader::new();
    let all = a.feed(whole);
    let mut b = StreamReader::new();
    let mut parts = b.feed(&whole[..7]);
    parts.extend(b.feed(&whole[7..20]));
    parts.extend(b.feed(&whole[20..]));
    assert_eq!(all, parts);
    assert_eq!(all, vec!["one".to_string(), "two".to_string()]);
    assert_eq!(a.feed(b"ee\n"), vec!["three".to_string()]);
    assert_eq!(b.feed(b"ee\n"), vec!["three".to_string()]);
}

#[test]
fn feed_replaces_invalid_utf8() {
    let mut r = StreamReader::new();
    assert_eq!(r.feed(b"data: a\xffb\n"), vec!["a\u{fffd}b".to_string()]);
}

#[test]
fn events_build_the_sample() {
    let mut r = StreamReader::new();
    r.apply_event(&obj(vec![("choices", JsonValue::Array(vec![obj(vec![("delta", obj(vec![("role", s("assistant"))]))])]))]), 5);
    r.apply_event(&delta_event(""), 7);
    r.apply_event(&delta_event("Hello"), 12);
    r.apply_event(&delta_event(" world"), 20);
    r.apply_event(&usage_event(100, 80, 2), 30);
    let sample = r.finish(40).unwrap();
    assert_eq!(sample.ttft_ms, 12);
    assert_eq!(sample.total_ms, 40);
    assert_eq!(sample.prompt_tokens, 100);
    assert_eq!(sample.cached_tokens, 80);
    assert_eq!(sample.completion_tokens, 2);
    assert_eq!(sample.preview, "Hello world");
    assert!(sample.hit());
}

#[test]
fn missing_counts_read_as_zero() {
    let mut r = StreamReader::new();
    r.apply_event(&obj(vec![("usage", obj(vec![("prompt_tokens", JsonValue::Number(JsonNumber::NegInt(-3)))]))]), 1);
    let sample = r.finish(9).unwrap();
    assert_eq!(sample.prompt_tokens, 0);
    assert_eq!(sample.cached_tokens, 0);
    assert_eq!(sample.completion_tokens, 0);
    assert_eq!(sample.ttft_ms, 9);
    assert_eq!(sample.preview, "");
    assert!(!sample.hit());
}

#[test]
fn usage_that_is_not_an_object_is_ignored() {
    let mut r = StreamReader::new();
    r.apply_event(&usage_event(1, 1, 1), 1);
    r.apply_event(&obj(vec![("usage", JsonValue::Null)]), 2);
    assert_eq!(r.finish(3).unwrap().prompt_tokens, 1);
}

#[test]
fn finish_without_usage_is_an_error() {
    let mut r = StreamReader::new();
    r.apply_event(&delta_event("text"), 1);
    assert_eq!(
        r.finish(2).unwrap_err(),
        "no usage chunk — is stream_options.include_usage set?"
    );
}

#[test]
fn preview_is_sixty_characters_without_new_lines() {
    let mut r = StreamReader::new();
    let long: String = "é\n".repeat(40);
    r.apply_event(&delta_event(&long), 1);
    r.apply_event(&usage_event(0, 0, 0), 2);
    let preview = r.finish(3).unwrap().preview;
    assert_eq!(preview.chars().count(), 60);
    assert_eq!(preview, "é ".repeat(30));
}

#[test]
fn take_payload_parses_and_applies() {
    let mut r = StreamReader::new();
    r.take_payload(r#"{"choices":[{"delta":{"content":"Hi"}}]}"#, 4);
    r.take_payload("not json at all", 5);
    r.take_payload(r#"{"choices":[],"usage":{"prompt_tokens":9,"completion_tokens":1,"prompt_tokens_details":{"cached_tokens":6}}}"#, 8);
    let sample = r.finish(10).unwrap();
    assert_eq!(sample.ttft_ms, 4);
    assert_eq!(sample.preview, "Hi");
    assert_eq!((sample.prompt_tokens, sample.cached_tokens, sample.completion_tokens), (9, 6, 1));
}

#[test]
fn body_bytes_is_the_written_body() {
    let req = Request { model: "grok-4", prefix: Some("B"), user: "q", conv_id: "c", max_tokens: 5 };
    assert_eq!(
        String::from_utf8(req.body_bytes()).unwrap(),
        r#"{"max_tokens":5,"messages":[{"content":"B","role":"system"},{"content":"q","role":"user"}],"model":"grok-4","stream":true,"stream_options":{"include_usage":true}}"#
    );
}

#[test]
fn byte_chunking_does_not_matter_for_multibyte_text() {
    let whole = "data: é€\ndata: ✓\n".as_bytes();
    let mut a = StreamReader::new();
    let all = a.feed(whole);
    let mut b = StreamReader::new();
    let mut parts = b.feed(&whole[..8]);
    parts.extend(b.feed(&whole[8..]));
    assert_eq!(all, parts);
    assert_eq!(all, vec!["é€".to_string(), "✓".to_string()]);
}

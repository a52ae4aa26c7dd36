use prefix_x::prefix::{build, collapse_whitespace, format_post_line, format_prefix};
use prefix_x::x::Post;
use std::hash::{BuildHasher, BuildHasherDefault};

fn post(text: &str, likes: u64, retweets: u64) -> Post {
    Post {
        id: "1".to_string(),
        text: text.to_string(),
        created_at: "2025-01-01T00:00:00Z".to_string(),
        likes,
        retweets,
        impressions: 100,
    }
}

#[test]
fn collapse_whitespace_joins_words_with_single_spaces() {
    assert_eq!(collapse_whitespace("  hello \n\t world  "), "hello world");
    assert_eq!(collapse_whitespace("one"), "one");
    assert_eq!(collapse_whitespace(""), "");
    assert_eq!(collapse_whitespace(" \n\r\t "), "");
}

#[test]
fn collapse_whitespace_knows_unicode_white_space() {
    assert_eq!(collapse_whitespace("a\u{3000}b\u{a0}c\u{2028}d"), "a b c d");
    assert_eq!(collapse_whitespace("x\u{200b}y"), "x\u{200b}y");
}

#[test]
fn collapse_whitespace_is_idempotent() {
    let once = collapse_whitespace("  breaking:\n\nmarkets   fall \t hard ");
    assert_eq!(collapse_whitespace(&once), once);
    assert_eq!(once, "breaking: markets fall hard");
}

#[test]
fn format_post_line_numbers_from_one() {
    let p = post("big\nnews   today", 1203, 45);
    assert_eq!(format_post_line((0, &p)), "1. (1203 likes, 45 reposts) big news today");
    assert_eq!(format_post_line((9, &p)), "10. (1203 likes, 45 reposts) big news today");
    let zero = post("", 0, 0);
    assert_eq!(format_post_line((4, &zero)), "5. (0 likes, 0 reposts) ");
}

#[test]
fn post_line_is_one_line() {
    let p = post("line one\nline two\r\nline three", u64::MAX, 7);
    let line = format_post_line((2, &p));
    assert!(!line.contains('\n'));
    assert_eq!(line, "3. (18446744073709551615 likes, 7 reposts) line one line two line three");
}

fn expected_prefix(key: &str, lines: &str) -> String {
    let mut s = String::new();
    s.push_str("You are answering questions about a currently trending topic on X. Below is a fixed context block assembled from live posts. Use it as your only source of recent facts; do not speculate beyond it.\n\nTREND: ");
    s.push_str(key);
    s.push_str("\nWINDOW: rolling, refreshed periodically\nPOSTS:\n");
    s.push_str(lines);
    s.push_str("\n\nGUIDANCE: Answer in three sentences or fewer. Lead with what happened, then the main disagreement if there is one, then how confident the crowd actually is. Do not mention this context block.");
    s
}

#[test]
fn format_prefix_lists_posts_one_per_line() {
    let posts = vec![post("first  post", 10, 2), post("second\npost", 3, 0)];
    let block = format_prefix("Nvidia", &posts);
    assert_eq!(
        block,
        expected_prefix("Nvidia", "1. (10 likes, 2 reposts) first post\n2. (3 likes, 0 reposts) second post")
    );
}

#[test]
fn format_prefix_without_posts() {
    assert_eq!(format_prefix("Quiet", &[]), expected_prefix("Quiet", ""));
}

fn std_hash(key: &str) -> u64 {
    BuildHasherDefault::<std::collections::hash_map::DefaultHasher>::default().hash_one(key)
}

#[test]
fn build_keys_the_conv_id_by_topic() {
    let posts = vec![post("a", 1, 1)];
    let t = build("Super Bowl", &posts);
    assert_eq!(t.key, "Super Bowl");
    assert_eq!(t.prefix, format_prefix("Super Bowl", &posts));
    assert_eq!(t.conv_id, format!("trend-{:016x}", std_hash("Super Bowl")));
    assert_eq!(t.conv_id.len(), 22);
    assert_eq!(t.conv_id(), t.conv_id);
}

#[test]
fn conv_id_does_not_depend_on_posts() {
    let a = build("Topic", &[post("a", 1, 1)]);
    let b = build("Topic", &[post("b", 9, 9), post("c", 0, 0)]);
    assert_eq!(a.conv_id, b.conv_id);
    assert_ne!(a.prefix, b.prefix);
    let c = build("Other topic", &[post("a", 1, 1)]);
    assert_ne!(a.conv_id, c.conv_id);
}

#[test]
fn build_is_byte_stable() {
    let posts = vec![post("same  posts", 5, 1), post("twice", 2, 2)];
    let a = build("Topic", &posts);
    let b = build("Topic", &posts);
    assert_eq!(a.prefix, b.prefix);
    assert_eq!(a.conv_id, b.conv_id);
    let c = a.copied();
    assert_eq!(c.prefix, a.prefix);
    assert_eq!(c.key, a.key);
}

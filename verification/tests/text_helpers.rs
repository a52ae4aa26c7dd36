use prefix_x::measure::StreamReader;
use prefix_x::prefix::collapse_whitespace;
use prefix_x::text::{
    chars_of, contains_str, push_decimal, push_hex16, starts_with_chars, string_of, trim_chars,
};
use prefix_x::allocator::Allocator;
use prefix_x::x::Post;

#[test]
fn white_space_is_unicode_white_space() {
    for c in ['\t', '\n', '\u{b}', '\u{c}', '\r', ' ', '\u{85}', '\u{a0}', '\u{1680}', '\u{2000}', '\u{200a}', '\u{2028}', '\u{2029}', '\u{202f}', '\u{205f}', '\u{3000}'] {
        assert_eq!(collapse_whitespace(&format!("a{c}b")), "a b", "{c:?}");
        assert_eq!(string_of(&trim_chars(&vec![c, 'x', c])), "x", "{c:?}");
    }
    for c in ['a', '0', '\u{200b}', '\u{feff}', '\u{180e}', '_'] {
        assert_eq!(collapse_whitespace(&format!("a{c}b")), format!("a{c}b"), "{c:?}");
    }
}

#[test]
fn decimal_and_hex_digits() {
    let mut s = String::from("n=");
    push_decimal(&mut s, 0);
    push_decimal(&mut s, 1234567890);
    assert_eq!(s, "n=01234567890");
    let mut h = String::new();
    push_hex16(&mut h, 0xdead_beef);
    assert_eq!(h, "00000000deadbeef");
    let mut m = String::new();
    push_hex16(&mut m, u64::MAX);
    assert_eq!(m, "ffffffffffffffff");
}

#[test]
fn contains_str_finds_runs() {
    assert!(contains_str("super bowl sunday", "bowl"));
    assert!(contains_str("abc", ""));
    assert!(contains_str("", ""));
    assert!(!contains_str("ab", "abc"));
    assert!(!contains_str("a b c", "ab"));
    assert!(contains_str("ééa", "éa"));
}

#[test]
fn trim_and_prefix() {
    assert_eq!(string_of(&trim_chars(&chars_of("  \t x y \r\n"))), "x y");
    assert_eq!(trim_chars(&chars_of("   ")), Vec::<char>::new());
    assert!(starts_with_chars(&chars_of("data: x"), &chars_of("data:")));
    assert!(!starts_with_chars(&chars_of("dat"), &chars_of("data:")));
}

#[test]
fn lowercase_through_lookup() {
    let mut a = Allocator::new("t".to_string(), 5, 8);
    let post = Post {
        id: "1".to_string(),
        text: "x".to_string(),
        created_at: String::new(),
        likes: 0,
        retweets: 0,
        impressions: 0,
    };
    a.refresh(vec![("ΣΟΦΙΑ".to_string(), vec![post])]);
    assert_eq!(a.lookup("η σοφια μιλά").unwrap().key, "ΣΟΦΙΑ");
    assert!(a.lookup("ΣΟΦ").is_none());
}

#[test]
fn lossy_decoding_through_feed() {
    let mut r = StreamReader::new();
    assert_eq!(r.feed(b"data: ok\n"), vec!["ok".to_string()]);
    assert_eq!(r.feed(b"data: a\xc3\n"), vec!["a\u{fffd}".to_string()]);
    assert_eq!(r.feed("data: ß\n".as_bytes()), vec!["ß".to_string()]);
}

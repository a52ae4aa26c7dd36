use prefix_x::state::{
    parse_unsigned, setting_or, Settings, DEFAULT_POSTS_PER_TREND, DEFAULT_REFRESH_INTERVAL_SECS,
    DEFAULT_TREND_COUNT,
};

#[test]
fn parse_unsigned_reads_what_str_parse_reads() {
    for text in ["0", "42", "+7", "007", "18446744073709551615", "-1", "", "+", " 5", "5 ", "1_000", "12a", "++1", "١"] {
        assert_eq!(parse_unsigned(text, u64::MAX), text.parse::<u64>().ok(), "text {text:?}");
    }
}

#[test]
fn parse_unsigned_refuses_what_does_not_fit() {
    assert_eq!(parse_unsigned("18446744073709551616", u64::MAX), None);
    assert_eq!(parse_unsigned("255", 255), Some(255));
    assert_eq!(parse_unsigned("256", 255), None);
    assert_eq!(parse_unsigned("1000", 999), None);
}

#[test]
fn decimal_reads_back() {
    for n in [0u64, 9, 10, 12345, u64::MAX] {
        assert_eq!(parse_unsigned(&n.to_string(), u64::MAX), Some(n));
    }
}

#[test]
fn setting_or_falls_back_to_the_default() {
    assert_eq!(setting_or(None, u64::MAX, 5), 5);
    assert_eq!(setting_or(Some("abc"), u64::MAX, 5), 5);
    assert_eq!(setting_or(Some("12"), u64::MAX, 5), 12);
}

#[test]
fn settings_defaults() {
    let s = Settings::from_values(None, None, None);
    assert_eq!(s.trend_count, DEFAULT_TREND_COUNT);
    assert_eq!(s.posts_per_trend, DEFAULT_POSTS_PER_TREND);
    assert_eq!(s.refresh_interval_secs, DEFAULT_REFRESH_INTERVAL_SECS);
    assert_eq!((s.trend_count, s.posts_per_trend, s.refresh_interval_secs), (5, 8, 300));
}

#[test]
fn settings_from_values() {
    let s = Settings::from_values(Some("3"), Some("x"), Some("+60"));
    assert_eq!(s, Settings { trend_count: 3, posts_per_trend: 8, refresh_interval_secs: 60 });
}

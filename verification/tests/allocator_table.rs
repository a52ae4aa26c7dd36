use prefix_x::allocator::Allocator;
use prefix_x::prefix::build;
use prefix_x::x::{Post, Trend as XTrend};

fn post(text: &str) -> Post {
    Post {
        id: "1".to_string(),
        text: text.to_string(),
        created_at: String::new(),
        likes: 1,
        retweets: 0,
        impressions: 0,
    }
}

fn entry(name: &str, texts: &[&str]) -> (String, Vec<Post>) {
    (name.to_string(), texts.iter().map(|t| post(t)).collect())
}

#[test]
fn new_allocator_holds_nothing() {
    let a = Allocator::new("token".to_string(), 5, 8);
    assert_eq!(a.active_count(), 0);
    assert!(a.get("anything").is_none());
    assert!(a.keys().is_empty());
    assert_eq!(a.bearer(), "token");
    assert_eq!(a.trend_count(), 5);
    assert_eq!(a.posts_per_trend(), 8);
}

#[test]
fn refresh_builds_blocks_for_topics_with_posts() {
    let mut a = Allocator::new("t".to_string(), 5, 8);
    a.refresh(vec![entry("Nvidia", &["up"]), entry("Quiet", &[]), entry("Rain", &["wet", "cold"])]);
    assert_eq!(a.active_count(), 2);
    let n = a.get("Nvidia").unwrap();
    let expected = build("Nvidia", &[post("up")]);
    assert_eq!(n.prefix, expected.prefix);
    assert_eq!(n.conv_id, expected.conv_id);
    assert!(a.get("Quiet").is_none());
    let mut keys = a.keys();
    keys.sort();
    assert_eq!(keys, vec!["Nvidia".to_string(), "Rain".to_string()]);
}

#[test]
fn refresh_takes_only_trend_count_entries() {
    let mut a = Allocator::new("t".to_string(), 2, 8);
    a.refresh(vec![entry("A", &["x"]), entry("B", &["y"]), entry("C", &["z"])]);
    assert_eq!(a.active_count(), 2);
    assert!(a.get("C").is_none());
    assert!(a.active_count() <= a.trend_count());
}

#[test]
fn refresh_later_entry_of_same_name_wins() {
    let mut a = Allocator::new("t".to_string(), 5, 8);
    a.refresh(vec![entry("A", &["old"]), entry("A", &["new"]), entry("A", &[])]);
    assert_eq!(a.active_count(), 1);
    assert_eq!(a.get("A").unwrap().prefix, build("A", &[post("new")]).prefix);
}

#[test]
fn refresh_replaces_what_was_held() {
    let mut a = Allocator::new("t".to_string(), 5, 8);
    a.refresh(vec![entry("A", &["x"])]);
    a.refresh(vec![entry("B", &["y"])]);
    assert!(a.get("A").is_none());
    assert!(a.get("B").is_some());
    a.refresh(Vec::new());
    assert_eq!(a.active_count(), 0);
}

#[test]
fn get_is_an_exact_match() {
    let mut a = Allocator::new("t".to_string(), 5, 8);
    a.refresh(vec![entry("Super Bowl", &["x"])]);
    assert!(a.get("Super Bowl").is_some());
    assert!(a.get("super bowl").is_none());
    assert!(a.get("Super").is_none());
}

#[test]
fn lookup_finds_a_topic_named_in_the_text() {
    let mut a = Allocator::new("t".to_string(), 5, 8);
    a.refresh(vec![entry("Super Bowl", &["x"]), entry("NVIDIA", &["y"])]);
    assert_eq!(a.lookup("who won the SUPER BOWL yesterday?").unwrap().key, "Super Bowl");
    assert_eq!(a.lookup("what happened with nvidia").unwrap().key, "NVIDIA");
    assert!(a.lookup("nothing relevant").is_none());
    assert!(a.lookup("").is_none());
}

#[test]
fn lookup_lowercases_beyond_ascii() {
    let mut a = Allocator::new("t".to_string(), 5, 8);
    a.refresh(vec![entry("ÉCOLE", &["x"])]);
    assert_eq!(a.lookup("une école fermée").unwrap().key, "ÉCOLE");
}

#[test]
fn refresh_targets_takes_the_first_trend_count() {
    let a = Allocator::new("t".to_string(), 2, 8);
    let top: Vec<XTrend> = ["a", "b", "c"].iter().map(|n| XTrend { name: n.to_string() }).collect();
    let picked = a.refresh_targets(top);
    assert_eq!(picked.len(), 2);
    assert_eq!(picked[0].name, "a");
    assert_eq!(picked[1].name, "b");
    let few = a.refresh_targets(vec![XTrend { name: "z".to_string() }]);
    assert_eq!(few.len(), 1);
}

#[test]
fn refresh_keeps_posts_per_trend_posts() {
    let mut a = Allocator::new("t".to_string(), 5, 2);
    a.refresh(vec![entry("A", &["one", "two", "three"])]);
    assert_eq!(a.get("A").unwrap().prefix, build("A", &[post("one"), post("two")]).prefix);
    let mut none = Allocator::new("t".to_string(), 5, 0);
    none.refresh(vec![entry("A", &["one"])]);
    assert_eq!(none.active_count(), 0);
}

#[test]
fn keys_list_every_held_trend() {
    let mut a = Allocator::new("t".to_string(), 5, 8);
    a.refresh(vec![entry("A", &["x"]), entry("B", &["y"]), entry("A", &["z"])]);
    let mut keys = a.keys();
    keys.sort();
    assert_eq!(keys, vec!["A".to_string(), "B".to_string()]);
}

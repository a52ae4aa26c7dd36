use prefix_x::x::{rank_posts, search_query, trends_url, Post, UNITED_STATES, WORLDWIDE};

fn post(id: &str, likes: u64, retweets: u64) -> Post {
    Post {
        id: id.to_string(),
        text: format!("post {id}"),
        created_at: String::new(),
        likes,
        retweets,
        impressions: 0,
    }
}

fn ids(posts: &[Post]) -> Vec<String> {
    posts.iter().map(|p| p.id.clone()).collect()
}

#[test]
fn rank_posts_orders_by_engagement_descending() {
    let posts = vec![post("a", 1, 1), post("b", 10, 0), post("c", 3, 4), post("d", 0, 0)];
    assert_eq!(ids(&rank_posts(posts, 10)), vec!["b", "c", "a", "d"]);
}

#[test]
fn rank_posts_is_stable_for_ties() {
    let posts = vec![post("a", 2, 0), post("b", 1, 1), post("c", 5, 0), post("d", 0, 2)];
    assert_eq!(ids(&rank_posts(posts, 10)), vec!["c", "a", "b", "d"]);
}

#[test]
fn rank_posts_cuts_to_the_limit() {
    let posts = vec![post("a", 1, 0), post("b", 2, 0), post("c", 3, 0)];
    assert_eq!(ids(&rank_posts(posts.clone(), 2)), vec!["c", "b"]);
    assert!(rank_posts(posts, 0).is_empty());
    assert!(rank_posts(Vec::new(), 8).is_empty());
}

#[test]
fn rank_posts_is_a_function_of_the_posts() {
    let posts = vec![post("a", 4, 0), post("b", 2, 2), post("c", 1, 0), post("d", 0, 4)];
    assert_eq!(ids(&rank_posts(posts.clone(), 3)), ids(&rank_posts(posts, 3)));
}

#[test]
fn search_query_excludes_reposts_and_other_languages() {
    assert_eq!(search_query("nvidia"), "nvidia -is:retweet lang:en");
    assert_eq!(search_query(""), " -is:retweet lang:en");
}

#[test]
fn trends_url_names_the_place() {
    assert_eq!(trends_url(UNITED_STATES), "https://api.twitter.com/2/trends/by/woeid/23424977");
    assert_eq!(trends_url(WORLDWIDE), "https://api.twitter.com/2/trends/by/woeid/1");
    assert_eq!(trends_url(0), "https://api.twitter.com/2/trends/by/woeid/0");
}

#[test]
fn smaller_limit_is_a_prefix() {
    let posts = vec![post("a", 1, 0), post("b", 5, 0), post("c", 5, 0), post("d", 2, 1)];
    let large = ids(&rank_posts(posts.clone(), 3));
    for small in 0..=3 {
        assert_eq!(ids(&rank_posts(posts.clone(), small)), large[..small].to_vec());
    }
}

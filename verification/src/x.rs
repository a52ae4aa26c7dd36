//! X API data: trends, posts, the search query, and how posts are ranked.

use vstd::prelude::*;
use vstd::string::*;
use crate::text::{decimal, push_decimal};

verus! {

/// The WOEID of the whole world.
pub const WORLDWIDE: u32 = 1;

/// The WOEID of the United States.
pub const UNITED_STATES: u32 = 23424977;

/// A trending topic as the X API names it.
#[derive(Debug, Clone)]
pub struct Trend {
    pub name: String,
}

/// One post with its public engagement counts.
#[derive(Debug, Clone)]
pub struct Post {
    pub id: String,
    pub text: String,
    pub created_at: String,
    pub likes: u64,
    pub retweets: u64,
    pub impressions: u64,
}


/// What a post is ranked by: its likes and reposts together.
pub open spec fn engagement(p: Post) -> int {
    p.likes + p.retweets
}

/// `a` (at position `i` of the input) ranks before `b` (at position `j`):
/// it has more engagement, or as much and stood earlier.
pub open spec fn ranks_before(a: Post, i: int, b: Post, j: int) -> bool {
    engagement(a) > engagement(b) || (engagement(a) == engagement(b) && i < j)
}

/// `order` lists every position of `posts` once, by descending engagement,
/// posts of equal engagement keeping their order.
pub open spec fn is_ranking(posts: Seq<Post>, order: Seq<int>) -> bool {
    &&& order.len() == posts.len()
    &&& forall|i: int| 0 <= i < order.len() ==> 0 <= #[trigger] order[i] < posts.len()
    &&& forall|i: int, j: int|
        #![trigger order[i], order[j]]
        0 <= i < j < order.len() ==> ranks_before(posts[order[i]], order[i], posts[order[j]], order[j])
}

/// `out` is the first `limit` posts of `posts` ranked: sorted by descending
/// likes plus reposts, stably, then cut to at most `limit`.
pub open spec fn is_top_ranked(posts: Seq<Post>, limit: int, out: Seq<Post>) -> bool {
    exists|order: Seq<int>|
        #[trigger] is_ranking(posts, order) && out.len() == if limit < posts.len() {
            limit
        } else {
            posts.len() as int
        } && (forall|i: int| 0 <= i < out.len() ==> #[trigger] out[i] == posts[order[i]])
}

/// A ranking lists every position of the posts.
pub proof fn lemma_ranking_covers(posts: Seq<Post>, order: Seq<int>, k: int)
    requires
        is_ranking(posts, order),
        0 <= k < posts.len(),
    ensures
        order.contains(k),
{
    assert(order.no_duplicates()) by {
        assert forall|i: int, j: int|
            0 <= i < order.len() && 0 <= j < order.len() && i != j implies order[i] != order[j] by {
            if i < j {
                assert(ranks_before(posts[order[i]], order[i], posts[order[j]], order[j]));
            } else {
                assert(ranks_before(posts[order[j]], order[j], posts[order[i]], order[i]));
            }
        }
    }
    order.unique_seq_to_set();
    let all = vstd::set_lib::set_int_range(0, posts.len() as int);
    vstd::set_lib::lemma_int_range(0, posts.len() as int);
    assert(order.to_set().subset_of(all));
    vstd::set_lib::lemma_subset_equality(order.to_set(), all);
    assert(all.contains(k));
}

/// Two rankings of the same posts agree up to position `i`.
pub proof fn lemma_rankings_agree(posts: Seq<Post>, a: Seq<int>, b: Seq<int>, i: int)
    requires
        is_ranking(posts, a),
        is_ranking(posts, b),
        0 <= i < posts.len(),
    ensures
        forall|j: int| 0 <= j <= i ==> a[j] == b[j],
    decreases i,
{
    if i > 0 {
        lemma_rankings_agree(posts, a, b, i - 1);
    }
    if a[i] != b[i] {
        lemma_ranking_covers(posts, a, b[i]);
        lemma_ranking_covers(posts, b, a[i]);
        let p = choose|p: int| 0 <= p < a.len() && a[p] == b[i];
        let q = choose|q: int| 0 <= q < b.len() && b[q] == a[i];
        if p < i {
            assert(b[p] == b[i]);
            assert(ranks_before(posts[b[p]], b[p], posts[b[i]], b[i]));
        }
        if q < i {
            assert(a[q] == a[i]);
            assert(ranks_before(posts[a[q]], a[q], posts[a[i]], a[i]));
        }
        assert(ranks_before(posts[a[i]], a[i], posts[a[p]], a[p]));
        assert(ranks_before(posts[b[i]], b[i], posts[b[q]], b[q]));
    }
}

/// The ranking is a function of the posts: whatever satisfies the contract
/// of `rank_posts` for the same posts and limit is the same list, most
/// engaging first and never longer than the limit.
pub proof fn law_ranking_is_unique(posts: Seq<Post>, limit: int, out_a: Seq<Post>, out_b: Seq<Post>)
    requires
        limit >= 0,
        is_top_ranked(posts, limit, out_a),
        is_top_ranked(posts, limit, out_b),
    ensures
        out_a == out_b,
        out_a.len() <= limit,
        forall|i: int, j: int|
            0 <= i < j < out_a.len() ==> engagement(#[trigger] out_a[i]) >= engagement(#[trigger] out_a[j]),
{
    let a = choose|order: Seq<int>|
        #[trigger] is_ranking(posts, order) && out_a.len() == (if limit < posts.len() {
            limit
        } else {
            posts.len() as int
        }) && (forall|i: int| 0 <= i < out_a.len() ==> #[trigger] out_a[i] == posts[order[i]]);
    let b = choose|order: Seq<int>|
        #[trigger] is_ranking(posts, order) && out_b.len() == (if limit < posts.len() {
            limit
        } else {
            posts.len() as int
        }) && (forall|i: int| 0 <= i < out_b.len() ==> #[trigger] out_b[i] == posts[order[i]]);
    if posts.len() > 0 {
        lemma_rankings_agree(posts, a, b, posts.len() - 1);
    }
    assert(out_a =~= out_b) by {
        assert forall|i: int| 0 <= i < out_a.len() implies out_a[i] == out_b[i] by {
            assert(a[i] == b[i]);
        }
    }
    assert forall|i: int, j: int|
        0 <= i < j < out_a.len() implies engagement(#[trigger] out_a[i]) >= engagement(#[trigger] out_a[j]) by {
        assert(ranks_before(posts[a[i]], a[i], posts[a[j]], a[j]));
    }
}

/// A smaller limit gives a beginning of what a larger one gives: the ranked
/// posts for `small` are the first ones of those for `large` (none for 0).
pub proof fn law_smaller_limit_is_prefix(
    posts: Seq<Post>,
    small: int,
    large: int,
    out_small: Seq<Post>,
    out_large: Seq<Post>,
)
    requires
        0 <= small <= large,
        is_top_ranked(posts, small, out_small),
        is_top_ranked(posts, large, out_large),
    ensures
        out_small.len() == if small < out_large.len() { small } else { out_large.len() as int },
        out_small == out_large.take(out_small.len() as int),
{
    let a = choose|order: Seq<int>|
        #[trigger] is_ranking(posts, order) && out_small.len() == (if small < posts.len() {
            small
        } else {
            posts.len() as int
        }) && (forall|i: int| 0 <= i < out_small.len() ==> #[trigger] out_small[i] == posts[order[i]]);
    let b = choose|order: Seq<int>|
        #[trigger] is_ranking(posts, order) && out_large.len() == (if large < posts.len() {
            large
        } else {
            posts.len() as int
        }) && (forall|i: int| 0 <= i < out_large.len() ==> #[trigger] out_large[i] == posts[order[i]]);
    if posts.len() > 0 {
        lemma_rankings_agree(posts, a, b, posts.len() - 1);
    }
    assert forall|i: int| 0 <= i < out_small.len() implies out_small[i] == out_large.take(out_small.len() as int)[i] by {
        assert(a[i] == b[i]);
    }
    assert(out_small =~= out_large.take(out_small.len() as int));
}

/// `out[i]` is the post at position `pos[i]` of `posts`, each position at most
/// once, and the posts stand by descending likes plus reposts, equal sums in
/// the order of their positions.
pub open spec fn ranked_at(posts: Seq<Post>, out: Seq<Post>, pos: Seq<int>) -> bool {
    &&& pos.len() == out.len()
    &&& forall|i: int| 0 <= i < out.len() ==> 0 <= #[trigger] pos[i] < posts.len() && out[i] == posts[pos[i]]
    &&& forall|i: int, j: int|
        #![trigger pos[i], pos[j]]
        0 <= i < j < out.len() ==> pos[i] != pos[j] && (out[i].likes + out[i].retweets > out[j].likes
            + out[j].retweets || (out[i].likes + out[i].retweets == out[j].likes + out[j].retweets
            && pos[i] < pos[j]))
}

/// What the ranking is, in the posts' own counts: the result holds
/// `min(limit, posts.len())` distinct posts of the input, with more likes plus
/// reposts first and, for equal sums, the post that came first first.
pub proof fn law_ranking_orders_by_likes_plus_reposts(posts: Seq<Post>, limit: int, out: Seq<Post>)
    requires
        0 <= limit,
        is_top_ranked(posts, limit, out),
    ensures
        out.len() == if limit < posts.len() { limit } else { posts.len() as int },
        exists|pos: Seq<int>| #[trigger] ranked_at(posts, out, pos),
        forall|i: int, j: int|
            0 <= i < j < out.len() ==> (#[trigger] out[i]).likes + out[i].retweets >= (#[trigger] out[j]).likes
                + out[j].retweets,
{
    let order = choose|order: Seq<int>|
        #[trigger] is_ranking(posts, order) && out.len() == (if limit < posts.len() {
            limit
        } else {
            posts.len() as int
        }) && (forall|i: int| 0 <= i < out.len() ==> #[trigger] out[i] == posts[order[i]]);
    let pos = order.take(out.len() as int);
    assert forall|i: int, j: int|
        #![trigger pos[i], pos[j]]
        0 <= i < j < out.len() implies pos[i] != pos[j] && (out[i].likes + out[i].retweets > out[j].likes
            + out[j].retweets || (out[i].likes + out[i].retweets == out[j].likes + out[j].retweets && pos[i]
            < pos[j])) by {
        assert(pos[i] == order[i] && pos[j] == order[j]);
        assert(ranks_before(posts[order[i]], order[i], posts[order[j]], order[j]));
    }
    assert forall|i: int, j: int|
        0 <= i < j < out.len() implies (#[trigger] out[i]).likes + out[i].retweets >= (#[trigger] out[j]).likes
        + out[j].retweets by {
        assert(ranks_before(posts[order[i]], order[i], posts[order[j]], order[j]));
    }
    assert forall|i: int| 0 <= i < out.len() implies 0 <= #[trigger] pos[i] < posts.len() && out[i] == posts[pos[i]] by {
        assert(pos[i] == order[i]);
    }
    assert(ranked_at(posts, out, pos));
}

/// Whether every post's likes plus reposts fit in a `u64`, as ranking needs.
pub fn engagement_fits(posts: &[Post]) -> (r: bool)
    ensures
        r == forall|i: int| 0 <= i < posts@.len() ==> #[trigger] engagement(posts@[i]) <= u64::MAX,
{
    let n = posts.len();
    for i in 0..n
        invariant
            n == posts@.len(),
            forall|k: int| 0 <= k < i ==> #[trigger] engagement(posts@[k]) <= u64::MAX,
    {
        if posts[i].likes.checked_add(posts[i].retweets).is_none() {
            assert(engagement(posts@[i as int]) > u64::MAX);
            return false;
        }
    }
    true
}

/// The `limit` most engaging posts, most engaging first; posts with as many
/// likes plus reposts keep the order in which they came.
pub fn rank_posts(posts: Vec<Post>, limit: usize) -> (r: Vec<Post>)
    requires
        forall|i: int| 0 <= i < posts@.len() ==> #[trigger] engagement(posts@[i]) <= u64::MAX,
    ensures
        is_top_ranked(posts@, limit as int, r@),
{
    let ghost orig = posts@;
    let n = posts.len();
    let mut rest = posts;
    let mut out: Vec<Post> = Vec::new();
    let ghost mut order: Seq<int> = Seq::empty();
    while rest.len() > 0
        invariant
            n == orig.len(),
            rest@ == orig.take(rest@.len() as int),
            out@.len() + rest@.len() == n,
            order.len() == out@.len(),
            forall|i: int| 0 <= i < orig.len() ==> #[trigger] engagement(orig[i]) <= u64::MAX,
            forall|i: int| 0 <= i < order.len() ==> rest@.len() <= #[trigger] order[i] < n,
            forall|i: int| 0 <= i < order.len() ==> #[trigger] out@[i] == orig[order[i]],
            forall|i: int, j: int|
                #![trigger order[i], order[j]]
                0 <= i < j < order.len() ==> ranks_before(orig[order[i]], order[i], orig[order[j]], order[j]),
        decreases rest@.len(),
    {
        let k = rest.len() - 1;
        let p = rest.pop().unwrap();
        assert(p == orig[k as int]);
        assert(engagement(orig[k as int]) <= u64::MAX);
        let score = p.likes + p.retweets;
        let mut j: usize = 0;
        while j < out.len() && out[j].likes + out[j].retweets > score
            invariant
                0 <= j <= out@.len(),
                order.len() == out@.len(),
                score == engagement(p),
                forall|i: int| 0 <= i < order.len() ==> #[trigger] out@[i] == orig[order[i]],
                forall|i: int| 0 <= i < orig.len() ==> #[trigger] engagement(orig[i]) <= u64::MAX,
                forall|i: int| 0 <= i < order.len() ==> 0 <= #[trigger] order[i] < n,
                n == orig.len(),
                forall|i: int| 0 <= i < j ==> engagement(#[trigger] out@[i]) > engagement(p),
            decreases out@.len() - j,
        {
            assert(engagement(orig[order[j as int]]) <= u64::MAX);
            j = j + 1;
        }
        if j < out.len() {
            assert(engagement(orig[order[j as int]]) <= u64::MAX);
        }
        let ghost old_out = out@;
        let ghost old_order = order;
        out.insert(j, p);
        proof {
            order = old_order.insert(j as int, k as int);
            assert forall|i: int| 0 <= i < order.len() implies #[trigger] out@[i] == orig[order[i]] by {
                if i < j {
                    assert(out@[i] == old_out[i]);
                } else if i > j {
                    assert(out@[i] == old_out[i - 1]);
                    assert(order[i] == old_order[i - 1]);
                }
            }
            assert forall|a: int, b: int|
                #![trigger order[a], order[b]]
                0 <= a < b < order.len() implies ranks_before(orig[order[a]], order[a], orig[order[b]], order[b]) by {
                if b < j {
                    assert(order[a] == old_order[a] && order[b] == old_order[b]);
                } else if a > j {
                    assert(order[a] == old_order[a - 1] && order[b] == old_order[b - 1]);
                } else if a == j {
                    // every later post has at most the engagement of `p`, and came later
                    assert(order[b] == old_order[b - 1]);
                    assert(old_order[b - 1] > k);
                    if j < old_out.len() {
                        assert(engagement(old_out[j as int]) <= engagement(p));
                        if b - 1 > j {
                            assert(ranks_before(orig[old_order[j as int]], old_order[j as int], orig[old_order[b - 1]], old_order[b - 1]));
                        }
                    }
                } else if b == j {
                    assert(order[a] == old_order[a]);
                    assert(engagement(old_out[a]) > engagement(p));
                } else {
                    assert(order[a] == old_order[a] && order[b] == old_order[b - 1]);
                }
            }
        }
    }
    proof {
        assert(is_ranking(orig, order));
    }
    out.truncate(limit);
    out
}

/// The recent-search query for a topic: posts that are not reposts, in English.
pub open spec fn search_query_text(query: Seq<char>) -> Seq<char> {
    query + " -is:retweet lang:en"@
}

/// The recent-search query for `query`.
pub fn search_query(query: &str) -> (r: String)
    ensures
        r@ == search_query_text(query@),
{
    let mut out = String::from_str(query);
    out.append(" -is:retweet lang:en");
    out
}

/// The address of the trends of the place `woeid`.
pub open spec fn trends_url_text(woeid: u32) -> Seq<char> {
    "https://api.twitter.com/2/trends/by/woeid/"@ + decimal(woeid as nat)
}

/// The address of the trends of the place `woeid`.
pub fn trends_url(woeid: u32) -> (r: String)
    ensures
        r@ == trends_url_text(woeid),
{
    let mut out = String::from_str("https://api.twitter.com/2/trends/by/woeid/");
    push_decimal(&mut out, woeid as u64);
    out
}

} // verus!

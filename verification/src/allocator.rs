//! Holds the context blocks of the current top trends, rebuilt from live X data.

use vstd::prelude::*;
use vstd::string::*;
use crate::prefix::{build, conv_id_of, prefix_text, Trend, TrendView};
use crate::text::{contains_str, contains_text, lowercase_of, to_lowercase};
use crate::x::Post;

verus! {

/// The keys of `s`, in order.
pub open spec fn keys_of(s: Seq<Trend>) -> Seq<Seq<char>> {
    s.map_values(|t: Trend| t.key@)
}

/// The trends of `s` by key; a later trend of the same key replaces an earlier one.
pub open spec fn table(s: Seq<Trend>) -> Map<Seq<char>, TrendView>
    decreases s.len(),
{
    if s.len() == 0 {
        Map::empty()
    } else {
        table(s.drop_last()).insert(s.last().key@, s.last()@)
    }
}

/// With keys that occur once, the table holds exactly the keys of `s`, each
/// with its trend.
pub proof fn lemma_table(s: Seq<Trend>)
    requires
        keys_of(s).no_duplicates(),
    ensures
        table(s).dom() == keys_of(s).to_set(),
        forall|i: int| 0 <= i < s.len() ==> table(s)[#[trigger] s[i].key@] == s[i]@,
        table(s).len() == s.len(),
    decreases s.len(),
{
    if s.len() > 0 {
        let r = s.drop_last();
        assert(keys_of(r) =~= keys_of(s).drop_last());
        lemma_table(r);
        assert(table(s).dom() =~= keys_of(s).to_set()) by {
            assert forall|k: Seq<char>| table(s).dom().contains(k) implies keys_of(s).to_set().contains(k) by {
                if k != s.last().key@ {
                    let i = choose|i: int| 0 <= i < keys_of(r).len() && keys_of(r)[i] == k;
                    assert(keys_of(s)[i] == k);
                } else {
                    assert(keys_of(s)[s.len() - 1] == k);
                }
            }
            assert forall|k: Seq<char>| keys_of(s).to_set().contains(k) implies table(s).dom().contains(k) by {
                let i = choose|i: int| 0 <= i < keys_of(s).len() && keys_of(s)[i] == k;
                if i < s.len() - 1 {
                    assert(keys_of(r)[i] == k);
                }
            }
        }
        assert forall|i: int| 0 <= i < s.len() implies table(s)[#[trigger] s[i].key@] == s[i]@ by {
            if i < s.len() - 1 {
                assert(keys_of(s)[i] != keys_of(s)[s.len() - 1]);
                assert(r[i] == s[i]);
            }
        }
        keys_of(s).unique_seq_to_set();
    } else {
        assert(keys_of(s).to_set() =~= Set::empty());
    }
}

/// Replacing a trend by another of the same key updates that key alone.
pub proof fn lemma_table_update(s: Seq<Trend>, j: int, t: Trend)
    requires
        keys_of(s).no_duplicates(),
        0 <= j < s.len(),
        s[j].key@ == t.key@,
    ensures
        keys_of(s.update(j, t)) == keys_of(s),
        table(s.update(j, t)) == table(s).insert(t.key@, t@),
{
    let u = s.update(j, t);
    assert(keys_of(u) =~= keys_of(s));
    lemma_table(s);
    lemma_table(u);
    assert(keys_of(s)[j] == t.key@);
    assert(table(u).dom() =~= table(s).insert(t.key@, t@).dom());
    assert forall|k: Seq<char>| table(u).dom().contains(k) implies table(u)[k] == table(s).insert(
        t.key@,
        t@,
    )[k] by {
        let i = choose|i: int| 0 <= i < keys_of(u).len() && keys_of(u)[i] == k;
        assert(table(u)[u[i].key@] == u[i]@);
        if i != j {
            assert(keys_of(s)[i] != keys_of(s)[j]);
            assert(table(s)[s[i].key@] == s[i]@);
        }
    }
    assert(table(u) =~= table(s).insert(t.key@, t@));
}

/// The trend that `build` makes from `name` and `posts`, as plain text.
pub open spec fn built_view(name: Seq<char>, posts: Seq<Post>) -> TrendView {
    TrendView { key: name, prefix: prefix_text(name, posts), conv_id: conv_id_of(name) }
}

/// A trend's block is byte-stable: built twice from the same topic and the
/// same posts, it is the same text under the same conversation id.
pub proof fn law_build_is_byte_stable(key: Seq<char>, posts_a: Seq<Post>, posts_b: Seq<Post>)
    requires
        posts_a == posts_b,
    ensures
        built_view(key, posts_a) == built_view(key, posts_b),
{
}

/// The conversation id is keyed by the topic alone: whatever posts a block is
/// built from, requests about one topic go under one id.
pub proof fn law_conv_id_is_the_topics(key: Seq<char>, posts_a: Seq<Post>, posts_b: Seq<Post>)
    ensures
        built_view(key, posts_a).conv_id == built_view(key, posts_b).conv_id,
        built_view(key, posts_a).key == key,
{
}

/// The first `per` of `posts` (all of them when there are fewer).
pub open spec fn kept_posts(posts: Seq<Post>, per: nat) -> Seq<Post> {
    if posts.len() <= per {
        posts
    } else {
        posts.take(per as int)
    }
}

/// The trends built from `fetched`, each a topic's name with its posts, in
/// order, with at most `per` posts to a block: a topic left without posts is
/// left out, and a later topic of the same name replaces an earlier one.
pub open spec fn built_table(fetched: Seq<(String, Vec<Post>)>, per: nat) -> Map<Seq<char>, TrendView>
    decreases fetched.len(),
{
    if fetched.len() == 0 {
        Map::empty()
    } else {
        let m = built_table(fetched.drop_last(), per);
        let (name, posts) = fetched.last();
        if kept_posts(posts@, per).len() == 0 {
            m
        } else {
            m.insert(name@, built_view(name@, kept_posts(posts@, per)))
        }
    }
}

/// After a refresh, a topic is held with the block built from the last posts
/// fetched for it that were not empty: a later entry of the same name wins.
pub proof fn law_refresh_latest_wins(fetched: Seq<(String, Vec<Post>)>, per: nat, k: Seq<char>, j: int)
    requires
        0 <= j < fetched.len(),
        fetched[j].0@ == k,
        kept_posts(fetched[j].1@, per).len() > 0,
        forall|m: int|
            j < m < fetched.len() ==> #[trigger] fetched[m].0@ != k || kept_posts(fetched[m].1@, per).len() == 0,
    ensures
        built_table(fetched, per).dom().contains(k),
        built_table(fetched, per)[k] == built_view(k, kept_posts(fetched[j].1@, per)),
    decreases fetched.len(),
{
    let r = fetched.drop_last();
    if j < fetched.len() - 1 {
        assert forall|m: int| j < m < r.len() implies #[trigger] r[m].0@ != k || kept_posts(r[m].1@, per).len() == 0 by {
            assert(r[m] == fetched[m]);
        }
        law_refresh_latest_wins(r, per, k, j);
        let last = fetched[fetched.len() - 1];
        assert(last.0@ != k || kept_posts(last.1@, per).len() == 0);
    }
}

/// After a refresh, a topic for which no posts came (or no post may go into
/// a block) is not held.
pub proof fn law_refresh_skips_topics_without_posts(fetched: Seq<(String, Vec<Post>)>, per: nat, k: Seq<char>)
    requires
        per == 0 || forall|m: int| 0 <= m < fetched.len() && #[trigger] fetched[m].0@ == k ==> fetched[m].1@.len() == 0,
    ensures
        !built_table(fetched, per).dom().contains(k),
    decreases fetched.len(),
{
    if fetched.len() > 0 {
        let r = fetched.drop_last();
        assert(per == 0 || forall|m: int| 0 <= m < r.len() && #[trigger] r[m].0@ == k ==> r[m].1@.len() == 0) by {
            assert forall|m: int| 0 <= m < r.len() && #[trigger] r[m].0@ == k && per != 0 implies r[m].1@.len() == 0 by {
                assert(r[m] == fetched[m]);
            }
        }
        law_refresh_skips_topics_without_posts(r, per, k);
        let last = fetched[fetched.len() - 1];
        assert(per != 0 && last.0@ == k ==> last.1@.len() == 0);
    }
}

/// A refresh holds no more trends than entries it was given, so never more
/// than `trend_count`.
pub proof fn law_refresh_holds_at_most(fetched: Seq<(String, Vec<Post>)>, per: nat)
    ensures
        built_table(fetched, per).dom().finite(),
        built_table(fetched, per).len() <= fetched.len(),
    decreases fetched.len(),
{
    if fetched.len() > 0 {
        law_refresh_holds_at_most(fetched.drop_last(), per);
        let m = built_table(fetched.drop_last(), per);
        let last = fetched.last();
        if kept_posts(last.1@, per).len() > 0 {
            assert(m.insert(last.0@, built_view(last.0@, kept_posts(last.1@, per))).dom() =~= m.dom().insert(last.0@));
        }
    } else {
        assert(built_table(fetched, per).dom() =~= Set::<Seq<char>>::empty());
    }
}

/// Every block that a refresh builds lists between one and `per` posts.
pub proof fn law_refresh_blocks_list_at_most(fetched: Seq<(String, Vec<Post>)>, per: nat, k: Seq<char>)
    requires
        built_table(fetched, per).dom().contains(k),
    ensures
        exists|posts: Seq<Post>|
            0 < posts.len() <= per && #[trigger] built_view(k, posts) == built_table(fetched, per)[k],
    decreases fetched.len(),
{
    let r = fetched.drop_last();
    let last = fetched.last();
    let kept = kept_posts(last.1@, per);
    if kept.len() > 0 && last.0@ == k {
        assert(built_view(k, kept) == built_table(fetched, per)[k]);
    } else {
        law_refresh_blocks_list_at_most(r, per, k);
    }
}

/// Where the trend of key `key` stands in `v`, if it does.
fn find_key(v: &Vec<Trend>, key: &String) -> (r: Option<usize>)
    ensures
        r matches Some(i) ==> i < v@.len() && v@[i as int].key@ == key@,
        r is None ==> forall|i: int| 0 <= i < v@.len() ==> v@[i].key@ != key@,
{
    let n = v.len();
    for i in 0..n
        invariant
            n == v@.len(),
            forall|k: int| 0 <= k < i ==> v@[k].key@ != key@,
    {
        if v[i].key == *key {
            return Some(i);
        }
    }
    None
}

/// The context blocks of up to `trend_count` trends, by trend name.
pub struct Allocator {
    bearer: String,
    trend_count: usize,
    posts_per_trend: usize,
    trends: Vec<Trend>,
}

impl View for Allocator {
    type V = Map<Seq<char>, TrendView>;

    closed spec fn view(&self) -> Map<Seq<char>, TrendView> {
        table(self.trends@)
    }
}

impl Allocator {
    #[verifier::type_invariant]
    closed spec fn keys_unique(self) -> bool {
        keys_of(self.trends@).no_duplicates()
    }

    /// The X bearer token this allocator fetches with.
    pub closed spec fn spec_bearer(&self) -> Seq<char> {
        self.bearer@
    }

    /// How many trends a refresh takes.
    pub closed spec fn spec_trend_count(&self) -> usize {
        self.trend_count
    }

    /// How many posts go into each context block.
    pub closed spec fn spec_posts_per_trend(&self) -> usize {
        self.posts_per_trend
    }

    /// An allocator that holds no trend yet.
    pub fn new(bearer: String, trend_count: usize, posts_per_trend: usize) -> (r: Allocator)
        ensures
            r@ == Map::<Seq<char>, TrendView>::empty(),
            r.spec_bearer() == bearer@,
            r.spec_trend_count() == trend_count,
            r.spec_posts_per_trend() == posts_per_trend,
    {
        Allocator { bearer, trend_count, posts_per_trend, trends: Vec::new() }
    }

    /// The X bearer token.
    pub fn bearer(&self) -> (r: &str)
        ensures
            r@ == self.spec_bearer(),
    {
        self.bearer.as_str()
    }

    /// How many trends a refresh takes.
    pub fn trend_count(&self) -> (r: usize)
        ensures
            r == self.spec_trend_count(),
    {
        self.trend_count
    }

    /// How many posts go into each context block.
    pub fn posts_per_trend(&self) -> (r: usize)
        ensures
            r == self.spec_posts_per_trend(),
    {
        self.posts_per_trend
    }

    /// The trend whose name is exactly `key`.
    pub fn get(&self, key: &str) -> (r: Option<Trend>)
        ensures
            r is Some <==> self@.dom().contains(key@),
            r matches Some(t) ==> t@ == self@[key@],
    {
        proof {
            use_type_invariant(self);
            lemma_table(self.trends@);
        }
        let k = String::from_str(key);
        match find_key(&self.trends, &k) {
            Some(i) => {
                proof {
                    assert(keys_of(self.trends@)[i as int] == key@);
                }
                Some(self.trends[i].copied())
            },
            None => {
                proof {
                    if keys_of(self.trends@).to_set().contains(key@) {
                        let i = choose|i: int|
                            0 <= i < keys_of(self.trends@).len() && keys_of(self.trends@)[i] == key@;
                        assert(self.trends@[i].key@ == key@);
                    }
                }
                None
            },
        }
    }

    /// The names of all held trends, each once, in no particular order.
    pub fn keys(&self) -> (r: Vec<String>)
        ensures
            r@.len() == self@.len(),
            forall|i: int| 0 <= i < r@.len() ==> self@.dom().contains(#[trigger] r@[i]@),
            forall|i: int, j: int| 0 <= i < j < r@.len() ==> r@[i]@ != r@[j]@,
            forall|k: Seq<char>| self@.dom().contains(k) ==> exists|i: int| 0 <= i < r@.len() && #[trigger] r@[i]@ == k,
    {
        proof {
            use_type_invariant(self);
            lemma_table(self.trends@);
        }
        let mut r: Vec<String> = Vec::new();
        let n = self.trends.len();
        for i in 0..n
            invariant
                n == self.trends@.len(),
                keys_of(self.trends@).no_duplicates(),
                r@.len() == i,
                forall|k: int| 0 <= k < i ==> (#[trigger] r@[k])@ == self.trends@[k].key@,
        {
            r.push(self.trends[i].key.clone());
        }
        proof {
            assert forall|i: int| 0 <= i < r@.len() implies self@.dom().contains(#[trigger] r@[i]@) by {
                assert(keys_of(self.trends@)[i] == r@[i]@);
            }
            assert forall|i: int, j: int| 0 <= i < j < r@.len() implies r@[i]@ != r@[j]@ by {
                assert(keys_of(self.trends@)[i] != keys_of(self.trends@)[j]);
            }
            assert forall|k: Seq<char>| self@.dom().contains(k) implies exists|i: int|
                0 <= i < r@.len() && #[trigger] r@[i]@ == k by {
                let i = choose|i: int| 0 <= i < keys_of(self.trends@).len() && keys_of(self.trends@)[i] == k;
                assert(r@[i]@ == k);
            }
        }
        r
    }

    /// How many trends are held.
    pub fn active_count(&self) -> (r: usize)
        ensures
            r == self@.len(),
    {
        proof {
            use_type_invariant(self);
            lemma_table(self.trends@);
        }
        self.trends.len()
    }

    /// A held trend whose name, lowercased, stands in `user_text` lowercased;
    /// `None` when no held trend's name does. Which of several matching
    /// trends comes back is not promised.
    pub fn lookup(&self, user_text: &str) -> (r: Option<Trend>)
        ensures
            r is None <==> forall|k: Seq<char>|
                #[trigger] self@.dom().contains(k) ==> !contains_text(lowercase_of(user_text@), lowercase_of(k)),
            r matches Some(t) ==> {
                &&& self@.dom().contains(t.key@)
                &&& self@[t.key@] == t@
                &&& contains_text(lowercase_of(user_text@), lowercase_of(t.key@))
            },
    {
        proof {
            use_type_invariant(self);
            lemma_table(self.trends@);
        }
        let haystack = to_lowercase(user_text);
        let n = self.trends.len();
        for i in 0..n
            invariant
                n == self.trends@.len(),
                haystack@ == lowercase_of(user_text@),
                forall|k: int|
                    0 <= k < i ==> !contains_text(haystack@, lowercase_of(#[trigger] self.trends@[k].key@)),
        {
            let needle = to_lowercase(self.trends[i].key.as_str());
            if contains_str(haystack.as_str(), needle.as_str()) {
                let r = self.trends[i].copied();
                proof {
                    use_type_invariant(self);
                    lemma_table(self.trends@);
                    assert(keys_of(self.trends@)[i as int] == self.trends@[i as int].key@);
                    assert(table(self.trends@)[self.trends@[i as int].key@] == self.trends@[i as int]@);
                    assert(self@.dom().contains(r.key@));
                    assert(contains_text(lowercase_of(user_text@), lowercase_of(r.key@)));
                }
                return Some(r);
            }
        }
        proof {
            assert forall|k: Seq<char>| #[trigger] self@.dom().contains(k) implies !contains_text(
                lowercase_of(user_text@),
                lowercase_of(k),
            ) by {
                let i = choose|i: int|
                    0 <= i < keys_of(self.trends@).len() && keys_of(self.trends@)[i] == k;
                assert(self.trends@[i].key@ == k);
            }
        }
        None
    }

    /// The trends that a refresh fetches posts for: the first `trend_count`
    /// of `top`.
    pub fn refresh_targets(&self, top: Vec<crate::x::Trend>) -> (r: Vec<crate::x::Trend>)
        ensures
            r@ == top@.take(if top@.len() < self.spec_trend_count() {
                top@.len() as int
            } else {
                self.spec_trend_count() as int
            }),
    {
        let mut r = top;
        r.truncate(self.trend_count);
        r
    }

    /// Replaces the held trends by those built from `fetched`: each entry is
    /// a trend's name with the posts fetched for it, in the order of the top
    /// trends. Only the first `trend_count` entries count; an entry without
    /// posts is skipped, and a later entry of the same name wins.
    pub fn refresh(&mut self, fetched: Vec<(String, Vec<Post>)>)
        ensures
            final(self)@ == built_table(
                fetched@.take(if fetched@.len() < old(self).spec_trend_count() {
                    fetched@.len() as int
                } else {
                    old(self).spec_trend_count() as int
                }),
                old(self).spec_posts_per_trend() as nat,
            ),
            final(self).spec_bearer() == old(self).spec_bearer(),
            final(self).spec_trend_count() == old(self).spec_trend_count(),
            final(self).spec_posts_per_trend() == old(self).spec_posts_per_trend(),
    {
        let m = if fetched.len() < self.trend_count {
            fetched.len()
        } else {
            self.trend_count
        };
        let per = self.posts_per_trend;
        let ghost all = fetched@.take(m as int);
        let mut rest = fetched;
        rest.truncate(m);
        let mut built: Vec<Trend> = Vec::new();
        let mut i: usize = 0;
        while i < m
            invariant
                m == all.len(),
                i <= m,
                rest@ == all.skip(i as int),
                per == self.posts_per_trend,
                keys_of(built@).no_duplicates(),
                table(built@) == built_table(all.take(i as int), per as nat),
            decreases m - i,
        {
            assert(all.take(i + 1).drop_last() =~= all.take(i as int));
            assert(all.take(i + 1).last() == all[i as int]);
            assert(rest@[0] == all[i as int]);
            let (name, mut posts) = rest.remove(0);
            assert(rest@ =~= all.skip(i + 1));
            let ghost given = posts@;
            posts.truncate(per);
            assert(posts@ =~= kept_posts(given, per as nat));
            if posts.len() > 0 {
                let t = build(name.as_str(), posts.as_slice());
                match find_key(&built, &t.key) {
                    Some(j) => {
                        proof {
                            lemma_table_update(built@, j as int, t);
                        }
                        built.set(j, t);
                    },
                    None => {
                        proof {
                            assert(keys_of(built@.push(t)) =~= keys_of(built@).push(t.key@));
                            assert forall|a: int, b: int|
                                0 <= a < b < built@.len() + 1 implies keys_of(built@.push(t))[a]
                                != keys_of(built@.push(t))[b] by {
                                if b == built@.len() {
                                    assert(built@[a].key@ != t.key@);
                                } else {
                                    assert(keys_of(built@)[a] != keys_of(built@)[b]);
                                }
                            }
                            assert(built@.push(t).drop_last() =~= built@);
                        }
                        built.push(t);
                    },
                }
            }
            i = i + 1;
        }
        assert(all.take(m as int) =~= all);
        self.trends = built;
    }
}

} // verus!

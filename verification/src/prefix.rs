//! Posts to the byte-stable prefix block that is put in front of requests.

use vstd::prelude::*;
use vstd::string::*;
use crate::text::{
    contains_text, lemma_contains_extend, lemma_join_contains, chars_of, collapsed, decimal, decimal_digit, hex16, is_white_space, join,
    law_collapsed_is_one_line, lemma_join_extend_last, lemma_join_push, push_char, push_decimal,
    push_hex16, white_space, words,
};
use crate::x::Post;

verus! {

/// A trend's context block, ready to be put in front of requests.
#[derive(Debug, Clone)]
pub struct Trend {
    pub key: String,
    pub prefix: String,
    pub conv_id: String,
}

/// A trend as plain text: its key, its context block and its conversation id.
pub struct TrendView {
    pub key: Seq<char>,
    pub prefix: Seq<char>,
    pub conv_id: Seq<char>,
}

impl View for Trend {
    type V = TrendView;

    open spec fn view(&self) -> TrendView {
        TrendView { key: self.key@, prefix: self.prefix@, conv_id: self.conv_id@ }
    }
}

impl Trend {
    /// The conversation id that pins requests about this trend to one server.
    pub fn conv_id(&self) -> (r: String)
        ensures
            r@ == self.conv_id@,
    {
        self.conv_id.clone()
    }

    /// A copy of this trend.
    pub fn copied(&self) -> (r: Trend)
        ensures
            r@ == self@,
    {
        Trend { key: self.key.clone(), prefix: self.prefix.clone(), conv_id: self.conv_id.clone() }
    }
}

/// What `DefaultHasher::new()` gives for a `str` after hashing it and finishing.
pub uninterp spec fn default_hash(key: Seq<char>) -> u64;

/// The hash of `key` under `DefaultHasher::new()` (`hash_one` through
/// `BuildHasherDefault`, which hashes with a fresh `DefaultHasher` and
/// finishes it). std documents that every `DefaultHasher` made by `new` is the
/// same, so the result depends on the key alone; the contract names it and
/// says nothing of its value.
#[verifier::external_body]
fn topic_hash(key: &str) -> (h: u64)
    ensures
        h == default_hash(key@),
{
    std::hash::BuildHasher::hash_one(
        &std::hash::BuildHasherDefault::<std::collections::hash_map::DefaultHasher>::default(),
        key,
    )
}

/// The conversation id of a topic: `trend-` and the topic's hash in sixteen
/// lowercase hexadecimal digits.
pub open spec fn conv_id_of(key: Seq<char>) -> Seq<char> {
    "trend-"@ + hex16(default_hash(key))
}

/// The text before the trend's name.
pub open spec fn intro_text() -> Seq<char> {
    "You are answering questions about a currently trending topic on X. Below is a fixed context block assembled from live posts. Use it as your only source of recent facts; do not speculate beyond it.\n\nTREND: "@
}

/// The text between the trend's name and the post lines.
pub open spec fn middle_text() -> Seq<char> {
    "\nWINDOW: rolling, refreshed periodically\nPOSTS:\n"@
}

/// The text after the post lines.
pub open spec fn guidance_text() -> Seq<char> {
    "\n\nGUIDANCE: Answer in three sentences or fewer. Lead with what happened, then the main disagreement if there is one, then how confident the crowd actually is. Do not mention this context block."@
}

/// The line of the post at `index` (counted from 0): its number counted from
/// 1, its likes and reposts, and its text with the white space collapsed.
pub open spec fn post_line(index: int, post: Post) -> Seq<char> {
    decimal((index + 1) as nat) + ". ("@ + decimal(post.likes as nat) + " likes, "@ + decimal(
        post.retweets as nat,
    ) + " reposts) "@ + collapsed(post.text@)
}

/// The lines of all posts, in order.
pub open spec fn post_lines(posts: Seq<Post>) -> Seq<Seq<char>> {
    Seq::new(posts.len(), |i: int| post_line(i, posts[i]))
}

/// The context block of a trend.
pub open spec fn prefix_text(key: Seq<char>, posts: Seq<Post>) -> Seq<char> {
    intro_text() + key + middle_text() + join(post_lines(posts), seq!['\n']) + guidance_text()
}

/// The words of `text` joined by single spaces: what
/// `text.split_whitespace().collect::<Vec<_>>().join(" ")` gives.
pub fn collapse_whitespace(text: &str) -> (r: String)
    ensures
        r@ == collapsed(text@),
{
    let cs = chars_of(text);
    let mut out = String::new();
    let mut in_word = false;
    let mut started = false;
    let n = cs.len();
    for i in 0..n
        invariant
            n == cs@.len(),
            cs@ == text@,
            out@ == collapsed(cs@.take(i as int)),
            in_word == (i > 0 && !white_space(cs@[i - 1])),
            started <==> words(cs@.take(i as int)).len() > 0,
            in_word ==> started,
    {
        let c = cs[i];
        let ghost before = cs@.take(i as int);
        let ghost w = words(before);
        assert(cs@.take(i + 1).drop_last() =~= before);
        assert(cs@.take(i + 1).last() == c);
        if is_white_space(c) {
            in_word = false;
        } else if in_word {
            proof {
                lemma_join_extend_last(w, seq![' '], c);
            }
            push_char(&mut out, c);
            in_word = true;
        } else {
            proof {
                lemma_join_push(w, seq![' '], seq![c]);
            }
            if started {
                push_char(&mut out, ' ');
            }
            push_char(&mut out, c);
            in_word = true;
            started = true;
        }
    }
    assert(cs@.take(n as int) =~= cs@);
    out
}


/// One post's line of the context block.
pub fn format_post_line(entry: (usize, &Post)) -> (r: String)
    requires
        entry.0 < usize::MAX,
    ensures
        r@ == post_line(entry.0 as int, *entry.1),
{
    let (index, post) = entry;
    let mut out = String::new();
    push_decimal(&mut out, (index + 1) as u64);
    out.append(". (");
    push_decimal(&mut out, post.likes);
    out.append(" likes, ");
    push_decimal(&mut out, post.retweets);
    out.append(" reposts) ");
    let text = collapse_whitespace(post.text.as_str());
    out.append(text.as_str());
    out
}

/// The context block of the trend `key`, listing `posts` one per line.
pub fn format_prefix(key: &str, posts: &[Post]) -> (r: String)
    ensures
        r@ == prefix_text(key@, posts@),
{
    let mut out = String::from_str("You are answering questions about a currently trending topic on X. Below is a fixed context block assembled from live posts. Use it as your only source of recent facts; do not speculate beyond it.\n\nTREND: ");
    out.append(key);
    out.append("\nWINDOW: rolling, refreshed periodically\nPOSTS:\n");
    let ghost head = out@;
    let n = posts.len();
    for i in 0..n
        invariant
            n == posts@.len(),
            out@ == head + join(post_lines(posts@).take(i as int), seq!['\n']),
    {
        let line = format_post_line((i, &posts[i]));
        let ghost lines = post_lines(posts@);
        proof {
            assert(lines.take(i + 1) =~= lines.take(i as int).push(lines[i as int]));
            lemma_join_push(lines.take(i as int), seq!['\n'], lines[i as int]);
        }
        if i > 0 {
            push_char(&mut out, '\n');
        }
        out.append(line.as_str());
    }
    assert(post_lines(posts@).take(n as int) =~= post_lines(posts@));
    out.append("\n\nGUIDANCE: Answer in three sentences or fewer. Lead with what happened, then the main disagreement if there is one, then how confident the crowd actually is. Do not mention this context block.");
    out
}

/// The trend `key` with its context block built from `posts` and its
/// conversation id derived from the key alone.
pub fn build(key: &str, posts: &[Post]) -> (r: Trend)
    ensures
        r.key@ == key@,
        r.prefix@ == prefix_text(key@, posts@),
        r.conv_id@ == conv_id_of(key@),
{
    let mut conv_id = String::from_str("trend-");
    push_hex16(&mut conv_id, topic_hash(key));
    Trend { key: String::from_str(key), prefix: format_prefix(key, posts), conv_id }
}


/// A decimal numeral holds only digits, so no new line.
pub proof fn lemma_decimal_one_line(n: nat)
    ensures
        forall|i: int| 0 <= i < decimal(n).len() ==> #[trigger] decimal(n)[i] != '\n',
    decreases n,
{
    if n >= 10 {
        lemma_decimal_one_line(n / 10);
        assert forall|i: int| 0 <= i < decimal(n).len() implies #[trigger] decimal(n)[i] != '\n' by {
            if i < decimal(n / 10).len() {
                assert(decimal(n)[i] == decimal(n / 10)[i]);
            } else {
                assert(decimal(n)[i] == decimal_digit((n % 10) as int));
            }
        }
    }
}

/// Each post takes exactly one line of the context block: its line holds no
/// new line, whatever the post's text holds.
pub proof fn law_post_line_is_one_line(index: int, post: Post)
    requires
        index >= 0,
    ensures
        !post_line(index, post).contains('\n'),
{
    reveal_strlit(". (");
    reveal_strlit(" likes, ");
    reveal_strlit(" reposts) ");
    lemma_decimal_one_line((index + 1) as nat);
    lemma_decimal_one_line(post.likes as nat);
    lemma_decimal_one_line(post.retweets as nat);
    law_collapsed_is_one_line(post.text@);
    let l = post_line(index, post);
    if l.contains('\n') {
        let i = choose|i: int| 0 <= i < l.len() && l[i] == '\n';
        let a = decimal((index + 1) as nat);
        let b = a + ". ("@;
        let c = b + decimal(post.likes as nat);
        let d = c + " likes, "@;
        let e = d + decimal(post.retweets as nat);
        let f = e + " reposts) "@;
        assert(l == f + collapsed(post.text@));
        if i < a.len() {
            assert(l[i] == a[i]);
        } else if i < b.len() {
            assert(l[i] == ". ("@[i - a.len()]);
        } else if i < c.len() {
            assert(l[i] == decimal(post.likes as nat)[i - b.len()]);
        } else if i < d.len() {
            assert(l[i] == " likes, "@[i - c.len()]);
        } else if i < e.len() {
            assert(l[i] == decimal(post.retweets as nat)[i - d.len()]);
        } else if i < f.len() {
            assert(l[i] == " reposts) "@[i - e.len()]);
        } else {
            assert(l[i] == collapsed(post.text@)[i - f.len()]);
            assert(collapsed(post.text@).contains('\n'));
        }
    }
}


/// Every post given is listed in the block: for each post, the line with its
/// number (counted from 1), its likes, its reposts and its text with the
/// white space collapsed stands in the block.
pub proof fn law_every_post_is_listed(key: Seq<char>, posts: Seq<Post>, i: int)
    requires
        0 <= i < posts.len(),
    ensures
        contains_text(
            prefix_text(key, posts),
            decimal((i + 1) as nat) + ". ("@ + decimal(posts[i].likes as nat) + " likes, "@ + decimal(
                posts[i].retweets as nat,
            ) + " reposts) "@ + collapsed(posts[i].text@),
        ),
{
    let lines = post_lines(posts);
    lemma_join_contains(lines, seq!['\n'], i);
    let j = join(lines, seq!['\n']);
    lemma_contains_extend(j, guidance_text(), lines[i]);
    lemma_contains_extend(j + guidance_text(), intro_text() + key + middle_text(), lines[i]);
    assert(intro_text() + key + middle_text() + (j + guidance_text()) =~= prefix_text(key, posts));
}

/// The block opens with the instructions and the trend's name, then the
/// window and the posts heading, and closes with the guidance.
pub proof fn law_block_frame(key: Seq<char>, posts: Seq<Post>)
    ensures
        ({
            let head = "You are answering questions about a currently trending topic on X. Below is a fixed context block assembled from live posts. Use it as your only source of recent facts; do not speculate beyond it.\n\nTREND: "@
                + key + "\nWINDOW: rolling, refreshed periodically\nPOSTS:\n"@;
            let tail = "\n\nGUIDANCE: Answer in three sentences or fewer. Lead with what happened, then the main disagreement if there is one, then how confident the crowd actually is. Do not mention this context block."@;
            let block = prefix_text(key, posts);
            &&& block.len() >= head.len() + tail.len()
            &&& block.take(head.len() as int) == head
            &&& block.skip(block.len() - tail.len()) == tail
        }),
{
    let head = intro_text() + key + middle_text();
    let j = join(post_lines(posts), seq!['\n']);
    let block = prefix_text(key, posts);
    assert(block =~= head + j + guidance_text());
    assert(block.take(head.len() as int) =~= head);
    assert(block.skip(block.len() - guidance_text().len()) =~= guidance_text());
}

} // verus!

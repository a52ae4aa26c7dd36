//! Characters and strings: white space, words, decimal and hexadecimal digits.

use vstd::prelude::*;
use vstd::string::*;

verus! {

/// The Unicode White_Space property (PropList.txt): the characters that
/// `char::is_whitespace` accepts.
pub open spec fn white_space(c: char) -> bool {
    let n = c as u32;
    ||| 0x09 <= n <= 0x0d
    ||| n == 0x20
    ||| n == 0x85
    ||| n == 0xa0
    ||| n == 0x1680
    ||| 0x2000 <= n <= 0x200a
    ||| n == 0x2028
    ||| n == 0x2029
    ||| n == 0x202f
    ||| n == 0x205f
    ||| n == 0x3000
}

/// Whether `c` has the Unicode White_Space property (what
/// `char::is_whitespace` decides).
pub fn is_white_space(c: char) -> (b: bool)
    ensures
        b == white_space(c),
{
    let n = c as u32;
    (0x09 <= n && n <= 0x0d) || n == 0x20 || n == 0x85 || n == 0xa0 || n == 0x1680 || (0x2000 <= n
        && n <= 0x200a) || n == 0x2028 || n == 0x2029 || n == 0x202f || n == 0x205f || n == 0x3000
}

/// `String::push`: appends one character.
#[verifier::external_body]
pub(crate) fn push_char(s: &mut String, c: char)
    ensures
        final(s)@ == old(s)@.push(c),
{
    s.push(c)
}

/// The characters of `s`, in order.
pub fn chars_of(s: &str) -> (r: Vec<char>)
    ensures
        r@ == s@,
{
    let mut r: Vec<char> = Vec::new();
    for c in it: s.chars()
        invariant
            r@ == it.seq().take(it.index()),
            it.seq() == s@,
    {
        r.push(c);
    }
    r
}


/// The words of `s`: its maximal runs of characters that are not white space,
/// in the order in which they stand.
pub open spec fn words(s: Seq<char>) -> Seq<Seq<char>>
    decreases s.len(),
{
    if s.len() == 0 {
        seq![]
    } else {
        let w = words(s.drop_last());
        let c = s.last();
        if white_space(c) {
            w
        } else if s.len() > 1 && !white_space(s[s.len() - 2]) {
            w.update(w.len() - 1, w.last().push(c))
        } else {
            w.push(seq![c])
        }
    }
}

/// `parts` with `sep` between each two neighbours.
pub open spec fn join(parts: Seq<Seq<char>>, sep: Seq<char>) -> Seq<char>
    decreases parts.len(),
{
    if parts.len() == 0 {
        seq![]
    } else if parts.len() == 1 {
        parts[0]
    } else {
        join(parts.drop_last(), sep) + sep + parts.last()
    }
}

/// The words of `s` with one space between each two.
pub open spec fn collapsed(s: Seq<char>) -> Seq<char> {
    join(words(s), seq![' '])
}

/// Joining after one more part adds the separator and the part.
pub proof fn lemma_join_push(parts: Seq<Seq<char>>, sep: Seq<char>, x: Seq<char>)
    ensures
        join(parts.push(x), sep) == if parts.len() == 0 {
            x
        } else {
            join(parts, sep) + sep + x
        },
{
    assert(parts.push(x).drop_last() =~= parts);
}

/// Every word of `s` is non-empty and holds no white space.
pub proof fn lemma_words_are_words(s: Seq<char>)
    ensures
        forall|k: int| 0 <= k < words(s).len() ==> #[trigger] words(s)[k].len() > 0,
        forall|k: int, j: int|
            0 <= k < words(s).len() && 0 <= j < words(s)[k].len() ==> !white_space(#[trigger] words(s)[k][j]),
        s.len() > 0 && !white_space(s.last()) ==> words(s).len() > 0 && words(s).last().last() == s.last(),
    decreases s.len(),
{
    if s.len() > 0 {
        lemma_words_are_words(s.drop_last());
        let w = words(s.drop_last());
        if !white_space(s.last()) && s.len() > 1 && !white_space(s[s.len() - 2]) {
            assert(s.drop_last().last() == s[s.len() - 2]);
            let u = w.update(w.len() - 1, w.last().push(s.last()));
            assert forall|k: int, j: int|
                0 <= k < u.len() && 0 <= j < u[k].len() implies !white_space(#[trigger] u[k][j]) by {
                if k == w.len() - 1 && j == w.last().len() {
                } else if k == w.len() - 1 {
                    assert(u[k][j] == w[k][j]);
                }
            }
        }
    }
}

/// Extending the last part extends the joined text by the same character.
pub proof fn lemma_join_extend_last(parts: Seq<Seq<char>>, sep: Seq<char>, c: char)
    requires
        parts.len() > 0,
    ensures
        join(parts.update(parts.len() - 1, parts.last().push(c)), sep) == join(parts, sep).push(c),
{
    let n = parts.len() - 1;
    let q = parts.update(n, parts.last().push(c));
    if parts.len() == 1 {
        assert(q[0] == parts[0].push(c));
    } else {
        assert(q.drop_last() =~= parts.drop_last());
        assert(q.last() == parts.last().push(c));
        assert(join(q, sep) == join(parts.drop_last(), sep) + sep + parts.last().push(c));
        assert(join(parts.drop_last(), sep) + sep + parts.last().push(c) =~= (join(
            parts.drop_last(),
            sep,
        ) + sep + parts.last()).push(c));
    }
}


/// The character of the decimal digit `d` (`0 <= d < 10`).
pub open spec fn decimal_digit(d: int) -> char {
    (48 + d) as char
}

/// The decimal numeral of `n`: no sign, no leading zero.
pub open spec fn decimal(n: nat) -> Seq<char>
    decreases n,
{
    if n < 10 {
        seq![decimal_digit(n as int)]
    } else {
        decimal(n / 10).push(decimal_digit((n % 10) as int))
    }
}

/// Appends the decimal numeral of `n` (what `format!("{}", n)` writes).
pub fn push_decimal(out: &mut String, n: u64)
    ensures
        final(out)@ == old(out)@ + decimal(n as nat),
    decreases n,
{
    if n >= 10 {
        push_decimal(out, n / 10);
    }
    let d: u8 = (n % 10) as u8;
    let c: char = (48u8 + d) as char;
    push_char(out, c);
}

/// The character of the lowercase hexadecimal digit `d` (`0 <= d < 16`).
pub open spec fn hex_digit(d: int) -> char {
    if d < 10 {
        (48 + d) as char
    } else {
        (87 + d) as char
    }
}

/// The `i`-th of the sixteen hexadecimal digits of `h`, counted from the most
/// significant one.
pub open spec fn nibble(h: u64, i: int) -> int {
    ((h >> ((60 - 4 * i) as u64)) & 0xf) as int
}

/// `h` as sixteen lowercase hexadecimal digits, zero-padded on the left (what
/// `format!("{:016x}", h)` writes).
pub open spec fn hex16(h: u64) -> Seq<char> {
    Seq::new(16, |i: int| hex_digit(nibble(h, i)))
}

/// Appends `h` as sixteen lowercase hexadecimal digits.
pub fn push_hex16(out: &mut String, h: u64)
    ensures
        final(out)@ == old(out)@ + hex16(h),
{
    let ghost start = out@;
    for i in 0..16u64
        invariant
            out@ == start + hex16(h).take(i as int),
    {
        let shift: u64 = 60 - 4 * i;
        let d: u64 = (h >> shift) & 0xf;
        assert(d < 16) by (bit_vector)
            requires
                d == (h >> shift) & 0xf,
        ;
        let c: char = if d < 10 {
            (48u8 + d as u8) as char
        } else {
            (87u8 + d as u8) as char
        };
        assert(hex16(h).take(i + 1) =~= hex16(h).take(i as int).push(c));
        push_char(out, c);
    }
    assert(hex16(h).take(16) =~= hex16(h));
}


/// What `str::to_lowercase` gives for a string with characters `s`: the
/// Unicode lowercase mapping of each character, with the final sigma rule.
pub uninterp spec fn lowercase_of(s: Seq<char>) -> Seq<char>;

/// `str::to_lowercase`. Its result follows Unicode's tables and depends on
/// the characters of `s` alone; the contract names it `lowercase_of` and says
/// nothing more of it.
#[verifier::external_body]
pub(crate) fn to_lowercase(s: &str) -> (r: String)
    ensures
        r@ == lowercase_of(s@),
{
    s.to_lowercase()
}

/// `needle` stands somewhere in `hay` as a run of neighbouring characters.
pub open spec fn contains_text(hay: Seq<char>, needle: Seq<char>) -> bool {
    exists|i: int| 0 <= i && i + needle.len() <= hay.len() && #[trigger] hay.subrange(i, i + needle.len()) == needle
}

/// Containment is plain substring search: text stands in anything that
/// holds it between two other pieces of text, whatever those are.
pub proof fn law_contains_any_surrounding(a: Seq<char>, b: Seq<char>, c: Seq<char>)
    ensures
        contains_text(a + b + c, b),
{
    let h = a + b + c;
    assert(h.subrange(a.len() as int, (a.len() + b.len()) as int) =~= b);
}

/// Text that stands in `x` stands in anything that begins with `x` or ends
/// with it.
pub proof fn lemma_contains_extend(x: Seq<char>, y: Seq<char>, needle: Seq<char>)
    requires
        contains_text(x, needle),
    ensures
        contains_text(x + y, needle),
        contains_text(y + x, needle),
{
    let i = choose|i: int| 0 <= i && i + needle.len() <= x.len() && #[trigger] x.subrange(i, i + needle.len()) == needle;
    assert((x + y).subrange(i, i + needle.len()) =~= needle);
    assert((y + x).subrange(y.len() + i, y.len() + i + needle.len()) =~= needle);
}

/// Each part stands in the parts joined.
pub proof fn lemma_join_contains(parts: Seq<Seq<char>>, sep: Seq<char>, i: int)
    requires
        0 <= i < parts.len(),
    ensures
        contains_text(join(parts, sep), parts[i]),
    decreases parts.len(),
{
    if parts.len() == 1 {
        law_contains_any_surrounding(seq![], parts[0], seq![]);
        assert(Seq::<char>::empty() + parts[0] + Seq::<char>::empty() =~= parts[0]);
    } else {
        let r = parts.drop_last();
        if i == parts.len() - 1 {
            law_contains_any_surrounding(join(r, sep) + sep, parts[i], seq![]);
            assert(join(r, sep) + sep + parts[i] + Seq::<char>::empty() =~= join(r, sep) + sep + parts.last());
        } else {
            lemma_join_contains(r, sep, i);
            assert(r[i] == parts[i]);
            lemma_contains_extend(join(r, sep), sep + parts.last(), parts[i]);
            assert(join(r, sep) + (sep + parts.last()) =~= join(r, sep) + sep + parts.last());
        }
    }
}

/// Containment means that some run of the text equals the needle, and
/// nothing more.
pub proof fn law_contains_is_a_run(hay: Seq<char>, needle: Seq<char>)
    ensures
        forall|i: int|
            0 <= i && i + needle.len() <= hay.len() && #[trigger] hay.subrange(i, i + needle.len()) == needle
                ==> contains_text(hay, needle),
        contains_text(hay, needle) ==> exists|k: int|
            0 <= k && k + needle.len() <= hay.len() && #[trigger] hay.subrange(k, k + needle.len()) == needle,
{
}

/// Whether `needle` stands in `hay` at position `at`.
fn matches_at(hay: &Vec<char>, needle: &Vec<char>, at: usize) -> (r: bool)
    requires
        at + needle@.len() <= hay@.len(),
    ensures
        r == (hay@.subrange(at as int, at + needle@.len()) == needle@),
{
    let m = needle.len();
    let hl = hay.len();
    for j in 0..m
        invariant
            m == needle@.len(),
            hl == hay@.len(),
            at + m <= hay@.len(),
            forall|k: int| 0 <= k < j ==> hay@[at + k] == needle@[k],
    {
        if hay[at + j] != needle[j] {
            assert(hay@.subrange(at as int, at + m)[j as int] != needle@[j as int]);
            return false;
        }
    }
    assert(hay@.subrange(at as int, at + m) =~= needle@);
    true
}

/// Whether `needle` stands somewhere in `hay` (what `str::contains` decides
/// for a string pattern).
pub fn contains_str(hay: &str, needle: &str) -> (r: bool)
    ensures
        r == contains_text(hay@, needle@),
{
    let h = chars_of(hay);
    let n = chars_of(needle);
    if n.len() > h.len() {
        return false;
    }
    let last = h.len() - n.len();
    let mut i: usize = 0;
    loop
        invariant
            h@ == hay@,
            n@ == needle@,
            last + n@.len() == h@.len(),
            i <= last,
            forall|k: int| 0 <= k < i ==> #[trigger] h@.subrange(k, k + n@.len()) != n@,
        decreases last - i,
    {
        if matches_at(&h, &n, i) {
            return true;
        }
        if i == last {
            return false;
        }
        i = i + 1;
    }
}


/// `s` without the white space at its start.
pub open spec fn trim_start(s: Seq<char>) -> Seq<char>
    decreases s.len(),
{
    if s.len() > 0 && white_space(s[0]) {
        trim_start(s.drop_first())
    } else {
        s
    }
}

/// `s` without the white space at its end.
pub open spec fn trim_end(s: Seq<char>) -> Seq<char>
    decreases s.len(),
{
    if s.len() > 0 && white_space(s.last()) {
        trim_end(s.drop_last())
    } else {
        s
    }
}

/// `s` without the white space at either end (what `str::trim` leaves).
pub open spec fn trim(s: Seq<char>) -> Seq<char> {
    trim_end(trim_start(s))
}

/// Skipping the white space before the first other character, or all of it.
pub proof fn lemma_trim_start(s: Seq<char>, a: int)
    requires
        0 <= a <= s.len(),
        forall|k: int| 0 <= k < a ==> white_space(#[trigger] s[k]),
        a == s.len() || !white_space(s[a]),
    ensures
        trim_start(s) == s.skip(a),
    decreases a,
{
    if a > 0 {
        let r = s.drop_first();
        assert forall|k: int| 0 <= k < a - 1 implies white_space(#[trigger] r[k]) by {
            assert(r[k] == s[k + 1]);
        }
        lemma_trim_start(r, a - 1);
        assert(r.skip(a - 1) =~= s.skip(a));
    } else {
        assert(s.skip(0) =~= s);
    }
}

/// Dropping the white space after the last other character, or all of it.
pub proof fn lemma_trim_end(s: Seq<char>, b: int)
    requires
        0 <= b <= s.len(),
        forall|k: int| b <= k < s.len() ==> white_space(#[trigger] s[k]),
        b == 0 || !white_space(s[b - 1]),
    ensures
        trim_end(s) == s.take(b),
    decreases s.len() - b,
{
    if b < s.len() {
        let r = s.drop_last();
        assert forall|k: int| b <= k < r.len() implies white_space(#[trigger] r[k]) by {
            assert(r[k] == s[k]);
        }
        lemma_trim_end(r, b);
        assert(r.take(b) =~= s.take(b));
    } else {
        assert(s.take(b) =~= s);
    }
}

/// `s` without the white space at either end.
pub fn trim_chars(s: &Vec<char>) -> (r: Vec<char>)
    ensures
        r@ == trim(s@),
{
    let n = s.len();
    let mut a: usize = 0;
    while a < n && is_white_space(s[a])
        invariant
            n == s@.len(),
            a <= n,
            forall|k: int| 0 <= k < a ==> white_space(#[trigger] s@[k]),
        decreases n - a,
    {
        a = a + 1;
    }
    proof {
        lemma_trim_start(s@, a as int);
    }
    let ghost t = s@.skip(a as int);
    let mut b: usize = n;
    while b > a && is_white_space(s[b - 1])
        invariant
            n == s@.len(),
            a <= b <= n,
            t == s@.skip(a as int),
            forall|k: int| b <= k < n ==> white_space(#[trigger] s@[k]),
        decreases b,
    {
        b = b - 1;
    }
    proof {
        assert forall|k: int| b - a <= k < t.len() implies white_space(#[trigger] t[k]) by {
            assert(t[k] == s@[k + a]);
        }
        if b > a {
            assert(t[b - a - 1] == s@[b - 1]);
        }
        lemma_trim_end(t, b - a);
    }
    let mut r: Vec<char> = Vec::new();
    let mut i: usize = a;
    while i < b
        invariant
            a <= i <= b <= n,
            n == s@.len(),
            r@ == s@.subrange(a as int, i as int),
        decreases b - i,
    {
        r.push(s[i]);
        i = i + 1;
    }
    assert(r@ =~= t.take(b - a));
    r
}


/// A string with the characters `v`.
pub fn string_of(v: &Vec<char>) -> (r: String)
    ensures
        r@ == v@,
{
    let mut r = String::new();
    let n = v.len();
    for i in 0..n
        invariant
            n == v@.len(),
            r@ == v@.take(i as int),
    {
        assert(v@.take(i + 1) =~= v@.take(i as int).push(v@[i as int]));
        push_char(&mut r, v[i]);
    }
    assert(v@.take(n as int) =~= v@);
    r
}

/// Whether `s` begins with `p`.
pub fn starts_with_chars(s: &Vec<char>, p: &Vec<char>) -> (r: bool)
    ensures
        r == (p@.len() <= s@.len() && s@.take(p@.len() as int) == p@),
{
    if p.len() > s.len() {
        return false;
    }
    let m = p.len();
    for j in 0..m
        invariant
            m == p@.len(),
            m <= s@.len(),
            forall|k: int| 0 <= k < j ==> s@[k] == p@[k],
    {
        if s[j] != p[j] {
            assert(s@.take(m as int)[j as int] != p@[j as int]);
            return false;
        }
    }
    assert(s@.take(m as int) =~= p@);
    true
}

/// `String::from_utf8_lossy` text of `bytes`: every well-formed sequence
/// decoded, every ill-formed one replaced by U+FFFD.
pub uninterp spec fn utf8_lossy(bytes: Seq<u8>) -> Seq<char>;

/// `String::from_utf8_lossy` (made an owned `String`). The contract names the
/// result and states what std documents of valid input: it is decoded as it
/// stands. How ill-formed input is replaced is left to the name.
#[verifier::external_body]
pub(crate) fn decode_lossy(bytes: &[u8]) -> (r: String)
    ensures
        r@ == utf8_lossy(bytes@),
        vstd::utf8::valid_utf8(bytes@) ==> r@ == vstd::utf8::decode_utf8(bytes@),
{
    String::from_utf8_lossy(bytes).into_owned()
}


/// Appending a word after text that is empty or ends in white space adds
/// that word to the words.
pub proof fn lemma_words_append_word(a: Seq<char>, b: Seq<char>)
    requires
        a.len() == 0 || white_space(a.last()),
        b.len() > 0,
        forall|j: int| 0 <= j < b.len() ==> !white_space(#[trigger] b[j]),
    ensures
        words(a + b) == words(a).push(b),
    decreases b.len(),
{
    let c = b.last();
    let b1 = b.drop_last();
    assert((a + b).drop_last() =~= a + b1);
    assert((a + b).last() == c);
    if b1.len() == 0 {
        assert(a + b1 =~= a);
        assert(b =~= seq![c]);
    } else {
        assert forall|j: int| 0 <= j < b1.len() implies !white_space(#[trigger] b1[j]) by {
            assert(b1[j] == b[j]);
        }
        lemma_words_append_word(a, b1);
        assert((a + b)[(a + b).len() - 2] == b1.last());
        assert(b1.push(c) =~= b);
        assert(words(a).push(b1).update(words(a).len() as int, b1.push(c)) =~= words(a).push(b));
    }
}

/// Words without white space, joined by single spaces, split back into the
/// same words.
pub proof fn lemma_words_of_join(w: Seq<Seq<char>>)
    requires
        forall|k: int| 0 <= k < w.len() ==> #[trigger] w[k].len() > 0,
        forall|k: int, j: int| 0 <= k < w.len() && 0 <= j < w[k].len() ==> !white_space(#[trigger] w[k][j]),
    ensures
        words(join(w, seq![' '])) == w,
    decreases w.len(),
{
    if w.len() == 0 {
    } else if w.len() == 1 {
        let e: Seq<char> = seq![];
        assert forall|j: int| 0 <= j < w[0].len() implies !white_space(#[trigger] w[0][j]) by {
            assert(!white_space(w[0][j]));
        }
        lemma_words_append_word(e, w[0]);
        assert(e + w[0] =~= w[0]);
        assert(words(e) =~= Seq::<Seq<char>>::empty());
        assert(words(e).push(w[0]) =~= w);
    } else {
        let r = w.drop_last();
        lemma_words_of_join(r);
        let a = join(r, seq![' ']) + seq![' '];
        assert(a.last() == ' ');
        assert(white_space(' '));
        assert(a.drop_last() =~= join(r, seq![' ']));
        assert(words(a) == words(join(r, seq![' '])));
        assert forall|j: int| 0 <= j < w.last().len() implies !white_space(#[trigger] w.last()[j]) by {
            assert(!white_space(w[w.len() - 1][j]));
        }
        lemma_words_append_word(a, w.last());
        assert(r.push(w.last()) =~= w);
    }
}

/// Collapsing white space twice changes nothing more than collapsing it once.
pub proof fn law_collapse_idempotent(s: Seq<char>)
    ensures
        collapsed(collapsed(s)) == collapsed(s),
{
    lemma_words_are_words(s);
    lemma_words_of_join(words(s));
}

/// Words joined by single spaces are already collapsed: collapsing keeps
/// every word, in order, and the single spaces between them.
pub proof fn law_collapse_keeps_words(w: Seq<Seq<char>>)
    requires
        forall|k: int| 0 <= k < w.len() ==> #[trigger] w[k].len() > 0,
        forall|k: int, j: int| 0 <= k < w.len() && 0 <= j < w[k].len() ==> !white_space(#[trigger] w[k][j]),
    ensures
        collapsed(join(w, seq![' '])) == join(w, seq![' ']),
{
    lemma_words_of_join(w);
}

/// White space before the text changes nothing of its collapsed form.
pub proof fn law_collapse_drops_leading_white_space(c: char, s: Seq<char>)
    requires
        white_space(c),
    ensures
        collapsed(seq![c] + s) == collapsed(s),
    decreases s.len(),
{
    lemma_words_drop_leading(c, s);
}

/// The words of text that begins with white space are the words of the rest.
proof fn lemma_words_drop_leading(c: char, s: Seq<char>)
    requires
        white_space(c),
    ensures
        words(seq![c] + s) == words(s),
    decreases s.len(),
{
    let t = seq![c] + s;
    if s.len() == 0 {
        assert(t =~= seq![c]);
        assert(t.drop_last() =~= Seq::<char>::empty());
        assert(words(t) == words(t.drop_last()));
    } else {
        lemma_words_drop_leading(c, s.drop_last());
        assert(t.drop_last() =~= seq![c] + s.drop_last());
        assert(t.last() == s.last());
        let w = words(s.drop_last());
        assert(words(t.drop_last()) == w);
        if white_space(s.last()) {
            assert(words(t) == w);
        } else if s.len() > 1 && !white_space(s[s.len() - 2]) {
            assert(t[t.len() - 2] == s[s.len() - 2]);
            assert(words(t) == w.update(w.len() - 1, w.last().push(s.last())));
        } else {
            if s.len() > 1 {
                assert(t[t.len() - 2] == s[s.len() - 2]);
            } else {
                assert(t[t.len() - 2] == c);
            }
            assert(words(t) == w.push(seq![s.last()]));
        }
    }
}

/// In words joined by single spaces, the only white space is those spaces.
pub proof fn lemma_join_white_space(w: Seq<Seq<char>>)
    requires
        forall|k: int, j: int| 0 <= k < w.len() && 0 <= j < w[k].len() ==> !white_space(#[trigger] w[k][j]),
    ensures
        forall|i: int| 0 <= i < join(w, seq![' ']).len() && white_space(#[trigger] join(w, seq![' '])[i]) ==> join(w, seq![' '])[i] == ' ',
    decreases w.len(),
{
    if w.len() == 1 {
        assert forall|i: int| 0 <= i < join(w, seq![' ']).len() && white_space(#[trigger] join(w, seq![' '])[i]) implies join(w, seq![' '])[i] == ' ' by {
            assert(join(w, seq![' '])[i] == w[0][i]);
        }
    } else if w.len() > 1 {
        let r = w.drop_last();
        assert forall|k: int, j: int| 0 <= k < r.len() && 0 <= j < r[k].len() implies !white_space(#[trigger] r[k][j]) by {
            assert(r[k] == w[k]);
        }
        lemma_join_white_space(r);
        let x = join(r, seq![' ']);
        assert forall|i: int| 0 <= i < join(w, seq![' ']).len() && white_space(#[trigger] join(w, seq![' '])[i]) implies join(w, seq![' '])[i] == ' ' by {
            if i < x.len() {
                assert(join(w, seq![' '])[i] == x[i]);
            } else if i > x.len() {
                assert(join(w, seq![' '])[i] == w.last()[i - x.len() - 1]);
                assert(w.last() == w[w.len() - 1]);
            }
        }
    }
}

/// Collapsed text holds no white space but single spaces, and none at either
/// end: so in particular no new line.
pub proof fn law_collapsed_is_one_line(s: Seq<char>)
    ensures
        forall|i: int| 0 <= i < collapsed(s).len() && white_space(#[trigger] collapsed(s)[i]) ==> collapsed(s)[i] == ' ',
        !collapsed(s).contains('\n'),
{
    lemma_words_are_words(s);
    lemma_join_white_space(words(s));
    if collapsed(s).contains('\n') {
        let i = choose|i: int| 0 <= i < collapsed(s).len() && collapsed(s)[i] == '\n';
        assert(white_space(collapsed(s)[i]));
    }
}

} // verus!

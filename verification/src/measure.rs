//! One streamed chat request, measured: its body, the reading of the
//! server-sent events it answers with, and what it cost.

use vstd::prelude::*;
use vstd::string::*;
use crate::json::{
    json_bytes, json_of, parse_json, write_json, as_count, as_text, count_of, field, field_of, is_object, item, item_of, json_str, message,
    message_view, text_of, JsonNumber, JsonValue, JsonView, NumberView,
};
use vstd::utf8::{decode_first_scalar, decode_utf8, pop_first_scalar, valid_utf8};
use crate::text::{
    trim_end, trim_start, white_space,
    chars_of, decode_lossy, push_char, starts_with_chars, string_of, trim, trim_chars, utf8_lossy,
};

verus! {

/// What one request cost.
#[derive(Debug, Clone)]
pub struct Sample {
    /// Milliseconds to the first content token (the opening chunk that only
    /// names the role does not count); the whole time when none came.
    pub ttft_ms: u128,
    pub total_ms: u128,
    pub prompt_tokens: u64,
    pub cached_tokens: u64,
    pub completion_tokens: u64,
    /// The first 60 characters of the reply, new lines made spaces.
    pub preview: String,
}

impl Sample {
    /// Whether the request rode a warm prefix: some prompt tokens came from
    /// the cache.
    pub fn hit(&self) -> (r: bool)
        ensures
            r == (self.cached_tokens > 0),
    {
        self.cached_tokens > 0
    }
}

/// One chat request to measure.
pub struct Request<'a> {
    pub model: &'a str,
    /// Put first as a system message: the block that the cache may reuse.
    pub prefix: Option<&'a str>,
    pub user: &'a str,
    /// Routes to one backend; keyed by topic on the cached path.
    pub conv_id: &'a str,
    pub max_tokens: u32,
}

/// The messages of a request: the system prefix, if any, then the user's
/// message.
pub open spec fn request_messages(prefix: Option<Seq<char>>, user: Seq<char>) -> Seq<JsonView> {
    match prefix {
        Some(p) => seq![message_view("system"@, p), message_view("user"@, user)],
        None => seq![message_view("user"@, user)],
    }
}

/// The body of a streamed chat request that asks for usage in its last chunk.
pub open spec fn request_body(
    model: Seq<char>,
    prefix: Option<Seq<char>>,
    user: Seq<char>,
    max_tokens: u32,
) -> JsonView {
    JsonView::Object(
        seq![
            ("model"@, JsonView::Str(model)),
            ("stream"@, JsonView::Bool(true)),
            ("stream_options"@, JsonView::Object(seq![("include_usage"@, JsonView::Bool(true))])),
            ("max_tokens"@, JsonView::Number(NumberView::PosInt(max_tokens as u64))),
            ("messages"@, JsonView::Array(request_messages(prefix, user))),
        ],
    )
}

impl<'a> Request<'a> {
    /// The JSON body of this request.
    pub fn body(&self) -> (r: JsonValue)
        ensures
            r@ == request_body(
                self.model@,
                match self.prefix {
                    Some(p) => Some(p@),
                    None => None,
                },
                self.user@,
                self.max_tokens,
            ),
    {
        let mut messages: Vec<JsonValue> = Vec::new();
        match self.prefix {
            Some(p) => messages.push(message("system", p)),
            None => {},
        }
        messages.push(message("user", self.user));
        let mut options: Vec<(String, JsonValue)> = Vec::new();
        options.push((String::from_str("include_usage"), JsonValue::Bool(true)));
        let opts = JsonValue::Object(options);
        assert(options@[0].0@ == "include_usage"@);
        assert(options@[0].1@ == JsonView::Bool(true));
        assert(opts@->Object_0[0] == ("include_usage"@, JsonView::Bool(true)));
        assert(opts@->Object_0 =~= seq![("include_usage"@, JsonView::Bool(true))]);
        let ghost ov = opts@;
        let msgs = JsonValue::Array(messages);
        let ghost pv = match self.prefix {
            Some(p) => Some(p@),
            None => None,
        };
        assert(msgs@->Array_0 =~= request_messages(pv, self.user@));
        let ghost msv = msgs@;
        let mut e: Vec<(String, JsonValue)> = Vec::new();
        e.push((String::from_str("model"), json_str(self.model)));
        e.push((String::from_str("stream"), JsonValue::Bool(true)));
        e.push((String::from_str("stream_options"), opts));
        e.push(
            (String::from_str("max_tokens"), JsonValue::Number(JsonNumber::PosInt(self.max_tokens as u64))),
        );
        e.push((String::from_str("messages"), msgs));
        let r = JsonValue::Object(e);
        assert(e@[0].1@ == JsonView::Str(self.model@));
        assert(e@[1].1@ == JsonView::Bool(true));
        assert(e@[2].1@ == ov);
        assert(e@[3].1@ == JsonView::Number(NumberView::PosInt(self.max_tokens as u64)));
        assert(e@[4].1@ == msv);
        assert(r@->Object_0 =~= request_body(self.model@, pv, self.user@, self.max_tokens)->Object_0);
        r
    }

    /// The JSON body of this request, written by serde_json.
    pub fn body_bytes(&self) -> (r: Vec<u8>)
        ensures
            r@ == json_bytes(
                request_body(
                    self.model@,
                    match self.prefix {
                        Some(p) => Some(p@),
                        None => None,
                    },
                    self.user@,
                    self.max_tokens,
                ),
            ),
    {
        let b = self.body();
        write_json(&b)
    }
}


/// The lines that `input` completes after the unfinished line `pending`, and
/// what is left unfinished: text is cut at each new line character.
pub open spec fn scan_lines(pending: Seq<char>, input: Seq<char>) -> (Seq<Seq<char>>, Seq<char>)
    decreases input.len(),
{
    if input.len() == 0 {
        (seq![], pending)
    } else {
        let (lines, rest) = scan_lines(pending, input.drop_last());
        if input.last() == '\n' {
            (lines.push(rest), seq![])
        } else {
            (lines, rest.push(input.last()))
        }
    }
}

/// The data of an event line: the line trimmed, it must begin with `data:`,
/// and what follows, trimmed, must be neither empty nor `[DONE]`.
pub open spec fn payload_of(line: Seq<char>) -> Option<Seq<char>> {
    let t = trim(line);
    if t.len() >= 5 && t.take(5) == "data:"@ {
        let p = trim(t.skip(5));
        if p.len() == 0 || p == "[DONE]"@ {
            None
        } else {
            Some(p)
        }
    } else {
        None
    }
}

/// The data of the event lines among `lines`, in order.
pub open spec fn payloads(lines: Seq<Seq<char>>) -> Seq<Seq<char>>
    decreases lines.len(),
{
    if lines.len() == 0 {
        seq![]
    } else {
        let ps = payloads(lines.drop_last());
        match payload_of(lines.last()) {
            Some(p) => ps.push(p),
            None => ps,
        }
    }
}

/// The lines, each followed by its new line character, one after another.
pub open spec fn lines_text(lines: Seq<Seq<char>>) -> Seq<char>
    decreases lines.len(),
{
    if lines.len() == 0 {
        seq![]
    } else {
        lines_text(lines.drop_last()) + lines.last() + seq!['\n']
    }
}

/// Scanning only cuts: the completed lines, each with its new line, and then
/// the unfinished rest, are exactly the pending text followed by the input,
/// no character dropped, added or moved. And when the pending text holds no
/// new line, no line and no rest holds one.
pub proof fn law_scan_lines_only_cuts(pending: Seq<char>, input: Seq<char>)
    ensures
        lines_text(scan_lines(pending, input).0) + scan_lines(pending, input).1 == pending + input,
        !pending.contains('\n') ==> !scan_lines(pending, input).1.contains('\n'),
        !pending.contains('\n') ==> forall|i: int|
            0 <= i < scan_lines(pending, input).0.len() ==> !(#[trigger] scan_lines(pending, input).0[i]).contains('\n'),
    decreases input.len(),
{
    if input.len() == 0 {
        assert(lines_text(seq![]) + pending =~= pending + input);
    } else {
        let prev = input.drop_last();
        law_scan_lines_only_cuts(pending, prev);
        let (lines, rest) = scan_lines(pending, prev);
        let c = input.last();
        assert(pending + input =~= (pending + prev).push(c));
        if c == '\n' {
            assert(lines.push(rest).drop_last() =~= lines);
            assert(lines_text(lines.push(rest)) == lines_text(lines) + rest + seq!['\n']);
            assert(lines_text(lines.push(rest)) + Seq::<char>::empty() =~= (lines_text(lines) + rest).push(c));
            if !pending.contains('\n') {
                assert forall|i: int| 0 <= i < lines.push(rest).len() implies !(#[trigger] lines.push(rest)[i]).contains('\n') by {
                    if i < lines.len() {
                        assert(lines.push(rest)[i] == lines[i]);
                    }
                }
                assert(!Seq::<char>::empty().contains('\n'));
            }
        } else {
            assert(lines_text(lines) + rest.push(c) =~= (lines_text(lines) + rest).push(c));
            if !pending.contains('\n') {
                if rest.push(c).contains('\n') {
                    let k = choose|k: int| 0 <= k < rest.push(c).len() && rest.push(c)[k] == '\n';
                    assert(rest[k] == '\n');
                }
            }
        }
    }
}

/// An event line keeps all its data: a line `data:` followed by text that
/// does not begin or end with white space, and is not `[DONE]`, gives that
/// text whole.
pub proof fn law_payload_keeps_data(p: Seq<char>)
    requires
        p.len() > 0,
        !white_space(p[0]),
        !white_space(p.last()),
        p != "[DONE]"@,
    ensures
        payload_of("data:"@ + p) == Some(p),
{
    reveal_strlit("data:");
    let line = "data:"@ + p;
    assert(line[0] == 'd');
    assert(line.last() == p.last());
    assert(trim_start(line) == line);
    assert(trim_end(line) == line);
    assert(trim(line) == line);
    assert(line.take(5) =~= "data:"@);
    assert(line.skip(5) =~= p);
    assert(trim_start(p) == p);
    assert(trim_end(p) == p);
}

/// Scanning two pieces of text one after the other cuts the same lines as
/// scanning them joined.
pub proof fn lemma_scan_lines_split(pending: Seq<char>, a: Seq<char>, b: Seq<char>)
    ensures
        scan_lines(pending, a + b) == ({
            let (l1, r1) = scan_lines(pending, a);
            let (l2, r2) = scan_lines(r1, b);
            (l1 + l2, r2)
        }),
    decreases b.len(),
{
    if b.len() == 0 {
        assert(a + b =~= a);
        let (l1, r1) = scan_lines(pending, a);
        assert(l1 + seq![] =~= l1);
    } else {
        let b1 = b.drop_last();
        lemma_scan_lines_split(pending, a, b1);
        assert((a + b).drop_last() =~= a + b1);
        assert((a + b).last() == b.last());
        let (l1, r1) = scan_lines(pending, a);
        let (l2, r2) = scan_lines(r1, b1);
        assert((l1 + l2).push(r2) =~= l1 + l2.push(r2));
    }
}

/// The data of two runs of lines is the data of each, one after the other.
pub proof fn lemma_payloads_concat(l1: Seq<Seq<char>>, l2: Seq<Seq<char>>)
    ensures
        payloads(l1 + l2) == payloads(l1) + payloads(l2),
    decreases l2.len(),
{
    if l2.len() == 0 {
        assert(l1 + l2 =~= l1);
        assert(payloads(l1) + payloads(l2) =~= payloads(l1));
    } else {
        lemma_payloads_concat(l1, l2.drop_last());
        assert((l1 + l2).drop_last() =~= l1 + l2.drop_last());
        assert((l1 + l2).last() == l2.last());
        match payload_of(l2.last()) {
            Some(p) => {
                assert((payloads(l1) + payloads(l2.drop_last())).push(p) =~= payloads(l1) + payloads(
                    l2.drop_last(),
                ).push(p));
            },
            None => {},
        }
    }
}

/// Where the stream is cut into chunks does not matter: reading the text of
/// two chunks one after the other gives the same event data, and holds back
/// the same unfinished line, as reading their text at once.
pub proof fn law_chunking_does_not_matter(pending: Seq<char>, a: Seq<char>, b: Seq<char>)
    ensures
        scan_lines(pending, a + b).1 == scan_lines(scan_lines(pending, a).1, b).1,
        payloads(scan_lines(pending, a + b).0) == payloads(scan_lines(pending, a).0) + payloads(
            scan_lines(scan_lines(pending, a).1, b).0,
        ),
{
    lemma_scan_lines_split(pending, a, b);
    lemma_payloads_concat(scan_lines(pending, a).0, scan_lines(scan_lines(pending, a).1, b).0);
}

/// Decoding two pieces of valid UTF-8 one after the other gives the same
/// text as decoding them joined.
pub proof fn lemma_decode_utf8_concat(a: Seq<u8>, b: Seq<u8>)
    requires
        valid_utf8(a),
        valid_utf8(b),
    ensures
        valid_utf8(a + b),
        decode_utf8(a + b) == decode_utf8(a) + decode_utf8(b),
    decreases a.len(),
{
    vstd::utf8::valid_utf8_concat(a, b);
    if a.len() == 0 {
        assert(a + b =~= b);
        assert(decode_utf8(a) =~= Seq::<char>::empty());
        assert(decode_utf8(a) + decode_utf8(b) =~= decode_utf8(b));
    } else {
        let rest = pop_first_scalar(a);
        lemma_decode_utf8_concat(rest, b);
        assert(pop_first_scalar(a + b) =~= rest + b);
        assert(decode_first_scalar(a + b) == decode_first_scalar(a));
        assert(decode_utf8(a + b) =~= decode_utf8(a) + decode_utf8(b));
    }
}

/// Where a stream of valid UTF-8 is cut into chunks does not matter: reading
/// the bytes of two chunks one after the other gives the same event data, and
/// holds back the same unfinished line, as reading their bytes at once.
pub proof fn law_byte_chunking_does_not_matter(pending: Seq<char>, a: Seq<u8>, b: Seq<u8>)
    requires
        valid_utf8(a),
        valid_utf8(b),
    ensures
        valid_utf8(a + b),
        scan_lines(pending, decode_utf8(a + b)).1 == scan_lines(
            scan_lines(pending, decode_utf8(a)).1,
            decode_utf8(b),
        ).1,
        payloads(scan_lines(pending, decode_utf8(a + b)).0) == payloads(
            scan_lines(pending, decode_utf8(a)).0,
        ) + payloads(scan_lines(scan_lines(pending, decode_utf8(a)).1, decode_utf8(b)).0),
{
    lemma_decode_utf8_concat(a, b);
    law_chunking_does_not_matter(pending, decode_utf8(a), decode_utf8(b));
}

/// The text of each string of `v`.
pub open spec fn texts(v: Seq<String>) -> Seq<Seq<char>> {
    v.map_values(|s: String| s@)
}

/// The data of an event line, if it carries any.
pub fn payload(line: &Vec<char>) -> (r: Option<String>)
    ensures
        match payload_of(line@) {
            Some(p) => r matches Some(s) && s@ == p,
            None => r is None,
        },
{
    let t = trim_chars(line);
    let data = chars_of("data:");
    if !starts_with_chars(&t, &data) {
        return None;
    }
    proof {
        reveal_strlit("data:");
    }
    let mut rest: Vec<char> = Vec::new();
    let n = t.len();
    let mut i: usize = 5;
    while i < n
        invariant
            5 <= i <= n,
            n == t@.len(),
            rest@ == t@.subrange(5, i as int),
        decreases n - i,
    {
        rest.push(t[i]);
        i = i + 1;
    }
    assert(rest@ =~= t@.skip(5));
    let p = trim_chars(&rest);
    let done = chars_of("[DONE]");
    if p.len() == 0 || (starts_with_chars(&p, &done) && p.len() == done.len()) {
        proof {
            if p@.len() == done@.len() && p@.take(done@.len() as int) == done@ {
                assert(p@ =~= p@.take(done@.len() as int));
            }
        }
        return None;
    }
    proof {
        if p@ == "[DONE]"@ {
            assert(p@.take(done@.len() as int) =~= p@);
        }
        assert(data@.len() == 5);
        assert(trim(line@).take(5) == "data:"@);
    }
    Some(string_of(&p))
}

/// The token counts that a usage object reports; a count that is missing or
/// not a non-negative integer counts 0.
#[derive(Debug, Clone, Copy, PartialEq, Eq)]
pub struct UsageCounts {
    pub prompt_tokens: u64,
    pub cached_tokens: u64,
    pub completion_tokens: u64,
}

/// A count read as serde_json's `as_u64().unwrap_or(0)` reads it.
pub open spec fn count_or_zero(v: JsonView) -> u64 {
    match as_count(v) {
        Some(n) => n,
        None => 0,
    }
}

/// The counts of the usage object `u`.
pub open spec fn usage_counts(u: JsonView) -> UsageCounts {
    UsageCounts {
        prompt_tokens: count_or_zero(field(u, "prompt_tokens"@)),
        cached_tokens: count_or_zero(field(field(u, "prompt_tokens_details"@), "cached_tokens"@)),
        completion_tokens: count_or_zero(field(u, "completion_tokens"@)),
    }
}

/// The content that a streamed event adds: `choices[0].delta.content`, if it
/// is a string.
pub open spec fn event_delta(event: JsonView) -> Option<Seq<char>> {
    as_text(field(field(item(field(event, "choices"@), 0), "delta"@), "content"@))
}

/// `s` with each new line made a space.
pub open spec fn newlines_to_spaces(s: Seq<char>) -> Seq<char> {
    s.map_values(|c: char| if c == '\n' { ' ' } else { c })
}

/// The preview of a reply: its first 60 characters, new lines made spaces.
pub open spec fn preview_of(text: Seq<char>) -> Seq<char> {
    newlines_to_spaces(text.take(if text.len() < 60 { text.len() as int } else { 60 }))
}

/// The message when the stream ended without a usage chunk.
pub open spec fn no_usage_message() -> Seq<char> {
    "no usage chunk — is stream_options.include_usage set?"@
}

/// Taking the event `event`, received `elapsed_ms` after the start, leads
/// from `before` to `after`: its non-empty content is added to the reply (the
/// first one also fixes the time to first token), a usage object replaces the
/// counts, and the unfinished line stays as it was.
pub open spec fn event_step(before: StreamReader, after: StreamReader, event: JsonView, elapsed_ms: u128) -> bool {
    &&& after.pending_text() == before.pending_text()
    &&& match event_delta(event) {
        Some(d) if d.len() > 0 => {
            &&& after.reply() == before.reply() + d
            &&& after.first_content_ms() == match before.first_content_ms() {
                Some(t) => Some(t),
                None => Some(elapsed_ms),
            }
        },
        _ => {
            &&& after.reply() == before.reply()
            &&& after.first_content_ms() == before.first_content_ms()
        },
    }
    &&& after.usage_seen() == if field(event, "usage"@) is Object {
        Some(usage_counts(field(event, "usage"@)))
    } else {
        before.usage_seen()
    }
}

/// The state of reading one streamed reply.
pub struct StreamReader {
    pending: Vec<char>,
    text: String,
    ttft_ms: Option<u128>,
    usage: Option<UsageCounts>,
}

impl StreamReader {
    /// The unfinished line held back.
    pub closed spec fn pending_text(&self) -> Seq<char> {
        self.pending@
    }

    /// The content received so far.
    pub closed spec fn reply(&self) -> Seq<char> {
        self.text@
    }

    /// When the first content came, in milliseconds from the start.
    pub closed spec fn first_content_ms(&self) -> Option<u128> {
        self.ttft_ms
    }

    /// The counts of the last usage object seen.
    pub closed spec fn usage_seen(&self) -> Option<UsageCounts> {
        self.usage
    }

    /// A reader that has seen nothing.
    pub fn new() -> (r: StreamReader)
        ensures
            r.pending_text() == Seq::<char>::empty(),
            r.reply() == Seq::<char>::empty(),
            r.first_content_ms() is None,
            r.usage_seen() is None,
    {
        StreamReader { pending: Vec::new(), text: String::new(), ttft_ms: None, usage: None }
    }

    /// Takes one chunk of the stream: decodes it, completes the lines it
    /// ends, holds back the unfinished one, and gives the data of the
    /// completed event lines in order.
    pub fn feed(&mut self, chunk: &[u8]) -> (r: Vec<String>)
        ensures
            scan_lines(old(self).pending_text(), utf8_lossy(chunk@)).1 == final(self).pending_text(),
            texts(r@) == payloads(scan_lines(old(self).pending_text(), utf8_lossy(chunk@)).0),
            valid_utf8(chunk@) ==> scan_lines(old(self).pending_text(), decode_utf8(chunk@)).1
                == final(self).pending_text(),
            valid_utf8(chunk@) ==> texts(r@) == payloads(
                scan_lines(old(self).pending_text(), decode_utf8(chunk@)).0,
            ),
            final(self).reply() == old(self).reply(),
            final(self).first_content_ms() == old(self).first_content_ms(),
            final(self).usage_seen() == old(self).usage_seen(),
    {
        let decoded = decode_lossy(chunk);
        let cs = chars_of(decoded.as_str());
        let ghost start = self.pending@;
        let ghost mut lines: Seq<Seq<char>> = seq![];
        let mut out: Vec<String> = Vec::new();
        let n = cs.len();
        for i in 0..n
            invariant
                n == cs@.len(),
                scan_lines(start, cs@.take(i as int)) == (lines, self.pending@),
                texts(out@) == payloads(lines),
                self.text@ == old(self).text@,
                self.ttft_ms == old(self).ttft_ms,
                self.usage == old(self).usage,
        {
            let c = cs[i];
            assert(cs@.take(i + 1).drop_last() =~= cs@.take(i as int));
            assert(cs@.take(i + 1).last() == c);
            if c == '\n' {
                let mut line: Vec<char> = Vec::new();
                std::mem::swap(&mut line, &mut self.pending);
                let ghost prior = out@;
                match payload(&line) {
                    Some(p) => {
                        let ghost pv = p@;
                        out.push(p);
                        assert(texts(out@) =~= texts(prior).push(pv));
                    },
                    None => {},
                }
                proof {
                    let before = lines;
                    lines = lines.push(line@);
                    assert(lines.drop_last() =~= before);
                }
            } else {
                self.pending.push(c);
            }
        }
        assert(cs@.take(n as int) =~= cs@);
        out
    }

    /// Takes one parsed event, received `elapsed_ms` after the start: its
    /// non-empty content is added to the reply (the first one also fixes
    /// the time to first token), and a usage object replaces the counts.
    pub fn apply_event(&mut self, event: &JsonValue, elapsed_ms: u128)
        ensures
            event_step(*old(self), *final(self), event@, elapsed_ms),
    {
        let choices = field_of(event, "choices");
        let first = match choices {
            Some(c) => item_of(c, 0),
            None => None,
        };
        let delta = match first {
            Some(f) => field_of(f, "delta"),
            None => None,
        };
        let content = match delta {
            Some(d) => field_of(d, "content"),
            None => None,
        };
        match text_of(content) {
            Some(d) => {
                if d.as_str().unicode_len() > 0 {
                    if self.ttft_ms.is_none() {
                        self.ttft_ms = Some(elapsed_ms);
                    }
                    self.text.append(d.as_str());
                }
            },
            None => {},
        }
        let usage = field_of(event, "usage");
        if is_object(usage) {
            let u = usage.unwrap();
            let details = field_of(u, "prompt_tokens_details");
            let cached = match details {
                Some(x) => count_of(field_of(x, "cached_tokens")),
                None => None,
            };
            self.usage = Some(
                UsageCounts {
                    prompt_tokens: count_of(field_of(u, "prompt_tokens")).unwrap_or(0),
                    cached_tokens: cached.unwrap_or(0),
                    completion_tokens: count_of(field_of(u, "completion_tokens")).unwrap_or(0),
                },
            );
        }
    }

    /// Takes the data of one event line, received `elapsed_ms` after the
    /// start: when serde_json parses it as JSON, the event is taken as
    /// `apply_event` takes it; otherwise it is skipped.
    pub fn take_payload(&mut self, payload: &str, elapsed_ms: u128)
        ensures
            match json_of(payload.spec_bytes()) {
                Some(event) => event_step(*old(self), *final(self), event, elapsed_ms),
                None => *final(self) == *old(self),
            },
    {
        match parse_json(payload.as_bytes()) {
            Some(event) => self.apply_event(&event, elapsed_ms),
            None => {},
        }
    }

    /// The measurement, once the stream has ended `total_ms` after the start;
    /// an error when no usage chunk came.
    pub fn finish(&self, total_ms: u128) -> (r: Result<Sample, String>)
        ensures
            match self.usage_seen() {
                Some(u) => r matches Ok(s) && {
                    &&& s.ttft_ms == match self.first_content_ms() {
                        Some(t) => t,
                        None => total_ms,
                    }
                    &&& s.total_ms == total_ms
                    &&& s.prompt_tokens == u.prompt_tokens
                    &&& s.cached_tokens == u.cached_tokens
                    &&& s.completion_tokens == u.completion_tokens
                    &&& s.preview@ == preview_of(self.reply())
                },
                None => r matches Err(m) && m@ == no_usage_message(),
            },
    {
        match &self.usage {
            None => Err(String::from_str("no usage chunk — is stream_options.include_usage set?")),
            Some(u) => {
                let cs = chars_of(self.text.as_str());
                let m: usize = if cs.len() < 60 {
                    cs.len()
                } else {
                    60
                };
                let mut preview = String::new();
                for i in 0..m
                    invariant
                        m <= cs@.len(),
                        cs@ == self.text@,
                        preview@ == newlines_to_spaces(cs@.take(i as int)),
                {
                    let c = cs[i];
                    assert(newlines_to_spaces(cs@.take(i + 1)) =~= newlines_to_spaces(
                        cs@.take(i as int),
                    ).push(if c == '\n' { ' ' } else { c }));
                    if c == '\n' {
                        push_char(&mut preview, ' ');
                    } else {
                        push_char(&mut preview, c);
                    }
                }
                let ttft = match self.ttft_ms {
                    Some(t) => t,
                    None => total_ms,
                };
                Ok(
                    Sample {
                        ttft_ms: ttft,
                        total_ms,
                        prompt_tokens: u.prompt_tokens,
                        cached_tokens: u.cached_tokens,
                        completion_tokens: u.completion_tokens,
                        preview,
                    },
                )
            },
        }
    }
}

} // verus!

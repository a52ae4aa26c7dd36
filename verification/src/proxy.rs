//! What the proxy does with a chat request: which trend's block goes in front
//! of it, under which conversation id, and the request body with the block.

use vstd::prelude::*;
use vstd::string::*;
use crate::allocator::Allocator;
use crate::prefix::TrendView;
use crate::json::{
    field, find_member, index_of_key, json_bytes, json_of, message, message_view, parse_json,
    write_json, JsonValue, JsonView,
};

verus! {

/// The request body with the system message `prefix` put first among its
/// messages; `None` when the body is not an object whose `messages` member is
/// an array.
pub open spec fn injected(request: JsonView, prefix: Seq<char>) -> Option<JsonView> {
    match request {
        JsonView::Object(e) => match index_of_key(e, "messages"@) {
            Some(i) => match e[i].1 {
                JsonView::Array(m) => Some(
                    JsonView::Object(
                        e.update(
                            i,
                            (e[i].0, JsonView::Array(seq![message_view("system"@, prefix)] + m)),
                        ),
                    ),
                ),
                _ => None,
            },
            None => None,
        },
        _ => None,
    }
}

/// Why a body could not take the context block.
#[derive(Debug, Clone, Copy, PartialEq, Eq)]
pub enum InjectError {
    /// The body is not JSON.
    NotJson,
    /// The body is not an object with an array of messages.
    NoMessages,
}

/// Puts `{"role": "system", "content": prefix}` first among the messages of
/// the chat request `request`, and leaves everything else as it was.
pub fn inject(request: JsonValue, prefix: &str) -> (r: Result<JsonValue, InjectError>)
    ensures
        match injected(request@, prefix@) {
            Some(v) => r matches Ok(x) && x@ == v,
            None => r matches Err(InjectError::NoMessages),
        },
{
    let ghost req = request@;
    match request {
        JsonValue::Object(mut entries) => {
            let ghost e = req->Object_0;
            match find_member(&entries, "messages") {
                Some(i) => {
                    let ghost old_entries = entries@;
                    assert(e[i as int] == (old_entries[i as int].0@, old_entries[i as int].1@));
                    let (name, value) = entries.remove(i);
                    let ghost value_view = value@;
                    match value {
                        JsonValue::Array(mut msgs) => {
                            let ghost old_msgs = msgs@;
                            msgs.insert(0, message("system", prefix));
                            let v = JsonValue::Array(msgs);
                            assert(v@->Array_0 =~= seq![message_view("system"@, prefix@)]
                                + value_view->Array_0);
                            entries.insert(i, (name, v));
                            let r = JsonValue::Object(entries);
                            assert(entries@ =~= old_entries.update(i as int, entries@[i as int]));
                            assert(r@->Object_0 =~= e.update(
                                i as int,
                                (e[i as int].0, JsonView::Array(seq![message_view("system"@, prefix@)] + value_view->Array_0)),
                            ));
                            Ok(r)
                        },
                        _ => Err(InjectError::NoMessages),
                    }
                },
                None => Err(InjectError::NoMessages),
            }
        },
        _ => Err(InjectError::NoMessages),
    }
}


/// Puts the context block `prefix` first among the messages of the raw JSON
/// request body `body`, and gives the body to send upstream: the request as
/// serde_json parses it, with the block injected, written back by serde_json.
pub fn inject_body(body: &[u8], prefix: &str) -> (r: Result<Vec<u8>, InjectError>)
    ensures
        match json_of(body@) {
            Some(v) => match injected(v, prefix@) {
                Some(w) => r matches Ok(b) && b@ == json_bytes(w),
                None => r matches Err(InjectError::NoMessages),
            },
            None => r matches Err(InjectError::NotJson),
        },
{
    match parse_json(body) {
        Some(request) => match inject(request, prefix) {
            Ok(w) => Ok(write_json(&w)),
            Err(e) => Err(e),
        },
        None => Err(InjectError::NotJson),
    }
}

/// The messages of a chat request body (none when it has no array of them).
pub open spec fn messages_of(v: JsonView) -> Seq<JsonView> {
    match field(v, "messages"@) {
        JsonView::Array(m) => m,
        _ => seq![],
    }
}

/// Finding a member looks at the names alone, and finds one of that name.
pub proof fn lemma_index_of_key_names(
    e1: Seq<(Seq<char>, JsonView)>,
    e2: Seq<(Seq<char>, JsonView)>,
    key: Seq<char>,
)
    requires
        e1.len() == e2.len(),
        forall|k: int| 0 <= k < e1.len() ==> #[trigger] e1[k].0 == e2[k].0,
    ensures
        index_of_key(e1, key) == index_of_key(e2, key),
        index_of_key(e1, key) matches Some(t) ==> 0 <= t < e1.len() && e1[t].0 == key,
    decreases e1.len(),
{
    if e1.len() > 0 {
        let r1 = e1.drop_first();
        let r2 = e2.drop_first();
        assert forall|k: int| 0 <= k < r1.len() implies #[trigger] r1[k].0 == r2[k].0 by {
            assert(r1[k] == e1[k + 1] && r2[k] == e2[k + 1]);
        }
        assert(e1[0].0 == e2[0].0);
        lemma_index_of_key_names(r1, r2, key);
    }
}

/// Injecting puts the system message with the block first among the
/// messages, keeps the request's own messages after it in order, and leaves
/// every other member of the body as it was.
pub proof fn law_inject_puts_block_first(request: JsonView, prefix: Seq<char>, key: Seq<char>)
    requires
        injected(request, prefix) is Some,
    ensures
        messages_of(injected(request, prefix)->0) == seq![message_view("system"@, prefix)] + messages_of(request),
        key != "messages"@ ==> field(injected(request, prefix)->0, key) == field(request, key),
{
    assert(request is Object);
    let e = request->Object_0;
    assert(index_of_key(e, "messages"@) is Some);
    lemma_index_of_key_names(e, e, "messages"@);
    let i = index_of_key(e, "messages"@)->0;
    assert(e[i].1 is Array);
    let m = e[i].1->Array_0;
    let e2 = e.update(i, (e[i].0, JsonView::Array(seq![message_view("system"@, prefix)] + m)));
    assert(injected(request, prefix)->0 == JsonView::Object(e2));
    assert forall|k: int| 0 <= k < e.len() implies #[trigger] e[k].0 == e2[k].0 by {}
    lemma_index_of_key_names(e, e2, "messages"@);
    lemma_index_of_key_names(e, e2, key);
    if key != "messages"@ {
        match index_of_key(e, key) {
            Some(t) => {
                assert(t != i);
                assert(e2[t] == e[t]);
            },
            None => {},
        }
    }
}

/// Every request about one trend starts with the same bytes: whatever the
/// two bodies hold, both begin their messages with the same system message.
pub proof fn law_same_block_for_every_request(a: JsonView, b: JsonView, prefix: Seq<char>)
    requires
        injected(a, prefix) is Some,
        injected(b, prefix) is Some,
    ensures
        messages_of(injected(a, prefix)->0)[0] == messages_of(injected(b, prefix)->0)[0],
        messages_of(injected(a, prefix)->0)[0] == message_view("system"@, prefix),
{
    law_inject_puts_block_first(a, prefix, "messages"@);
    law_inject_puts_block_first(b, prefix, "messages"@);
}

/// How a chat request goes upstream.
#[derive(Debug)]
pub enum Forward {
    /// With the trend's context block put first and the trend's conversation id.
    Inject { prefix: String, conv_id: String },
    /// As it came, with the conversation id that the client sent, if any.
    Pass { header_conv_id: Option<String> },
}

/// How a request goes upstream, given the trends held (`trends`), its
/// `x-trend` header and its `x-grok-conv-id` header: a header that names a
/// held trend exactly injects that trend's block under the trend's
/// conversation id; otherwise the request passes untouched.
pub open spec fn forward_spec(
    trends: Map<Seq<char>, TrendView>,
    trend_header: Option<Seq<char>>,
    conv_header: Option<Seq<char>>,
    r: Forward,
) -> bool {
    match trend_header {
        Some(k) if trends.dom().contains(k) => r matches Forward::Inject { prefix, conv_id } && prefix@
            == trends[k].prefix && conv_id@ == trends[k].conv_id,
        _ => r matches Forward::Pass { header_conv_id } && match conv_header {
            Some(c) => header_conv_id matches Some(x) && x@ == c,
            None => header_conv_id is None,
        },
    }
}

/// When no held trend is named (no `x-trend` header, or one that names no
/// held trend), the request passes as it came, with exactly the conversation
/// id that the client sent, whatever the reason no trend was found.
pub proof fn law_pass_keeps_client_conv_id(
    trends: Map<Seq<char>, TrendView>,
    trend_header: Option<Seq<char>>,
    conv_header: Option<Seq<char>>,
    r: Forward,
)
    requires
        forward_spec(trends, trend_header, conv_header, r),
        match trend_header {
            Some(k) => !trends.dom().contains(k),
            None => true,
        },
    ensures
        r is Pass,
        match conv_header {
            Some(c) => r->header_conv_id is Some && r->header_conv_id->0@ == c,
            None => r->header_conv_id is None,
        },
{
}

/// A request naming a held trend gets exactly that trend's block and its
/// conversation id, whatever conversation id the client sent.
pub proof fn law_named_trend_is_injected(
    trends: Map<Seq<char>, TrendView>,
    k: Seq<char>,
    conv_header: Option<Seq<char>>,
    r: Forward,
)
    requires
        forward_spec(trends, Some(k), conv_header, r),
        trends.dom().contains(k),
    ensures
        r is Inject,
        r->prefix@ == trends[k].prefix,
        r->conv_id@ == trends[k].conv_id,
{
}

/// How the request with headers `trend_header` (`x-trend`) and `conv_header`
/// (`x-grok-conv-id`) goes upstream.
pub fn route(allocator: &Allocator, trend_header: Option<&str>, conv_header: Option<&str>) -> (r: Forward)
    ensures
        forward_spec(
            allocator@,
            match trend_header {
                Some(k) => Some(k@),
                None => None,
            },
            match conv_header {
                Some(c) => Some(c@),
                None => None,
            },
            r,
        ),
{
    let trend = match trend_header {
        Some(key) => allocator.get(key),
        None => None,
    };
    match trend {
        Some(t) => Forward::Inject { prefix: t.prefix, conv_id: t.conv_id },
        None => Forward::Pass {
            header_conv_id: match conv_header {
                Some(c) => Some(String::from_str(c)),
                None => None,
            },
        },
    }
}

/// The context block of the trend named exactly `key`, if it is held (what
/// `GET /trends/{name}` answers; `None` is answered 404).
pub fn trend_block(allocator: &Allocator, key: &str) -> (r: Option<String>)
    ensures
        r is Some <==> allocator@.dom().contains(key@),
        r matches Some(p) ==> p@ == allocator@[key@].prefix,
{
    match allocator.get(key) {
        Some(t) => Some(t.prefix),
        None => None,
    }
}

/// The content type to answer with: the upstream's, or JSON when it sent none.
pub fn response_content_type(upstream: Option<String>) -> (r: String)
    ensures
        r@ == match upstream {
            Some(c) => c@,
            None => "application/json"@,
        },
{
    match upstream {
        Some(c) => c,
        None => String::from_str("application/json"),
    }
}

} // verus!

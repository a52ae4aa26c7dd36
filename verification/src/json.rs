//! JSON values as the library holds them, and the reads that the gateway makes.

use vstd::prelude::*;
use vstd::string::*;

verus! {

/// A JSON number as serde_json keeps it: a non-negative integer, a negative
/// integer, or any other number kept as the text that serde_json writes for it.
#[derive(Debug, Clone, PartialEq)]
pub enum JsonNumber {
    PosInt(u64),
    NegInt(i64),
    Float(String),
}

/// A JSON value. An object keeps its members in order, each name once.
#[derive(Debug, PartialEq)]
pub enum JsonValue {
    Null,
    Bool(bool),
    Number(JsonNumber),
    Str(String),
    Array(Vec<JsonValue>),
    Object(Vec<(String, JsonValue)>),
}

/// A JSON number with its text as characters.
pub enum NumberView {
    PosInt(u64),
    NegInt(i64),
    Float(Seq<char>),
}

/// A JSON value with all its text as characters.
pub enum JsonView {
    Null,
    Bool(bool),
    Number(NumberView),
    Str(Seq<char>),
    Array(Seq<JsonView>),
    Object(Seq<(Seq<char>, JsonView)>),
}

impl JsonNumber {
    pub open spec fn shape(self) -> NumberView {
        match self {
            JsonNumber::PosInt(n) => NumberView::PosInt(n),
            JsonNumber::NegInt(n) => NumberView::NegInt(n),
            JsonNumber::Float(s) => NumberView::Float(s@),
        }
    }
}

impl JsonValue {
    /// This value with its text as characters (its view).
    pub open spec fn shape(self) -> JsonView
        decreases self,
    {
        match self {
            JsonValue::Null => JsonView::Null,
            JsonValue::Bool(b) => JsonView::Bool(b),
            JsonValue::Number(n) => JsonView::Number(n.shape()),
            JsonValue::Str(s) => JsonView::Str(s@),
            JsonValue::Array(a) => JsonView::Array(
                Seq::new(
                    a@.len(),
                    |i: int|
                        if 0 <= i < a@.len() {
                            proof {
                                assert(decreases_to!(self => a@[i]));
                            }
                            a@[i].shape()
                        } else {
                            JsonView::Null
                        },
                ),
            ),
            JsonValue::Object(e) => JsonView::Object(
                Seq::new(
                    e@.len(),
                    |i: int|
                        if 0 <= i < e@.len() {
                            proof {
                                assert(decreases_to!(self => e@[i].1));
                            }
                            (e@[i].0@, e@[i].1.shape())
                        } else {
                            (Seq::empty(), JsonView::Null)
                        },
                ),
            ),
        }
    }
}


impl View for JsonValue {
    type V = JsonView;

    open spec fn view(&self) -> JsonView {
        self.shape()
    }
}

/// Where the first member named `key` stands among `entries`.
pub open spec fn index_of_key(entries: Seq<(Seq<char>, JsonView)>, key: Seq<char>) -> Option<int>
    decreases entries.len(),
{
    if entries.len() == 0 {
        None
    } else if entries[0].0 == key {
        Some(0)
    } else {
        match index_of_key(entries.drop_first(), key) {
            Some(i) => Some(i + 1),
            None => None,
        }
    }
}

/// The value of the member `key` of an object; for anything else, or a
/// missing member, JSON null. This is what serde_json's `value[key]` reads.
/// (Objects that serde_json parses hold each name once; should a value built
/// by hand hold a name twice, the first member counts.)
pub open spec fn field(v: JsonView, key: Seq<char>) -> JsonView {
    match v {
        JsonView::Object(e) => match index_of_key(e, key) {
            Some(i) => e[i].1,
            None => JsonView::Null,
        },
        _ => JsonView::Null,
    }
}

/// The element `i` of an array; for anything else, or past the end, JSON
/// null. This is what serde_json's `value[i]` reads.
pub open spec fn item(v: JsonView, i: int) -> JsonView {
    match v {
        JsonView::Array(a) => if 0 <= i < a.len() {
            a[i]
        } else {
            JsonView::Null
        },
        _ => JsonView::Null,
    }
}

/// The text of a JSON string (serde_json's `as_str`).
pub open spec fn as_text(v: JsonView) -> Option<Seq<char>> {
    match v {
        JsonView::Str(s) => Some(s),
        _ => None,
    }
}

/// A JSON number that is a non-negative integer (serde_json's `as_u64`).
pub open spec fn as_count(v: JsonView) -> Option<u64> {
    match v {
        JsonView::Number(NumberView::PosInt(n)) => Some(n),
        _ => None,
    }
}

/// The chat message `{"role": role, "content": content}`.
pub open spec fn message_view(role: Seq<char>, content: Seq<char>) -> JsonView {
    JsonView::Object(seq![("role"@, JsonView::Str(role)), ("content"@, JsonView::Str(content))])
}

/// When no member before `i` is named `key` and member `i` is, member `i`
/// is the first of that name.
pub proof fn lemma_index_of_key(entries: Seq<(Seq<char>, JsonView)>, key: Seq<char>, i: int)
    requires
        0 <= i <= entries.len(),
        forall|k: int| 0 <= k < i ==> entries[k].0 != key,
    ensures
        i < entries.len() && entries[i].0 == key ==> index_of_key(entries, key) == Some(i),
        i == entries.len() ==> index_of_key(entries, key) is None,
    decreases i,
{
    if i > 0 {
        let rest = entries.drop_first();
        assert forall|k: int| 0 <= k < i - 1 implies rest[k].0 != key by {
            assert(rest[k] == entries[k + 1]);
        }
        lemma_index_of_key(rest, key, i - 1);
    }
}

/// The position of the first member named `key` of the object with members
/// `entries`.
pub fn find_member(entries: &Vec<(String, JsonValue)>, key: &str) -> (r: Option<usize>)
    ensures
        match r {
            Some(i) => i < entries@.len() && index_of_key(JsonValue::Object(*entries)@->Object_0, key@)
                == Some(i as int),
            None => index_of_key(JsonValue::Object(*entries)@->Object_0, key@) is None,
        },
{
    let ghost view_entries = JsonValue::Object(*entries)@->Object_0;
    let k = String::from_str(key);
    let n = entries.len();
    for i in 0..n
        invariant
            n == entries@.len(),
            k@ == key@,
            view_entries == JsonValue::Object(*entries)@->Object_0,
            view_entries.len() == n,
            forall|j: int| 0 <= j < i ==> view_entries[j].0 != key@,
    {
        assert(view_entries[i as int].0 == entries@[i as int].0@);
        if entries[i].0 == k {
            proof {
                lemma_index_of_key(view_entries, key@, i as int);
            }
            return Some(i);
        }
    }
    proof {
        lemma_index_of_key(view_entries, key@, n as int);
    }
    None
}

/// The member `key` of `v`, read as serde_json's `v[key]` reads it: `None`
/// stands for JSON null.
pub fn field_of<'a>(v: &'a JsonValue, key: &str) -> (r: Option<&'a JsonValue>)
    ensures
        match r {
            Some(x) => x@ == field(v@, key@),
            None => field(v@, key@) == JsonView::Null,
        },
{
    match v {
        JsonValue::Object(entries) => {
            match find_member(entries, key) {
                Some(i) => {
                    assert(v@->Object_0[i as int].1 == entries@[i as int].1@);
                    Some(&entries[i].1)
                },
                None => None,
            }
        },
        _ => None,
    }
}

/// The element `i` of `v`, read as serde_json's `v[i]` reads it: `None`
/// stands for JSON null.
pub fn item_of<'a>(v: &'a JsonValue, i: usize) -> (r: Option<&'a JsonValue>)
    ensures
        match r {
            Some(x) => x@ == item(v@, i as int),
            None => item(v@, i as int) == JsonView::Null,
        },
{
    match v {
        JsonValue::Array(a) => {
            if i < a.len() {
                Some(&a[i])
            } else {
                None
            }
        },
        _ => None,
    }
}

/// The text of `v` if it is a JSON string.
pub fn text_of<'a>(v: Option<&'a JsonValue>) -> (r: Option<&'a String>)
    ensures
        match v {
            Some(x) => match r {
                Some(s) => as_text(x@) == Some(s@),
                None => as_text(x@) is None,
            },
            None => r is None,
        },
{
    match v {
        Some(JsonValue::Str(s)) => Some(s),
        _ => None,
    }
}

/// `v` as a non-negative integer, if it is one.
pub fn count_of(v: Option<&JsonValue>) -> (r: Option<u64>)
    ensures
        match v {
            Some(x) => r == as_count(x@),
            None => r is None,
        },
{
    match v {
        Some(JsonValue::Number(JsonNumber::PosInt(n))) => Some(*n),
        _ => None,
    }
}

/// Whether `v` is a JSON object.
pub fn is_object(v: Option<&JsonValue>) -> (r: bool)
    ensures
        match v {
            Some(x) => r == (x@ is Object),
            None => !r,
        },
{
    match v {
        Some(JsonValue::Object(_)) => true,
        _ => false,
    }
}

/// A JSON string.
pub fn json_str(s: &str) -> (r: JsonValue)
    ensures
        r@ == JsonView::Str(s@),
{
    JsonValue::Str(String::from_str(s))
}

/// The chat message `{"role": role, "content": content}`.
pub fn message(role: &str, content: &str) -> (r: JsonValue)
    ensures
        r@ == message_view(role@, content@),
{
    let mut e: Vec<(String, JsonValue)> = Vec::new();
    e.push((String::from_str("role"), json_str(role)));
    e.push((String::from_str("content"), json_str(content)));
    let r = JsonValue::Object(e);
    assert(r@->Object_0 =~= message_view(role@, content@)->Object_0);
    r
}


#[verifier::external_type_specification]
#[verifier::external_body]
pub struct ExSerdeJsonValue(serde_json::Value);

/// What `serde_json::from_slice::<serde_json::Value>` makes of `bytes`, held
/// as the library holds JSON: `None` when the bytes are not one JSON value.
pub uninterp spec fn json_of(bytes: Seq<u8>) -> Option<JsonView>;

/// What `serde_json::to_vec` writes for the value `v` (compact, object members
/// in serde_json's map order).
pub uninterp spec fn json_bytes(v: JsonView) -> Seq<u8>;

#[verifier::external_type_specification]
#[verifier::external_body]
pub struct ExSerdeJsonNumber(serde_json::Number);

/// serde_json's number as the library's: a `u64`, else an `i64`, else its text.
#[verifier::external_body]
fn number_from_serde(n: serde_json::Number) -> JsonNumber {
    match (n.as_u64(), n.as_i64()) {
        (Some(u), _) => JsonNumber::PosInt(u),
        (None, Some(i)) => JsonNumber::NegInt(i),
        (None, None) => JsonNumber::Float(n.to_string()),
    }
}

/// The library's number as serde_json's value (null for text that is not a number).
#[verifier::external_body]
fn number_to_serde(n: &JsonNumber) -> serde_json::Value {
    match n {
        JsonNumber::PosInt(u) => serde_json::Value::from(*u),
        JsonNumber::NegInt(i) => serde_json::Value::from(*i),
        JsonNumber::Float(t) => t.parse::<serde_json::Number>().map(serde_json::Value::Number).unwrap_or(serde_json::Value::Null),
    }
}

/// serde_json's value as the library's, variant for variant.
#[verifier::external_body]
fn from_serde(v: serde_json::Value) -> JsonValue {
    match v {
        serde_json::Value::Null => JsonValue::Null,
        serde_json::Value::Bool(b) => JsonValue::Bool(b),
        serde_json::Value::Number(n) => JsonValue::Number(number_from_serde(n)),
        serde_json::Value::String(s) => JsonValue::Str(s),
        serde_json::Value::Array(a) => JsonValue::Array(a.into_iter().map(from_serde).collect()),
        serde_json::Value::Object(m) => JsonValue::Object(m.into_iter().map(|(k, x)| (k, from_serde(x))).collect()),
    }
}

/// The library's value as serde_json's, variant for variant.
#[verifier::external_body]
fn to_serde(v: &JsonValue) -> serde_json::Value {
    match v {
        JsonValue::Null => serde_json::Value::Null,
        JsonValue::Bool(b) => serde_json::Value::Bool(*b),
        JsonValue::Number(n) => number_to_serde(n),
        JsonValue::Str(s) => serde_json::Value::String(s.clone()),
        JsonValue::Array(a) => serde_json::Value::Array(a.iter().map(to_serde).collect()),
        JsonValue::Object(e) => serde_json::Value::Object(e.iter().map(|(k, x)| (k.clone(), to_serde(x))).collect()),
    }
}

/// `serde_json::from_slice::<serde_json::Value>`: parses `bytes` as one JSON
/// value. The contract names the result `json_of` and says nothing of how
/// JSON is parsed.
#[verifier::external_body]
pub(crate) fn parse_json(bytes: &[u8]) -> (r: Option<JsonValue>)
    ensures
        match r {
            Some(v) => json_of(bytes@) == Some(v@),
            None => json_of(bytes@) is None,
        },
{
    serde_json::from_slice::<serde_json::Value>(bytes).ok().map(from_serde)
}

/// `serde_json::to_vec`: writes `v` as compact JSON. The contract names the
/// bytes `json_bytes` and says nothing of how JSON is written.
#[verifier::external_body]
pub(crate) fn write_json(v: &JsonValue) -> (r: Vec<u8>)
    ensures
        r@ == json_bytes(v@),
{
    serde_json::to_vec(&to_serde(v)).unwrap_or_default()
}

} // verus!

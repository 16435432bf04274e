//! The JSON bodies that the model relay rewrites between the chat-completions
//! protocol and the responses protocol.  Parsing and printing JSON text is the
//! caller's part; here a body is a `JsonValue`.
use vstd::prelude::*;
use vstd::string::StringExecFns;
use crate::text::{chars_of, decimal, decimal_u64, eq_str, push_all, push_str, string_of};

verus! {

/// A JSON value.  A number is kept as its JSON text.
#[derive(Debug)]
pub enum JsonValue {
    Null,
    Bool(bool),
    Number(String),
    Str(String),
    Array(Vec<JsonValue>),
    Object(Vec<(String, JsonValue)>),
}

/// A JSON value as plain values: strings as characters, an object as its
/// key-value pairs in order.
pub enum JsonView {
    Null,
    Bool(bool),
    Number(Seq<char>),
    Str(Seq<char>),
    Array(Seq<JsonView>),
    Object(Seq<(Seq<char>, JsonView)>),
}

#[verifier::external_type_specification]
#[verifier::external_body]
pub struct ExSerdeJsonValue(serde_json::Value);

/// What `serde_json` makes of a JSON text: the value, with numbers in their
/// printed form and object keys in the order its map keeps them, or the
/// parser's error text.
pub uninterp spec fn json_of_text(text: Seq<char>) -> Result<JsonView, Seq<char>>;

pub open spec fn json_result_view(r: Result<JsonValue, String>) -> Result<JsonView, Seq<char>> {
    match r {
        Ok(v) => Ok(view_of(v)),
        Err(e) => Err(e@),
    }
}

/// Converts a parsed `serde_json` value to the library's form, variant for
/// variant.
#[verifier::external_body]
fn json_from_serde(v: serde_json::Value) -> JsonValue {
    match v {
        serde_json::Value::Null => JsonValue::Null,
        serde_json::Value::Bool(b) => JsonValue::Bool(b),
        serde_json::Value::Number(n) => JsonValue::Number(n.to_string()),
        serde_json::Value::String(s) => JsonValue::Str(s),
        serde_json::Value::Array(items) => JsonValue::Array(items.into_iter().map(json_from_serde).collect()),
        serde_json::Value::Object(map) => JsonValue::Object(map.into_iter().map(|(k, x)| (k, json_from_serde(x))).collect()),
    }
}

/// Parses a JSON text with `serde_json::from_str`; the value (or the error
/// text) is `json_of_text` of the text.
#[verifier::external_body]
pub(crate) fn parse_json_text(text: &str) -> (r: Result<JsonValue, String>)
    ensures
        json_result_view(r) == json_of_text(text@),
{
    serde_json::from_str::<serde_json::Value>(text).map(json_from_serde).map_err(|e| e.to_string())
}

/// The plain value of a JSON value.
pub open spec fn view_of(v: JsonValue) -> JsonView
    decreases v, 1int,
{
    match v {
        JsonValue::Null => JsonView::Null,
        JsonValue::Bool(b) => JsonView::Bool(b),
        JsonValue::Number(n) => JsonView::Number(n@),
        JsonValue::Str(s) => JsonView::Str(s@),
        JsonValue::Array(items) => JsonView::Array(views_of(items@)),
        JsonValue::Object(pairs) => JsonView::Object(pair_views_of(pairs@)),
    }
}

/// The plain values of a sequence of JSON values.
pub open spec fn views_of(s: Seq<JsonValue>) -> Seq<JsonView>
    decreases s, 0int,
{
    if s.len() == 0 {
        Seq::empty()
    } else {
        views_of(s.subrange(0, s.len() - 1)).push(view_of(s[s.len() - 1]))
    }
}

/// The plain values of a sequence of key-value pairs.
pub open spec fn pair_views_of(s: Seq<(String, JsonValue)>) -> Seq<(Seq<char>, JsonView)>
    decreases s, 0int,
{
    if s.len() == 0 {
        Seq::empty()
    } else {
        pair_views_of(s.subrange(0, s.len() - 1)).push((s[s.len() - 1].0@, view_of(s[s.len() - 1].1)))
    }
}


pub proof fn lemma_views_of(s: Seq<JsonValue>)
    ensures
        views_of(s).len() == s.len(),
        forall|i: int| 0 <= i < s.len() ==> #[trigger] views_of(s)[i] == view_of(s[i]),
    decreases s.len(),
{
    if s.len() > 0 {
        let t = s.subrange(0, s.len() - 1);
        lemma_views_of(t);
        assert forall|i: int| 0 <= i < s.len() implies #[trigger] views_of(s)[i] == view_of(s[i]) by {
            if i < s.len() - 1 {
                assert(t[i] == s[i]);
            }
        }
    }
}

pub proof fn lemma_pair_views_of(s: Seq<(String, JsonValue)>)
    ensures
        pair_views_of(s).len() == s.len(),
        forall|i: int|
            0 <= i < s.len() ==> #[trigger] pair_views_of(s)[i] == (s[i].0@, view_of(s[i].1)),
    decreases s.len(),
{
    if s.len() > 0 {
        let t = s.subrange(0, s.len() - 1);
        lemma_pair_views_of(t);
        assert forall|i: int| 0 <= i < s.len() implies #[trigger] pair_views_of(s)[i] == (
        s[i].0@, view_of(s[i].1)) by {
            if i < s.len() - 1 {
                assert(t[i] == s[i]);
            }
        }
    }
}

/// The plain value of an optional JSON value.
pub open spec fn opt_view(o: Option<JsonValue>) -> Option<JsonView> {
    match o {
        Some(v) => Some(view_of(v)),
        None => None,
    }
}

// ---------------------------------------------------------------------------
// Reading values
// ---------------------------------------------------------------------------
/// The position of the first pair with `key`.
pub open spec fn pair_index(ps: Seq<(Seq<char>, JsonView)>, key: Seq<char>) -> Option<int>
    decreases ps.len(),
{
    if ps.len() == 0 {
        None
    } else if ps[0].0 == key {
        Some(0)
    } else {
        match pair_index(ps.drop_first(), key) {
            Some(i) => Some(i + 1),
            None => None,
        }
    }
}

pub proof fn lemma_pair_index(ps: Seq<(Seq<char>, JsonView)>, key: Seq<char>)
    ensures
        match pair_index(ps, key) {
            Some(i) => 0 <= i < ps.len() && ps[i].0 == key && forall|j: int|
                0 <= j < i ==> ps[j].0 != key,
            None => forall|j: int| 0 <= j < ps.len() ==> ps[j].0 != key,
        },
    decreases ps.len(),
{
    if ps.len() > 0 {
        lemma_pair_index(ps.drop_first(), key);
        assert forall|j: int| 1 <= j < ps.len() implies ps[j] == ps.drop_first()[j - 1] by {}
    }
}

/// `Value::get`: the value of an object's field (its first pair with the
/// key); nothing for another kind of value.
pub open spec fn field(v: JsonView, key: Seq<char>) -> Option<JsonView> {
    match v {
        JsonView::Object(ps) => match pair_index(ps, key) {
            Some(i) => Some(ps[i].1),
            None => None,
        },
        _ => None,
    }
}

/// The first element of an array.
pub open spec fn first(v: JsonView) -> Option<JsonView> {
    match v {
        JsonView::Array(items) => if items.len() > 0 {
            Some(items[0])
        } else {
            None
        },
        _ => None,
    }
}

/// The characters of a string value (`Value::as_str`).
pub open spec fn text(v: JsonView) -> Option<Seq<char>> {
    match v {
        JsonView::Str(s) => Some(s),
        _ => None,
    }
}

pub open spec fn and_field(o: Option<JsonView>, key: Seq<char>) -> Option<JsonView> {
    match o {
        Some(v) => field(v, key),
        None => None,
    }
}

pub open spec fn and_first(o: Option<JsonView>) -> Option<JsonView> {
    match o {
        Some(v) => first(v),
        None => None,
    }
}

pub open spec fn and_text(o: Option<JsonView>) -> Option<Seq<char>> {
    match o {
        Some(v) => text(v),
        None => None,
    }
}

fn pair_index_exec(pairs: &Vec<(String, JsonValue)>, key: &str) -> (r: Option<usize>)
    ensures
        match r {
            Some(i) => i < pairs@.len() && pair_index(pair_views_of(pairs@), key@) == Some(i as int),
            None => pair_index(pair_views_of(pairs@), key@) is None,
        },
{
    let ghost vs = pair_views_of(pairs@);
    proof {
        lemma_pair_views_of(pairs@);
    }
    let mut i: usize = 0;
    assert(vs.subrange(0, vs.len() as int) =~= vs);
    while i < pairs.len()
        invariant
            i <= pairs@.len(),
            vs == pair_views_of(pairs@),
            vs.len() == pairs@.len(),
            forall|j: int| 0 <= j < pairs@.len() ==> #[trigger] vs[j] == (pairs@[j].0@, view_of(pairs@[j].1)),
            pair_index(vs, key@) == (match pair_index(vs.subrange(i as int, vs.len() as int), key@) {
                Some(k) => Some(k + i),
                None => None,
            }),
        decreases pairs@.len() - i,
    {
        let ghost rest = vs.subrange(i as int, vs.len() as int);
        assert(rest[0] == vs[i as int]);
        assert(rest.drop_first() =~= vs.subrange(i + 1, vs.len() as int));
        if eq_str(pairs[i].0.as_str(), key) {
            return Some(i);
        }
        i = i + 1;
    }
    None
}

/// `Value::get`: the field of an object.
pub fn get_field<'a>(v: &'a JsonValue, key: &str) -> (r: Option<&'a JsonValue>)
    ensures
        match r {
            Some(x) => field(view_of(*v), key@) == Some(view_of(*x)),
            None => field(view_of(*v), key@) is None,
        },
{
    match v {
        JsonValue::Object(pairs) => {
            proof {
                lemma_pair_views_of(pairs@);
            }
            match pair_index_exec(pairs, key) {
                Some(i) => Some(&pairs[i].1),
                None => None,
            }
        },
        _ => None,
    }
}

/// The first element of an array value.
pub fn first_item<'a>(v: &'a JsonValue) -> (r: Option<&'a JsonValue>)
    ensures
        match r {
            Some(x) => first(view_of(*v)) == Some(view_of(*x)),
            None => first(view_of(*v)) is None,
        },
{
    match v {
        JsonValue::Array(items) => {
            proof {
                lemma_views_of(items@);
            }
            if items.len() > 0 {
                Some(&items[0])
            } else {
                None
            }
        },
        _ => None,
    }
}

/// The string of a string value.
pub fn text_of(v: &JsonValue) -> (r: Option<String>)
    ensures
        match r {
            Some(s) => text(view_of(*v)) == Some(s@),
            None => text(view_of(*v)) is None,
        },
{
    match v {
        JsonValue::Str(s) => Some(s.clone()),
        _ => None,
    }
}

/// No key is asked for twice.
pub open spec fn distinct_keys(keys: Seq<&str>) -> bool {
    forall|i: int, j: int| 0 <= i < j < keys.len() ==> keys[i]@ != keys[j]@
}

/// Moves the values of the given fields out of an object, one result per key.
pub fn take_fields(v: JsonValue, keys: &Vec<&str>) -> (r: Vec<Option<JsonValue>>)
    requires
        distinct_keys(keys@),
    ensures
        r@.len() == keys@.len(),
        forall|k: int| 0 <= k < keys@.len() ==> #[trigger] opt_view(r@[k]) == field(view_of(v), keys@[k]@),
{
    let ghost vv = view_of(v);
    let n = keys.len();
    let mut out: Vec<Option<JsonValue>> = Vec::new();
    match v {
        JsonValue::Object(pairs) => {
            let ghost p0 = pairs@;
            let ghost pv = pair_views_of(p0);
            proof {
                lemma_pair_views_of(p0);
            }
            let mut idx: Vec<Option<usize>> = Vec::new();
            let mut k: usize = 0;
            while k < n
                invariant
                    k <= n,
                    n == keys@.len(),
                    pv == pair_views_of(pairs@),
                    out@.len() == k,
                    idx@.len() == k,
                    forall|m: int| 0 <= m < k ==> #[trigger] out@[m] is None,
                    forall|m: int|
                        0 <= m < k ==> match #[trigger] idx@[m] {
                            Some(i) => pair_index(pv, keys@[m]@) == Some(i as int),
                            None => pair_index(pv, keys@[m]@) is None,
                        },
                decreases n - k,
            {
                let found = pair_index_exec(&pairs, keys[k]);
                idx.push(found);
                out.push(None);
                k = k + 1;
            }
            let mut rest = pairs;
            let total = rest.len();
            let mut j: usize = 0;
            proof {
                assert(rest@ =~= p0.subrange(0, p0.len() as int));
            }
            while rest.len() > 0
                invariant
                    j <= total,
                    total == p0.len(),
                    pv == pair_views_of(p0),
                    pv.len() == p0.len(),
                    forall|i: int| 0 <= i < p0.len() ==> #[trigger] pv[i] == (p0[i].0@, view_of(p0[i].1)),
                    rest@ == p0.subrange(j as int, total as int),
                    n == keys@.len(),
                    distinct_keys(keys@),
                    out@.len() == n,
                    idx@.len() == n,
                    forall|m: int|
                        0 <= m < n ==> match #[trigger] idx@[m] {
                            Some(i) => pair_index(pv, keys@[m]@) == Some(i as int),
                            None => pair_index(pv, keys@[m]@) is None,
                        },
                    forall|m: int|
                        0 <= m < n ==> #[trigger] opt_view(out@[m]) == (match idx@[m] {
                            Some(i) => if i < j {
                                Some(pv[i as int].1)
                            } else {
                                None
                            },
                            None => None,
                        }),
                decreases rest@.len(),
            {
                let ghost old_rest = rest@;
                let p = rest.remove(0);
                proof {
                    assert(p == p0[j as int]);
                    assert(rest@ =~= p0.subrange(j + 1, total as int));
                }
                let (_, value) = p;
                let mut m: usize = 0;
                let mut target: Option<usize> = None;
                while m < n
                    invariant
                        m <= n,
                        n == keys@.len(),
                        idx@.len() == n,
                        match target {
                            Some(t) => t < n && idx@[t as int] == Some(j),
                            None => forall|q: int| 0 <= q < m ==> #[trigger] idx@[q] != Some(j),
                        },
                    decreases n - m,
                {
                    if target.is_none() {
                        match idx[m] {
                            Some(i) => {
                                if i == j {
                                    target = Some(m);
                                }
                            },
                            None => {},
                        }
                    }
                    m = m + 1;
                }
                let ghost before = out@;
                match target {
                    Some(t) => {
                        proof {
                            assert forall|q: int| 0 <= q < n && q != t implies #[trigger] idx@[q] != Some(j) by {
                                if idx@[q] == Some(j) {
                                    lemma_pair_index(pv, keys@[q]@);
                                    lemma_pair_index(pv, keys@[t as int]@);
                                    assert(pv[j as int].0 == keys@[q]@);
                                    assert(pv[j as int].0 == keys@[t as int]@);
                                    if q < t {
                                        assert(keys@[q]@ != keys@[t as int]@);
                                    } else {
                                        assert(keys@[t as int]@ != keys@[q]@);
                                    }
                                }
                            }
                        }
                        out[t] = Some(value);
                        proof {
                            assert(out@ == before.update(t as int, Some(value)));
                            assert(view_of(value) == pv[j as int].1);
                        }
                    },
                    None => {},
                }
                j = j + 1;
            }
            proof {
                assert forall|m: int| 0 <= m < n implies #[trigger] opt_view(out@[m]) == field(vv, keys@[m]@) by {
                    lemma_pair_index(pv, keys@[m]@);
                }
            }
            out
        },
        _ => {
            let mut k: usize = 0;
            while k < n
                invariant
                    k <= n,
                    n == keys@.len(),
                    out@.len() == k,
                    forall|m: int| 0 <= m < k ==> #[trigger] out@[m] is None,
                    !(vv is Object),
                decreases n - k,
            {
                out.push(None);
                k = k + 1;
            }
            out
        },
    }
}


// ---------------------------------------------------------------------------
// Building values
// ---------------------------------------------------------------------------
fn json_str(s: &str) -> (v: JsonValue)
    ensures
        view_of(v) == JsonView::Str(s@),
{
    JsonValue::Str(String::from_str(s))
}

fn json_string(s: String) -> (v: JsonValue)
    ensures
        view_of(v) == JsonView::Str(s@),
{
    JsonValue::Str(s)
}

fn array1(a: JsonValue) -> (v: JsonValue)
    ensures
        view_of(v) == JsonView::Array(seq![view_of(a)]),
{
    let ghost va = view_of(a);
    let mut items: Vec<JsonValue> = Vec::new();
    items.push(a);
    proof {
        lemma_views_of(items@);
        assert(views_of(items@) =~= seq![va]);
    }
    JsonValue::Array(items)
}

fn object_of(pairs: Vec<(String, JsonValue)>) -> (v: JsonValue)
    ensures
        view_of(v) == JsonView::Object(pair_views_of(pairs@)),
{
    JsonValue::Object(pairs)
}

fn pair(key: &str, value: JsonValue) -> (p: (String, JsonValue))
    ensures
        p.0@ == key@,
        p.1 == value,
{
    (String::from_str(key), value)
}

fn object2(k1: &str, v1: JsonValue, k2: &str, v2: JsonValue) -> (v: JsonValue)
    ensures
        view_of(v) == JsonView::Object(seq![(k1@, view_of(v1)), (k2@, view_of(v2))]),
{
    let ghost (a, b) = (view_of(v1), view_of(v2));
    let mut ps: Vec<(String, JsonValue)> = Vec::new();
    ps.push(pair(k1, v1));
    ps.push(pair(k2, v2));
    proof {
        lemma_pair_views_of(ps@);
        assert(pair_views_of(ps@) =~= seq![(k1@, a), (k2@, b)]);
    }
    object_of(ps)
}

fn object3(k1: &str, v1: JsonValue, k2: &str, v2: JsonValue, k3: &str, v3: JsonValue) -> (v: JsonValue)
    ensures
        view_of(v) == JsonView::Object(
            seq![(k1@, view_of(v1)), (k2@, view_of(v2)), (k3@, view_of(v3))],
        ),
{
    let ghost (a, b, c) = (view_of(v1), view_of(v2), view_of(v3));
    let mut ps: Vec<(String, JsonValue)> = Vec::new();
    ps.push(pair(k1, v1));
    ps.push(pair(k2, v2));
    ps.push(pair(k3, v3));
    proof {
        lemma_pair_views_of(ps@);
        assert(pair_views_of(ps@) =~= seq![(k1@, a), (k2@, b), (k3@, c)]);
    }
    object_of(ps)
}

// ---------------------------------------------------------------------------
// Requests
// ---------------------------------------------------------------------------
/// The request's `stream` field, kept when present.
pub open spec fn stream_part(v: JsonView) -> Seq<(Seq<char>, JsonView)> {
    match field(v, "stream"@) {
        Some(s) => seq![("stream"@, s)],
        None => Seq::empty(),
    }
}

/// A chat-completions request as a responses request: its model, its
/// messages as the input, and its `stream` flag if it has one.
pub open spec fn responses_request(v: JsonView) -> Result<JsonView, Seq<char>> {
    match field(v, "model"@) {
        None => Err("model is required"@),
        Some(m) => match field(v, "messages"@) {
            None => Err("messages is required"@),
            Some(msgs) => Ok(
                JsonView::Object(seq![("model"@, m), ("input"@, msgs)] + stream_part(v)),
            ),
        },
    }
}

/// A single user message with the given text.
pub open spec fn user_message(content: Seq<char>) -> JsonView {
    JsonView::Array(
        seq![JsonView::Object(seq![("role"@, JsonView::Str("user"@)), ("content"@, JsonView::Str(content))])],
    )
}

/// The chat messages for a responses input: a text becomes one user
/// message, a list is taken as it is, and anything else becomes one user
/// message holding its JSON text.
pub open spec fn chat_messages(input: JsonView, input_text: Seq<char>) -> JsonView {
    match input {
        JsonView::Str(s) => user_message(s),
        JsonView::Array(items) => JsonView::Array(items),
        _ => user_message(input_text),
    }
}

/// A responses request as a chat-completions request.  `input_text` is the
/// compact JSON text of the request's `input`, used when that input is
/// neither a string nor a list.
pub open spec fn chat_request(v: JsonView, input_text: Seq<char>) -> Result<JsonView, Seq<char>> {
    match field(v, "model"@) {
        None => Err("model is required"@),
        Some(m) => match field(v, "input"@) {
            None => Err("input is required"@),
            Some(i) => Ok(
                JsonView::Object(
                    seq![("model"@, m), ("messages"@, chat_messages(i, input_text))] + stream_part(v),
                ),
            ),
        },
    }
}

fn take3(v: JsonValue, a: &str, b: &str, c: &str) -> (r: (Option<JsonValue>, Option<JsonValue>, Option<JsonValue>))
    requires
        a@ != b@,
        a@ != c@,
        b@ != c@,
    ensures
        opt_view(r.0) == field(view_of(v), a@),
        opt_view(r.1) == field(view_of(v), b@),
        opt_view(r.2) == field(view_of(v), c@),
{
    let keys = vec![a, b, c];
    assert(keys@ =~= seq![a, b, c]);
    let mut got = take_fields(v, &keys);
    assert(opt_view(got@[0]) == field(view_of(v), a@));
    assert(opt_view(got@[1]) == field(view_of(v), b@));
    assert(opt_view(got@[2]) == field(view_of(v), c@));
    let z = got.remove(2);
    let y = got.remove(1);
    let x = got.remove(0);
    (x, y, z)
}

/// Rewrites a chat-completions request body for a responses upstream
///.
pub fn chat_request_to_responses(value: JsonValue) -> (r: Result<JsonValue, String>)
    ensures
        match r {
            Ok(x) => responses_request(view_of(value)) == Ok::<JsonView, Seq<char>>(view_of(x)),
            Err(e) => responses_request(view_of(value)) == Err::<JsonView, Seq<char>>(e@),
        },
{
    let ghost vv = view_of(value);
    proof {
        reveal_strlit("model");
        reveal_strlit("messages");
        reveal_strlit("stream");
        assert("model"@.len() != "messages"@.len() && "model"@.len() != "stream"@.len());
        assert("messages"@.len() != "stream"@.len());
    }
    let (model, messages, stream) = take3(value, "model", "messages", "stream");
    let m = match model {
        Some(m) => m,
        None => return Err(String::from_str("model is required")),
    };
    let msgs = match messages {
        Some(x) => x,
        None => return Err(String::from_str("messages is required")),
    };
    let ghost (mv, sv) = (view_of(m), view_of(msgs));
    let mut ps: Vec<(String, JsonValue)> = Vec::new();
    ps.push(pair("model", m));
    ps.push(pair("input", msgs));
    match stream {
        Some(s) => {
            ps.push(pair("stream", s));
        },
        None => {},
    }
    proof {
        lemma_pair_views_of(ps@);
        assert(pair_views_of(ps@) =~= seq![("model"@, mv), ("input"@, sv)] + stream_part(vv));
    }
    Ok(object_of(ps))
}

fn user_message_exec(content: String) -> (v: JsonValue)
    ensures
        view_of(v) == user_message(content@),
{
    array1(object2("role", json_str("user"), "content", json_string(content)))
}

/// Rewrites a responses request body for a chat-completions upstream
///; `input_text` is the compact JSON text of the
/// body's `input` (`Value::to_string`).
pub fn responses_request_to_chat(value: JsonValue, input_text: String) -> (r: Result<JsonValue, String>)
    ensures
        match r {
            Ok(x) => chat_request(view_of(value), input_text@) == Ok::<JsonView, Seq<char>>(view_of(x)),
            Err(e) => chat_request(view_of(value), input_text@) == Err::<JsonView, Seq<char>>(e@),
        },
{
    let ghost vv = view_of(value);
    proof {
        reveal_strlit("model");
        reveal_strlit("input");
        reveal_strlit("stream");
        assert("model"@[0] != "input"@[0] && "model"@.len() != "stream"@.len());
        assert("input"@.len() != "stream"@.len());
    }
    let (model, input, stream) = take3(value, "model", "input", "stream");
    let m = match model {
        Some(m) => m,
        None => return Err(String::from_str("model is required")),
    };
    let i = match input {
        Some(x) => x,
        None => return Err(String::from_str("input is required")),
    };
    let ghost (mv, iv) = (view_of(m), view_of(i));
    let messages = match i {
        JsonValue::Str(s) => user_message_exec(s),
        JsonValue::Array(items) => JsonValue::Array(items),
        _ => user_message_exec(input_text),
    };
    let ghost msv = view_of(messages);
    assert(msv == chat_messages(iv, input_text@));
    let mut ps: Vec<(String, JsonValue)> = Vec::new();
    ps.push(pair("model", m));
    ps.push(pair("messages", messages));
    match stream {
        Some(s) => {
            ps.push(pair("stream", s));
        },
        None => {},
    }
    proof {
        lemma_pair_views_of(ps@);
        assert(pair_views_of(ps@) =~= seq![("model"@, mv), ("messages"@, msv)] + stream_part(vv));
    }
    Ok(object_of(ps))
}

/// The model a parsed request body asks for: its `model`
/// field when that is a string.
pub fn requested_model(body: &JsonValue) -> (r: Option<String>)
    ensures
        match r {
            Some(m) => and_text(field(view_of(*body), "model"@)) == Some(m@),
            None => and_text(field(view_of(*body), "model"@)) is None,
        },
{
    match get_field(body, "model") {
        Some(x) => text_of(x),
        None => None,
    }
}

// ---------------------------------------------------------------------------
// Replies
// ---------------------------------------------------------------------------
/// A reply body is rewritten only when it succeeded (2xx) and is JSON.
pub open spec fn rewrites_reply(status: u16, content_type: Seq<char>) -> bool {
    200 <= status < 300 && crate::text::contains(content_type, "json"@)
}

/// Whether a reply with this status and content type is rewritten.
pub fn reply_is_rewritten(status: u16, content_type: &str) -> (b: bool)
    ensures
        b == rewrites_reply(status, content_type@),
{
    status >= 200 && status < 300 && crate::text::contains_exec(
        crate::text::chars_of(content_type).as_slice(),
        crate::text::chars_of("json").as_slice(),
    )
}

/// The value, or a string value holding `d` when there is none.
pub open spec fn or_str(o: Option<JsonView>, d: Seq<char>) -> JsonView {
    match o {
        Some(x) => x,
        None => JsonView::Str(d),
    }
}

/// The text, or the empty text when there is none.
pub open spec fn or_empty(o: Option<Seq<char>>) -> Seq<char> {
    match o {
        Some(t) => t,
        None => Seq::empty(),
    }
}

/// The text of a responses reply: its `output_text`, else the `text` of the
/// first content part of its first output.
pub open spec fn responses_text(v: JsonView) -> Option<Seq<char>> {
    match and_text(field(v, "output_text"@)) {
        Some(t) => Some(t),
        None => and_text(
            and_field(and_first(and_field(and_first(field(v, "output"@)), "content"@)), "text"@),
        ),
    }
}

/// The text of a chat-completions reply: the content of its first choice's
/// message.
pub open spec fn chat_text(v: JsonView) -> Option<Seq<char>> {
    and_text(and_field(and_field(and_first(field(v, "choices"@)), "message"@), "content"@))
}

/// A responses reply as a chat-completions reply.
pub open spec fn chat_reply(v: JsonView) -> JsonView {
    JsonView::Object(
        seq![
            ("id"@, or_str(field(v, "id"@), "relay-response"@)),
            ("object"@, JsonView::Str("chat.completion"@)),
            ("model"@, or_str(field(v, "model"@), Seq::empty())),
            ("choices"@, JsonView::Array(seq![JsonView::Object(seq![
                ("index"@, JsonView::Number("0"@)),
                ("message"@, JsonView::Object(seq![
                    ("role"@, JsonView::Str("assistant"@)),
                    ("content"@, JsonView::Str(or_empty(responses_text(v)))),
                ])),
                ("finish_reason"@, JsonView::Str("stop"@)),
            ])])),
        ],
    )
}

/// A chat-completions reply as a responses reply.
pub open spec fn responses_reply(v: JsonView) -> JsonView {
    let c = or_empty(chat_text(v));
    JsonView::Object(
        seq![
            ("id"@, or_str(field(v, "id"@), "relay-response"@)),
            ("object"@, JsonView::Str("response"@)),
            ("model"@, or_str(field(v, "model"@), Seq::empty())),
            ("output_text"@, JsonView::Str(c)),
            ("output"@, JsonView::Array(seq![JsonView::Object(seq![
                ("type"@, JsonView::Str("message"@)),
                ("role"@, JsonView::Str("assistant"@)),
                ("content"@, JsonView::Array(seq![JsonView::Object(seq![
                    ("type"@, JsonView::Str("output_text"@)),
                    ("text"@, JsonView::Str(c)),
                ])])),
            ])])),
        ],
    )
}

fn and_get_field<'a>(o: Option<&'a JsonValue>, key: &str) -> (r: Option<&'a JsonValue>)
    ensures
        opt_view(match r {
            Some(x) => Some(*x),
            None => None,
        }) == and_field(
            opt_view(match o {
                Some(x) => Some(*x),
                None => None,
            }),
            key@,
        ),
{
    match o {
        Some(v) => get_field(v, key),
        None => None,
    }
}

fn and_first_item<'a>(o: Option<&'a JsonValue>) -> (r: Option<&'a JsonValue>)
    ensures
        opt_view(match r {
            Some(x) => Some(*x),
            None => None,
        }) == and_first(
            opt_view(match o {
                Some(x) => Some(*x),
                None => None,
            }),
        ),
{
    match o {
        Some(v) => first_item(v),
        None => None,
    }
}

fn and_text_of(o: Option<&JsonValue>) -> (r: Option<String>)
    ensures
        match r {
            Some(s) => and_text(
                opt_view(match o {
                    Some(x) => Some(*x),
                    None => None,
                }),
            ) == Some(s@),
            None => and_text(
                opt_view(match o {
                    Some(x) => Some(*x),
                    None => None,
                }),
            ) is None,
        },
{
    match o {
        Some(v) => text_of(v),
        None => None,
    }
}

/// The text of a responses reply (`response_text_from_responses`).
pub fn response_text_from_responses(v: &JsonValue) -> (r: Option<String>)
    ensures
        match r {
            Some(s) => responses_text(view_of(*v)) == Some(s@),
            None => responses_text(view_of(*v)) is None,
        },
{
    match and_text_of(get_field(v, "output_text")) {
        Some(t) => Some(t),
        None => {
            let output = and_first_item(get_field(v, "output"));
            let part = and_first_item(and_get_field(output, "content"));
            and_text_of(and_get_field(part, "text"))
        },
    }
}

fn chat_text_exec(v: &JsonValue) -> (r: Option<String>)
    ensures
        match r {
            Some(s) => chat_text(view_of(*v)) == Some(s@),
            None => chat_text(view_of(*v)) is None,
        },
{
    let choice = and_first_item(get_field(v, "choices"));
    let message = and_get_field(choice, "message");
    and_text_of(and_get_field(message, "content"))
}

fn or_str_exec(o: Option<JsonValue>, d: &str) -> (v: JsonValue)
    ensures
        view_of(v) == or_str(opt_view(o), d@),
{
    match o {
        Some(x) => x,
        None => json_str(d),
    }
}

/// Rewrites a successful responses reply body as a chat-completions reply
///.
pub fn responses_reply_to_chat(value: JsonValue) -> (r: JsonValue)
    ensures
        view_of(r) == chat_reply(view_of(value)),
{
    let ghost vv = view_of(value);
    let content = match response_text_from_responses(&value) {
        Some(t) => t,
        None => String::new(),
    };
    proof {
        reveal_strlit("id");
        reveal_strlit("model");
        reveal_strlit("stream");
        assert("id"@.len() != "model"@.len() && "id"@.len() != "stream"@.len());
        assert("model"@.len() != "stream"@.len());
    }
    let (id, model, _) = take3(value, "id", "model", "stream");
    let message = object2("role", json_str("assistant"), "content", json_string(content));
    let choice = object3(
        "index",
        JsonValue::Number(String::from_str("0")),
        "message",
        message,
        "finish_reason",
        json_str("stop"),
    );
    let idv = or_str_exec(id, "relay-response");
    let modelv = or_str_exec(model, "");
    let choices = array1(choice);
    let ghost (a, b, c) = (view_of(idv), view_of(modelv), view_of(choices));
    proof {
        assert(content@ == or_empty(responses_text(vv)));
        assert(a == or_str(field(vv, "id"@), "relay-response"@));
        reveal_strlit("");
        assert(""@ =~= Seq::<char>::empty());
        assert(b == or_str(field(vv, "model"@), Seq::empty()));
    }
    let mut ps: Vec<(String, JsonValue)> = Vec::new();
    ps.push(pair("id", idv));
    ps.push(pair("object", json_str("chat.completion")));
    ps.push(pair("model", modelv));
    ps.push(pair("choices", choices));
    proof {
        lemma_pair_views_of(ps@);
        assert(pair_views_of(ps@) =~= seq![
            ("id"@, a),
            ("object"@, JsonView::Str("chat.completion"@)),
            ("model"@, b),
            ("choices"@, c),
        ]);
    }
    object_of(ps)
}

/// Rewrites a successful chat-completions reply body as a responses reply
///.
pub fn chat_reply_to_responses(value: JsonValue) -> (r: JsonValue)
    ensures
        view_of(r) == responses_reply(view_of(value)),
{
    let ghost vv = view_of(value);
    let content = match chat_text_exec(&value) {
        Some(t) => t,
        None => String::new(),
    };
    proof {
        reveal_strlit("id");
        reveal_strlit("model");
        reveal_strlit("stream");
        assert("id"@.len() != "model"@.len() && "id"@.len() != "stream"@.len());
        assert("model"@.len() != "stream"@.len());
    }
    let (id, model, _) = take3(value, "id", "model", "stream");
    let part = object2("type", json_str("output_text"), "text", json_string(content.clone()));
    let message = object3("type", json_str("message"), "role", json_str("assistant"), "content", array1(part));
    let output = array1(message);
    let idv = or_str_exec(id, "relay-response");
    let modelv = or_str_exec(model, "");
    let ghost (a, b, c) = (view_of(idv), view_of(modelv), view_of(output));
    proof {
        assert(content@ == or_empty(chat_text(vv)));
        assert(a == or_str(field(vv, "id"@), "relay-response"@));
        reveal_strlit("");
        assert(""@ =~= Seq::<char>::empty());
        assert(b == or_str(field(vv, "model"@), Seq::empty()));
    }
    let mut ps: Vec<(String, JsonValue)> = Vec::new();
    ps.push(pair("id", idv));
    ps.push(pair("object", json_str("response")));
    ps.push(pair("model", modelv));
    ps.push(pair("output_text", json_string(content)));
    ps.push(pair("output", output));
    proof {
        lemma_pair_views_of(ps@);
        assert(pair_views_of(ps@) =~= seq![
            ("id"@, a),
            ("object"@, JsonView::Str("response"@)),
            ("model"@, b),
            ("output_text"@, JsonView::Str(or_empty(chat_text(vv)))),
            ("output"@, c),
        ]);
    }
    object_of(ps)
}


// ---------------------------------------------------------------------------
// The relay's own replies
// ---------------------------------------------------------------------------
fn object1(k: &str, v: JsonValue) -> (o: JsonValue)
    ensures
        view_of(o) == JsonView::Object(seq![(k@, view_of(v))]),
{
    let ghost a = view_of(v);
    let mut ps: Vec<(String, JsonValue)> = Vec::new();
    ps.push(pair(k, v));
    proof {
        lemma_pair_views_of(ps@);
        assert(pair_views_of(ps@) =~= seq![(k@, a)]);
    }
    object_of(ps)
}

/// The body of the health check: `{"ok": true}`.
pub fn health_body() -> (v: JsonValue)
    ensures
        view_of(v) == JsonView::Object(seq![("ok"@, JsonView::Bool(true))]),
{
    object1("ok", JsonValue::Bool(true))
}

/// The body of a failed request: `{"error": {"message": ...}}`.
pub fn error_body(message: String) -> (v: JsonValue)
    ensures
        view_of(v) == JsonView::Object(
            seq![("error"@, JsonView::Object(seq![("message"@, JsonView::Str(message@))]))],
        ),
{
    object1("error", object1("message", JsonValue::Str(message)))
}

/// The reason phrase the relay writes for a status.
pub open spec fn status_text(status: u16) -> Seq<char> {
    if status == 200 {
        "OK"@
    } else if status == 404 {
        "Not Found"@
    } else if status == 500 {
        "Internal Server Error"@
    } else {
        "OK"@
    }
}

/// The status line and headers the relay writes before a body.
pub open spec fn reply_head(status: u16, content_type: Seq<char>, body_len: nat) -> Seq<char> {
    "HTTP/1.1 "@ + decimal(status as int) + " "@ + status_text(status) + "\r\nContent-Type: "@
        + content_type + "\r\nContent-Length: "@ + decimal(body_len as int)
        + "\r\nAccess-Control-Allow-Origin: *\r\nConnection: close\r\n\r\n"@
}

/// The reason phrase for a status.
pub fn status_text_exec(status: u16) -> (s: &'static str)
    ensures
        s@ == status_text(status),
{
    if status == 200 {
        "OK"
    } else if status == 404 {
        "Not Found"
    } else if status == 500 {
        "Internal Server Error"
    } else {
        "OK"
    }
}

/// The status line and headers for a reply.
pub fn response_head(status: u16, content_type: &str, body_len: usize) -> (s: String)
    ensures
        s@ == reply_head(status, content_type@, body_len as nat),
{
    let mut out = chars_of("HTTP/1.1 ");
    push_all(&mut out, decimal_u64(status as u64).as_slice());
    push_str(&mut out, " ");
    push_str(&mut out, status_text_exec(status));
    push_str(&mut out, "\r\nContent-Type: ");
    push_str(&mut out, content_type);
    push_str(&mut out, "\r\nContent-Length: ");
    push_all(&mut out, decimal_u64(body_len as u64).as_slice());
    push_str(&mut out, "\r\nAccess-Control-Allow-Origin: *\r\nConnection: close\r\n\r\n");
    string_of(out.as_slice())
}


// ---------------------------------------------------------------------------
// Laws
// ---------------------------------------------------------------------------
proof fn lemma_keys_differ()
    ensures
        "model"@ != "input"@,
        "model"@ != "messages"@,
        "model"@ != "stream"@,
        "input"@ != "stream"@,
        "input"@ != "messages"@,
        "messages"@ != "stream"@,
        "id"@ != "object"@,
        "id"@ != "model"@,
        "object"@ != "model"@,
        "output_text"@ != "id"@,
        "output_text"@ != "object"@,
        "output_text"@ != "model"@,
        "output"@ != "id"@,
        "output"@ != "object"@,
        "output"@ != "model"@,
        "output"@ != "output_text"@,
        "choices"@ != "id"@,
        "choices"@ != "object"@,
        "choices"@ != "model"@,
        "role"@ != "content"@,
        "type"@ != "role"@,
        "type"@ != "content"@,
        "type"@ != "text"@,
        "index"@ != "message"@,
{
    reveal_strlit("model");
    reveal_strlit("input");
    reveal_strlit("messages");
    reveal_strlit("stream");
    reveal_strlit("id");
    reveal_strlit("object");
    reveal_strlit("output_text");
    reveal_strlit("output");
    reveal_strlit("choices");
    reveal_strlit("role");
    reveal_strlit("content");
    reveal_strlit("type");
    reveal_strlit("text");
    reveal_strlit("index");
    reveal_strlit("message");
    assert("model"@[0] != "input"@[0]);
    assert("model"@.len() != "messages"@.len());
    assert("model"@.len() != "stream"@.len());
    assert("input"@.len() != "stream"@.len());
    assert("input"@.len() != "messages"@.len());
    assert("messages"@.len() != "stream"@.len());
    assert("id"@.len() != "object"@.len());
    assert("id"@.len() != "model"@.len());
    assert("object"@.len() != "model"@.len());
    assert("output_text"@.len() != "id"@.len());
    assert("output_text"@.len() != "object"@.len());
    assert("output_text"@.len() != "model"@.len());
    assert("output"@[0] != "id"@[0]);
    assert("output"@[1] != "object"@[1]);
    assert("output"@.len() != "model"@.len());
    assert("output"@.len() != "output_text"@.len());
    assert("choices"@.len() != "id"@.len());
    assert("choices"@[0] != "object"@[0]);
    assert("choices"@.len() != "model"@.len());
    assert("role"@.len() != "content"@.len());
    assert("type"@[0] != "role"@[0]);
    assert("type"@.len() != "content"@.len());
    assert("type"@[0] != "text"@[0] || "type"@[1] != "text"@[1]);
    assert("index"@.len() != "message"@.len());
}

/// A chat request sent on as a responses request and turned back keeps its
/// model, its message list and its `stream` flag.
pub proof fn law_chat_request_round_trip(v: JsonView, input_text: Seq<char>)
    requires
        responses_request(v) is Ok,
        field(v, "messages"@) matches Some(JsonView::Array(_)),
    ensures
        chat_request(responses_request(v)->Ok_0, input_text) == Ok::<JsonView, Seq<char>>(
            JsonView::Object(
                seq![("model"@, field(v, "model"@)->0), ("messages"@, field(v, "messages"@)->0)]
                    + stream_part(v),
            ),
        ),
{
    lemma_keys_differ();
    let m = field(v, "model"@)->0;
    let msgs = field(v, "messages"@)->0;
    let ps = seq![("model"@, m), ("input"@, msgs)] + stream_part(v);
    assert(ps[0] == ("model"@, m));
    assert(ps[1] == ("input"@, msgs));
    assert(pair_index(ps, "model"@) == Some(0int));
    assert(ps.drop_first()[0] == ("input"@, msgs));
    assert(pair_index(ps.drop_first(), "input"@) == Some(0int));
    assert(pair_index(ps, "input"@) == Some(1int));
    let o = JsonView::Object(ps);
    assert(field(o, "stream"@) == field(v, "stream"@)) by {
        lemma_pair_index(ps, "stream"@);
        match field(v, "stream"@) {
            Some(sv) => {
                assert(ps[2] == ("stream"@, sv));
                assert(pair_index(ps.drop_first().drop_first(), "stream"@) == Some(0int));
                assert(ps.drop_first().drop_first() == ps.drop_first().drop_first());
            },
            None => {
                assert(ps.len() == 2);
            },
        }
    }
    assert(stream_part(o) == stream_part(v));
}

/// The text of a responses reply survives its rewriting as a chat reply.
pub proof fn law_chat_reply_keeps_text(v: JsonView)
    ensures
        chat_text(chat_reply(v)) == Some(or_empty(responses_text(v))),
{
    lemma_keys_differ();
    let r = chat_reply(v);
    let ps = r->Object_0;
    assert(pair_index(ps, "choices"@) == Some(3int)) by {
        let p1 = ps.drop_first();
        let p2 = p1.drop_first();
        let p3 = p2.drop_first();
        assert(p3[0].0 == "choices"@);
        assert(pair_index(p3, "choices"@) == Some(0int));
        assert(p2[0].0 == "model"@);
        assert(pair_index(p2, "choices"@) == Some(1int));
        assert(p1[0].0 == "object"@);
        assert(pair_index(p1, "choices"@) == Some(2int));
        assert(ps[0].0 == "id"@);
    }
    let choice = first(ps[3].1)->0;
    let cps = choice->Object_0;
    assert(pair_index(cps, "message"@) == Some(1int)) by {
        assert(cps.drop_first()[0].0 == "message"@);
        assert(pair_index(cps.drop_first(), "message"@) == Some(0int));
        assert(cps[0].0 == "index"@);
    }
    let mps = cps[1].1->Object_0;
    assert(pair_index(mps, "content"@) == Some(1int)) by {
        assert(mps.drop_first()[0].0 == "content"@);
        assert(pair_index(mps.drop_first(), "content"@) == Some(0int));
        assert(mps[0].0 == "role"@);
    }
}

/// The text of a chat reply survives its rewriting as a responses reply.
pub proof fn law_responses_reply_keeps_text(v: JsonView)
    ensures
        responses_text(responses_reply(v)) == Some(or_empty(chat_text(v))),
{
    lemma_keys_differ();
    let r = responses_reply(v);
    let ps = r->Object_0;
    assert(pair_index(ps, "output_text"@) == Some(3int)) by {
        let p1 = ps.drop_first();
        let p2 = p1.drop_first();
        let p3 = p2.drop_first();
        assert(p3[0].0 == "output_text"@);
        assert(pair_index(p3, "output_text"@) == Some(0int));
        assert(p2[0].0 == "model"@);
        assert(pair_index(p2, "output_text"@) == Some(1int));
        assert(p1[0].0 == "object"@);
        assert(pair_index(p1, "output_text"@) == Some(2int));
        assert(ps[0].0 == "id"@);
    }
}

/// The message that a responses reply carries holds the reply's text: the
/// text of `output[0].content[0]` is the chat reply's first message content
/// (empty when there is none), the same string as `output_text`.
pub proof fn law_responses_reply_message_holds_the_text(v: JsonView)
    ensures
        and_text(and_field(and_first(and_field(and_first(field(responses_reply(v), "output"@)), "content"@)), "text"@))
            == Some(or_empty(chat_text(v))),
        and_text(and_field(and_first(and_field(and_first(field(responses_reply(v), "output"@)), "content"@)), "text"@))
            == and_text(field(responses_reply(v), "output_text"@)),
{
    lemma_keys_differ();
    law_responses_reply_keeps_text(v);
    let r = responses_reply(v);
    let ps = r->Object_0;
    assert(pair_index(ps, "output"@) == Some(4int)) by {
        let p1 = ps.drop_first();
        let p2 = p1.drop_first();
        let p3 = p2.drop_first();
        let p4 = p3.drop_first();
        assert(p4[0].0 == "output"@);
        assert(pair_index(p4, "output"@) == Some(0int));
        assert(p3[0].0 == "output_text"@);
        assert(pair_index(p3, "output"@) == Some(1int));
        assert(p2[0].0 == "model"@);
        assert(pair_index(p2, "output"@) == Some(2int));
        assert(p1[0].0 == "object"@);
        assert(pair_index(p1, "output"@) == Some(3int));
        assert(ps[0].0 == "id"@);
    }
    assert(pair_index(ps, "output_text"@) == Some(3int)) by {
        let p1 = ps.drop_first();
        let p2 = p1.drop_first();
        let p3 = p2.drop_first();
        assert(p3[0].0 == "output_text"@);
        assert(pair_index(p3, "output_text"@) == Some(0int));
        assert(p2[0].0 == "model"@);
        assert(pair_index(p2, "output_text"@) == Some(1int));
        assert(p1[0].0 == "object"@);
        assert(pair_index(p1, "output_text"@) == Some(2int));
        assert(ps[0].0 == "id"@);
    }
    let msg = first(ps[4].1)->0;
    let mps = msg->Object_0;
    assert(pair_index(mps, "content"@) == Some(2int)) by {
        let q1 = mps.drop_first();
        let q2 = q1.drop_first();
        assert(q2[0].0 == "content"@);
        assert(pair_index(q2, "content"@) == Some(0int));
        assert(q1[0].0 == "role"@);
        assert(pair_index(q1, "content"@) == Some(1int));
        assert(mps[0].0 == "type"@);
    }
    let part = first(mps[2].1)->0;
    let tps = part->Object_0;
    assert(pair_index(tps, "text"@) == Some(1int)) by {
        assert(tps.drop_first()[0].0 == "text"@);
        assert(pair_index(tps.drop_first(), "text"@) == Some(0int));
        assert(tps[0].0 == "type"@);
    }
}

// ---------------------------------------------------------------------------
// Request and reply bodies
// ---------------------------------------------------------------------------
/// The model a request body names (`extract_model`): its `model` string when
/// the body parses, nothing otherwise.
pub fn extract_model(body: &str) -> (r: Option<String>)
    ensures
        match json_of_text(body@) {
            Ok(v) => match r {
                Some(m) => and_text(field(v, "model"@)) == Some(m@),
                None => and_text(field(v, "model"@)) is None,
            },
            Err(_) => r is None,
        },
{
    match parse_json_text(body) {
        Ok(v) => requested_model(&v),
        Err(_) => None,
    }
}

/// A chat completions request body as a Responses request
/// (`convert_chat_to_responses`): the parser's error when the body does not
/// parse, otherwise the conversion.
pub fn chat_body_to_responses(body: &str) -> (r: Result<JsonValue, String>)
    ensures
        match json_of_text(body@) {
            Err(e) => r matches Err(x) && x@ == e,
            Ok(v) => match r {
                Ok(x) => responses_request(v) == Ok::<JsonView, Seq<char>>(view_of(x)),
                Err(e) => responses_request(v) == Err::<JsonView, Seq<char>>(e@),
            },
        },
{
    match parse_json_text(body) {
        Ok(v) => chat_request_to_responses(v),
        Err(e) => Err(e),
    }
}

/// A Responses request body as a chat completions request
/// (`convert_responses_to_chat`), with `input_text` the JSON text of its
/// `input`: the parser's error when the body does not parse, otherwise the
/// conversion.
pub fn responses_body_to_chat(body: &str, input_text: String) -> (r: Result<JsonValue, String>)
    ensures
        match json_of_text(body@) {
            Err(e) => r matches Err(x) && x@ == e,
            Ok(v) => match r {
                Ok(x) => chat_request(v, input_text@) == Ok::<JsonView, Seq<char>>(view_of(x)),
                Err(e) => chat_request(v, input_text@) == Err::<JsonView, Seq<char>>(e@),
            },
        },
{
    match parse_json_text(body) {
        Ok(v) => responses_request_to_chat(v, input_text),
        Err(e) => Err(e),
    }
}

/// An upstream Responses reply rewritten for a chat client
/// (`convert_responses_response_to_chat`): the new body when the reply is a
/// successful JSON reply that parses; nothing when it is passed on as it is.
pub fn responses_reply_body_to_chat(status: u16, content_type: &str, body: &str) -> (r: Option<JsonValue>)
    ensures
        match r {
            Some(x) => rewrites_reply(status, content_type@) && (json_of_text(body@) matches Ok(v)
                && view_of(x) == chat_reply(v)),
            None => !rewrites_reply(status, content_type@) || json_of_text(body@) is Err,
        },
{
    if !reply_is_rewritten(status, content_type) {
        return None;
    }
    match parse_json_text(body) {
        Ok(v) => Some(responses_reply_to_chat(v)),
        Err(_) => None,
    }
}

/// An upstream chat reply rewritten for a Responses client
/// (`convert_chat_response_to_responses`): the new body when the reply is a
/// successful JSON reply that parses; nothing when it is passed on as it is.
pub fn chat_reply_body_to_responses(status: u16, content_type: &str, body: &str) -> (r: Option<JsonValue>)
    ensures
        match r {
            Some(x) => rewrites_reply(status, content_type@) && (json_of_text(body@) matches Ok(v)
                && view_of(x) == responses_reply(v)),
            None => !rewrites_reply(status, content_type@) || json_of_text(body@) is Err,
        },
{
    if !reply_is_rewritten(status, content_type) {
        return None;
    }
    match parse_json_text(body) {
        Ok(v) => Some(chat_reply_to_responses(v)),
        Err(_) => None,
    }
}

} // verus!

//! A plain model of JSON values, as the daemon sends them.

use vstd::prelude::*;

verus! {

/// A JSON number: its value when it is a non-negative integer that fits in
/// `u64`, and its text.
#[derive(Debug, Clone, PartialEq, Eq)]
pub struct JsonNumber {
    pub unsigned: Option<u64>,
    pub text: String,
}

/// A JSON value. Object members keep the order they were given in.
#[derive(Debug, PartialEq, Eq)]
pub enum Json {
    Null,
    Bool(bool),
    Number(JsonNumber),
    String(String),
    Array(Vec<Json>),
    Object(Vec<(String, Json)>),
}

/// Position of the first member named `key`, or -1.
pub open spec fn member_index(ms: Seq<(String, Json)>, key: Seq<char>, from: int) -> int
    decreases ms.len() - from,
{
    if from < 0 || from >= ms.len() {
        -1
    } else if ms[from].0@ == key {
        from
    } else {
        member_index(ms, key, from + 1)
    }
}

/// The member `key` of an object (`None` for other values or a missing key).
pub open spec fn json_get(v: Json, key: Seq<char>) -> Option<Json> {
    match v {
        Json::Object(ms) => {
            let i = member_index(ms@, key, 0);
            if 0 <= i < ms@.len() { Some(ms@[i].1) } else { None }
        },
        _ => None,
    }
}

/// The text of a JSON string.
pub open spec fn json_str(v: Option<Json>) -> Option<Seq<char>> {
    match v {
        Some(Json::String(s)) => Some(s@),
        _ => None,
    }
}

/// The value of a non-negative integer that fits in `u64`.
pub open spec fn json_u64(v: Option<Json>) -> Option<u64> {
    match v {
        Some(Json::Number(n)) => n.unsigned,
        _ => None,
    }
}

/// The value of a JSON boolean.
pub open spec fn json_bool(v: Option<Json>) -> Option<bool> {
    match v {
        Some(Json::Bool(b)) => Some(b),
        _ => None,
    }
}

proof fn lemma_member_index(ms: Seq<(String, Json)>, key: Seq<char>, from: int)
    ensures
        -1 <= member_index(ms, key, from) < ms.len(),
        member_index(ms, key, from) >= 0 ==> ms[member_index(ms, key, from)].0@ == key,
    decreases ms.len() - from,
{
    if 0 <= from < ms.len() && ms[from].0@ != key {
        lemma_member_index(ms, key, from + 1);
    }
}

impl Json {
    /// The member `key` of an object.
    pub fn get(&self, key: &str) -> (r: Option<&Json>)
        ensures
            match r {
                Some(x) => json_get(*self, key@) == Some(*x),
                None => json_get(*self, key@) is None,
            },
    {
        match self {
            Json::Object(ms) => {
                let k = String::from_str(key);
                let n = ms.len();
                let ghost expected = json_get(*self, key@);
                assert(expected == (if 0 <= member_index(ms@, key@, 0) < ms@.len() {
                    Some(ms@[member_index(ms@, key@, 0)].1)
                } else {
                    None
                }));
                let mut i: usize = 0;
                while i < n
                    invariant
                        n == ms@.len(),
                        i <= n,
                        k@ == key@,
                        member_index(ms@, key@, 0) == member_index(ms@, key@, i as int),
                        expected == json_get(*self, key@),
                        expected == (if 0 <= member_index(ms@, key@, 0) < ms@.len() {
                            Some(ms@[member_index(ms@, key@, 0)].1)
                        } else {
                            None
                        }),
                    decreases n - i,
                {
                    if ms[i].0 == k {
                        assert(ms@[i as int].0@ == key@);
                        assert(member_index(ms@, key@, i as int) == i);
                        return Some(&ms[i].1);
                    }
                    i = i + 1;
                }
                proof { lemma_member_index(ms@, key@, 0); }
                None
            },
            _ => None,
        }
    }

    /// The text of a string value.
    pub fn as_str(&self) -> (r: Option<&str>)
        ensures
            match r {
                Some(s) => json_str(Some(*self)) == Some(s@),
                None => json_str(Some(*self)) is None,
            },
    {
        match self {
            Json::String(s) => Some(s.as_str()),
            _ => None,
        }
    }

    /// The value of a non-negative integer that fits in `u64`.
    pub fn as_u64(&self) -> (r: Option<u64>)
        ensures
            r == json_u64(Some(*self)),
    {
        match self {
            Json::Number(n) => n.unsigned,
            _ => None,
        }
    }

    /// The value of a boolean.
    pub fn as_bool(&self) -> (r: Option<bool>)
        ensures
            r == json_bool(Some(*self)),
    {
        match self {
            Json::Bool(b) => Some(*b),
            _ => None,
        }
    }

    /// The elements of an array.
    pub fn as_array(&self) -> (r: Option<&Vec<Json>>)
        ensures
            match *self {
                Json::Array(v) => r == Some(&v),
                _ => r is None,
            },
    {
        match self {
            Json::Array(v) => Some(v),
            _ => None,
        }
    }
}

/// The text of a member that is a string.
pub fn get_str<'a>(v: &'a Json, key: &str) -> (r: Option<&'a str>)
    ensures
        match r {
            Some(s) => json_str(json_get(*v, key@)) == Some(s@),
            None => json_str(json_get(*v, key@)) is None,
        },
{
    match v.get(key) {
        Some(x) => x.as_str(),
        None => None,
    }
}

/// The value of a member that is a non-negative integer.
pub fn get_u64(v: &Json, key: &str) -> (r: Option<u64>)
    ensures
        r == json_u64(json_get(*v, key@)),
{
    match v.get(key) {
        Some(x) => x.as_u64(),
        None => None,
    }
}

/// The value of a member that is a boolean.
pub fn get_bool(v: &Json, key: &str) -> (r: Option<bool>)
    ensures
        r == json_bool(json_get(*v, key@)),
{
    match v.get(key) {
        Some(x) => x.as_bool(),
        None => None,
    }
}

/// The member `key` when it is a string.
pub open spec fn str_member(j: Json, key: Seq<char>) -> Option<String> {
    match json_get(j, key) {
        Some(Json::String(s)) => Some(s),
        _ => None,
    }
}

/// An optional string: absent or null is `Some(None)`, a string is
/// `Some(Some(..))`, anything else is refused (`None`).
pub open spec fn optional_string(v: Option<Json>) -> Option<Option<String>> {
    match v {
        None => Some(None),
        Some(Json::Null) => Some(None),
        Some(Json::String(s)) => Some(Some(s)),
        _ => None,
    }
}

/// An optional `u32`: absent or null is `Some(None)`, a non-negative
/// integer up to `u32::MAX` is `Some(Some(..))`, anything else is refused.
pub open spec fn optional_u32(v: Option<Json>) -> Option<Option<u32>> {
    match v {
        None => Some(None),
        Some(Json::Null) => Some(None),
        Some(Json::Number(n)) => match n.unsigned {
            Some(u) => if u <= u32::MAX { Some(Some(u as u32)) } else { None },
            None => None,
        },
        _ => None,
    }
}

/// A JSON value is a list of strings whose texts are `out`.
pub open spec fn string_list(v: Json, out: Seq<String>) -> bool {
    match v {
        Json::Array(items) => items@.len() == out.len() && forall|i: int|
            0 <= i < out.len() ==> (#[trigger] items@[i]) == Json::String(out[i]),
        _ => false,
    }
}

/// A JSON value is a list of strings.
pub open spec fn is_string_list(v: Json) -> bool {
    match v {
        Json::Array(items) => forall|i: int| 0 <= i < items@.len() ==> (#[trigger] items@[i]) is String,
        _ => false,
    }
}

/// Clones the member `key` when it is a string.
pub fn string_member(j: &Json, key: &str) -> (r: Option<String>)
    ensures
        r == str_member(*j, key@),
{
    match j.get(key) {
        Some(Json::String(s)) => Some(s.clone()),
        _ => None,
    }
}

/// Reads an optional string member.
pub fn optional_string_member(j: &Json, key: &str) -> (r: Option<Option<String>>)
    ensures
        r == optional_string(json_get(*j, key@)),
{
    match j.get(key) {
        None => Some(None),
        Some(Json::Null) => Some(None),
        Some(Json::String(s)) => Some(Some(s.clone())),
        Some(_) => None,
    }
}

/// Reads an optional `u32` member.
pub fn optional_u32_member(j: &Json, key: &str) -> (r: Option<Option<u32>>)
    ensures
        r == optional_u32(json_get(*j, key@)),
{
    match j.get(key) {
        None => Some(None),
        Some(Json::Null) => Some(None),
        Some(Json::Number(n)) => match n.unsigned {
            Some(u) => if u <= 0xffff_ffffu64 { Some(Some(u as u32)) } else { None },
            None => None,
        },
        Some(_) => None,
    }
}

/// Clones a list of strings (`None` if the value is not one).
pub fn string_list_of(v: &Json) -> (r: Option<Vec<String>>)
    ensures
        match r {
            Some(out) => string_list(*v, out@),
            None => !is_string_list(*v),
        },
{
    match v {
        Json::Array(items) => {
            let mut out: Vec<String> = Vec::new();
            let mut i: usize = 0;
            while i < items.len()
                invariant
                    *v == Json::Array(*items),
                    i <= items@.len(),
                    out@.len() == i,
                    forall|k: int| 0 <= k < i ==> (#[trigger] items@[k]) == Json::String(out@[k]),
                decreases items@.len() - i,
            {
                match &items[i] {
                    Json::String(s) => out.push(s.clone()),
                    _ => {
                        return None;
                    },
                }
                i = i + 1;
            }
            Some(out)
        },
        _ => None,
    }
}

/// The member `key` of an object, taken out of it.
pub fn into_member(j: Json, key: &str) -> (r: Option<Json>)
    ensures
        r == json_get(j, key@),
{
    let ghost g = j;
    assert(g == j);
    match j {
        Json::Object(mut ms) => {
            let k = String::from_str(key);
            let n = ms.len();
            let mut i: usize = 0;
            while i < n
                invariant
                    g == j,
                    g == Json::Object(ms),
                    n == ms@.len(),
                    i <= n,
                    k@ == key@,
                    member_index(ms@, key@, 0) == member_index(ms@, key@, i as int),
                decreases n - i,
            {
                if ms[i].0 == k {
                    assert(member_index(ms@, key@, i as int) == i);
                    let ghost before = ms@;
                    assert(json_get(g, key@) == Some(before[i as int].1));
                    let (_, v) = ms.remove(i);
                    assert(v == before[i as int].1);
                    assert(Some(v) == json_get(g, key@));
                    return Some(v);
                }
                i = i + 1;
            }
            proof { lemma_member_index(ms@, key@, 0); }
            None
        },
        _ => None,
    }
}

/// The elements of an array, taken out of it.
pub fn into_array(j: Json) -> (r: Option<Vec<Json>>)
    ensures
        match j {
            Json::Array(v) => r == Some(v),
            _ => r is None,
        },
{
    match j {
        Json::Array(v) => Some(v),
        _ => None,
    }
}

#[verifier::external_type_specification]
#[verifier::external_body]
pub struct ExJsonValue(serde_json::Value);

/// The same value in the library's model: object members in the order in
/// which `serde_json` iterates them, numbers with their `as_u64` reading
/// and their printed text. Only `read_json` calls it.
#[verifier::external_body]
fn json_from_value(v: serde_json::Value) -> Json {
    match v {
        serde_json::Value::Null => Json::Null,
        serde_json::Value::Bool(b) => Json::Bool(b),
        serde_json::Value::Number(n) => Json::Number(JsonNumber { unsigned: n.as_u64(), text: n.to_string() }),
        serde_json::Value::String(s) => Json::String(s),
        serde_json::Value::Array(a) => Json::Array(a.into_iter().map(json_from_value).collect()),
        serde_json::Value::Object(m) => Json::Object(m.into_iter().map(|(k, x)| (k, json_from_value(x))).collect()),
    }
}

/// What `serde_json` reads from a JSON text (`None` where it refuses it).
pub uninterp spec fn json_text(text: Seq<char>) -> Option<Json>;

/// Reads a JSON text with `serde_json::from_str` into a `serde_json::Value`
/// and converts it. The contract only names the result: it depends on the
/// text alone.
#[verifier::external_body]
pub(crate) fn read_json(text: &str) -> (r: Option<Json>)
    ensures
        r == json_text(text@),
{
    match serde_json::from_str::<serde_json::Value>(text) {
        Ok(v) => Some(json_from_value(v)),
        Err(_) => None,
    }
}

/// The same value as a `serde_json::Value`. Only `print_json` calls it.
#[verifier::external_body]
fn value_from_json(j: &Json) -> serde_json::Value {
    match j {
        Json::Null => serde_json::Value::Null,
        Json::Bool(b) => serde_json::Value::Bool(*b),
        Json::Number(n) => match n.text.parse::<serde_json::Number>() {
            Ok(x) => serde_json::Value::Number(x),
            Err(_) => serde_json::Value::Null,
        },
        Json::String(s) => serde_json::Value::String(s.clone()),
        Json::Array(a) => serde_json::Value::Array(a.iter().map(value_from_json).collect()),
        Json::Object(m) => serde_json::Value::Object(m.iter().map(|(k, x)| (k.clone(), value_from_json(x))).collect()),
    }
}

/// The compact JSON text `serde_json` prints for a value.
pub uninterp spec fn json_display(j: Json) -> Seq<char>;

/// Prints a value as compact JSON with `serde_json` (its `Display`). The
/// contract only names the result: it depends on the value alone.
#[verifier::external_body]
pub(crate) fn print_json(j: &Json) -> (r: String)
    ensures
        r@ == json_display(*j),
{
    value_from_json(j).to_string()
}

} // verus!

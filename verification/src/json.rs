//! A JSON document model: what the tools read out of JSON values.
//!
//! Numbers are kept as the text `serde_json` prints for them, so a value can
//! be carried through unchanged; objects are key/value lists whose keys are
//! distinct (as in a JSON map).

use vstd::prelude::*;
use crate::text::{chars_eq, chars_of};
use serde_json::Value;

verus! {

/// A JSON value.
pub enum Json {
    Null,
    Bool(bool),
    /// A number, as the decimal text `serde_json` prints for it.
    Number(String),
    Str(String),
    Array(Vec<Json>),
    Object(Vec<(String, Json)>),
}

/// The value stored under `key` in an object's entries (first match).
pub open spec fn entries_get(entries: Seq<(String, Json)>, key: Seq<char>) -> Option<Json>
    decreases entries.len(),
{
    if entries.len() == 0 {
        None
    } else if entries[0].0@ == key {
        Some(entries[0].1)
    } else {
        entries_get(entries.drop_first(), key)
    }
}

/// Whether `key` is one of the entries' keys.
pub open spec fn entries_has(entries: Seq<(String, Json)>, key: Seq<char>) -> bool {
    exists|i: int| 0 <= i < entries.len() && #[trigger] entries[i].0@ == key
}

/// The keys of an object's entries are pairwise distinct.
pub open spec fn keys_distinct(entries: Seq<(String, Json)>) -> bool {
    forall|i: int, j: int|
        0 <= i < entries.len() && 0 <= j < entries.len() && i != j ==> #[trigger] entries[i].0@
            != #[trigger] entries[j].0@
}

/// `value.get(key)` for objects; `None` for anything else.
pub open spec fn json_get(v: Json, key: Seq<char>) -> Option<Json> {
    match v {
        Json::Object(es) => entries_get(es@, key),
        _ => None,
    }
}

/// `value.as_str()`.
pub open spec fn json_str(v: Option<Json>) -> Option<Seq<char>> {
    match v {
        Some(Json::Str(s)) => Some(s@),
        _ => None,
    }
}

/// The string stored under `key`, if `v` is an object holding a string there.
pub open spec fn str_field(v: Json, key: Seq<char>) -> Option<Seq<char>> {
    json_str(json_get(v, key))
}

impl Json {
    /// `value.get(key)`: the entry `key` of an object.
    pub fn get(&self, key: &str) -> (r: Option<&Json>)
        ensures
            match r {
                Some(x) => json_get(*self, key@) == Some(*x),
                None => json_get(*self, key@) is None,
            },
    {
        match self {
            Json::Object(es) => {
                let k = chars_of(key);
                let mut i: usize = 0;
                proof {
                    assert(es@.skip(0) =~= es@);
                }
                while i < es.len()
                    invariant
                        i <= es@.len(),
                        entries_get(es@, key@) == entries_get(es@.skip(i as int), key@),
                        k@ == key@,
                        json_get(*self, key@) == entries_get(es@, key@),
                    decreases es.len() - i,
                {
                    let ek = chars_of(es[i].0.as_str());
                    proof {
                        assert(es@.skip(i as int)[0] == es@[i as int]);
                        assert(es@.skip(i as int).drop_first() =~= es@.skip(i + 1));
                    }
                    if chars_eq(ek.as_slice(), k.as_slice()) {
                        proof {
                            assert(es@.skip(i as int)[0].0@ == key@);
                            assert(entries_get(es@.skip(i as int), key@) == Some(es@[i as int].1));
                        }
                        return Some(&es[i].1);
                    }
                    i += 1;
                }
                None
            },
            _ => None,
        }
    }

    /// `value.as_str()`.
    pub fn as_str(&self) -> (r: Option<&str>)
        ensures
            match r {
                Some(s) => json_str(Some(*self)) == Some(s@),
                None => json_str(Some(*self)) is None,
            },
    {
        match self {
            Json::Str(s) => Some(s.as_str()),
            _ => None,
        }
    }

    /// `value.is_null()`.
    pub fn is_null(&self) -> (r: bool)
        ensures
            r == (*self is Null),
    {
        match self {
            Json::Null => true,
            _ => false,
        }
    }
}

/// A `serde_json` value.
#[verifier::external_type_specification]
#[verifier::external_body]
pub struct ExValue(Value);

/// What `serde_json` reads from a JSON text: the value, or `None` when the
/// text is not JSON.
pub uninterp spec fn json_parse(text: Seq<char>) -> Option<Json>;

/// The compact JSON text `serde_json` writes for a value.
pub uninterp spec fn json_print(v: Json) -> Seq<char>;

/// Converts a `serde_json` value, variant by variant.
#[verifier::external_body]
fn json_of(v: &Value) -> Json {
    match v {
        Value::Null => Json::Null,
        Value::Bool(b) => Json::Bool(*b),
        Value::Number(n) => Json::Number(n.to_string()),
        Value::String(s) => Json::Str(s.clone()),
        Value::Array(a) => Json::Array(a.iter().map(json_of).collect()),
        Value::Object(o) => Json::Object(o.iter().map(|(k, x)| (k.clone(), json_of(x))).collect()),
    }
}

/// Converts to a `serde_json` value, variant by variant (a number's text is
/// read back as the number `serde_json` printed).
#[verifier::external_body]
fn value_of(j: &Json) -> Value {
    match j {
        Json::Null => Value::Null,
        Json::Bool(b) => Value::Bool(*b),
        Json::Number(n) => n.parse::<serde_json::Number>().map(Value::Number).unwrap_or(Value::Null),
        Json::Str(s) => Value::String(s.clone()),
        Json::Array(a) => Value::Array(a.iter().map(value_of).collect()),
        Json::Object(o) => Value::Object(o.iter().map(|(k, x)| (k.clone(), value_of(x))).collect()),
    }
}

/// `serde_json::from_str` into a `serde_json::Value`: the value of a JSON
/// text, or `None` when it is not JSON. The contract names the result.
#[verifier::external_body]
pub fn parse_json(text: &str) -> (r: Option<Json>)
    ensures
        r == json_parse(text@),
{
    serde_json::from_str::<Value>(text).ok().map(|v| json_of(&v))
}

/// `serde_json::to_string` of a value. Writing a `serde_json::Value` cannot
/// fail (its object keys are strings), so the empty fallback is never taken.
/// The contract names the result.
#[verifier::external_body]
pub fn print_json(v: &Json) -> (r: String)
    ensures
        r@ == json_print(*v),
{
    serde_json::to_string(&value_of(v)).unwrap_or_default()
}

} // verus!

//! JSON as `forge` prints it, parsed by serde_json and held as plain values.
use vstd::prelude::*;

verus! {

/// A JSON value. Numbers are kept without their value, which nothing here reads;
/// an object keeps its members in the order serde_json's map gives them.
#[derive(Debug)]
pub enum JsonValue {
    Null,
    Bool(bool),
    Number,
    Str(String),
    Array(Vec<JsonValue>),
    Object(Vec<(String, JsonValue)>),
}

/// What `serde_json::from_str::<serde_json::Value>` gives for a whole text: the
/// value (converted to a `JsonValue`), or the error's message.
pub uninterp spec fn spec_json_from_str(s: Seq<char>) -> Result<JsonValue, Seq<char>>;

/// What `serde_json::Value::deserialize` on a `serde_json::Deserializer` over `s`
/// gives: the first JSON value of the text, whatever follows it, or the error's
/// message.
pub uninterp spec fn spec_json_first_value(s: Seq<char>) -> Result<JsonValue, Seq<char>>;

/// Converts a `serde_json::Value` into a `JsonValue`, variant for variant and
/// member for member, in the order the value's map iterates. Nothing is stated:
/// the callers' contracts name the composed result.
#[verifier::external_body]
fn json_value_of(v: serde_json::Value) -> JsonValue {
    match v {
        serde_json::Value::Null => JsonValue::Null,
        serde_json::Value::Bool(b) => JsonValue::Bool(b),
        serde_json::Value::Number(_) => JsonValue::Number,
        serde_json::Value::String(s) => JsonValue::Str(s),
        serde_json::Value::Array(a) => JsonValue::Array(a.into_iter().map(json_value_of).collect()),
        serde_json::Value::Object(m) => JsonValue::Object(
            m.into_iter().map(|(k, x)| (k, json_value_of(x))).collect(),
        ),
    }
}

/// Parses a whole text with `serde_json::from_str::<serde_json::Value>` (which
/// refuses anything but whitespace after the value). The contract names the
/// result as a function of the text.
#[verifier::external_body]
pub(crate) fn json_from_str(s: &str) -> (r: Result<JsonValue, String>)
    ensures
        match r {
            Ok(v) => spec_json_from_str(s@) == Ok::<JsonValue, Seq<char>>(v),
            Err(e) => spec_json_from_str(s@) == Err::<JsonValue, Seq<char>>(e@),
        },
{
    match serde_json::from_str::<serde_json::Value>(s) {
        Ok(v) => Ok(json_value_of(v)),
        Err(e) => Err(e.to_string()),
    }
}

/// Parses the first JSON value of a text with `serde_json::Value::deserialize` on
/// `serde_json::Deserializer::from_str`, ignoring what follows it. The contract
/// names the result as a function of the text.
#[verifier::external_body]
pub(crate) fn json_first_value(s: &str) -> (r: Result<JsonValue, String>)
    ensures
        match r {
            Ok(v) => spec_json_first_value(s@) == Ok::<JsonValue, Seq<char>>(v),
            Err(e) => spec_json_first_value(s@) == Err::<JsonValue, Seq<char>>(e@),
        },
{
    let mut de = serde_json::Deserializer::from_str(s);
    match <serde_json::Value as serde::Deserialize>::deserialize(&mut de) {
        Ok(v) => Ok(json_value_of(v)),
        Err(e) => Err(e.to_string()),
    }
}

/// Index of the first member of `es`, from the `i`-th on, named `key`, or -1.
pub open spec fn member_index(es: Seq<(String, JsonValue)>, key: Seq<char>, i: int) -> int
    decreases es.len() - i,
{
    if i < 0 || i >= es.len() {
        -1
    } else if es[i].0@ == key {
        i
    } else {
        member_index(es, key, i + 1)
    }
}

/// `serde_json::Value::get(key)`: the member `key` of an object; `None` for a
/// missing member or a value that is not an object.
pub open spec fn json_get(v: JsonValue, key: Seq<char>) -> Option<JsonValue> {
    match v {
        JsonValue::Object(es) => {
            let k = member_index(es@, key, 0);
            if k >= 0 {
                Some(es@[k].1)
            } else {
                None
            }
        },
        _ => None,
    }
}

/// The member `key` of `v`, when `v` is an object that has one.
pub fn get<'a>(v: &'a JsonValue, key: &str) -> (r: Option<&'a JsonValue>)
    ensures
        match r {
            Some(x) => json_get(*v, key@) == Some(*x),
            None => json_get(*v, key@) is None,
        },
{
    match v {
        JsonValue::Object(es) => {
            let ghost k = member_index(es@, key@, 0);
            assert(json_get(*v, key@) == (if k >= 0 {
                Some(es@[k].1)
            } else {
                None::<JsonValue>
            }));
            let mut i: usize = 0;
            while i < es.len()
                invariant
                    i <= es.len(),
                    k == member_index(es@, key@, 0),
                    json_get(*v, key@) == (if k >= 0 {
                        Some(es@[k].1)
                    } else {
                        None::<JsonValue>
                    }),
                    member_index(es@, key@, 0) == member_index(es@, key@, i as int),
                decreases es.len() - i,
            {
                if crate::text::str_equal(es[i].0.as_str(), key) {
                    return Some(&es[i].1);
                }
                i += 1;
            }
            None
        },
        _ => None,
    }
}

} // verus!

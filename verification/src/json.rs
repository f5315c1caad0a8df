//! A JSON document as the library reads it. Numbers keep only what the
//! logic reads of them: their value when it is an `i64`.
use vstd::prelude::*;

use crate::text::chars_eq;

verus! {

broadcast use vstd::string::group_string_axioms;

/// A JSON value. An object keeps its members in order; a value decoded
/// from JSON text has no two members with the same key.
pub enum JsonValue {
    Null,
    Bool(bool),
    /// A number, with its value when that is an integer in the `i64` range
    /// (`None` for fractions and larger integers).
    Number(Option<i64>),
    String(String),
    Array(Vec<JsonValue>),
    Object(Vec<(String, JsonValue)>),
}

/// The value of the first member of `fs` whose key is `key`.
pub open spec fn member_lookup(fs: Seq<(String, JsonValue)>, key: Seq<char>) -> Option<JsonValue>
    decreases fs.len(),
{
    if fs.len() == 0 {
        None
    } else if fs[0].0@ == key {
        Some(fs[0].1)
    } else {
        member_lookup(fs.drop_first(), key)
    }
}

/// `Value::get(key)`: the member `key` of an object; `None` for anything
/// else.
pub open spec fn json_get(v: JsonValue, key: Seq<char>) -> Option<JsonValue> {
    match v {
        JsonValue::Object(fs) => member_lookup(fs@, key),
        _ => None,
    }
}

/// `Value::get(key)` on an optional value.
pub open spec fn json_get_opt(v: Option<JsonValue>, key: Seq<char>) -> Option<JsonValue> {
    match v {
        Some(x) => json_get(x, key),
        None => None,
    }
}

/// `Value::as_i64`.
pub open spec fn json_i64(v: Option<JsonValue>) -> Option<i64> {
    match v {
        Some(JsonValue::Number(n)) => n,
        _ => None,
    }
}

/// `Value::as_str`, as characters.
pub open spec fn json_str(v: Option<JsonValue>) -> Option<Seq<char>> {
    match v {
        Some(JsonValue::String(s)) => Some(s@),
        _ => None,
    }
}

/// `Value::as_array`.
pub open spec fn json_array(v: Option<JsonValue>) -> Option<Seq<JsonValue>> {
    match v {
        Some(JsonValue::Array(a)) => Some(a@),
        _ => None,
    }
}

/// `Value::as_object`.
pub open spec fn json_object(v: Option<JsonValue>) -> Option<Seq<(String, JsonValue)>> {
    match v {
        Some(JsonValue::Object(fs)) => Some(fs@),
        _ => None,
    }
}

/// Executable [`json_get`].
pub fn get<'a>(v: &'a JsonValue, key: &Vec<char>) -> (r: Option<&'a JsonValue>)
    ensures
        match r {
            Some(x) => json_get(*v, key@) == Some(*x),
            None => json_get(*v, key@) is None,
        },
{
    match v {
        JsonValue::Object(fs) => {
            let mut i: usize = 0;
            assert(fs@.skip(0) =~= fs@);
            while i < fs.len()
                invariant
                    0 <= i <= fs@.len(),
                    json_get(*v, key@) == member_lookup(fs@, key@),
                    member_lookup(fs@, key@) == member_lookup(fs@.skip(i as int), key@),
                decreases fs.len() - i,
            {
                let k = crate::text::chars_of(fs[i].0.as_str());
                assert(fs@.skip(i as int).drop_first() =~= fs@.skip(i + 1));
                assert(fs@.skip(i as int)[0] == fs@[i as int]);
                if chars_eq(&k, key) {
                    assert(fs@.skip(i as int)[0].0@ == key@);
                    assert(member_lookup(fs@.skip(i as int), key@) == Some(fs@[i as int].1));
                    return Some(&fs[i].1);
                }
                i = i + 1;
            }
            None
        },
        _ => None,
    }
}

/// A borrowed optional value, as a value.
pub open spec fn opt_ref(v: Option<&JsonValue>) -> Option<JsonValue> {
    match v {
        Some(x) => Some(*x),
        None => None,
    }
}

/// Executable [`json_get_opt`].
pub fn get_opt<'a>(v: Option<&'a JsonValue>, key: &Vec<char>) -> (r: Option<&'a JsonValue>)
    ensures
        match r {
            Some(x) => json_get_opt(opt_ref(v), key@) == Some(*x),
            None => json_get_opt(opt_ref(v), key@) is None,
        },
{
    match v {
        Some(x) => get(x, key),
        None => None,
    }
}

/// Executable [`json_i64`].
pub fn as_i64(v: Option<&JsonValue>) -> (r: Option<i64>)
    ensures
        r == json_i64(opt_ref(v)),
{
    match v {
        Some(JsonValue::Number(n)) => *n,
        _ => None,
    }
}

/// Executable [`json_str`].
pub fn as_str<'a>(v: Option<&'a JsonValue>) -> (r: Option<&'a String>)
    ensures
        match r {
            Some(s) => json_str(opt_ref(v)) == Some(s@),
            None => json_str(opt_ref(v)) is None,
        },
{
    match v {
        Some(JsonValue::String(s)) => Some(s),
        _ => None,
    }
}

/// Executable [`json_array`].
pub fn as_array<'a>(v: Option<&'a JsonValue>) -> (r: Option<&'a Vec<JsonValue>>)
    ensures
        match r {
            Some(a) => json_array(opt_ref(v)) == Some(a@),
            None => json_array(opt_ref(v)) is None,
        },
{
    match v {
        Some(JsonValue::Array(a)) => Some(a),
        _ => None,
    }
}

/// Executable [`json_object`].
pub fn as_object<'a>(v: Option<&'a JsonValue>) -> (r: Option<&'a Vec<(String, JsonValue)>>)
    ensures
        match r {
            Some(fs) => json_object(opt_ref(v)) == Some(fs@),
            None => json_object(opt_ref(v)) is None,
        },
{
    match v {
        Some(JsonValue::Object(fs)) => Some(fs),
        _ => None,
    }
}

} // verus!

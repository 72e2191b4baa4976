//! JSON values as plain data, read and written by serde_json and cosmwasm-std.

use vstd::prelude::*;

verus! {

/// `serde_json::Number`, carried through unread where it holds a float.
#[verifier::external_type_specification]
#[verifier::external_body]
pub struct ExJsonNumber(serde_json::Number);

/// `serde_json::Value`, which only the trusted conversions below touch.
#[verifier::external_type_specification]
#[verifier::external_body]
pub struct ExJsonValue(serde_json::Value);

/// A JSON document. Objects keep their members in the order in which
/// serde_json's map yields them.
#[derive(Debug, PartialEq)]
pub enum Json {
    Null,
    Bool(bool),
    Number(JsonNumber),
    Str(String),
    Array(Vec<Json>),
    Object(Vec<JsonMember>),
}

/// A JSON number as serde_json holds it: a non-negative integer, a negative
/// integer, or a float (any number with a fraction or an exponent, and any
/// integer beyond the 64-bit ranges), the last carried through unread.
#[derive(Debug, PartialEq)]
pub enum JsonNumber {
    PosInt(u64),
    NegInt(i64),
    Float(serde_json::Number),
}

/// One member of a JSON object.
#[derive(Debug, PartialEq)]
pub struct JsonMember {
    pub key: String,
    pub value: Json,
}

/// The document that `serde_json::from_str::<serde_json::Value>` reads from
/// `text`, or `None` where it reports an error.
pub uninterp spec fn json_parse(text: Seq<char>) -> Option<Json>;

/// The bytes that `cosmwasm_std::to_json_binary` writes for `value`, or
/// `None` where it reports an error (it reports none for a value without a
/// float, the only values it is applied to here).
pub uninterp spec fn json_bytes(value: Json) -> Option<Seq<u8>>;

/// Converts a serde_json value into a `Json`, variant by variant: the
/// conversion of `parse_json`'s result, nothing claimed of it on its own.
#[verifier::external_body]
fn json_from_value(v: serde_json::Value) -> Json {
    match v {
        serde_json::Value::Null => Json::Null,
        serde_json::Value::Bool(b) => Json::Bool(b),
        serde_json::Value::Number(n) => Json::Number(json_number(n)),
        serde_json::Value::String(s) => Json::Str(s),
        serde_json::Value::Array(items) => Json::Array(items.into_iter().map(json_from_value).collect()),
        serde_json::Value::Object(map) => Json::Object(
            map.into_iter().map(|(key, value)| JsonMember { key, value: json_from_value(value) }).collect(),
        ),
    }
}

/// Tells a serde_json number's variants apart (integer in `u64`, negative
/// integer in `i64`, float): part of the conversion of `parse_json`'s result.
#[verifier::external_body]
fn json_number(n: serde_json::Number) -> JsonNumber {
    match (n.as_u64(), n.as_i64()) {
        (Some(u), _) => JsonNumber::PosInt(u),
        (None, Some(i)) => JsonNumber::NegInt(i),
        (None, None) => JsonNumber::Float(n),
    }
}

/// Converts a `JsonNumber` back into a serde_json number, variant by variant:
/// part of the conversion of `json_to_binary`'s argument.
#[verifier::external_body]
fn number_value(n: &JsonNumber) -> serde_json::Number {
    match n {
        JsonNumber::PosInt(u) => (*u).into(),
        JsonNumber::NegInt(i) => (*i).into(),
        JsonNumber::Float(f) => f.clone(),
    }
}

/// Converts a `Json` back into a serde_json value, variant by variant: the
/// conversion of `json_to_binary`'s argument, nothing claimed of it on its own.
#[verifier::external_body]
fn value_from_json(j: &Json) -> serde_json::Value {
    match j {
        Json::Null => serde_json::Value::Null,
        Json::Bool(b) => serde_json::Value::Bool(*b),
        Json::Number(n) => serde_json::Value::Number(number_value(n)),
        Json::Str(s) => serde_json::Value::String(s.clone()),
        Json::Array(items) => serde_json::Value::Array(items.iter().map(value_from_json).collect()),
        Json::Object(members) => serde_json::Value::Object(
            members.iter().map(|m| (m.key.clone(), value_from_json(&m.value))).collect(),
        ),
    }
}

/// Parses `text` with `serde_json::from_str` into a `serde_json::Value`.
/// Claimed: the result is `json_parse(text)`, a function of the text alone.
#[verifier::external_body]
pub(crate) fn parse_json(text: &str) -> (r: Option<Json>)
    ensures
        r == json_parse(text@),
{
    serde_json::from_str::<serde_json::Value>(text).ok().map(json_from_value)
}

/// Whether `v` holds a float number anywhere.
pub open spec fn has_float(v: Json) -> bool
    decreases v,
{
    match v {
        Json::Number(JsonNumber::Float(_)) => true,
        Json::Array(items) => exists|i: int| 0 <= i < items@.len() && has_float(#[trigger] items@[i]),
        Json::Object(members) => exists|i: int|
            0 <= i < members@.len() && has_float(#[trigger] members@[i].value),
        _ => false,
    }
}

/// Whether `v` holds a float number anywhere.
#[verifier::loop_isolation(false)]
pub fn json_has_float(v: &Json) -> (r: bool)
    ensures
        r == has_float(*v),
    decreases v,
{
    match v {
        Json::Number(JsonNumber::Float(_)) => true,
        Json::Array(items) => {
            let mut i: usize = 0;
            while i < items.len()
                invariant
                    i <= items@.len(),
                    forall|j: int| 0 <= j < i ==> !has_float(#[trigger] items@[j]),
                decreases items@.len() - i,
            {
                proof {
                    assert(decreases_to!(*v => items@[i as int]));
                }
                if json_has_float(&items[i]) {
                    assert(has_float(items@[i as int]));
                    return true;
                }
                i = i + 1;
            }
            false
        },
        Json::Object(members) => {
            let mut i: usize = 0;
            while i < members.len()
                invariant
                    i <= members@.len(),
                    forall|j: int| 0 <= j < i ==> !has_float(#[trigger] members@[j].value),
                decreases members@.len() - i,
            {
                proof {
                    assert(decreases_to!(*v => members@[i as int].value));
                }
                if json_has_float(&members[i].value) {
                    assert(has_float(members@[i as int].value));
                    return true;
                }
                i = i + 1;
            }
            false
        },
        _ => false,
    }
}

/// Serializes `value` with `cosmwasm_std::to_json_binary`, whose serializer
/// (serde-json-wasm) panics on a float number: those values are left out.
/// Claimed: for every other value of `serde_json::Value` it succeeds (it has
/// no error path for one), and the bytes are `json_bytes(value)`, a function
/// of the value alone.
#[verifier::external_body]
pub(crate) fn json_to_binary(value: &Json) -> (r: Option<Vec<u8>>)
    requires
        !has_float(*value),
    ensures
        r is Some,
        r matches Some(b) ==> json_bytes(*value) == Some(b@),
{
    cosmwasm_std::to_json_binary(&value_from_json(value)).ok().map(|b| b.0)
}

/// `i` is the first member of `members` whose key is `key`.
pub open spec fn is_first_key(members: Seq<JsonMember>, key: Seq<char>, i: int) -> bool {
    &&& 0 <= i < members.len()
    &&& members[i].key@ == key
    &&& forall|j: int| 0 <= j < i ==> members[j].key@ != key
}

/// What `serde_json::Value::get(key)` yields: the member `key` of an object,
/// nothing for any other value.
pub open spec fn json_get(v: Json, key: Seq<char>) -> Option<Json> {
    match v {
        Json::Object(members) => if exists|i: int| is_first_key(members@, key, i) {
            Some(members@[choose|i: int| is_first_key(members@, key, i)].value)
        } else {
            None
        },
        _ => None,
    }
}

/// The string held by `v`, if `v` is a JSON string.
pub open spec fn json_str(v: Option<Json>) -> Option<Seq<char>> {
    match v {
        Some(Json::Str(s)) => Some(s@),
        _ => None,
    }
}

/// Index of the first member of `members` whose key is `key`.
pub fn find_key(members: &Vec<JsonMember>, key: &str) -> (r: Option<usize>)
    ensures
        match r {
            Some(i) => is_first_key(members@, key@, i as int),
            None => forall|i: int| 0 <= i < members@.len() ==> members@[i].key@ != key@,
        },
{
    let k = key.to_owned();
    let mut i: usize = 0;
    while i < members.len()
        invariant
            i <= members@.len(),
            k@ == key@,
            forall|j: int| 0 <= j < i ==> members@[j].key@ != key@,
        decreases members@.len() - i,
    {
        if members[i].key == k {
            return Some(i);
        }
        i = i + 1;
    }
    None
}

/// `serde_json::Value::get`: the member `key` of `v` when `v` is an object.
pub fn get<'a>(v: &'a Json, key: &str) -> (r: Option<&'a Json>)
    ensures
        match r {
            Some(x) => json_get(*v, key@) == Some(*x),
            None => json_get(*v, key@) is None,
        },
{
    match v {
        Json::Object(members) => {
            match find_key(members, key) {
                Some(i) => {
                    proof {
                        let c = choose|j: int| is_first_key(members@, key@, j);
                        assert(c == i as int);
                    }
                    Some(&members[i].value)
                },
                None => None,
            }
        },
        _ => None,
    }
}

/// `serde_json::Value::as_str` on an optional value.
pub fn get_str<'a>(v: Option<&'a Json>) -> (r: Option<&'a String>)
    ensures
        match r {
            Some(s) => json_str(match v { Some(x) => Some(*x), None => None }) == Some(s@),
            None => json_str(match v { Some(x) => Some(*x), None => None }) is None,
        },
{
    match v {
        Some(Json::Str(s)) => Some(s),
        _ => None,
    }
}

} // verus!

//! JSON documents as plain values, read with serde_json, and the lookups
//! the tsconfig reader makes in them.

use vstd::prelude::*;
use crate::text::str_eq;

verus! {

/// A JSON value. Numbers keep their text; an object's members come in the
/// order serde_json's map gives them (sorted by key), each key once.
#[derive(Debug)]
pub enum JsonValue {
    Null,
    Bool(bool),
    Number(String),
    Text(String),
    Array(Vec<JsonValue>),
    Object(Vec<(String, JsonValue)>),
}

/// The document serde_json reads from `text`; none when `text` is not one
/// JSON value.
pub uninterp spec fn json_value(text: Seq<char>) -> Option<JsonValue>;

/// A serde_json value, carried opaquely.
#[verifier::external_type_specification]
#[verifier::external_body]
pub struct ExSerdeJsonValue(serde_json::Value);

/// Copies a serde_json value into a plain one, members in the map's order.
#[verifier::external_body]
fn json_copy(v: &serde_json::Value) -> JsonValue {
    match v {
        serde_json::Value::Null => JsonValue::Null,
        serde_json::Value::Bool(b) => JsonValue::Bool(*b),
        serde_json::Value::Number(n) => JsonValue::Number(n.to_string()),
        serde_json::Value::String(s) => JsonValue::Text(s.clone()),
        serde_json::Value::Array(a) => JsonValue::Array(a.iter().map(json_copy).collect()),
        serde_json::Value::Object(m) => JsonValue::Object(m.iter().map(|(k, x)| (k.clone(), json_copy(x))).collect()),
    }
}

/// serde_json's `from_str` into a `serde_json::Value`, copied into plain
/// values; `None` where it reports an error. Named `json_value`.
#[verifier::external_body]
pub(crate) fn parse_json(text: &str) -> (r: Option<JsonValue>)
    ensures
        r == json_value(text@),
{
    serde_json::from_str::<serde_json::Value>(text).ok().map(|v| json_copy(&v))
}

/// The value of the first member named `key`.
pub open spec fn member_value(members: Seq<(String, JsonValue)>, key: Seq<char>) -> Option<JsonValue>
    decreases members.len(),
{
    if members.len() == 0 {
        None
    } else if members[0].0@ == key {
        Some(members[0].1)
    } else {
        member_value(members.drop_first(), key)
    }
}

/// `value[key]`: the member `key` of an object; nothing for other values.
pub open spec fn json_get(value: JsonValue, key: Seq<char>) -> Option<JsonValue> {
    match value {
        JsonValue::Object(members) => member_value(members@, key),
        _ => None,
    }
}

/// Position of the first member named `key`.
pub fn member_index(members: &Vec<(String, JsonValue)>, key: &str) -> (r: Option<usize>)
    ensures
        match r {
            Some(i) => i < members@.len() && members@[i as int].0@ == key@
                && member_value(members@, key@) == Some(members@[i as int].1),
            None => member_value(members@, key@) is None,
        },
{
    let mut k: usize = 0;
    assert(members@.skip(0) =~= members@);
    while k < members.len()
        invariant
            k <= members@.len(),
            member_value(members@, key@) == member_value(members@.skip(k as int), key@),
        decreases members@.len() - k,
    {
        assert(members@.skip(k as int)[0] == members@[k as int]);
        assert(members@.skip(k as int).drop_first() =~= members@.skip(k + 1));
        if str_eq(members[k].0.as_str(), key) {
            return Some(k);
        }
        k = k + 1;
    }
    assert(members@.skip(k as int) =~= Seq::<(String, JsonValue)>::empty());
    None
}

} // verus!

//! The JSON values that operation records are made of.
//!
//! Records are built as `serde_json::Value`. Verus cannot look inside such a
//! value, so this module gives its contents a mathematical model, [`Json`],
//! and states of each constructor it calls which model the result has. Those
//! statements are taken on trust from the `serde_json` source; everything
//! built on them is verified.

use crate::util::as_ints;
use vstd::prelude::*;

verus! {

/// `serde_json::Value`, carried through without a look inside.
#[verifier::external_type_specification]
#[verifier::external_body]
pub struct ExValue(serde_json::Value);

/// `serde_json::Map`, carried through without a look inside.
#[verifier::external_type_specification]
#[verifier::external_body]
#[verifier::reject_recursive_types(K)]
#[verifier::reject_recursive_types(V)]
pub struct ExMap<K, V>(serde_json::Map<K, V>);

/// What a JSON value holds. Only the forms that records use are told apart;
/// any other value is `Other`.
pub enum Json {
    Int(int),
    Text(Seq<char>),
    List(Seq<Json>),
    Object(Map<Seq<char>, Json>),
    Other,
}

/// The contents of a `serde_json::Value`.
pub uninterp spec fn json_of(v: serde_json::Value) -> Json;

/// The entries of a `serde_json::Map`, by key.
pub uninterp spec fn entries_of(m: serde_json::Map<String, serde_json::Value>) -> Map<Seq<char>, Json>;

/// The entries of an object without fields.
pub open spec fn no_entries() -> Map<Seq<char>, Json> {
    Map::empty()
}

/// The JSON list of the given numbers, in order.
pub open spec fn int_list(s: Seq<int>) -> Json {
    Json::List(s.map_values(|n: int| Json::Int(n)))
}

/// `Value::from(usize)`: the number `n`, stored as an unsigned integer.
#[verifier::external_body]
pub(crate) fn json_uint(n: usize) -> (v: serde_json::Value)
    ensures
        json_of(v) == Json::Int(n as int),
{
    serde_json::Value::from(n)
}

/// `Value::from(i32)`: the number `n`, stored as a signed or unsigned
/// integer according to its sign.
#[verifier::external_body]
pub(crate) fn json_int(n: i32) -> (v: serde_json::Value)
    ensures
        json_of(v) == Json::Int(n as int),
{
    serde_json::Value::from(n)
}

/// `Value::from(&str)`: a JSON string with the characters of `s`.
#[verifier::external_body]
pub(crate) fn json_text(s: &str) -> (v: serde_json::Value)
    ensures
        json_of(v) == Json::Text(s@),
{
    serde_json::Value::from(s)
}

/// `Value::from(&[usize])`: a JSON array that holds each number of `s`,
/// converted as `Value::from(usize)` does, in the order of `s`.
#[verifier::external_body]
pub(crate) fn json_uint_list(s: &Vec<usize>) -> (v: serde_json::Value)
    ensures
        json_of(v) == int_list(as_ints(s@)),
{
    serde_json::Value::from(s.as_slice())
}

/// `Map::new`: a map without entries.
#[verifier::external_body]
pub(crate) fn object_new() -> (obj: serde_json::Map<String, serde_json::Value>)
    ensures
        entries_of(obj) == no_entries(),
{
    serde_json::Map::new()
}

/// `Map::insert`: afterwards the map holds `v` under `key`, replacing what
/// was there, and every other entry is as before.
#[verifier::external_body]
pub(crate) fn object_insert(
    m: &mut serde_json::Map<String, serde_json::Value>,
    key: &str,
    v: serde_json::Value,
)
    ensures
        entries_of(*final(m)) == entries_of(*old(m)).insert(key@, json_of(v)),
{
    m.insert(key.to_owned(), v);
}

/// `Value::from(Map)`: a JSON object with the entries of `m`.
#[verifier::external_body]
pub(crate) fn json_object(m: serde_json::Map<String, serde_json::Value>) -> (v: serde_json::Value)
    ensures
        json_of(v) == Json::Object(entries_of(m)),
{
    serde_json::Value::from(m)
}

} // verus!

//! JSON values: what `serde_json`'s types hold, and the calls into it.
//!
//! `serde_json` is used with its default features, so an object is an ordered
//! map from keys to values and holds each key once.

use serde_json::Map as JsonMap;
use serde_json::Value;
use vstd::prelude::*;

verus! {

/// `serde_json::Value`, seen through [`json_of`].
#[verifier::external_type_specification]
#[verifier::external_body]
pub struct ExValue(serde_json::Value);

/// `serde_json::Map`, seen through [`entries_of`].
#[verifier::external_type_specification]
#[verifier::external_body]
#[verifier::reject_recursive_types(K)]
#[verifier::reject_recursive_types(V)]
pub struct ExMap<K, V>(serde_json::Map<K, V>);

/// A JSON value. A number is the text that `serde_json` writes for it.
pub enum Json {
    Null,
    Bool(bool),
    Number(Seq<char>),
    Text(Seq<char>),
    Array(Seq<Json>),
    Object(Map<Seq<char>, Json>),
}

/// What a `serde_json::Value` holds.
pub uninterp spec fn json_of(v: serde_json::Value) -> Json;

/// What a `serde_json::Map` holds under each key.
pub uninterp spec fn entries_of(m: serde_json::Map<String, serde_json::Value>) -> Map<Seq<char>, Json>;

/// What `serde_json::from_str` makes of a text; nothing where the text is no JSON.
pub uninterp spec fn parsed(text: Seq<char>) -> Option<Json>;

/// What `serde_json::to_string_pretty` makes of a value: the text, or the message of its error.
pub uninterp spec fn pretty(j: Json) -> Result<Seq<char>, Seq<char>>;

/// The value under a key of an object; nothing of any other value.
pub open spec fn field(j: Json, key: Seq<char>) -> Option<Json> {
    match j {
        Json::Object(m) => if m.dom().contains(key) {
            Some(m[key])
        } else {
            None
        },
        _ => None,
    }
}

/// The entries of an empty object.
pub open spec fn no_entries() -> Map<Seq<char>, Json> {
    Map::empty()
}

/// The texts of the two floating-point zeros, which are equal.
pub open spec fn is_zero(number: Seq<char>) -> bool {
    number == "0.0"@ || number == "-0.0"@
}

/// The equality of `serde_json::Value`: the same shape with the same contents.
pub open spec fn same_json(a: Json, b: Json) -> bool
    decreases a,
{
    match (a, b) {
        (Json::Null, Json::Null) => true,
        (Json::Bool(x), Json::Bool(y)) => x == y,
        (Json::Number(x), Json::Number(y)) => x == y || (is_zero(x) && is_zero(y)),
        (Json::Text(x), Json::Text(y)) => x == y,
        (Json::Array(x), Json::Array(y)) => x.len() == y.len() && forall|i: int|
            0 <= i < x.len() ==> same_json(#[trigger] x[i], y[i]),
        (Json::Object(x), Json::Object(y)) => x.dom() == y.dom() && forall|k: Seq<char>|
            x.dom().contains(k) ==> same_json(#[trigger] x[k], y[k]),
        _ => false,
    }
}

/// `serde_json::from_str` into a `Value`; an error is reported as nothing.
#[verifier::external_body]
pub(crate) fn parse_value(text: &str) -> (r: Option<Value>)
    ensures
        match r {
            Some(v) => parsed(text@) == Some(json_of(v)),
            None => parsed(text@) is None,
        },
{
    serde_json::from_str(text).ok()
}

/// `serde_json::to_string_pretty` of a `Value`; an error is reported by its message.
#[verifier::external_body]
pub(crate) fn pretty_text(v: &Value) -> (r: Result<String, String>)
    ensures
        match r {
            Ok(s) => pretty(json_of(*v)) == Ok::<Seq<char>, Seq<char>>(s@),
            Err(e) => pretty(json_of(*v)) == Err::<Seq<char>, Seq<char>>(e@),
        },
{
    serde_json::to_string_pretty(v).map_err(|e| e.to_string())
}

/// `Value::as_object_mut`: the map of an object, to be changed in place; nothing of any other value.
#[verifier::external_body]
pub(crate) fn as_object_mut(v: &mut Value) -> (r: Option<&mut JsonMap<String, Value>>)
    ensures
        match r {
            Some(m) => json_of(*old(v)) == Json::Object(entries_of(*m)) && json_of(*final(v))
                == Json::Object(entries_of(*final(m))),
            None => !(json_of(*old(v)) is Object) && *final(v) == *old(v),
        },
{
    v.as_object_mut()
}

/// `Map::entry(key).or_insert(default)`: the value under the key, to be changed
/// in place; where there was none, the default is put there first.
#[verifier::external_body]
pub(crate) fn entry_or_insert<'a>(m: &'a mut JsonMap<String, Value>, key: &str, default: Value) -> (r: &'a mut Value)
    ensures
        json_of(*r) == if entries_of(*old(m)).dom().contains(key@) {
            entries_of(*old(m))[key@]
        } else {
            json_of(default)
        },
        entries_of(*final(m)) == entries_of(*old(m)).insert(key@, json_of(*final(r))),
{
    m.entry(key).or_insert(default)
}

/// `Value::clone`.
#[verifier::external_body]
pub(crate) fn clone_value(v: &Value) -> (r: Value)
    ensures
        json_of(r) == json_of(*v),
{
    v.clone()
}

/// `Value::get` with a string: the value under the key of an object; nothing of any other value.
#[verifier::external_body]
pub(crate) fn get_field<'a>(v: &'a Value, key: &str) -> (r: Option<&'a Value>)
    ensures
        match r {
            Some(f) => field(json_of(*v), key@) == Some(json_of(*f)),
            None => field(json_of(*v), key@) is None,
        },
{
    v.get(key)
}

/// `Value::as_str`: the text of a string; nothing of any other value.
#[verifier::external_body]
pub(crate) fn as_text(v: &Value) -> (r: Option<&str>)
    ensures
        match r {
            Some(s) => json_of(*v) == Json::Text(s@),
            None => !(json_of(*v) is Text),
        },
{
    v.as_str()
}

/// `==` on `Value`.
#[verifier::external_body]
pub(crate) fn values_equal(a: &Value, b: &Value) -> (r: bool)
    ensures
        r == same_json(json_of(*a), json_of(*b)),
{
    a == b
}

/// `Value::from(String)`.
#[verifier::external_body]
pub(crate) fn text_value(s: String) -> (r: Value)
    ensures
        json_of(r) == Json::Text(s@),
{
    Value::from(s)
}

/// `Value::from(bool)`.
#[verifier::external_body]
pub(crate) fn bool_value(b: bool) -> (r: Value)
    ensures
        json_of(r) == Json::Bool(b),
{
    Value::from(b)
}

/// `Value::from(Map)`: the object with the map's entries.
#[verifier::external_body]
pub(crate) fn object_value(m: JsonMap<String, Value>) -> (r: Value)
    ensures
        json_of(r) == Json::Object(entries_of(m)),
{
    Value::from(m)
}

/// `Map::new`: a map without entries.
#[verifier::external_body]
pub(crate) fn new_map() -> (r: JsonMap<String, Value>)
    ensures
        entries_of(r) == no_entries(),
{
    JsonMap::new()
}

/// `Map::insert`: the value stands under the key, in place of what stood there.
#[verifier::external_body]
pub(crate) fn put(m: &mut JsonMap<String, Value>, key: String, v: Value) -> (r: Option<Value>)
    ensures
        entries_of(*final(m)) == entries_of(*old(m)).insert(key@, json_of(v)),
        match r {
            Some(was) => entries_of(*old(m)).dom().contains(key@) && json_of(was) == entries_of(
                *old(m),
            )[key@],
            None => !entries_of(*old(m)).dom().contains(key@),
        },
{
    m.insert(key, v)
}

/// `Map::get`: the value under the key, where there is one.
#[verifier::external_body]
pub(crate) fn lookup<'a>(m: &'a JsonMap<String, Value>, key: &str) -> (r: Option<&'a Value>)
    ensures
        match r {
            Some(v) => entries_of(*m).dom().contains(key@) && json_of(*v) == entries_of(*m)[key@],
            None => !entries_of(*m).dom().contains(key@),
        },
{
    m.get(key)
}

/// `Value::as_object`: the map of an object; nothing of any other value.
#[verifier::external_body]
pub(crate) fn as_object(v: &Value) -> (r: Option<&JsonMap<String, Value>>)
    ensures
        match r {
            Some(m) => json_of(*v) == Json::Object(entries_of(*m)),
            None => !(json_of(*v) is Object),
        },
{
    v.as_object()
}

/// The list holds each key of the entries once, with its value.
pub open spec fn lists(items: Seq<(&String, &Value)>, entries: Map<Seq<char>, Json>) -> bool {
    &&& forall|i: int, j: int|
        0 <= i < j < items.len() ==> (#[trigger] items[i]).0@ != (#[trigger] items[j]).0@
    &&& forall|i: int|
        0 <= i < items.len() ==> entries.dom().contains((#[trigger] items[i]).0@)
            && entries[items[i].0@] == json_of(*items[i].1)
    &&& forall|k: Seq<char>| #[trigger]
        entries.dom().contains(k) ==> exists|i: int|
            0 <= i < items.len() && (#[trigger] items[i]).0@ == k
}

/// `Map::iter`: each key once, with its value. The order is left unsaid.
#[verifier::external_body]
pub(crate) fn items(m: &JsonMap<String, Value>) -> (r: Vec<(&String, &Value)>)
    ensures
        lists(r@, entries_of(*m)),
{
    m.iter().collect()
}

/// A JSON value equals itself.
pub proof fn json_equality_is_reflexive(j: Json)
    ensures
        same_json(j, j),
    decreases j,
{
    match j {
        Json::Array(x) => {
            assert forall|i: int| 0 <= i < x.len() implies same_json(#[trigger] x[i], x[i]) by {
                json_equality_is_reflexive(x[i]);
            }
        },
        Json::Object(x) => {
            assert forall|k: Seq<char>| x.dom().contains(k) implies same_json(
                #[trigger] x[k],
                x[k],
            ) by {
                json_equality_is_reflexive(x[k]);
            }
        },
        _ => {},
    }
}

} // verus!

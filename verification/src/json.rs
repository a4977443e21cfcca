//! The boundary to `serde_json`.
//!
//! A `serde_json::Value` is carried through the library as it is: nothing in
//! here looks inside one. What the library needs from the crate is a way to
//! copy a value, to collect named values in an object, and to print the
//! result. Each of these is one call, held in a function of its own whose
//! contract is believed, not proved.

use vstd::prelude::*;

verus! {

/// `serde_json::Value`, a JSON value of any shape. The library hands such
/// values on and never looks inside one.
#[verifier::external_type_specification]
#[verifier::external_body]
pub struct ExValue(serde_json::Value);

/// `serde_json::Map`, the members of a JSON object by key.
#[verifier::external_type_specification]
#[verifier::external_body]
#[verifier::reject_recursive_types(K)]
#[verifier::reject_recursive_types(V)]
pub struct ExObject<K, V>(serde_json::Map<K, V>);

/// The members that a `serde_json::Map` holds, each under its key.
pub uninterp spec fn object_members(object: serde_json::Map<String, serde_json::Value>) -> Map<
    Seq<char>,
    serde_json::Value,
>;

/// The JSON object, as a `serde_json::Value`, that has exactly `members`.
pub uninterp spec fn object_value(members: Map<Seq<char>, serde_json::Value>) -> serde_json::Value;

/// The text that `serde_json::to_string_pretty` gives for `value`.
pub uninterp spec fn pretty_text(value: serde_json::Value) -> Seq<char>;

/// `Clone::clone` of `serde_json::Value`, which the crate derives: the copy
/// is the same JSON value as the one it was made from.
#[verifier::external_body]
pub(crate) fn clone_value(value: &serde_json::Value) -> (copy: serde_json::Value)
    ensures
        copy == *value,
{
    value.clone()
}

/// `serde_json::Map::new`: a map without members.
#[verifier::external_body]
pub(crate) fn new_object() -> (object: serde_json::Map<String, serde_json::Value>)
    ensures
        object_members(object) == (Map::<Seq<char>, serde_json::Value>::empty()),
{
    serde_json::Map::new()
}

/// `serde_json::Map::insert`: afterwards `key` leads to `value`, whether or
/// not the map had the key before, and every other key leads to what it led
/// to. The value that the key had before, which the call returns, is dropped.
#[verifier::external_body]
pub(crate) fn object_insert(
    object: &mut serde_json::Map<String, serde_json::Value>,
    key: String,
    value: serde_json::Value,
)
    ensures
        object_members(*final(object)) == object_members(*old(object)).insert(key@, value),
{
    object.insert(key, value);
}

/// `serde_json::Value::Object`: the JSON object made of the map's members.
#[verifier::external_body]
pub(crate) fn into_value(object: serde_json::Map<String, serde_json::Value>) -> (value:
    serde_json::Value)
    ensures
        value == object_value(object_members(object)),
{
    serde_json::Value::Object(object)
}

/// `serde_json::to_string_pretty` on a `serde_json::Value`. The crate names
/// two ways in which the call can fail: an implementation of `Serialize`
/// that gives up, and a map whose keys are not strings. A `Value` holds
/// neither, and the text is written to memory, so the call returns `Ok`.
#[verifier::external_body]
pub(crate) fn to_pretty(value: &serde_json::Value) -> (text: Option<String>)
    ensures
        text is Some,
        text matches Some(t) ==> t@ == pretty_text(*value),
{
    serde_json::to_string_pretty(value).ok()
}

} // verus!

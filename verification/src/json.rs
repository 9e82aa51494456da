//! JSON documents as serde_json parses them, modelled as trees of paths.
use vstd::prelude::*;

use serde_json::Value;

verus! {

/// One step of a path into a JSON document: an object member or an array element.
pub enum JsonStep {
    Key(Seq<char>),
    Index(nat),
}

/// What a JSON value is at one path: its kind, with the content of strings and
/// booleans and the length of arrays.
pub enum JsonNode {
    Null,
    Bool(bool),
    Number,
    Str(Seq<char>),
    Array(nat),
    Object,
}

/// A JSON document seen as the map from each path in it to the value there.
pub type JsonTree = Map<Seq<JsonStep>, JsonNode>;

#[verifier::external_type_specification]
#[verifier::external_body]
pub struct ExValue(Value);

/// The document that `serde_json::from_slice` reads from `data`, or `None` when
/// `data` is not JSON.
pub uninterp spec fn json_decode(data: Seq<u8>) -> Option<Map<Seq<JsonStep>, JsonNode>>;

/// The paths of a `serde_json::Value` and the values at them.
pub uninterp spec fn json_tree(v: Value) -> Map<Seq<JsonStep>, JsonNode>;

/// The part of a document below one step.
pub open spec fn json_subtree(t: JsonTree, step: JsonStep) -> JsonTree {
    Map::new(|p: Seq<JsonStep>| t.contains_key(seq![step] + p), |p: Seq<JsonStep>| t[seq![step] + p])
}

/// The value at `path`, if the document has one there.
pub open spec fn json_at(t: JsonTree, path: Seq<JsonStep>) -> Option<JsonNode> {
    if t.contains_key(path) {
        Some(t[path])
    } else {
        None
    }
}

/// Calls `serde_json::from_slice::<Value>`.
#[verifier::external_body]
pub(crate) fn json_parse(data: &[u8]) -> (r: Option<Value>)
    ensures
        r is Some <==> json_decode(data@) is Some,
        r matches Some(v) ==> json_decode(data@) == Some(json_tree(v)),
{
    serde_json::from_slice::<Value>(data).ok()
}

/// Calls `Value::get` with a string index: the member `key` of an object, and
/// `None` for a missing member or a value that is not an object.
#[verifier::external_body]
pub(crate) fn json_get<'a>(v: &'a Value, key: &str) -> (r: Option<&'a Value>)
    ensures
        r is Some <==> (json_at(json_tree(*v), seq![]) == Some(JsonNode::Object) && json_tree(
            *v,
        ).contains_key(seq![JsonStep::Key(key@)])),
        r matches Some(c) ==> json_tree(*c) == json_subtree(json_tree(*v), JsonStep::Key(key@)),
{
    v.get(key)
}

/// Calls `Value::as_array`: the elements of an array, `None` for other values.
#[verifier::external_body]
pub(crate) fn json_as_array<'a>(v: &'a Value) -> (r: Option<&'a Vec<Value>>)
    ensures
        r is Some <==> json_at(json_tree(*v), seq![]) matches Some(JsonNode::Array(_)),
        r matches Some(a) ==> (json_at(json_tree(*v), seq![]) == Some(JsonNode::Array(a@.len()))
            && forall|i: int| 0 <= i < a@.len() ==> json_tree(#[trigger] a@[i]) == json_subtree(
                json_tree(*v),
                JsonStep::Index(i as nat),
            )),
{
    v.as_array()
}

/// Calls `Value::as_str`: the content of a string, `None` for other values.
#[verifier::external_body]
pub(crate) fn json_as_str<'a>(v: &'a Value) -> (r: Option<&'a str>)
    ensures
        r is Some <==> json_at(json_tree(*v), seq![]) matches Some(JsonNode::Str(_)),
        r matches Some(s) ==> json_at(json_tree(*v), seq![]) == Some(JsonNode::Str(s@)),
{
    v.as_str()
}

/// The root of a subtree is the node one step down.
pub proof fn lemma_subtree_at(t: JsonTree, step: JsonStep, p: Seq<JsonStep>)
    ensures
        json_at(json_subtree(t, step), p) == json_at(t, seq![step] + p),
{
}

} // verus!

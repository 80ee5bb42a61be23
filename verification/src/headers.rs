//! The options that a scan shows in the header of its output, as JSON values.
use serde_json::Value;

use vstd::prelude::*;

use crate::json;
use crate::text;

verus! {

/// A JSON object of `serde_json`.
#[verifier::external_type_specification]
#[verifier::external_body]
#[verifier::reject_recursive_types(K)]
#[verifier::reject_recursive_types(V)]
pub struct ExMap<K, V>(serde_json::Map<K, V>);

/// A JSON value of `serde_json`.
#[verifier::external_type_specification]
#[verifier::external_body]
pub struct ExValue(Value);

/// The members of a JSON object by their names: the strings of a member that is
/// an array of strings, and nothing of any other member.
pub uninterp spec fn members(object: serde_json::Map<String, Value>) -> Map<
    Seq<char>,
    Option<Seq<Seq<char>>>,
>;

/// No members.
pub open spec fn no_members() -> Map<Seq<char>, Option<Seq<Seq<char>>>> {
    Map::empty()
}

/// The members of a JSON object by their names, each as the compact JSON text of
/// its value.
pub uninterp spec fn written(object: serde_json::Map<String, Value>) -> Map<Seq<char>, Seq<char>>;

/// No JSON texts.
pub open spec fn nothing_written() -> Map<Seq<char>, Seq<char>> {
    Map::empty()
}

/// `serde_json::Map::new`: an object without members.
#[verifier::external_body]
pub(crate) fn new_object() -> (r: serde_json::Map<String, Value>)
    ensures
        members(r) == no_members(),
        written(r) == nothing_written(),
{
    serde_json::Map::new()
}

/// `Clone` of `serde_json::Map`: an object with the same members, of the same values.
#[verifier::external_body]
pub(crate) fn copy_object(object: &serde_json::Map<String, Value>) -> (r: serde_json::Map<
    String,
    Value,
>)
    ensures
        members(r) == members(*object),
        written(r) == written(*object),
{
    object.clone()
}

/// `serde_json::Map::insert` of an array of strings: the member of that name is
/// the array, and the others stay as they were.
#[verifier::external_body]
pub(crate) fn insert_strings(
    object: &mut serde_json::Map<String, Value>,
    name: String,
    strings: &Vec<String>,
)
    ensures
        members(*final(object)) == members(*old(object)).insert(
            name@,
            Some(text::texts(strings@)),
        ),
        written(*final(object)) == written(*old(object)).insert(
            name@,
            json::array_text(text::texts(strings@)),
        ),
{
    let array: Vec<Value> = strings.iter().cloned().map(Value::String).collect();
    object.insert(name, Value::Array(array));
}

} // verus!

//! JSON values: what the tools are described in, and what the model calls them
//! with.

use serde_json::Value;
use vstd::prelude::*;

verus! {

/// `serde_json::Value`, carried as it is.
#[verifier::external_type_specification]
#[verifier::external_body]
pub struct ExValue(Value);

/// What a JSON value holds. Null and the numbers are not told apart.
pub enum Json {
    Text(Seq<char>),
    Bool(bool),
    List(Seq<Json>),
    Object(Map<Seq<char>, Json>),
    Other,
}

/// What a `serde_json::Value` holds: the contents of a string, a boolean, an
/// array or an object, or `Other` for null and for numbers.
pub uninterp spec fn json_of(v: Value) -> Json;

/// The string under a key of an object.
pub open spec fn text_at(j: Json, key: Seq<char>) -> Option<Seq<char>> {
    match j {
        Json::Object(members) => if members.dom().contains(key) {
            match members[key] {
                Json::Text(s) => Some(s),
                _ => None,
            }
        } else {
            None
        },
        _ => None,
    }
}

/// Calls `serde_json::Value::get`, which finds the member of an object under a
/// key, and nothing in a value of another kind. Claims that the string found is
/// the one which the object holds there, and that none is found where there is
/// no member or one that is no string.
#[verifier::external_body]
pub(crate) fn text_member(v: &Value, key: &str) -> (r: Option<String>)
    ensures
        match r {
            Some(s) => text_at(json_of(*v), key@) == Some(s@),
            None => text_at(json_of(*v), key@) is None,
        },
{
    match v.get(key) {
        Some(Value::String(s)) => Some(s.clone()),
        _ => None,
    }
}

/// Makes a `serde_json::Value::String`. Claims that it holds the text.
#[verifier::external_body]
pub(crate) fn json_text(s: &str) -> (r: Value)
    ensures
        json_of(r) == Json::Text(s@),
{
    Value::String(s.to_owned())
}

/// Makes a `serde_json::Value::Bool`. Claims that it holds the boolean.
#[verifier::external_body]
pub(crate) fn json_bool(b: bool) -> (r: Value)
    ensures
        json_of(r) == Json::Bool(b),
{
    Value::Bool(b)
}

/// Makes a `serde_json::Value::Array`. Claims that it holds the items in order.
#[verifier::external_body]
pub(crate) fn json_list(items: Vec<Value>) -> (r: Value)
    ensures
        json_of(r) == Json::List(Seq::new(items@.len(), |i: int| json_of(items@[i]))),
{
    Value::Array(items)
}

/// No key occurs twice.
pub open spec fn distinct_keys(members: Seq<(String, Value)>) -> bool {
    forall|i: int, j: int|
        #![trigger members[i], members[j]]
        0 <= i < j < members.len() ==> members[i].0@ != members[j].0@
}

/// Each key with what stands under it.
pub open spec fn members_map(members: Seq<(String, Value)>) -> Map<Seq<char>, Json>
    decreases members.len(),
{
    if members.len() == 0 {
        Map::empty()
    } else {
        members_map(members.drop_last()).insert(members.last().0@, json_of(members.last().1))
    }
}

/// Collects the members into a `serde_json::Map` by its `FromIterator` and makes
/// a `serde_json::Value::Object` of it. Claims that the object holds each member
/// under its key, and no others. With equal keys some members would be dropped.
#[verifier::external_body]
pub(crate) fn json_object(members: Vec<(String, Value)>) -> (r: Value)
    requires
        distinct_keys(members@),
    ensures
        json_of(r) == Json::Object(members_map(members@)),
{
    Value::Object(members.into_iter().collect())
}

/// The text under a key is the one that the object holds there; there is none
/// under a key that it does not have or that holds no text, and none in what is
/// no object.
pub proof fn law_what_stands_under_a_key(j: Json, key: Seq<char>, t: Seq<char>)
    ensures
        text_at(j, key) == Some(t) <==> (j matches Json::Object(m) && m.dom().contains(key)
            && m[key] == Json::Text(t)),
{
}

} // verus!

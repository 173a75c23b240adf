//! JSON values as the tool interface exchanges them.
//!
//! The values themselves are `serde_json`'s. Contracts speak of them through [`Json`], the
//! mathematical content of such a value, and [`json`] says which content a value has.

use vstd::prelude::*;

verus! {

/// The content of a JSON value.
pub enum Json {
    Null,
    Bool(bool),
    Number(JsonNumber),
    Text(Seq<char>),
    Array(Seq<Json>),
    Object(Map<Seq<char>, Json>),
}

/// A JSON number, in the three forms in which it is held.
pub enum JsonNumber {
    /// An integer that is not negative.
    Natural(u64),
    /// An integer below zero.
    Negative(i64),
    /// Any other number, given by the bits of its double-precision form.
    Double(u64),
}

/// `serde_json::Value`, carried through as an opaque value. Its content is given by [`json`].
#[verifier::external_type_specification]
#[verifier::external_body]
pub struct ExValue(serde_json::Value);

/// What a `serde_json::Value` holds. Each of its variants has the variant of [`Json`] of the same
/// kind: a string its characters, an array the contents of its items in order, an object the
/// contents of its members by key, without regard to an order among them.
pub uninterp spec fn json(value: serde_json::Value) -> Json;

/// The text that `serde_json` writes for a value with the given content, in its compact form. The
/// members of an object are written in the order of their keys, so the content determines it.
pub uninterp spec fn rendered(content: Json) -> Seq<char>;

/// The member of an object under `key`, where there is one.
pub open spec fn member_of(content: Json, key: Seq<char>) -> Option<Json> {
    match content {
        Json::Object(members) => if members.contains_key(key) {
            Some(members[key])
        } else {
            None
        },
        _ => None,
    }
}

/// The text in a JSON string.
pub open spec fn text_of(content: Json) -> Option<Seq<char>> {
    match content {
        Json::Text(text) => Some(text),
        _ => None,
    }
}

/// The number in a JSON integer that is not negative.
pub open spec fn natural_of(content: Json) -> Option<u64> {
    match content {
        Json::Number(JsonNumber::Natural(n)) => Some(n),
        _ => None,
    }
}

/// The members that a list of pairs gives an object.
pub open spec fn members_from(pairs: Seq<(Seq<char>, Json)>) -> Map<Seq<char>, Json>
    decreases pairs.len(),
{
    if pairs.len() == 0 {
        Map::empty()
    } else {
        members_from(pairs.drop_last()).insert(pairs.last().0, pairs.last().1)
    }
}

/// An object with the members that a list of pairs gives.
pub open spec fn object_with(pairs: Seq<(Seq<char>, Json)>) -> Json {
    Json::Object(members_from(pairs))
}

/// The content of a list of keys and values.
pub open spec fn pairs_of(pairs: Seq<(String, serde_json::Value)>) -> Seq<(Seq<char>, Json)> {
    pairs.map_values(|pair: (String, serde_json::Value)| (pair.0@, json(pair.1)))
}

/// Whether no two pairs have the same key.
pub open spec fn distinct_keys(pairs: Seq<(Seq<char>, Json)>) -> bool {
    forall|i: int, j: int| 0 <= i < j < pairs.len() ==> pairs[i].0 != pairs[j].0
}

/// `serde_json::Value::get` with a string for an index: the member of an object under that key.
/// There is none where the key is absent or where the value is no object.
#[verifier::external_body]
pub(crate) fn member<'a>(value: &'a serde_json::Value, key: &str) -> (found: Option<
    &'a serde_json::Value,
>)
    ensures
        match member_of(json(*value), key@) {
            Some(content) => found is Some && json(*found->0) == content,
            None => found is None,
        },
{
    value.get(key)
}

/// `serde_json::Value::as_str`: the text of a JSON string, and nothing for any other value.
pub assume_specification[ serde_json::Value::as_str ](value: &serde_json::Value) -> (found: Option<&str>)
    ensures
        match text_of(json(*value)) {
            Some(text) => found is Some && found->0@ == text,
            None => found is None,
        },
;

/// `serde_json::Value::as_u64`: the number of a JSON integer that is not negative, and nothing for
/// any other value. A number held in floating point is none, even where it has no fraction.
pub assume_specification[ serde_json::Value::as_u64 ](value: &serde_json::Value) -> (found: Option<u64>)
    ensures
        found == natural_of(json(*value)),
;

/// The `Display` form of a `serde_json::Value`, through `to_string`: its compact JSON text, which
/// depends on the content alone.
#[verifier::external_body]
pub(crate) fn render(value: &serde_json::Value) -> (text: String)
    ensures
        text@ == rendered(json(*value)),
{
    value.to_string()
}

/// `serde_json::Value::from` on a `&str`: a JSON string with that text.
#[verifier::external_body]
pub(crate) fn json_text(text: &str) -> (value: serde_json::Value)
    ensures
        json(value) == Json::Text(text@),
{
    serde_json::Value::from(text)
}

/// `serde_json::Value::from` on a `u64`: a JSON integer with that value.
#[verifier::external_body]
pub(crate) fn json_natural(n: u64) -> (value: serde_json::Value)
    ensures
        json(value) == Json::Number(JsonNumber::Natural(n)),
{
    serde_json::Value::from(n)
}

/// `serde_json::Value::from` on a `Vec` of values: a JSON array with these items in order.
#[verifier::external_body]
pub(crate) fn json_array(items: Vec<serde_json::Value>) -> (value: serde_json::Value)
    ensures
        json(value) == Json::Array(items@.map_values(|item: serde_json::Value| json(item))),
{
    serde_json::Value::from(items)
}

/// `serde_json::Value::from_iter` on pairs of keys and values, no two with the same key: a JSON
/// object with these members.
#[verifier::external_body]
pub(crate) fn json_object(pairs: Vec<(String, serde_json::Value)>) -> (value: serde_json::Value)
    requires
        distinct_keys(pairs_of(pairs@)),
    ensures
        json(value) == object_with(pairs_of(pairs@)),
{
    serde_json::Value::from_iter(pairs)
}

} // verus!

//! JSON values and their text.
//!
//! The values and the text are `serde_json`'s. A value is modelled by what it
//! holds, and its text by a function of that.
use serde_json::Value;
use vstd::prelude::*;

verus! {

/// What a JSON value holds.
pub enum Json {
    Null,
    Truth(bool),
    Number(nat),
    Text(Seq<char>),
    List(Seq<Json>),
    /// The members of an object, each name once.
    Object(Map<Seq<char>, Json>),
}

/// The JSON values of `serde_json`.
#[verifier::external_type_specification]
#[verifier::external_body]
pub struct ExValue(serde_json::Value);

/// What a value of `serde_json` holds.
pub uninterp spec fn json_content(value: Value) -> Json;

/// The compact text that `serde_json` writes for a value.
pub uninterp spec fn json_text(content: Json) -> Seq<char>;

/// What several values hold.
pub open spec fn json_contents(values: Seq<Value>) -> Seq<Json> {
    Seq::new(values.len(), |i: int| json_content(values[i]))
}

/// `serde_json::Value::from` of a text: a JSON string that holds the text.
#[verifier::external_body]
pub(crate) fn json_string(text: &str) -> (value: Value)
    ensures
        json_content(value) == Json::Text(text@),
{
    Value::from(text)
}

/// `serde_json::Value::from` of a number: a JSON number that holds it.
#[verifier::external_body]
pub(crate) fn json_number(number: u64) -> (value: Value)
    ensures
        json_content(value) == Json::Number(number as nat),
{
    Value::from(number)
}

/// `serde_json::Value::from` of a truth value: the JSON literal for it.
#[verifier::external_body]
pub(crate) fn json_truth(truth: bool) -> (value: Value)
    ensures
        json_content(value) == Json::Truth(truth),
{
    Value::from(truth)
}

/// `serde_json::Value::default`: the JSON literal `null`.
#[verifier::external_body]
pub(crate) fn json_null() -> (value: Value)
    ensures
        json_content(value) == Json::Null,
{
    Value::default()
}

/// `serde_json::Value::from` of a list of values: a JSON array of them, in order.
#[verifier::external_body]
pub(crate) fn json_list(values: Vec<Value>) -> (value: Value)
    ensures
        json_content(value) == Json::List(json_contents(values@)),
{
    Value::from(values)
}

/// `serde_json::Value::from` of an empty `serde_json::Map`: an object without members.
#[verifier::external_body]
pub(crate) fn json_object() -> (value: Value)
    ensures
        json_content(value) == Json::Object(Map::empty()),
{
    Value::from(serde_json::Map::new())
}

/// `serde_json::Value`'s `IndexMut` by a name on an object: the member of that
/// name is set, and the others stay.
#[verifier::external_body]
pub(crate) fn json_with(object: Value, name: &str, member: Value) -> (value: Value)
    requires
        json_content(object) is Object,
    ensures
        json_content(value) == Json::Object(
            json_content(object)->Object_0.insert(name@, json_content(member)),
        ),
{
    let mut value = object;
    value[name] = member;
    value
}

/// The `Display` form of `serde_json::Value`: the compact text, which is a
/// function of what the value holds.
#[verifier::external_body]
pub(crate) fn json_to_text(value: &Value) -> (text: String)
    ensures
        text@ == json_text(json_content(*value)),
{
    value.to_string()
}

/// A text, or `null` where there is none.
pub open spec fn optional_text(text: Option<Seq<char>>) -> Json {
    match text {
        Some(text) => Json::Text(text),
        None => Json::Null,
    }
}

/// Makes a JSON string, or `null` where there is no text.
pub fn json_optional(text: Option<&str>) -> (value: Value)
    ensures
        json_content(value) == optional_text(
            match text {
                Some(text) => Some(text@),
                None => None,
            },
        ),
{
    match text {
        Some(text) => json_string(text),
        None => json_null(),
    }
}

/// A list of texts.
pub open spec fn text_list(texts: Seq<Seq<char>>) -> Json {
    Json::List(Seq::new(texts.len(), |i: int| Json::Text(texts[i])))
}

/// Makes a JSON array of texts.
pub fn json_texts(strings: &[String]) -> (value: Value)
    ensures
        json_content(value) == text_list(crate::text_map::texts(strings@)),
{
    let mut values: Vec<Value> = Vec::new();
    while values.len() < strings.len()
        invariant
            values@.len() <= strings@.len(),
            forall|i: int|
                0 <= i < values@.len() ==> json_content(#[trigger] values@[i]) == Json::Text(
                    strings@[i]@,
                ),
        decreases strings.len() - values.len(),
    {
        let index: usize = values.len();
        values.push(json_string(strings[index].as_str()));
    }
    let ghost made = values@;
    let value = json_list(values);
    proof {
        let expected = Seq::new(
            strings@.len(),
            |i: int| Json::Text(crate::text_map::texts(strings@)[i]),
        );
        assert(json_contents(made) =~= expected);
    }
    value
}

} // verus!

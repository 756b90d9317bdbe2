//! JSON values built by the library, and their pretty-printed text.

use vstd::prelude::*;
use vstd::string::*;

verus! {

/// A `serde_json::Value`, as the text of a JSON value is made from it.
#[verifier::external_type_specification]
#[verifier::external_body]
pub struct ExJsonValue(serde_json::Value);

/// A `serde_json::Error`.
#[verifier::external_type_specification]
#[verifier::external_body]
pub struct ExJsonError(serde_json::Error);


/// A JSON value: a string, an array or an object whose members keep their
/// order.
#[derive(Debug)]
pub enum JsonValue {
    Str(String),
    Array(Vec<JsonValue>),
    Object(Vec<(String, JsonValue)>),
}

/// What a JSON value is.
pub enum JsonView {
    Str(Seq<char>),
    Array(Seq<JsonView>),
    Object(Seq<(Seq<char>, JsonView)>),
}

/// The view of a JSON value.
pub open spec fn json_view(v: JsonValue) -> JsonView
    decreases v,
{
    match v {
        JsonValue::Str(s) => JsonView::Str(s@),
        JsonValue::Array(items) => JsonView::Array(items_view(items@)),
        JsonValue::Object(members) => JsonView::Object(members_view(members@)),
    }
}

/// The views of the items of an array.
pub open spec fn items_view(items: Seq<JsonValue>) -> Seq<JsonView>
    decreases items,
{
    if items.len() == 0 {
        Seq::empty()
    } else {
        items_view(items.drop_last()).push(json_view(items.last()))
    }
}

/// The keys and views of the members of an object.
pub open spec fn members_view(members: Seq<(String, JsonValue)>) -> Seq<(Seq<char>, JsonView)>
    decreases members,
{
    if members.len() == 0 {
        Seq::empty()
    } else {
        members_view(members.drop_last()).push((members.last().0@, json_view(members.last().1)))
    }
}

impl View for JsonValue {
    type V = JsonView;

    open spec fn view(&self) -> JsonView {
        json_view(*self)
    }
}

/// A member of an object where there is a value: none otherwise.
pub open spec fn optional_member(key: Seq<char>, value: Option<JsonView>) -> Seq<(Seq<char>, JsonView)> {
    match value {
        Some(v) => seq![(key, v)],
        None => Seq::empty(),
    }
}

/// A JSON string.
pub fn json_string(s: &str) -> (r: JsonValue)
    ensures
        r@ == JsonView::Str(s@),
{
    JsonValue::Str(String::from_str(s))
}

/// Adds the member `key` with `value` at the end of an object's members.
pub fn push_member(members: &mut Vec<(String, JsonValue)>, key: &str, value: JsonValue)
    ensures
        members_view(final(members)@) == members_view(old(members)@).push((key@, value@)),
{
    let ghost before = members@;
    members.push((String::from_str(key), value));
    assert(members@.drop_last() =~= before);
}

/// Adds `value` at the end of an array's items.
pub fn push_item(items: &mut Vec<JsonValue>, value: JsonValue)
    ensures
        items_view(final(items)@) == items_view(old(items)@).push(value@),
{
    let ghost before = items@;
    items.push(value);
    assert(items@.drop_last() =~= before);
}

/// The text that `serde_json::to_string_pretty` gives for a JSON value:
/// indented by two spaces, with the members of each object in their order.
pub uninterp spec fn pretty_json(v: JsonView) -> Seq<char>;

/// The value as a `serde_json::Value`, member for member.
#[verifier::external_body]
fn to_serde_value(v: &JsonValue) -> serde_json::Value {
    match v {
        JsonValue::Str(s) => serde_json::Value::String(s.clone()),
        JsonValue::Array(items) => serde_json::Value::Array(items.iter().map(to_serde_value).collect()),
        JsonValue::Object(members) => serde_json::Value::Object(
            members.iter().map(|m| (m.0.clone(), to_serde_value(&m.1))).collect(),
        ),
    }
}

/// Pretty-prints `v` with `serde_json::to_string_pretty`. Serialising a
/// `serde_json::Value` into a byte buffer does not fail: every map key is a
/// string and no value's serialisation reports an error, so the result is
/// `Ok`, with the text that `pretty_json` names.
#[verifier::external_body]
fn pretty_json_text(v: &JsonValue) -> (r: Result<String, serde_json::Error>)
    ensures
        r is Ok,
        r matches Ok(t) ==> t@ == pretty_json(v@),
{
    serde_json::to_string_pretty(&to_serde_value(v))
}

/// The message of a `serde_json::Error`, as its `Display` writes it.
#[verifier::external_body]
fn json_error_text(e: &serde_json::Error) -> String {
    e.to_string()
}

/// The pretty-printed text of `v`; serialising a JSON value succeeds.
pub fn to_json_text(v: &JsonValue) -> (r: Result<String, String>)
    ensures
        r matches Ok(t) && t@ == pretty_json(v@),
{
    match pretty_json_text(v) {
        Ok(t) => Ok(t),
        Err(e) => {
            let mut msg = String::from_str("Failed to serialize to JSON: ");
            let detail = json_error_text(&e);
            msg.append(detail.as_str());
            assert(msg@ == "Failed to serialize to JSON: "@ + detail@);
            Err(msg)
        },
    }
}

} // verus!

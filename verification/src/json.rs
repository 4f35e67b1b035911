//! JSON documents, as `serde_json` reads them.

use crate::text::opt_text;
use vstd::prelude::*;

verus! {

/// What a JSON document holds.
pub enum JsonView {
    Null,
    Bool(bool),
    /// An integer that is not negative.
    Unsigned(u64),
    /// A negative integer.
    Negative(i64),
    /// Any other number, as the bits of a double-precision number.
    Float(u64),
    Text(Seq<char>),
    List(Seq<JsonView>),
    Object(Map<Seq<char>, JsonView>),
}

/// `serde_json::Value`, a parsed JSON document.
#[verifier::external_type_specification]
#[verifier::external_body]
pub struct ExValue(serde_json::Value);

/// What a `serde_json::Value` holds.
pub uninterp spec fn json_view(v: serde_json::Value) -> JsonView;

/// What `serde_json::from_str` reads off a text as a `serde_json::Value`, or nothing where it
/// reports an error.
pub uninterp spec fn json_document(text: Seq<char>) -> Option<JsonView>;

/// Calls `serde_json::from_str` for a `serde_json::Value`. Whether the text is a JSON document,
/// and which one, depends on the text alone and is named [`json_document`].
#[verifier::external_body]
pub(crate) fn parse_json(text: &str) -> (r: Option<serde_json::Value>)
    ensures
        match r {
            Some(v) => json_document(text@) == Some(json_view(v)),
            None => json_document(text@) is None,
        },
{
    serde_json::from_str::<serde_json::Value>(text).ok()
}

/// Calls `serde_json::Value::default`, which is the JSON null.
#[verifier::external_body]
pub(crate) fn json_null() -> (r: serde_json::Value)
    ensures
        json_view(r) == JsonView::Null,
{
    serde_json::Value::default()
}

/// Calls `serde_json::Value::clone`: the copy holds what the original holds.
#[verifier::external_body]
pub(crate) fn copy_json(v: &serde_json::Value) -> (r: serde_json::Value)
    ensures
        json_view(r) == json_view(*v),
{
    v.clone()
}

/// Calls `serde_json::Value::get` with a string: the member of that name, if the value is an
/// object and has one.
#[verifier::external_body]
pub(crate) fn json_member<'a>(v: &'a serde_json::Value, key: &str) -> (r: Option<
    &'a serde_json::Value,
>)
    ensures
        match r {
            Some(m) => member(json_view(*v), key@) == Some(json_view(*m)),
            None => member(json_view(*v), key@) is None,
        },
{
    v.get(key)
}

/// Calls `serde_json::Value::as_u64`: the number, if the value is an integer that is not
/// negative.
#[verifier::external_body]
pub(crate) fn json_unsigned(v: &serde_json::Value) -> (r: Option<u64>)
    ensures
        r == unsigned(json_view(*v)),
{
    v.as_u64()
}

/// The member of an object under a name.
pub open spec fn member(v: JsonView, key: Seq<char>) -> Option<JsonView> {
    match v {
        JsonView::Object(members) if members.contains_key(key) => Some(members[key]),
        _ => None,
    }
}

/// The number that a document is, where it is an integer that is not negative.
pub open spec fn unsigned(v: JsonView) -> Option<u64> {
    match v {
        JsonView::Unsigned(n) => Some(n),
        _ => None,
    }
}

/// The document that a text holds, or null where the text holds none.
pub open spec fn document_or_null(text: Seq<char>) -> JsonView {
    match json_document(text) {
        Some(v) => v,
        None => JsonView::Null,
    }
}

/// Reads a JSON document off a text. What is no document reads as null.
pub fn parse_or_null(text: &str) -> (r: serde_json::Value)
    ensures
        json_view(r) == document_or_null(text@),
{
    match parse_json(text) {
        Some(v) => v,
        None => json_null(),
    }
}

/// The retry count that a document carries under `incomplete_retry_count`, cut off at the
/// largest `u8`; zero without one.
pub open spec fn retry_count(doc: JsonView) -> u8 {
    match member(doc, "incomplete_retry_count"@) {
        Some(v) => match unsigned(v) {
            Some(n) => if n < 255 {
                n as u8
            } else {
                255
            },
            None => 0,
        },
        None => 0,
    }
}

/// The retry count in the text of a document; zero where there is no text or it holds no
/// document.
pub open spec fn retry_count_in(text: Option<Seq<char>>) -> u8 {
    match text {
        Some(t) => match json_document(t) {
            Some(doc) => retry_count(doc),
            None => 0,
        },
        None => 0,
    }
}

/// Reads the retry count off a document.
pub fn read_retry_count(doc: &serde_json::Value) -> (r: u8)
    ensures
        r == retry_count(json_view(*doc)),
{
    match json_member(doc, "incomplete_retry_count") {
        Some(v) => match json_unsigned(v) {
            Some(n) => if n < 255 {
                n as u8
            } else {
                255
            },
            None => 0,
        },
        None => 0,
    }
}

/// Reads the retry count off the text of a document.
pub fn parse_retry_count(text: &Option<String>) -> (r: u8)
    ensures
        r == retry_count_in(opt_text(*text)),
{
    match text {
        Some(t) => match parse_json(t.as_str()) {
            Some(doc) => read_retry_count(&doc),
            None => 0,
        },
        None => 0,
    }
}

} // verus!

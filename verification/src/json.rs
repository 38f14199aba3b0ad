//! Access to JSON documents held as text.
//!
//! Parsing and printing are done by `serde_json`. Each function below makes
//! one kind of access to a document and hands plain values back; what it
//! returns is named by a spec function of the same arguments.

use vstd::prelude::*;

verus! {

/// Whether `doc` parses as one JSON value.
pub uninterp spec fn is_json_text(doc: Seq<u8>) -> bool;

/// Whether `doc` parses as the JSON value `null`.
pub uninterp spec fn is_null_text(doc: Seq<u8>) -> bool;

/// The JSON string literal for `text`.
pub uninterp spec fn quoted_text(text: Seq<char>) -> Seq<char>;

/// The printed value of member `key` where `doc` is a JSON object that has it.
pub uninterp spec fn member_text(doc: Seq<u8>, key: Seq<char>) -> Option<Seq<char>>;

/// The text that `doc` denotes where it is a JSON string.
pub uninterp spec fn string_text(doc: Seq<u8>) -> Option<Seq<char>>;

/// The number that `doc` denotes where it is a JSON integer in `u64`.
pub uninterp spec fn number_value(doc: Seq<u8>) -> Option<u64>;

/// The printed elements of `doc` where it is a JSON array.
pub uninterp spec fn element_texts(doc: Seq<u8>) -> Option<Seq<Seq<char>>>;

/// `doc` printed again with member `key` set to the string `value`, where
/// `doc` is a JSON object.
pub uninterp spec fn with_member_text(doc: Seq<u8>, key: Seq<char>, value: Seq<char>) -> Option<
    Seq<char>,
>;

/// The views of a vector of strings.
pub open spec fn texts_of(items: Seq<String>) -> Seq<Seq<char>> {
    items.map_values(|s: String| s@)
}

/// Calls `serde_json::from_slice` for a `Value` and reports whether it
/// succeeded. Nothing is claimed beyond the name of the result.
#[verifier::external_body]
pub(crate) fn is_json(doc: &[u8]) -> (ok: bool)
    ensures
        ok == is_json_text(doc@),
{
    serde_json::from_slice::<serde_json::Value>(doc).is_ok()
}

/// Parses `doc` with `serde_json::from_slice` and asks `Value::is_null`; a
/// document that does not parse is not `null`. Nothing is claimed beyond the
/// name of the result.
#[verifier::external_body]
pub(crate) fn is_null(doc: &[u8]) -> (null: bool)
    ensures
        null == is_null_text(doc@),
{
    serde_json::from_slice::<serde_json::Value>(doc).is_ok_and(|value| value.is_null())
}

/// Prints `text` as a JSON string with `serde_json`'s `Display` for
/// `Value::String`. Nothing is claimed beyond the name of the result.
#[verifier::external_body]
pub(crate) fn quote(text: &str) -> (out: String)
    ensures
        out@ == quoted_text(text@),
{
    serde_json::Value::String(text.to_owned()).to_string()
}

/// Parses `doc` with `serde_json::from_slice`, looks `key` up with
/// `Value::as_object` and `Map::get`, and prints what it finds. Nothing is
/// claimed beyond the name of the result.
#[verifier::external_body]
pub(crate) fn member(doc: &[u8], key: &str) -> (out: Option<String>)
    ensures
        out.is_some() == member_text(doc@, key@).is_some(),
        out.is_some() ==> out.unwrap()@ == member_text(doc@, key@).unwrap(),
{
    let value = serde_json::from_slice::<serde_json::Value>(doc).ok()?;
    value.as_object()?.get(key).map(|found| found.to_string())
}

/// Parses `doc` with `serde_json::from_slice` and reads it with
/// `Value::as_str`. Nothing is claimed beyond the name of the result.
#[verifier::external_body]
pub(crate) fn string_value(doc: &[u8]) -> (out: Option<String>)
    ensures
        out.is_some() == string_text(doc@).is_some(),
        out.is_some() ==> out.unwrap()@ == string_text(doc@).unwrap(),
{
    let value = serde_json::from_slice::<serde_json::Value>(doc).ok()?;
    value.as_str().map(|text| text.to_owned())
}

/// Parses `doc` with `serde_json::from_slice` and reads it with
/// `Value::as_u64`. Nothing is claimed beyond the name of the result.
#[verifier::external_body]
pub(crate) fn unsigned_value(doc: &[u8]) -> (out: Option<u64>)
    ensures
        out == number_value(doc@),
{
    serde_json::from_slice::<serde_json::Value>(doc).ok()?.as_u64()
}

/// Parses `doc` with `serde_json::from_slice`, reads it with
/// `Value::as_array` and prints each element. Nothing is claimed beyond the
/// name of the result.
#[verifier::external_body]
pub(crate) fn elements(doc: &[u8]) -> (out: Option<Vec<String>>)
    ensures
        out.is_some() == element_texts(doc@).is_some(),
        out.is_some() ==> texts_of(out.unwrap()@) == element_texts(doc@).unwrap(),
{
    let value = serde_json::from_slice::<serde_json::Value>(doc).ok()?;
    Some(value.as_array()?.iter().map(|item| item.to_string()).collect())
}

/// Parses `doc` with `serde_json::from_slice`, sets `key` with
/// `Value::as_object_mut` and `Map::insert`, and prints the document.
/// Nothing is claimed beyond the name of the result.
#[verifier::external_body]
pub(crate) fn with_member(doc: &[u8], key: &str, value: &str) -> (out: Option<String>)
    ensures
        out.is_some() == with_member_text(doc@, key@, value@).is_some(),
        out.is_some() ==> out.unwrap()@ == with_member_text(doc@, key@, value@).unwrap(),
{
    let mut parsed = serde_json::from_slice::<serde_json::Value>(doc).ok()?;
    parsed.as_object_mut()?.insert(key.to_owned(), serde_json::Value::String(value.to_owned()));
    Some(parsed.to_string())
}

} // verus!

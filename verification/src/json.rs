//! JSON documents, as `serde_json` reads them.

use vstd::prelude::*;

verus! {

/// A JSON document.
pub enum Json {
    Null,
    Bool(bool),
    /// A number. Two numbers bear the same mark if and only if `serde_json` finds
    /// them equal.
    Number(int),
    Text(Seq<char>),
    List(Seq<Json>),
    Object(Map<Seq<char>, Json>),
}

/// `serde_json::Value`: any JSON document.
#[verifier::external_type_specification]
#[verifier::external_body]
pub struct ExValue(serde_json::Value);

/// `serde_json::Error`: why a text is not a JSON document.
#[verifier::external_type_specification]
#[verifier::external_body]
pub struct ExJsonError(serde_json::Error);

/// The document that a `serde_json::Value` holds.
pub uninterp spec fn content(v: serde_json::Value) -> Json;

/// What `serde_json::from_slice` makes of bytes: a document, or the words of the
/// error that it reports.
pub uninterp spec fn parsed(bytes: Seq<u8>) -> Result<Json, Seq<char>>;

/// The words of a `serde_json::Error`.
pub uninterp spec fn wording(e: serde_json::Error) -> Seq<char>;

/// The document that was read, or the words of why there is none.
pub open spec fn document(r: Result<serde_json::Value, serde_json::Error>) -> Result<
    Json,
    Seq<char>,
> {
    match r {
        Ok(v) => Ok(content(v)),
        Err(e) => Err(wording(e)),
    }
}

/// Calls `serde_json::from_slice`: the same bytes always give the same document, or
/// always an error in the same words.
#[verifier::external_body]
pub(crate) fn parse(bytes: &[u8]) -> (r: Result<serde_json::Value, serde_json::Error>)
    ensures
        document(r) == parsed(bytes@),
{
    serde_json::from_slice(bytes)
}

/// Calls `to_string` on a `serde_json::Error`: gives its words.
#[verifier::external_body]
pub(crate) fn error_text(e: &serde_json::Error) -> (r: String)
    ensures
        r@ == wording(*e),
{
    e.to_string()
}

/// The member of a document under a key: `null` where the document is not an object
/// or has no such member.
pub open spec fn member(j: Json, key: Seq<char>) -> Json {
    match j {
        Json::Object(m) => if m.contains_key(key) {
            m[key]
        } else {
            Json::Null
        },
        _ => Json::Null,
    }
}

/// Indexes a `serde_json::Value` by a key (`Index::index`): gives the member under
/// the key, and `null` where there is none.
#[verifier::external_body]
pub(crate) fn get<'a>(v: &'a serde_json::Value, key: &str) -> (r: &'a serde_json::Value)
    ensures
        content(*r) == member(content(*v), key@),
{
    &v[key]
}

/// Calls `serde_json::Value::as_str`: gives the text of a document that is a text,
/// and nothing for any other.
#[verifier::external_body]
pub(crate) fn as_text(v: &serde_json::Value) -> (r: Option<&str>)
    ensures
        r is Some == content(*v) is Text,
        r matches Some(t) ==> content(*v) == Json::Text(t@),
{
    v.as_str()
}

/// Compares two `serde_json::Value`s (`PartialEq::eq`): they are equal if they hold
/// the same document.
#[verifier::external_body]
pub(crate) fn same(a: &serde_json::Value, b: &serde_json::Value) -> (r: bool)
    ensures
        r == (content(*a) == content(*b)),
{
    a == b
}

/// A member of an object is what the object holds under its name; an object that holds
/// nothing under it, and whatever is no object, has nothing there.
pub proof fn law_member(entries: Map<Seq<char>, Json>, key: Seq<char>, other: Json)
    ensures
        entries.contains_key(key) ==> member(Json::Object(entries), key) == entries[key],
        !entries.contains_key(key) ==> member(Json::Object(entries), key) == Json::Null,
        !(other is Object) ==> member(other, key) == Json::Null,
{
}

} // verus!

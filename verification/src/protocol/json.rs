//! The server's status text as `serde_json` reads it. A parsed document and
//! the values reached inside it carry, as ghost state, the text they were
//! parsed from and the object keys followed from its root; what each accessor
//! returns is then named as a function of that text and that path.
//!
//! Only this module builds a `JsonDoc`, a `JsonNode` or a `JsonError`:
//! `json_from_str` makes the document, or the error, from its text,
//! `JsonDoc::root` starts at the root with an empty path, and `json_get` adds
//! the key it follows. So the ghost text and path of every node, and the
//! ghost text of every error, are where it came from.

use vstd::prelude::*;

verus! {

/// `serde_json::Value`: opaque here.
#[verifier::external_type_specification]
#[verifier::external_body]
pub struct ExJsonValue(serde_json::Value);

/// `serde_json::Error`: opaque here.
#[verifier::external_type_specification]
#[verifier::external_body]
pub struct ExJsonError(serde_json::Error);

/// Whether `serde_json::from_str::<Value>` accepts `text`.
pub uninterp spec fn json_accepts(text: Seq<char>) -> bool;

/// Whether the error that `serde_json::from_str::<Value>` gives on `text`
/// is one of a text that ended too early (`Error::is_eof`).
pub uninterp spec fn json_truncated(text: Seq<char>) -> bool;

/// The `Display` text of the error that `serde_json::from_str::<Value>`
/// gives on `text`.
pub uninterp spec fn json_error_text(text: Seq<char>) -> Seq<char>;

/// Whether `Value::get` finds the last key of `path` in the value reached by
/// following the keys before it from the root of the document `text`.
pub uninterp spec fn json_has(text: Seq<char>, path: Seq<Seq<char>>) -> bool;

/// What `Value::as_i64` gives of the value at `path` in the document `text`.
pub uninterp spec fn json_i64_at(text: Seq<char>, path: Seq<Seq<char>>) -> Option<i64>;

/// What `Value::as_str` gives of the value at `path` in the document `text`.
pub uninterp spec fn json_str_at(text: Seq<char>, path: Seq<Seq<char>>) -> Option<Seq<char>>;

/// The length of what `Value::as_array` gives of the value at `path` in the
/// document `text`.
pub uninterp spec fn json_array_len_at(text: Seq<char>, path: Seq<Seq<char>>) -> Option<nat>;

/// A parsed JSON document and the text it was parsed from.
pub struct JsonDoc {
    value: serde_json::Value,
    text: Ghost<Seq<char>>,
}

/// The error of a refused document and the text it was refused on.
pub struct JsonError {
    error: serde_json::Error,
    text: Ghost<Seq<char>>,
}

impl JsonError {
    /// The text that was refused.
    pub closed spec fn text(&self) -> Seq<char> {
        self.text@
    }
}

/// A value inside a parsed document, with the document's text and the keys
/// followed from its root to reach it.
pub struct JsonNode<'a> {
    value: &'a serde_json::Value,
    text: Ghost<Seq<char>>,
    path: Ghost<Seq<Seq<char>>>,
}

impl JsonDoc {
    /// The text the document was parsed from.
    pub closed spec fn text(&self) -> Seq<char> {
        self.text@
    }

    /// The root of the document.
    pub fn root(&self) -> (r: JsonNode<'_>)
        ensures
            r.text() == self.text(),
            r.path() == Seq::<Seq<char>>::empty(),
    {
        JsonNode { value: &self.value, text: self.text, path: Ghost(Seq::empty()) }
    }
}

impl<'a> JsonNode<'a> {
    /// The text of the document this value is in.
    pub closed spec fn text(&self) -> Seq<char> {
        self.text@
    }

    /// The keys followed from the root of the document to this value.
    pub closed spec fn path(&self) -> Seq<Seq<char>> {
        self.path@
    }
}

/// `serde_json::from_str::<Value>`: parses `text`, and succeeds exactly on
/// the texts that `json_accepts`; the document, or the error, remembers its
/// text.
#[verifier::external_body]
pub(crate) fn json_from_str(text: &str) -> (r: Result<JsonDoc, JsonError>)
    ensures
        r is Ok <==> json_accepts(text@),
        r matches Ok(d) ==> d.text() == text@,
        r matches Err(e) ==> e.text() == text@,
{
    match serde_json::from_str(text) {
        Ok(value) => Ok(JsonDoc { value, text: Ghost(text@) }),
        Err(error) => Err(JsonError { error, text: Ghost(text@) }),
    }
}

/// The text of `serde_json::Error`'s `Display`: named by `json_error_text`.
#[verifier::external_body]
pub(crate) fn json_error_message(e: &JsonError) -> (r: String)
    ensures
        r@ == json_error_text(e.text()),
{
    e.error.to_string()
}

/// `serde_json::Error::is_eof`: whether the text ended before the document
/// was complete; named by `json_truncated`.
#[verifier::external_body]
pub(crate) fn json_error_is_eof(e: &JsonError) -> (r: bool)
    ensures
        r == json_truncated(e.text()),
{
    e.error.is_eof()
}

/// `serde_json::Value::get` with a string key: the member `key` of the
/// value, present exactly where `json_has` says so for the path extended by
/// `key`.
#[verifier::external_body]
pub(crate) fn json_get<'a>(node: &JsonNode<'a>, key: &str) -> (r: Option<JsonNode<'a>>)
    ensures
        r is Some <==> json_has(node.text(), node.path().push(key@)),
        r matches Some(m) ==> m.text() == node.text() && m.path() == node.path().push(key@),
{
    match node.value.get(key) {
        Some(value) => Some(JsonNode { value, text: node.text, path: Ghost(node.path@.push(key@)) }),
        None => None,
    }
}

/// `serde_json::Value::as_i64`: named by `json_i64_at`.
#[verifier::external_body]
pub(crate) fn json_as_i64(node: &JsonNode) -> (r: Option<i64>)
    ensures
        r == json_i64_at(node.text(), node.path()),
{
    node.value.as_i64()
}

/// `serde_json::Value::as_str`: named by `json_str_at`.
#[verifier::external_body]
pub(crate) fn json_as_str<'a>(node: &JsonNode<'a>) -> (r: Option<&'a str>)
    ensures
        match r {
            Some(s) => json_str_at(node.text(), node.path()) == Some(s@),
            None => json_str_at(node.text(), node.path()) is None,
        },
{
    node.value.as_str()
}

/// `serde_json::Value::as_array`: its length is named by
/// `json_array_len_at`; the items are opaque here.
#[verifier::external_body]
pub(crate) fn json_as_array<'a>(node: &JsonNode<'a>) -> (r: Option<&'a Vec<serde_json::Value>>)
    ensures
        match r {
            Some(items) => json_array_len_at(node.text(), node.path()) == Some(items@.len()),
            None => json_array_len_at(node.text(), node.path()) is None,
        },
{
    node.value.as_array()
}

} // verus!

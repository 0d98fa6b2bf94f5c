//! A JSON tree of the library's own, with total accessors: a lookup on a
//! value of another shape answers `None`.

use vstd::prelude::*;
use crate::text::same_text;

verus! {

/// A JSON value. A number is kept as its decimal text; an object as its
/// members in the order in which the parser hands them out.
#[derive(Debug)]
pub enum Json {
    Null,
    Bool(bool),
    Number(String),
    Text(String),
    Array(Vec<Json>),
    Object(Vec<(String, Json)>),
}

/// The value of the first member named `key`, at or after index `from`.
pub open spec fn lookup(members: Seq<(String, Json)>, key: Seq<char>, from: int) -> Option<Json>
    decreases members.len() - from,
{
    if from < 0 || from >= members.len() {
        None
    } else if members[from].0@ == key {
        Some(members[from].1)
    } else {
        lookup(members, key, from + 1)
    }
}

impl Json {
    /// The member `key` of an object; `None` for any other value.
    pub open spec fn member(&self, key: Seq<char>) -> Option<Json> {
        match self {
            Json::Object(members) => lookup(members@, key, 0),
            _ => None,
        }
    }

    /// The elements of an array; `None` for any other value.
    pub open spec fn items(&self) -> Option<Seq<Json>> {
        match self {
            Json::Array(elements) => Some(elements@),
            _ => None,
        }
    }

    /// The characters of a string; `None` for any other value.
    pub open spec fn text(&self) -> Option<Seq<char>> {
        match self {
            Json::Text(s) => Some(s@),
            _ => None,
        }
    }

    /// Looks up the member `key`.
    pub fn get(&self, key: &str) -> (r: Option<&Json>)
        ensures
            match r {
                Some(value) => self.member(key@) == Some(*value),
                None => self.member(key@).is_none(),
            },
    {
        match self {
            Json::Object(members) => {
                let mut i: usize = 0;
                while i < members.len()
                    invariant
                        i <= members.len(),
                        self.member(key@) == lookup(members@, key@, 0),
                        lookup(members@, key@, 0) == lookup(members@, key@, i as int),
                    decreases members.len() - i,
                {
                    if same_text(members[i].0.as_str(), key) {
                        return Some(&members[i].1);
                    }
                    i += 1;
                }
                None
            },
            _ => None,
        }
    }

    /// The elements, if this is an array.
    pub fn as_array(&self) -> (r: Option<&Vec<Json>>)
        ensures
            match r {
                Some(elements) => self.items() == Some(elements@),
                None => self.items().is_none(),
            },
    {
        match self {
            Json::Array(elements) => Some(elements),
            _ => None,
        }
    }

    /// The characters, if this is a string.
    pub fn as_str(&self) -> (r: Option<&str>)
        ensures
            match r {
                Some(s) => self.text() == Some(s@),
                None => self.text().is_none(),
            },
    {
        match self {
            Json::Text(s) => Some(s.as_str()),
            _ => None,
        }
    }
}

/// What `serde_json` makes of `text`: the tree it parses to, or `None` where
/// it rejects the input.
pub uninterp spec fn parsed_text(text: Seq<char>) -> Option<Json>;

/// What `serde_json` makes of `bytes`: the tree it parses to, or `None` where
/// it rejects the input.
pub uninterp spec fn parsed_bytes(bytes: Seq<u8>) -> Option<Json>;

/// `serde_json::Value`, the parser's own tree; nothing of it is read here.
#[verifier::external_type_specification]
#[verifier::external_body]
pub struct ExValue(serde_json::Value);

/// Trusted: rebuilds a `serde_json::Value` as a `Json`, variant by variant.
/// Nothing is claimed of it; the parsers below name what they return.
#[verifier::external_body]
pub(crate) fn from_value(value: serde_json::Value) -> Json {
    match value {
        serde_json::Value::Null => Json::Null,
        serde_json::Value::Bool(b) => Json::Bool(b),
        serde_json::Value::Number(n) => Json::Number(n.to_string()),
        serde_json::Value::String(s) => Json::Text(s),
        serde_json::Value::Array(a) => Json::Array(a.into_iter().map(from_value).collect()),
        serde_json::Value::Object(m) => Json::Object(
            m.into_iter().map(|(k, v)| (k, from_value(v))).collect(),
        ),
    }
}

/// Trusted: `serde_json::from_str` at `serde_json::Value`. The outcome is a
/// function of the text alone; a rejected input gives `None`.
#[verifier::external_body]
pub(crate) fn parse_text(text: &str) -> (r: Option<Json>)
    ensures
        r == parsed_text(text@),
{
    match serde_json::from_str::<serde_json::Value>(text) {
        Ok(value) => Some(from_value(value)),
        Err(_) => None,
    }
}

/// Trusted: `serde_json::from_slice` at `serde_json::Value`. The outcome is a
/// function of the bytes alone; a rejected input gives `None`.
#[verifier::external_body]
pub(crate) fn parse_bytes(bytes: &[u8]) -> (r: Option<Json>)
    ensures
        r == parsed_bytes(bytes@),
{
    match serde_json::from_slice::<serde_json::Value>(bytes) {
        Ok(value) => Some(from_value(value)),
        Err(_) => None,
    }
}

} // verus!

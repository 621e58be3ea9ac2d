//! JSON documents as plain values.
//!
//! Reading a text as JSON is left to `serde_json`. What it finds is handed
//! on as a [`Json`] value, which holds what the decoders of this library
//! read: the shape of a document, its strings, and those of its numbers that
//! are written without fraction or exponent, are not negative, and fit in 64
//! bits.

use vstd::prelude::*;

verus! {

/// A JSON document or a part of one.
#[derive(Debug)]
pub enum Json {
    Null,
    Bool(bool),
    /// A number; its value where it is written without fraction or exponent,
    /// is not negative, and fits in 64 bits.
    Number(Option<u64>),
    String(String),
    Array(Vec<Json>),
    /// The members of an object. Where a name stands more than once, the
    /// first member of that name counts.
    Object(Vec<(String, Json)>),
}

/// `serde_json::Value`, which `serde_json::from_str` returns.
#[verifier::external_type_specification]
#[verifier::external_body]
pub struct ExValue(serde_json::Value);

/// The document that `serde_json` reads from a text; `None` where it reads
/// none.
pub uninterp spec fn json_document(text: Seq<char>) -> Option<Json>;

/// The first of `members` whose name is `name`, counting from `from`.
pub open spec fn member_named(members: Seq<(String, Json)>, name: Seq<char>, from: int) -> Option<
    Json,
>
    decreases members.len() - from,
{
    if from < 0 || from >= members.len() {
        None
    } else if members[from].0@ == name {
        Some(members[from].1)
    } else {
        member_named(members, name, from + 1)
    }
}

impl Json {
    /// The member `name` of an object; `None` for an object without it and
    /// for anything that is no object.
    pub open spec fn member(self, name: Seq<char>) -> Option<Json> {
        match self {
            Json::Object(members) => member_named(members@, name, 0),
            _ => None,
        }
    }

    /// The items of an array; `None` for anything else.
    pub open spec fn items(self) -> Option<Seq<Json>> {
        match self {
            Json::Array(items) => Some(items@),
            _ => None,
        }
    }

    /// The characters of a string; `None` for anything else.
    pub open spec fn text(self) -> Option<Seq<char>> {
        match self {
            Json::String(text) => Some(text@),
            _ => None,
        }
    }

    /// The value of a number that is written without fraction or exponent,
    /// is not negative, and fits in 64 bits; `None` for anything else.
    pub open spec fn whole_number(self) -> Option<u64> {
        match self {
            Json::Number(value) => value,
            _ => None,
        }
    }

    /// Reads `text` as a JSON document.
    pub fn parse(text: &str) -> (r: Option<Json>)
        ensures
            r == json_document(text@),
    {
        read_document(text)
    }

    /// The member `name` of an object.
    pub fn get(&self, name: &str) -> (r: Option<&Json>)
        ensures
            match r {
                Some(found) => self.member(name@) == Some(*found),
                None => self.member(name@) is None,
            },
    {
        match self {
            Json::Object(members) => {
                let wanted = name.to_owned();
                let mut i: usize = 0;
                while i < members.len()
                    invariant
                        0 <= i <= members.len(),
                        wanted@ == name@,
                        self.member(name@) == member_named(members@, name@, 0),
                        member_named(members@, name@, 0) == member_named(
                            members@,
                            name@,
                            i as int,
                        ),
                    decreases members.len() - i,
                {
                    let member = &members[i];
                    if member.0 == wanted {
                        return Some(&member.1);
                    }
                    i = i + 1;
                }
                None
            },
            _ => None,
        }
    }

    /// The items of an array.
    pub fn as_array(&self) -> (r: Option<&Vec<Json>>)
        ensures
            match r {
                Some(items) => self.items() == Some(items@),
                None => self.items() is None,
            },
    {
        match self {
            Json::Array(items) => Some(items),
            _ => None,
        }
    }

    /// The characters of a string.
    pub fn as_str(&self) -> (r: Option<&str>)
        ensures
            match r {
                Some(text) => self.text() == Some(text@),
                None => self.text() is None,
            },
    {
        match self {
            Json::String(text) => Some(text.as_str()),
            _ => None,
        }
    }

    /// The value of a number that is written without fraction or exponent,
    /// is not negative, and fits in 64 bits.
    pub fn as_u64(&self) -> (r: Option<u64>)
        ensures
            r == self.whole_number(),
    {
        match self {
            Json::Number(value) => *value,
            _ => None,
        }
    }
}

/// Reads `text` as a JSON document.
///
/// Calls `serde_json::from_str` for a `serde_json::Value` and hands the
/// value on as a [`Json`]. The result depends on the text alone; the contract
/// gives it a name and says nothing of what the document holds.
#[verifier::external_body]
pub(crate) fn read_document(text: &str) -> (r: Option<Json>)
    ensures
        r == json_document(text@),
{
    match serde_json::from_str::<serde_json::Value>(text) {
        Ok(value) => Some(json_of_value(&value)),
        Err(_) => None,
    }
}

/// Hands a `serde_json::Value` on as a [`Json`], variant by variant: an
/// array item by item, an object member by member in the order in which
/// `serde_json` walks it, a number as what `Number::as_u64` returns for it.
/// Nothing is said of the result.
#[verifier::external_body]
pub(crate) fn json_of_value(value: &serde_json::Value) -> (r: Json) {
    match value {
        serde_json::Value::Null => Json::Null,
        serde_json::Value::Bool(b) => Json::Bool(*b),
        serde_json::Value::Number(n) => Json::Number(n.as_u64()),
        serde_json::Value::String(s) => Json::String(s.clone()),
        serde_json::Value::Array(a) => Json::Array(a.iter().map(json_of_value).collect()),
        serde_json::Value::Object(o) => Json::Object(
            o.iter().map(|(k, v)| (k.clone(), json_of_value(v))).collect(),
        ),
    }
}

} // verus!

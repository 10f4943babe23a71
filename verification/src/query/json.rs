//! JSON values, as far as query requests use them.

use vstd::prelude::*;
use crate::text::chars::same_text;

verus! {

/// A JSON number: its value where that is an unsigned integer, and the text of
/// its single-precision form where that is finite.
#[derive(Debug)]
pub struct JsonNumber {
    pub unsigned: Option<u64>,
    pub narrow: Option<String>,
}

#[derive(Debug)]
pub enum Json {
    Null,
    Bool(bool),
    Number(JsonNumber),
    String(String),
    Array(Vec<Json>),
    /// The members, under distinct keys.
    Object(Vec<(String, Json)>),
}

/// The first member under `key`, from index `i` on.
pub open spec fn member_from(members: Seq<(String, Json)>, key: Seq<char>, i: int) -> Option<Json>
    decreases members.len() - i,
{
    if i < 0 || i >= members.len() {
        None
    } else if members[i].0@ == key {
        Some(members[i].1)
    } else {
        member_from(members, key, i + 1)
    }
}

/// The member of an object under `key`; other values have none.
pub open spec fn member(value: Json, key: Seq<char>) -> Option<Json> {
    match value {
        Json::Object(members) => member_from(members@, key, 0),
        _ => None,
    }
}

/// The member under `key` of a value that may be absent.
pub open spec fn opt_member(value: Option<Json>, key: Seq<char>) -> Option<Json> {
    match value {
        Some(v) => member(v, key),
        None => None,
    }
}

/// The text of a string.
pub open spec fn as_text(value: Json) -> Option<Seq<char>> {
    match value {
        Json::String(t) => Some(t@),
        _ => None,
    }
}

/// The text of a member that is a string.
pub open spec fn text_member(value: Option<Json>, key: Seq<char>) -> Option<Seq<char>> {
    match opt_member(value, key) {
        Some(v) => as_text(v),
        None => None,
    }
}

/// The value of an unsigned integer.
pub open spec fn as_unsigned(value: Json) -> Option<u64> {
    match value {
        Json::Number(n) => n.unsigned,
        _ => None,
    }
}

/// The member of an object under `key`.
pub fn get_member<'a>(value: Option<&'a Json>, key: &str) -> (r: Option<&'a Json>)
    ensures
        r is Some <==> opt_member(opt_json(value), key@) is Some,
        r is Some ==> opt_member(opt_json(value), key@) == Some(*r->0),
{
    match value {
        Some(Json::Object(members)) => {
            let mut i: usize = 0;
            while i < members.len()
                invariant
                    i <= members@.len(),
                    value matches Some(v) && *v matches Json::Object(m) && m == *members,
                    opt_member(opt_json(value), key@) == member_from(members@, key@, i as int),
                decreases members@.len() - i,
            {
                if same_text(members[i].0.as_str(), key) {
                    return Some(&members[i].1);
                }
                i += 1;
            }
            None
        },
        _ => None,
    }
}

/// The value behind an optional reference.
pub open spec fn opt_json(value: Option<&Json>) -> Option<Json> {
    match value {
        Some(v) => Some(*v),
        None => None,
    }
}

/// The text of a member that is a string.
pub fn get_text<'a>(value: Option<&'a Json>, key: &str) -> (r: Option<&'a str>)
    ensures
        r is Some <==> text_member(opt_json(value), key@) is Some,
        r is Some ==> text_member(opt_json(value), key@) == Some(r->0@),
{
    match get_member(value, key) {
        Some(Json::String(t)) => Some(t.as_str()),
        _ => None,
    }
}

} // verus!

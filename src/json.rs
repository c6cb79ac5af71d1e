//! The JSON replies of the block explorer, read through `serde_json`.
//!
//! A reply is parsed once and kept with its text. What can be read from it
//! is stated over that text, through names for what `serde_json` finds there.
use vstd::prelude::*;

verus! {

#[verifier::external_type_specification]
#[verifier::external_body]
pub struct ExJsonValue(serde_json::Value);

pub open spec fn text_of(o: Option<String>) -> Option<Seq<char>> {
    match o {
        Some(s) => Some(s@),
        None => None,
    }
}

pub open spec fn count_of(o: Option<usize>) -> Option<nat> {
    match o {
        Some(n) => Some(n as nat),
        None => None,
    }
}

/// The text is one that `serde_json` accepts as a JSON document.
pub uninterp spec fn is_json(text: Seq<char>) -> bool;

/// The string under `key` in the top-level object of the document `text`;
/// `None` where there is no string there.
pub uninterp spec fn reply_member(text: Seq<char>, key: Seq<char>) -> Option<Seq<char>>;

/// The length of the array under `key` in the document `text`; `None` where
/// there is no array there.
pub uninterp spec fn reply_list_len(text: Seq<char>, key: Seq<char>) -> Option<nat>;

/// The string under `field` in element `index` of the array under `key` in
/// the document `text`; `None` where there is no string there.
pub uninterp spec fn reply_entry(text: Seq<char>, key: Seq<char>, index: nat, field: Seq<char>) -> Option<
    Seq<char>,
>;

/// A JSON document together with the text it was parsed from. Only
/// `parse_reply` makes one, so the document is always that text's parse.
pub struct Reply {
    value: serde_json::Value,
    text: String,
}

impl Reply {
    /// The text that the document was parsed from.
    pub closed spec fn source(&self) -> Seq<char> {
        self.text@
    }
}

/// Relies on `serde_json::from_str`: it succeeds exactly on the text that
/// serde_json accepts, which depends on the characters alone.
#[verifier::external_body]
pub fn parse_reply(text: &str) -> (r: Option<Reply>)
    ensures
        r.is_some() == is_json(text@),
        r matches Some(p) ==> p.source() == text@,
{
    match serde_json::from_str::<serde_json::Value>(text) {
        Ok(value) => Some(Reply { value, text: text.to_owned() }),
        Err(_) => None,
    }
}

/// Relies on `Index<&str>` of `serde_json::Value` (null where the key is
/// missing; it never panics) and `Value::as_str`.
#[verifier::external_body]
pub fn member_text(reply: &Reply, key: &str) -> (r: Option<String>)
    ensures
        text_of(r) == reply_member(reply.source(), key@),
{
    reply.value[key].as_str().map(str::to_owned)
}

/// Relies on `Index<&str>` of `serde_json::Value` and `Value::as_array`.
#[verifier::external_body]
pub fn list_len(reply: &Reply, key: &str) -> (r: Option<usize>)
    ensures
        count_of(r) == reply_list_len(reply.source(), key@),
{
    reply.value[key].as_array().map(Vec::len)
}

/// Relies on `Index<&str>` and `Index<usize>` of `serde_json::Value` (null
/// where the key or position is missing; they never panic) and
/// `Value::as_str`.
#[verifier::external_body]
pub fn entry_text(reply: &Reply, key: &str, index: usize, field: &str) -> (r: Option<String>)
    ensures
        text_of(r) == reply_entry(reply.source(), key@, index as nat, field@),
{
    reply.value[key][index][field].as_str().map(str::to_owned)
}

} // verus!

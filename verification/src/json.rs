//! Reading one member of a JSON document's root object (through `serde_json`).
use vstd::prelude::*;

verus! {

/// What `serde_json::from_str::<serde_json::Value>` makes of `text`, seen
/// through the root object: `Err(message)` when the text is not JSON (the
/// message is the parser error's `Display`), `Ok(None)` when the root is not
/// an object, and otherwise the root object's members, each mapped to
/// `Some(text)` for a string value and `None` for any other value.
pub uninterp spec fn json_root_members(text: Seq<char>) -> Result<
    Option<Map<Seq<char>, Option<Seq<char>>>>,
    Seq<char>,
>;

/// One member of the root object of a JSON document.
#[derive(Debug, Clone)]
pub enum JsonMember {
    /// The text is not JSON; the parser's error message.
    Invalid(String),
    /// The root value is not an object.
    NotObject,
    /// The root object has no such member.
    Missing,
    /// The member's value is not a string.
    NotText,
    /// The member's string value.
    Text(String),
}

/// Parses `text` with `serde_json::from_str` into a `serde_json::Value` and
/// looks up `key` in its root object (`serde_json::Map::get`). The contract
/// claims only that the outcome is the one that `json_root_members` names for
/// `text` at `key`; what the parser accepts is not stated.
#[verifier::external_body]
pub(crate) fn json_member(text: &str, key: &str) -> (r: JsonMember)
    ensures
        match json_root_members(text@) {
            Err(message) => r matches JsonMember::Invalid(m) && m@ == message,
            Ok(None) => r is NotObject,
            Ok(Some(members)) => if !members.dom().contains(key@) {
                r is Missing
            } else {
                match members[key@] {
                    None => r is NotText,
                    Some(value) => r matches JsonMember::Text(v) && v@ == value,
                }
            },
        },
{
    match serde_json::from_str::<serde_json::Value>(text) {
        Err(error) => JsonMember::Invalid(error.to_string()),
        Ok(serde_json::Value::Object(members)) => match members.get(key) {
            None => JsonMember::Missing,
            Some(serde_json::Value::String(value)) => JsonMember::Text(value.clone()),
            Some(_) => JsonMember::NotText,
        },
        Ok(_) => JsonMember::NotObject,
    }
}

} // verus!

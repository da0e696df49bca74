use vstd::prelude::*;

verus! {

/// The message of the error that `serde_json::from_str::<serde_json::Value>`
/// gives for a text, or `None` when the text is JSON.
pub uninterp spec fn json_parse_error(text: Seq<char>) -> Option<Seq<char>>;

/// For a JSON text: the member `key` of its top-level object when that member
/// is a string (`serde_json::Value::get` then `as_str`).
pub uninterp spec fn json_string_member(text: Seq<char>, key: Seq<char>) -> Option<Seq<char>>;

/// For a JSON text: the members of the object under `key` of its top-level
/// object, in the order `serde_json::Map` walks them, each with its value when
/// that is a string (`get`, `as_object`, then `as_str` on each value).
pub uninterp spec fn json_object_members(text: Seq<char>, key: Seq<char>) -> Option<
    Seq<(Seq<char>, Option<Seq<char>>)>,
>;

/// Reads a text as JSON (`serde_json::from_str::<serde_json::Value>`). Trusted:
/// the result is `json_parse_error(text)`: the error's message, or `None` when
/// the text is JSON.
#[verifier::external_body]
pub(crate) fn json_error_of(text: &str) -> (r: Option<String>)
    ensures
        match json_parse_error(text@) {
            Some(e) => r matches Some(x) && x@ == e,
            None => r is None,
        },
{
    match serde_json::from_str::<serde_json::Value>(text) {
        Ok(_) => None,
        Err(e) => Some(e.to_string()),
    }
}

/// Picks a string member out of a JSON text (`serde_json::from_str`, then
/// `Value::get(key)` and `Value::as_str`). Trusted: the result is
/// `json_string_member(text, key)`.
#[verifier::external_body]
pub(crate) fn json_string_member_of(text: &str, key: &str) -> (r: Option<String>)
    requires
        json_parse_error(text@) is None,
    ensures
        match json_string_member(text@, key@) {
            Some(v) => r matches Some(x) && x@ == v,
            None => r is None,
        },
{
    match serde_json::from_str::<serde_json::Value>(text) {
        Ok(v) => v.get(key).and_then(|m| m.as_str()).map(|s| s.to_string()),
        Err(_) => None,
    }
}

/// The plain value of a list of members.
pub open spec fn members_view(m: Seq<(String, Option<String>)>) -> Seq<(Seq<char>, Option<Seq<char>>)> {
    m.map_values(
        |e: (String, Option<String>)|
            (
                e.0@,
                match e.1 {
                    Some(v) => Some(v@),
                    None => None,
                },
            ),
    )
}

/// Lists the members of an object inside a JSON text (`serde_json::from_str`,
/// then `Value::get(key)`, `Value::as_object`, and `Value::as_str` on each
/// member's value). Trusted: the result is `json_object_members(text, key)`.
#[verifier::external_body]
pub(crate) fn json_object_members_of(text: &str, key: &str) -> (r: Option<Vec<(String, Option<String>)>>)
    requires
        json_parse_error(text@) is None,
    ensures
        match json_object_members(text@, key@) {
            Some(m) => r matches Some(x) && members_view(x@) == m,
            None => r is None,
        },
{
    match serde_json::from_str::<serde_json::Value>(text) {
        Ok(v) => v.get(key).and_then(|d| d.as_object()).map(
            |m| m.iter().map(|(k, x)| (k.clone(), x.as_str().map(|s| s.to_string()))).collect(),
        ),
        Err(_) => None,
    }
}


/// The text that `serde_json::to_string_pretty` writes for the JSON object with
/// the string members `k1: v1` and `k2: v2`.
pub uninterp spec fn json_pair_object(k1: Seq<char>, v1: Seq<char>, k2: Seq<char>, v2: Seq<char>) -> Seq<char>;

/// Writes the JSON object with the string members `k1: v1` and `k2: v2` as
/// indented text (`serde_json::to_string_pretty` of a `Value::Object`).
/// Trusted: the result is `json_pair_object(k1, v1, k2, v2)`; it reads back as
/// JSON; and, when the two keys differ, each key's member reads back as its
/// value (serde_json writes a string member so that its parser gives the same
/// string back). What it gives for two equal keys is left unsaid.
#[verifier::external_body]
pub(crate) fn json_pair_object_text(k1: &str, v1: &str, k2: &str, v2: &str) -> (r: String)
    ensures
        r@ == json_pair_object(k1@, v1@, k2@, v2@),
        json_parse_error(r@) is None,
        k1@ != k2@ ==> json_string_member(r@, k1@) == Some(v1@),
        k1@ != k2@ ==> json_string_member(r@, k2@) == Some(v2@),
{
    let mut m = serde_json::Map::new();
    m.insert(k1.to_string(), serde_json::Value::String(v1.to_string()));
    m.insert(k2.to_string(), serde_json::Value::String(v2.to_string()));
    match serde_json::to_string_pretty(&serde_json::Value::Object(m)) {
        Ok(s) => s,
        Err(_) => String::new(),
    }
}

} // verus!

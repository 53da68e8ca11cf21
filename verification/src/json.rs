//! What is read from JSON text.

use vstd::prelude::*;

verus! {

/// The integer that `serde_json` reads under a key of an object; nothing where the text is no
/// object, lacks the key or holds something else there.
pub uninterp spec fn json_integer_of(text: Seq<char>, key: Seq<char>) -> Option<i64>;

/// Calls `serde_json::from_str`, `Value::get` and `Value::as_i64`. The contract claims only that
/// the result depends on nothing but the text and the key.
#[verifier::external_body]
pub(crate) fn json_integer(text: &str, key: &str) -> (r: Option<i64>)
    ensures
        r == json_integer_of(text@, key@),
{
    serde_json::from_str::<serde_json::Value>(text).ok()?.get(key)?.as_i64()
}

/// The truth value that `serde_json` reads under a key of an object; nothing where the text is no
/// object, lacks the key or holds something else there.
pub uninterp spec fn json_flag_of(text: Seq<char>, key: Seq<char>) -> Option<bool>;

/// Calls `serde_json::from_str`, `Value::get` and `Value::as_bool`. The contract claims only that
/// the result depends on nothing but the text and the key.
#[verifier::external_body]
pub(crate) fn json_flag(text: &str, key: &str) -> (r: Option<bool>)
    ensures
        r == json_flag_of(text@, key@),
{
    serde_json::from_str::<serde_json::Value>(text).ok()?.get(key)?.as_bool()
}

/// The length in bytes of a JSON text without the space that it can do without, as `serde_json`
/// writes it; nothing where the text is no JSON.
pub uninterp spec fn json_size_of(text: Seq<char>) -> Option<usize>;

/// Calls `serde_json::from_str` and `serde_json::to_vec`. The contract claims only that the length
/// depends on nothing but the text.
#[verifier::external_body]
pub(crate) fn json_size(text: &str) -> (r: Option<usize>)
    ensures
        r == json_size_of(text@),
{
    let value = serde_json::from_str::<serde_json::Value>(text).ok()?;
    serde_json::to_vec(&value).ok().map(|bytes| bytes.len())
}

} // verus!

//! JSON values, as `serde_json` reads and writes them.
use vstd::prelude::*;

verus! {

/// A JSON value, as `serde_json` holds it.
#[verifier::external_type_specification]
#[verifier::external_body]
pub struct ExValue(serde_json::Value);

/// The reason why `serde_json` refused a text.
#[verifier::external_type_specification]
#[verifier::external_body]
pub struct ExJsonError(serde_json::Error);

/// The value that `serde_json::from_str` reads out of a text, where it reads one.
pub uninterp spec fn json_value(text: Seq<char>) -> Option<serde_json::Value>;

/// The text that `serde_json::to_string` writes for a value.
pub uninterp spec fn json_text(value: serde_json::Value) -> Seq<char>;

/// Calls `serde_json::from_str`. The value that it reads, and whether it reads
/// one, depend on the text alone.
#[verifier::external_body]
pub(crate) fn parse_json(text: &str) -> (r: Result<serde_json::Value, serde_json::Error>)
    ensures
        r.ok() == json_value(text@),
{
    serde_json::from_str(text)
}

/// Calls `serde_json::to_string`, which writes every value. What it writes for a
/// value that was read from a text can be read again.
#[verifier::external_body]
pub(crate) fn write_json(value: &serde_json::Value) -> (r: Result<String, serde_json::Error>)
    ensures
        r is Ok,
        r->Ok_0@ == json_text(*value),
        (exists|t: Seq<char>| #[trigger] json_value(t) == Some(*value)) ==> json_value(
            r->Ok_0@,
        ) is Some,
{
    serde_json::to_string(value)
}

/// `serde_json::Value::is_null`: the one value that is written `null`.
pub assume_specification[ serde_json::Value::is_null ](value: &serde_json::Value) -> (b: bool)
    ensures
        b == (json_text(*value) == "null"@),
;

} // verus!

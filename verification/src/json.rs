//! Example values and their canonical JSON text, which `serde_json` writes.

use vstd::prelude::*;

verus! {

/// `serde_json::Value`, held as an opaque value.
#[verifier::external_type_specification]
#[verifier::external_body]
pub struct ExValue(serde_json::Value);

/// `serde_json::Error`, held as an opaque value.
#[verifier::external_type_specification]
#[verifier::external_body]
pub struct ExJsonError(serde_json::Error);

/// The compact JSON text of a value, where the serializer gives one.
pub uninterp spec fn json_text(value: serde_json::Value) -> Option<Seq<char>>;

/// Writes a value as compact JSON: `serde_json::to_string`. The contract
/// claims only that the outcome, the text or the failure, is determined by
/// the value.
#[verifier::external_body]
fn to_json_string(value: &serde_json::Value) -> (r: Result<String, serde_json::Error>)
    ensures
        match r {
            Ok(text) => json_text(*value) == Some(text@),
            Err(_) => json_text(*value) is None,
        },
{
    serde_json::to_string(value)
}

/// The compact JSON text of `value`, or `None` where it cannot be written.
pub fn canonical_text(value: &serde_json::Value) -> (r: Option<String>)
    ensures
        match r {
            Some(text) => json_text(*value) == Some(text@),
            None => json_text(*value) is None,
        },
{
    match to_json_string(value) {
        Ok(text) => Some(text),
        Err(_) => None,
    }
}

} // verus!

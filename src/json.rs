//! JSON values carried through the library unchanged (structured tool output and
//! output schemas), and their text forms.

use vstd::prelude::*;

verus! {

#[verifier::external_type_specification]
#[verifier::external_body]
pub struct ExJsonValue(serde_json::Value);

/// Relies on the `Clone` that `serde_json::Value` derives: the copy equals the value copied.
pub assume_specification[ <serde_json::Value as Clone>::clone ](v: &serde_json::Value) -> (r: serde_json::Value)
    ensures
        r == *v,
;

/// Relies on `serde_json::to_string` (falling back to `Display`, which writes the same
/// compact text) for the compact JSON text of a value.
#[verifier::external_body]
pub(crate) fn json_text(v: &serde_json::Value) -> (r: String) {
    serde_json::to_string(v).unwrap_or_else(|_| v.to_string())
}

/// Relies on `serde_json::to_string_pretty` (falling back to the compact text) for the
/// indented JSON text of a value.
#[verifier::external_body]
pub(crate) fn json_pretty_text(v: &serde_json::Value) -> (r: String) {
    serde_json::to_string_pretty(v).unwrap_or_else(|_| v.to_string())
}

/// Copies an optional JSON value.
pub fn copy_json_option(v: &Option<serde_json::Value>) -> (r: Option<serde_json::Value>)
    ensures
        r == *v,
{
    match v {
        Some(x) => Some(x.clone()),
        None => None,
    }
}

} // verus!

//! The element parser: one element's bytes to a JSON value.

use vstd::prelude::*;
use crate::error::JsonError;

verus! {

/// `serde_json::Value`, carried through unread.
#[verifier::external_type_specification]
#[verifier::external_body]
pub struct ExValue(serde_json::Value);

/// What `serde_json::from_slice` makes of `text` when asked for a
/// `serde_json::Value`.
pub uninterp spec fn parsed(text: Seq<u8>) -> Result<serde_json::Value, serde_json::Error>;

/// Calls `serde_json::from_slice` for a `serde_json::Value`.
///
/// Not proved: that the outcome depends on the bytes alone. The parser reads
/// nothing but its argument, so the same bytes give the same value or the
/// same error.
#[verifier::external_body]
pub(crate) fn parse_value(text: &[u8]) -> (r: Result<serde_json::Value, serde_json::Error>)
    ensures
        r == parsed(text@),
{
    serde_json::from_slice(text)
}

/// What the stream yields for an element whose parse gave `outcome`.
pub open spec fn element_outcome(
    outcome: Result<serde_json::Value, serde_json::Error>,
) -> Result<serde_json::Value, JsonError> {
    match outcome {
        Ok(value) => Ok(value),
        Err(e) => Err(JsonError::Malformed(e)),
    }
}

/// Turns the parser's outcome into the stream's: a value passes through, a
/// syntax error becomes `JsonError::Malformed`.
pub fn element_result(outcome: Result<serde_json::Value, serde_json::Error>) -> (r: Result<
    serde_json::Value,
    JsonError,
>)
    ensures
        r == element_outcome(outcome),
{
    match outcome {
        Ok(value) => Ok(value),
        Err(e) => Err(JsonError::from(e)),
    }
}

/// Parses the bytes of one element.
pub fn parse_element(text: &[u8]) -> (r: Result<serde_json::Value, JsonError>)
    ensures
        r == element_outcome(parsed(text@)),
{
    element_result(parse_value(text))
}

} // verus!

//! What a pull on the stream can fail with.

use vstd::prelude::*;
use vstd::std_specs::convert::FromSpecImpl;

verus! {

/// `std::io::Error`, carried through unread.
#[verifier::external_type_specification]
#[verifier::external_body]
pub struct ExIoError(std::io::Error);

/// `serde_json::Error`, carried through unread.
#[verifier::external_type_specification]
#[verifier::external_body]
pub struct ExSyntaxError(serde_json::Error);

/// The ways in which a pull on the stream fails.
#[derive(Debug)]
pub enum JsonError {
    /// The input source failed to produce more bytes. This is not the end of
    /// the input, which is no error.
    Io(std::io::Error),
    /// The bytes of one element are not a JSON value. The elements after it
    /// are unaffected.
    Malformed(serde_json::Error),
    /// The input ended inside an element.
    TruncatedInput,
}

impl From<serde_json::Error> for JsonError {
    fn from(e: serde_json::Error) -> (r: JsonError) {
        JsonError::Malformed(e)
    }
}

impl FromSpecImpl<serde_json::Error> for JsonError {
    open spec fn obeys_from_spec() -> bool {
        true
    }

    open spec fn from_spec(e: serde_json::Error) -> JsonError {
        JsonError::Malformed(e)
    }
}

} // verus!

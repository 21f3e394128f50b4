//! Types of other crates that pass through the library.
use vstd::prelude::*;

verus! {

/// `serde_json::Error`: why a text could not be read as JSON.
#[verifier::external_type_specification]
#[verifier::external_body]
pub struct ExJsonError(serde_json::Error);

} // verus!

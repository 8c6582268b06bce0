//! Fresh identifiers.

use vstd::prelude::*;

verus! {

/// Wraps `uuid::Uuid::new_v4`: a random identifier, written in the
/// hyphenated form. Nothing is promised of it; two calls may differ.
#[verifier::external_body]
pub(crate) fn fresh_id() -> (id: String) {
    uuid::Uuid::new_v4().to_string()
}

} // verus!

//! The provider-specific fields of a remote record that this crate must
//! round-trip unchanged are carried as one opaque JSON value. The engine
//! never reads inside such a value: it only moves and copies it.

use vstd::prelude::*;

verus! {

/// Relies on serde_json::Value as an opaque data type; the engine carries
/// values of it through unread.
#[verifier::external_type_specification]
#[verifier::external_body]
pub struct ExValue(serde_json::Value);

/// Relies on serde_json::Value's derived Clone: the copy equals the
/// original.
pub assume_specification[ <serde_json::Value as Clone>::clone ](v: &serde_json::Value) -> (r:
    serde_json::Value)
    ensures
        r == v,
;

} // verus!

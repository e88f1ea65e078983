//! An encrypted, queryable key-value store core: key types, wrap-key
//! methods, tag filters, and a session/scan engine over an in-memory
//! backend model.

pub mod b64;
pub mod cache;
pub mod error;
pub mod filter;
pub mod json;
pub mod keys;
pub mod kms;
pub mod laws;
pub mod registry;
pub mod store;
pub mod types;
pub mod wrap;

use vstd::prelude::*;

verus! {

/// Numeric code reported for a successful operation.
pub fn success_code() -> (r: u8)
    ensures
        r == 0,
{
    0
}

} // verus!

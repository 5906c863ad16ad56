//! Body chunks leave the parser as `bytes::Bytes` values, the cheap
//! reference-counted byte container the surrounding host consumes.

use vstd::prelude::*;

verus! {

#[verifier::external_type_specification]
#[verifier::external_body]
pub struct ExBytes(bytes::Bytes);

/// The byte contents of a `bytes::Bytes` value.
pub uninterp spec fn bytes_data(b: bytes::Bytes) -> Seq<u8>;

/// Relies on `bytes::Bytes::from(Vec<u8>)`: it takes ownership of the
/// vector and exposes exactly its contents.
#[verifier::external_body]
pub(crate) fn bytes_from_vec(v: Vec<u8>) -> (r: bytes::Bytes)
    ensures
        bytes_data(r) == v@,
{
    bytes::Bytes::from(v)
}

} // verus!

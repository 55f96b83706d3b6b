//! What is offered to a stream that takes shared bytes.

use bytes::Bytes;
use vstd::prelude::*;

verus! {

#[verifier::external_type_specification]
#[verifier::external_body]
pub struct ExBytes(bytes::Bytes);

/// The bytes that a `bytes::Bytes` holds.
pub uninterp spec fn content(b: Bytes) -> Seq<u8>;

/// Calls `bytes::Bytes::copy_from_slice`: the result holds the bytes of the slice.
#[verifier::external_body]
fn copy_from_slice(data: &[u8]) -> (r: Bytes)
    ensures
        content(r) == data@,
{
    Bytes::copy_from_slice(data)
}

/// The rest of a request, to be offered to a stream.
pub fn header_payload(rest: &Vec<u8>) -> (r: Bytes)
    ensures
        content(r) == rest@,
{
    copy_from_slice(rest.as_slice())
}

/// Zero bytes, to be offered to a stream.
pub fn zero_payload(len: usize) -> (r: Bytes)
    ensures
        content(r) == Seq::new(len as nat, |i: int| 0u8),
{
    let zeros: Vec<u8> = vec![0u8; len];
    assert(zeros@ =~= Seq::new(len as nat, |i: int| 0u8));
    copy_from_slice(zeros.as_slice())
}

} // verus!

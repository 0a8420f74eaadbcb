//! Owned byte buffers.

use bytes::Bytes;
use vstd::prelude::*;

verus! {

/// The outside buffer `bytes::Bytes`, whose fields stay hidden.
#[verifier::external_type_specification]
#[verifier::external_body]
pub struct ExBytes(Bytes);

/// The bytes that a buffer shows, as its slice view gives them.
pub uninterp spec fn content(buffer: Bytes) -> Seq<u8>;

/// `Bytes::new`: a buffer that shows nothing.
#[verifier::external_body]
pub(crate) fn empty_bytes() -> (r: Bytes)
    ensures
        content(r) == Seq::<u8>::empty(),
{
    Bytes::new()
}

/// `Bytes::len`: how many bytes the buffer shows.
#[verifier::external_body]
pub(crate) fn bytes_len(buffer: &Bytes) -> (r: usize)
    ensures
        r == content(*buffer).len(),
{
    buffer.len()
}

/// `Bytes::split_to`: takes the first `at` bytes off the front and hands them out. The outside
/// function panics where the buffer is shorter than that.
#[verifier::external_body]
pub(crate) fn split_front(buffer: &mut Bytes, at: usize) -> (r: Bytes)
    requires
        at <= content(*old(buffer)).len(),
    ensures
        content(r) == content(*old(buffer)).take(at as int),
        content(*final(buffer)) == content(*old(buffer)).skip(at as int),
{
    buffer.split_to(at)
}

/// `Bytes::from` of a vector: a buffer that shows the vector's bytes.
#[verifier::external_body]
pub(crate) fn bytes_from_vec(data: Vec<u8>) -> (r: Bytes)
    ensures
        content(r) == data@,
{
    Bytes::from(data)
}

} // verus!

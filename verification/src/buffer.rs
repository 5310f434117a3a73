//! The byte buffer that framed substreams read from and write to.

use libp2p::bytes::BytesMut;
use vstd::prelude::*;

verus! {

/// A growable buffer of bytes, from the `bytes` crate.
#[verifier::external_type_specification]
#[verifier::external_body]
pub struct ExBytesMut(BytesMut);

/// The bytes that a buffer holds, in order.
pub uninterp spec fn buffered(buffer: BytesMut) -> Seq<u8>;

/// Calls `AsRef::as_ref` on a buffer, which lends the bytes that it holds.
#[verifier::external_body]
pub(crate) fn buffer_bytes(buffer: &BytesMut) -> (bytes: &[u8])
    ensures
        bytes@ == buffered(*buffer),
{
    buffer.as_ref()
}

/// Calls `BytesMut::clone`, which copies the bytes into a buffer of its own.
#[verifier::external_body]
pub(crate) fn buffer_clone(buffer: &BytesMut) -> (copy: BytesMut)
    ensures
        buffered(copy) == buffered(*buffer),
{
    buffer.clone()
}

/// Calls `BytesMut::extend_from_slice`, which appends `bytes` to what the
/// buffer holds.
#[verifier::external_body]
pub(crate) fn buffer_extend(buffer: &mut BytesMut, bytes: &[u8])
    ensures
        buffered(*final(buffer)) == buffered(*old(buffer)) + bytes@,
{
    buffer.extend_from_slice(bytes)
}

/// Calls `BytesMut::split_to`, which takes the first `at` bytes out of the
/// buffer and returns them. It panics where the buffer holds fewer.
#[verifier::external_body]
pub(crate) fn buffer_split_to(buffer: &mut BytesMut, at: usize) -> (front: BytesMut)
    requires
        at <= buffered(*old(buffer)).len(),
    ensures
        buffered(front) == buffered(*old(buffer)).take(at as int),
        buffered(*final(buffer)) == buffered(*old(buffer)).skip(at as int),
{
    buffer.split_to(at)
}

} // verus!

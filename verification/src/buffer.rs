//! The byte buffer that frames are written to and read from.
use bytes::{Buf, BufMut, BytesMut};
use vstd::prelude::*;

verus! {

/// The growable byte buffer of the `bytes` crate.
#[verifier::external_type_specification]
#[verifier::external_body]
pub struct ExBytesMut(BytesMut);

/// The bytes that a buffer holds and has not yet given up.
pub uninterp spec fn contents(buffer: BytesMut) -> Seq<u8>;

/// How many bytes a buffer may hold. No allocation is larger than `isize::MAX`, and a buffer that
/// grows doubles what it has allocated, which may be twice what it holds.
pub open spec fn most_contents() -> int {
    isize::MAX / 4
}

/// Calls `<BytesMut as BufMut>::put_u8`: one byte is added at the end. It panics if the buffer
/// has to grow beyond the largest allocation, which does not happen within `most_contents`.
#[verifier::external_body]
pub(crate) fn put_u8(buffer: &mut BytesMut, byte: u8)
    requires
        contents(*old(buffer)).len() + 1 <= most_contents(),
    ensures
        contents(*final(buffer)) == contents(*old(buffer)).push(byte),
{
    buffer.put_u8(byte)
}

/// Calls `<BytesMut as BufMut>::put_slice`: the bytes of `src` are added at the end, in order.
/// It panics if the buffer has to grow beyond the largest allocation, which does not happen within
/// `most_contents`.
#[verifier::external_body]
pub(crate) fn put_slice(buffer: &mut BytesMut, src: &[u8])
    requires
        contents(*old(buffer)).len() + src@.len() <= most_contents(),
    ensures
        contents(*final(buffer)) == contents(*old(buffer)) + src@,
{
    buffer.put_slice(src)
}

/// Calls `<BytesMut as Deref>::deref`: the slice of all bytes in the buffer.
#[verifier::external_body]
pub(crate) fn as_slice(buffer: &BytesMut) -> (r: &[u8])
    ensures
        r@ == contents(*buffer),
{
    buffer
}

/// Calls `<BytesMut as Buf>::advance`: the first `count` bytes are dropped. It panics if the
/// buffer holds fewer.
#[verifier::external_body]
pub(crate) fn advance(buffer: &mut BytesMut, count: usize)
    requires
        count <= contents(*old(buffer)).len(),
    ensures
        contents(*final(buffer)) == contents(*old(buffer)).skip(count as int),
{
    buffer.advance(count)
}

} // verus!

//! Byte buffers of the `bytes` crate.

use bytes::{Buf, BufMut, Bytes, BytesMut};
use vstd::prelude::*;

verus! {

/// The growable byte buffer `bytes::BytesMut`.
#[verifier::external_type_specification]
#[verifier::external_body]
pub struct ExBytesMut(BytesMut);

/// The immutable, shareable byte string `bytes::Bytes`.
#[verifier::external_type_specification]
#[verifier::external_body]
pub struct ExBytes(Bytes);

/// The bytes that a `BytesMut` holds, first to last.
pub uninterp spec fn buffered(buf: BytesMut) -> Seq<u8>;

/// The bytes that a `Bytes` holds, first to last.
pub uninterp spec fn frozen(bytes: Bytes) -> Seq<u8>;

/// `BytesMut::with_capacity`: an empty buffer with room for `capacity` bytes.
///
/// An allocation larger than `isize::MAX` bytes is not possible, so such a
/// capacity is left out.
#[verifier::external_body]
pub(crate) fn with_capacity(capacity: usize) -> (buf: BytesMut)
    requires
        capacity <= isize::MAX,
    ensures
        buffered(buf) == Seq::<u8>::empty(),
{
    BytesMut::with_capacity(capacity)
}

/// `BytesMut::resize`: cuts the buffer to `len` bytes, or fills it up to `len`
/// bytes with `fill`.
#[verifier::external_body]
pub(crate) fn resize(buf: &mut BytesMut, len: usize, fill: u8)
    requires
        len <= isize::MAX,
    ensures
        buffered(*final(buf)) == Seq::new(
            len as nat,
            |i: int|
                if i < buffered(*old(buf)).len() {
                    buffered(*old(buf))[i]
                } else {
                    fill
                },
        ),
{
    buf.resize(len, fill)
}

/// `BytesMut::clear`: removes every byte.
#[verifier::external_body]
pub(crate) fn clear(buf: &mut BytesMut)
    ensures
        buffered(*final(buf)) == Seq::<u8>::empty(),
{
    buf.clear()
}

/// `BytesMut::reserve`: makes room for `additional` more bytes and leaves the
/// bytes as they are.
#[verifier::external_body]
pub(crate) fn reserve(buf: &mut BytesMut, additional: usize)
    requires
        buffered(*old(buf)).len() + additional <= isize::MAX,
    ensures
        buffered(*final(buf)) == buffered(*old(buf)),
{
    buf.reserve(additional)
}

/// `BufMut::put_slice` on a `BytesMut`: appends `src`.
#[verifier::external_body]
pub(crate) fn put_slice(buf: &mut BytesMut, src: &[u8])
    requires
        buffered(*old(buf)).len() + src@.len() <= isize::MAX,
    ensures
        buffered(*final(buf)) == buffered(*old(buf)) + src@,
{
    buf.put_slice(src)
}

/// `BufMut::put_u8` on a `BytesMut`: appends one byte.
#[verifier::external_body]
pub(crate) fn put_u8(buf: &mut BytesMut, byte: u8)
    requires
        buffered(*old(buf)).len() + 1 <= isize::MAX,
    ensures
        buffered(*final(buf)) == buffered(*old(buf)).push(byte),
{
    buf.put_u8(byte)
}

/// `BytesMut::as_ref`: the bytes as a slice.
#[verifier::external_body]
pub(crate) fn as_slice(buf: &BytesMut) -> (bytes: &[u8])
    ensures
        bytes@ == buffered(*buf),
{
    buf.as_ref()
}

/// `BytesMut::as_mut`: the bytes as a mutable slice; what is written into the
/// slice is what the buffer then holds.
#[verifier::external_body]
pub(crate) fn as_mut_slice(buf: &mut BytesMut) -> (bytes: &mut [u8])
    ensures
        bytes@ == buffered(*old(buf)),
        buffered(*final(buf)) == final(bytes)@,
{
    buf.as_mut()
}

/// `Buf::advance` on a `BytesMut`: drops the first `count` bytes.
#[verifier::external_body]
pub(crate) fn advance(buf: &mut BytesMut, count: usize)
    requires
        count <= buffered(*old(buf)).len(),
    ensures
        buffered(*final(buf)) == buffered(*old(buf)).skip(count as int),
{
    buf.advance(count)
}

/// `BytesMut::split_to`: takes the first `at` bytes out of the buffer and
/// returns them as a buffer of their own.
#[verifier::external_body]
pub(crate) fn split_to(buf: &mut BytesMut, at: usize) -> (head: BytesMut)
    requires
        at <= buffered(*old(buf)).len(),
    ensures
        buffered(head) == buffered(*old(buf)).take(at as int),
        buffered(*final(buf)) == buffered(*old(buf)).skip(at as int),
{
    buf.split_to(at)
}

/// `Bytes::copy_from_slice`: a byte string of its own that holds a copy of
/// `data`.
#[verifier::external_body]
pub(crate) fn copy_from_slice(data: &[u8]) -> (bytes: Bytes)
    ensures
        frozen(bytes) == data@,
{
    Bytes::copy_from_slice(data)
}

/// `Bytes::clone`: another handle on the same bytes.
#[verifier::external_body]
pub(crate) fn share(bytes: &Bytes) -> (shared: Bytes)
    ensures
        frozen(shared) == frozen(*bytes),
{
    bytes.clone()
}

} // verus!

//! The byte buffers of the `bytes` crate, as far as the codec uses them.
//!
//! Nothing in this file is proved. Each function makes one call into the
//! `bytes` crate, and its contract says what that call does to the bytes the
//! buffer holds.

use vstd::prelude::*;
use bytes::{BufMut, Bytes, BytesMut};

verus! {

#[verifier::external_type_specification]
#[verifier::external_body]
pub struct ExBytesMut(bytes::BytesMut);

#[verifier::external_type_specification]
#[verifier::external_body]
pub struct ExBytes(bytes::Bytes);

/// The bytes that a growable buffer holds, first to last.
pub uninterp spec fn held(buf: bytes::BytesMut) -> Seq<u8>;

/// The bytes that a frozen buffer holds, first to last.
pub uninterp spec fn frozen(buf: bytes::Bytes) -> Seq<u8>;

/// `BytesMut::new`: a buffer that holds nothing.
#[verifier::external_body]
pub(crate) fn buf_new() -> (buf: BytesMut)
    ensures
        held(buf) == Seq::<u8>::empty(),
{
    BytesMut::new()
}

/// `BytesMut::with_capacity`: a buffer that holds nothing. The capacity only
/// says how much room is set aside; a request for more than `isize::MAX`
/// bytes would panic.
#[verifier::external_body]
pub(crate) fn buf_with_capacity(capacity: usize) -> (buf: BytesMut)
    requires
        capacity <= isize::MAX,
    ensures
        held(buf) == Seq::<u8>::empty(),
{
    BytesMut::with_capacity(capacity)
}

/// `BytesMut::from` on a byte slice: a buffer that holds a copy of the
/// slice.
#[verifier::external_body]
pub(crate) fn buf_from_slice(src: &[u8]) -> (buf: BytesMut)
    ensures
        held(buf) == src@,
{
    BytesMut::from(src)
}

/// `BytesMut::len`: the number of bytes held.
#[verifier::external_body]
pub(crate) fn buf_len(buf: &BytesMut) -> (n: usize)
    ensures
        n == held(*buf).len(),
{
    buf.len()
}

/// `Deref` of `BytesMut`: the held bytes as a slice.
#[verifier::external_body]
pub(crate) fn buf_as_slice(buf: &BytesMut) -> (s: &[u8])
    ensures
        s@ == held(*buf),
{
    &buf[..]
}

/// `BufMut::put_u8` on `BytesMut`: one byte is appended. The buffer grows as
/// needed and panics only when its length would pass `isize::MAX`.
#[verifier::external_body]
pub(crate) fn buf_put_u8(buf: &mut BytesMut, byte: u8)
    requires
        held(*old(buf)).len() < isize::MAX,
    ensures
        held(*final(buf)) == held(*old(buf)).push(byte),
{
    buf.put_u8(byte);
}

/// `BufMut::put_u16_le` on `BytesMut`: the two bytes of `n` are appended,
/// low byte first.
#[verifier::external_body]
pub(crate) fn buf_put_u16_le(buf: &mut BytesMut, n: u16)
    requires
        held(*old(buf)).len() + 2 <= isize::MAX,
    ensures
        held(*final(buf)) == held(*old(buf)).push((n % 256) as u8).push((n / 256) as u8),
{
    buf.put_u16_le(n);
}

/// `BufMut::put_slice` on `BytesMut`: the bytes of `src` are appended in
/// order.
#[verifier::external_body]
pub(crate) fn buf_put_slice(buf: &mut BytesMut, src: &[u8])
    requires
        held(*old(buf)).len() + src@.len() <= isize::MAX,
    ensures
        held(*final(buf)) == held(*old(buf)) + src@,
{
    buf.put_slice(src);
}

/// `BytesMut::extend_from_slice`: the bytes of `src` are appended in order.
#[verifier::external_body]
pub(crate) fn buf_extend_from_slice(buf: &mut BytesMut, src: &[u8])
    requires
        held(*old(buf)).len() + src@.len() <= isize::MAX,
    ensures
        held(*final(buf)) == held(*old(buf)) + src@,
{
    buf.extend_from_slice(src);
}

/// `BytesMut::split_to`: the first `at` bytes leave the buffer and are
/// returned; the rest stays. The call panics when `at` is past the end.
#[verifier::external_body]
pub(crate) fn buf_split_to(buf: &mut BytesMut, at: usize) -> (front: BytesMut)
    requires
        at <= held(*old(buf)).len(),
    ensures
        held(front) == held(*old(buf)).subrange(0, at as int),
        held(*final(buf)) == held(*old(buf)).subrange(at as int, held(*old(buf)).len() as int),
{
    buf.split_to(at)
}

/// `BytesMut::split`: every byte leaves the buffer and is returned.
#[verifier::external_body]
pub(crate) fn buf_split(buf: &mut BytesMut) -> (all: BytesMut)
    ensures
        held(all) == held(*old(buf)),
        held(*final(buf)) == Seq::<u8>::empty(),
{
    buf.split()
}

/// `BytesMut::clear`: the buffer holds nothing afterwards.
#[verifier::external_body]
pub(crate) fn buf_clear(buf: &mut BytesMut)
    ensures
        held(*final(buf)) == Seq::<u8>::empty(),
{
    buf.clear();
}

/// `BytesMut::freeze`: the same bytes, no longer growable.
#[verifier::external_body]
pub(crate) fn buf_freeze(buf: BytesMut) -> (b: Bytes)
    ensures
        frozen(b) == held(buf),
{
    buf.freeze()
}

/// `Deref` of `Bytes`: the held bytes as a slice.
#[verifier::external_body]
pub(crate) fn bytes_as_slice(b: &Bytes) -> (s: &[u8])
    ensures
        s@ == frozen(*b),
{
    &b[..]
}

} // verus!

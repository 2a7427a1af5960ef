//! The growable output buffer of the `bytes` crate, as the encoders use it.
//!
//! Nothing in this file is proved: each function hands its arguments to the
//! `bytes` crate, and its contract says what that crate documents.

use bytes::{BufMut, Bytes, BytesMut};
use vstd::prelude::*;

verus! {

#[verifier::external_type_specification]
#[verifier::external_body]
pub struct ExBytesMut(BytesMut);

#[verifier::external_type_specification]
#[verifier::external_body]
pub struct ExBytes(Bytes);

/// The bytes that a `BytesMut` holds, first written first.
pub uninterp spec fn written(buf: BytesMut) -> Seq<u8>;

/// The bytes that a frozen `Bytes` holds.
pub uninterp spec fn frozen(bytes: Bytes) -> Seq<u8>;

/// The two bytes of `v`, most significant first.
pub open spec fn be16(v: u16) -> Seq<u8> {
    seq![(v / 256) as u8, (v % 256) as u8]
}

/// The four bytes of `v`, most significant first.
pub open spec fn be32(v: u32) -> Seq<u8> {
    seq![
        (v / 16777216) as u8,
        (v / 65536 % 256) as u8,
        (v / 256 % 256) as u8,
        (v % 256) as u8,
    ]
}

/// `BytesMut::with_capacity`: a buffer that holds no bytes yet, whatever
/// capacity was asked for. A capacity that no allocation can have is left
/// out.
#[verifier::external_body]
pub(crate) fn with_capacity(capacity: usize) -> (buf: BytesMut)
    requires
        capacity <= isize::MAX,
    ensures
        written(buf) == Seq::<u8>::empty(),
{
    BytesMut::with_capacity(capacity)
}

/// `BufMut::put_u8` on a `BytesMut`: appends the byte.
#[verifier::external_body]
pub(crate) fn put_u8(buf: &mut BytesMut, v: u8)
    ensures
        written(*final(buf)) == written(*old(buf)).push(v),
{
    buf.put_u8(v)
}

/// `BufMut::put_u16` on a `BytesMut`: appends the two bytes of `v` in
/// big-endian order.
#[verifier::external_body]
pub(crate) fn put_u16(buf: &mut BytesMut, v: u16)
    ensures
        written(*final(buf)) == written(*old(buf)) + be16(v),
{
    buf.put_u16(v)
}

/// `BufMut::put_u32` on a `BytesMut`: appends the four bytes of `v` in
/// big-endian order.
#[verifier::external_body]
pub(crate) fn put_u32(buf: &mut BytesMut, v: u32)
    ensures
        written(*final(buf)) == written(*old(buf)) + be32(v),
{
    buf.put_u32(v)
}

/// `BytesMut::extend_from_slice`: appends the bytes of the slice in order.
#[verifier::external_body]
pub(crate) fn extend_from_slice(buf: &mut BytesMut, bytes: &[u8])
    ensures
        written(*final(buf)) == written(*old(buf)) + bytes@,
{
    buf.extend_from_slice(bytes)
}

/// `BytesMut::freeze`: the same bytes, no longer writable.
#[verifier::external_body]
pub(crate) fn freeze(buf: BytesMut) -> (bytes: Bytes)
    ensures
        frozen(bytes) == written(buf),
{
    buf.freeze()
}

} // verus!

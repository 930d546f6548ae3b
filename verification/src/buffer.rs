//! Byte buffers of the `bytes` crate, as far as the cache uses them.
//!
//! `Bytes` and `BytesMut` are opaque to the verifier. What they hold is named
//! by [`bytes_view`] and [`bytes_mut_view`], and every function of this
//! module states what the `bytes` crate documents of the call it makes.
//! None of these statements is proved here.

use bytes::{Bytes, BytesMut};
use vstd::prelude::*;

verus! {

/// `bytes::Bytes`: an immutable, cheaply cloneable run of bytes.
#[verifier::external_type_specification]
#[verifier::external_body]
pub struct ExBytes(Bytes);

/// `bytes::BytesMut`: a growable byte buffer.
#[verifier::external_type_specification]
#[verifier::external_body]
pub struct ExBytesMut(BytesMut);

/// The bytes that a `Bytes` holds, in order.
pub uninterp spec fn bytes_view(b: Bytes) -> Seq<u8>;

/// The bytes that a `BytesMut` holds, in order.
pub uninterp spec fn bytes_mut_view(b: BytesMut) -> Seq<u8>;

/// `Bytes::len`: the number of bytes held.
pub assume_specification[ Bytes::len ](b: &Bytes) -> (n: usize)
    ensures
        n == bytes_view(*b).len(),
;

/// `Bytes::clone`: a second handle on the same bytes.
pub assume_specification[ <Bytes as Clone>::clone ](b: &Bytes) -> (copy: Bytes)
    ensures
        bytes_view(copy) == bytes_view(*b),
;

/// `Bytes::slice` on `start..end`: the bytes from `start` up to `end`.
/// The call panics unless `start <= end <= len`, so that is required.
#[verifier::external_body]
pub(crate) fn slice_bytes(b: &Bytes, start: usize, end: usize) -> (part: Bytes)
    requires
        start <= end <= bytes_view(*b).len(),
    ensures
        bytes_view(part) == bytes_view(*b).subrange(start as int, end as int),
{
    b.slice(start..end)
}

/// `BytesMut::with_capacity`: an empty buffer. The capacity is handed to
/// `Vec::with_capacity`, which panics above `isize::MAX`.
pub assume_specification[ BytesMut::with_capacity ](capacity: usize) -> (buf: BytesMut)
    requires
        capacity <= isize::MAX,
    ensures
        bytes_mut_view(buf) == Seq::<u8>::empty(),
;

/// `BytesMut::extend_from_slice` with the bytes of `part`: they are appended.
/// Growing ends in `Vec::reserve`, which panics when the new length is
/// above `isize::MAX`.
#[verifier::external_body]
pub(crate) fn append_bytes(buf: &mut BytesMut, part: &Bytes)
    requires
        bytes_mut_view(*old(buf)).len() + bytes_view(*part).len() <= isize::MAX,
    ensures
        bytes_mut_view(*final(buf)) == bytes_mut_view(*old(buf)) + bytes_view(*part),
{
    buf.extend_from_slice(part)
}

/// `BytesMut::freeze`: the same bytes, now immutable.
pub assume_specification[ BytesMut::freeze ](buf: BytesMut) -> (b: Bytes)
    ensures
        bytes_view(b) == bytes_mut_view(buf),
;

} // verus!

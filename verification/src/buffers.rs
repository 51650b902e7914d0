//! Byte buffers of the `bytes` crate, and what the library relies on of them.

use bytes::{Bytes, BytesMut};
use vstd::prelude::*;

verus! {

#[verifier::external_type_specification]
#[verifier::external_body]
pub struct ExBytes(Bytes);

#[verifier::external_type_specification]
#[verifier::external_body]
pub struct ExBytesMut(BytesMut);

/// The bytes that a `Bytes` holds.
pub uninterp spec fn bytes_content(b: Bytes) -> Seq<u8>;

/// The bytes that a `BytesMut` holds.
pub uninterp spec fn bytes_mut_content(b: BytesMut) -> Seq<u8>;

/// `Bytes::deref`: the buffer's bytes as a slice.
#[verifier::external_body]
pub(crate) fn bytes_as_slice(b: &Bytes) -> (r: &[u8])
    ensures
        r@ == bytes_content(*b),
{
    &b[..]
}

/// `Bytes::from(Vec<u8>)`: a buffer with the vector's bytes.
#[verifier::external_body]
pub(crate) fn bytes_from_vec(v: Vec<u8>) -> (r: Bytes)
    ensures
        bytes_content(r) == v@,
{
    Bytes::from(v)
}

/// `Vec::<u8>::from(Bytes)`: a vector with the buffer's bytes.
#[verifier::external_body]
pub(crate) fn bytes_into_vec(b: Bytes) -> (r: Vec<u8>)
    ensures
        r@ == bytes_content(b),
{
    Vec::from(b)
}

/// `BytesMut::with_capacity`: an empty buffer with room for `capacity` bytes, no more than can be
/// allocated.
#[verifier::external_body]
pub(crate) fn bytes_mut_with_capacity(capacity: usize) -> (r: BytesMut)
    requires
        capacity <= isize::MAX,
    ensures
        bytes_mut_content(r) == Seq::<u8>::empty(),
{
    BytesMut::with_capacity(capacity)
}

/// `BytesMut::zeroed`: a buffer of `len` zero bytes, no more than can be allocated.
#[verifier::external_body]
pub(crate) fn bytes_mut_zeroed(len: usize) -> (r: BytesMut)
    requires
        len <= isize::MAX,
    ensures
        bytes_mut_content(r) == Seq::new(len as nat, |i: int| 0u8),
{
    BytesMut::zeroed(len)
}

/// `BytesMut::extend_from_slice`: the slice's bytes behind those already there, no more in all
/// than can be allocated even where the buffer doubles its room.
#[verifier::external_body]
pub(crate) fn bytes_mut_extend(b: &mut BytesMut, data: &[u8])
    requires
        2 * (bytes_mut_content(*old(b)).len() + data.len()) <= isize::MAX,
    ensures
        bytes_mut_content(*final(b)) == bytes_mut_content(*old(b)) + data@,
{
    b.extend_from_slice(data);
}

/// `BytesMut::deref_mut`, indexed by a range and copied into: the bytes from `start` up to `end`
/// become those of the slice, the others stay.
#[verifier::external_body]
pub(crate) fn bytes_mut_write(b: &mut BytesMut, start: usize, end: usize, data: &[u8])
    requires
        start <= end <= bytes_mut_content(*old(b)).len(),
        data.len() == end - start,
    ensures
        bytes_mut_content(*final(b)) == bytes_mut_content(*old(b)).subrange(0, start as int) + data@
            + bytes_mut_content(*old(b)).subrange(
            end as int,
            bytes_mut_content(*old(b)).len() as int,
        ),
{
    b[start..end].copy_from_slice(data);
}

/// `BytesMut::deref`: the buffer's bytes as a slice.
#[verifier::external_body]
pub(crate) fn bytes_mut_as_slice(b: &BytesMut) -> (r: &[u8])
    ensures
        r@ == bytes_mut_content(*b),
{
    &b[..]
}

/// `BytesMut::freeze`: the same bytes, no longer to be changed.
#[verifier::external_body]
pub(crate) fn bytes_mut_freeze(b: BytesMut) -> (r: Bytes)
    ensures
        bytes_content(r) == bytes_mut_content(b),
{
    b.freeze()
}

} // verus!

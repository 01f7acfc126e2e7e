//! Trusted view of the `bytes` crate's buffers.
//!
//! `bytes::Bytes` and `bytes::BytesMut` are opaque to the verifier, so this
//! module declares them and gives each a mathematical content, a sequence of
//! bytes, through which every contract in the crate speaks of them.

use vstd::prelude::*;

verus! {

#[verifier::external_type_specification]
#[verifier::external_body]
pub struct ExBytes(bytes::Bytes);

#[verifier::external_type_specification]
#[verifier::external_body]
pub struct ExBytesMut(bytes::BytesMut);

/// The bytes that a `bytes::Bytes` buffer holds, in order.
pub uninterp spec fn bytes_view(b: bytes::Bytes) -> Seq<u8>;

/// The bytes that a `bytes::BytesMut` buffer holds, in order.
pub uninterp spec fn bytes_mut_view(b: bytes::BytesMut) -> Seq<u8>;

/// Relies on `bytes::Bytes::clone`: a clone shares the same contents.
pub assume_specification[ <bytes::Bytes as Clone>::clone ](b: &bytes::Bytes) -> (r: bytes::Bytes)
    ensures
        bytes_view(r) == bytes_view(*b),
;

/// Relies on `bytes::Bytes::len`: the number of bytes the buffer holds.
#[verifier::external_body]
pub fn bytes_len(b: &bytes::Bytes) -> (r: usize)
    ensures
        r == bytes_view(*b).len(),
{
    b.len()
}

/// Relies on `bytes::Bytes`'s deref to `[u8]` and slice range indexing:
/// the slice of the buffer's contents from `start` (inclusive) to `end`
/// (exclusive).
#[verifier::external_body]
pub fn bytes_slice<'a>(b: &'a bytes::Bytes, start: usize, end: usize) -> (r: &'a [u8])
    requires
        start <= end <= bytes_view(*b).len(),
    ensures
        r@ == bytes_view(*b).subrange(start as int, end as int),
{
    &b[start..end]
}

/// Relies on `bytes::BytesMut::new`: a freshly created buffer holds nothing.
#[verifier::external_body]
pub fn bytes_mut_new() -> (r: bytes::BytesMut)
    ensures
        bytes_mut_view(r) == Seq::<u8>::empty(),
{
    bytes::BytesMut::new()
}

/// Relies on `bytes::BytesMut::extend_from_slice`: the slice's bytes are
/// appended after the buffer's current contents.
#[verifier::external_body]
pub fn bytes_mut_extend(b: &mut bytes::BytesMut, s: &[u8])
    ensures
        bytes_mut_view(*final(b)) == bytes_mut_view(*old(b)) + s@,
{
    b.extend_from_slice(s)
}

/// Relies on `bytes::BytesMut::freeze`: freezing keeps the contents.
#[verifier::external_body]
pub fn bytes_mut_freeze(b: bytes::BytesMut) -> (r: bytes::Bytes)
    ensures
        bytes_view(r) == bytes_mut_view(b),
{
    b.freeze()
}

} // verus!

//! Reference-counted byte buffers.
//!
//! Payloads travel as [`bytes::Bytes`] and are put together in
//! [`bytes::BytesMut`]. Verus does not look inside these types:
//! [`bytes_content`] and [`bytes_mut_content`] name the bytes that a buffer
//! holds, and the items below say what the functions of the `bytes` crate do to
//! them.

use bytes::{Bytes, BytesMut};
use vstd::prelude::*;

verus! {

/// `bytes::Bytes`: an immutable, cheaply cloned byte buffer.
#[verifier::external_type_specification]
#[verifier::external_body]
pub struct ExBytes(bytes::Bytes);

/// The bytes that a buffer holds.
pub uninterp spec fn bytes_content(b: bytes::Bytes) -> Seq<u8>;

/// `Bytes::len`: the number of bytes that the buffer holds.
pub assume_specification[ bytes::Bytes::len ](b: &bytes::Bytes) -> (r: usize)
    ensures
        r == bytes_content(*b).len(),
;

/// `Bytes::copy_from_slice`: a buffer that holds a copy of the slice.
pub assume_specification[ bytes::Bytes::copy_from_slice ](data: &[u8]) -> (r: bytes::Bytes)
    ensures
        bytes_content(r) == data@,
;

/// `Bytes::from(Vec<u8>)`: a buffer that holds the bytes of the vector.
#[verifier::external_body]
pub(crate) fn bytes_from_vec(v: Vec<u8>) -> (r: Bytes)
    ensures
        bytes_content(r) == v@,
{
    Bytes::from(v)
}

/// `Bytes::as_ref`: the bytes of the buffer as a slice.
#[verifier::external_body]
pub(crate) fn bytes_as_slice(b: &Bytes) -> (r: &[u8])
    ensures
        r@ == bytes_content(*b),
{
    b.as_ref()
}

/// `Bytes::slice`: a buffer that holds the bytes from `start` to `end`. The
/// outside function panics where the range does not lie in the buffer.
#[verifier::external_body]
pub(crate) fn bytes_slice(b: &Bytes, start: usize, end: usize) -> (r: Bytes)
    requires
        start <= end <= bytes_content(*b).len(),
    ensures
        bytes_content(r) == bytes_content(*b).subrange(start as int, end as int),
{
    b.slice(start..end)
}

/// `Bytes::clone`: another handle on the same bytes.
#[verifier::external_body]
pub(crate) fn bytes_clone(b: &Bytes) -> (r: Bytes)
    ensures
        bytes_content(r) == bytes_content(*b),
{
    b.clone()
}

/// `bytes::BytesMut`: a byte buffer under construction.
#[verifier::external_type_specification]
#[verifier::external_body]
pub struct ExBytesMut(bytes::BytesMut);

/// The bytes that a buffer under construction holds.
pub uninterp spec fn bytes_mut_content(b: bytes::BytesMut) -> Seq<u8>;

/// `BytesMut::new`: a buffer that holds nothing.
pub assume_specification[ bytes::BytesMut::new ]() -> (r: bytes::BytesMut)
    ensures
        bytes_mut_content(r) == Seq::<u8>::empty(),
;

/// `BytesMut::len`: the number of bytes that the buffer holds.
pub assume_specification[ bytes::BytesMut::len ](b: &bytes::BytesMut) -> (r: usize)
    ensures
        r == bytes_mut_content(*b).len(),
;

/// `BytesMut::resize`: cuts the buffer at the new length, or fills it up to
/// that length with the given byte. The outside function panics where the
/// length is beyond what can be allocated.
pub assume_specification[ bytes::BytesMut::resize ](
    b: &mut bytes::BytesMut,
    new_len: usize,
    value: u8,
)
    requires
        new_len <= isize::MAX,
    ensures
        bytes_mut_content(*final(b)) == Seq::new(
            new_len as nat,
            |i: int|
                if i < bytes_mut_content(*old(b)).len() {
                    bytes_mut_content(*old(b))[i]
                } else {
                    value
                },
        ),
;

/// `BytesMut::extend_from_slice`: appends the bytes. The outside function
/// panics where the length is beyond what can be allocated.
pub assume_specification[ bytes::BytesMut::extend_from_slice ](
    b: &mut bytes::BytesMut,
    extend: &[u8],
)
    requires
        bytes_mut_content(*old(b)).len() + extend@.len() <= isize::MAX,
    ensures
        bytes_mut_content(*final(b)) == bytes_mut_content(*old(b)) + extend@,
;

/// `BytesMut::freeze`: the finished buffer, with the same bytes.
pub assume_specification[ bytes::BytesMut::freeze ](b: bytes::BytesMut) -> (r: bytes::Bytes)
    ensures
        bytes_content(r) == bytes_mut_content(b),
;

/// `BytesMut::as_mut`: the bytes of the buffer, to be changed in place.
#[verifier::external_body]
pub(crate) fn bytes_mut_slice(b: &mut BytesMut) -> (r: &mut [u8])
    ensures
        r@ == bytes_mut_content(*old(b)),
        bytes_mut_content(*final(b)) == final(r)@,
{
    b.as_mut()
}

/// What an optional buffer holds.
pub open spec fn opt_content(b: Option<Bytes>) -> Option<Seq<u8>> {
    match b {
        Some(b) => Some(bytes_content(b)),
        None => None,
    }
}

/// Another handle on the same optional buffer.
pub fn clone_opt(b: &Option<Bytes>) -> (r: Option<Bytes>)
    ensures
        opt_content(r) == opt_content(*b),
{
    match b {
        Some(b) => Some(bytes_clone(b)),
        None => None,
    }
}

} // verus!

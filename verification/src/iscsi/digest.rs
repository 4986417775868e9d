//! CRC32C digests of PDU headers and data segments.

use crate::wire::{be32, be32_bytes, u32_from_be, u32_to_be};
use vstd::prelude::*;

verus! {

#[derive(Debug, Clone, Copy, PartialEq, Eq, Structural)]
pub enum DigestError {
    /// The header digest that came does not belong to the header that came.
    HeaderMismatch { expected: u32, received: u32 },
    /// The data digest that came does not belong to the data that came.
    DataMismatch { expected: u32, received: u32 },
}

/// The CRC32C checksum of `data`, continued from the checksum `crc` of what
/// stood before it.
pub uninterp spec fn crc32c_continued(crc: u32, data: Seq<u8>) -> u32;

/// The CRC32C checksum of `data`.
pub open spec fn crc32c_of(data: Seq<u8>) -> u32 {
    crc32c_continued(0, data)
}

/// `crc32c::crc32c_append`: the checksum of `data`, continued from `crc`. To
/// continue a checksum is to take the checksum of the concatenation, and no
/// data leaves it as it was.
#[verifier::external_body]
fn crc32c_append(crc: u32, data: &[u8]) -> (r: u32)
    ensures
        r == crc32c_continued(crc, data@),
        data@.len() == 0 ==> r == crc,
        forall|start: u32, before: Seq<u8>|
            crc == #[trigger] crc32c_continued(start, before) ==> r == crc32c_continued(
                start,
                before + data@,
            ),
{
    crc32c::crc32c_append(crc, data)
}

/// `crc32c::crc32c`: the same as `crc32c_append` from zero.
#[verifier::external_body]
fn crc32c(data: &[u8]) -> (r: u32)
    ensures
        r == crc32c_of(data@),
        data@.len() == 0 ==> r == 0,
{
    crc32c::crc32c(data)
}

/// What a header digest is computed over.
pub open spec fn header_bytes(bhs: Seq<u8>, ahs: Option<Seq<u8>>) -> Seq<u8> {
    match ahs {
        Some(ahs) => bhs + ahs,
        None => bhs,
    }
}

/// The bytes of an optional slice.
pub open spec fn opt_slice(s: Option<&[u8]>) -> Option<Seq<u8>> {
    match s {
        Some(s) => Some(s@),
        None => None,
    }
}

/// Whether two four-byte digests are the same.
fn same_digest(a: &[u8; 4], b: &[u8; 4]) -> (r: bool)
    ensures
        r == (be32(a@, 0) == be32(b@, 0)),
{
    a[0] == b[0] && a[1] == b[1] && a[2] == b[2] && a[3] == b[3]
}

/// Compute CRC32C of BHS (48 bytes) + optional AHS. Returns 4-byte big-endian digest.
pub fn header_digest(bhs: &[u8; 48], ahs: Option<&[u8]>) -> (r: [u8; 4])
    ensures
        r@ == be32_bytes(crc32c_of(header_bytes(bhs@, opt_slice(ahs)))),
        be32(r@, 0) == crc32c_of(header_bytes(bhs@, opt_slice(ahs))),
{
    let mut crc: u32 = crc32c(bhs);
    if let Some(ahs) = ahs {
        crc = crc32c_append(crc, ahs);
    }
    u32_to_be(crc)
}

/// Compare the header digest that was computed with the one that came.
pub fn compare_header_digest(expected: &[u8; 4], received: &[u8; 4]) -> (r: Result<(), DigestError>)
    ensures
        r == (if be32(expected@, 0) == be32(received@, 0) {
            Ok::<_, DigestError>(())
        } else {
            Err(
                DigestError::HeaderMismatch {
                    expected: be32(expected@, 0) as u32,
                    received: be32(received@, 0) as u32,
                },
            )
        }),
{
    if !same_digest(expected, received) {
        Err(
            DigestError::HeaderMismatch {
                expected: u32_from_be(*expected),
                received: u32_from_be(*received),
            },
        )
    } else {
        Ok(())
    }
}

/// Verify a received header digest.
pub fn verify_header_digest(bhs: &[u8; 48], ahs: Option<&[u8]>, received: &[u8; 4]) -> (r: Result<
    (),
    DigestError,
>)
    ensures
        ({
            let expected = crc32c_of(header_bytes(bhs@, opt_slice(ahs)));
            match r {
                Ok(_) => be32(received@, 0) == expected,
                Err(e) => be32(received@, 0) != expected && e == (DigestError::HeaderMismatch {
                    expected,
                    received: be32(received@, 0) as u32,
                }),
            }
        }),
{
    compare_header_digest(&header_digest(bhs, ahs), received)
}

/// Compute CRC32C of a data segment. Returns 4-byte big-endian digest.
pub fn data_digest(data: &[u8]) -> (r: [u8; 4])
    ensures
        r@ == be32_bytes(crc32c_of(data@)),
        be32(r@, 0) == crc32c_of(data@),
        data@.len() == 0 ==> be32(r@, 0) == 0,
{
    u32_to_be(crc32c(data))
}

/// Compare the data digest that was computed with the one that came.
pub fn compare_data_digest(expected: &[u8; 4], received: &[u8; 4]) -> (r: Result<(), DigestError>)
    ensures
        r == (if be32(expected@, 0) == be32(received@, 0) {
            Ok::<_, DigestError>(())
        } else {
            Err(
                DigestError::DataMismatch {
                    expected: be32(expected@, 0) as u32,
                    received: be32(received@, 0) as u32,
                },
            )
        }),
{
    if !same_digest(expected, received) {
        Err(
            DigestError::DataMismatch {
                expected: u32_from_be(*expected),
                received: u32_from_be(*received),
            },
        )
    } else {
        Ok(())
    }
}

/// Verify a received data digest.
pub fn verify_data_digest(data: &[u8], received: &[u8; 4]) -> (r: Result<(), DigestError>)
    ensures
        match r {
            Ok(_) => be32(received@, 0) == crc32c_of(data@),
            Err(e) => be32(received@, 0) != crc32c_of(data@) && e == (DigestError::DataMismatch {
                expected: crc32c_of(data@),
                received: be32(received@, 0) as u32,
            }),
        },
{
    compare_data_digest(&data_digest(data), received)
}

/// A digest that came is accepted just where it is the one that was computed,
/// byte for byte: the four bytes stand for one checksum, and a checksum for one
/// sequence of four bytes.
pub proof fn digests_agree_byte_for_byte(a: Seq<u8>, b: Seq<u8>, crc: u32)
    requires
        a.len() == 4,
        b.len() == 4,
    ensures
        be32(a, 0) == be32(b, 0) <==> a == b,
        be32(a, 0) == crc <==> a == be32_bytes(crc),
        0 <= be32(a, 0) <= u32::MAX,
{
    let c = be32_bytes(crc);
    assert(be32(c, 0) == crc);
    if be32(a, 0) == be32(b, 0) {
        lemma_same_bytes(a[0], a[1], a[2], a[3], b[0], b[1], b[2], b[3]);
        assert(a =~= b);
    }
    if be32(a, 0) == crc {
        lemma_same_bytes(a[0], a[1], a[2], a[3], c[0], c[1], c[2], c[3]);
        assert(a =~= c);
    }
}

/// The digits of a number to the base 256 are its own.
pub(crate) proof fn lemma_same_bytes(a0: u8, a1: u8, a2: u8, a3: u8, b0: u8, b1: u8, b2: u8, b3: u8)
    requires
        a0 * 0x100_0000 + a1 * 0x1_0000 + a2 * 0x100 + a3 == b0 * 0x100_0000 + b1 * 0x1_0000 + b2
            * 0x100 + b3,
    ensures
        a0 == b0,
        a1 == b1,
        a2 == b2,
        a3 == b3,
{
    assert(a0 == b0);
    assert(a1 == b1);
    assert(a2 == b2);
}

/// The header digest covers the whole header, additional segment included; the
/// header without one is its own bytes.
pub proof fn header_digest_covers_the_header(bhs: Seq<u8>, ahs: Option<Seq<u8>>)
    ensures
        ({
            let covered = header_bytes(bhs, ahs);
            &&& covered.take(bhs.len() as int) == bhs
            &&& ahs is None ==> covered.len() == bhs.len()
            &&& ahs is Some ==> covered.skip(bhs.len() as int) == ahs->0
        }),
{
    let covered = header_bytes(bhs, ahs);
    assert(covered.take(bhs.len() as int) =~= bhs);
    if ahs is Some {
        assert(covered.skip(bhs.len() as int) =~= ahs->0);
    }
}

} // verus!

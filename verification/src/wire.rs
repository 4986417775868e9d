//! Big-endian integers inside byte sequences.
//!
//! The spec functions say which number a run of bytes stands for; the
//! executable functions read and write such runs.

use vstd::prelude::*;

verus! {

/// The 16-bit number whose big-endian bytes stand at `o` in `s`.
pub open spec fn be16(s: Seq<u8>, o: int) -> int {
    s[o] * 0x100 + s[o + 1]
}

/// The 24-bit number whose big-endian bytes stand at `o` in `s`.
pub open spec fn be24(s: Seq<u8>, o: int) -> int {
    s[o] * 0x1_0000 + s[o + 1] * 0x100 + s[o + 2]
}

/// The 32-bit number whose big-endian bytes stand at `o` in `s`.
pub open spec fn be32(s: Seq<u8>, o: int) -> int {
    s[o] * 0x100_0000 + s[o + 1] * 0x1_0000 + s[o + 2] * 0x100 + s[o + 3]
}

/// The 64-bit number whose big-endian bytes stand at `o` in `s`.
pub open spec fn be64(s: Seq<u8>, o: int) -> int {
    be32(s, o) * 0x1_0000_0000 + be32(s, o + 4)
}

/// The four big-endian bytes of `x`.
pub open spec fn be32_bytes(x: u32) -> Seq<u8> {
    seq![
        (x / 0x100_0000) as u8,
        ((x / 0x1_0000) % 0x100) as u8,
        ((x / 0x100) % 0x100) as u8,
        (x % 0x100) as u8,
    ]
}

/// The number whose big-endian bytes are `b`.
pub fn u32_from_be(b: [u8; 4]) -> (r: u32)
    ensures
        r == be32(b@, 0),
{
    (b[0] as u32) * 0x100_0000 + (b[1] as u32) * 0x1_0000 + (b[2] as u32) * 0x100 + (b[3] as u32)
}

/// Read the big-endian 16-bit number at `o`.
pub fn u16_at(s: &[u8], o: usize) -> (r: u16)
    requires
        o + 2 <= s.len(),
    ensures
        r == be16(s@, o as int),
{
    (s[o] as u16) * 0x100 + (s[o + 1] as u16)
}

/// Read the big-endian 32-bit number at `o`.
pub fn u32_at(s: &[u8], o: usize) -> (r: u32)
    requires
        o + 4 <= s.len(),
    ensures
        r == be32(s@, o as int),
{
    u32_from_be([s[o], s[o + 1], s[o + 2], s[o + 3]])
}

/// Read the big-endian 64-bit number at `o`.
pub fn u64_at(s: &[u8], o: usize) -> (r: u64)
    requires
        o + 8 <= s.len(),
    ensures
        r == be64(s@, o as int),
{
    (u32_at(s, o) as u64) * 0x1_0000_0000 + (u32_at(s, o + 4) as u64)
}

/// The big-endian bytes of `x`.
pub fn u16_to_be(x: u16) -> (r: [u8; 2])
    ensures
        be16(r@, 0) == x,
{
    [(x / 0x100) as u8, (x % 0x100) as u8]
}

/// The big-endian bytes of `x`.
pub fn u32_to_be(x: u32) -> (r: [u8; 4])
    ensures
        be32(r@, 0) == x,
        r@ == be32_bytes(x),
{
    let r: [u8; 4] = [
        (x / 0x100_0000) as u8,
        ((x / 0x1_0000) % 0x100) as u8,
        ((x / 0x100) % 0x100) as u8,
        (x % 0x100) as u8,
    ];
    assert(r@ =~= be32_bytes(x));
    r
}

/// The big-endian bytes of `x`.
pub fn u64_to_be(x: u64) -> (r: [u8; 8])
    ensures
        be64(r@, 0) == x,
{
    let h: [u8; 4] = u32_to_be((x / 0x1_0000_0000) as u32);
    let l: [u8; 4] = u32_to_be((x % 0x1_0000_0000) as u32);
    [h[0], h[1], h[2], h[3], l[0], l[1], l[2], l[3]]
}

/// Append the bytes of `s` to `v`.
pub fn append_slice(v: &mut Vec<u8>, s: &[u8])
    ensures
        final(v)@ == old(v)@ + s@,
{
    v.extend_from_slice(s);
    assert(v@ =~= old(v)@ + s@);
}

/// Numbers stand with their most significant byte first: each byte counts 256
/// times what follows it.
pub proof fn first_byte_counts_most(s: Seq<u8>, o: int)
    ensures
        be16(s, o) == s[o] * 256 + s[o + 1],
        be24(s, o) == be16(s, o) * 256 + s[o + 2],
        be32(s, o) == be24(s, o) * 256 + s[o + 3],
        be64(s, o) == be32(s, o) * 256 * 256 * 256 * 256 + be32(s, o + 4),
{
}

/// A number is read back from the bytes that stand for it, and from no others.
pub proof fn number_is_read_back(x: u32, rest: Seq<u8>)
    ensures
        be32_bytes(x).len() == 4,
        be32(be32_bytes(x), 0) == x,
        be32(be32_bytes(x) + rest, 0) == x,
        be32_bytes(x)[0] == x / 256 / 256 / 256,
        be32_bytes(x)[3] == x % 256,
{
}

} // verus!

//! Byte ranges on a device of blocks.

use crate::block::content::lemma_whole;
use crate::wire::append_slice;
use vstd::arithmetic::div_mod::lemma_fundamental_div_mod;
use vstd::prelude::*;

verus! {

/// The number of blocks that `bytes` bytes take up.
pub open spec fn ceil_div(bytes: int, block_size: int) -> int {
    (bytes + block_size - 1) / block_size
}

/// The number of blocks that the bytes from `offset` up to `offset + size` lie
/// in.
pub open spec fn blocks_touched(offset: int, size: int, block_size: int) -> int {
    ceil_div(offset + size, block_size) - offset / block_size
}

/// Compute block-aligned LBA range and byte skip for a given byte offset/size.
pub fn compute_alignment(offset: u64, size: u64, block_size: u32) -> (r: (u64, u32, usize))
    requires
        block_size > 0,
        offset + size <= u64::MAX,
    ensures
        r.0 == offset as int / block_size as int,
        r.1 == blocks_touched(offset as int, size as int, block_size as int) as u32,
        r.2 == offset as int % block_size as int,
{
    let bs: u64 = block_size as u64;
    let start_lba: u64 = offset / bs;
    let end: u64 = offset + size;
    proof {
        lemma_ceil_div(end as int, bs as int);
        lemma_blocks_touched(offset as int, size as int, bs as int);
    }
    let end_lba: u64 = end / bs + (if end % bs == 0 {
        0
    } else {
        1
    });
    let block_count: u32 = (end_lba - start_lba) as u32;
    let skip: usize = (offset % bs) as usize;
    (start_lba, block_count, skip)
}

proof fn lemma_ceil_div(x: int, d: int)
    requires
        0 <= x,
        0 < d,
    ensures
        ceil_div(x, d) == x / d + (if x % d == 0 {
            0int
        } else {
            1
        }),
        x <= ceil_div(x, d) * d < x + d,
        0 <= x / d <= x,
        x % d != 0 ==> x / d < x,
{
    lemma_fundamental_div_mod(x, d);
    let q = x / d;
    let r = x % d;
    assert(d * q == q * d) by (nonlinear_arith);
    assert(0 <= q) by (nonlinear_arith)
        requires
            0 <= x,
            0 < d,
            q == x / d,
    ;
    assert(q <= q * d) by (nonlinear_arith)
        requires
            0 <= q,
            0 < d,
    ;
    if r == 0 {
        vstd::arithmetic::div_mod::lemma_fundamental_div_mod_converse(x + d - 1, d, q, d - 1);
    } else {
        assert((q + 1) * d == q * d + d) by (nonlinear_arith);
        assert(d * (q + 1) == (q + 1) * d) by (nonlinear_arith);
        vstd::arithmetic::div_mod::lemma_fundamental_div_mod_converse(x + d - 1, d, q + 1, r - 1);
    }
}

/// The aligned range is the least that holds the bytes: it starts in the block
/// of the first byte and ends with the block of the last, and it is no longer
/// in blocks than the range in bytes.
pub proof fn lemma_blocks_touched(offset: int, size: int, block_size: int)
    requires
        0 <= offset,
        0 <= size,
        0 < block_size,
    ensures
        ({
            let lba = offset / block_size;
            let count = blocks_touched(offset, size, block_size);
            let skip = offset % block_size;
            &&& 0 <= lba
            &&& 0 <= skip < block_size
            &&& offset == lba * block_size + skip
            &&& 0 <= count
            &&& offset + size <= (lba + count) * block_size < offset + size + block_size
            &&& (lba + count) * block_size == lba * block_size + count * block_size
            &&& skip + size <= count * block_size
            &&& lba + count <= offset + size
            &&& size > 0 ==> 0 < count <= size
        }),
{
    let lba = offset / block_size;
    let skip = offset % block_size;
    let count = blocks_touched(offset, size, block_size);
    lemma_fundamental_div_mod(offset, block_size);
    lemma_ceil_div(offset, block_size);
    lemma_ceil_div(offset + size, block_size);
    assert(block_size * lba == lba * block_size) by (nonlinear_arith);
    assert((lba + count) * block_size == lba * block_size + count * block_size)
        by (nonlinear_arith);
    assert(0 <= count) by (nonlinear_arith)
        requires
            lba * block_size + count * block_size >= lba * block_size,
            0 < block_size,
    ;
    if size > 0 {
        assert(0 < count) by (nonlinear_arith)
            requires
                count * block_size > 0,
                0 < block_size,
        ;
        if count >= 2 {
            assert(count <= size) by (nonlinear_arith)
                requires
                    count * block_size < skip + size + block_size,
                    skip < block_size,
                    0 < block_size,
                    2 <= count,
            ;
        }
    }
}

/// A range of bytes, and the blocks that it lies in.
#[derive(Debug, Clone, Copy, PartialEq, Eq, Structural)]
pub struct Span {
    pub start_lba: u64,
    pub block_count: u32,
    /// Where the range begins in the first block.
    pub skip: usize,
    /// The length of the range in bytes.
    pub len: usize,
}

impl Span {
    /// The span is that of the `len` bytes from `offset` on, of which there is
    /// at least one.
    pub open spec fn covers(self, offset: int, len: int, block_size: int) -> bool {
        &&& self.start_lba == offset / block_size
        &&& self.block_count == blocks_touched(offset, len, block_size)
        &&& self.skip == offset % block_size
        &&& self.len == len
        &&& 0 < len
    }

    /// The range is not empty and lies in its blocks, with none to spare, which
    /// have addresses.
    pub open spec fn fits(self, block_size: int) -> bool {
        &&& 0 < self.len
        &&& self.skip < block_size
        &&& self.skip + self.len <= self.block_count * block_size < self.skip + self.len
            + block_size
        &&& self.start_lba + self.block_count <= u64::MAX
    }

    /// Whether the range consists of whole blocks.
    pub open spec fn aligned(self, block_size: int) -> bool {
        self.skip == 0 && self.len as int % block_size == 0
    }
}

/// What is left of a request of `size` bytes at `offset` on a device of
/// `total_bytes` bytes.
pub open spec fn clamped(offset: int, size: int, total_bytes: int) -> int {
    if size <= 0 || offset >= total_bytes {
        0
    } else if size <= total_bytes - offset {
        size
    } else {
        total_bytes - offset
    }
}

/// The span of a request, clamped to the device boundary. `None` where nothing
/// is left of it.
pub fn request_span(offset: u64, size: u64, total_bytes: u64, block_size: u32) -> (r: Option<Span>)
    requires
        block_size > 0,
        clamped(offset as int, size as int, total_bytes as int) <= u32::MAX,
    ensures
        match r {
            Some(span) => span.fits(block_size as int) && span.covers(
                offset as int,
                clamped(offset as int, size as int, total_bytes as int),
                block_size as int,
            ),
            None => clamped(offset as int, size as int, total_bytes as int) == 0,
        },
{
    if size == 0 || offset >= total_bytes {
        return None;
    }
    // Clamp to device boundary.
    let left: u64 = total_bytes - offset;
    let len: u32 = if size <= left {
        size as u32
    } else {
        left as u32
    };
    let (start_lba, block_count, skip) = compute_alignment(offset, len as u64, block_size);
    proof {
        lemma_blocks_touched(offset as int, len as int, block_size as int);
    }
    Some(Span { start_lba, block_count, skip, len: len as usize })
}

/// What a request gets of the blocks that were read for it; `None` where they
/// came short.
pub fn cut(span: &Span, blocks: &[u8]) -> (r: Option<Vec<u8>>)
    requires
        span.skip + span.len <= usize::MAX,
    ensures
        match r {
            Some(data) => span.skip + span.len <= blocks@.len() && data@ == blocks@.subrange(
                span.skip as int,
                span.skip + span.len,
            ),
            None => span.skip + span.len > blocks@.len(),
        },
{
    let end: usize = span.skip + span.len;
    if end > blocks.len() {
        return None;
    }
    let mut data: Vec<u8> = Vec::new();
    append_slice(&mut data, vstd::slice::slice_subrange(blocks, span.skip, end));
    assert(data@ =~= blocks@.subrange(span.skip as int, end as int));
    Some(data)
}

/// `blocks` with `data` in the place of what stood from `skip` on.
pub open spec fn patched(blocks: Seq<u8>, skip: int, data: Seq<u8>) -> Seq<u8> {
    blocks.take(skip) + data + blocks.skip(skip + data.len())
}

/// Overlay the data of a write on the blocks that were read for it; `None`
/// where they came short.
pub fn patch(span: &Span, blocks: &[u8], data: &[u8]) -> (r: Option<Vec<u8>>)
    requires
        span.len == data@.len(),
        span.skip + span.len <= usize::MAX,
    ensures
        match r {
            Some(buf) => span.skip + span.len <= blocks@.len() && buf@ == patched(
                blocks@,
                span.skip as int,
                data@,
            ),
            None => span.skip + span.len > blocks@.len(),
        },
{
    let end: usize = span.skip + span.len;
    if end > blocks.len() {
        return None;
    }
    let mut buf: Vec<u8> = Vec::new();
    append_slice(&mut buf, vstd::slice::slice_subrange(blocks, 0, span.skip));
    append_slice(&mut buf, data);
    append_slice(&mut buf, vstd::slice::slice_subrange(blocks, end, blocks.len()));
    assert(buf@ =~= patched(blocks@, span.skip as int, data@));
    Some(buf)
}

/// Exactly the bytes of a request that lie on the device are left of it: a byte
/// is kept where, and only where, it is one of the request and in front of the
/// end of the device.
pub proof fn clamped_keeps_what_is_on_the_device(offset: int, size: int, total_bytes: int, k: int)
    requires
        0 <= k,
    ensures
        k < clamped(offset, size, total_bytes) <==> k < size && offset + k < total_bytes,
        0 <= clamped(offset, size, total_bytes),
{
}

/// The blocks of a span are those, and only those, that hold a byte of the
/// range; the range begins `skip` bytes into the first of them.
pub proof fn span_holds_its_range(span: Span, offset: int, len: int, block_size: int)
    requires
        0 <= offset,
        0 < block_size,
        span.covers(offset, len, block_size),
    ensures
        span.len == len,
        0 < len,
        span.start_lba * block_size + span.skip == offset,
        span.skip < block_size,
        0 < span.block_count,
        span.skip + span.len <= span.block_count * block_size,
        (span.block_count - 1) * block_size < span.skip + span.len,
        offset + len <= (span.start_lba + span.block_count) * block_size < offset + len + block_size,
{
    lemma_blocks_touched(offset, len, block_size);
    let count = span.block_count as int;
    assert((count - 1) * block_size == count * block_size - block_size) by (nonlinear_arith);
}

/// A range consists of whole blocks just where it fills its blocks: it begins
/// with the first of them and has as many bytes as they have together.
pub proof fn aligned_spans_fill_their_blocks(span: Span, block_size: int)
    requires
        0 < block_size,
        span.fits(block_size),
    ensures
        span.aligned(block_size) <==> span.skip == 0 && span.len == span.block_count * block_size,
{
    let n = span.len as int;
    let count = span.block_count as int;
    if span.aligned(block_size) {
        lemma_whole(n, count, block_size);
    }
    if span.skip == 0 && n == count * block_size {
        assert(count * block_size == block_size * count) by (nonlinear_arith);
        vstd::arithmetic::div_mod::lemma_fundamental_div_mod_converse(n, block_size, count, 0);
    }
}

/// Overlaying changes the bytes of the data and no other, and not the length.
pub proof fn patch_changes_its_bytes_only(blocks: Seq<u8>, skip: int, data: Seq<u8>, i: int)
    requires
        0 <= skip,
        skip + data.len() <= blocks.len(),
        0 <= i < blocks.len(),
    ensures
        patched(blocks, skip, data).len() == blocks.len(),
        skip <= i < skip + data.len() ==> patched(blocks, skip, data)[i] == data[i - skip],
        !(skip <= i < skip + data.len()) ==> patched(blocks, skip, data)[i] == blocks[i],
{
}

} // verus!

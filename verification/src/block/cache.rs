//! The block-level read cache: which chunks hold a range of blocks, and when to
//! read ahead.
//!
//! The chunks themselves are kept by an LRU store that is keyed by chunk LBA.

use crate::buffer::{bytes_as_slice, bytes_content, bytes_mut_content};
use crate::iscsi::pipeline::blocks_of;
use bytes::{Bytes, BytesMut};
use vstd::arithmetic::power2::pow2;
use vstd::prelude::*;

verus! {

/// The size of a chunk: 64 KB.
pub const CHUNK_BYTES: u64 = 65536;

/// The smallest readahead window, in blocks.
pub const RA_MIN_BLOCKS: u32 = 8;

/// A readahead batch: blocks to be brought into the cache.
#[derive(Debug, Clone, Copy, PartialEq, Eq, Structural)]
pub struct Prefetch {
    pub lba: u64,
    pub blocks: u32,
}

/// Adaptive readahead state: detects sequential access patterns and doubles the
/// prefetch window on each consecutive sequential read up to a configurable
/// maximum.
#[derive(Debug, Clone, Copy, PartialEq, Eq, Structural)]
pub struct ReadaheadState {
    /// Where the last read ended.
    pub last_end: Option<u64>,
    /// Current readahead window in blocks (doubled on every sequential read).
    pub ra_window: u32,
    /// LBA where the next readahead batch begins.
    pub ra_start: u64,
    /// The length in blocks of the batch that ends there.
    pub ra_len: u32,
    /// Guard to prevent overlapping readahead batches.
    pub ra_inflight: bool,
    /// Minimum readahead window (blocks).
    pub ra_min_blocks: u32,
    /// Maximum readahead window (blocks).
    pub ra_max_blocks: u32,
}

impl ReadaheadState {
    pub fn new(ra_min_blocks: u32, ra_max_blocks: u32) -> (r: Self)
        ensures
            r == (ReadaheadState {
                last_end: None,
                ra_window: ra_min_blocks,
                ra_start: 0,
                ra_len: 0,
                ra_inflight: false,
                ra_min_blocks,
                ra_max_blocks,
            }),
    {
        Self {
            last_end: None,
            ra_window: ra_min_blocks,
            ra_start: 0,
            ra_len: 0,
            ra_inflight: false,
            ra_min_blocks,
            ra_max_blocks,
        }
    }

    /// The window after another sequential read.
    pub open spec fn grown(self) -> u32 {
        if self.ra_window * 2 <= self.ra_max_blocks {
            (self.ra_window * 2) as u32
        } else {
            self.ra_max_blocks
        }
    }

    /// Whether a read that ends at `read_end` has come to the middle of the
    /// batch that was asked for last.
    pub open spec fn past_midpoint(self, read_end: u64) -> bool {
        read_end >= self.ra_start - self.ra_len as int / 2
    }

    /// Where the next batch begins after a read that ends at `read_end`.
    pub open spec fn next_batch(self, read_end: u64) -> u64 {
        if read_end >= self.ra_start {
            read_end
        } else {
            self.ra_start
        }
    }

    /// A batch is due after a read from `start_lba` to `read_end`.
    pub open spec fn batch_due(self, start_lba: u64, read_end: u64) -> bool {
        self.last_end == Some(start_lba) && self.past_midpoint(read_end) && !self.ra_inflight
    }

    /// The state after a read from `start_lba` to `read_end`.
    pub open spec fn after_read(self, start_lba: u64, read_end: u64) -> Self {
        if self.last_end != Some(start_lba) {
            ReadaheadState {
                last_end: Some(read_end),
                ra_window: self.ra_min_blocks,
                ra_start: read_end,
                ra_len: 0,
                ..self
            }
        } else if self.batch_due(start_lba, read_end) {
            ReadaheadState {
                last_end: Some(read_end),
                ra_window: self.grown(),
                ra_start: (self.next_batch(read_end) + self.grown()) as u64,
                ra_len: self.grown(),
                ra_inflight: true,
                ..self
            }
        } else {
            ReadaheadState { last_end: Some(read_end), ra_window: self.grown(), ..self }
        }
    }

    /// Note a read, and say what to prefetch.
    ///
    /// If the read starts where the previous one ended, the window doubles
    /// (clamped to `ra_max_blocks`). When the read passes the midpoint of the
    /// previously prefetched region, a new batch is due.
    pub fn on_read(&mut self, start_lba: u64, read_end: u64) -> (r: Option<Prefetch>)
        requires
            old(self).batch_due(start_lba, read_end) ==> old(self).next_batch(read_end) + old(self).grown() <= u64::MAX,
        ensures
            *final(self) == old(self).after_read(start_lba, read_end),
            r == (if old(self).batch_due(start_lba, read_end) {
                Some(
                    Prefetch { lba: old(self).next_batch(read_end), blocks: old(self).grown() },
                )
            } else {
                None
            }),
    {
        let is_sequential = match self.last_end {
            Some(end) => end == start_lba,
            None => false,
        };
        self.last_end = Some(read_end);
        if !is_sequential {
            // Random jump -- reset window.
            self.ra_window = self.ra_min_blocks;
            self.ra_start = read_end;
            self.ra_len = 0;
            return None;
        }
        // Sequential -- grow window (double, capped).
        let doubled: u64 = self.ra_window as u64 * 2;
        self.ra_window = if doubled <= self.ra_max_blocks as u64 {
            doubled as u32
        } else {
            self.ra_max_blocks
        };
        let half: u64 = (self.ra_len / 2) as u64;
        let past_midpoint = self.ra_start < half || read_end >= self.ra_start - half;
        if past_midpoint && !self.ra_inflight {
            let lba: u64 = if read_end >= self.ra_start {
                read_end
            } else {
                self.ra_start
            };
            self.ra_inflight = true;
            self.ra_start = lba + self.ra_window as u64;
            self.ra_len = self.ra_window;
            Some(Prefetch { lba, blocks: self.ra_window })
        } else {
            None
        }
    }
}

/// The readahead state after further reads, each starting where the one before
/// it ended; `ends` says where each of them ends.
pub open spec fn after_sequential_reads(state: ReadaheadState, ends: Seq<u64>) -> ReadaheadState
    decreases ends.len(),
{
    if ends.len() == 0 {
        state
    } else {
        let before = after_sequential_reads(state, ends.drop_last());
        before.after_read(before.last_end->0, ends.last())
    }
}

/// Each sequential read doubles the readahead window, up to the maximum.
pub proof fn sequential_reads_double_the_window(state: ReadaheadState, ends: Seq<u64>)
    requires
        state.last_end is Some,
        state.ra_window <= state.ra_max_blocks,
    ensures
        ({
            let after = after_sequential_reads(state, ends);
            let doubled = state.ra_window * pow2(ends.len());
            &&& after.last_end is Some
            &&& after.ra_max_blocks == state.ra_max_blocks
            &&& after.ra_min_blocks == state.ra_min_blocks
            &&& after.ra_window == (if doubled <= state.ra_max_blocks {
                doubled
            } else {
                state.ra_max_blocks as int
            })
        }),
    decreases ends.len(),
{
    if ends.len() == 0 {
        vstd::arithmetic::power2::lemma2_to64();
    } else {
        let n = (ends.len() - 1) as nat;
        sequential_reads_double_the_window(state, ends.drop_last());
        vstd::arithmetic::power2::lemma_pow2_unfold(n + 1);
        let w = state.ra_window as int;
        let p = pow2(n) as int;
        assert(w * (2 * p) == 2 * (w * p)) by (nonlinear_arith);
        assert(0 <= w * p) by (nonlinear_arith)
            requires
                0 <= w,
                0 <= p,
        ;
    }
}

/// A read anywhere else brings the window back to the minimum, and asks for
/// nothing. A batch never reaches back into the one before it.
pub proof fn random_read_resets_the_window(state: ReadaheadState, start_lba: u64, read_end: u64)
    ensures
        state.last_end != Some(start_lba) ==> {
            &&& state.after_read(start_lba, read_end).ra_window == state.ra_min_blocks
            &&& !state.batch_due(start_lba, read_end)
        },
        state.batch_due(start_lba, read_end) ==> state.next_batch(read_end) >= state.ra_start
            && state.next_batch(read_end) >= read_end,
{
}

/// The first block of the chunk that block `lba` is in.
pub open spec fn chunk_start(lba: int, chunk_blocks: int) -> int {
    (lba / chunk_blocks) * chunk_blocks
}

/// The number of chunks from the one at `first` to the one at `last`.
pub open spec fn chunk_count(first: int, last: int, chunk_blocks: int) -> int {
    if last < first {
        0
    } else {
        (last - first) / chunk_blocks + 1
    }
}

/// The chunks from the one at `first` to the one at `last`.
pub open spec fn chunks_from(first: int, last: int, chunk_blocks: int) -> Seq<u64> {
    Seq::new(
        chunk_count(first, last, chunk_blocks) as nat,
        |i: int| (first + i * chunk_blocks) as u64,
    )
}

/// The last of the blocks from `start` to `end`.
pub open spec fn last_block(end: int) -> int {
    if end > 0 {
        end - 1
    } else {
        0
    }
}

/// The part of the chunk at `clba` that belongs to the blocks `start..end`.
pub open spec fn chunk_part(
    chunk: Seq<u8>,
    clba: int,
    start: int,
    end: int,
    chunk_blocks: int,
    block_size: int,
) -> Seq<u8> {
    let from = if start >= clba {
        start
    } else {
        clba
    };
    let to = if end <= clba + chunk_blocks {
        end
    } else {
        clba + chunk_blocks
    };
    let stop = if (to - clba) * block_size <= chunk.len() {
        (to - clba) * block_size
    } else {
        chunk.len() as int
    };
    chunk.subrange((from - clba) * block_size, stop)
}

/// The parts of the first `n` chunks, one after the other.
pub open spec fn assembled(
    chunks: Seq<Seq<u8>>,
    clbas: Seq<u64>,
    n: int,
    start: int,
    end: int,
    chunk_blocks: int,
    block_size: int,
) -> Seq<u8>
    decreases n,
{
    if n <= 0 {
        seq![]
    } else {
        assembled(chunks, clbas, n - 1, start, end, chunk_blocks, block_size) + chunk_part(
            chunks[n - 1],
            clbas[n - 1] as int,
            start,
            end,
            chunk_blocks,
            block_size,
        )
    }
}

/// Every chunk reaches up to the blocks that are wanted of it.
pub open spec fn chunks_reach(
    chunks: Seq<Seq<u8>>,
    clbas: Seq<u64>,
    start: int,
    block_size: int,
) -> bool {
    &&& chunks.len() == clbas.len()
    &&& forall|i: int|
        0 <= i < chunks.len() ==> start <= clbas[i] || (start - clbas[i]) * block_size
            <= #[trigger] chunks[i].len()
}

/// What the buffers hold.
pub open spec fn chunk_contents(chunks: Seq<Bytes>) -> Seq<Seq<u8>> {
    chunks.map_values(|b: Bytes| bytes_content(b))
}

/// Block-level read cache with 64 KB chunk granularity and adaptive sequential
/// readahead.
pub struct BlockCache {
    pub block_size: u32,
    /// Number of blocks in one 64 KB chunk.
    pub chunk_blocks: u32,
    /// The number of chunks that are kept.
    pub max_capacity: u64,
    pub readahead: ReadaheadState,
}

impl BlockCache {
    /// Blocks are no longer than a chunk.
    pub open spec fn wf(self) -> bool {
        &&& 0 < self.block_size <= CHUNK_BYTES
        &&& self.chunk_blocks == CHUNK_BYTES / self.block_size as u64
        &&& self.chunk_blocks > 0
    }

    /// Create a new `BlockCache`.
    ///
    /// * `size_mb`    -- maximum cache size in megabytes.
    /// * `block_size` -- device block size in bytes (e.g. 512).
    /// * `ra_max_kb`  -- maximum readahead window in kilobytes (e.g. 512).
    pub fn new(size_mb: usize, block_size: u32, ra_max_kb: usize) -> (r: Self)
        requires
            block_size > 0,
            size_mb * 1024 * 1024 <= u64::MAX,
            ra_max_kb * 1024 <= usize::MAX,
        ensures
            r.block_size == block_size,
            r.chunk_blocks == CHUNK_BYTES / block_size as u64,
            r.max_capacity == size_mb * 16,
            r.readahead == (ReadaheadState {
                last_end: None,
                ra_window: RA_MIN_BLOCKS,
                ra_start: 0,
                ra_len: 0,
                ra_inflight: false,
                ra_min_blocks: RA_MIN_BLOCKS,
                ra_max_blocks: ((ra_max_kb * 1024) as usize / block_size as usize) as u32,
            }),
            block_size <= CHUNK_BYTES ==> r.wf(),
    {
        let max_capacity: u64 = (size_mb as u64 * 1024 * 1024) / CHUNK_BYTES;
        let per_chunk: u64 = CHUNK_BYTES / block_size as u64;
        proof {
            assert(per_chunk <= CHUNK_BYTES) by (nonlinear_arith)
                requires
                    per_chunk == CHUNK_BYTES / block_size as u64,
                    block_size > 0,
            ;
            if block_size <= CHUNK_BYTES {
                assert(per_chunk >= 1) by (nonlinear_arith)
                    requires
                        per_chunk == CHUNK_BYTES / block_size as u64,
                        0 < block_size <= CHUNK_BYTES,
                ;
            }
        }
        let chunk_blocks: u32 = per_chunk as u32;
        let ra_max_blocks: u32 = (ra_max_kb * 1024 / block_size as usize) as u32;
        Self {
            block_size,
            chunk_blocks,
            max_capacity,
            readahead: ReadaheadState::new(RA_MIN_BLOCKS, ra_max_blocks),
        }
    }

    /// Align `lba` down to the start of its 64 KB chunk.
    pub fn chunk_lba(&self, lba: u64) -> (r: u64)
        requires
            self.chunk_blocks > 0,
        ensures
            r == chunk_start(lba as int, self.chunk_blocks as int),
            r <= lba < r + self.chunk_blocks,
            r as int % self.chunk_blocks as int == 0,
    {
        let cb: u64 = self.chunk_blocks as u64;
        proof {
            lemma_chunk_start(lba as int, cb as int);
        }
        (lba / cb) * cb
    }

    /// The chunks that hold the blocks from `start` up to `end`.
    pub open spec fn chunks_of_range(self, start: int, end: int) -> Seq<u64> {
        chunks_from(
            chunk_start(start, self.chunk_blocks as int),
            chunk_start(last_block(end), self.chunk_blocks as int),
            self.chunk_blocks as int,
        )
    }

    /// The chunks that hold the `block_count` blocks from `start_lba` on, in
    /// ascending order.
    pub fn chunk_lbas(&self, start_lba: u64, block_count: u32) -> (r: Vec<u64>)
        requires
            self.chunk_blocks > 0,
            start_lba + block_count <= u64::MAX,
        ensures
            r@ == self.chunks_of_range(start_lba as int, start_lba + block_count),
    {
        let end_lba: u64 = start_lba + block_count as u64;
        let first: u64 = self.chunk_lba(start_lba);
        let last: u64 = self.chunk_lba(end_lba.saturating_sub(1));
        let cb: u64 = self.chunk_blocks as u64;
        let ghost all = chunks_from(first as int, last as int, cb as int);
        let mut r: Vec<u64> = Vec::new();
        if first > last {
            assert(r@ =~= all);
            return r;
        }
        let count: u64 = (last - first) / cb + 1;
        let mut i: u64 = 0;
        while i < count
            invariant
                i <= count,
                cb > 0,
                first <= last,
                count == (last - first) / cb as int + 1,
                all == chunks_from(first as int, last as int, cb as int),
                r@ == all.take(i as int),
            decreases count - i,
        {
            proof {
                lemma_chunk_in_range(i as int, (last - first) as int, cb as int);
                assert(all.take(i + 1) =~= all.take(i as int).push(all[i as int]));
            }
            r.push(first + i * cb);
            i = i + 1;
        }
        assert(all.take(count as int) =~= all);
        r
    }

    /// Put a read of `block_count` blocks from `start_lba` on together from the
    /// chunks that hold them, which were looked up or fetched in the order of
    /// [`BlockCache::chunk_lbas`].
    pub fn read_blocks(&self, start_lba: u64, block_count: u32, chunks: &Vec<Bytes>) -> (r: Bytes)
        requires
            self.wf(),
            start_lba + block_count <= u64::MAX,
            block_count * self.block_size <= isize::MAX,
            chunks_reach(
                chunk_contents(chunks@),
                self.chunks_of_range(start_lba as int, start_lba + block_count),
                start_lba as int,
                self.block_size as int,
            ),
        ensures
            bytes_content(r) == assembled(
                chunk_contents(chunks@),
                self.chunks_of_range(start_lba as int, start_lba + block_count),
                chunks.len() as int,
                start_lba as int,
                start_lba + block_count,
                self.chunk_blocks as int,
                self.block_size as int,
            ),
    {
        let end_lba: u64 = start_lba + block_count as u64;
        let clbas: Vec<u64> = self.chunk_lbas(start_lba, block_count);
        let ghost contents = chunk_contents(chunks@);
        let ghost bs = self.block_size as int;
        let ghost cb = self.chunk_blocks as int;
        let mut buf: BytesMut = BytesMut::new();
        let mut i: usize = 0;
        while i < chunks.len()
            invariant
                i <= chunks.len(),
                self.wf(),
                bs == self.block_size,
                cb == self.chunk_blocks,
                end_lba == start_lba + block_count,
                block_count * self.block_size <= isize::MAX,
                contents == chunk_contents(chunks@),
                clbas@ == self.chunks_of_range(start_lba as int, end_lba as int),
                chunks_reach(contents, clbas@, start_lba as int, bs),
                bytes_mut_content(buf) == assembled(
                    contents,
                    clbas@,
                    i as int,
                    start_lba as int,
                    end_lba as int,
                    cb,
                    bs,
                ),
                bytes_mut_content(buf).len() <= (reached(
                    start_lba as int,
                    end_lba as int,
                    i as int,
                    cb,
                ) - start_lba) * bs,
            decreases chunks.len() - i,
        {
            let clba: u64 = clbas[i];
            let chunk: &[u8] = bytes_as_slice(&chunks[i]);
            proof {
                assert(contents[i as int] == chunk@);
                lemma_range_chunk(start_lba as int, end_lba as int, i as int, cb);
            }
            // Determine which slice of this chunk we need.
            let from: u64 = if start_lba >= clba {
                start_lba
            } else {
                clba
            };
            let to: u64 = if end_lba - clba <= self.chunk_blocks as u64 {
                end_lba
            } else {
                clba + self.chunk_blocks as u64
            };
            proof {
                lemma_part_fits(
                    from - clba,
                    to - clba,
                    from - start_lba,
                    to - start_lba,
                    block_count as int,
                    cb,
                    bs,
                );
            }
            let offset: usize = (from - clba) as usize * self.block_size as usize;
            let wanted: usize = (to - clba) as usize * self.block_size as usize;
            let stop: usize = if wanted <= chunk.len() {
                wanted
            } else {
                chunk.len()
            };
            buf.extend_from_slice(vstd::slice::slice_subrange(chunk, offset, stop));
            i = i + 1;
        }
        buf.freeze()
    }

    /// Note that the `block_count` blocks from `start_lba` on are about to
    /// change: the chunks to be dropped are returned, and the readahead window
    /// is reset.
    pub fn invalidate_range(&mut self, start_lba: u64, block_count: u32) -> (r: Vec<u64>)
        requires
            old(self).chunk_blocks > 0,
            start_lba + block_count <= u64::MAX,
        ensures
            r@ == old(self).chunks_of_range(start_lba as int, start_lba + block_count),
            *final(self) == (BlockCache {
                readahead: ReadaheadState {
                    ra_window: old(self).readahead.ra_min_blocks,
                    ..old(self).readahead
                },
                ..*old(self)
            }),
    {
        let r: Vec<u64> = self.chunk_lbas(start_lba, block_count);
        self.readahead.ra_window = self.readahead.ra_min_blocks;
        r
    }

    /// Current readahead window (blocks).
    pub fn readahead_window_blocks(&self) -> (r: u32)
        ensures
            r == self.readahead.ra_window,
    {
        self.readahead.ra_window
    }

    /// Minimum readahead window (blocks).
    pub fn readahead_min_blocks(&self) -> (r: u32)
        ensures
            r == self.readahead.ra_min_blocks,
    {
        self.readahead.ra_min_blocks
    }

    /// Detect sequential access after a read, and say what to prefetch. While
    /// one batch is under way no other begins: see
    /// [`BlockCache::prefetch_done`].
    pub fn maybe_trigger_readahead(&mut self, start_lba: u64, block_count: u32) -> (r: Option<
        Prefetch,
    >)
        requires
            start_lba + block_count <= u64::MAX,
            old(self).readahead.batch_due(start_lba, (start_lba + block_count) as u64) ==> old(self).readahead.next_batch((start_lba + block_count) as u64) + old(self).readahead.grown() <= u64::MAX,
        ensures
            ({
                let end = (start_lba + block_count) as u64;
                let before = old(self).readahead;
                &&& *final(self) == (BlockCache {
                    readahead: before.after_read(start_lba, end),
                    ..*old(self)
                })
                &&& r == (if before.batch_due(start_lba, end) {
                    Some(Prefetch { lba: before.next_batch(end), blocks: before.grown() })
                } else {
                    None
                })
            }),
    {
        self.readahead.on_read(start_lba, start_lba + block_count as u64)
    }

    /// The chunks to be looked up or fetched for a batch.
    pub fn prefetch_chunks(&self, batch: &Prefetch) -> (r: Vec<u64>)
        requires
            self.chunk_blocks > 0,
            batch.lba + batch.blocks <= u64::MAX,
        ensures
            batch.blocks > 0 ==> r@ == self.chunks_of_range(
                batch.lba as int,
                batch.lba + batch.blocks,
            ),
            batch.blocks == 0 ==> r@ == (if batch.lba as int % self.chunk_blocks as int == 0 {
                seq![]
            } else {
                seq![chunk_start(batch.lba as int, self.chunk_blocks as int) as u64]
            }),
    {
        if batch.blocks == 0 {
            let mut r: Vec<u64> = Vec::new();
            let clba: u64 = self.chunk_lba(batch.lba);
            proof {
                lemma_chunk_start(batch.lba as int, self.chunk_blocks as int);
            }
            if clba < batch.lba {
                r.push(clba);
            }
            return r;
        }
        self.chunk_lbas(batch.lba, batch.blocks)
    }

    /// A batch has ended, whether all of it was fetched or not.
    pub fn prefetch_done(&mut self)
        ensures
            *final(self) == (BlockCache {
                readahead: ReadaheadState { ra_inflight: false, ..old(self).readahead },
                ..*old(self)
            }),
    {
        self.readahead.ra_inflight = false;
    }
}

proof fn lemma_chunk_start(lba: int, cb: int)
    requires
        0 <= lba,
        0 < cb,
    ensures
        0 <= chunk_start(lba, cb) <= lba < chunk_start(lba, cb) + cb,
        chunk_start(lba, cb) % cb == 0,
        lba % cb == lba - chunk_start(lba, cb),
{
    vstd::arithmetic::div_mod::lemma_fundamental_div_mod(lba, cb);
    let q = lba / cb;
    assert(cb * q == q * cb) by (nonlinear_arith);
    assert(0 <= q * cb) by (nonlinear_arith)
        requires
            q == lba / cb,
            0 <= lba,
            0 < cb,
    ;
    vstd::arithmetic::div_mod::lemma_mod_multiples_basic(q, cb);
}

proof fn lemma_chunk_in_range(i: int, span: int, cb: int)
    requires
        0 <= i < span / cb + 1,
        0 <= span,
        0 < cb,
    ensures
        0 <= i * cb <= span,
{
    assert(0 <= i * cb <= span) by (nonlinear_arith)
        requires
            0 <= i <= span / cb,
            0 <= span,
            0 < cb,
    ;
}

/// How far the parts of the first `n` chunks reach.
pub open spec fn reached(start: int, end: int, n: int, chunk_blocks: int) -> int {
    let next = chunk_start(start, chunk_blocks) + n * chunk_blocks;
    if n == 0 {
        start
    } else if end <= next {
        end
    } else {
        next
    }
}

/// Where chunk `i` of the blocks `start..end` stands.
proof fn lemma_range_chunk(start: int, end: int, i: int, cb: int)
    requires
        0 <= start <= end <= u64::MAX,
        0 < cb,
        0 <= i < chunk_count(chunk_start(start, cb), chunk_start(last_block(end), cb), cb),
    ensures
        ({
            let clba = chunk_start(start, cb) + i * cb;
            let n = chunk_count(chunk_start(start, cb), chunk_start(last_block(end), cb), cb);
            &&& 0 <= clba <= end
            &&& i == 0 ==> clba <= start < clba + cb
            &&& i > 0 ==> start < clba
            &&& i == n - 1 ==> end <= clba + cb
            &&& chunk_start(start, cb) + (i + 1) * cb == clba + cb
        }),
{
    let first = chunk_start(start, cb);
    let last = chunk_start(last_block(end), cb);
    lemma_chunk_start(start, cb);
    lemma_chunk_start(last_block(end), cb);
    lemma_chunk_in_range(i, last - first, cb);
    assert(0 * cb == 0) by (nonlinear_arith);
    assert((i + 1) * cb == i * cb + cb) by (nonlinear_arith);
    if i > 0 {
        assert(cb <= i * cb) by (nonlinear_arith)
            requires
                1 <= i,
                0 < cb,
        ;
    }
    let q = start / cb;
    let p = last_block(end) / cb;
    assert(last - first == (p - q) * cb) by (nonlinear_arith)
        requires
            last == p * cb,
            first == q * cb,
    ;
    assert((p - q) * cb == cb * (p - q)) by (nonlinear_arith);
    vstd::arithmetic::div_mod::lemma_div_multiples_vanish(p - q, cb);
}

/// The bounds of a part: where it starts and stops in its chunk, and in the
/// read.
proof fn lemma_part_fits(
    from: int,
    to: int,
    before: int,
    after: int,
    count: int,
    cb: int,
    bs: int,
)
    requires
        0 < bs <= CHUNK_BYTES,
        cb == CHUNK_BYTES / bs as u64,
        0 <= from <= to <= cb,
        0 <= before,
        after - before == to - from,
        after <= count,
    ensures
        0 <= from * bs <= to * bs <= CHUNK_BYTES,
        before * bs + (to * bs - from * bs) == after * bs,
        0 <= before * bs <= after * bs <= count * bs,
{
    assert(0 <= from * bs <= to * bs <= CHUNK_BYTES) by (nonlinear_arith)
        requires
            0 < bs <= CHUNK_BYTES,
            cb == CHUNK_BYTES as int / bs,
            0 <= from <= to <= cb,
    ;
    assert(before * bs + (to * bs - from * bs) == after * bs) by (nonlinear_arith)
        requires
            after - before == to - from,
    ;
    assert(0 <= before * bs <= after * bs <= count * bs) by (nonlinear_arith)
        requires
            0 < bs,
            0 <= before <= after <= count,
    ;
}

/// What the disk holds of the chunk at `clba`; the last chunk may be cut short.
pub open spec fn chunk_on(disk: Seq<u8>, clba: int, chunk_blocks: int, block_size: int) -> Seq<u8> {
    let stop = (clba + chunk_blocks) * block_size;
    disk.subrange(
        clba * block_size,
        if stop <= disk.len() {
            stop
        } else {
            disk.len() as int
        },
    )
}

proof fn lemma_assembled(
    disk: Seq<u8>,
    clbas: Seq<u64>,
    n: int,
    start: int,
    end: int,
    cb: int,
    bs: int,
)
    requires
        0 < bs,
        0 < cb,
        0 <= start < end <= u64::MAX,
        end * bs <= disk.len(),
        clbas == chunks_from(chunk_start(start, cb), chunk_start(end - 1, cb), cb),
        0 <= n <= clbas.len(),
    ensures
        assembled(
            clbas.map_values(|c: u64| chunk_on(disk, c as int, cb, bs)),
            clbas,
            n,
            start,
            end,
            cb,
            bs,
        ) == blocks_of(disk, start, reached(start, end, n, cb) - start, bs),
        start <= reached(start, end, n, cb) <= end,
        n == clbas.len() ==> reached(start, end, n, cb) == end,
    decreases n,
{
    let chunks = clbas.map_values(|c: u64| chunk_on(disk, c as int, cb, bs));
    lemma_chunk_start(start, cb);
    lemma_chunk_start(end - 1, cb);
    if n == 0 {
        lemma_first_chunk(start, end, cb);
        assert(0 <= start * bs <= end * bs) by (nonlinear_arith)
            requires
                0 <= start <= end,
                0 < bs,
        ;
        assert(blocks_of(disk, start, 0, bs) =~= seq![]);
    } else {
        let i = n - 1;
        lemma_assembled(disk, clbas, i, start, end, cb, bs);
        lemma_range_chunk(start, end, i, cb);
        let c = chunk_start(start, cb) + i * cb;
        assert(clbas[i] == c);
        let from = reached(start, end, i, cb);
        let to = reached(start, end, n, cb);
        assert(from == (if start >= c {
            start
        } else {
            c
        }));
        assert(to == (if end <= c + cb {
            end
        } else {
            c + cb
        }));
        lemma_part_of_disk(disk, c, start, from, to, end, cb, bs);
        assert(chunks[i] == chunk_on(disk, c, cb, bs));
    }
}

proof fn lemma_first_chunk(start: int, end: int, cb: int)
    requires
        0 <= start < end,
        0 < cb,
    ensures
        chunk_count(chunk_start(start, cb), chunk_start(end - 1, cb), cb) > 0,
{
    lemma_chunk_start(start, cb);
    lemma_chunk_start(end - 1, cb);
    let q = start / cb;
    let p = (end - 1) / cb;
    assert(q <= p) by {
        vstd::arithmetic::div_mod::lemma_div_is_ordered(start, end - 1, cb);
    }
    assert(q * cb <= p * cb) by (nonlinear_arith)
        requires
            q <= p,
            0 < cb,
    ;
    assert((p * cb - q * cb) / cb >= 0) by (nonlinear_arith)
        requires
            q * cb <= p * cb,
            0 < cb,
    ;
}

proof fn lemma_part_of_disk(
    disk: Seq<u8>,
    c: int,
    start: int,
    from: int,
    to: int,
    end: int,
    cb: int,
    bs: int,
)
    requires
        0 < bs,
        0 < cb,
        0 <= start <= from <= to <= end,
        0 <= c <= from,
        to <= c + cb,
        end * bs <= disk.len(),
    ensures
        ({
            let chunk = chunk_on(disk, c, cb, bs);
            &&& (to - c) * bs <= chunk.len()
            &&& blocks_of(disk, start, from - start, bs) + chunk.subrange(
                (from - c) * bs,
                (to - c) * bs,
            ) == blocks_of(disk, start, to - start, bs)
        }),
{
    assert((from - c) * bs == from * bs - c * bs && (to - c) * bs == to * bs - c * bs && 0 <= c
        * bs <= from * bs <= to * bs && to * bs <= end * bs && to * bs <= (c + cb) * bs && 0
        <= start * bs <= from * bs) by (nonlinear_arith)
        requires
            0 < bs,
            0 <= start <= from <= to <= end,
            0 <= c <= from,
            to <= c + cb,
    ;
    let chunk = chunk_on(disk, c, cb, bs);
    assert(blocks_of(disk, start, from - start, bs) + chunk.subrange(
        (from - c) * bs,
        (to - c) * bs,
    ) =~= blocks_of(disk, start, to - start, bs));
}

/// A read that is put together from chunks of the disk is the read of these
/// blocks from the disk itself.
pub proof fn cached_read_is_disk_read(cache: BlockCache, disk: Seq<u8>, start: int, count: int)
    requires
        cache.wf(),
        0 <= start,
        0 < count,
        start + count <= u64::MAX,
        (start + count) * cache.block_size <= disk.len(),
    ensures
        ({
            let clbas = cache.chunks_of_range(start, start + count);
            let cb = cache.chunk_blocks as int;
            let bs = cache.block_size as int;
            let chunks = clbas.map_values(|c: u64| chunk_on(disk, c as int, cb, bs));
            assembled(chunks, clbas, clbas.len() as int, start, start + count, cb, bs)
                == blocks_of(disk, start, count, bs)
        }),
{
    lemma_assembled(
        disk,
        cache.chunks_of_range(start, start + count),
        cache.chunks_of_range(start, start + count).len() as int,
        start,
        start + count,
        cache.chunk_blocks as int,
        cache.block_size as int,
    );
}

/// The chunks of a range are exactly those that share a block with it, so that
/// a write leaves no stale chunk in the cache and drops no other.
pub proof fn chunks_of_range_overlap_it(cache: BlockCache, start: int, count: int, clba: u64)
    requires
        cache.wf(),
        0 <= start,
        0 < count,
        start + count <= u64::MAX,
        clba as int % cache.chunk_blocks as int == 0,
    ensures
        cache.chunks_of_range(start, start + count).contains(clba) <==> clba < start + count
            && start < clba + cache.chunk_blocks,
{
    let cb = cache.chunk_blocks as int;
    let end = start + count;
    let clbas = cache.chunks_of_range(start, end);
    let first = chunk_start(start, cb);
    let last = chunk_start(end - 1, cb);
    lemma_chunk_start(start, cb);
    lemma_chunk_start(end - 1, cb);
    if clbas.contains(clba) {
        let i = clbas.index_of(clba);
        assert(clbas[i] == clba);
        lemma_range_chunk(start, end, i, cb);
        lemma_chunk_in_range(i, last - first, cb);
    }
    if clba < end && start < clba + cb {
        let j = clba as int / cb;
        let q = start / cb;
        let p = (end - 1) / cb;
        vstd::arithmetic::div_mod::lemma_fundamental_div_mod(clba as int, cb);
        assert(clba == j * cb) by (nonlinear_arith)
            requires
                clba == cb * j,
        ;
        assert(q <= j) by (nonlinear_arith)
            requires
                q * cb < j * cb + cb,
                0 < cb,
        ;
        assert(j <= p) by (nonlinear_arith)
            requires
                j * cb < p * cb + cb,
                0 < cb,
        ;
        assert(last - first == cb * (p - q)) by (nonlinear_arith)
            requires
                last == p * cb,
                first == q * cb,
        ;
        vstd::arithmetic::div_mod::lemma_div_multiples_vanish(p - q, cb);
        assert(q * cb <= p * cb) by (nonlinear_arith)
            requires
                q <= p,
                0 < cb,
        ;
        assert(first + (j - q) * cb == clba) by (nonlinear_arith)
            requires
                first == q * cb,
                clba == j * cb,
        ;
        assert(clbas[j - q] == clba);
    }
}

/// A chunk holds as many whole blocks as fit in it.
pub proof fn chunk_holds_the_most_blocks(cache: BlockCache)
    requires
        cache.wf(),
    ensures
        cache.chunk_blocks * cache.block_size <= 64 * 1024,
        64 * 1024 < (cache.chunk_blocks + 1) * cache.block_size,
{
    let bs = cache.block_size as int;
    let q = cache.chunk_blocks as int;
    vstd::arithmetic::div_mod::lemma_fundamental_div_mod(CHUNK_BYTES as int, bs);
    assert(bs * q == q * bs) by (nonlinear_arith);
    assert((q + 1) * bs == q * bs + bs) by (nonlinear_arith);
}

/// In a run of sequential reads the next batch is due when no more than half of
/// the batch before it is left to read, and only once that has come in; no
/// block is asked for twice, and none that was read already.
pub proof fn batch_is_due_at_the_midpoint(state: ReadaheadState, start_lba: u64, read_end: u64)
    requires
        state.last_end == Some(start_lba),
        state.next_batch(read_end) + state.grown() <= u64::MAX,
    ensures
        state.batch_due(start_lba, read_end) <==> !state.ra_inflight && 2 * (state.ra_start
            - read_end) <= state.ra_len,
        state.batch_due(start_lba, read_end) ==> {
            let after = state.after_read(start_lba, read_end);
            &&& after.ra_inflight
            &&& after.last_end == Some(read_end)
            &&& state.next_batch(read_end) >= state.ra_start
            &&& state.next_batch(read_end) >= read_end
            &&& state.next_batch(read_end) == state.ra_start || state.next_batch(read_end)
                == read_end
            &&& after.ra_start == state.next_batch(read_end) + after.ra_len
            &&& after.ra_len == after.ra_window
        },
        !state.batch_due(start_lba, read_end) ==> {
            let after = state.after_read(start_lba, read_end);
            &&& after.last_end == Some(read_end)
            &&& after.ra_start == state.ra_start
            &&& after.ra_len == state.ra_len
            &&& after.ra_inflight == state.ra_inflight
        },
{
}

/// After a read elsewhere nothing is asked for ahead of it: the next batch, if
/// the reads go on from there, begins right behind it.
pub proof fn readahead_starts_over_at_a_jump(
    state: ReadaheadState,
    start_lba: u64,
    read_end: u64,
    next_end: u64,
)
    requires
        state.last_end != Some(start_lba),
        read_end <= next_end,
    ensures
        ({
            let after = state.after_read(start_lba, read_end);
            &&& after.last_end == Some(read_end)
            &&& after.next_batch(next_end) == next_end
            &&& !state.ra_inflight ==> after.batch_due(read_end, next_end)
        }),
{
}

} // verus!

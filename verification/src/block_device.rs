//! A write-through block device: arbitrary byte-offset I/O on top of
//! block-aligned SCSI commands and a cache of single blocks.

use crate::block::device::BlockError;
use crate::block::span::{
    aligned_spans_fill_their_blocks, blocks_touched, clamped, cut, lemma_blocks_touched, patch,
    patched, request_span, span_holds_its_range, Span,
};
use crate::iscsi::pipeline::{blocks_of, disk_after_write};
use crate::wire::append_slice;
use vstd::prelude::*;

verus! {

/// Blocks as a cache has them: what it holds, or nothing.
pub type Lookups = Seq<Option<Seq<u8>>>;

/// The result of the lookups.
pub open spec fn lookups(v: Seq<Option<Vec<u8>>>) -> Lookups {
    v.map_values(
        |b: Option<Vec<u8>>|
            match b {
                Some(b) => Some(b@),
                None => None,
            },
    )
}

/// Where the misses from `i` on end.
pub open spec fn miss_end(found: Lookups, i: int) -> int
    decreases found.len() - i,
{
    if i < found.len() && found[i] is None {
        miss_end(found, i + 1)
    } else {
        i
    }
}

/// The runs of misses from block `i` on: where each starts, and its length.
pub open spec fn misses_from(found: Lookups, i: int) -> Seq<(int, int)>
    decreases found.len() - i,
    via misses_decrease
{
    if i < 0 || i >= found.len() {
        seq![]
    } else if found[i] is Some {
        misses_from(found, i + 1)
    } else {
        seq![(i, miss_end(found, i) - i)] + misses_from(found, miss_end(found, i))
    }
}

#[via_fn]
proof fn misses_decrease(found: Lookups, i: int) {
    if 0 <= i < found.len() && found[i] is None {
        lemma_miss_end(found, i + 1);
    }
}

/// The runs as numbers.
pub open spec fn run_list(runs: Seq<(usize, usize)>) -> Seq<(int, int)> {
    runs.map_values(|p: (usize, usize)| (p.0 as int, p.1 as int))
}

/// The blocks from block `i` on, from what was found and from what was fetched
/// for each run of misses.
pub open spec fn served_from(found: Lookups, fetched: Seq<Seq<u8>>, i: int) -> Seq<u8>
    decreases found.len() - i,
    via served_decreases
{
    if i < 0 || i >= found.len() {
        seq![]
    } else if found[i] is Some {
        found[i]->0 + served_from(found, fetched, i + 1)
    } else {
        fetched[0] + served_from(found, fetched.skip(1), miss_end(found, i))
    }
}

#[via_fn]
proof fn served_decreases(found: Lookups, fetched: Seq<Seq<u8>>, i: int) {
    if 0 <= i < found.len() && found[i] is None {
        lemma_miss_end(found, i + 1);
    }
}

proof fn lemma_miss_end(found: Lookups, i: int)
    requires
        0 <= i <= found.len(),
    ensures
        i <= miss_end(found, i) <= found.len(),
        forall|j: int| i <= j < miss_end(found, i) ==> (#[trigger] found[j]) is None,
        miss_end(found, i) < found.len() ==> found[miss_end(found, i)] is Some,
    decreases found.len() - i,
{
    if i < found.len() && found[i] is None {
        lemma_miss_end(found, i + 1);
    }
}

/// What the vectors hold.
pub open spec fn vec_contents(v: Seq<Vec<u8>>) -> Seq<Seq<u8>> {
    v.map_values(|b: Vec<u8>| b@)
}

/// Translates arbitrary byte-offset I/O into block-aligned SCSI commands.
#[derive(Debug, Clone, Copy, PartialEq, Eq, Structural)]
pub struct BlockDevice {
    pub block_size: u32,
    pub total_bytes: u64,
}

impl BlockDevice {
    pub fn new(block_size: u32, total_bytes: u64) -> (r: Self)
        ensures
            r.block_size == block_size,
            r.total_bytes == total_bytes,
    {
        Self { block_size, total_bytes }
    }

    /// Begin a read of `size` bytes starting at `offset`: the blocks to be
    /// read, or `None` where the read is of nothing.
    pub fn read_bytes(&self, offset: u64, size: u32) -> (r: Option<Span>)
        requires
            self.block_size > 0,
        ensures
            match r {
                Some(span) => span.fits(self.block_size as int) && span.covers(
                    offset as int,
                    clamped(offset as int, size as int, self.total_bytes as int),
                    self.block_size as int,
                ),
                None => clamped(offset as int, size as int, self.total_bytes as int) == 0,
            },
    {
        request_span(offset, size as u64, self.total_bytes, self.block_size)
    }

    /// End a read: slice the blocks to the requested range.
    pub fn finish_read(span: &Span, blocks: &Vec<u8>) -> (r: Result<Vec<u8>, BlockError>)
        requires
            span.skip + span.len <= usize::MAX,
        ensures
            match r {
                Ok(data) => span.skip + span.len <= blocks@.len() && data@ == blocks@.subrange(
                    span.skip as int,
                    span.skip + span.len,
                ),
                Err(e) => span.skip + span.len > blocks@.len() && e == BlockError::ShortRead,
            },
    {
        match cut(span, blocks.as_slice()) {
            Some(data) => Ok(data),
            None => Err(BlockError::ShortRead),
        }
    }

    /// Begin a write of `len` bytes starting at `offset`: the blocks to be
    /// written, or `None` where no byte of the write lies on the device.
    pub fn write_bytes(&self, offset: u64, len: u64) -> (r: Option<Span>)
        requires
            self.block_size > 0,
            clamped(offset as int, len as int, self.total_bytes as int) <= u32::MAX,
        ensures
            match r {
                Some(span) => span.fits(self.block_size as int) && span.covers(
                    offset as int,
                    clamped(offset as int, len as int, self.total_bytes as int),
                    self.block_size as int,
                ),
                None => clamped(offset as int, len as int, self.total_bytes as int) == 0,
            },
    {
        request_span(offset, len, self.total_bytes, self.block_size)
    }

    /// Whether a write needs no read of the blocks that it lies in.
    pub fn is_aligned(&self, span: &Span) -> (r: bool)
        requires
            self.block_size > 0,
        ensures
            r == span.aligned(self.block_size as int),
            span.fits(self.block_size as int) ==> (r <==> span.skip == 0 && span.len
                == span.block_count * self.block_size),
    {
        proof {
            if span.fits(self.block_size as int) {
                aligned_spans_fill_their_blocks(*span, self.block_size as int);
            }
        }
        span.skip == 0 && span.len % self.block_size as usize == 0
    }

    /// The blocks to be written for an unaligned write: what is there, with the
    /// first `span.len` bytes of `data` over it.
    pub fn modify(span: &Span, data: &[u8], existing: &Vec<u8>) -> (r: Result<Vec<u8>, BlockError>)
        requires
            span.skip + span.len <= usize::MAX,
            span.len <= data@.len(),
        ensures
            match r {
                Ok(blocks) => span.skip + span.len <= existing@.len() && blocks@ == patched(
                    existing@,
                    span.skip as int,
                    data@.take(span.len as int),
                ),
                Err(e) => span.skip + span.len > existing@.len() && e == BlockError::ModifyShort,
            },
    {
        let data: &[u8] = vstd::slice::slice_subrange(data, 0, span.len);
        match patch(span, existing.as_slice(), data) {
            Some(blocks) => Ok(blocks),
            None => Err(BlockError::ModifyShort),
        }
    }

    /// The runs of blocks that are to be read because the cache has none of
    /// them, each as long as possible, for one SCSI READ per run.
    pub fn miss_runs(found: &Vec<Option<Vec<u8>>>) -> (r: Vec<(usize, usize)>)
        ensures
            run_list(r@) == misses_from(lookups(found@), 0),
    {
        let ghost all = lookups(found@);
        let mut runs: Vec<(usize, usize)> = Vec::new();
        let mut i: usize = 0;
        while i < found.len()
            invariant
                i <= found.len(),
                all == lookups(found@),
                run_list(runs@) + misses_from(all, i as int) == misses_from(all, 0),
            decreases found.len() - i,
        {
            if found[i].is_some() {
                i = i + 1;
            } else {
                let miss_start: usize = i;
                while i < found.len() && found[i].is_none()
                    invariant
                        miss_start <= i <= found.len(),
                        all == lookups(found@),
                        miss_end(all, miss_start as int) == miss_end(all, i as int),
                    decreases found.len() - i,
                {
                    i = i + 1;
                }
                let ghost before = run_list(runs@);
                runs.push((miss_start, i - miss_start));
                proof {
                    lemma_miss_end(all, i as int);
                    assert(miss_end(all, i as int) == i);
                    lemma_miss_end(all, miss_start as int);
                    assert(run_list(runs@) =~= before.push(
                        (miss_start as int, (i - miss_start) as int),
                    ));
                    assert(run_list(runs@) + misses_from(all, i as int) =~= before + misses_from(
                        all,
                        miss_start as int,
                    ));
                }
            }
        }
        assert(run_list(runs@) + misses_from(all, i as int) =~= run_list(runs@));
        runs
    }

    /// The blocks of a read, from what the cache had and from what was fetched
    /// for each run of misses.
    pub fn read_blocks_with_cache(found: &Vec<Option<Vec<u8>>>, fetched: &Vec<Vec<u8>>) -> (r: Vec<
        u8,
    >)
        requires
            fetched.len() == misses_from(lookups(found@), 0).len(),
        ensures
            r@ == served_from(lookups(found@), vec_contents(fetched@), 0),
    {
        let ghost all = lookups(found@);
        let ghost parts = vec_contents(fetched@);
        let mut result: Vec<u8> = Vec::new();
        let mut i: usize = 0;
        let mut run: usize = 0;
        assert(parts.skip(0) =~= parts);
        assert(seq![] + served_from(all, parts, 0) =~= served_from(all, parts, 0));
        while i < found.len()
            invariant
                i <= found.len(),
                run <= fetched.len(),
                all == lookups(found@),
                parts == vec_contents(fetched@),
                fetched.len() - run == misses_from(all, i as int).len(),
                result@ + served_from(all, parts.skip(run as int), i as int) == served_from(
                    all,
                    parts,
                    0,
                ),
            decreases found.len() - i,
        {
            let ghost before = result@;
            match &found[i] {
                Some(cached) => {
                    append_slice(&mut result, cached.as_slice());
                    proof {
                        assert(result@ + served_from(all, parts.skip(run as int), i + 1) =~= before
                            + served_from(all, parts.skip(run as int), i as int));
                    }
                    i = i + 1;
                },
                None => {
                    let ghost miss_start = i as int;
                    while i < found.len() && found[i].is_none()
                        invariant
                            miss_start <= i <= found.len(),
                            all == lookups(found@),
                            miss_end(all, miss_start) == miss_end(all, i as int),
                        decreases found.len() - i,
                    {
                        i = i + 1;
                    }
                    proof {
                        lemma_miss_end(all, i as int);
                        assert(miss_end(all, i as int) == i);
                        lemma_miss_end(all, miss_start);
                        assert(misses_from(all, miss_start).len() > 0);
                        assert(parts.skip(run as int).skip(1) =~= parts.skip(run + 1));
                        assert(parts.skip(run as int)[0] == fetched[run as int]@);
                    }
                    append_slice(&mut result, fetched[run].as_slice());
                    proof {
                        assert(result@ + served_from(all, parts.skip(run + 1), i as int) =~= before
                            + served_from(all, parts.skip(run as int), miss_start));
                    }
                    run = run + 1;
                },
            }
        }
        assert(result@ + served_from(all, parts.skip(run as int), i as int) =~= result@);
        result
    }

    /// The blocks of what was read from `lba` on that are complete, to be put
    /// into the cache one by one.
    pub fn blocks_to_cache(&self, lba: u64, block_count: u32, data: &Vec<u8>) -> (r: Vec<
        (u64, Vec<u8>),
    >)
        requires
            self.block_size > 0,
            lba + block_count <= u64::MAX,
        ensures
            r.len() == (if block_count <= data@.len() / self.block_size as nat {
                block_count as nat
            } else {
                data@.len() / self.block_size as nat
            }),
            forall|j: int|
                0 <= j < r.len() ==> (#[trigger] r[j]).0 == lba + j && r[j].1@ == blocks_of(
                    data@,
                    j,
                    1,
                    self.block_size as int,
                ),
    {
        let bs: usize = self.block_size as usize;
        let len: usize = data.len();
        let complete: usize = len / bs;
        let mut r: Vec<(u64, Vec<u8>)> = Vec::new();
        let mut j: u32 = 0;
        while j < block_count && (j as usize) < complete
            invariant
                j <= block_count,
                j <= complete,
                bs == self.block_size > 0,
                len == data@.len(),
                complete == len / bs,
                lba + block_count <= u64::MAX,
                r.len() == j,
                forall|i: int|
                    0 <= i < r.len() ==> (#[trigger] r[i]).0 == lba + i && r[i].1@ == blocks_of(
                        data@,
                        i,
                        1,
                        bs as int,
                    ),
            decreases block_count - j,
        {
            proof {
                lemma_complete_block(j as int, data@.len() as int, bs as int);
            }
            let start: usize = j as usize * bs;
            let mut block: Vec<u8> = Vec::new();
            append_slice(
                &mut block,
                vstd::slice::slice_subrange(data.as_slice(), start, start + bs),
            );
            assert(block@ =~= blocks_of(data@, j as int, 1, bs as int));
            r.push((lba + j as u64, block));
            j = j + 1;
        }
        r
    }

    pub fn total_bytes(&self) -> (r: u64)
        ensures
            r == self.total_bytes,
    {
        self.total_bytes
    }

    pub fn block_size(&self) -> (r: u32)
        ensures
            r == self.block_size,
    {
        self.block_size
    }
}

proof fn lemma_complete_block(j: int, len: int, bs: int)
    requires
        0 <= j < len / bs,
        0 <= len,
        0 < bs,
    ensures
        0 <= j * bs,
        (j + 1) * bs == j * bs + bs,
        j * bs + bs <= len,
{
    assert(0 <= j * bs && (j + 1) * bs == j * bs + bs && j * bs + bs <= len) by (nonlinear_arith)
        requires
            0 <= j,
            j + 1 <= len / bs,
            0 <= len,
            0 < bs,
    ;
}

/// A run of misses from block `a` up to block `b` that is as long as possible.
pub open spec fn is_miss_run(found: Lookups, a: int, b: int) -> bool {
    &&& 0 <= a < b <= found.len()
    &&& forall|i: int| a <= i < b ==> (#[trigger] found[i]) is None
    &&& a > 0 ==> found[a - 1] is Some
    &&& b < found.len() ==> found[b] is Some
}

proof fn lemma_misses(found: Lookups, i: int, k: int)
    requires
        0 <= i <= found.len(),
        i > 0 ==> found[i - 1] is Some || i == found.len() || found[i] is Some,
    ensures
        forall|r: int|
            0 <= r < misses_from(found, i).len() ==> {
                let run = #[trigger] misses_from(found, i)[r];
                is_miss_run(found, run.0, run.0 + run.1) && i <= run.0
            },
        i <= k < found.len() && found[k] is None ==> exists|r: int|
            {
                let run = #[trigger] misses_from(found, i)[r];
                &&& 0 <= r < misses_from(found, i).len()
                &&& run.0 <= k < run.0 + run.1
            },
    decreases found.len() - i,
{
    let all = misses_from(found, i);
    if i < found.len() {
        if found[i] is Some {
            lemma_misses(found, i + 1, k);
            assert(all == misses_from(found, i + 1));
            assert forall|r: int| 0 <= r < all.len() implies {
                let run = #[trigger] all[r];
                is_miss_run(found, run.0, run.0 + run.1) && i <= run.0
            } by {
                let run = misses_from(found, i + 1)[r];
                assert(is_miss_run(found, run.0, run.0 + run.1));
            }
        } else {
            lemma_miss_end(found, i);
            let e = miss_end(found, i);
            lemma_miss_end(found, i + 1);
            lemma_misses(found, e, k);
            let rest = misses_from(found, e);
            assert(all == seq![(i, e - i)] + rest);
            assert(all[0] == (i, e - i));
            assert forall|r: int| 0 <= r < all.len() implies {
                let run = #[trigger] all[r];
                is_miss_run(found, run.0, run.0 + run.1) && i <= run.0
            } by {
                if r > 0 {
                    assert(all[r] == rest[r - 1]);
                }
            }
            if e <= k < found.len() && found[k] is None {
                let r = choose|r: int|
                    {
                        let run = #[trigger] rest[r];
                        &&& 0 <= r < rest.len()
                        &&& run.0 <= k < run.0 + run.1
                    };
                assert(all[r + 1] == rest[r]);
            }
        }
    }
}

/// Every block that the cache does not have is in one of the runs of misses,
/// which hold no other blocks and are as long as possible.
pub proof fn miss_runs_are_the_misses(found: Lookups, k: int)
    requires
        0 <= k < found.len(),
    ensures
        forall|r: int|
            0 <= r < misses_from(found, 0).len() ==> {
                let run = #[trigger] misses_from(found, 0)[r];
                is_miss_run(found, run.0, run.0 + run.1)
            },
        found[k] is None <==> exists|r: int|
            {
                let run = #[trigger] misses_from(found, 0)[r];
                &&& 0 <= r < misses_from(found, 0).len()
                &&& run.0 <= k < run.0 + run.1
            },
{
    lemma_misses(found, 0, k);
}

/// The lookups found what the disk holds.
pub open spec fn found_on_disk(found: Lookups, disk: Seq<u8>, start: int, block_size: int) -> bool {
    forall|i: int|
        0 <= i < found.len() ==> match #[trigger] found[i] {
            Some(block) => block == blocks_of(disk, start + i, 1, block_size),
            None => true,
        }
}

/// What the disk holds of the runs.
pub open spec fn runs_on_disk(
    runs: Seq<(int, int)>,
    disk: Seq<u8>,
    start: int,
    block_size: int,
) -> Seq<Seq<u8>> {
    runs.map_values(|r: (int, int)| blocks_of(disk, start + r.0, r.1, block_size))
}

proof fn lemma_adjacent(disk: Seq<u8>, a: int, b: int, c: int, bs: int)
    requires
        0 <= a <= b <= c,
        0 < bs,
        c * bs <= disk.len(),
    ensures
        blocks_of(disk, a, b - a, bs) + blocks_of(disk, b, c - b, bs) == blocks_of(
            disk,
            a,
            c - a,
            bs,
        ),
{
    assert(0 <= a * bs <= b * bs && b * bs <= c * bs) by (nonlinear_arith)
        requires
            0 <= a <= b <= c,
            0 < bs,
    ;
    assert(blocks_of(disk, a, b - a, bs) + blocks_of(disk, b, c - b, bs) =~= blocks_of(
        disk,
        a,
        c - a,
        bs,
    ));
}

proof fn lemma_served(found: Lookups, disk: Seq<u8>, start: int, i: int, bs: int)
    requires
        0 <= start,
        0 <= i <= found.len(),
        0 < bs,
        (start + found.len()) * bs <= disk.len(),
        found_on_disk(found, disk, start, bs),
    ensures
        served_from(found, runs_on_disk(misses_from(found, i), disk, start, bs), i) == blocks_of(
            disk,
            start + i,
            found.len() - i,
            bs,
        ),
    decreases found.len() - i,
{
    let n = found.len() as int;
    let fetched = runs_on_disk(misses_from(found, i), disk, start, bs);
    if i == n {
        assert(0 <= (start + n) * bs) by (nonlinear_arith)
            requires
                0 <= start + n,
                0 < bs,
        ;
        assert(blocks_of(disk, start + n, 0, bs) =~= seq![]);
    } else if found[i] is Some {
        lemma_served(found, disk, start, i + 1, bs);
        lemma_adjacent(disk, start + i, start + i + 1, start + n, bs);
    } else {
        lemma_miss_end(found, i);
        lemma_miss_end(found, i + 1);
        let e = miss_end(found, i);
        lemma_served(found, disk, start, e, bs);
        lemma_adjacent(disk, start + i, start + e, start + n, bs);
        let rest = misses_from(found, e);
        assert(misses_from(found, i) == seq![(i, e - i)] + rest);
        assert(fetched.skip(1) =~= runs_on_disk(rest, disk, start, bs));
        assert(fetched[0] == blocks_of(disk, start + i, e - i, bs));
    }
}

/// A read that is served from the cache where it can be, and from the disk
/// otherwise, gives what the disk holds.
pub proof fn cached_blocks_serve_the_disk(
    found: Lookups,
    disk: Seq<u8>,
    start: int,
    block_size: int,
)
    requires
        0 <= start,
        0 < block_size,
        (start + found.len()) * block_size <= disk.len(),
        found_on_disk(found, disk, start, block_size),
    ensures
        served_from(found, runs_on_disk(misses_from(found, 0), disk, start, block_size), 0)
            == blocks_of(disk, start, found.len() as int, block_size),
{
    lemma_served(found, disk, start, 0, block_size);
}

/// Read-modify-write changes the disk by the bytes of the write and by nothing
/// else.
pub proof fn modify_changes_its_range_only(
    disk: Seq<u8>,
    offset: int,
    data: Seq<u8>,
    block_size: int,
)
    requires
        0 <= offset,
        0 < data.len(),
        0 < block_size,
        (offset / block_size + blocks_touched(offset, data.len() as int, block_size)) * block_size
            <= disk.len(),
    ensures
        ({
            let lba = offset / block_size;
            let count = blocks_touched(offset, data.len() as int, block_size);
            let existing = blocks_of(disk, lba, count, block_size);
            disk_after_write(disk, lba, patched(existing, offset % block_size, data), block_size)
                == patched(disk, offset, data)
        }),
{
    let lba = offset / block_size;
    let count = blocks_touched(offset, data.len() as int, block_size);
    lemma_blocks_touched(offset, data.len() as int, block_size);
    assert(0 <= lba * block_size) by (nonlinear_arith)
        requires
            0 <= lba,
            0 < block_size,
    ;
    let existing = blocks_of(disk, lba, count, block_size);
    assert(disk_after_write(
        disk,
        lba,
        patched(existing, offset % block_size, data),
        block_size,
    ) =~= patched(disk, offset, data));
}

/// A write that needs no read changes the disk by its bytes and by nothing
/// else: what is written for it are whole blocks, and they are just its bytes.
pub proof fn aligned_write_changes_its_range_only(
    span: Span,
    disk: Seq<u8>,
    offset: int,
    data: Seq<u8>,
    block_size: int,
)
    requires
        0 <= offset,
        0 < block_size,
        span.covers(offset, data.len() as int, block_size),
        span.fits(block_size),
        span.aligned(block_size),
        offset + data.len() <= disk.len(),
    ensures
        data.len() == span.block_count * block_size,
        ({
            let after = disk_after_write(disk, span.start_lba as int, data, block_size);
            &&& after.len() == disk.len()
            &&& forall|p: int|
                0 <= p < disk.len() ==> #[trigger] after[p] == (if offset <= p < offset
                    + data.len() {
                    data[p - offset]
                } else {
                    disk[p]
                })
        }),
{
    span_holds_its_range(span, offset, data.len() as int, block_size);
    aligned_spans_fill_their_blocks(span, block_size);
}

} // verus!

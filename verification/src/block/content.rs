//! What a device holds: the blocks on the disk, with the dirty blocks over
//! them.

use crate::block::dirty_map::{
    all_dirty, are_sorted_keys, block_part, blocks_after_write, blocks_in, cut_share,
    joined_blocks, lemma_cut_block, lemma_in_block, overlaid, overlaid_byte, runs_of,
    shares_len, writes_are_runs, Blocks, Run, Shares,
};
use crate::block::device::{BlockDeviceWorker, FlushStep, ReadPlan, Stored, WritePlan};
use crate::block::span::{
    aligned_spans_fill_their_blocks, blocks_touched, lemma_blocks_touched, patched,
    span_holds_its_range, Span,
};
use crate::buffer::bytes_content;
use crate::chunks::min_int;
use crate::iscsi::pipeline::{blocks_of, disk_after_write};
use bytes::Bytes;
use vstd::prelude::*;

verus! {

/// What the device holds: the disk, with the dirty blocks over it.
pub open spec fn device_content(disk: Seq<u8>, m: Blocks, block_size: int) -> Seq<u8> {
    overlaid(disk, m, 0, block_size)
}

/// Every share is a whole block that was cut out.
pub open spec fn whole_blocks(m: Shares, block_size: int) -> bool {
    forall|k: u64| #[trigger]
        m.contains_key(k) ==> m[k] == cut_share(m[k].data, block_size) && m[k].data.len()
            == block_size
}

/// A byte at `i` of the blocks from `start` on stands in block `start + i /
/// block_size`, at the same place in it.
proof fn lemma_shifted(start: int, i: int, block_size: int)
    requires
        0 <= start,
        0 <= i,
        0 < block_size,
    ensures
        (start * block_size + i) / block_size == start + i / block_size,
        (start * block_size + i) % block_size == i % block_size,
{
    let j = i / block_size;
    vstd::arithmetic::div_mod::lemma_fundamental_div_mod(i, block_size);
    assert(block_size * j == j * block_size) by (nonlinear_arith);
    assert((start + j) * block_size == start * block_size + j * block_size) by (nonlinear_arith);
    lemma_in_block(start * block_size + i, start + j, block_size);
}

proof fn lemma_scaled(start: int, count: int, block_size: int)
    requires
        0 <= start,
        0 <= count,
        0 < block_size,
    ensures
        0 <= start * block_size <= (start + count) * block_size,
        (start + count) * block_size == start * block_size + count * block_size,
        0 <= count * block_size,
{
    assert(0 <= start * block_size <= (start + count) * block_size && (start + count) * block_size
        == start * block_size + count * block_size && 0 <= count * block_size) by (nonlinear_arith)
        requires
            0 <= start,
            0 <= count,
            0 < block_size,
    ;
}

/// Reading blocks from the disk and putting the dirty ones over them gives
/// these blocks of what the device holds.
proof fn lemma_overlaid_blocks(disk: Seq<u8>, m: Blocks, start: int, count: int, block_size: int)
    requires
        0 <= start,
        0 <= count,
        0 < block_size,
        (start + count) * block_size <= disk.len(),
    ensures
        overlaid(blocks_of(disk, start, count, block_size), m, start, block_size) == blocks_of(
            device_content(disk, m, block_size),
            start,
            count,
            block_size,
        ),
{
    lemma_scaled(start, count, block_size);
    let base = blocks_of(disk, start, count, block_size);
    let l = overlaid(base, m, start, block_size);
    let r = blocks_of(device_content(disk, m, block_size), start, count, block_size);
    assert forall|i: int| 0 <= i < count * block_size implies #[trigger] l[i] == r[i] by {
        lemma_shifted(start, i, block_size);
        assert(overlaid_byte(base, m, start, block_size, i) == overlaid_byte(
            disk,
            m,
            0,
            block_size,
            start * block_size + i,
        ));
    }
    assert(l =~= r);
}

/// Blocks that are all dirty are these blocks of what the device holds,
/// whatever the disk has there.
proof fn lemma_joined_blocks(disk: Seq<u8>, m: Blocks, start: u64, count: int, block_size: u32)
    requires
        0 <= count,
        start + count <= u64::MAX,
        0 < block_size,
        all_dirty(m, start, count, block_size),
        (start + count) * block_size <= disk.len(),
    ensures
        joined_blocks(m, start as int, count, block_size as int) == blocks_of(
            device_content(disk, m, block_size as int),
            start as int,
            count,
            block_size as int,
        ),
    decreases count,
{
    let bs = block_size as int;
    let all = device_content(disk, m, bs);
    lemma_scaled(start as int, count, bs);
    if count > 0 {
        lemma_scaled(start as int, count - 1, bs);
        lemma_scaled(start + count - 1, 1, bs);
        assert(1 * bs == bs) by (nonlinear_arith);
        lemma_joined_blocks(disk, m, start, count - 1, block_size);
        let k = (start + count - 1) as u64;
        assert(start <= k < start + count);
        assert(m.contains_key(k));
        assert(m[k].len() >= bs);
        let at = k * bs;
        assert forall|i: int| at <= i < at + bs implies #[trigger] all[i] == m[k][i - at] by {
            lemma_in_block(i, k as int, bs);
        }
        assert(m[k].take(bs) =~= all.subrange(at, at + bs));
        assert(blocks_of(all, start as int, count, bs) =~= blocks_of(
            all,
            start as int,
            count - 1,
            bs,
        ) + all.subrange(at, at + bs));
    } else {
        assert(blocks_of(all, start as int, 0, bs) =~= seq![]);
    }
}

/// Read-your-writes: what a read of `len` bytes at `offset` is answered with is
/// what the device holds there, whether its blocks were all dirty or were read
/// from the disk and had the dirty ones put over them.
pub proof fn read_returns_device_content(
    disk: Seq<u8>,
    m: Blocks,
    offset: u64,
    len: int,
    block_size: u32,
)
    requires
        0 < block_size,
        0 < len,
        offset + len <= u64::MAX,
        ({
            let lba = offset as int / block_size as int;
            let count = blocks_touched(offset as int, len, block_size as int);
            (lba + count) * block_size <= disk.len()
        }),
    ensures
        ({
            let lba = offset as int / block_size as int;
            let count = blocks_touched(offset as int, len, block_size as int);
            let skip = offset as int % block_size as int;
            let fetched = blocks_of(disk, lba, count, block_size as int);
            let held = device_content(disk, m, block_size as int).subrange(
                offset as int,
                offset + len,
            );
            &&& skip + len <= fetched.len()
            &&& overlaid(fetched, m, lba, block_size as int).subrange(skip, skip + len) == held
            &&& all_dirty(m, lba as u64, count, block_size) ==> joined_blocks(
                m,
                lba,
                count,
                block_size as int,
            ).subrange(skip, skip + len) == held
        }),
{
    let bs = block_size as int;
    let lba = offset as int / bs;
    let count = blocks_touched(offset as int, len, bs);
    let skip = offset as int % bs;
    lemma_blocks_touched(offset as int, len, bs);
    lemma_scaled(lba, count, bs);
    lemma_overlaid_blocks(disk, m, lba, count, bs);
    let all = device_content(disk, m, bs);
    assert(blocks_of(all, lba, count, bs).subrange(skip, skip + len) =~= all.subrange(
        offset as int,
        offset + len,
    ));
    if all_dirty(m, lba as u64, count, block_size) {
        lemma_joined_blocks(disk, m, lba as u64, count, block_size);
    }
}

/// A write changes what the device holds by its own bytes and by nothing else:
/// the blocks that are put into the dirty map for `data` at `offset` leave the
/// device holding what it held, with `data` in its place.
pub proof fn write_changes_its_range_only(
    disk: Seq<u8>,
    m: Blocks,
    offset: u64,
    data: Seq<u8>,
    block_size: u32,
)
    requires
        0 < block_size,
        0 < data.len() <= u32::MAX,
        offset + data.len() <= u64::MAX,
        ({
            let lba = offset as int / block_size as int;
            let count = blocks_touched(offset as int, data.len() as int, block_size as int);
            (lba + count) * block_size <= disk.len()
        }),
    ensures
        ({
            let lba = offset as int / block_size as int;
            let count = blocks_touched(offset as int, data.len() as int, block_size as int);
            let skip = offset as int % block_size as int;
            let existing = blocks_of(disk, lba, count, block_size as int);
            let stored = patched(overlaid(existing, m, lba, block_size as int), skip, data);
            let after = blocks_after_write(
                m,
                lba as u64,
                count as u32,
                stored,
                block_size as int,
            );
            &&& stored.len() == count * block_size
            &&& skip == 0 && data.len() as int % block_size as int == 0 ==> stored == data
            &&& device_content(disk, after, block_size as int) == patched(
                device_content(disk, m, block_size as int),
                offset as int,
                data,
            )
        }),
{
    let bs = block_size as int;
    let n = data.len() as int;
    let lba = offset as int / bs;
    let count = blocks_touched(offset as int, n, bs);
    let skip = offset as int % bs;
    lemma_blocks_touched(offset as int, n, bs);
    lemma_scaled(lba, count, bs);
    lemma_overlaid_blocks(disk, m, lba, count, bs);
    let before = device_content(disk, m, bs);
    let stored = patched(blocks_of(before, lba, count, bs), skip, data);
    if skip == 0 && n % bs == 0 {
        lemma_whole(n, count, bs);
        assert(stored =~= data);
    }
    let after = blocks_after_write(m, lba as u64, count as u32, stored, bs);
    let l = device_content(disk, after, bs);
    let r = patched(before, offset as int, data);
    assert forall|p: int| 0 <= p < disk.len() implies #[trigger] l[p] == r[p] by {
        let k = p / bs;
        vstd::arithmetic::div_mod::lemma_fundamental_div_mod(p, bs);
        assert(bs * k == k * bs) by (nonlinear_arith);
        assert(0 <= k) by (nonlinear_arith)
            requires
                k == p / bs,
                0 <= p,
                0 < bs,
        ;
        if lba <= k < lba + count {
            lemma_block_of_stored(k - lba, count, bs);
            assert((k - lba) * bs == k * bs - lba * bs) by (nonlinear_arith);
            assert(after[k as u64] == block_part(stored, k - lba, count, bs));
            assert(after[k as u64] == stored.subrange((k - lba) * bs, (k - lba + 1) * bs));
            assert(after[k as u64][p % bs] == stored[p - lba * bs]);
        } else {
            lemma_outside(p, k, lba, count, bs);
            assert(after.contains_key(k as u64) == m.contains_key(k as u64) || k > u64::MAX);
        }
    }
    assert(l =~= r);
}

pub proof fn lemma_whole(n: int, count: int, bs: int)
    requires
        0 < bs,
        n % bs == 0,
        n <= count * bs < n + bs,
    ensures
        n == count * bs,
{
    vstd::arithmetic::div_mod::lemma_fundamental_div_mod(n, bs);
    let q = n / bs;
    assert(n == q * bs) by (nonlinear_arith)
        requires
            n == bs * q,
    ;
    assert(q == count) by (nonlinear_arith)
        requires
            q * bs <= count * bs < q * bs + bs,
            0 < bs,
    ;
}

proof fn lemma_block_of_stored(j: int, count: int, bs: int)
    requires
        0 <= j < count,
        0 < bs,
    ensures
        0 <= j * bs,
        (j + 1) * bs == j * bs + bs,
        (j + 1) * bs <= count * bs,
{
    assert(0 <= j * bs && (j + 1) * bs == j * bs + bs && (j + 1) * bs <= count * bs)
        by (nonlinear_arith)
        requires
            0 <= j < count,
            0 < bs,
    ;
}

/// A byte of a block outside of a range of blocks is outside of their bytes.
proof fn lemma_outside(p: int, k: int, lba: int, count: int, bs: int)
    requires
        0 < bs,
        k * bs <= p < k * bs + bs,
        k < lba || lba + count <= k,
    ensures
        p < lba * bs || (lba + count) * bs <= p,
{
    if k < lba {
        assert(k * bs + bs <= lba * bs) by (nonlinear_arith)
            requires
                k + 1 <= lba,
                0 < bs,
        ;
    } else {
        assert((lba + count) * bs <= k * bs) by (nonlinear_arith)
            requires
                lba + count <= k,
                0 < bs,
        ;
    }
}

/// The disk after the runs were written, one after the other.
pub open spec fn disk_after_runs(disk: Seq<u8>, runs: Seq<Run>, block_size: int) -> Seq<u8>
    decreases runs.len(),
{
    if runs.len() == 0 {
        disk
    } else {
        disk_after_write(
            disk_after_runs(disk, runs.drop_last(), block_size),
            runs.last().start,
            runs.last().data,
            block_size,
        )
    }
}

/// The disk after the writes that a flush sends, one after the other.
pub open spec fn disk_after_flush(
    disk: Seq<u8>,
    writes: Seq<(u64, Bytes)>,
    block_size: int,
) -> Seq<u8>
    decreases writes.len(),
{
    if writes.len() == 0 {
        disk
    } else {
        disk_after_write(
            disk_after_flush(disk, writes.drop_last(), block_size),
            writes.last().0 as int,
            bytes_content(writes.last().1),
            block_size,
        )
    }
}

proof fn lemma_flush_writes_runs(
    disk: Seq<u8>,
    writes: Seq<(u64, Bytes)>,
    runs: Seq<Run>,
    block_size: int,
)
    requires
        writes_are_runs(writes, runs),
    ensures
        disk_after_flush(disk, writes, block_size) == disk_after_runs(disk, runs, block_size),
    decreases writes.len(),
{
    if writes.len() > 0 {
        assert(writes_are_runs(writes.drop_last(), runs.drop_last()));
        lemma_flush_writes_runs(disk, writes.drop_last(), runs.drop_last(), block_size);
        assert(writes.last() == writes[writes.len() - 1]);
    }
}

/// Runs that stand in ascending order with a gap between any two.
pub open spec fn runs_apart(runs: Seq<Run>) -> bool {
    &&& forall|i: int| 0 <= i < runs.len() ==> (#[trigger] runs[i]).start < runs[i].end
    &&& forall|i: int, j: int|
        0 <= i < j < runs.len() ==> (#[trigger] runs[i]).end < (#[trigger] runs[j]).start
}

/// The blocks with these LBAs.
spec fn picked(m: Blocks, keys: Seq<u64>) -> Blocks {
    m.restrict(keys.to_set())
}

proof fn lemma_runs(disk: Seq<u8>, keys: Seq<u64>, m: Shares, block_size: int)
    requires
        0 < block_size,
        whole_blocks(m, block_size),
        forall|i: int, j: int| 0 <= i < j < keys.len() ==> keys[i] < keys[j],
        forall|i: int| 0 <= i < keys.len() ==> m.contains_key(#[trigger] keys[i]),
        forall|i: int| 0 <= i < keys.len() ==> (#[trigger] keys[i] + 1) * block_size <= disk.len(),
    ensures
        disk_after_runs(disk, runs_of(keys, m), block_size) == device_content(
            disk,
            picked(blocks_in(m, block_size), keys),
            block_size,
        ),
        runs_apart(runs_of(keys, m)),
        keys.len() > 0 ==> {
            let last = runs_of(keys, m).last();
            &&& runs_of(keys, m).len() > 0
            &&& last.end == keys.last() + 1
            &&& last.goes_on
            &&& last.unit == block_size
            &&& 0 <= last.start
            &&& last.data.len() == (last.end - last.start) * block_size
            &&& disk_after_runs(disk, runs_of(keys, m).drop_last(), block_size).len() == disk.len()
        },
        keys.len() == 0 ==> runs_of(keys, m).len() == 0,
    decreases keys.len(),
{
    if keys.len() == 0 {
        assert(device_content(disk, picked(blocks_in(m, block_size), keys), block_size) =~= disk);
    } else {
        let bs = block_size;
        let first = keys.drop_last();
        let k = keys.last();
        assert(keys[keys.len() - 1] == k);
        let block = m[k].data;
        lemma_cut_block(block, bs, bs);
        assert(m[k].own() == block && blocks_in(m, bs)[k] == block);
        assert(m[k].unit() == bs);
        lemma_runs(disk, first, m, bs);
        let before = runs_of(first, m);
        let runs = runs_of(keys, m);
        let d0 = disk_after_runs(disk, before, bs);
        lemma_scaled(k as int, 1, bs);
        assert(1 * bs == bs) by (nonlinear_arith);
        if first.len() > 0 {
            assert(first.last() == keys[keys.len() - 2]);
        }
        if before.len() > 0 && before.last().end == k {
            let s = before.last().start;
            assert(runs.drop_last() =~= before.drop_last());
            lemma_scaled(s, k - s, bs);
            let d = disk_after_runs(disk, before.drop_last(), bs);
            assert(disk_after_write(d, s, before.last().data + block, bs) =~= disk_after_write(
                d0,
                k as int,
                block,
                bs,
            ));
            assert((k + 1 - s) * bs == (k - s) * bs + bs) by (nonlinear_arith);
            assert(runs_apart(runs)) by {
                assert forall|i: int, j: int| 0 <= i < j < runs.len() implies (
                #[trigger] runs[i]).end < (#[trigger] runs[j]).start by {
                    assert(before[i].end < before[j].start);
                }
                assert forall|i: int| 0 <= i < runs.len() implies (#[trigger] runs[i]).start
                    < runs[i].end by {
                    assert(before[i].start < before[i].end);
                }
            }
        } else {
            assert(runs.drop_last() =~= before);
            assert((k + 1 - k) * bs == bs) by (nonlinear_arith);
            assert(runs_apart(runs)) by {
                assert forall|i: int, j: int| 0 <= i < j < runs.len() implies (
                #[trigger] runs[i]).end < (#[trigger] runs[j]).start by {
                    if j < before.len() {
                        assert(before[i].end < before[j].start);
                    } else if i < before.len() - 1 {
                        assert(before[i].end < before[before.len() - 1].start);
                        assert(before[before.len() - 1].start < before[before.len() - 1].end);
                    } else {
                        assert(before[i] == before.last());
                    }
                }
                assert forall|i: int| 0 <= i < runs.len() implies (#[trigger] runs[i]).start
                    < runs[i].end by {
                    if i < before.len() {
                        assert(before[i].start < before[i].end);
                    }
                }
            }
        }
        lemma_one_more_block(disk, blocks_in(m, bs), keys, bs);
    }
}

/// Writing the last block as well is having it over the disk as well.
proof fn lemma_one_more_block(disk: Seq<u8>, m: Blocks, keys: Seq<u64>, bs: int)
    requires
        0 < bs,
        keys.len() > 0,
        m.contains_key(keys.last()),
        m[keys.last()].len() == bs,
        (keys.last() + 1) * bs <= disk.len(),
    ensures
        disk_after_write(
            device_content(disk, picked(m, keys.drop_last()), bs),
            keys.last() as int,
            m[keys.last()],
            bs,
        ) == device_content(disk, picked(m, keys), bs),
{
    let k = keys.last();
    let l = disk_after_write(
        device_content(disk, picked(m, keys.drop_last()), bs),
        k as int,
        m[k],
        bs,
    );
    let r = device_content(disk, picked(m, keys), bs);
    lemma_scaled(k as int, 1, bs);
    assert(1 * bs == bs) by (nonlinear_arith);
    assert forall|p: int| 0 <= p < disk.len() implies #[trigger] l[p] == r[p] by {
        let j = p / bs;
        vstd::arithmetic::div_mod::lemma_fundamental_div_mod(p, bs);
        assert(bs * j == j * bs) by (nonlinear_arith);
        if j == k {
            assert(keys.contains(k)) by {
                assert(keys[keys.len() - 1] == k);
            }
        } else {
            lemma_outside(p, j, k as int, 1, bs);
            if 0 <= j <= u64::MAX {
                lemma_contains_but_last(keys, j as u64);
            }
        }
    }
    assert(l =~= r);
}

proof fn lemma_contains_but_last(keys: Seq<u64>, j: u64)
    requires
        keys.len() > 0,
        j != keys.last(),
    ensures
        keys.contains(j) == keys.drop_last().contains(j),
{
    if keys.contains(j) {
        let i = keys.index_of(j);
        assert(keys[i] == j);
        assert(keys.drop_last()[i] == j);
    }
    if keys.drop_last().contains(j) {
        let i = keys.drop_last().index_of(j);
        assert(keys.drop_last()[i] == j);
        assert(keys[i] == j);
    }
}

/// A flush loses nothing and brings nothing in: once the drained writes are on
/// the disk, the disk alone holds what disk and dirty blocks held together,
/// where these are whole. The writes touch different blocks, so they may be sent in any order.
pub proof fn flush_writes_device_content(
    disk: Seq<u8>,
    m: Shares,
    keys: Seq<u64>,
    writes: Seq<(u64, Bytes)>,
    block_size: int,
)
    requires
        0 < block_size,
        whole_blocks(m, block_size),
        are_sorted_keys(keys, m),
        writes_are_runs(writes, runs_of(keys, m)),
        forall|k: u64| #[trigger] m.contains_key(k) ==> (k + 1) * block_size <= disk.len(),
    ensures
        disk_after_flush(disk, writes, block_size) == device_content(
            disk,
            blocks_in(m, block_size),
            block_size,
        ),
        device_content(disk_after_flush(disk, writes, block_size), Blocks::empty(), block_size)
            == device_content(disk, blocks_in(m, block_size), block_size),
        runs_apart(runs_of(keys, m)),
{
    assert forall|i: int| 0 <= i < keys.len() implies m.contains_key(#[trigger] keys[i]) && (keys[i]
        + 1) * block_size <= disk.len() by {
        assert(keys.contains(keys[i]));
    }
    lemma_runs(disk, keys, m, block_size);
    lemma_flush_writes_runs(disk, writes, runs_of(keys, m), block_size);
    let blocks = blocks_in(m, block_size);
    assert(picked(blocks, keys) =~= blocks) by {
        assert forall|k: u64| blocks.contains_key(k) implies picked(blocks, keys).contains_key(k) by {
            assert(m.contains_key(k));
            assert(keys.contains(k));
        }
    }
    let d = disk_after_flush(disk, writes, block_size);
    assert(device_content(d, Blocks::empty(), block_size) =~= d);
}

/// The dirty blocks of the worker are whole, and they lie on the device.
pub open spec fn holds_whole_blocks(w: BlockDeviceWorker) -> bool {
    let m = w.dirty.shares();
    &&& whole_blocks(m, w.block_size as int)
    &&& forall|k: u64| #[trigger] m.contains_key(k) ==> (k + 1) * w.block_size <= w.total_bytes
}

/// The disk is that of the worker: as long as the device, in whole blocks.
pub open spec fn is_disk_of(disk: Seq<u8>, w: BlockDeviceWorker) -> bool {
    &&& disk.len() == w.total_bytes
    &&& w.total_bytes as int % w.block_size as int == 0
}

/// The blocks of a range on a device of whole blocks are on the device.
proof fn lemma_span_on_device(span: Span, offset: int, len: int, bs: int, total: int)
    requires
        0 < bs,
        0 <= offset,
        offset + len <= total,
        total % bs == 0,
        span.covers(offset, len, bs),
    ensures
        (span.start_lba + span.block_count) * bs <= total,
{
    span_holds_its_range(span, offset, len, bs);
    let end = span.start_lba + span.block_count;
    let n = total / bs;
    vstd::arithmetic::div_mod::lemma_fundamental_div_mod(total, bs);
    assert(end * bs <= total) by (nonlinear_arith)
        requires
            total == bs * n,
            end * bs < total + bs,
            0 < bs,
    ;
}

/// A worker that has cut out the blocks of a write holds just those it held and
/// those of the write.
proof fn lemma_stored_blocks_whole(
    before: BlockDeviceWorker,
    after: BlockDeviceWorker,
    span: Span,
    stored: Seq<u8>,
    outcome: Stored,
)
    requires
        before.wf(),
        holds_whole_blocks(before),
        after.after_store(before, span, stored, outcome),
        stored.len() == span.block_count * before.block_size,
        (span.start_lba + span.block_count) * before.block_size <= before.total_bytes,
    ensures
        holds_whole_blocks(after),
{
    let bs = before.block_size as int;
    let m = after.dirty.shares();
    let old = before.dirty.shares();
    let count = span.block_count as int;
    assert forall|k: u64| #[trigger] m.contains_key(k) implies m[k].data.len() == bs && (k + 1) * bs
        <= before.total_bytes by {
        assert(m[k] == cut_share(m[k].data, bs));
        lemma_cut_block(m[k].data, bs, bs);
        assert(after.blocks().contains_key(k));
        assert(after.blocks()[k] == m[k].data);
        if span.start_lba <= k < span.start_lba + count {
            let j = k - span.start_lba;
            lemma_block_of_stored(j, count, bs);
            assert(m[k].data == block_part(stored, j, count, bs));
            assert((k + 1) * bs <= (span.start_lba + count) * bs) by (nonlinear_arith)
                requires
                    k + 1 <= span.start_lba + count,
                    0 < bs,
            ;
        } else {
            assert(before.blocks().contains_key(k));
            assert(old.contains_key(k));
            lemma_cut_block(old[k].data, bs, bs);
            assert(before.blocks()[k] == old[k].data);
        }
    }
}

/// A write that the worker serves changes what the device holds by its own
/// bytes, as far as they lie on the device, and by nothing else, whether it was
/// stored as it is or was put over the blocks that were read for it. The dirty
/// blocks stay whole, so that a flush brings all of it to the disk.
pub proof fn served_write_changes_its_range_only(
    before: BlockDeviceWorker,
    after: BlockDeviceWorker,
    disk: Seq<u8>,
    offset: u64,
    data: Seq<u8>,
    plan: WritePlan,
    outcome: Stored,
)
    requires
        before.wf(),
        holds_whole_blocks(before),
        is_disk_of(disk, before),
        data.len() <= u32::MAX,
        before.plans_write(offset, data, plan),
        match plan {
            WritePlan::Nothing => after == before,
            WritePlan::Store { span, data: stored } => after.after_store(
                before,
                span,
                bytes_content(stored),
                outcome,
            ),
            WritePlan::Modify { span, data: part } => after.after_store(
                before,
                span,
                before.modified(
                    span,
                    bytes_content(part),
                    blocks_of(
                        disk,
                        span.start_lba as int,
                        span.block_count as int,
                        before.block_size as int,
                    ),
                ),
                outcome,
            ),
        },
    ensures
        ({
            let bs = before.block_size as int;
            let was = device_content(disk, before.blocks(), bs);
            let is = device_content(disk, after.blocks(), bs);
            &&& holds_whole_blocks(after)
            &&& is.len() == was.len()
            &&& forall|p: int|
                0 <= p < is.len() ==> #[trigger] is[p] == (if offset <= p < offset + data.len() {
                    data[p - offset]
                } else {
                    was[p]
                })
            &&& plan is Nothing || outcome.written == min_int(
                data.len() as int,
                before.total_bytes - offset,
            )
        }),
{
    let bs = before.block_size as int;
    let total = before.total_bytes as int;
    let was = device_content(disk, before.blocks(), bs);
    let is = device_content(disk, after.blocks(), bs);
    match plan {
        WritePlan::Nothing => {},
        WritePlan::Store { span, data: stored } => {
            let part = bytes_content(stored);
            let n = part.len() as int;
            span_holds_its_range(span, offset as int, n, bs);
            lemma_span_on_device(span, offset as int, n, bs, total);
            aligned_spans_fill_their_blocks(span, bs);
            write_changes_its_range_only(disk, before.blocks(), offset, part, before.block_size);
            lemma_stored_blocks_whole(before, after, span, part, outcome);
            assert(is == patched(was, offset as int, part));
        },
        WritePlan::Modify { span, data: stored } => {
            let part = bytes_content(stored);
            let n = part.len() as int;
            span_holds_its_range(span, offset as int, n, bs);
            lemma_span_on_device(span, offset as int, n, bs, total);
            write_changes_its_range_only(disk, before.blocks(), offset, part, before.block_size);
            let existing = blocks_of(disk, span.start_lba as int, span.block_count as int, bs);
            let all = before.modified(span, part, existing);
            lemma_stored_blocks_whole(before, after, span, all, outcome);
            assert(is == patched(was, offset as int, part));
        },
    }
}

/// A write is stored without reading the disk only if its bytes fill its blocks
/// exactly; one that fills them is always stored so.
pub proof fn stored_write_fills_its_blocks(
    w: BlockDeviceWorker,
    offset: u64,
    data: Seq<u8>,
    plan: WritePlan,
)
    requires
        0 < w.block_size,
        w.plans_write(offset, data, plan),
    ensures
        match plan {
            WritePlan::Nothing => data.len() == 0 || offset >= w.total_bytes,
            WritePlan::Store { span, data: stored } => {
                &&& bytes_content(stored).len() == span.block_count * w.block_size
                &&& span.start_lba * w.block_size == offset
                &&& offset + bytes_content(stored).len() <= w.total_bytes
                &&& bytes_content(stored) == data.take(bytes_content(stored).len() as int)
            },
            WritePlan::Modify { span, data: part } => {
                &&& span.start_lba * w.block_size < offset || bytes_content(part).len()
                    < span.block_count * w.block_size
                &&& span.start_lba * w.block_size + span.skip == offset
                &&& offset + bytes_content(part).len() <= w.total_bytes
                &&& bytes_content(part) == data.take(bytes_content(part).len() as int)
            },
        },
{
    let bs = w.block_size as int;
    match plan {
        WritePlan::Nothing => {},
        WritePlan::Store { span, data: stored } => {
            span_holds_its_range(span, offset as int, span.len as int, bs);
            aligned_spans_fill_their_blocks(span, bs);
        },
        WritePlan::Modify { span, data: part } => {
            span_holds_its_range(span, offset as int, span.len as int, bs);
            aligned_spans_fill_their_blocks(span, bs);
        },
    }
}

/// A read that the worker serves is answered with what the device holds, from
/// the offset on and as far as both the request and the device reach, whether
/// or not blocks had to be fetched for it.
pub proof fn served_read_is_device_content(
    w: BlockDeviceWorker,
    disk: Seq<u8>,
    offset: u64,
    size: u32,
    plan: ReadPlan,
    answer: Seq<u8>,
)
    requires
        w.wf(),
        is_disk_of(disk, w),
        w.plans_read(offset, size, plan),
        match plan {
            ReadPlan::Done(data) => answer == bytes_content(data),
            ReadPlan::Fetch(span) => answer == w.read_answer(
                span,
                blocks_of(
                    disk,
                    span.start_lba as int,
                    span.block_count as int,
                    w.block_size as int,
                ),
            ),
        },
    ensures
        ({
            let held = device_content(disk, w.blocks(), w.block_size as int);
            &&& answer.len() == (if offset >= w.total_bytes {
                0
            } else {
                min_int(size as int, w.total_bytes - offset)
            })
            &&& forall|i: int| 0 <= i < answer.len() ==> #[trigger] answer[i] == held[offset + i]
        }),
{
    let bs = w.block_size as int;
    let len = w.on_device(offset, size as int);
    let held = device_content(disk, w.blocks(), bs);
    if len > 0 {
        let span = match plan {
            ReadPlan::Done(data) => choose|span: Span| #[trigger]
                span.covers(offset as int, len, bs) && all_dirty(
                    w.blocks(),
                    span.start_lba,
                    span.block_count as int,
                    w.block_size,
                ) && bytes_content(data) == joined_blocks(
                    w.blocks(),
                    span.start_lba as int,
                    span.block_count as int,
                    bs,
                ).subrange(span.skip as int, span.skip + span.len),
            ReadPlan::Fetch(span) => span,
        };
        lemma_span_on_device(span, offset as int, len, bs, w.total_bytes as int);
        read_returns_device_content(disk, w.blocks(), offset, len, w.block_size);
        assert(answer == held.subrange(offset as int, offset + len));
    }
}

/// A flush that the worker begins brings what the device holds to the disk:
/// once its writes are done, the disk alone holds it. Where there is nothing to
/// write, it did already.
pub proof fn served_flush_saves_device_content(
    before: BlockDeviceWorker,
    after: BlockDeviceWorker,
    disk: Seq<u8>,
    step: FlushStep,
)
    requires
        before.wf(),
        holds_whole_blocks(before),
        is_disk_of(disk, before),
        after.begins_flush(before, step),
    ensures
        ({
            let bs = before.block_size as int;
            let was = device_content(disk, before.blocks(), bs);
            &&& holds_whole_blocks(after)
            &&& after.blocks() == Blocks::empty()
            &&& match step {
                FlushStep::Write(writes) => {
                    &&& writes.len() > 0
                    &&& disk_after_flush(disk, writes@, bs) == was
                },
                FlushStep::Done => disk == was,
                _ => false,
            }
        }),
{
    let bs = before.block_size as int;
    let m = before.dirty.shares();
    assert(after.blocks() =~= Blocks::empty());
    match step {
        FlushStep::Write(writes) => {
            let keys = choose|keys: Seq<u64>| #[trigger]
                are_sorted_keys(keys, m) && writes_are_runs(writes@, runs_of(keys, m));
            flush_writes_device_content(disk, m, keys, writes@, bs);
            if keys.len() == 0 {
                assert forall|k: u64| !m.contains_key(k) by {
                    assert(!keys.contains(k));
                }
                assert(m =~= Shares::empty());
            }
            lemma_runs_of_some(keys, m);
        },
        FlushStep::Done => {
            assert(device_content(disk, before.blocks(), bs) =~= disk) by {
                assert(before.blocks() =~= Blocks::empty());
            }
        },
        _ => {},
    }
}

proof fn lemma_runs_of_some(keys: Seq<u64>, m: Shares)
    ensures
        keys.len() > 0 ==> runs_of(keys, m).len() > 0,
{
}

/// Whole dirty blocks are counted by their bytes.
proof fn lemma_whole_blocks_len(m: Shares, bs: int)
    requires
        m.dom().finite(),
        whole_blocks(m, bs),
    ensures
        shares_len(m) == m.dom().len() * bs,
    decreases m.dom().len(),
{
    if m.dom().len() > 0 {
        let k = m.dom().choose();
        assert(m.dom().contains(k));
        lemma_cut_block(m[k].data, bs, bs);
        lemma_whole_blocks_len(m.remove(k), bs);
        let n = m.dom().len() as int;
        assert((n - 1) * bs + bs == n * bs) by (nonlinear_arith);
    } else {
        assert(0 * bs == 0) by (nonlinear_arith);
    }
}

/// A write is answered without a flush only while writes may be held back and
/// the dirty blocks are fewer bytes than the limit; it is flushed for no other
/// reason.
pub proof fn held_back_data_stays_below_the_limit(
    before: BlockDeviceWorker,
    after: BlockDeviceWorker,
    span: Span,
    stored: Seq<u8>,
    outcome: Stored,
)
    requires
        after.after_store(before, span, stored, outcome),
        holds_whole_blocks(after),
    ensures
        ({
            let dirty = after.dirty.shares().dom().len() * before.block_size;
            &&& outcome.flush <==> before.sync_writes || dirty >= before.coalesce_max_bytes
            &&& outcome.written == span.len
        }),
{
    lemma_whole_blocks_len(after.dirty.shares(), before.block_size as int);
}

/// The blocks that a flush makes stale in the cache are those that it writes:
/// all of them, where a write is whole blocks, and no others.
pub proof fn flushed_range_is_that_of_the_write(write: (u64, Bytes), block_size: u32, count: u32)
    requires
        0 < block_size,
        count * block_size <= u32::MAX,
        bytes_content(write.1).len() == count * block_size,
    ensures
        BlockDeviceWorker::flushed_range(write, block_size) == (write.0, count),
{
    vstd::arithmetic::div_mod::lemma_div_by_multiple(count as int, block_size as int);
}

} // verus!

//! The write coalescing buffer: blocks that were written and have not reached
//! the target yet.

use crate::buffer::{bytes_as_slice, bytes_clone, bytes_content, bytes_from_vec, bytes_slice};
use crate::chunks::min_int;
use crate::wire::append_slice;
use bytes::Bytes;
use std::collections::BTreeMap;
use vstd::prelude::*;

verus! {

broadcast use vstd::std_specs::btree::group_btree_axioms;

/// What dirty blocks hold, by LBA.
pub type Blocks = Map<u64, Seq<u8>>;

/// What block `index` gets of the data of a write of `count` blocks of `len`
/// bytes: its bytes, as far as there are any, and where it is the last all that
/// is left.
pub open spec fn block_part(data: Seq<u8>, index: int, count: int, len: int) -> Seq<u8> {
    data.subrange(
        min_int(index * len, data.len() as int),
        if index + 1 < count {
            min_int((index + 1) * len, data.len() as int)
        } else {
            data.len() as int
        },
    )
}

/// The share of one block in a write.
pub struct Share {
    /// All the data of the write.
    pub data: Seq<u8>,
    /// Which of the blocks of the write it is.
    pub index: int,
    /// The number of blocks of the write; a write of none has no block, and is
    /// kept where it starts.
    pub count: int,
    /// The data divides into whole blocks.
    pub even: bool,
}

/// The shares, by LBA.
pub type Shares = Map<u64, Share>;

impl Share {
    /// What the block holds, where blocks are `block_size` bytes long.
    pub open spec fn block(self, block_size: int) -> Seq<u8> {
        block_part(self.data, self.index, self.count, block_size)
    }

    /// What the share adds to a drained write: its part when the data is divided
    /// evenly, and all of it where the write has no block.
    pub open spec fn own(self) -> Seq<u8> {
        if self.count <= 0 {
            self.data
        } else {
            block_part(self.data, self.index, self.count, self.unit())
        }
    }

    /// The length of a block when the data is divided evenly.
    pub open spec fn unit(self) -> int {
        if self.count <= 0 {
            0
        } else {
            self.data.len() as int / self.count
        }
    }

    /// The next block stands right behind it.
    pub open spec fn goes_on(self) -> bool {
        self.count > 0 && (self.index + 1 < self.count || self.even)
    }

    pub open spec fn wf(self) -> bool {
        &&& 0 <= self.index
        &&& self.count > 0 ==> self.index < self.count
    }
}

/// What the dirty blocks hold, where blocks are `block_size` bytes long.
pub open spec fn blocks_in(m: Shares, block_size: int) -> Blocks {
    Map::new(|k: u64| m.contains_key(k) && m[k].count > 0, |k: u64| m[k].block(block_size))
}

/// The number of bytes that shares hold together.
pub open spec fn shares_len(m: Shares) -> nat
    decreases m.dom().len(),
    when m.dom().finite()
{
    if m.dom().len() == 0 {
        0
    } else {
        let k = m.dom().choose();
        m[k].own().len() + shares_len(m.remove(k))
    }
}

proof fn lemma_shares_len_remove(m: Shares, k: u64)
    requires
        m.dom().finite(),
        m.contains_key(k),
    ensures
        shares_len(m) == m[k].own().len() + shares_len(m.remove(k)),
    decreases m.dom().len(),
{
    let c = m.dom().choose();
    assert(m.dom().contains(k));
    assert(m.dom().len() > 0);
    if c != k {
        lemma_shares_len_remove(m.remove(c), k);
        lemma_shares_len_remove(m.remove(k), c);
        assert(m.remove(c).remove(k) =~= m.remove(k).remove(c));
    }
}

proof fn lemma_shares_len_insert(m: Shares, k: u64, v: Share)
    requires
        m.dom().finite(),
    ensures
        shares_len(m.insert(k, v)) == shares_len(m) + v.own().len() - (if m.contains_key(k) {
            m[k].own().len() as int
        } else {
            0
        }),
{
    lemma_shares_len_remove(m.insert(k, v), k);
    assert(m.insert(k, v).remove(k) =~= m.remove(k));
    if m.contains_key(k) {
        lemma_shares_len_remove(m, k);
    } else {
        assert(m.remove(k) =~= m);
    }
}

/// The shares of the first `n` blocks of a write of `count` blocks.
pub open spec fn written_shares(start: u64, n: int, count: u32, data: Seq<u8>) -> Shares {
    Map::new(
        |k: u64| start <= k < start + n,
        |k: u64|
            Share {
                data,
                index: k - start,
                count: count as int,
                even: data.len() as int % count as int == 0,
            },
    )
}

/// The shares after `data` was written to `count` blocks from `start` on.
pub open spec fn shares_after_write(m: Shares, start: u64, count: u32, data: Seq<u8>) -> Shares {
    if count == 0 {
        m.insert(start, Share { data, index: 0, count: 0, even: false })
    } else {
        m.union_prefer_right(written_shares(start, count as int, count, data))
    }
}

/// The shares of the first `n` of `count` blocks that were cut out of `data`,
/// each a write of its own.
pub open spec fn cut_shares(start: u64, n: int, count: u32, data: Seq<u8>, block_size: int) -> Shares {
    Map::new(
        |k: u64| start <= k < start + n,
        |k: u64| cut_share(block_part(data, k - start, count as int, block_size), block_size),
    )
}

/// A block as a write of its own.
pub open spec fn cut_share(block: Seq<u8>, block_size: int) -> Share {
    Share { data: block, index: 0, count: 1, even: block.len() == block_size }
}

/// Every share is a block that was cut out.
pub open spec fn all_cut(m: Shares, block_size: int) -> bool {
    forall|k: u64| #[trigger] m.contains_key(k) ==> m[k] == cut_share(m[k].data, block_size)
}

/// The blocks after `data` was written to `count` blocks from `start` on.
pub open spec fn blocks_after_write(
    m: Blocks,
    start: u64,
    count: u32,
    data: Seq<u8>,
    block_size: int,
) -> Blocks {
    m.union_prefer_right(
        Map::new(
            |k: u64| start <= k < start + count,
            |k: u64| block_part(data, k - start, count as int, block_size),
        ),
    )
}

/// A block that was cut out holds just what it was cut out as.
pub proof fn lemma_cut_block(block: Seq<u8>, block_size: int, any: int)
    ensures
        cut_share(block, block_size).block(any) == block,
        cut_share(block, block_size).own() == block,
{
    assert(0 * any == 0) by (nonlinear_arith);
    assert(cut_share(block, block_size).block(any) =~= block);
    let len = cut_share(block, block_size).unit();
    assert(0 * len == 0) by (nonlinear_arith);
    assert(cut_share(block, block_size).own() =~= block);
}

/// A write lands on its blocks, each with its own bytes, and on no others,
/// however long blocks are.
pub proof fn insert_writes_its_blocks(
    m: Shares,
    start: u64,
    count: u32,
    data: Seq<u8>,
    block_size: int,
)
    requires
        count > 0,
    ensures
        blocks_in(shares_after_write(m, start, count, data), block_size) == blocks_after_write(
            blocks_in(m, block_size),
            start,
            count,
            data,
            block_size,
        ),
{
    assert(blocks_in(shares_after_write(m, start, count, data), block_size) =~= blocks_after_write(
        blocks_in(m, block_size),
        start,
        count,
        data,
        block_size,
    ));
}

/// To write blocks one by one is to write them together.
pub proof fn lemma_cut_write(m: Shares, start: u64, count: u32, data: Seq<u8>, block_size: int)
    requires
        all_cut(m, block_size),
    ensures
        ({
            let after = m.union_prefer_right(
                cut_shares(start, count as int, count, data, block_size),
            );
            &&& all_cut(after, block_size)
            &&& blocks_in(after, block_size) == blocks_after_write(
                blocks_in(m, block_size),
                start,
                count,
                data,
                block_size,
            )
        }),
{
    let after = m.union_prefer_right(cut_shares(start, count as int, count, data, block_size));
    let l = blocks_in(after, block_size);
    let r = blocks_after_write(blocks_in(m, block_size), start, count, data, block_size);
    assert forall|k: u64| l.contains_key(k) implies #[trigger] l[k] == r[k] by {
        if start <= k < start + count {
            lemma_cut_block(
                block_part(data, k - start, count as int, block_size),
                block_size,
                block_size,
            );
        }
    }
    assert(l =~= r);
}

/// Blocks that follow each other without a gap: the first, one past the last,
/// what they hold together, the length of the last one, and whether the next
/// block stands right behind.
pub struct Run {
    pub start: int,
    pub end: int,
    pub data: Seq<u8>,
    pub unit: int,
    pub goes_on: bool,
}

impl Run {
    /// The block at `k` belongs to the run, as the next one.
    pub open spec fn takes(self, k: u64, share: Share) -> bool {
        &&& self.goes_on
        &&& self.end == k
        &&& share.count > 0
        &&& self.unit == share.unit()
    }
}

/// The runs that the shares with these LBAs, in ascending order, make up.
pub open spec fn runs_of(keys: Seq<u64>, m: Shares) -> Seq<Run>
    decreases keys.len(),
{
    if keys.len() == 0 {
        seq![]
    } else {
        let before = runs_of(keys.drop_last(), m);
        let k = keys.last();
        let unit = m[k].unit();
        let goes_on = m[k].goes_on();
        if before.len() > 0 && before.last().takes(k, m[k]) {
            before.drop_last().push(
                Run {
                    start: before.last().start,
                    end: k + 1,
                    data: before.last().data + m[k].own(),
                    unit,
                    goes_on,
                },
            )
        } else {
            before.push(Run { start: k as int, end: k + 1, data: m[k].own(), unit, goes_on })
        }
    }
}

/// `keys` are the LBAs of the shares, in ascending order.
pub open spec fn are_sorted_keys(keys: Seq<u64>, m: Shares) -> bool {
    &&& forall|i: int, j: int| 0 <= i < j < keys.len() ==> keys[i] < keys[j]
    &&& forall|k: u64| m.contains_key(k) <==> #[trigger] keys.contains(k)
}

/// The drained writes are the runs.
pub open spec fn writes_are_runs(writes: Seq<(u64, Bytes)>, runs: Seq<Run>) -> bool {
    &&& writes.len() == runs.len()
    &&& forall|i: int|
        0 <= i < writes.len() ==> (#[trigger] writes[i]).0 == runs[i].start && bytes_content(
            writes[i].1,
        ) == runs[i].data
}

/// What the blocks `start..start + count` hold together, `block_size` bytes of
/// each.
pub open spec fn joined_blocks(m: Blocks, start: int, count: int, block_size: int) -> Seq<u8>
    decreases count,
{
    if count <= 0 {
        seq![]
    } else {
        joined_blocks(m, start, count - 1, block_size) + m[(start + count - 1) as u64].take(
            block_size,
        )
    }
}

/// All of the blocks `start..start + count` are there, with at least
/// `block_size` bytes each.
pub open spec fn all_dirty(m: Blocks, start: u64, count: int, block_size: u32) -> bool {
    forall|k: u64|
        start <= k < start + count ==> #[trigger] m.contains_key(k) && m[k].len() >= block_size
}

/// The place in front of block `lba` is in a write, or at the end of one, whose
/// data reaches up to it.
pub open spec fn at_dirty(m: Shares, lba: u64, block_size: u32) -> bool {
    ||| m.contains_key(lba) && m[lba].index * block_size <= m[lba].data.len()
    ||| {
        let before = (lba - 1) as u64;
        &&& lba > 0
        &&& m.contains_key(before)
        &&& m[before].count > 0
        &&& (m[before].index + 1) * block_size <= m[before].data.len()
    }
}

/// What is kept of a write for one of its blocks.
pub struct DirtyEntry {
    /// All the data of the write.
    pub data: Bytes,
    /// Which of the blocks of the write it is.
    pub index: u32,
    /// The number of blocks of the write.
    pub block_count: u32,
    /// The data divides into whole blocks.
    pub even: bool,
}

impl DirtyEntry {
    pub open spec fn share(self) -> Share {
        Share {
            data: bytes_content(self.data),
            index: self.index as int,
            count: self.block_count as int,
            even: self.even,
        }
    }

    /// Where the block starts and ends in the data.
    fn bounds(&self, block_size: u32) -> (r: (usize, usize))
        requires
            self.share().wf(),
        ensures
            r.0 <= r.1 <= bytes_content(self.data).len(),
            bytes_content(self.data).subrange(r.0 as int, r.1 as int) == self.share().block(
                block_size as int,
            ),
    {
        let len: usize = self.data.len();
        let first: u64 = self.index as u64;
        let bs: u64 = block_size as u64;
        proof {
            lemma_block_bounds(first as int, bs as int);
        }
        let from: u64 = first * bs;
        let to: u64 = from + bs;
        let start: usize = if from < len as u64 {
            from as usize
        } else {
            len
        };
        let end: usize = if (self.index as u64) + 1 < self.block_count as u64 && to < len as u64 {
            to as usize
        } else {
            len
        };
        (start, end)
    }

    /// Where the share's own part starts and ends in the data.
    fn own_bounds(&self) -> (r: (usize, usize))
        requires
            self.share().wf(),
        ensures
            r.0 <= r.1 <= bytes_content(self.data).len(),
            bytes_content(self.data).subrange(r.0 as int, r.1 as int) == self.share().own(),
    {
        let len: usize = self.data.len();
        if self.block_count == 0 {
            assert(bytes_content(self.data).subrange(0, len as int) =~= bytes_content(self.data));
            return (0, len);
        }
        let part: usize = len / self.block_count as usize;
        proof {
            lemma_even_part(self.index as int, self.block_count as int, len as int);
        }
        let start: usize = self.index as usize * part;
        let end: usize = if self.index < self.block_count - 1 {
            start + part
        } else {
            len
        };
        (start, end)
    }
}

/// BTreeMap-based write coalescing buffer. A later write takes the place of an
/// earlier one where they overlap, and adjacent ranges are merged when they are
/// drained.
pub struct DirtyMap {
    pub entries: BTreeMap<u64, DirtyEntry>,
    pub total_bytes: usize,
}

impl DirtyMap {
    /// The shares of the writes that are held.
    pub open spec fn shares(self) -> Shares {
        self.entries@.map_values(|e: DirtyEntry| e.share())
    }

    /// The dirty blocks, where blocks are `block_size` bytes long.
    pub open spec fn blocks(self, block_size: int) -> Blocks {
        blocks_in(self.shares(), block_size)
    }

    pub open spec fn wf(self) -> bool {
        &&& self.shares().dom().finite()
        &&& forall|k: u64| #[trigger] self.shares().contains_key(k) ==> self.shares()[k].wf()
        &&& self.total_bytes == shares_len(self.shares())
    }

    pub fn new() -> (r: Self)
        ensures
            r.wf(),
            r.shares() == Shares::empty(),
    {
        let r = Self { entries: BTreeMap::new(), total_bytes: 0 };
        assert(r.shares() =~= Shares::empty());
        r
    }

    pub fn is_empty(&self) -> (r: bool)
        requires
            self.wf(),
        ensures
            r == (self.shares() == Shares::empty()),
    {
        let r = self.entries.is_empty();
        proof {
            if r {
                assert(self.shares() =~= Shares::empty());
            } else if self.shares() == Shares::empty() {
                assert(self.entries@.dom() =~= self.shares().dom());
                assert(self.entries@ =~= Map::<u64, DirtyEntry>::empty());
            }
        }
        r
    }

    /// Put one entry in the place of what was there.
    fn put(&mut self, lba: u64, entry: DirtyEntry)
        requires
            old(self).wf(),
            entry.share().wf(),
            old(self).total_bytes + entry.share().own().len() <= usize::MAX,
        ensures
            final(self).wf(),
            final(self).shares() == old(self).shares().insert(lba, entry.share()),
            final(self).total_bytes <= old(self).total_bytes + entry.share().own().len(),
    {
        let ghost before = self.shares();
        let ghost share = entry.share();
        let (from, to) = entry.own_bounds();
        let replaced = self.entries.insert(lba, entry);
        assert(self.shares() =~= before.insert(lba, share));
        proof {
            lemma_shares_len_insert(before, lba, share);
            if before.contains_key(lba) {
                lemma_shares_len_remove(before, lba);
            }
        }
        if let Some(gone) = replaced {
            assert(before.contains_key(lba) && before[lba] == gone.share());
            let (from, to) = gone.own_bounds();
            self.total_bytes = self.total_bytes - (to - from);
        }
        self.total_bytes = self.total_bytes + (to - from);
    }

    /// Insert (or overwrite) the given LBA range.
    pub fn insert(&mut self, start_lba: u64, block_count: u32, data: Bytes)
        requires
            old(self).wf(),
            start_lba + block_count <= u64::MAX + 1,
            old(self).total_bytes + bytes_content(data).len() <= usize::MAX,
        ensures
            final(self).wf(),
            final(self).shares() == shares_after_write(
                old(self).shares(),
                start_lba,
                block_count,
                bytes_content(data),
            ),
            final(self).total_bytes <= old(self).total_bytes + bytes_content(data).len(),
    {
        let ghost content = bytes_content(data);
        let ghost before = self.shares();
        if block_count == 0 {
            self.put(start_lba, DirtyEntry { data, index: 0, block_count: 0, even: false });
            return;
        }
        let even = data.len() % block_count as usize == 0;
        let ghost part = content.len() as int / block_count as int;
        let mut i: u32 = 0;
        proof {
            lemma_even_part(0, block_count as int, content.len() as int);
            assert(0 * part == 0) by (nonlinear_arith);
            assert(before =~= before.union_prefer_right(
                written_shares(start_lba, 0, block_count, content),
            ));
        }
        while i < block_count
            invariant
                i <= block_count,
                0 < block_count,
                start_lba + block_count <= u64::MAX + 1,
                content == bytes_content(data),
                part == content.len() as int / block_count as int,
                even == (content.len() as int % block_count as int == 0),
                self.wf(),
                self.shares() == before.union_prefer_right(
                    written_shares(start_lba, i as int, block_count, content),
                ),
                i < block_count ==> self.total_bytes <= old(self).total_bytes + i * part,
                i == block_count ==> self.total_bytes <= old(self).total_bytes + content.len(),
                old(self).total_bytes + content.len() <= usize::MAX,
            decreases block_count - i,
        {
            proof {
                lemma_even_part(i as int, block_count as int, content.len() as int);
            }
            let entry = DirtyEntry { data: bytes_clone(&data), index: i, block_count, even };
            self.put(start_lba + i as u64, entry);
            proof {
                let k = (start_lba + i) as u64;
                assert(k - start_lba == i);
                assert(self.shares() =~= before.union_prefer_right(
                    written_shares(start_lba, i + 1, block_count, content),
                ));
            }
            i = i + 1;
        }
    }

    /// Insert (or overwrite) the given LBA range, cut into blocks of
    /// `block_size` bytes; the last one gets all that is left.
    pub fn insert_blocks(&mut self, start_lba: u64, block_count: u32, block_size: u32, data: Bytes)
        requires
            old(self).wf(),
            start_lba + block_count <= u64::MAX,
            (block_count - 1) * block_size <= bytes_content(data).len(),
            old(self).total_bytes + bytes_content(data).len() <= usize::MAX,
        ensures
            final(self).wf(),
            final(self).shares() == old(self).shares().union_prefer_right(
                cut_shares(
                    start_lba,
                    block_count as int,
                    block_count,
                    bytes_content(data),
                    block_size as int,
                ),
            ),
            final(self).total_bytes <= old(self).total_bytes + bytes_content(data).len(),
    {
        let ghost content = bytes_content(data);
        let ghost before = self.shares();
        let ghost bs = block_size as int;
        let len: usize = data.len();
        let mut i: u32 = 0;
        proof {
            assert(0 * bs == 0) by (nonlinear_arith);
            assert(before =~= before.union_prefer_right(
                cut_shares(start_lba, 0, block_count, content, bs),
            ));
        }
        while i < block_count
            invariant
                i <= block_count,
                start_lba + block_count <= u64::MAX,
                content == bytes_content(data),
                len == content.len(),
                bs == block_size,
                (block_count - 1) * bs <= content.len(),
                self.wf(),
                self.shares() == before.union_prefer_right(
                    cut_shares(start_lba, i as int, block_count, content, bs),
                ),
                i < block_count ==> self.total_bytes <= old(self).total_bytes + i * bs,
                i == block_count ==> self.total_bytes <= old(self).total_bytes + content.len(),
                old(self).total_bytes + content.len() <= usize::MAX,
            decreases block_count - i,
        {
            proof {
                lemma_cut_bounds(i as int, block_count as int, bs, len as int);
            }
            let from: usize = i as usize * block_size as usize;
            let to: usize = if i < block_count - 1 {
                from + block_size as usize
            } else {
                len
            };
            let ghost part = block_part(content, i as int, block_count as int, bs);
            let even = to - from == block_size as usize;
            let block: Bytes = bytes_slice(&data, from, to);
            let entry = DirtyEntry { data: block, index: 0, block_count: 1, even };
            proof {
                assert(bytes_content(block) =~= part);
                assert(entry.share() == cut_share(part, bs));
                lemma_cut_block(part, bs, bs);
            }
            self.put(start_lba + i as u64, entry);
            proof {
                let k = (start_lba + i) as u64;
                assert(k - start_lba == i);
                assert(self.shares() =~= before.union_prefer_right(
                    cut_shares(start_lba, i + 1, block_count, content, bs),
                ));
            }
            i = i + 1;
        }
    }

    /// Drain all entries in LBA order, adjacent ones merged into one write.
    /// Resets total_bytes to 0.
    pub fn drain_sorted(&mut self) -> (r: Vec<(u64, Bytes)>)
        requires
            old(self).wf(),
        ensures
            final(self).wf(),
            final(self).shares() == Shares::empty(),
            final(self).total_bytes == 0,
            exists|keys: Seq<u64>| #[trigger]
                are_sorted_keys(keys, old(self).shares()) && writes_are_runs(
                    r@,
                    runs_of(keys, old(self).shares()),
                ),
    {
        let mut items: Vec<(u64, Bytes)> = Vec::new();
        let ghost m = self.shares();
        let ghost pairs = vstd::std_specs::iter::IteratorSpec::remaining(&self.entries.iter());
        let ghost keys = pairs.map_values(|kv: (&u64, &DirtyEntry)| *kv.0);
        // The run that is being put together: where it starts, where it goes
        // on, with blocks of which length, and what it holds.
        let mut start: u64 = 0;
        let mut next: Option<u64> = None;
        let mut unit: usize = 0;
        let mut open = false;
        let mut data: Vec<u8> = Vec::new();
        assert(keys.take(0) =~= seq![]);
        for entry in it: self.entries.iter()
            invariant
                it.seq() == pairs,
                keys == pairs.map_values(|kv: (&u64, &DirtyEntry)| *kv.0),
                m == self.shares(),
                forall|k: u64| #[trigger] m.contains_key(k) ==> m[k].wf(),
                forall|i: int|
                    0 <= i < pairs.len() ==> self.entries@.contains_key(*(#[trigger] pairs[i]).0)
                        && self.entries@[*pairs[i].0] == *pairs[i].1,
                open == (runs_of(keys.take(it.index() as int), m).len() > 0),
                open ==> {
                    let runs = runs_of(keys.take(it.index() as int), m);
                    &&& writes_are_runs(items@, runs.drop_last())
                    &&& start == runs.last().start
                    &&& data@ == runs.last().data
                    &&& unit == runs.last().unit
                    &&& runs.last().end <= u64::MAX + 1
                    &&& next == (if runs.last().goes_on && runs.last().end <= u64::MAX {
                        Some(runs.last().end as u64)
                    } else {
                        None::<u64>
                    })
                },
                !open ==> items.len() == 0,
        {
            let lba: u64 = *entry.0;
            let part: &DirtyEntry = entry.1;
            proof {
                let n = it.index() as int;
                assert(keys.take(n + 1).drop_last() =~= keys.take(n));
                assert(keys.take(n + 1).last() == lba);
                assert(pairs[n] == entry);
                assert(m.contains_key(lba));
                assert(m[lba] == part.share());
            }
            let (from, to) = part.own_bounds();
            let own: &[u8] = vstd::slice::slice_subrange(bytes_as_slice(&part.data), from, to);
            let len: usize = if part.block_count == 0 {
                0
            } else {
                part.data.len() / part.block_count as usize
            };
            let follows = match next {
                Some(next) => open && next == lba && part.block_count > 0 && unit == len,
                None => false,
            };
            if follows {
                append_slice(&mut data, own);
            } else {
                let mut fresh: Vec<u8> = Vec::new();
                append_slice(&mut fresh, own);
                std::mem::swap(&mut fresh, &mut data);
                if open {
                    items.push((start, bytes_from_vec(fresh)));
                }
                start = lba;
                open = true;
                assert(data@ =~= own@);
            }
            unit = len;
            next = if part.block_count > 0 && (part.index < part.block_count - 1 || part.even) {
                lba.checked_add(1)
            } else {
                None
            };
        }
        assert(keys.take(keys.len() as int) =~= keys);
        if open {
            items.push((start, bytes_from_vec(data)));
        }
        self.entries.clear();
        self.total_bytes = 0;
        proof {
            assert(self.shares() =~= Shares::empty());
            assert(are_sorted_keys(keys, m)) by {
                lemma_iter_keys(old(self).entries@, pairs, keys);
            }
            assert(writes_are_runs(items@, runs_of(keys, m)));
        }
        items
    }

    /// If all of the read range `[start_lba .. start_lba + block_count)` is
    /// dirty, return that data. This provides read-your-writes semantics
    /// without a look at the cache or the disk.
    pub fn read_overlap(&self, start_lba: u64, block_count: u32, block_size: u32) -> (r: Option<
        Bytes,
    >)
        requires
            self.wf(),
            start_lba + block_count <= u64::MAX,
        ensures
            match r {
                Some(data) => {
                    &&& block_count == 0 ==> at_dirty(self.shares(), start_lba, block_size)
                    &&& all_dirty(
                        self.blocks(block_size as int),
                        start_lba,
                        block_count as int,
                        block_size,
                    )
                    &&& bytes_content(data) == joined_blocks(
                        self.blocks(block_size as int),
                        start_lba as int,
                        block_count as int,
                        block_size as int,
                    )
                },
                None => if block_count == 0 {
                    !at_dirty(self.shares(), start_lba, block_size)
                } else {
                    !all_dirty(
                        self.blocks(block_size as int),
                        start_lba,
                        block_count as int,
                        block_size,
                    )
                },
            },
    {
        let ghost m = self.blocks(block_size as int);
        let mut data: Vec<u8> = Vec::new();
        if block_count == 0 && !self.is_at_dirty(start_lba, block_size) {
            return None;
        }
        let mut i: u32 = 0;
        while i < block_count
            invariant
                i <= block_count,
                start_lba + block_count <= u64::MAX,
                self.wf(),
                m == self.blocks(block_size as int),
                all_dirty(m, start_lba, i as int, block_size),
                data@ == joined_blocks(m, start_lba as int, i as int, block_size as int),
            decreases block_count - i,
        {
            let lba: u64 = start_lba + i as u64;
            let block: &[u8] = match self.block_at(lba, block_size) {
                Some(block) => block,
                None => {
                    assert(!m.contains_key(lba));
                    return None;
                },
            };
            assert(m.contains_key(lba) && m[lba] == block@);
            if (block.len() as u64) < block_size as u64 {
                return None;
            }
            let block: &[u8] = vstd::slice::slice_subrange(block, 0, block_size as usize);
            assert(block@ =~= m[lba].take(block_size as int));
            append_slice(&mut data, block);
            assert forall|k: u64| start_lba <= k < start_lba + i + 1 implies #[trigger] m.contains_key(
                k,
            ) && m[k].len() >= block_size by {
                if k < lba {
                    assert(start_lba <= k < start_lba + i);
                }
            }
            i = i + 1;
        }
        Some(bytes_from_vec(data))
    }

    /// Whether the place in front of block `lba` is in a write or at the end of
    /// one.
    fn is_at_dirty(&self, lba: u64, block_size: u32) -> (r: bool)
        requires
            self.wf(),
        ensures
            r == at_dirty(self.shares(), lba, block_size),
    {
        let bs: u64 = block_size as u64;
        if let Some(entry) = self.entries.get(&lba) {
            assert(self.shares().contains_key(lba) && self.shares()[lba] == entry.share());
            proof {
                lemma_block_bounds(entry.index as int, bs as int);
            }
            if entry.index as u64 * bs <= entry.data.len() as u64 {
                return true;
            }
        }
        if lba == 0 {
            return false;
        }
        let before: u64 = lba - 1;
        match self.entries.get(&before) {
            Some(entry) => {
                assert(self.shares().contains_key(before) && self.shares()[before]
                    == entry.share());
                proof {
                    lemma_block_bounds(entry.index as int, bs as int);
                }
                entry.block_count > 0 && entry.index as u64 * bs + bs <= entry.data.len() as u64
            },
            None => {
                assert(!self.shares().contains_key(before));
                false
            },
        }
    }

    /// What the block holds, where it is dirty.
    fn block_at(&self, lba: u64, block_size: u32) -> (r: Option<&[u8]>)
        requires
            self.wf(),
        ensures
            match r {
                Some(block) => self.blocks(block_size as int).contains_key(lba) && self.blocks(
                    block_size as int,
                )[lba] == block@,
                None => !self.blocks(block_size as int).contains_key(lba),
            },
    {
        match self.entries.get(&lba) {
            Some(entry) => {
                assert(self.shares().contains_key(lba) && self.shares()[lba] == entry.share());
                if entry.block_count == 0 {
                    return None;
                }
                let (from, to) = entry.bounds(block_size);
                Some(vstd::slice::slice_subrange(bytes_as_slice(&entry.data), from, to))
            },
            None => {
                assert(!self.shares().contains_key(lba));
                None
            },
        }
    }

    /// Put the dirty blocks over `data`, which was read from `start_lba` on.
    pub fn overlay(&self, start_lba: u64, block_size: u32, data: &[u8]) -> (r: Vec<u8>)
        requires
            self.wf(),
            block_size > 0,
        ensures
            r@ == overlaid(
                data@,
                self.blocks(block_size as int),
                start_lba as int,
                block_size as int,
            ),
    {
        let ghost m = self.blocks(block_size as int);
        let ghost all = overlaid(data@, m, start_lba as int, block_size as int);
        let bs: usize = block_size as usize;
        let mut out: Vec<u8> = Vec::new();
        let mut pos: usize = 0;
        let mut j: u64 = 0;
        assert(all.take(0) =~= seq![]);
        assert(0 * block_size == 0) by (nonlinear_arith);
        while pos < data.len()
            invariant
                self.wf(),
                pos <= data.len(),
                bs == block_size > 0,
                m == self.blocks(block_size as int),
                all == overlaid(data@, m, start_lba as int, block_size as int),
                out@ == all.take(pos as int),
                j <= pos,
                pos < data.len() ==> pos == j * block_size,
            decreases data.len() - pos,
        {
            let end: usize = if data.len() - pos < bs {
                data.len()
            } else {
                pos + bs
            };
            proof {
                lemma_next_block(j as int, bs as int);
            }
            let block: Option<&[u8]> = match start_lba.checked_add(j) {
                Some(lba) => self.block_at(lba, block_size),
                None => None,
            };
            let dirty: usize = match block {
                Some(block) => {
                    let n: usize = if block.len() < end - pos {
                        block.len()
                    } else {
                        end - pos
                    };
                    append_slice(&mut out, vstd::slice::slice_subrange(block, 0, n));
                    n
                },
                None => 0,
            };
            append_slice(&mut out, vstd::slice::slice_subrange(data, pos + dirty, end));
            proof {
                assert forall|i: int| pos <= i < end implies out@[i] == #[trigger] all[i] by {
                    lemma_in_block(i, j as int, bs as int);
                }
                assert(out@ =~= all.take(end as int));
            }
            pos = end;
            j = j + 1;
        }
        assert(all.take(data@.len() as int) =~= all);
        out
    }
}

/// The byte at `i` of what was read from block `start` on, with the dirty
/// blocks over it.
pub open spec fn overlaid_byte(base: Seq<u8>, m: Blocks, start: int, block_size: int, i: int) -> u8 {
    let k = start + i / block_size;
    let at = i % block_size;
    if k <= u64::MAX && m.contains_key(k as u64) && at < m[k as u64].len() {
        m[k as u64][at]
    } else {
        base[i]
    }
}

/// What was read from block `start` on, with the dirty blocks over it.
pub open spec fn overlaid(base: Seq<u8>, m: Blocks, start: int, block_size: int) -> Seq<u8> {
    Seq::new(base.len(), |i: int| overlaid_byte(base, m, start, block_size, i))
}

proof fn lemma_next_block(j: int, block_size: int)
    requires
        0 <= j,
        0 < block_size,
    ensures
        j * block_size + block_size == (j + 1) * block_size,
        j <= j * block_size,
        j + 1 <= (j + 1) * block_size,
{
    assert(j * block_size + block_size == (j + 1) * block_size && j <= j * block_size && j + 1 <= (j
        + 1) * block_size) by (nonlinear_arith)
        requires
            0 <= j,
            0 < block_size,
    ;
}

/// A byte of block `j` has its place there.
pub proof fn lemma_in_block(i: int, j: int, block_size: int)
    requires
        0 < block_size,
        j * block_size <= i < j * block_size + block_size,
    ensures
        i / block_size == j,
        i % block_size == i - j * block_size,
{
    vstd::arithmetic::div_mod::lemma_fundamental_div_mod_converse(
        i,
        block_size,
        j,
        i - j * block_size,
    );
}

proof fn lemma_iter_keys(
    entries: Map<u64, DirtyEntry>,
    pairs: Seq<(&u64, &DirtyEntry)>,
    keys: Seq<u64>,
)
    requires
        keys == pairs.map_values(|kv: (&u64, &DirtyEntry)| *kv.0),
        vstd::std_specs::btree::increasing_seq(keys),
        forall|i: int|
            0 <= i < pairs.len() ==> entries.contains_key(*(#[trigger] pairs[i]).0),
        forall|k: u64| #[trigger] entries.contains_key(k) ==> pairs.contains((&k, &entries[k])),
    ensures
        are_sorted_keys(keys, entries.map_values(|e: DirtyEntry| e.share())),
{
    let m = entries.map_values(|e: DirtyEntry| e.share());
    assert forall|i: int, j: int| 0 <= i < j < keys.len() implies keys[i] < keys[j] by {
        vstd::std_specs::btree::axiom_increasing_seq_meaning(keys);
        assert(vstd::std_specs::cmp::OrdSpec::cmp_spec(&keys[i], &keys[j]) is Less);
    }
    assert forall|k: u64| m.contains_key(k) <==> #[trigger] keys.contains(k) by {
        if m.contains_key(k) {
            assert(entries.contains_key(k));
            let i = pairs.index_of((&k, &entries[k]));
            assert(pairs[i] == (&k, &entries[k]));
            assert(keys[i] == k);
        }
        if keys.contains(k) {
            let i = keys.index_of(k);
            assert(keys[i] == k);
            assert(*pairs[i].0 == k);
            assert(entries.contains_key(k));
        }
    }
}

proof fn lemma_block_bounds(index: int, block_size: int)
    requires
        0 <= index <= u32::MAX,
        0 <= block_size <= u32::MAX,
    ensures
        0 <= index * block_size,
        (index + 1) * block_size == index * block_size + block_size,
        index * block_size + block_size <= u64::MAX,
{
    assert(0 <= index * block_size && (index + 1) * block_size == index * block_size + block_size
        && index * block_size + block_size <= 0x1_0000_0000 * 0xffff_ffff) by (nonlinear_arith)
        requires
            0 <= index <= 0xffff_ffff,
            0 <= block_size <= 0xffff_ffff,
    ;
}

/// The parts of data that is divided evenly lie in it.
proof fn lemma_even_part(index: int, count: int, len: int)
    requires
        0 <= index < count,
        0 <= len,
    ensures
        ({
            let part = len / count;
            &&& 0 <= part <= len
            &&& 0 <= index * part
            &&& (index + 1) * part == index * part + part
            &&& (index + 1) * part <= len
        }),
{
    let part = len / count;
    assert(0 <= part && count * part <= len) by (nonlinear_arith)
        requires
            part == len / count,
            0 < count,
            0 <= len,
    ;
    assert(0 <= index * part && (index + 1) * part == index * part + part && (index + 1) * part
        <= count * part) by (nonlinear_arith)
        requires
            0 <= index < count,
            0 <= part,
    ;
}

/// Blocks that are cut out of data lie in it.
proof fn lemma_cut_bounds(index: int, count: int, block_size: int, len: int)
    requires
        0 <= index < count,
        0 <= block_size,
        (count - 1) * block_size <= len,
    ensures
        0 <= index * block_size <= len,
        (index + 1) * block_size == index * block_size + block_size,
        index + 1 < count ==> (index + 1) * block_size <= len,
{
    assert(0 <= index * block_size <= (count - 1) * block_size && (index + 1) * block_size == index
        * block_size + block_size && (index + 1 < count ==> (index + 1) * block_size <= (count - 1)
        * block_size)) by (nonlinear_arith)
        requires
            0 <= index < count,
            0 <= block_size,
    ;
}

/// The first `n` shares of a write hold the front of its data.
proof fn lemma_shares_of_write(m: Shares, start: u64, n: int, count: u32, data: Seq<u8>)
    requires
        m.dom().finite(),
        0 <= n <= count,
        0 < count,
        start + count <= u64::MAX,
        forall|k: u64| start <= k < start + count ==> !#[trigger] m.contains_key(k),
    ensures
        ({
            let after = m.union_prefer_right(written_shares(start, n, count, data));
            &&& after.dom().finite()
            &&& shares_len(after) == shares_len(m) + (if n < count {
                n * (data.len() as int / count as int)
            } else {
                data.len() as int
            })
        }),
    decreases n,
{
    let part = data.len() as int / count as int;
    let after = m.union_prefer_right(written_shares(start, n, count, data));
    if n == 0 {
        assert(after =~= m);
        assert(0 * part == 0) by (nonlinear_arith);
    } else {
        lemma_shares_of_write(m, start, n - 1, count, data);
        lemma_even_part(n - 1, count as int, data.len() as int);
        let before = m.union_prefer_right(written_shares(start, n - 1, count, data));
        let k = (start + n - 1) as u64;
        let share = written_shares(start, n, count, data)[k];
        assert(share.index == n - 1);
        assert(after =~= before.insert(k, share));
        assert(!m.contains_key(k));
        lemma_shares_len_insert(before, k, share);
    }
}

/// A write counts with all its bytes, where nothing is written over.
pub proof fn all_bytes_are_counted(m: Shares, start: u64, count: u32, data: Seq<u8>)
    requires
        m.dom().finite(),
        start + count <= u64::MAX,
        !m.contains_key(start),
        forall|k: u64| start <= k < start + count ==> !#[trigger] m.contains_key(k),
    ensures
        shares_len(shares_after_write(m, start, count, data)) == shares_len(m) + data.len(),
{
    if count == 0 {
        lemma_shares_len_insert(m, start, Share { data, index: 0, count: 0, even: false });
    } else {
        lemma_shares_of_write(m, start, count as int, count, data);
    }
}

proof fn lemma_key_of_range(keys: Seq<u64>, m: Shares, start: u64, count: int, i: int)
    requires
        are_sorted_keys(keys, m),
        0 <= i < count,
        start + count <= u64::MAX,
        forall|k: u64| #[trigger] m.contains_key(k) <==> start <= k < start + count,
    ensures
        i < keys.len(),
        keys[i] == start + i,
    decreases i,
{
    let k = (start + i) as u64;
    assert(m.contains_key(k));
    assert(keys.contains(k));
    let t = keys.index_of(k);
    assert(keys[t] == k);
    if t < i {
        lemma_key_of_range(keys, m, start, count, t);
    } else if t > i {
        assert(keys.contains(keys[i]));
        assert(m.contains_key(keys[i]));
        if i > 0 {
            lemma_key_of_range(keys, m, start, count, i - 1);
        }
    }
}

/// The runs of the first `n` shares of a write are one, which holds the front of
/// its data.
proof fn lemma_run_of_write(keys: Seq<u64>, start: u64, n: int, count: u32, data: Seq<u8>)
    requires
        0 < n <= count,
        n <= keys.len(),
        start + count <= u64::MAX,
        forall|i: int| 0 <= i < n ==> #[trigger] keys[i] == start + i,
    ensures
        ({
            let m = shares_after_write(Shares::empty(), start, count, data);
            let runs = runs_of(keys.take(n), m);
            &&& runs.len() == 1
            &&& runs[0].start == start
            &&& runs[0].end == start + n
            &&& n < count ==> runs[0].goes_on
            &&& runs[0].unit == data.len() as int / count as int
            &&& runs[0].data == (if n < count {
                data.take(n * (data.len() as int / count as int))
            } else {
                data
            })
        }),
    decreases n,
{
    let m = shares_after_write(Shares::empty(), start, count, data);
    let part = data.len() as int / count as int;
    let k = keys[n - 1];
    lemma_even_part(n - 1, count as int, data.len() as int);
    assert(k == start + (n - 1));
    assert(m.contains_key(k) && m[k].index == n - 1);
    assert(keys.take(n).last() == k);
    assert(keys.take(n).drop_last() =~= keys.take(n - 1));
    let runs = runs_of(keys.take(n), m);
    if n == 1 {
        assert(runs_of(keys.take(0), m) =~= seq![]);
        assert(0 * part == 0) by (nonlinear_arith);
        assert(1 * part == part) by (nonlinear_arith);
        assert(runs[0].data =~= (if n < count {
            data.take(part)
        } else {
            data
        }));
    } else {
        lemma_run_of_write(keys, start, n - 1, count, data);
        let before = runs_of(keys.take(n - 1), m);
        assert(before.last() == before[0]);
        assert(runs[0].data =~= (if n < count {
            data.take(n * part)
        } else {
            data
        }));
    }
}

/// A write that nothing else touches is drained as it was written, whether its
/// data divides into blocks or not.
pub proof fn lone_write_is_drained_whole(keys: Seq<u64>, start: u64, count: u32, data: Seq<u8>)
    requires
        start + count <= u64::MAX,
        are_sorted_keys(keys, shares_after_write(Shares::empty(), start, count, data)),
    ensures
        ({
            let runs = runs_of(keys, shares_after_write(Shares::empty(), start, count, data));
            &&& runs.len() == 1
            &&& runs[0].start == start
            &&& runs[0].data == data
        }),
{
    let m = shares_after_write(Shares::empty(), start, count, data);
    let n = if count == 0 {
        1
    } else {
        count as int
    };
    if start + n <= u64::MAX {
        assert forall|i: int| 0 <= i < n implies i < keys.len() && #[trigger] keys[i] == start + i by {
            lemma_key_of_range(keys, m, start, n, i);
        }
        assert(keys[n - 1] == start + (n - 1));
        if keys.len() > n {
            assert(keys.contains(keys[n]));
            assert(m.contains_key(keys[n]));
        }
    } else {
        // A write of no blocks at the very last LBA.
        assert(m.contains_key(start));
        assert(keys.contains(start));
        let t = keys.index_of(start);
        if keys.len() > 1 {
            assert(keys.contains(keys[0]) && keys.contains(keys[1]));
            assert(m.contains_key(keys[0]) && m.contains_key(keys[1]));
        }
    }
    assert(keys.take(n) =~= keys);
    if count == 0 {
        assert(keys.drop_last() =~= seq![]);
        assert(keys.last() == start);
        assert(runs_of(keys.drop_last(), m) =~= seq![]);
    } else {
        lemma_run_of_write(keys, start, n, count, data);
    }
}

/// All of the blocks are dirty if all but the last are, and the last is.
proof fn lemma_all_dirty_but_last(m: Blocks, start: u64, count: int, block_size: u32)
    requires
        0 < count,
        start + count <= u64::MAX,
    ensures
        all_dirty(m, start, count, block_size) <==> {
            let last = (start + count - 1) as u64;
            &&& all_dirty(m, start, count - 1, block_size)
            &&& m.contains_key(last)
            &&& m[last].len() >= block_size
        },
{
    let last = (start + count - 1) as u64;
    if all_dirty(m, start, count, block_size) {
        assert(m.contains_key(last));
    }
    if all_dirty(m, start, count - 1, block_size) && m.contains_key(last) && m[last].len()
        >= block_size {
        assert forall|k: u64| start <= k < start + count implies #[trigger] m.contains_key(k)
            && m[k].len() >= block_size by {
            if k != last {
                assert(start <= k < start + (count - 1));
                assert(m.contains_key(k));
            }
        }
    }
}

/// A read inside one write is a slice of its data, where the data reaches that
/// far; what was there before does not matter.
pub proof fn read_in_a_write_is_a_slice(
    m: Shares,
    start: u64,
    count: u32,
    data: Seq<u8>,
    lba: u64,
    n: int,
    block_size: u32,
)
    requires
        start + count <= u64::MAX,
        start <= lba,
        0 < n,
        lba + n <= start + count,
    ensures
        ({
            let after = blocks_in(shares_after_write(m, start, count, data), block_size as int);
            let end = (lba - start + n) * block_size;
            &&& all_dirty(after, lba, n, block_size) <==> end <= data.len()
            &&& end <= data.len() ==> joined_blocks(after, lba as int, n, block_size as int)
                == data.subrange((lba - start) * block_size, end)
        }),
    decreases n,
{
    let bs = block_size as int;
    let after = blocks_in(shares_after_write(m, start, count, data), bs);
    let first = (lba - start) as int;
    let k = (lba + n - 1) as u64;
    lemma_block_bounds(first + n - 1, bs);
    lemma_block_bounds(first, bs);
    assert(first * bs <= (first + n - 1) * bs) by (nonlinear_arith)
        requires
            1 <= n,
            0 <= bs,
    ;
    assert(after.contains_key(k));
    let j = first + n - 1;
    assert(after[k] == block_part(data, j, count as int, bs));
    assert((first + n) * bs == j * bs + bs) by {
        assert(first + n == j + 1);
    }
    assert(after[k].len() == (if j + 1 < count {
        min_int(j * bs + bs, data.len() as int)
    } else {
        data.len() as int
    }) - min_int(j * bs, data.len() as int));
    assert(bs == 0 ==> j * bs == 0) by (nonlinear_arith);
    assert(after[k].len() >= bs <==> (first + n) * bs <= data.len());
    lemma_all_dirty_but_last(after, lba, n, block_size);
    if n > 1 {
        read_in_a_write_is_a_slice(m, start, count, data, lba, n - 1, block_size);
    }
    if (first + n) * bs <= data.len() {
        let l = joined_blocks(after, lba as int, n, bs);
        if n == 1 {
            assert(joined_blocks(after, lba as int, 0, bs) =~= seq![]);
        }
        assert(after[k].take(bs) =~= data.subrange(j * bs, (first + n) * bs));
        assert(l =~= data.subrange(first * bs, (first + n) * bs));
    }
}

/// Where all blocks are whole, a place is at dirty data just where the block
/// behind it or the one in front of it is dirty.
pub proof fn place_is_at_dirty_blocks(m: Shares, lba: u64, block_size: u32)
    requires
        forall|k: u64| #[trigger]
            m.contains_key(k) ==> m[k] == cut_share(m[k].data, block_size as int)
                && m[k].data.len() == block_size,
    ensures
        at_dirty(m, lba, block_size) <==> m.contains_key(lba) || (lba > 0 && m.contains_key(
            (lba - 1) as u64,
        )),
{
    assert(0 * block_size == 0) by (nonlinear_arith);
    assert((0 + 1) * block_size == block_size) by (nonlinear_arith);
}

} // verus!

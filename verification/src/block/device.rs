//! The block device: what its worker does with each request.
//!
//! The worker alternates between decisions and SCSI commands. The functions
//! here are the decisions: each takes what the last command brought and says
//! what to do next.

use crate::block::dirty_map::{
    all_cut, all_dirty, are_sorted_keys, blocks_after_write, joined_blocks, lemma_cut_write,
    overlaid, runs_of, writes_are_runs, Blocks, DirtyMap, Shares,
};
use crate::block::span::{
    aligned_spans_fill_their_blocks, clamped, cut, patch, patched, request_span, Span,
};
use crate::buffer::{bytes_as_slice, bytes_content, bytes_from_vec, bytes_slice};
use bytes::Bytes;
use vstd::prelude::*;

verus! {

/// Why a request to the block device failed.
#[derive(Debug, Clone, Copy, PartialEq, Eq, Structural)]
pub enum BlockError {
    ChannelClosed,
    ReplyDropped,
    ReadFailed,
    ShortRead,
    ModifyReadFailed,
    ModifyShort,
    WriteFailed,
    FlushPanicked,
    SynchronizeFailed,
}

impl BlockError {
    pub open spec fn text(self) -> Seq<char> {
        match self {
            BlockError::ChannelClosed => "block device channel closed"@,
            BlockError::ReplyDropped => "block device reply dropped"@,
            BlockError::ReadFailed => "SCSI read failed"@,
            BlockError::ShortRead => "SCSI read returned less data than expected"@,
            BlockError::ModifyReadFailed => "SCSI read failed during read-modify-write"@,
            BlockError::ModifyShort => "SCSI read-modify-write buffer overflow"@,
            BlockError::WriteFailed => "SCSI write failed during flush"@,
            BlockError::FlushPanicked => "flush task panicked"@,
            BlockError::SynchronizeFailed => "SYNCHRONIZE CACHE failed"@,
        }
    }

    /// The message of the I/O error.
    pub fn message(&self) -> (r: &'static str)
        ensures
            r@ == self.text(),
    {
        match self {
            BlockError::ChannelClosed => "block device channel closed",
            BlockError::ReplyDropped => "block device reply dropped",
            BlockError::ReadFailed => "SCSI read failed",
            BlockError::ShortRead => "SCSI read returned less data than expected",
            BlockError::ModifyReadFailed => "SCSI read failed during read-modify-write",
            BlockError::ModifyShort => "SCSI read-modify-write buffer overflow",
            BlockError::WriteFailed => "SCSI write failed during flush",
            BlockError::FlushPanicked => "flush task panicked",
            BlockError::SynchronizeFailed => "SYNCHRONIZE CACHE failed",
        }
    }
}

/// A request to the worker.
pub enum BlockRequest {
    Read { offset: u64, size: u32 },
    Write { offset: u64, data: Bytes },
    Flush,
    SetSyncWrites { enabled: bool },
}

/// What a read needs.
pub enum ReadPlan {
    /// Nothing more: this is the answer.
    Done(Bytes),
    /// These blocks, through the cache.
    Fetch(Span),
}

/// What a write needs.
pub enum WritePlan {
    /// Nothing: no byte of it lies on the device.
    Nothing,
    /// To be stored as it is.
    Store { span: Span, data: Bytes },
    /// The blocks that it lies in, to be changed in part.
    Modify { span: Span, data: Bytes },
}

/// A write that was stored.
#[derive(Debug, Clone, Copy, PartialEq, Eq, Structural)]
pub struct Stored {
    /// The number of bytes that were written.
    pub written: u32,
    /// Whether the dirty data is to be flushed before the write is answered.
    pub flush: bool,
}

/// What to do next in a flush.
pub enum FlushStep {
    /// Send these writes, all at once.
    Write(Vec<(u64, Bytes)>),
    /// Have the target bring its cache to persistent storage.
    Synchronize,
    Done,
    Failed(BlockError),
}

/// How one of the writes of a flush ended.
#[derive(Debug, Clone, Copy, PartialEq, Eq, Structural)]
pub enum WriteOutcome {
    Written,
    Failed,
    Panicked,
}

/// What to do with a request.
pub enum WorkerStep {
    Read(ReadPlan),
    Write(WritePlan),
    Flush(FlushStep),
    Acknowledge,
    /// Flush, and end the worker.
    FlushAndStop(FlushStep),
}

/// The geometry of a block device, as its users see it.
#[derive(Debug, Clone, Copy, PartialEq, Eq, Structural)]
pub struct BlockDevice {
    pub block_size: u32,
    pub total_bytes: u64,
}

impl BlockDevice {
    pub fn new(block_size: u32, total_bytes: u64) -> (r: Self)
        ensures
            r.block_size == block_size,
            r.total_bytes == total_bytes,
    {
        Self { block_size, total_bytes }
    }

    /// A worker for the device, with nothing written yet.
    pub fn worker(&self, coalesce_max_bytes: usize, sync_writes: bool) -> (r: BlockDeviceWorker)
        ensures
            r.block_size == self.block_size,
            r.total_bytes == self.total_bytes,
            r.coalesce_max_bytes == coalesce_max_bytes,
            r.sync_writes == sync_writes,
            r.dirty.shares() == Shares::empty(),
            self.block_size > 0 ==> r.wf(),
    {
        BlockDeviceWorker {
            block_size: self.block_size,
            total_bytes: self.total_bytes,
            dirty: DirtyMap::new(),
            coalesce_max_bytes,
            sync_writes,
        }
    }

    pub fn total_bytes(&self) -> (r: u64)
        ensures
            r == self.total_bytes,
    {
        self.total_bytes
    }

    pub fn block_size(&self) -> (r: u32)
        ensures
            r == self.block_size,
    {
        self.block_size
    }
}

/// The state that requests are served from.
pub struct BlockDeviceWorker {
    pub block_size: u32,
    pub total_bytes: u64,
    pub dirty: DirtyMap,
    pub coalesce_max_bytes: usize,
    /// When true, each write is flushed to iSCSI immediately (no coalescing).
    pub sync_writes: bool,
}

impl BlockDeviceWorker {
    pub open spec fn wf(self) -> bool {
        &&& self.block_size > 0
        &&& self.dirty.wf()
        &&& all_cut(self.dirty.shares(), self.block_size as int)
    }

    /// The dirty blocks.
    pub open spec fn blocks(self) -> Blocks {
        self.dirty.blocks(self.block_size as int)
    }

    /// All but the dirty blocks is as it was.
    pub open spec fn same_settings(self, before: Self) -> bool {
        &&& self.block_size == before.block_size
        &&& self.total_bytes == before.total_bytes
        &&& self.coalesce_max_bytes == before.coalesce_max_bytes
        &&& self.sync_writes == before.sync_writes
    }

    /// How many of `size` bytes at `offset` lie on the device.
    pub open spec fn on_device(self, offset: u64, size: int) -> int {
        clamped(offset as int, size, self.total_bytes as int)
    }

    /// The plan of a read of `size` bytes at `offset`.
    pub open spec fn plans_read(self, offset: u64, size: u32, plan: ReadPlan) -> bool {
        let len = self.on_device(offset, size as int);
        match plan {
            ReadPlan::Done(data) => if len == 0 {
                bytes_content(data) == Seq::<u8>::empty()
            } else {
                exists|span: Span| #[trigger]
                    span.covers(offset as int, len, self.block_size as int) && all_dirty(
                        self.blocks(),
                        span.start_lba,
                        span.block_count as int,
                        self.block_size,
                    ) && bytes_content(data) == joined_blocks(
                        self.blocks(),
                        span.start_lba as int,
                        span.block_count as int,
                        self.block_size as int,
                    ).subrange(span.skip as int, span.skip + span.len)
            },
            ReadPlan::Fetch(span) => {
                &&& span.covers(offset as int, len, self.block_size as int)
                &&& span.fits(self.block_size as int)
                &&& !all_dirty(
                    self.blocks(),
                    span.start_lba,
                    span.block_count as int,
                    self.block_size,
                )
            },
        }
    }

    /// Begin a read. Dirty blocks come first, for read-your-writes; what is not
    /// dirty has to be fetched.
    pub fn handle_read(&self, offset: u64, size: u32) -> (r: ReadPlan)
        requires
            self.wf(),
        ensures
            self.plans_read(offset, size, r),
    {
        let span = match request_span(offset, size as u64, self.total_bytes, self.block_size) {
            Some(span) => span,
            None => {
                return ReadPlan::Done(bytes_from_vec(Vec::new()));
            },
        };
        assert(0 < span.block_count) by (nonlinear_arith)
            requires
                0 < span.block_count * self.block_size,
                0 < self.block_size,
        ;
        match self.dirty.read_overlap(span.start_lba, span.block_count, self.block_size) {
            Some(dirty) => {
                proof {
                    lemma_joined_len(
                        self.blocks(),
                        span.start_lba,
                        span.block_count as int,
                        self.block_size,
                    );
                }
                let held: usize = dirty.len();
                assert(span.skip + span.len <= held);
                ReadPlan::Done(bytes_slice(&dirty, span.skip, span.skip + span.len))
            },
            None => ReadPlan::Fetch(span),
        }
    }

    /// What a read of `span` is answered with where `fetched` was fetched for
    /// it: the dirty blocks over that, cut to the range.
    pub open spec fn read_answer(self, span: Span, fetched: Seq<u8>) -> Seq<u8> {
        overlaid(
            fetched,
            self.blocks(),
            span.start_lba as int,
            self.block_size as int,
        ).subrange(span.skip as int, span.skip + span.len)
    }

    /// End a read with the blocks that were fetched for it: put the dirty
    /// blocks over them and cut out what was asked for.
    pub fn finish_read(&self, span: &Span, fetched: &Bytes) -> (r: Result<Bytes, BlockError>)
        requires
            self.wf(),
            span.skip + span.len <= usize::MAX,
        ensures
            match r {
                Ok(data) => {
                    &&& span.skip + span.len <= bytes_content(*fetched).len()
                    &&& bytes_content(data) == self.read_answer(*span, bytes_content(*fetched))
                },
                Err(e) => {
                    &&& span.skip + span.len > bytes_content(*fetched).len()
                    &&& e == BlockError::ShortRead
                },
            },
    {
        let blocks: Vec<u8> = self.dirty.overlay(
            span.start_lba,
            self.block_size,
            bytes_as_slice(fetched),
        );
        match cut(span, blocks.as_slice()) {
            Some(data) => Ok(bytes_from_vec(data)),
            None => Err(BlockError::ShortRead),
        }
    }

    /// The plan of a write of `data` at `offset`.
    pub open spec fn plans_write(self, offset: u64, data: Seq<u8>, plan: WritePlan) -> bool {
        let len = self.on_device(offset, data.len() as int);
        let bs = self.block_size as int;
        match plan {
            WritePlan::Nothing => len == 0,
            WritePlan::Store { span, data: stored } => {
                &&& span.covers(offset as int, len, bs)
                &&& span.fits(bs)
                &&& span.aligned(bs)
                &&& bytes_content(stored) == data.take(len)
            },
            WritePlan::Modify { span, data: stored } => {
                &&& span.covers(offset as int, len, bs)
                &&& span.fits(bs)
                &&& !span.aligned(bs)
                &&& bytes_content(stored) == data.take(len)
            },
        }
    }

    /// Begin a write, cut off at the end of the device.
    pub fn handle_write(&self, offset: u64, data: &Bytes) -> (r: WritePlan)
        requires
            self.block_size > 0,
            self.on_device(offset, bytes_content(*data).len() as int) <= u32::MAX,
        ensures
            self.plans_write(offset, bytes_content(*data), r),
            r matches WritePlan::Store { span, data: stored } ==> bytes_content(stored).len()
                == span.block_count * self.block_size,
            r is Nothing <==> bytes_content(*data).len() == 0 || offset >= self.total_bytes,
    {
        let span = match request_span(
            offset,
            data.len() as u64,
            self.total_bytes,
            self.block_size,
        ) {
            Some(span) => span,
            None => {
                return WritePlan::Nothing;
            },
        };
        let data: Bytes = bytes_slice(data, 0, span.len);
        proof {
            aligned_spans_fill_their_blocks(span, self.block_size as int);
        }
        if span.skip == 0 && span.len % self.block_size as usize == 0 {
            WritePlan::Store { span, data }
        } else {
            WritePlan::Modify { span, data }
        }
    }

    /// The worker after `stored` was put into the dirty map for the blocks of
    /// `span`, and what comes of it.
    pub open spec fn after_store(
        self,
        before: Self,
        span: Span,
        stored: Seq<u8>,
        outcome: Stored,
    ) -> bool {
        &&& self.wf()
        &&& self.same_settings(before)
        &&& self.blocks() == blocks_after_write(
            before.blocks(),
            span.start_lba,
            span.block_count,
            stored,
            self.block_size as int,
        )
        &&& outcome.written == span.len
        &&& outcome.flush == (self.sync_writes || self.dirty.total_bytes
            >= self.coalesce_max_bytes)
    }

    fn store(&mut self, span: &Span, data: Bytes) -> (r: Stored)
        requires
            old(self).wf(),
            span.fits(old(self).block_size as int),
            span.len <= u32::MAX,
            span.skip + span.len <= bytes_content(data).len(),
            old(self).dirty.total_bytes + bytes_content(data).len() <= usize::MAX,
        ensures
            final(self).after_store(*old(self), *span, bytes_content(data), r),
    {
        proof {
            let bs = self.block_size as int;
            let count = span.block_count as int;
            assert((count - 1) * bs == count * bs - bs) by (nonlinear_arith);
            lemma_cut_write(
                self.dirty.shares(),
                span.start_lba,
                span.block_count,
                bytes_content(data),
                bs,
            );
        }
        self.dirty.insert_blocks(span.start_lba, span.block_count, self.block_size, data);
        Stored {
            written: span.len as u32,
            flush: self.sync_writes || self.dirty.total_bytes >= self.coalesce_max_bytes,
        }
    }

    /// End a write of whole blocks. The chunks of the cache that hold any of
    /// the blocks of `span` are stale from here on.
    pub fn store_aligned(&mut self, span: &Span, data: Bytes) -> (r: Stored)
        requires
            old(self).wf(),
            span.fits(old(self).block_size as int),
            span.aligned(old(self).block_size as int),
            span.len <= u32::MAX,
            bytes_content(data).len() == span.len,
            old(self).dirty.total_bytes + span.len <= usize::MAX,
        ensures
            final(self).after_store(*old(self), *span, bytes_content(data), r),
    {
        self.store(span, data)
    }

    /// The blocks that a write of `data` to the range of `span` leaves where
    /// `existing` is on the disk: the dirty blocks over that, and the data over
    /// both.
    pub open spec fn modified(self, span: Span, data: Seq<u8>, existing: Seq<u8>) -> Seq<u8> {
        patched(
            overlaid(existing, self.blocks(), span.start_lba as int, self.block_size as int),
            span.skip as int,
            data,
        )
    }

    /// End a write of parts of blocks, with the blocks that are on the disk:
    /// put the dirty blocks over them, and the data over both. The chunks of
    /// the cache that hold any of the blocks of `span` are stale from here on.
    pub fn store_modified(&mut self, span: &Span, data: &Bytes, existing: &Bytes) -> (r: Result<
        Stored,
        BlockError,
    >)
        requires
            old(self).wf(),
            span.fits(old(self).block_size as int),
            span.skip + span.len <= usize::MAX,
            span.len <= u32::MAX,
            bytes_content(*data).len() == span.len,
            old(self).dirty.total_bytes + bytes_content(*existing).len() <= usize::MAX,
        ensures
            match r {
                Ok(outcome) => {
                    &&& span.skip + span.len <= bytes_content(*existing).len()
                    &&& final(self).after_store(
                        *old(self),
                        *span,
                        old(self).modified(*span, bytes_content(*data), bytes_content(*existing)),
                        outcome,
                    )
                },
                Err(e) => {
                    &&& span.skip + span.len > bytes_content(*existing).len()
                    &&& e == BlockError::ModifyShort
                    &&& *final(self) == *old(self)
                },
            },
    {
        let blocks: Vec<u8> = self.dirty.overlay(
            span.start_lba,
            self.block_size,
            bytes_as_slice(existing),
        );
        match patch(span, blocks.as_slice(), bytes_as_slice(data)) {
            Some(buf) => Ok(self.store(span, bytes_from_vec(buf))),
            None => Err(BlockError::ModifyShort),
        }
    }

    /// The worker begins a flush: nothing is dirty any more, and `step` writes
    /// what was.
    pub open spec fn begins_flush(self, before: Self, step: FlushStep) -> bool {
        let m = before.dirty.shares();
        &&& self.wf()
        &&& self.same_settings(before)
        &&& self.dirty.shares() == Shares::empty()
        &&& match step {
            FlushStep::Done => m == Shares::empty(),
            FlushStep::Write(writes) => {
                &&& m != Shares::empty()
                &&& exists|keys: Seq<u64>| #[trigger]
                    are_sorted_keys(keys, m) && writes_are_runs(writes@, runs_of(keys, m))
            },
            _ => false,
        }
    }

    /// Begin to flush all dirty blocks to the target.
    pub fn flush_dirty(&mut self) -> (r: FlushStep)
        requires
            old(self).wf(),
        ensures
            final(self).begins_flush(*old(self), r),
    {
        if self.dirty.is_empty() {
            return FlushStep::Done;
        }
        FlushStep::Write(self.dirty.drain_sorted())
    }

    /// Go on with a flush when all of its writes have ended: the first that did
    /// not succeed decides.
    pub fn after_flush_writes(outcomes: &Vec<WriteOutcome>) -> (r: FlushStep)
        ensures
            match r {
                FlushStep::Synchronize => forall|i: int|
                    0 <= i < outcomes.len() ==> outcomes[i] == WriteOutcome::Written,
                FlushStep::Failed(e) => exists|n: int|
                    {
                        &&& 0 <= n < outcomes.len()
                        &&& forall|i: int| 0 <= i < n ==> outcomes[i] == WriteOutcome::Written
                        &&& #[trigger] outcomes[n] != WriteOutcome::Written
                        &&& e == (if outcomes[n] == WriteOutcome::Failed {
                            BlockError::WriteFailed
                        } else {
                            BlockError::FlushPanicked
                        })
                    },
                _ => false,
            },
            r is Synchronize <==> forall|i: int|
                0 <= i < outcomes.len() ==> outcomes[i] == WriteOutcome::Written,
    {
        let mut i: usize = 0;
        while i < outcomes.len()
            invariant
                i <= outcomes.len(),
                forall|j: int| 0 <= j < i ==> outcomes[j] == WriteOutcome::Written,
            decreases outcomes.len() - i,
        {
            match outcomes[i] {
                WriteOutcome::Written => {},
                WriteOutcome::Failed => {
                    return FlushStep::Failed(BlockError::WriteFailed);
                },
                WriteOutcome::Panicked => {
                    return FlushStep::Failed(BlockError::FlushPanicked);
                },
            }
            i = i + 1;
        }
        FlushStep::Synchronize
    }

    /// The blocks that a write of a flush changes on the disk.
    pub open spec fn flushed_range(write: (u64, Bytes), block_size: u32) -> (u64, u32) {
        (write.0, (bytes_content(write.1).len() as u32) / block_size)
    }

    /// The blocks that the writes of a flush change on the disk, as the first and
    /// the number of each. The chunks of the cache that hold any of them are
    /// stale once the writes have ended.
    pub fn flushed_ranges(&self, writes: &Vec<(u64, Bytes)>) -> (r: Vec<(u64, u32)>)
        requires
            self.block_size > 0,
        ensures
            r.len() == writes.len(),
            forall|i: int|
                0 <= i < r.len() ==> #[trigger] r[i] == Self::flushed_range(
                    writes[i],
                    self.block_size,
                ),
    {
        let mut ranges: Vec<(u64, u32)> = Vec::new();
        let mut i: usize = 0;
        while i < writes.len()
            invariant
                i <= writes.len(),
                ranges.len() == i,
                self.block_size > 0,
                forall|j: int|
                    0 <= j < i ==> #[trigger] ranges[j] == Self::flushed_range(
                        writes[j],
                        self.block_size,
                    ),
            decreases writes.len() - i,
        {
            ranges.push((writes[i].0, writes[i].1.len() as u32 / self.block_size));
            i = i + 1;
        }
        ranges
    }

    /// End a flush when the target has answered SYNCHRONIZE CACHE.
    pub fn after_synchronize(succeeded: bool) -> (r: FlushStep)
        ensures
            r == (if succeeded {
                FlushStep::Done
            } else {
                FlushStep::Failed(BlockError::SynchronizeFailed)
            }),
    {
        if succeeded {
            FlushStep::Done
        } else {
            FlushStep::Failed(BlockError::SynchronizeFailed)
        }
    }

    /// Begin to serve a request; `None` is the end of all requests.
    pub fn on_request(&mut self, request: Option<BlockRequest>) -> (r: WorkerStep)
        requires
            old(self).wf(),
            request matches Some(BlockRequest::Write { offset, data }) ==> old(self).on_device(
                offset,
                bytes_content(data).len() as int,
            ) <= u32::MAX,
        ensures
            final(self).wf(),
            match request {
                Some(BlockRequest::Read { offset, size }) => {
                    &&& *final(self) == *old(self)
                    &&& r matches WorkerStep::Read(plan) && final(self).plans_read(
                        offset,
                        size,
                        plan,
                    )
                },
                Some(BlockRequest::Write { offset, data }) => {
                    &&& *final(self) == *old(self)
                    &&& r matches WorkerStep::Write(plan) && final(self).plans_write(
                        offset,
                        bytes_content(data),
                        plan,
                    )
                },
                Some(BlockRequest::Flush) => r matches WorkerStep::Flush(step) && final(self).begins_flush(*old(self), step),
                Some(BlockRequest::SetSyncWrites { enabled }) => {
                    &&& r == WorkerStep::Acknowledge
                    &&& *final(self) == (BlockDeviceWorker { sync_writes: enabled, ..*old(self) })
                },
                None => r matches WorkerStep::FlushAndStop(step) && final(self).begins_flush(
                    *old(self),
                    step,
                ),
            },
    {
        match request {
            Some(BlockRequest::Read { offset, size }) => WorkerStep::Read(
                self.handle_read(offset, size),
            ),
            Some(BlockRequest::Write { offset, data }) => WorkerStep::Write(
                self.handle_write(offset, &data),
            ),
            Some(BlockRequest::Flush) => WorkerStep::Flush(self.flush_dirty()),
            Some(BlockRequest::SetSyncWrites { enabled }) => {
                self.sync_writes = enabled;
                WorkerStep::Acknowledge
            },
            None => WorkerStep::FlushAndStop(self.flush_dirty()),
        }
    }

    /// The coalesce timer fired: begin a flush, where there is something to
    /// flush.
    pub fn on_timer(&mut self) -> (r: Option<FlushStep>)
        requires
            old(self).wf(),
        ensures
            match r {
                None => old(self).dirty.shares() == Shares::empty() && *final(self) == *old(self),
                Some(step) => old(self).dirty.shares() != Shares::empty() && final(self).begins_flush(*old(self), step),
            },
    {
        if self.dirty.is_empty() {
            return None;
        }
        Some(self.flush_dirty())
    }
}

/// Dirty blocks hold as much together as they are blocks.
proof fn lemma_joined_len(m: Blocks, start: u64, count: int, block_size: u32)
    requires
        0 <= count,
        start + count <= u64::MAX,
        all_dirty(m, start, count, block_size),
    ensures
        joined_blocks(m, start as int, count, block_size as int).len() == count * block_size,
    decreases count,
{
    if count > 0 {
        lemma_joined_len(m, start, count - 1, block_size);
        assert((count - 1) * block_size + block_size == count * block_size) by (nonlinear_arith);
        let k = (start + count - 1) as u64;
        assert(m.contains_key(k));
    }
}

} // verus!

//! The command pipeline: which SCSI commands an I/O request turns into, and
//! what their responses mean.

use crate::buffer::{
    bytes_as_slice, bytes_clone, bytes_content, bytes_mut_content, bytes_slice, opt_content,
};
use crate::chunks::{chunks_of, chunks_tile, min_int};
use crate::iscsi::command::{
    build_read, build_read_capacity10, build_read_capacity16, build_synchronize_cache10,
    build_write, is_cdb10, is_read_cdb, is_unit_attention, is_write_cdb, parse_read_capacity10,
    parse_read_capacity16, parse_sense_data, sense_of, CommandError, ScsiStatus, SenseData,
    SenseKey,
};
use crate::iscsi::login::NegotiatedParams;
use crate::iscsi::pdu::zero_between;
use crate::iscsi::session::PduResponse;
use crate::wire::{be32, be64};
use bytes::{Bytes, BytesMut};
use vstd::prelude::*;

verus! {

// ---------------------------------------------------------------------------
// Constants
// ---------------------------------------------------------------------------

/// Timeout for individual SCSI read operations (single command), in seconds.
pub const READ_TIMEOUT_SECS: u64 = 30;

/// Timeout for individual SCSI write operations (includes R2T round-trips), in
/// seconds.
pub const WRITE_TIMEOUT_SECS: u64 = 300;

/// How often READ CAPACITY is tried.
pub const CAPACITY_ATTEMPTS: u32 = 3;

/// Why a command did not do what it was sent for.
#[derive(Debug, Clone, Copy, PartialEq, Eq, Structural)]
pub enum PipelineError {
    /// The command ended in a check condition with this sense data.
    CheckCondition(SenseData),
    /// The command ended in a check condition without parseable sense data.
    CheckConditionNoSense,
    /// The command failed with this status.
    Status(ScsiStatus),
    /// The command was to return data and returned none.
    NoData,
    /// The response to READ CAPACITY could not be read.
    Capacity(CommandError),
    /// READ CAPACITY(16) reported a last LBA that leaves no room for a count.
    MaxLbaOverflow,
}

/// A SCSI command to submit.
pub struct ScsiRequest {
    pub cdb: [u8; 16],
    pub lun: u64,
    pub edtl: u32,
    pub read: bool,
    pub write: bool,
    /// The data to send along with the command.
    pub immediate_data: Option<Bytes>,
    /// All the data of a write, to register for the target's R2Ts.
    pub write_data: Option<Bytes>,
}

impl ScsiRequest {
    /// A command that carries no data.
    pub open spec fn carries_nothing(self) -> bool {
        &&& !self.write
        &&& self.immediate_data is None
        &&& self.write_data is None
    }

    /// The command reads `blocks` blocks from `lba`.
    pub open spec fn reads(self, lun: u64, lba: int, blocks: int, block_size: int) -> bool {
        &&& is_read_cdb(self.cdb@, lba, blocks)
        &&& self.lun == lun
        &&& self.edtl == blocks * block_size
        &&& self.read
        &&& self.carries_nothing()
    }

    /// The command writes `blocks` blocks of `data` from `lba`.
    pub open spec fn writes(
        self,
        lun: u64,
        lba: int,
        blocks: int,
        block_size: int,
        data: Seq<u8>,
        immediate_len: int,
    ) -> bool {
        &&& is_write_cdb(self.cdb@, lba, blocks)
        &&& self.lun == lun
        &&& self.edtl == blocks * block_size
        &&& !self.read
        &&& self.write
        &&& opt_content(self.immediate_data) == (if immediate_len > 0 {
            Some(data.take(immediate_len))
        } else {
            None
        })
        &&& opt_content(self.write_data) == Some(data)
    }
}

// ---------------------------------------------------------------------------
// Status checking helper
// ---------------------------------------------------------------------------

/// What a response with this status and this sense data means.
pub open spec fn status_outcome(status: ScsiStatus, sense: Option<Seq<u8>>) -> Result<
    (),
    PipelineError,
> {
    match status {
        ScsiStatus::Good => Ok(()),
        ScsiStatus::CheckCondition => match parsed_sense(sense) {
            Some(sense) => Err(PipelineError::CheckCondition(sense)),
            None => Err(PipelineError::CheckConditionNoSense),
        },
        other => Err(PipelineError::Status(other)),
    }
}

/// The sense data of a response, where it has any that can be read.
pub open spec fn parsed_sense(sense: Option<Seq<u8>>) -> Option<SenseData> {
    match sense {
        Some(bytes) => match sense_of(bytes) {
            Ok(sense) => Some(sense),
            Err(_) => None,
        },
        None => None,
    }
}

/// The command ended in a check condition because the unit wants attention.
pub open spec fn wants_attention(status: ScsiStatus, sense: Option<Seq<u8>>) -> bool {
    &&& status == ScsiStatus::CheckCondition
    &&& parsed_sense(sense) is Some
    &&& parsed_sense(sense)->0.sense_key == SenseKey::UnitAttention
}

fn sense_from(response: &PduResponse) -> (r: Option<SenseData>)
    ensures
        r == parsed_sense(opt_content(response.sense)),
{
    match &response.sense {
        Some(bytes) => match parse_sense_data(bytes_as_slice(bytes)) {
            Ok(sense) => Some(sense),
            Err(_) => None,
        },
        None => None,
    }
}

/// Check a PDU response status and fail on non-Good status.
pub fn check_scsi_status(response: &PduResponse) -> (r: Result<(), PipelineError>)
    ensures
        r == status_outcome(response.status, opt_content(response.sense)),
{
    match response.status {
        ScsiStatus::Good => Ok(()),
        ScsiStatus::CheckCondition => match sense_from(response) {
            Some(sense) => Err(PipelineError::CheckCondition(sense)),
            None => Err(PipelineError::CheckConditionNoSense),
        },
        other => Err(PipelineError::Status(other)),
    }
}

// ---------------------------------------------------------------------------
// Pure helper functions
// ---------------------------------------------------------------------------

/// Pieces of a run of blocks as numbers of any size.
pub open spec fn chunks_view(v: Seq<(u64, u32)>) -> Seq<(int, int)> {
    v.map_values(|c: (u64, u32)| (c.0 as int, c.1 as int))
}

/// Split a read request into max_blocks-sized chunks.
///
/// Returns a vec of `(lba, block_count)` pairs.
pub fn compute_read_chunks(start_lba: u64, block_count: u32, max_blocks: u32) -> (chunks: Vec<
    (u64, u32),
>)
    requires
        block_count > 0 ==> max_blocks > 0,
        start_lba + block_count <= u64::MAX,
    ensures
        chunks_view(chunks@) == chunks_of(start_lba as int, block_count as int, max_blocks as int),
{
    let mut chunks: Vec<(u64, u32)> = Vec::new();
    let mut remaining: u32 = block_count;
    let mut current_lba: u64 = start_lba;
    let ghost all = chunks_of(start_lba as int, block_count as int, max_blocks as int);
    assert(chunks_view(chunks@) + all =~= all);
    while remaining > 0
        invariant
            remaining > 0 ==> max_blocks > 0,
            current_lba + remaining <= u64::MAX,
            all == chunks_view(chunks@) + chunks_of(
                current_lba as int,
                remaining as int,
                max_blocks as int,
            ),
        decreases remaining,
    {
        let chunk: u32 = if remaining < max_blocks {
            remaining
        } else {
            max_blocks
        };
        let ghost before = chunks_view(chunks@);
        chunks.push((current_lba, chunk));
        proof {
            let rest = chunks_of(
                current_lba + chunk,
                remaining - chunk,
                max_blocks as int,
            );
            assert(chunks_view(chunks@) =~= before + seq![(current_lba as int, chunk as int)]);
            assert(before + (seq![(current_lba as int, chunk as int)] + rest) =~= (before + seq![
                (current_lba as int, chunk as int),
            ]) + rest);
        }
        current_lba = current_lba + chunk as u64;
        remaining = remaining - chunk;
    }
    assert(all =~= chunks_view(chunks@));
    chunks
}

/// Split a write request into max_blocks-sized chunks.
///
/// Returns a vec of `(lba, block_count)` pairs.
pub fn compute_write_chunks(
    start_lba: u64,
    block_count: u32,
    _block_size: u32,
    max_blocks: u32,
) -> (chunks: Vec<(u64, u32)>)
    requires
        block_count > 0 ==> max_blocks > 0,
        start_lba + block_count <= u64::MAX,
    ensures
        chunks_view(chunks@) == chunks_of(start_lba as int, block_count as int, max_blocks as int),
{
    compute_read_chunks(start_lba, block_count, max_blocks)
}

/// The number of blocks that fit within a burst, none where there are no
/// blocks.
pub open spec fn burst_blocks(max_burst_length: u32, block_size: u32) -> u32 {
    if block_size == 0 {
        0
    } else {
        max_burst_length / block_size
    }
}

/// Compute the maximum number of blocks that fit within a given burst length.
pub fn max_read_blocks_for(max_burst_length: u32, block_size: u32) -> (r: u32)
    ensures
        r == burst_blocks(max_burst_length, block_size),
{
    if block_size == 0 {
        return 0;
    }
    max_burst_length / block_size
}

// ---------------------------------------------------------------------------
// Pipeline
// ---------------------------------------------------------------------------

/// What to do after the response to a read.
pub enum ReadStep {
    /// The read is complete with this data.
    Done(Bytes),
    /// Send the same command again.
    Retry,
    /// The read failed.
    Failed(PipelineError),
}

/// Command pipeline that splits large I/O requests into max_burst_length-sized
/// chunks, each of them one SCSI command.
#[derive(Debug, Clone, Copy)]
pub struct Pipeline {
    pub lun: u64,
    pub block_size: u32,
    pub total_blocks: u64,
    pub negotiated: NegotiatedParams,
}

/// The data of the chunk `c` of a write from `lba` on.
pub open spec fn chunk_data(data: Seq<u8>, lba: int, c: (int, int), block_size: int) -> Seq<u8> {
    data.subrange((c.0 - lba) * block_size, (c.0 - lba + c.1) * block_size)
}

/// The bytes of buffers, one after the other.
pub open spec fn joined(parts: Seq<Seq<u8>>) -> Seq<u8>
    decreases parts.len(),
{
    if parts.len() == 0 {
        seq![]
    } else {
        joined(parts.drop_last()) + parts.last()
    }
}

/// What buffers hold.
pub open spec fn contents(parts: Seq<Bytes>) -> Seq<Seq<u8>> {
    parts.map_values(|b: Bytes| bytes_content(b))
}

impl Pipeline {
    /// The blocks that one command may be about.
    pub open spec fn spec_max_blocks(self) -> u32 {
        burst_blocks(self.negotiated.max_burst_length, self.block_size)
    }

    /// The chunks that a request falls into.
    pub open spec fn chunks(self, lba: int, blocks: int) -> Seq<(int, int)> {
        chunks_of(lba, blocks, self.spec_max_blocks() as int)
    }

    /// The length of the data that is sent along with a write command.
    pub open spec fn immediate_len(self, data: Seq<u8>) -> int {
        if self.negotiated.immediate_data {
            min_int((data.len() as u32) as int, self.negotiated.first_burst_length as int)
        } else {
            0
        }
    }

    /// Create a new pipeline. Call `set_geometry` after `read_capacity`.
    pub fn new(lun: u64, negotiated: NegotiatedParams) -> (r: Self)
        ensures
            r == (Pipeline { lun, block_size: 0, total_blocks: 0, negotiated }),
    {
        Self { lun, block_size: 0, total_blocks: 0, negotiated }
    }

    /// Set the device geometry after a successful READ CAPACITY.
    pub fn set_geometry(&mut self, block_size: u32, total_blocks: u64)
        ensures
            *final(self) == (Pipeline { block_size, total_blocks, ..*old(self) }),
    {
        self.block_size = block_size;
        self.total_blocks = total_blocks;
    }

    pub fn block_size(&self) -> (r: u32)
        ensures
            r == self.block_size,
    {
        self.block_size
    }

    pub fn total_blocks(&self) -> (r: u64)
        ensures
            r == self.total_blocks,
    {
        self.total_blocks
    }

    pub fn total_bytes(&self) -> (r: u64)
        requires
            self.total_blocks * self.block_size <= u64::MAX,
        ensures
            r == self.total_blocks * self.block_size,
    {
        self.total_blocks * self.block_size as u64
    }

    /// Maximum number of blocks that fit within one burst for reads.
    pub fn max_read_blocks(&self) -> (r: u32)
        ensures
            r == self.spec_max_blocks(),
    {
        max_read_blocks_for(self.negotiated.max_burst_length, self.block_size)
    }

    /// Maximum number of blocks that fit within one burst for writes.
    pub fn max_write_blocks(&self) -> (r: u32)
        ensures
            r == self.spec_max_blocks(),
    {
        max_read_blocks_for(self.negotiated.max_burst_length, self.block_size)
    }

    // -----------------------------------------------------------------------
    // SCSI READ
    // -----------------------------------------------------------------------

    /// The commands of a SCSI READ: large requests are split into chunks, whose
    /// data is to be put together in their order.
    pub fn scsi_read(&self, lba: u64, block_count: u32) -> (r: Vec<ScsiRequest>)
        requires
            block_count > 0 ==> self.spec_max_blocks() > 0,
            lba + block_count <= u64::MAX,
        ensures
            ({
                let chunks = self.chunks(lba as int, block_count as int);
                &&& r.len() == chunks.len()
                &&& forall|i: int|
                    0 <= i < r.len() ==> (#[trigger] r[i]).reads(
                        self.lun,
                        chunks[i].0,
                        chunks[i].1,
                        self.block_size as int,
                    )
            }),
    {
        let mut requests: Vec<ScsiRequest> = Vec::new();
        if block_count == 0 {
            return requests;
        }
        let max_blocks: u32 = self.max_read_blocks();
        let chunks = compute_read_chunks(lba, block_count, max_blocks);
        let ghost all = self.chunks(lba as int, block_count as int);
        proof {
            chunks_tile(lba as int, block_count as int, max_blocks as int);
        }
        let mut i: usize = 0;
        while i < chunks.len()
            invariant
                i <= chunks.len(),
                requests.len() == i,
                max_blocks == self.spec_max_blocks(),
                all == chunks_view(chunks@),
                forall|j: int| 0 <= j < all.len() ==> 0 < (#[trigger] all[j]).1 <= max_blocks,
                forall|j: int|
                    0 <= j < i ==> (#[trigger] requests[j]).reads(
                        self.lun,
                        all[j].0,
                        all[j].1,
                        self.block_size as int,
                    ),
            decreases chunks.len() - i,
        {
            let (chunk_lba, chunk_blocks) = chunks[i];
            assert(all[i as int] == (chunk_lba as int, chunk_blocks as int));
            proof {
                lemma_burst_fits(self.negotiated.max_burst_length, self.block_size, chunk_blocks);
            }
            requests.push(self.scsi_read_single(chunk_lba, chunk_blocks));
            i = i + 1;
        }
        requests
    }

    /// The command of a single SCSI READ (no chunking).
    pub fn scsi_read_single(&self, lba: u64, block_count: u32) -> (r: ScsiRequest)
        requires
            block_count * self.block_size <= u32::MAX,
        ensures
            r.reads(self.lun, lba as int, block_count as int, self.block_size as int),
    {
        ScsiRequest {
            cdb: build_read(lba, block_count),
            lun: self.lun,
            edtl: block_count * self.block_size,
            read: true,
            write: false,
            immediate_data: None,
            write_data: None,
        }
    }

    /// What the response to a read means. A unit attention is worth one retry.
    pub fn scsi_read_step(response: PduResponse, retried: bool) -> (r: ReadStep)
        ensures
            ({
                let sense = opt_content(response.sense);
                match status_outcome(response.status, sense) {
                    Ok(_) => {
                        &&& r matches ReadStep::Done(data)
                        &&& bytes_content(data) == (match opt_content(response.data) {
                            Some(data) => data,
                            None => seq![],
                        })
                    },
                    Err(e) => if !retried && wants_attention(response.status, sense) {
                        r is Retry
                    } else {
                        r == ReadStep::Failed(e)
                    },
                }
            }),
            r is Done <==> response.status == ScsiStatus::Good,
            r is Retry ==> !retried && response.status == ScsiStatus::CheckCondition,
    {
        match check_scsi_status(&response) {
            Ok(_) => ReadStep::Done(
                match response.data {
                    Some(data) => data,
                    None => {
                        let none: [u8; 0] = [];
                        assert(none@ =~= seq![]);
                        Bytes::copy_from_slice(&none)
                    },
                },
            ),
            Err(e) => {
                if !retried {
                    if let PipelineError::CheckCondition(sense) = e {
                        if is_unit_attention(&sense) {
                            return ReadStep::Retry;
                        }
                    }
                }
                ReadStep::Failed(e)
            },
        }
    }

    /// Put the data of the chunks of a read together, in order.
    pub fn join_chunks(parts: &Vec<Bytes>) -> (r: Bytes)
        requires
            joined(contents(parts@)).len() <= isize::MAX,
        ensures
            bytes_content(r) == joined(contents(parts@)),
    {
        let mut result: BytesMut = BytesMut::new();
        let ghost all = contents(parts@);
        let mut i: usize = 0;
        assert(all.take(0) =~= seq![]);
        while i < parts.len()
            invariant
                i <= parts.len(),
                all == contents(parts@),
                joined(all).len() <= isize::MAX,
                bytes_mut_content(result) == joined(all.take(i as int)),
            decreases parts.len() - i,
        {
            let part: &[u8] = bytes_as_slice(&parts[i]);
            assert(all[i as int] == part@);
            assert(all.take(i + 1).drop_last() =~= all.take(i as int));
            proof {
                lemma_joined_grows(all, i + 1);
            }
            result.extend_from_slice(part);
            i = i + 1;
        }
        assert(all.take(i as int) =~= all);
        result.freeze()
    }

    // -----------------------------------------------------------------------
    // SCSI WRITE
    // -----------------------------------------------------------------------

    /// The commands of a SCSI WRITE: large requests are split into chunks of
    /// whole blocks. A request that one command can carry goes out as it is.
    pub fn scsi_write(&self, lba: u64, data: &Bytes) -> (r: Vec<ScsiRequest>)
        requires
            bytes_content(*data).len() > 0 ==> {
                let blocks = (bytes_content(*data).len() as u32) / self.block_size;
                &&& self.block_size > 0
                &&& blocks > 0 ==> self.spec_max_blocks() > 0
                &&& lba + blocks <= u64::MAX
            },
        ensures
            bytes_content(*data).len() == 0 ==> r.len() == 0,
            bytes_content(*data).len() > 0 ==> ({
                let content = bytes_content(*data);
                let blocks = ((content.len() as u32) / self.block_size) as int;
                let chunks = self.chunks(lba as int, blocks);
                &&& r.len() == chunks.len()
                &&& if chunks.len() == 1 {
                    r[0].writes(
                        self.lun,
                        lba as int,
                        blocks,
                        self.block_size as int,
                        content,
                        self.immediate_len(content),
                    )
                } else {
                    forall|i: int|
                        0 <= i < r.len() ==> {
                            let part = chunk_data(
                                content,
                                lba as int,
                                chunks[i],
                                self.block_size as int,
                            );
                            (#[trigger] r[i]).writes(
                                self.lun,
                                chunks[i].0,
                                chunks[i].1,
                                self.block_size as int,
                                part,
                                self.immediate_len(part),
                            )
                        }
                }
            }),
    {
        let mut requests: Vec<ScsiRequest> = Vec::new();
        let ghost content = bytes_content(*data);
        if data.len() == 0 {
            return requests;
        }
        let max_blocks: u32 = self.max_write_blocks();
        let block_count: u32 = data.len() as u32 / self.block_size;
        let ghost all = self.chunks(lba as int, block_count as int);
        if block_count == 0 {
            return requests;
        }
        let chunks = compute_write_chunks(lba, block_count, self.block_size, max_blocks);
        proof {
            chunks_tile(lba as int, block_count as int, max_blocks as int);
        }
        if chunks.len() == 1 {
            assert(all.last() == all[0]);
            proof {
                lemma_burst_fits(self.negotiated.max_burst_length, self.block_size, block_count);
            }
            requests.push(self.scsi_write_single(lba, block_count, bytes_clone(data)));
            return requests;
        }
        let mut i: usize = 0;
        let mut offset: usize = 0;
        assert(block_count * self.block_size <= content.len() as u32 <= content.len()) by {
            lemma_whole_blocks_fit(content.len(), self.block_size);
        }
        assert(0 * self.block_size == 0) by (nonlinear_arith);
        while i < chunks.len()
            invariant
                i <= chunks.len(),
                requests.len() == i,
                self.block_size > 0,
                content == bytes_content(*data),
                max_blocks == self.spec_max_blocks(),
                block_count * self.block_size <= content.len() <= usize::MAX,
                all == chunks_view(chunks@),
                all == chunks_of(lba as int, block_count as int, max_blocks as int),
                forall|j: int| 0 <= j < all.len() ==> 0 < (#[trigger] all[j]).1 <= max_blocks,
                forall|j: int|
                    0 <= j < all.len() ==> lba <= (#[trigger] all[j]).0 && all[j].0 + all[j].1
                        <= lba + block_count,
                forall|j: int, k: int|
                    0 <= j < all.len() && k == j + 1 && k < all.len() ==> (#[trigger] all[k]).0 == (
                    #[trigger] all[j]).0 + all[j].1,
                i < all.len() ==> offset == (all[i as int].0 - lba) * self.block_size,
                forall|j: int|
                    0 <= j < i ==> {
                        let part = chunk_data(content, lba as int, all[j], self.block_size as int);
                        (#[trigger] requests[j]).writes(
                            self.lun,
                            all[j].0,
                            all[j].1,
                            self.block_size as int,
                            part,
                            self.immediate_len(part),
                        )
                    },
            decreases chunks.len() - i,
        {
            let (chunk_lba, chunk_blocks) = chunks[i];
            let ghost c = all[i as int];
            assert(c == (chunk_lba as int, chunk_blocks as int));
            proof {
                lemma_burst_fits(self.negotiated.max_burst_length, self.block_size, chunk_blocks);
                lemma_chunk_in_data(
                    c.0 - lba,
                    c.1,
                    block_count as int,
                    self.block_size as int,
                );
            }
            let chunk_bytes: usize = (chunk_blocks * self.block_size) as usize;
            let chunk: Bytes = bytes_slice(data, offset, offset + chunk_bytes);
            assert(bytes_content(chunk) == chunk_data(
                content,
                lba as int,
                c,
                self.block_size as int,
            ));
            requests.push(self.scsi_write_single(chunk_lba, chunk_blocks, chunk));
            offset = offset + chunk_bytes;
            i = i + 1;
            assert(i < all.len() ==> all[i as int].0 == c.0 + c.1);
        }
        requests
    }

    /// The command of a single SCSI WRITE (no chunking). As much of the data as
    /// the first burst may hold is sent along where that was agreed.
    pub fn scsi_write_single(&self, lba: u64, block_count: u32, data: Bytes) -> (r: ScsiRequest)
        requires
            block_count * self.block_size <= u32::MAX,
        ensures
            r.writes(
                self.lun,
                lba as int,
                block_count as int,
                self.block_size as int,
                bytes_content(data),
                self.immediate_len(bytes_content(data)),
            ),
    {
        let len: u32 = data.len() as u32;
        proof {
            lemma_u32_truncates(bytes_content(data).len());
        }
        let immediate_len: u32 = if !self.negotiated.immediate_data {
            0
        } else if len < self.negotiated.first_burst_length {
            len
        } else {
            self.negotiated.first_burst_length
        };
        let immediate_data = if immediate_len > 0 {
            Some(bytes_slice(&data, 0, immediate_len as usize))
        } else {
            None
        };
        assert(immediate_len > 0 ==> bytes_content(data).subrange(0, immediate_len as int)
            =~= bytes_content(data).take(immediate_len as int));
        ScsiRequest {
            cdb: build_write(lba, block_count),
            lun: self.lun,
            edtl: block_count * self.block_size,
            read: false,
            write: true,
            immediate_data,
            write_data: Some(data),
        }
    }

    // -----------------------------------------------------------------------
    // SYNCHRONIZE CACHE
    // -----------------------------------------------------------------------

    /// The SCSI SYNCHRONIZE CACHE (10) command that flushes all of the target's
    /// volatile write cache to persistent storage.
    ///
    /// This MUST be sent after flushing dirty writes to ensure data survives
    /// target power loss or session disconnect.
    pub fn scsi_synchronize_cache(&self) -> (r: ScsiRequest)
        ensures
            is_cdb10(r.cdb@, 0x35, 0, 0),
            r.lun == self.lun,
            r.edtl == 0,
            !r.read,
            r.carries_nothing(),
    {
        ScsiRequest {
            cdb: build_synchronize_cache10(0, 0),
            lun: self.lun,
            edtl: 0,
            read: false,
            write: false,
            immediate_data: None,
            write_data: None,
        }
    }

    // -----------------------------------------------------------------------
    // READ CAPACITY
    // -----------------------------------------------------------------------

    /// The READ CAPACITY(10) command.
    pub fn read_capacity10(&self) -> (r: ScsiRequest)
        ensures
            r.cdb[0] == 0x25,
            zero_between(r.cdb@, 1, 16),
            r.lun == self.lun,
            r.edtl == 8,
            r.read,
            r.carries_nothing(),
    {
        ScsiRequest {
            cdb: build_read_capacity10(),
            lun: self.lun,
            edtl: 8,
            read: true,
            write: false,
            immediate_data: None,
            write_data: None,
        }
    }

    /// The READ CAPACITY(16) command.
    pub fn read_capacity16(&self) -> (r: ScsiRequest)
        ensures
            r.cdb[0] == 0x9E,
            r.cdb[1] == 0x10,
            zero_between(r.cdb@, 2, 10),
            be32(r.cdb@, 10) == 32,
            zero_between(r.cdb@, 14, 16),
            r.lun == self.lun,
            r.edtl == 32,
            r.read,
            r.carries_nothing(),
    {
        let alloc_len: u32 = 32;
        ScsiRequest {
            cdb: build_read_capacity16(alloc_len),
            lun: self.lun,
            edtl: alloc_len,
            read: true,
            write: false,
            immediate_data: None,
            write_data: None,
        }
    }

    /// What the response to READ CAPACITY(10) says: `(max_lba, block_len)`.
    pub fn capacity10_from(response: &PduResponse) -> (r: Result<(u32, u32), PipelineError>)
        ensures
            r == capacity10_outcome(
                response.status,
                opt_content(response.data),
                opt_content(response.sense),
            ),
    {
        match check_scsi_status(response) {
            Ok(_) => {},
            Err(e) => {
                return Err(e);
            },
        }
        match &response.data {
            Some(data) => match parse_read_capacity10(bytes_as_slice(data)) {
                Ok(capacity) => Ok(capacity),
                Err(e) => Err(PipelineError::Capacity(e)),
            },
            None => Err(PipelineError::NoData),
        }
    }

    /// What the response to READ CAPACITY(16) says: `(total_blocks, block_len)`.
    pub fn capacity16_from(response: &PduResponse) -> (r: Result<(u64, u32), PipelineError>)
        ensures
            r == capacity16_outcome(
                response.status,
                opt_content(response.data),
                opt_content(response.sense),
            ),
    {
        match check_scsi_status(response) {
            Ok(_) => {},
            Err(e) => {
                return Err(e);
            },
        }
        match &response.data {
            Some(data) => match parse_read_capacity16(bytes_as_slice(data)) {
                Ok((max_lba, block_len)) => match max_lba.checked_add(1) {
                    Some(total_blocks) => Ok((total_blocks, block_len)),
                    None => Err(PipelineError::MaxLbaOverflow),
                },
                Err(e) => Err(PipelineError::Capacity(e)),
            },
            None => Err(PipelineError::NoData),
        }
    }
}

/// What a response to READ CAPACITY(10) says.
pub open spec fn capacity10_outcome(
    status: ScsiStatus,
    data: Option<Seq<u8>>,
    sense: Option<Seq<u8>>,
) -> Result<(u32, u32), PipelineError> {
    match status_outcome(status, sense) {
        Err(e) => Err(e),
        Ok(_) => match data {
            None => Err(PipelineError::NoData),
            Some(d) => if d.len() < 8 {
                Err(PipelineError::Capacity(CommandError::Capacity10TooShort(d.len() as usize)))
            } else if be32(d, 4) == 0 {
                Err(PipelineError::Capacity(CommandError::Capacity10ZeroBlockLength))
            } else {
                Ok((be32(d, 0) as u32, be32(d, 4) as u32))
            },
        },
    }
}

/// What a response to READ CAPACITY(16) says.
pub open spec fn capacity16_outcome(
    status: ScsiStatus,
    data: Option<Seq<u8>>,
    sense: Option<Seq<u8>>,
) -> Result<(u64, u32), PipelineError> {
    match status_outcome(status, sense) {
        Err(e) => Err(e),
        Ok(_) => match data {
            None => Err(PipelineError::NoData),
            Some(d) => if d.len() < 12 {
                Err(PipelineError::Capacity(CommandError::Capacity16TooShort(d.len() as usize)))
            } else if be32(d, 8) == 0 {
                Err(PipelineError::Capacity(CommandError::Capacity16ZeroBlockLength))
            } else if be64(d, 0) == u64::MAX {
                Err(PipelineError::MaxLbaOverflow)
            } else {
                Ok(((be64(d, 0) + 1) as u64, be32(d, 8) as u32))
            },
        },
    }
}

proof fn lemma_burst_fits(max_burst: u32, block_size: u32, blocks: u32)
    requires
        blocks <= burst_blocks(max_burst, block_size),
    ensures
        blocks * block_size <= max_burst,
{
    if block_size > 0 {
        assert(blocks * block_size <= max_burst) by (nonlinear_arith)
            requires
                0 < block_size,
                blocks <= max_burst / block_size,
        ;
    } else {
        assert(blocks * block_size == 0) by (nonlinear_arith)
            requires
                blocks == 0,
        ;
    }
}

proof fn lemma_u32_truncates(n: nat)
    requires
        n <= usize::MAX,
    ensures
        (n as u32) <= n,
{
    let m = n as u64;
    assert((m as u32) <= m) by (bit_vector);
}

pub(crate) proof fn lemma_whole_blocks_fit(len: nat, block_size: u32)
    requires
        0 < block_size,
        len <= usize::MAX,
    ensures
        ((len as u32) / block_size) * block_size <= len as u32 <= len,
{
    lemma_u32_truncates(len);
    let n = len as u32;
    assert((n / block_size) * block_size <= n) by (nonlinear_arith)
        requires
            0 < block_size,
    ;
}

proof fn lemma_chunk_in_data(first: int, blocks: int, count: int, block_size: int)
    requires
        0 <= first,
        0 <= blocks,
        first + blocks <= count,
        0 < block_size,
    ensures
        0 <= first * block_size,
        first * block_size + blocks * block_size == (first + blocks) * block_size,
        (first + blocks) * block_size <= count * block_size,
{
    assert(0 <= first * block_size) by (nonlinear_arith)
        requires
            0 <= first,
            0 < block_size,
    ;
    assert(first * block_size + blocks * block_size == (first + blocks) * block_size)
        by (nonlinear_arith);
    assert((first + blocks) * block_size <= count * block_size) by (nonlinear_arith)
        requires
            first + blocks <= count,
            0 < block_size,
    ;
}

proof fn lemma_joined_grows(parts: Seq<Seq<u8>>, n: int)
    requires
        0 <= n <= parts.len(),
    ensures
        joined(parts.take(n)).len() <= joined(parts).len(),
    decreases parts.len(),
{
    if n == parts.len() {
        assert(parts.take(n) =~= parts);
    } else {
        lemma_joined_grows(parts.drop_last(), n);
        assert(parts.drop_last().take(n) =~= parts.take(n));
    }
}

// ---------------------------------------------------------------------------
// The capacity query
// ---------------------------------------------------------------------------

/// What to do next in a capacity query.
pub enum CapacityStep<E> {
    /// Send READ CAPACITY(10).
    Ask10,
    /// Send READ CAPACITY(16).
    Ask16,
    /// The device has this many blocks of this size.
    Done(u64, u32),
    /// Every attempt failed, the last one with this error.
    Failed(E),
}

/// A capacity query under way. Tries READ CAPACITY(10) first, upgrading to
/// READ CAPACITY(16) if the device is >= 2 TiB. A failed attempt (such as one
/// that met a unit attention) is repeated, up to `attempts` times in all.
pub struct CapacityQuery {
    /// The attempts that are left, the current one included.
    pub attempts: u32,
    /// What READ CAPACITY(10) said of a device that is too large for it.
    pub overflow: Option<(u32, u32)>,
}

impl CapacityQuery {
    /// What a query in this state does when an attempt fails with `err`.
    pub open spec fn after_failure<E>(
        attempts: u32,
        overflow: Option<(u32, u32)>,
        err: E,
    ) -> CapacityStep<E> {
        if attempts > 1 {
            CapacityStep::Ask10
        } else {
            match overflow {
                Some((max_lba, block_len)) => CapacityStep::Done((max_lba + 1) as u64, block_len),
                None => CapacityStep::Failed(err),
            }
        }
    }

    /// `self` is the query `before` with the result of READ CAPACITY(10), which
    /// is followed by `step`.
    pub open spec fn took10<E>(
        self,
        before: Self,
        result: Result<(u32, u32), E>,
        step: CapacityStep<E>,
    ) -> bool {
        match result {
            Ok((max_lba, block_len)) => if max_lba != 0xFFFF_FFFF {
                // Fits in 32-bit LBA space (device < 2 TiB).
                &&& step == CapacityStep::<E>::Done((max_lba + 1) as u64, block_len)
                &&& self == before
            } else {
                &&& step == CapacityStep::<E>::Ask16
                &&& self.attempts == before.attempts
                &&& self.overflow == Some((max_lba, block_len))
            },
            Err(e) => {
                &&& step == Self::after_failure(before.attempts, before.overflow, e)
                &&& self.attempts == before.attempts - 1
                &&& self.overflow == before.overflow
            },
        }
    }

    /// `self` is the query `before` with the result of READ CAPACITY(16), which
    /// is followed by `step`.
    pub open spec fn took16<E>(
        self,
        before: Self,
        result: Result<(u64, u32), E>,
        step: CapacityStep<E>,
    ) -> bool {
        match result {
            Ok((total_blocks, block_len)) => {
                &&& step == CapacityStep::<E>::Done(total_blocks, block_len)
                &&& self == before
            },
            Err(e) => {
                &&& step == Self::after_failure(before.attempts, before.overflow, e)
                &&& self.attempts == before.attempts - 1
                &&& self.overflow == before.overflow
            },
        }
    }

    /// Begin a query of up to `attempts` attempts; the first step is to send
    /// READ CAPACITY(10).
    pub fn new(attempts: u32) -> (r: Self)
        requires
            attempts > 0,
        ensures
            r.attempts == attempts,
            r.overflow is None,
    {
        Self { attempts, overflow: None }
    }

    fn retry<E>(&mut self, err: E) -> (r: CapacityStep<E>)
        requires
            old(self).attempts > 0,
        ensures
            final(self).attempts == old(self).attempts - 1,
            final(self).overflow == old(self).overflow,
            r == Self::after_failure(old(self).attempts, old(self).overflow, err),
    {
        self.attempts = self.attempts - 1;
        if self.attempts > 0 {
            return CapacityStep::Ask10;
        }
        // READ CAPACITY(16) failed but READ CAPACITY(10) reported >= 2 TiB: the
        // device counts as exactly 2 TiB.
        match self.overflow {
            Some((max_lba, block_len)) => CapacityStep::Done(max_lba as u64 + 1, block_len),
            None => CapacityStep::Failed(err),
        }
    }

    /// Take the result of READ CAPACITY(10): `(max_lba, block_len)`.
    pub fn on_capacity10<E>(&mut self, result: Result<(u32, u32), E>) -> (r: CapacityStep<E>)
        requires
            old(self).attempts > 0,
        ensures
            final(self).took10(*old(self), result, r),
    {
        match result {
            Ok((max_lba, block_len)) => {
                if max_lba != 0xFFFF_FFFF {
                    return CapacityStep::Done(max_lba as u64 + 1, block_len);
                }
                self.overflow = Some((max_lba, block_len));
                CapacityStep::Ask16
            },
            Err(e) => self.retry(e),
        }
    }

    /// Take the result of READ CAPACITY(16): `(total_blocks, block_len)`.
    pub fn on_capacity16<E>(&mut self, result: Result<(u64, u32), E>) -> (r: CapacityStep<E>)
        requires
            old(self).attempts > 0,
        ensures
            final(self).took16(*old(self), result, r),
    {
        match result {
            Ok((total_blocks, block_len)) => CapacityStep::Done(total_blocks, block_len),
            Err(e) => self.retry(e),
        }
    }
}

// ---------------------------------------------------------------------------
// Laws of the pipeline
// ---------------------------------------------------------------------------

/// What `count` blocks from `lba` on a disk hold.
pub open spec fn blocks_of(disk: Seq<u8>, lba: int, count: int, block_size: int) -> Seq<u8> {
    disk.subrange(lba * block_size, (lba + count) * block_size)
}

/// What the chunks hold on a disk.
pub open spec fn chunks_on(disk: Seq<u8>, chunks: Seq<(int, int)>, block_size: int) -> Seq<Seq<u8>> {
    chunks.map_values(|c: (int, int)| blocks_of(disk, c.0, c.1, block_size))
}

proof fn lemma_joined_first(first: Seq<u8>, rest: Seq<Seq<u8>>)
    ensures
        joined(seq![first] + rest) == first + joined(rest),
    decreases rest.len(),
{
    let all = seq![first] + rest;
    if rest.len() == 0 {
        assert(all.drop_last() =~= seq![]);
        assert(joined(all.drop_last()) =~= seq![]);
        assert(joined(all) =~= first);
        assert(first + joined(rest) =~= first);
    } else {
        assert(all.drop_last() =~= seq![first] + rest.drop_last());
        lemma_joined_first(first, rest.drop_last());
        assert(all.last() == rest.last());
        assert((first + joined(rest.drop_last())) + rest.last() =~= first + joined(rest));
    }
}

/// A large read is as good as a single one: where the target returns for each
/// chunk what the disk holds there, the data put together is what the disk
/// holds in the whole range.
pub proof fn chunked_read_is_one_read(
    disk: Seq<u8>,
    lba: int,
    count: int,
    max: int,
    block_size: int,
)
    requires
        0 <= lba,
        0 <= count,
        0 < max,
        0 < block_size,
        (lba + count) * block_size <= disk.len(),
    ensures
        joined(chunks_on(disk, chunks_of(lba, count, max), block_size)) == blocks_of(
            disk,
            lba,
            count,
            block_size,
        ),
    decreases count,
{
    let chunks = chunks_of(lba, count, max);
    let parts = chunks_on(disk, chunks, block_size);
    assert(0 <= lba * block_size) by (nonlinear_arith)
        requires
            0 <= lba,
            0 < block_size,
    ;
    if count == 0 {
        assert(parts =~= seq![]);
        assert(blocks_of(disk, lba, count, block_size) =~= seq![]);
    } else {
        let n = if count <= max {
            count
        } else {
            max
        };
        let rest = chunks_of(lba + n, count - n, max);
        assert((lba + n) + (count - n) == lba + count);
        chunked_read_is_one_read(disk, lba + n, count - n, max, block_size);
        assert(parts =~= seq![blocks_of(disk, lba, n, block_size)] + chunks_on(
            disk,
            rest,
            block_size,
        ));
        lemma_joined_first(blocks_of(disk, lba, n, block_size), chunks_on(disk, rest, block_size));
        assert(lba * block_size <= (lba + n) * block_size <= (lba + count) * block_size)
            by (nonlinear_arith)
            requires
                0 <= n <= count,
                0 < block_size,
        ;
        assert(blocks_of(disk, lba, n, block_size) + blocks_of(
            disk,
            lba + n,
            count - n,
            block_size,
        ) =~= blocks_of(disk, lba, count, block_size));
    }
}

/// The disk after `data` was written from `lba` on.
pub open spec fn disk_after_write(disk: Seq<u8>, lba: int, data: Seq<u8>, block_size: int) -> Seq<
    u8,
> {
    disk.take(lba * block_size) + data + disk.skip(lba * block_size + data.len())
}

/// The disk after the chunks of a write from `start` on were written one after
/// the other.
pub open spec fn disk_after_chunks(
    disk: Seq<u8>,
    start: int,
    data: Seq<u8>,
    chunks: Seq<(int, int)>,
    block_size: int,
) -> Seq<u8>
    decreases chunks.len(),
{
    if chunks.len() == 0 {
        disk
    } else {
        disk_after_chunks(
            disk_after_write(
                disk,
                chunks[0].0,
                chunk_data(data, start, chunks[0], block_size),
                block_size,
            ),
            start,
            data,
            chunks.drop_first(),
            block_size,
        )
    }
}

/// A large write is as good as a single one: writing the chunks changes the
/// disk as writing all the data at once would, where the data is a whole number
/// of blocks that the disk has room for.
pub proof fn chunked_write_is_one_write(
    disk: Seq<u8>,
    start: int,
    data: Seq<u8>,
    count: int,
    max: int,
    block_size: int,
)
    requires
        0 <= start,
        0 <= count,
        0 < max,
        0 < block_size,
        data.len() == count * block_size,
        (start + count) * block_size <= disk.len(),
    ensures
        disk_after_chunks(disk, start, data, chunks_of(start, count, max), block_size)
            == disk_after_write(disk, start, data, block_size),
{
    lemma_chunked_write(disk, start, data, 0, count, max, block_size);
    lemma_chunk_in_data(start, count, start + count, block_size);
    assert(0 * block_size == 0) by (nonlinear_arith);
    assert(data.skip(0) =~= data);
    assert((start + 0) * block_size == start * block_size);
}

proof fn lemma_chunked_write(
    disk: Seq<u8>,
    start: int,
    data: Seq<u8>,
    done: int,
    count: int,
    max: int,
    block_size: int,
)
    requires
        0 <= start,
        0 <= done,
        0 <= count,
        0 < max,
        0 < block_size,
        data.len() == (done + count) * block_size,
        (start + done + count) * block_size <= disk.len(),
    ensures
        disk_after_chunks(
            disk,
            start,
            data,
            chunks_of(start + done, count, max),
            block_size,
        ) == disk_after_write(disk, start + done, data.skip(done * block_size), block_size),
    decreases count,
{
    let chunks = chunks_of(start + done, count, max);
    let tail = data.skip(done * block_size);
    lemma_chunk_in_data(done, count, done + count, block_size);
    lemma_chunk_in_data(start + done, count, start + done + count, block_size);
    let at = (start + done) * block_size;
    if count == 0 {
        assert(count * block_size == 0) by (nonlinear_arith)
            requires
                count == 0,
        ;
        assert(tail =~= seq![]);
        assert(disk_after_write(disk, start + done, tail, block_size) =~= disk);
    } else {
        let n = if count <= max {
            count
        } else {
            max
        };
        lemma_chunk_in_data(done, n, done + count, block_size);
        lemma_chunk_in_data(start + done, n, start + done + count, block_size);
        let c = (start + done, n);
        assert(chunks[0] == c);
        assert(chunks.drop_first() =~= chunks_of(start + (done + n), count - n, max));
        let part = chunk_data(data, start, c, block_size);
        assert(c.0 - start == done);
        assert(part =~= data.subrange(done * block_size, (done + n) * block_size));
        let mid = disk_after_write(disk, start + done, part, block_size);
        assert(mid.len() == disk.len());
        assert((done + n) + (count - n) == done + count);
        assert(start + (done + n) + (count - n) == start + done + count);
        lemma_chunked_write(mid, start, data, done + n, count - n, max, block_size);
        let rest = data.skip((done + n) * block_size);
        assert(part + rest =~= tail);
        assert(start + (done + n) == start + done + n);
        assert(disk_after_write(mid, start + done + n, rest, block_size) =~= disk_after_write(
            disk,
            start + done,
            tail,
            block_size,
        ));
    }
}

/// What came of a command of a capacity query.
pub enum CapacityAnswer<E> {
    Ten(Result<(u32, u32), E>),
    Sixteen(Result<(u64, u32), E>),
}

impl<E> CapacityAnswer<E> {
    pub open spec fn failed(self) -> bool {
        match self {
            CapacityAnswer::Ten(r) => r is Err,
            CapacityAnswer::Sixteen(r) => r is Err,
        }
    }

    pub open spec fn error(self) -> E {
        match self {
            CapacityAnswer::Ten(r) => r->Err_0,
            CapacityAnswer::Sixteen(r) => r->Err_0,
        }
    }

    /// `after` is the query `before` with this answer, which is followed by
    /// `step`.
    pub open spec fn leads(
        self,
        before: CapacityQuery,
        after: CapacityQuery,
        step: CapacityStep<E>,
    ) -> bool {
        match self {
            CapacityAnswer::Ten(r) => after.took10(before, r, step),
            CapacityAnswer::Sixteen(r) => after.took16(before, r, step),
        }
    }
}

/// How many of the first `k` answers are failures.
pub open spec fn failures<E>(answers: Seq<CapacityAnswer<E>>, k: int) -> int
    decreases k,
{
    if k <= 0 {
        0
    } else {
        failures(answers, k - 1) + (if answers[k - 1].failed() {
            1int
        } else {
            0
        })
    }
}

/// A query of `n` attempts gives up only when `n` attempts have failed. For any
/// sequence of answers: a failure that is not the last one allowed has it ask
/// again from the beginning; the last one ends it with that failure, or with
/// 2^32 blocks where READ CAPACITY(10) had said that there are at least as many;
/// and a success, at whichever attempt, ends it with what it said.
pub proof fn query_uses_all_its_attempts<E>(
    n: u32,
    queries: Seq<CapacityQuery>,
    answers: Seq<CapacityAnswer<E>>,
    steps: Seq<CapacityStep<E>>,
    k: int,
)
    requires
        queries.len() == answers.len() + 1,
        steps.len() == answers.len(),
        queries[0].attempts == n,
        queries[0].overflow is None,
        forall|i: int|
            0 <= i < answers.len() ==> (#[trigger] answers[i]).leads(
                queries[i],
                queries[i + 1],
                steps[i],
            ),
        0 <= k < answers.len(),
        failures(answers, k) < n,
    ensures
        answers[k].failed() && failures(answers, k + 1) < n ==> steps[k] == CapacityStep::<E>::Ask10,
        answers[k].failed() && failures(answers, k + 1) == n ==> {
            ||| steps[k] == CapacityStep::Failed(answers[k].error())
            ||| steps[k] matches CapacityStep::Done(blocks, block_len) && blocks == 0x1_0000_0000 && (
            exists|i: int|
                0 <= i < k && #[trigger] answers[i] == CapacityAnswer::<E>::Ten(
                    Ok((0xFFFF_FFFFu32, block_len)),
                ))
        },
        steps[k] is Failed ==> failures(answers, k + 1) == n,
        answers[k] matches CapacityAnswer::Ten(Ok((max_lba, block_len))) ==> {
            &&& max_lba < 0xFFFF_FFFF ==> steps[k] == CapacityStep::<E>::Done(
                (max_lba + 1) as u64,
                block_len,
            )
            &&& max_lba == 0xFFFF_FFFF ==> steps[k] == CapacityStep::<E>::Ask16
        },
        answers[k] matches CapacityAnswer::Sixteen(Ok((blocks, block_len))) ==> steps[k]
            == CapacityStep::<E>::Done(blocks, block_len),
{
    lemma_query_state(n, queries, answers, steps, k);
    assert(answers[k].leads(queries[k], queries[k + 1], steps[k]));
    assert(failures(answers, k + 1) == failures(answers, k) + (if answers[k].failed() {
        1int
    } else {
        0
    }));
}

proof fn lemma_query_state<E>(
    n: u32,
    queries: Seq<CapacityQuery>,
    answers: Seq<CapacityAnswer<E>>,
    steps: Seq<CapacityStep<E>>,
    k: int,
)
    requires
        queries.len() == answers.len() + 1,
        steps.len() == answers.len(),
        queries[0].attempts == n,
        queries[0].overflow is None,
        forall|i: int|
            0 <= i < answers.len() ==> (#[trigger] answers[i]).leads(
                queries[i],
                queries[i + 1],
                steps[i],
            ),
        0 <= k <= answers.len(),
    ensures
        queries[k].attempts == n - failures(answers, k),
        queries[k].overflow matches Some((max_lba, block_len)) ==> max_lba == 0xFFFF_FFFF && (exists|
            i: int,
        |
            0 <= i < k && #[trigger] answers[i] == CapacityAnswer::<E>::Ten(
                Ok((max_lba, block_len)),
            )),
    decreases k,
{
    if k > 0 {
        lemma_query_state(n, queries, answers, steps, k - 1);
        assert(answers[k - 1].leads(queries[k - 1], queries[k - 1 + 1], steps[k - 1]));
    }
}

/// The capacity that is found out is the device's: a device of `blocks` blocks
/// of `block_len` bytes, whose answers say so as far as their fields reach,
/// ends the query with just these two numbers, by READ CAPACITY(10) where the
/// last address fits in it and by READ CAPACITY(16) otherwise.
pub proof fn capacity_is_that_of_the_device<E>(
    before: CapacityQuery,
    after: CapacityQuery,
    step: CapacityStep<E>,
    data10: Seq<u8>,
    data16: Seq<u8>,
    blocks: u64,
    block_len: u32,
)
    requires
        0 < blocks,
        0 < block_len,
        data10.len() >= 8,
        be32(data10, 0) == min_int(blocks - 1, 0xFFFF_FFFF),
        be32(data10, 4) == block_len,
        data16.len() >= 12,
        be64(data16, 0) == blocks - 1,
        be32(data16, 8) == block_len,
        capacity10_outcome(ScsiStatus::Good, Some(data10), None) matches Ok(said) ==> after.took10(
            before,
            Ok::<_, E>(said),
            step,
        ),
    ensures
        capacity10_outcome(ScsiStatus::Good, Some(data10), None) is Ok,
        blocks <= 0xFFFF_FFFF ==> step == CapacityStep::<E>::Done(blocks, block_len),
        blocks > 0xFFFF_FFFF ==> step == CapacityStep::<E>::Ask16,
        capacity16_outcome(ScsiStatus::Good, Some(data16), None) == Ok::<_, PipelineError>(
            (blocks, block_len),
        ),
{
}

/// A response that carries no capacity gives none: one that is not good, that
/// is too short, or that says that blocks have no length.
pub proof fn no_capacity_without_an_answer(
    status: ScsiStatus,
    data: Option<Seq<u8>>,
    sense: Option<Seq<u8>>,
)
    ensures
        capacity10_outcome(status, data, sense) is Ok <==> status == ScsiStatus::Good && data is Some
            && data->0.len() >= 8 && be32(data->0, 4) != 0,
        capacity16_outcome(status, data, sense) is Ok <==> status == ScsiStatus::Good && data is Some
            && data->0.len() >= 12 && be32(data->0, 8) != 0 && be64(data->0, 0) < u64::MAX,
        capacity10_outcome(status, data, sense) matches Ok((_, block_len)) ==> block_len > 0,
        capacity16_outcome(status, data, sense) matches Ok((blocks, block_len)) ==> blocks > 0
            && block_len > 0,
{
}

/// A command counts as done only where its status byte is 0: no other byte,
/// whatever the sense data, is taken for success, and a failure says what the
/// target said.
pub proof fn only_good_status_is_success(status_byte: u8, sense: Option<Seq<u8>>)
    ensures
        ({
            let status = crate::iscsi::session::status_from(status_byte);
            let outcome = status_outcome(status, sense);
            &&& outcome is Ok <==> status_byte == 0
            &&& outcome matches Err(PipelineError::Status(s)) ==> s == status
            &&& outcome matches Err(PipelineError::CheckCondition(said)) ==> sense is Some
                && sense_of(sense->0) == Ok::<_, CommandError>(said)
            &&& status_byte == 2 ==> outcome matches Err(PipelineError::CheckCondition(_))
                || outcome == Err::<(), _>(PipelineError::CheckConditionNoSense)
            &&& status_byte == 2 && sense is Some && sense_of(sense->0) is Ok ==> outcome
                == Err::<(), _>(PipelineError::CheckCondition(sense_of(sense->0)->Ok_0))
        }),
{
}

/// A unit wants attention just where a check condition carries fixed-format
/// sense data with the sense key 6.
pub proof fn attention_is_sense_key_six(status_byte: u8, sense: Seq<u8>)
    ensures
        wants_attention(crate::iscsi::session::status_from(status_byte), Some(sense)) <==> {
            &&& crate::iscsi::session::status_from(status_byte) == ScsiStatus::CheckCondition
            &&& sense.len() >= 16
            &&& sense[2] % 0x80 == 0x70 || sense[2] % 0x80 == 0x71
            &&& sense[4] % 0x10 == 6
        },
        !wants_attention(crate::iscsi::session::status_from(status_byte), None),
{
}

/// A command is about as many blocks as a burst may hold, and no more: one more
/// block would be too long for it.
pub proof fn burst_holds_the_most_blocks(max_burst_length: u32, block_size: u32)
    requires
        0 < block_size,
    ensures
        burst_blocks(max_burst_length, block_size) * block_size <= max_burst_length,
        max_burst_length < (burst_blocks(max_burst_length, block_size) + 1) * block_size,
{
    let m = max_burst_length as int;
    let b = block_size as int;
    vstd::arithmetic::div_mod::lemma_fundamental_div_mod(m, b);
    let q = m / b;
    assert(b * q == q * b) by (nonlinear_arith);
    assert((q + 1) * b == q * b + b) by (nonlinear_arith);
}

/// The commands of a request keep to the burst that was agreed on, name blocks
/// of the request only, and are together about all of them.
pub proof fn commands_keep_to_the_burst(pipeline: Pipeline, lba: int, blocks: int, i: int)
    requires
        0 < pipeline.block_size <= pipeline.negotiated.max_burst_length,
        0 <= blocks,
        0 <= i < pipeline.chunks(lba, blocks).len(),
    ensures
        ({
            let c = pipeline.chunks(lba, blocks)[i];
            &&& 0 < c.1
            &&& c.1 * pipeline.block_size <= pipeline.negotiated.max_burst_length
            &&& lba <= c.0
            &&& c.0 + c.1 <= lba + blocks
            &&& crate::chunks::total_len(pipeline.chunks(lba, blocks)) == blocks
        }),
{
    let max = pipeline.spec_max_blocks();
    burst_holds_the_most_blocks(pipeline.negotiated.max_burst_length, pipeline.block_size);
    assert(max > 0) by (nonlinear_arith)
        requires
            pipeline.negotiated.max_burst_length < (max + 1) * pipeline.block_size,
            pipeline.block_size <= pipeline.negotiated.max_burst_length,
    ;
    chunks_tile(lba, blocks, max as int);
    crate::chunks::chunks_total(lba, blocks, max as int);
    let c = pipeline.chunks(lba, blocks)[i];
    lemma_burst_fits(pipeline.negotiated.max_burst_length, pipeline.block_size, c.1 as u32);
}

/// Data goes along with a write command only where that was agreed, and then as
/// much as there is, up to the first burst.
pub proof fn immediate_data_keeps_to_the_first_burst(pipeline: Pipeline, data: Seq<u8>)
    requires
        data.len() <= u32::MAX,
    ensures
        ({
            let n = pipeline.immediate_len(data);
            &&& 0 <= n <= data.len()
            &&& n <= pipeline.negotiated.first_burst_length
            &&& !pipeline.negotiated.immediate_data ==> n == 0
            &&& pipeline.negotiated.immediate_data ==> n == data.len() || n
                == pipeline.negotiated.first_burst_length
        }),
{
}

/// A read command takes in, and a write command gives out, the bytes of its
/// blocks; what goes along with a write is the beginning of its data, all of
/// which stands ready for the target.
pub proof fn requests_move_their_blocks(
    r: ScsiRequest,
    lun: u64,
    lba: int,
    blocks: int,
    block_size: int,
    data: Seq<u8>,
    n: int,
)
    requires
        0 <= n <= data.len(),
    ensures
        r.reads(lun, lba, blocks, block_size) ==> {
            &&& r.read && !r.write
            &&& r.lun == lun
            &&& r.edtl == blocks * block_size
            &&& r.immediate_data is None && r.write_data is None
        },
        r.writes(lun, lba, blocks, block_size, data, n) ==> {
            &&& r.write && !r.read
            &&& r.lun == lun
            &&& r.edtl == blocks * block_size
            &&& opt_content(r.write_data) == Some(data)
            &&& n == 0 <==> r.immediate_data is None
            &&& n > 0 ==> bytes_content(r.immediate_data->0) + data.skip(n) == data
        },
{
    if r.writes(lun, lba, blocks, block_size, data, n) && n > 0 {
        assert(bytes_content(r.immediate_data->0) + data.skip(n) =~= data);
    }
}

} // verus!

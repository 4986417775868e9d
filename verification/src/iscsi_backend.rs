//! SCSI access to one LUN through the `iscsi_client_rs` crate: which commands a
//! request takes, and what their answers mean.

use crate::chunks::{chunks_of, chunks_tile, min_int};
use crate::iscsi::command::{is_read_cdb, is_write_cdb, ScsiStatus};
use crate::iscsi::pdu::zero_between;
use crate::iscsi::pipeline::{
    capacity10_outcome, capacity16_outcome, chunk_data, chunks_view, compute_read_chunks,
    lemma_whole_blocks_fit, CapacityQuery, CapacityStep, PipelineError, CAPACITY_ATTEMPTS,
};
use crate::wire::{append_slice, be16, be32, be64};
use iscsi_client_rs::control_block::read::{build_read10, build_read16};
use iscsi_client_rs::control_block::read_capacity::{
    parse_read_capacity10_zerocopy, parse_read_capacity16_zerocopy,
};
use iscsi_client_rs::control_block::write::{build_write10, build_write16};
use vstd::prelude::*;

verus! {

/// Maximum number of blocks per single SCSI READ/WRITE command. Conservative to
/// stay within typical MaxBurstLength.
pub const MAX_BLOCKS_PER_IO: u32 = 128;

/// Timeout for individual SCSI operations, in seconds.
pub const SCSI_TIMEOUT_SECS: u64 = 30;

/// How often the capacity is asked for: a unit attention clears after its first
/// occurrence.
pub const BACKEND_CAPACITY_ATTEMPTS: u32 = 2;

// ---------------------------------------------------------------------------
// iscsi_client_rs
// ---------------------------------------------------------------------------

/// `c` is a ten-byte command, padded to sixteen bytes.
pub open spec fn padded_cdb10(
    c: Seq<u8>,
    op: u8,
    flags: u8,
    lba: u32,
    count: u16,
    control: u8,
) -> bool {
    &&& c.len() == 16
    &&& c[0] == op
    &&& c[1] == flags
    &&& be32(c, 2) == lba
    &&& c[6] == 0
    &&& be16(c, 7) == count
    &&& c[9] == control
    &&& zero_between(c, 10, 16)
}

/// `c` is a sixteen-byte command.
pub open spec fn full_cdb16(
    c: Seq<u8>,
    op: u8,
    flags: u8,
    lba: u64,
    count: u32,
    group: u8,
    control: u8,
) -> bool {
    &&& c.len() == 16
    &&& c[0] == op
    &&& c[1] == flags
    &&& be64(c, 2) == lba
    &&& be32(c, 10) == count
    &&& c[14] == group
    &&& c[15] == control
}

/// `build_read10`: a READ(10) command. Of the flags, only the upper five bits
/// are taken.
pub assume_specification[ iscsi_client_rs::control_block::read::build_read10 ](
    cdb: &mut [u8; 16],
    lba: u32,
    blocks: u16,
    flags: u8,
    control: u8,
)
    ensures
        padded_cdb10(final(cdb)@, 0x28, flags & 0b1111_1000, lba, blocks, control),
;

/// `build_read16`: a READ(16) command. Of the flags, only the upper five bits
/// are taken.
pub assume_specification[ iscsi_client_rs::control_block::read::build_read16 ](
    cdb: &mut [u8; 16],
    lba: u64,
    blocks: u32,
    flags: u8,
    control: u8,
)
    ensures
        full_cdb16(final(cdb)@, 0x88, flags & 0b1111_1000, lba, blocks, 0, control),
;

/// `build_write10`: a WRITE(10) command. Of the flags, only the upper five bits
/// and bit 1 are taken.
pub assume_specification[ iscsi_client_rs::control_block::write::build_write10 ](
    cdb: &mut [u8; 16],
    lba: u32,
    blocks: u16,
    flags: u8,
    control: u8,
)
    ensures
        padded_cdb10(final(cdb)@, 0x2A, flags & 0b1111_1010, lba, blocks, control),
;

/// `build_write16`: a WRITE(16) command. Of the flags, only the upper five bits
/// are taken.
pub assume_specification[ iscsi_client_rs::control_block::write::build_write16 ](
    cdb: &mut [u8; 16],
    lba: u64,
    blocks: u32,
    flags: u8,
    control: u8,
)
    ensures
        full_cdb16(final(cdb)@, 0x8A, flags & 0b1111_1000, lba, blocks, 0, control),
;

/// `build_read_capacity10`: a READ CAPACITY(10) command; the partial medium
/// indicator stands in byte 8.
#[verifier::external_body]
fn capacity10_cdb(lba: u32, pmi: bool, control: u8) -> (cdb: [u8; 16])
    ensures
        padded_cdb10(
            cdb@,
            0x25,
            0,
            lba,
            if pmi {
                1
            } else {
                0
            },
            control,
        ),
{
    let mut cdb: [u8; 16] = [0u8; 16];
    iscsi_client_rs::control_block::read_capacity::build_read_capacity10(
        &mut cdb,
        lba,
        pmi,
        control,
    );
    cdb
}

/// `build_read_capacity16`: a READ CAPACITY(16) command; the partial medium
/// indicator stands in byte 14.
#[verifier::external_body]
fn capacity16_cdb(lba: u64, pmi: bool, alloc_len: u32, control: u8) -> (cdb: [u8; 16])
    ensures
        full_cdb16(
            cdb@,
            0x9E,
            0x10,
            lba,
            alloc_len,
            if pmi {
                1
            } else {
                0
            },
            control,
        ),
{
    let mut cdb: [u8; 16] = [0u8; 16];
    iscsi_client_rs::control_block::read_capacity::build_read_capacity16(
        &mut cdb,
        lba,
        pmi,
        alloc_len,
        control,
    );
    cdb
}

/// `anyhow::Error`: the error that the crate's parsers return.
#[verifier::external_type_specification]
#[verifier::external_body]
pub struct ExError(anyhow::Error);

/// `parse_read_capacity10_zerocopy`: the last LBA and the block length, as they
/// stand in the first eight bytes. It fails only where there are fewer.
#[verifier::external_body]
fn read_capacity10_fields(data: &[u8]) -> (r: Result<(u32, u32), anyhow::Error>)
    ensures
        match r {
            Ok((max_lba, block_len)) => data@.len() >= 8 && max_lba == be32(data@, 0) && block_len
                == be32(data@, 4),
            Err(_) => data@.len() < 8,
        },
{
    match parse_read_capacity10_zerocopy(data) {
        Ok(raw) => Ok((raw.max_lba.get(), raw.block_len.get())),
        Err(e) => Err(e),
    }
}

/// `parse_read_capacity16_zerocopy`: the last LBA and the block length, as they
/// stand in the first twelve bytes. It fails only where there are fewer.
#[verifier::external_body]
fn read_capacity16_fields(data: &[u8]) -> (r: Result<(u64, u32), anyhow::Error>)
    ensures
        match r {
            Ok((max_lba, block_len)) => data@.len() >= 12 && max_lba == be64(data@, 0) && block_len
                == be32(data@, 8),
            Err(_) => data@.len() < 12,
        },
{
    match parse_read_capacity16_zerocopy(data) {
        Ok(raw) => Ok((raw.max_lba.get(), raw.block_len.get())),
        Err(e) => Err(e),
    }
}

// ---------------------------------------------------------------------------
// IscsiBackend
// ---------------------------------------------------------------------------

/// Why a request to the backend failed.
#[derive(Debug, Clone, Copy, PartialEq, Eq, Structural)]
pub enum BackendError {
    /// No sessions returned from login.
    NoSession,
    /// An answer was shorter than the command has it.
    ShortCapacity,
    /// READ CAPACITY returned block_len=0.
    ZeroBlockLength,
    /// READ CAPACITY(16) returned a last LBA of 0xFFFFFFFFFFFFFFFF.
    InvalidLastLba,
}

/// A SCSI command that reads `len` bytes.
pub struct ReadRequest {
    pub cdb: [u8; 16],
    pub len: u32,
}

/// A SCSI command that writes data.
pub struct WriteRequest {
    pub cdb: [u8; 16],
    pub data: Vec<u8>,
}

/// What an answer to READ CAPACITY(10) says.
pub open spec fn capacity10_of(data: Seq<u8>) -> Result<(u32, u32), BackendError> {
    if data.len() < 8 {
        Err(BackendError::ShortCapacity)
    } else if be32(data, 4) == 0 {
        Err(BackendError::ZeroBlockLength)
    } else {
        Ok((be32(data, 0) as u32, be32(data, 4) as u32))
    }
}

/// What an answer to READ CAPACITY(16) says: the number of blocks, and their
/// size.
pub open spec fn capacity16_of(data: Seq<u8>) -> Result<(u64, u32), BackendError> {
    if data.len() < 12 {
        Err(BackendError::ShortCapacity)
    } else if be32(data, 8) == 0 {
        Err(BackendError::ZeroBlockLength)
    } else if be64(data, 0) == u64::MAX {
        Err(BackendError::InvalidLastLba)
    } else {
        Ok(((be64(data, 0) + 1) as u64, be32(data, 8) as u32))
    }
}

/// A LUN, and the session and connection that it is reached through.
#[derive(Debug, Clone, Copy, PartialEq, Eq, Structural)]
pub struct IscsiBackend {
    pub tsih: u16,
    pub cid: u16,
    pub lun: u64,
    pub block_size: u32,
    pub total_blocks: u64,
}

impl IscsiBackend {
    /// A backend on the first of the sessions that a login brought. Its
    /// geometry is not known yet.
    pub fn connect(tsihs: &Vec<u16>, lun: u64) -> (r: Result<Self, BackendError>)
        ensures
            r == (if tsihs@.len() == 0 {
                Err(BackendError::NoSession)
            } else {
                Ok::<_, BackendError>(
                    (IscsiBackend {
                        tsih: tsihs@[0],
                        cid: 0,
                        lun,
                        block_size: 0,
                        total_blocks: 0,
                    }),
                )
            }),
    {
        if tsihs.len() == 0 {
            return Err(BackendError::NoSession);
        }
        Ok(Self { tsih: tsihs[0], cid: 0, lun, block_size: 0, total_blocks: 0 })
    }

    /// Set the geometry that a capacity query found.
    pub fn set_geometry(&mut self, total_blocks: u64, block_size: u32)
        ensures
            *final(self) == (IscsiBackend { total_blocks, block_size, ..*old(self) }),
    {
        self.block_size = block_size;
        self.total_blocks = total_blocks;
    }

    /// Begin to query READ CAPACITY: see [`CapacityQuery`].
    pub fn read_capacity() -> (r: CapacityQuery)
        ensures
            r.attempts == BACKEND_CAPACITY_ATTEMPTS,
            r.overflow is None,
    {
        CapacityQuery::new(BACKEND_CAPACITY_ATTEMPTS)
    }

    /// The READ CAPACITY(10) command.
    pub fn read_capacity10() -> (r: ReadRequest)
        ensures
            padded_cdb10(r.cdb@, 0x25, 0, 0, 0, 0),
            r.len == 8,
    {
        ReadRequest { cdb: capacity10_cdb(0, false, 0), len: 8 }
    }

    /// What the answer to READ CAPACITY(10) says: the last LBA, and the size of
    /// a block.
    pub fn capacity10_from(data: &[u8]) -> (r: Result<(u32, u32), BackendError>)
        ensures
            r == capacity10_of(data@),
    {
        match read_capacity10_fields(data) {
            Ok((max_lba, block_len)) => {
                if block_len == 0 {
                    return Err(BackendError::ZeroBlockLength);
                }
                Ok((max_lba, block_len))
            },
            Err(_) => Err(BackendError::ShortCapacity),
        }
    }

    /// The READ CAPACITY(16) command.
    pub fn read_capacity16() -> (r: ReadRequest)
        ensures
            full_cdb16(r.cdb@, 0x9E, 0x10, 0, 32, 0, 0),
            r.len == 32,
    {
        ReadRequest { cdb: capacity16_cdb(0, false, 32, 0), len: 32 }
    }

    /// What the answer to READ CAPACITY(16) says: the number of blocks, and the
    /// size of a block.
    pub fn capacity16_from(data: &[u8]) -> (r: Result<(u64, u32), BackendError>)
        ensures
            r == capacity16_of(data@),
    {
        match read_capacity16_fields(data) {
            Ok((max_lba, block_len)) => {
                if block_len == 0 {
                    return Err(BackendError::ZeroBlockLength);
                }
                match max_lba.checked_add(1) {
                    Some(total_blocks) => Ok((total_blocks, block_len)),
                    None => Err(BackendError::InvalidLastLba),
                }
            },
            Err(_) => Err(BackendError::ShortCapacity),
        }
    }

    /// The commands of a read of `block_count` blocks. Their answers, one after
    /// the other, are the data.
    pub fn scsi_read(&self, lba: u64, block_count: u32) -> (r: Vec<ReadRequest>)
        requires
            lba + block_count <= u64::MAX,
            min_int(block_count as int, MAX_BLOCKS_PER_IO as int) * self.block_size <= u32::MAX,
        ensures
            ({
                let chunks = chunks_of(lba as int, block_count as int, MAX_BLOCKS_PER_IO as int);
                &&& r.len() == chunks.len()
                &&& forall|i: int|
                    0 <= i < r.len() ==> is_read_cdb(
                        (#[trigger] r[i]).cdb@,
                        chunks[i].0,
                        chunks[i].1,
                    ) && r[i].len == chunks[i].1 * self.block_size
            }),
    {
        let chunks = compute_read_chunks(lba, block_count, MAX_BLOCKS_PER_IO);
        let ghost all = chunks_of(lba as int, block_count as int, MAX_BLOCKS_PER_IO as int);
        let ghost most = min_int(block_count as int, MAX_BLOCKS_PER_IO as int);
        proof {
            chunks_tile(lba as int, block_count as int, MAX_BLOCKS_PER_IO as int);
        }
        let mut requests: Vec<ReadRequest> = Vec::new();
        let mut i: usize = 0;
        while i < chunks.len()
            invariant
                i <= chunks.len(),
                requests.len() == i,
                most == min_int(block_count as int, MAX_BLOCKS_PER_IO as int),
                most * self.block_size <= u32::MAX,
                all == chunks_view(chunks@),
                forall|j: int| 0 <= j < all.len() ==> 0 < (#[trigger] all[j]).1 <= most,
                forall|j: int|
                    0 <= j < i ==> is_read_cdb((#[trigger] requests[j]).cdb@, all[j].0, all[j].1)
                        && requests[j].len == all[j].1 * self.block_size,
            decreases chunks.len() - i,
        {
            let (chunk_lba, chunk_blocks) = chunks[i];
            assert(all[i as int] == (chunk_lba as int, chunk_blocks as int));
            proof {
                lemma_io_fits(chunk_blocks as int, most, self.block_size as int);
            }
            requests.push(self.scsi_read_single(chunk_lba, chunk_blocks));
            i = i + 1;
        }
        requests
    }

    /// Single SCSI READ command (no chunking).
    pub fn scsi_read_single(&self, lba: u64, block_count: u32) -> (r: ReadRequest)
        requires
            block_count * self.block_size <= u32::MAX,
        ensures
            is_read_cdb(r.cdb@, lba as int, block_count as int),
            r.len == block_count * self.block_size,
    {
        let mut cdb: [u8; 16] = [0u8; 16];
        assert(0u8 & 0b1111_1000 == 0) by (bit_vector);
        if lba <= 0xFFFF_FFFF && block_count <= 0xFFFF {
            build_read10(&mut cdb, lba as u32, block_count as u16, 0, 0);
        } else {
            build_read16(&mut cdb, lba, block_count, 0, 0);
        }
        ReadRequest { cdb, len: block_count * self.block_size }
    }

    /// The commands of a write. The data is a whole number of blocks; what is
    /// over at its end is not written.
    pub fn scsi_write(&self, lba: u64, data: &Vec<u8>) -> (r: Vec<WriteRequest>)
        requires
            data@.len() > 0 ==> {
                &&& self.block_size > 0
                &&& lba + (data@.len() as u32) / self.block_size <= u64::MAX
            },
        ensures
            data@.len() == 0 ==> r.len() == 0,
            data@.len() > 0 ==> ({
                let blocks = ((data@.len() as u32) / self.block_size) as int;
                let chunks = chunks_of(lba as int, blocks, MAX_BLOCKS_PER_IO as int);
                &&& r.len() == chunks.len()
                &&& forall|i: int|
                    0 <= i < r.len() ==> is_write_cdb(
                        (#[trigger] r[i]).cdb@,
                        chunks[i].0,
                        chunks[i].1,
                    ) && r[i].data@ == chunk_data(
                        data@,
                        lba as int,
                        chunks[i],
                        self.block_size as int,
                    )
            }),
    {
        let mut requests: Vec<WriteRequest> = Vec::new();
        if data.len() == 0 {
            return requests;
        }
        let len: u32 = data.len() as u32;
        let block_count: u32 = len / self.block_size;
        let chunks = compute_read_chunks(lba, block_count, MAX_BLOCKS_PER_IO);
        let ghost bs = self.block_size as int;
        let ghost all = chunks_of(lba as int, block_count as int, MAX_BLOCKS_PER_IO as int);
        proof {
            chunks_tile(lba as int, block_count as int, MAX_BLOCKS_PER_IO as int);
            lemma_whole_blocks_fit(data@.len(), self.block_size);
        }
        let mut i: usize = 0;
        while i < chunks.len()
            invariant
                i <= chunks.len(),
                requests.len() == i,
                bs == self.block_size > 0,
                block_count * bs <= len <= data@.len(),
                all == chunks_view(chunks@),
                forall|j: int|
                    0 <= j < all.len() ==> 0 < (#[trigger] all[j]).1 <= MAX_BLOCKS_PER_IO,
                forall|j: int|
                    0 <= j < all.len() ==> lba <= (#[trigger] all[j]).0 && all[j].0 + all[j].1
                        <= lba + block_count,
                forall|j: int|
                    0 <= j < i ==> is_write_cdb((#[trigger] requests[j]).cdb@, all[j].0, all[j].1)
                        && requests[j].data@ == chunk_data(data@, lba as int, all[j], bs),
            decreases chunks.len() - i,
        {
            let (chunk_lba, chunk_blocks) = chunks[i];
            assert(all[i as int] == (chunk_lba as int, chunk_blocks as int));
            proof {
                lemma_chunk_bytes(
                    chunk_lba - lba,
                    chunk_blocks as int,
                    block_count as int,
                    bs,
                    len as int,
                );
            }
            let start: usize = (chunk_lba - lba) as usize * self.block_size as usize;
            let end: usize = start + chunk_blocks as usize * self.block_size as usize;
            let mut part: Vec<u8> = Vec::new();
            append_slice(&mut part, vstd::slice::slice_subrange(data.as_slice(), start, end));
            assert(part@ =~= chunk_data(data@, lba as int, all[i as int], bs));
            requests.push(self.scsi_write_single(chunk_lba, part));
            i = i + 1;
        }
        requests
    }

    /// Single SCSI WRITE command (no chunking).
    pub fn scsi_write_single(&self, lba: u64, data: Vec<u8>) -> (r: WriteRequest)
        requires
            self.block_size > 0,
        ensures
            is_write_cdb(
                r.cdb@,
                lba as int,
                ((data@.len() as u32) / self.block_size) as int,
            ),
            r.data == data,
    {
        let block_count: u32 = data.len() as u32 / self.block_size;
        let mut cdb: [u8; 16] = [0u8; 16];
        assert(0u8 & 0b1111_1000 == 0 && 0u8 & 0b1111_1010 == 0) by (bit_vector);
        if lba <= 0xFFFF_FFFF && block_count <= 0xFFFF {
            build_write10(&mut cdb, lba as u32, block_count as u16, 0, 0);
        } else {
            build_write16(&mut cdb, lba, block_count, 0, 0);
        }
        WriteRequest { cdb, data }
    }

    pub fn block_size(&self) -> (r: u32)
        ensures
            r == self.block_size,
    {
        self.block_size
    }

    pub fn total_blocks(&self) -> (r: u64)
        ensures
            r == self.total_blocks,
    {
        self.total_blocks
    }

    pub fn total_bytes(&self) -> (r: u64)
        requires
            self.total_blocks * self.block_size <= u64::MAX,
        ensures
            r == self.total_blocks * self.block_size,
    {
        self.total_blocks * self.block_size as u64
    }
}

proof fn lemma_io_fits(blocks: int, most: int, bs: int)
    requires
        0 <= blocks <= most,
        0 <= bs,
        most * bs <= u32::MAX,
    ensures
        0 <= blocks * bs <= u32::MAX,
{
    assert(0 <= blocks * bs <= most * bs) by (nonlinear_arith)
        requires
            0 <= blocks <= most,
            0 <= bs,
    ;
}

proof fn lemma_chunk_bytes(first: int, blocks: int, count: int, bs: int, len: int)
    requires
        0 <= first,
        0 < blocks,
        first + blocks <= count,
        0 < bs,
        count * bs <= len,
    ensures
        0 <= first * bs,
        0 <= blocks * bs,
        first * bs + blocks * bs == (first + blocks) * bs,
        (first + blocks) * bs <= len,
        (blocks * bs) / bs == blocks,
{
    assert(0 <= first * bs && 0 <= blocks * bs && first * bs + blocks * bs == (first + blocks) * bs
        && (first + blocks) * bs <= count * bs) by (nonlinear_arith)
        requires
            0 <= first,
            0 < blocks,
            first + blocks <= count,
            0 < bs,
    ;
    vstd::arithmetic::div_mod::lemma_div_by_multiple(blocks, bs);
}

/// The answers are read as the command pipeline reads them: both find the same
/// capacity in the same bytes, and both find none where there is none.
pub proof fn both_read_the_same_capacity(data: Seq<u8>)
    ensures
        capacity10_of(data) is Ok <==> capacity10_outcome(ScsiStatus::Good, Some(data), None) is Ok,
        capacity10_of(data) matches Ok(said) ==> capacity10_outcome(
            ScsiStatus::Good,
            Some(data),
            None,
        ) == Ok::<_, PipelineError>(said),
        capacity16_of(data) is Ok <==> capacity16_outcome(ScsiStatus::Good, Some(data), None) is Ok,
        capacity16_of(data) matches Ok(said) ==> capacity16_outcome(
            ScsiStatus::Good,
            Some(data),
            None,
        ) == Ok::<_, PipelineError>(said),
{
}

/// The capacity is that of the device: a device of `blocks` blocks of
/// `block_len` bytes is found to have just these, from its last address; blocks
/// without length, and an address that leaves no room for a count, are refused.
pub proof fn capacity_is_one_more_than_the_last_address(data: Seq<u8>, blocks: int, block_len: u32)
    requires
        0 < blocks,
        data.len() >= 12,
    ensures
        be32(data, 0) == blocks - 1 && be32(data, 4) == block_len && block_len > 0 ==> capacity10_of(
            data,
        ) == Ok::<_, BackendError>(((blocks - 1) as u32, block_len)),
        be64(data, 0) == blocks - 1 && be32(data, 8) == block_len && block_len > 0 && blocks
            <= u64::MAX ==> capacity16_of(data) == Ok::<_, BackendError>((blocks as u64, block_len)),
        be32(data, 4) == 0 ==> capacity10_of(data) == Err::<(u32, u32), _>(
            BackendError::ZeroBlockLength,
        ),
        be32(data, 8) == 0 ==> capacity16_of(data) == Err::<(u64, u32), _>(
            BackendError::ZeroBlockLength,
        ),
        be32(data, 8) > 0 && be64(data, 0) == u64::MAX ==> capacity16_of(data) == Err::<
            (u64, u32),
            _,
        >(BackendError::InvalidLastLba),
        capacity10_of(data.take(7)) == Err::<(u32, u32), _>(BackendError::ShortCapacity),
        capacity16_of(data.take(11)) == Err::<(u64, u32), _>(BackendError::ShortCapacity),
{
}

/// A unit attention, which clears after its first occurrence, does not fail a
/// capacity query: after `failed` failures and one more, the backend asks a
/// second time and the pipeline a second and a third time.
pub proof fn failed_capacity_is_asked_for_again<E>(
    failed: u32,
    overflow: Option<(u32, u32)>,
    err: E,
)
    ensures
        failed < BACKEND_CAPACITY_ATTEMPTS ==> (CapacityQuery::after_failure(
            (BACKEND_CAPACITY_ATTEMPTS - failed) as u32,
            overflow,
            err,
        ) == CapacityStep::<E>::Ask10 <==> failed < 1),
        failed < CAPACITY_ATTEMPTS ==> (CapacityQuery::after_failure(
            (CAPACITY_ATTEMPTS - failed) as u32,
            overflow,
            err,
        ) == CapacityStep::<E>::Ask10 <==> failed < 2),
        BACKEND_CAPACITY_ATTEMPTS > 1,
        CAPACITY_ATTEMPTS > 2,
{
}

/// No command is about more than 128 blocks, and only the last of a request is
/// about fewer.
pub proof fn commands_are_about_few_blocks(lba: int, blocks: int, i: int)
    requires
        0 <= blocks,
        0 <= i < chunks_of(lba, blocks, MAX_BLOCKS_PER_IO as int).len(),
    ensures
        ({
            let chunks = chunks_of(lba, blocks, MAX_BLOCKS_PER_IO as int);
            &&& 0 < chunks[i].1 <= 128
            &&& i < chunks.len() - 1 ==> chunks[i].1 == 128
            &&& chunks[i].0 == lba + 128 * i
        }),
{
    chunks_tile(lba, blocks, MAX_BLOCKS_PER_IO as int);
    crate::chunks::chunks_stand_in_place(lba, blocks, MAX_BLOCKS_PER_IO as int, i);
}

} // verus!

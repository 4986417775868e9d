//! SCSI commands: status codes, sense data, CDB builders and the parsers of
//! the responses.

use crate::iscsi::pdu::zero_between;
use crate::wire::{be16, be32, be64, u16_to_be, u32_at, u32_to_be, u64_at, u64_to_be};
use vstd::prelude::*;

verus! {

// ---------------------------------------------------------------------------
// ScsiStatus
// ---------------------------------------------------------------------------

#[derive(Debug, Clone, Copy, PartialEq, Eq, Structural)]
pub enum ScsiStatus {
    Good,
    CheckCondition,
    Busy,
    ReservationConflict,
    TaskSetFull,
    TaskAborted,
}

impl From<u8> for ScsiStatus {
    fn from(v: u8) -> (r: Self) {
        match v {
            0x00 => ScsiStatus::Good,
            0x02 => ScsiStatus::CheckCondition,
            0x08 => ScsiStatus::Busy,
            0x18 => ScsiStatus::ReservationConflict,
            0x28 => ScsiStatus::TaskSetFull,
            0x40 => ScsiStatus::TaskAborted,
            _ => ScsiStatus::CheckCondition,
        }
    }
}

impl vstd::std_specs::convert::FromSpecImpl<u8> for ScsiStatus {
    open spec fn obeys_from_spec() -> bool {
        true
    }

    /// An unknown status counts as a check condition.
    open spec fn from_spec(v: u8) -> Self {
        if v == 0x00 {
            ScsiStatus::Good
        } else if v == 0x08 {
            ScsiStatus::Busy
        } else if v == 0x18 {
            ScsiStatus::ReservationConflict
        } else if v == 0x28 {
            ScsiStatus::TaskSetFull
        } else if v == 0x40 {
            ScsiStatus::TaskAborted
        } else {
            ScsiStatus::CheckCondition
        }
    }
}

/// A status byte stands for the status that SAM gives its number, each status
/// for no other byte, and only the zero byte for success. A byte that SAM does
/// not define is never taken for success nor for a reason to wait: it counts as
/// a check condition.
pub proof fn status_codes_are_sam_codes(v: u8)
    ensures
        ({
            let s = <ScsiStatus as vstd::std_specs::convert::FromSpec<u8>>::from_spec(v);
            &&& <ScsiStatus as vstd::std_specs::convert::FromSpec<u8>>::obeys_from_spec()
            &&& s == ScsiStatus::Good <==> v == 0x00
            &&& s == ScsiStatus::Busy <==> v == 0x08
            &&& s == ScsiStatus::ReservationConflict <==> v == 0x18
            &&& s == ScsiStatus::TaskSetFull <==> v == 0x28
            &&& s == ScsiStatus::TaskAborted <==> v == 0x40
            &&& s == ScsiStatus::CheckCondition <==> !(v == 0x00 || v == 0x08 || v == 0x18 || v
                == 0x28 || v == 0x40)
        }),
{
}

// ---------------------------------------------------------------------------
// SenseKey
// ---------------------------------------------------------------------------

#[derive(Debug, Clone, Copy, PartialEq, Eq, Structural)]
pub enum SenseKey {
    NoSense,
    RecoveredError,
    NotReady,
    MediumError,
    HardwareError,
    IllegalRequest,
    UnitAttention,
    DataProtect,
    AbortedCommand,
}

impl From<u8> for SenseKey {
    fn from(v: u8) -> (r: Self) {
        match v {
            0x0 => SenseKey::NoSense,
            0x1 => SenseKey::RecoveredError,
            0x2 => SenseKey::NotReady,
            0x3 => SenseKey::MediumError,
            0x4 => SenseKey::HardwareError,
            0x5 => SenseKey::IllegalRequest,
            0x6 => SenseKey::UnitAttention,
            0x7 => SenseKey::DataProtect,
            0xB => SenseKey::AbortedCommand,
            _ => SenseKey::NoSense,
        }
    }
}

impl vstd::std_specs::convert::FromSpecImpl<u8> for SenseKey {
    open spec fn obeys_from_spec() -> bool {
        true
    }

    /// An unknown key counts as no sense.
    open spec fn from_spec(v: u8) -> Self {
        if v == 0x1 {
            SenseKey::RecoveredError
        } else if v == 0x2 {
            SenseKey::NotReady
        } else if v == 0x3 {
            SenseKey::MediumError
        } else if v == 0x4 {
            SenseKey::HardwareError
        } else if v == 0x5 {
            SenseKey::IllegalRequest
        } else if v == 0x6 {
            SenseKey::UnitAttention
        } else if v == 0x7 {
            SenseKey::DataProtect
        } else if v == 0xB {
            SenseKey::AbortedCommand
        } else {
            SenseKey::NoSense
        }
    }
}

/// A sense key stands for the condition that SPC gives its number, each
/// condition for no other number; a number that names no condition is no sense.
pub proof fn sense_keys_are_spc_keys(v: u8)
    ensures
        ({
            let k = <SenseKey as vstd::std_specs::convert::FromSpec<u8>>::from_spec(v);
            &&& <SenseKey as vstd::std_specs::convert::FromSpec<u8>>::obeys_from_spec()
            &&& k == SenseKey::RecoveredError <==> v == 1
            &&& k == SenseKey::NotReady <==> v == 2
            &&& k == SenseKey::MediumError <==> v == 3
            &&& k == SenseKey::HardwareError <==> v == 4
            &&& k == SenseKey::IllegalRequest <==> v == 5
            &&& k == SenseKey::UnitAttention <==> v == 6
            &&& k == SenseKey::DataProtect <==> v == 7
            &&& k == SenseKey::AbortedCommand <==> v == 11
            &&& k == SenseKey::NoSense <==> v == 0 || 8 <= v <= 10 || v >= 12
        }),
{
}

// ---------------------------------------------------------------------------
// SenseData
// ---------------------------------------------------------------------------

#[derive(Debug, Clone, Copy, PartialEq, Eq, Structural)]
pub struct SenseData {
    pub sense_key: SenseKey,
    pub asc: u8,
    pub ascq: u8,
    pub information: u32,
}

/// Why a response could not be read.
#[derive(Debug, Clone, Copy, PartialEq, Eq, Structural)]
pub enum CommandError {
    /// A READ CAPACITY(10) response of so many bytes is too short.
    Capacity10TooShort(usize),
    /// READ CAPACITY(10) returned a block length of 0.
    Capacity10ZeroBlockLength,
    /// A READ CAPACITY(16) response of so many bytes is too short.
    Capacity16TooShort(usize),
    /// READ CAPACITY(16) returned a block length of 0.
    Capacity16ZeroBlockLength,
    /// Sense data of so many bytes is too short.
    SenseTooShort(usize),
    /// The sense data is in another format than the fixed one.
    UnsupportedSenseCode(u8),
    /// Sense data of so many bytes is too short for ASC and ASCQ.
    SenseTooShortForAsc(usize),
}

// ---------------------------------------------------------------------------
// CDB builders
// ---------------------------------------------------------------------------

/// `cdb` is the ten-byte command `op` on `count` blocks from `lba`, padded to
/// sixteen bytes.
pub open spec fn is_cdb10(cdb: Seq<u8>, op: int, lba: int, count: int) -> bool {
    &&& cdb.len() == 16
    &&& cdb[0] == op
    &&& cdb[1] == 0
    &&& be32(cdb, 2) == lba
    &&& cdb[6] == 0
    &&& be16(cdb, 7) == count
    &&& zero_between(cdb, 9, 16)
}

/// `cdb` is the sixteen-byte command `op` on `count` blocks from `lba`.
pub open spec fn is_cdb16(cdb: Seq<u8>, op: int, lba: int, count: int) -> bool {
    &&& cdb.len() == 16
    &&& cdb[0] == op
    &&& cdb[1] == 0
    &&& be64(cdb, 2) == lba
    &&& be32(cdb, 10) == count
    &&& zero_between(cdb, 14, 16)
}

pub fn build_test_unit_ready() -> (cdb: [u8; 16])
    ensures
        zero_between(cdb@, 0, 16),
{
    [0u8; 16]
}

pub fn build_inquiry(alloc_len: u16) -> (cdb: [u8; 16])
    ensures
        cdb[0] == 0x12,
        zero_between(cdb@, 1, 3),
        be16(cdb@, 3) == alloc_len,
        zero_between(cdb@, 5, 16),
{
    let mut cdb = [0u8; 16];
    cdb[0] = 0x12;
    let bytes: [u8; 2] = u16_to_be(alloc_len);
    cdb[3] = bytes[0];
    cdb[4] = bytes[1];
    cdb
}

pub fn build_read_capacity10() -> (cdb: [u8; 16])
    ensures
        cdb[0] == 0x25,
        zero_between(cdb@, 1, 16),
{
    let mut cdb = [0u8; 16];
    cdb[0] = 0x25;
    cdb
}

pub fn build_read_capacity16(alloc_len: u32) -> (cdb: [u8; 16])
    ensures
        cdb[0] == 0x9E,
        cdb[1] == 0x10,
        zero_between(cdb@, 2, 10),
        be32(cdb@, 10) == alloc_len,
        zero_between(cdb@, 14, 16),
{
    let mut cdb = [0u8; 16];
    cdb[0] = 0x9E;
    cdb[1] = 0x10;  // service action
    let bytes: [u8; 4] = u32_to_be(alloc_len);
    cdb[10] = bytes[0];
    cdb[11] = bytes[1];
    cdb[12] = bytes[2];
    cdb[13] = bytes[3];
    cdb
}

pub fn build_read10(lba: u32, block_count: u16) -> (cdb: [u8; 16])
    ensures
        is_cdb10(cdb@, 0x28, lba as int, block_count as int),
{
    let mut cdb = [0u8; 16];
    cdb[0] = 0x28;
    let lba_bytes: [u8; 4] = u32_to_be(lba);
    cdb[2] = lba_bytes[0];
    cdb[3] = lba_bytes[1];
    cdb[4] = lba_bytes[2];
    cdb[5] = lba_bytes[3];
    let count_bytes: [u8; 2] = u16_to_be(block_count);
    cdb[7] = count_bytes[0];
    cdb[8] = count_bytes[1];
    cdb
}

pub fn build_read16(lba: u64, block_count: u32) -> (cdb: [u8; 16])
    ensures
        is_cdb16(cdb@, 0x88, lba as int, block_count as int),
{
    let mut cdb = [0u8; 16];
    cdb[0] = 0x88;
    let lba_bytes: [u8; 8] = u64_to_be(lba);
    cdb[2] = lba_bytes[0];
    cdb[3] = lba_bytes[1];
    cdb[4] = lba_bytes[2];
    cdb[5] = lba_bytes[3];
    cdb[6] = lba_bytes[4];
    cdb[7] = lba_bytes[5];
    cdb[8] = lba_bytes[6];
    cdb[9] = lba_bytes[7];
    let count_bytes: [u8; 4] = u32_to_be(block_count);
    cdb[10] = count_bytes[0];
    cdb[11] = count_bytes[1];
    cdb[12] = count_bytes[2];
    cdb[13] = count_bytes[3];
    cdb
}

pub fn build_write10(lba: u32, block_count: u16) -> (cdb: [u8; 16])
    ensures
        is_cdb10(cdb@, 0x2A, lba as int, block_count as int),
{
    let mut cdb = [0u8; 16];
    cdb[0] = 0x2A;
    let lba_bytes: [u8; 4] = u32_to_be(lba);
    cdb[2] = lba_bytes[0];
    cdb[3] = lba_bytes[1];
    cdb[4] = lba_bytes[2];
    cdb[5] = lba_bytes[3];
    let count_bytes: [u8; 2] = u16_to_be(block_count);
    cdb[7] = count_bytes[0];
    cdb[8] = count_bytes[1];
    cdb
}

pub fn build_write16(lba: u64, block_count: u32) -> (cdb: [u8; 16])
    ensures
        is_cdb16(cdb@, 0x8A, lba as int, block_count as int),
{
    let mut cdb = [0u8; 16];
    cdb[0] = 0x8A;
    let lba_bytes: [u8; 8] = u64_to_be(lba);
    cdb[2] = lba_bytes[0];
    cdb[3] = lba_bytes[1];
    cdb[4] = lba_bytes[2];
    cdb[5] = lba_bytes[3];
    cdb[6] = lba_bytes[4];
    cdb[7] = lba_bytes[5];
    cdb[8] = lba_bytes[6];
    cdb[9] = lba_bytes[7];
    let count_bytes: [u8; 4] = u32_to_be(block_count);
    cdb[10] = count_bytes[0];
    cdb[11] = count_bytes[1];
    cdb[12] = count_bytes[2];
    cdb[13] = count_bytes[3];
    cdb
}

/// The ten-byte commands address 32 bits and count 16.
pub open spec fn fits_cdb10(lba: int, count: int) -> bool {
    lba <= u32::MAX && count <= u16::MAX
}

/// `cdb` reads `count` blocks from `lba`.
pub open spec fn is_read_cdb(cdb: Seq<u8>, lba: int, count: int) -> bool {
    if fits_cdb10(lba, count) {
        is_cdb10(cdb, 0x28, lba, count)
    } else {
        is_cdb16(cdb, 0x88, lba, count)
    }
}

/// `cdb` writes `count` blocks from `lba`.
pub open spec fn is_write_cdb(cdb: Seq<u8>, lba: int, count: int) -> bool {
    if fits_cdb10(lba, count) {
        is_cdb10(cdb, 0x2A, lba, count)
    } else {
        is_cdb16(cdb, 0x8A, lba, count)
    }
}

/// Auto-select READ10 or READ16 based on addressing requirements.
pub fn build_read(lba: u64, block_count: u32) -> (cdb: [u8; 16])
    ensures
        is_read_cdb(cdb@, lba as int, block_count as int),
{
    if lba <= 0xFFFF_FFFF && block_count <= 0xFFFF {
        build_read10(lba as u32, block_count as u16)
    } else {
        build_read16(lba, block_count)
    }
}

/// Auto-select WRITE10 or WRITE16 based on addressing requirements.
pub fn build_write(lba: u64, block_count: u32) -> (cdb: [u8; 16])
    ensures
        is_write_cdb(cdb@, lba as int, block_count as int),
{
    if lba <= 0xFFFF_FFFF && block_count <= 0xFFFF {
        build_write10(lba as u32, block_count as u16)
    } else {
        build_write16(lba, block_count)
    }
}

/// Build a SYNCHRONIZE CACHE (10) CDB (opcode 0x35).
///
/// Tells the target to flush its volatile cache to persistent storage. Both
/// arguments 0 means "flush the entire cache".
pub fn build_synchronize_cache10(lba: u32, block_count: u16) -> (cdb: [u8; 16])
    ensures
        is_cdb10(cdb@, 0x35, lba as int, block_count as int),
{
    let mut cdb = [0u8; 16];
    cdb[0] = 0x35;
    let lba_bytes: [u8; 4] = u32_to_be(lba);
    cdb[2] = lba_bytes[0];
    cdb[3] = lba_bytes[1];
    cdb[4] = lba_bytes[2];
    cdb[5] = lba_bytes[3];
    let count_bytes: [u8; 2] = u16_to_be(block_count);
    cdb[7] = count_bytes[0];
    cdb[8] = count_bytes[1];
    cdb
}

/// A read CDB and a write CDB each say which blocks they are about: no two
/// ranges share a CDB, and no CDB both reads and writes.
pub proof fn rw_cdb_determines_range(cdb: Seq<u8>, lba: int, count: int, lba2: int, count2: int)
    requires
        0 <= lba <= u64::MAX,
        0 <= lba2 <= u64::MAX,
        0 <= count <= u32::MAX,
        0 <= count2 <= u32::MAX,
    ensures
        is_read_cdb(cdb, lba, count) && is_read_cdb(cdb, lba2, count2) ==> lba == lba2 && count
            == count2,
        is_write_cdb(cdb, lba, count) && is_write_cdb(cdb, lba2, count2) ==> lba == lba2 && count
            == count2,
        !(is_read_cdb(cdb, lba, count) && is_write_cdb(cdb, lba2, count2)),
{
}

/// The operation code of a command says what it does and how long it is: the
/// group in its upper three bits is that of ten-byte commands where address and
/// count fit in them and that of sixteen-byte commands elsewhere, and the lower
/// five bits are 8 for a read and 10 for a write.
pub proof fn rw_cdb_is_of_its_group(cdb: Seq<u8>, lba: int, count: int)
    requires
        0 <= lba <= u64::MAX,
        0 <= count <= u32::MAX,
    ensures
        is_read_cdb(cdb, lba, count) ==> cdb[0] % 0x20 == 8,
        is_write_cdb(cdb, lba, count) ==> cdb[0] % 0x20 == 10,
        is_read_cdb(cdb, lba, count) || is_write_cdb(cdb, lba, count) ==> {
            &&& cdb.len() == 16
            &&& cdb[0] / 0x20 == (if lba < 0x1_0000_0000 && count < 0x1_0000 {
                1int
            } else {
                4
            })
            &&& cdb[0] / 0x20 == 1 ==> {
                &&& lba == cdb[2] * 0x100_0000 + cdb[3] * 0x1_0000 + cdb[4] * 0x100 + cdb[5]
                &&& count == cdb[7] * 0x100 + cdb[8]
            }
            &&& cdb[0] / 0x20 == 4 ==> {
                &&& lba == (cdb[2] * 0x100_0000 + cdb[3] * 0x1_0000 + cdb[4] * 0x100 + cdb[5])
                    * 0x1_0000_0000 + (cdb[6] * 0x100_0000 + cdb[7] * 0x1_0000 + cdb[8] * 0x100
                    + cdb[9])
                &&& count == cdb[10] * 0x100_0000 + cdb[11] * 0x1_0000 + cdb[12] * 0x100 + cdb[13]
            }
        },
{
}

// ---------------------------------------------------------------------------
// Response parsers
// ---------------------------------------------------------------------------

/// Read the last LBA and the block length from a READ CAPACITY(10) response.
pub fn parse_read_capacity10(data: &[u8]) -> (r: Result<(u32, u32), CommandError>)
    ensures
        match r {
            Ok((max_lba, block_len)) => {
                &&& data.len() >= 8
                &&& max_lba == be32(data@, 0)
                &&& block_len == be32(data@, 4)
                &&& block_len != 0
            },
            Err(CommandError::Capacity10TooShort(n)) => n == data.len() && data.len() < 8,
            Err(CommandError::Capacity10ZeroBlockLength) => data.len() >= 8 && be32(data@, 4) == 0,
            Err(_) => false,
        },
{
    if data.len() < 8 {
        return Err(CommandError::Capacity10TooShort(data.len()));
    }
    let max_lba: u32 = u32_at(data, 0);
    let block_len: u32 = u32_at(data, 4);
    if block_len == 0 {
        return Err(CommandError::Capacity10ZeroBlockLength);
    }
    Ok((max_lba, block_len))
}

/// Read the last LBA and the block length from a READ CAPACITY(16) response.
pub fn parse_read_capacity16(data: &[u8]) -> (r: Result<(u64, u32), CommandError>)
    ensures
        match r {
            Ok((max_lba, block_len)) => {
                &&& data.len() >= 12
                &&& max_lba == be64(data@, 0)
                &&& block_len == be32(data@, 8)
                &&& block_len != 0
            },
            Err(CommandError::Capacity16TooShort(n)) => n == data.len() && data.len() < 12,
            Err(CommandError::Capacity16ZeroBlockLength) => data.len() >= 12 && be32(data@, 8) == 0,
            Err(_) => false,
        },
{
    if data.len() < 12 {
        return Err(CommandError::Capacity16TooShort(data.len()));
    }
    let max_lba: u64 = u64_at(data, 0);
    let block_len: u32 = u32_at(data, 8);
    if block_len == 0 {
        return Err(CommandError::Capacity16ZeroBlockLength);
    }
    Ok((max_lba, block_len))
}

/// What `parse_sense_data` makes of `data`: a two-byte length prefix, then
/// sense data in the fixed format (response code 0x70 or 0x71).
pub open spec fn sense_of(data: Seq<u8>) -> Result<SenseData, CommandError> {
    let code = (data[2] % 0x80) as u8;
    if data.len() < 14 {
        Err(CommandError::SenseTooShort(data.len() as usize))
    } else if code != 0x70 && code != 0x71 {
        Err(CommandError::UnsupportedSenseCode(code))
    } else if data.len() < 16 {
        Err(CommandError::SenseTooShortForAsc(data.len() as usize))
    } else {
        Ok(
            (SenseData {
                sense_key: <SenseKey as vstd::std_specs::convert::FromSpec<u8>>::from_spec(
                    (data[4] % 0x10) as u8,
                ),
                asc: data[14],
                ascq: data[15],
                information: be32(data, 5) as u32,
            }),
        )
    }
}

/// Parse sense data with a 2-byte iSCSI sense length prefix.
///
/// Layout: bytes 0-1 = sense data length (big-endian), bytes 2+ = fixed-format sense.
/// Fixed-format sense (response code 0x70 or 0x71):
///   byte 0 (offset 2) = response code
///   byte 2 (offset 4) = sense key (bits 3-0)
///   bytes 3-6 (offset 5-8) = information field
///   byte 12 (offset 14) = ASC
///   byte 13 (offset 15) = ASCQ
pub fn parse_sense_data(data: &[u8]) -> (r: Result<SenseData, CommandError>)
    ensures
        r == sense_of(data@),
{
    if data.len() < 14 {
        return Err(CommandError::SenseTooShort(data.len()));
    }
    let response_code: u8 = data[2] % 0x80;
    if response_code != 0x70 && response_code != 0x71 {
        return Err(CommandError::UnsupportedSenseCode(response_code));
    }
    let sense_key = SenseKey::from(data[4] % 0x10);
    let information: u32 = u32_at(data, 5);
    if data.len() < 16 {
        return Err(CommandError::SenseTooShortForAsc(data.len()));
    }
    Ok(SenseData { sense_key, asc: data[14], ascq: data[15], information })
}

/// Sense data is read where it is in the fixed format and long enough for its
/// codes, whatever the bits that stand beside the response code and the key;
/// each field is found at its place behind the two bytes of the length.
pub proof fn fixed_format_sense_is_read(data: Seq<u8>)
    ensures
        ({
            let fixed = data[2] % 0x80 == 0x70 || data[2] % 0x80 == 0x71;
            &&& sense_of(data) is Ok <==> data.len() >= 16 && fixed
            &&& sense_of(data) matches Ok(sense) ==> {
                &&& sense.sense_key == <SenseKey as vstd::std_specs::convert::FromSpec<
                    u8,
                >>::from_spec((data[4] % 0x10) as u8)
                &&& sense.information == data[5] * 0x100_0000 + data[6] * 0x1_0000 + data[7] * 0x100
                    + data[8]
                &&& sense.asc == data[14]
                &&& sense.ascq == data[15]
            }
            &&& sense_of(data) matches Err(CommandError::UnsupportedSenseCode(_)) ==> !fixed
                && data.len() >= 14
        }),
{
}

// ---------------------------------------------------------------------------
// Helpers
// ---------------------------------------------------------------------------

pub fn is_unit_attention(sense: &SenseData) -> (r: bool)
    ensures
        r == (sense.sense_key == SenseKey::UnitAttention),
{
    sense.sense_key == SenseKey::UnitAttention
}

/// Whether a command that ended this way is worth sending again.
pub fn is_retryable(status: ScsiStatus, sense: Option<&SenseData>) -> (r: bool)
    ensures
        r == (status == ScsiStatus::Busy || status == ScsiStatus::TaskSetFull || (status
            == ScsiStatus::CheckCondition && sense is Some && sense->0.sense_key
            == SenseKey::UnitAttention)),
        r ==> status != ScsiStatus::Good && status != ScsiStatus::ReservationConflict && status
            != ScsiStatus::TaskAborted,
        sense is None ==> (r <==> status == ScsiStatus::Busy || status == ScsiStatus::TaskSetFull),
{
    match status {
        ScsiStatus::Busy | ScsiStatus::TaskSetFull => true,
        ScsiStatus::CheckCondition => match sense {
            Some(sense) => is_unit_attention(sense),
            None => false,
        },
        _ => false,
    }
}

} // verus!

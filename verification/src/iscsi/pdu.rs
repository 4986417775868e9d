//! iSCSI Protocol Data Units: opcodes, the 48-byte Basic Header Segment and
//! the builders for the PDUs that an initiator and a target exchange.

use crate::wire::{be16, be24, be32, be64, u16_at, u16_to_be, u32_at, u32_to_be, u64_at, u64_to_be};
use bytes::Bytes;
use vstd::prelude::*;

verus! {

// ---------------------------------------------------------------------------
// Opcode
// ---------------------------------------------------------------------------

/// iSCSI PDU opcodes per RFC 7143.
#[derive(Debug, Clone, Copy, PartialEq, Eq, Structural)]
pub enum Opcode {
    // Initiator opcodes
    NopOut,
    ScsiCommand,
    TaskMgmt,
    LoginRequest,
    TextRequest,
    ScsiDataOut,
    LogoutRequest,
    SnackRequest,
    // Target opcodes
    NopIn,
    ScsiResponse,
    TaskMgmtResp,
    LoginResponse,
    TextResponse,
    ScsiDataIn,
    LogoutResponse,
    R2t,
    AsyncMessage,
    Reject,
}

/// Why a header could not be read.
#[derive(Debug, Clone, Copy, PartialEq, Eq, Structural)]
pub enum PduError {
    /// The opcode bits name no PDU type.
    UnknownOpcode(u8),
}

impl Opcode {
    /// The six-bit number that stands for this opcode on the wire.
    pub open spec fn spec_code(self) -> u8 {
        match self {
            Opcode::NopOut => 0x00,
            Opcode::ScsiCommand => 0x01,
            Opcode::TaskMgmt => 0x02,
            Opcode::LoginRequest => 0x03,
            Opcode::TextRequest => 0x04,
            Opcode::ScsiDataOut => 0x05,
            Opcode::LogoutRequest => 0x06,
            Opcode::SnackRequest => 0x10,
            Opcode::NopIn => 0x20,
            Opcode::ScsiResponse => 0x21,
            Opcode::TaskMgmtResp => 0x22,
            Opcode::LoginResponse => 0x23,
            Opcode::TextResponse => 0x24,
            Opcode::ScsiDataIn => 0x25,
            Opcode::LogoutResponse => 0x26,
            Opcode::R2t => 0x31,
            Opcode::AsyncMessage => 0x32,
            Opcode::Reject => 0x3f,
        }
    }

    /// The opcode that `value` stands for, if it stands for one.
    pub open spec fn of_code(value: u8) -> Option<Opcode> {
        if exists|op: Opcode| #[trigger] op.spec_code() == value {
            Some(choose|op: Opcode| #[trigger] op.spec_code() == value)
        } else {
            None
        }
    }

    /// The wire number of this opcode.
    #[verifier::when_used_as_spec(spec_code)]
    pub fn code(self) -> (r: u8)
        ensures
            r == self.spec_code(),
    {
        match self {
            Opcode::NopOut => 0x00,
            Opcode::ScsiCommand => 0x01,
            Opcode::TaskMgmt => 0x02,
            Opcode::LoginRequest => 0x03,
            Opcode::TextRequest => 0x04,
            Opcode::ScsiDataOut => 0x05,
            Opcode::LogoutRequest => 0x06,
            Opcode::SnackRequest => 0x10,
            Opcode::NopIn => 0x20,
            Opcode::ScsiResponse => 0x21,
            Opcode::TaskMgmtResp => 0x22,
            Opcode::LoginResponse => 0x23,
            Opcode::TextResponse => 0x24,
            Opcode::ScsiDataIn => 0x25,
            Opcode::LogoutResponse => 0x26,
            Opcode::R2t => 0x31,
            Opcode::AsyncMessage => 0x32,
            Opcode::Reject => 0x3f,
        }
    }
}

/// Every opcode is read back from its wire number, and no two opcodes share one.
pub proof fn opcode_round_trip(op: Opcode)
    ensures
        op.spec_code() < 0x40,
        Opcode::of_code(op.spec_code()) == Some(op),
{
    assert(forall|a: Opcode| #[trigger] a.spec_code() == op.spec_code() ==> a == op);
    assert(op.spec_code() == op.spec_code());
}

impl TryFrom<u8> for Opcode {
    type Error = PduError;

    fn try_from(value: u8) -> (r: Result<Self, PduError>) {
        let op: Option<Opcode> = match value {
            0x00 => Some(Opcode::NopOut),
            0x01 => Some(Opcode::ScsiCommand),
            0x02 => Some(Opcode::TaskMgmt),
            0x03 => Some(Opcode::LoginRequest),
            0x04 => Some(Opcode::TextRequest),
            0x05 => Some(Opcode::ScsiDataOut),
            0x06 => Some(Opcode::LogoutRequest),
            0x10 => Some(Opcode::SnackRequest),
            0x20 => Some(Opcode::NopIn),
            0x21 => Some(Opcode::ScsiResponse),
            0x22 => Some(Opcode::TaskMgmtResp),
            0x23 => Some(Opcode::LoginResponse),
            0x24 => Some(Opcode::TextResponse),
            0x25 => Some(Opcode::ScsiDataIn),
            0x26 => Some(Opcode::LogoutResponse),
            0x31 => Some(Opcode::R2t),
            0x32 => Some(Opcode::AsyncMessage),
            0x3f => Some(Opcode::Reject),
            _ => None,
        };
        match op {
            Some(op) => {
                proof {
                    opcode_round_trip(op);
                }
                Ok(op)
            },
            None => {
                assert(forall|a: Opcode| #[trigger] a.spec_code() != value);
                Err(PduError::UnknownOpcode(value))
            },
        }
    }
}

impl vstd::std_specs::convert::TryFromSpecImpl<u8> for Opcode {
    open spec fn obeys_try_from_spec() -> bool {
        true
    }

    open spec fn try_from_spec(v: u8) -> Result<Self, PduError> {
        match Opcode::of_code(v) {
            Some(op) => Ok(op),
            None => Err(PduError::UnknownOpcode(v)),
        }
    }
}

// ---------------------------------------------------------------------------
// Bhs — Basic Header Segment (48 bytes)
// ---------------------------------------------------------------------------

/// The 48-byte Basic Header Segment of an iSCSI PDU.
///
/// The raw wire-format bytes are kept alongside the parsed common fields so
/// that opcode-specific accessors can read directly from `raw`.
#[derive(Debug, Clone, Copy)]
pub struct Bhs {
    pub raw: [u8; 48],
    pub opcode: Opcode,
    pub immediate: bool,
    pub flags: u8,
    pub data_segment_length: u32,
    pub lun: u64,
    pub itt: u32,
}

/// The first header byte: the immediate bit over the opcode.
pub open spec fn first_byte(immediate: bool, opcode: Opcode) -> u8 {
    ((if immediate { 0x40int } else { 0int }) + opcode.spec_code()) as u8
}

/// The bytes `lo..hi` of `s` are all zero.
pub open spec fn zero_between(s: Seq<u8>, lo: int, hi: int) -> bool {
    forall|i: int| lo <= i < hi ==> #[trigger] s[i] == 0
}

impl Bhs {
    /// The bytes 0, 1 and 5 to 7 of `raw` say what the fields `immediate`,
    /// `opcode`, `flags` and `data_segment_length` say.
    pub open spec fn control_synced(self) -> bool {
        &&& self.raw[0] == first_byte(self.immediate, self.opcode)
        &&& self.raw[1] == self.flags
        &&& be24(self.raw@, 5) == self.data_segment_length % 0x100_0000
    }

    /// All bytes of `raw` that mirror a field say what the field says.
    pub open spec fn synced(self) -> bool {
        &&& self.control_synced()
        &&& be64(self.raw@, 8) == self.lun
        &&& be32(self.raw@, 16) == self.itt
    }

    /// The common fields of a header.
    pub open spec fn has_fields(
        self,
        opcode: Opcode,
        immediate: bool,
        flags: int,
        data_segment_length: u32,
        lun: u64,
        itt: u32,
    ) -> bool {
        &&& self.opcode == opcode
        &&& self.immediate == immediate
        &&& self.flags == flags
        &&& self.data_segment_length == data_segment_length
        &&& self.lun == lun
        &&& self.itt == itt
    }

    /// Every field but `raw` is as in `other`.
    pub open spec fn same_fields(self, other: Bhs) -> bool {
        self.has_fields(
            other.opcode,
            other.immediate,
            other.flags as int,
            other.data_segment_length,
            other.lun,
            other.itt,
        )
    }

    /// The 48 bytes that stand for this header on the wire. The control bytes
    /// come from the fields, byte 4 is reserved, the rest comes from `raw`.
    pub open spec fn wire(self) -> Seq<u8> {
        seq![
            first_byte(self.immediate, self.opcode),
            self.flags,
            self.raw[2],
            self.raw[3],
            0u8,
            ((self.data_segment_length / 0x1_0000) % 0x100) as u8,
            ((self.data_segment_length / 0x100) % 0x100) as u8,
            (self.data_segment_length % 0x100) as u8,
        ] + self.raw@.subrange(8, 48)
    }

    // -----------------------------------------------------------------------
    // Serialize / Parse
    // -----------------------------------------------------------------------

    /// Serialize the BHS to its 48-byte big-endian wire format.
    pub fn serialize(&self) -> (buf: [u8; 48])
        ensures
            buf@ == self.wire(),
    {
        proof {
            opcode_round_trip(self.opcode);
        }
        let mut buf: [u8; 48] = self.raw;
        buf[0] = (if self.immediate { 0x40 } else { 0x00 }) + self.opcode.code();
        buf[1] = self.flags;
        buf[4] = 0;
        buf[5] = ((self.data_segment_length / 0x1_0000) % 0x100) as u8;
        buf[6] = ((self.data_segment_length / 0x100) % 0x100) as u8;
        buf[7] = (self.data_segment_length % 0x100) as u8;
        assert(buf@ =~= self.wire());
        buf
    }

    /// The header that the 48 bytes `buf` stand for, where the opcode is known.
    pub open spec fn is_parse_of(self, buf: Seq<u8>) -> bool {
        &&& self.raw@ == buf
        &&& Opcode::of_code((buf[0] % 0x40) as u8) == Some(self.opcode)
        &&& self.immediate == ((buf[0] / 0x40) % 2 == 1)
        &&& self.flags == buf[1]
        &&& self.data_segment_length == be24(buf, 5)
        &&& self.lun == be64(buf, 8)
        &&& self.itt == be32(buf, 16)
    }

    /// Parse a 48-byte buffer into a BHS.
    pub fn parse(buf: &[u8; 48]) -> (r: Result<Self, PduError>)
        ensures
            match r {
                Ok(bhs) => bhs.is_parse_of(buf@),
                Err(e) => {
                    &&& Opcode::of_code((buf[0] % 0x40) as u8) is None
                    &&& e == PduError::UnknownOpcode((buf[0] % 0x40) as u8)
                },
            },
    {
        let immediate = (buf[0] / 0x40) % 2 == 1;
        let opcode = match Opcode::try_from(buf[0] % 0x40) {
            Ok(op) => op,
            Err(e) => {
                return Err(e);
            },
        };
        let flags: u8 = buf[1];
        let data_segment_length: u32 = (buf[5] as u32) * 0x1_0000 + (buf[6] as u32) * 0x100 + (
        buf[7] as u32);
        let lun: u64 = u64_at(buf, 8);
        let itt: u32 = u32_at(buf, 16);
        Ok(Self { raw: *buf, opcode, immediate, flags, data_segment_length, lun, itt })
    }

    // -----------------------------------------------------------------------
    // Opcode-specific accessors (read from `raw`)
    // -----------------------------------------------------------------------

    /// SCSI status byte (byte 3). Valid for ScsiResponse and Data-In with S bit
    /// set.
    pub fn scsi_status(&self) -> (r: u8)
        ensures
            r == self.raw[3],
    {
        self.raw[3]
    }

    /// S (status) bit: bit 0 of flags byte. Used by Data-In.
    pub fn status_flag(&self) -> (r: bool)
        ensures
            r == (self.raw[1] % 2 == 1),
    {
        self.raw[1] % 2 == 1
    }

    /// F (final) bit: bit 7 of flags byte.
    pub fn final_flag(&self) -> (r: bool)
        ensures
            r == (self.raw[1] >= 0x80),
    {
        self.raw[1] >= 0x80
    }

    /// StatSN (bytes 24 to 27).
    pub fn stat_sn(&self) -> (r: u32)
        ensures
            r == be32(self.raw@, 24),
    {
        u32_at(&self.raw, 24)
    }

    /// ExpCmdSN (bytes 28 to 31).
    pub fn exp_cmd_sn(&self) -> (r: u32)
        ensures
            r == be32(self.raw@, 28),
    {
        u32_at(&self.raw, 28)
    }

    /// MaxCmdSN (bytes 32 to 35).
    pub fn max_cmd_sn(&self) -> (r: u32)
        ensures
            r == be32(self.raw@, 32),
    {
        u32_at(&self.raw, 32)
    }

    /// DataSN (bytes 36 to 39).
    pub fn data_sn(&self) -> (r: u32)
        ensures
            r == be32(self.raw@, 36),
    {
        u32_at(&self.raw, 36)
    }

    /// Buffer Offset (bytes 40 to 43).
    pub fn buffer_offset(&self) -> (r: u32)
        ensures
            r == be32(self.raw@, 40),
    {
        u32_at(&self.raw, 40)
    }

    /// Target Transfer Tag (bytes 20 to 23).
    pub fn ttt(&self) -> (r: u32)
        ensures
            r == be32(self.raw@, 20),
    {
        u32_at(&self.raw, 20)
    }

    /// R2T Buffer Offset (bytes 40 to 43).
    pub fn r2t_buffer_offset(&self) -> (r: u32)
        ensures
            r == be32(self.raw@, 40),
    {
        u32_at(&self.raw, 40)
    }

    /// R2T Desired Data Transfer Length (bytes 44 to 47).
    pub fn r2t_desired_length(&self) -> (r: u32)
        ensures
            r == be32(self.raw@, 44),
    {
        u32_at(&self.raw, 44)
    }

    /// R2TSN (bytes 36 to 39).
    pub fn r2t_sn(&self) -> (r: u32)
        ensures
            r == be32(self.raw@, 36),
    {
        u32_at(&self.raw, 36)
    }

    /// TSIH (bytes 14 and 15), used by Login Request and Response.
    pub fn tsih(&self) -> (r: u16)
        ensures
            r == be16(self.raw@, 14),
    {
        u16_at(&self.raw, 14)
    }

    /// CmdSN (bytes 24 to 27), for initiator PDUs (same offset as StatSN).
    pub fn cmd_sn(&self) -> (r: u32)
        ensures
            r == be32(self.raw@, 24),
    {
        u32_at(&self.raw, 24)
    }

    /// ExpStatSN (bytes 28 to 31), for initiator PDUs.
    pub fn exp_stat_sn(&self) -> (r: u32)
        ensures
            r == be32(self.raw@, 28),
    {
        u32_at(&self.raw, 28)
    }

    /// Status-Class of a Login Response (byte 36).
    pub fn login_status_class(&self) -> (r: u8)
        ensures
            r == self.raw[36],
    {
        self.raw[36]
    }

    /// Status-Detail of a Login Response (byte 37).
    pub fn login_status_detail(&self) -> (r: u8)
        ensures
            r == self.raw[37],
    {
        self.raw[37]
    }

    // -----------------------------------------------------------------------
    // Builder helpers
    // -----------------------------------------------------------------------

    /// A header of zero bytes.
    pub fn new_zeroed() -> (r: Self)
        ensures
            r.has_fields(Opcode::NopOut, false, 0, 0, 0, 0),
            zero_between(r.raw@, 0, 48),
    {
        Self {
            raw: [0u8; 48],
            opcode: Opcode::NopOut,
            immediate: false,
            flags: 0,
            data_segment_length: 0,
            lun: 0,
            itt: 0,
        }
    }

    /// Make the bytes of `raw` that mirror a field say what the field says.
    pub fn sync_raw_from_fields(&mut self)
        ensures
            final(self).synced(),
            final(self).same_fields(*old(self)),
            forall|i: int|
                0 <= i < 48 && !(0 <= i <= 1 || 5 <= i < 20) ==> #[trigger] final(self).raw[i]
                    == old(self).raw[i],
    {
        proof {
            opcode_round_trip(self.opcode);
        }
        self.raw[0] = (if self.immediate { 0x40 } else { 0x00 }) + self.opcode.code();
        self.raw[1] = self.flags;
        self.raw[5] = ((self.data_segment_length / 0x1_0000) % 0x100) as u8;
        self.raw[6] = ((self.data_segment_length / 0x100) % 0x100) as u8;
        self.raw[7] = (self.data_segment_length % 0x100) as u8;
        let lun: [u8; 8] = u64_to_be(self.lun);
        self.raw[8] = lun[0];
        self.raw[9] = lun[1];
        self.raw[10] = lun[2];
        self.raw[11] = lun[3];
        self.raw[12] = lun[4];
        self.raw[13] = lun[5];
        self.raw[14] = lun[6];
        self.raw[15] = lun[7];
        let itt: u32 = self.itt;
        self.set_raw_u32(16, itt);
    }

    /// Write a big-endian u32 into raw at the given offset.
    pub fn set_raw_u32(&mut self, offset: usize, value: u32)
        requires
            offset + 4 <= 48,
        ensures
            final(self).same_fields(*old(self)),
            be32(final(self).raw@, offset as int) == value,
            forall|i: int|
                0 <= i < 48 && !(offset <= i < offset + 4) ==> #[trigger] final(self).raw[i]
                    == old(self).raw[i],
    {
        let b: [u8; 4] = u32_to_be(value);
        self.raw[offset] = b[0];
        self.raw[offset + 1] = b[1];
        self.raw[offset + 2] = b[2];
        self.raw[offset + 3] = b[3];
    }

    /// Write a big-endian u16 into raw at the given offset.
    pub fn set_raw_u16(&mut self, offset: usize, value: u16)
        requires
            offset + 2 <= 48,
        ensures
            final(self).same_fields(*old(self)),
            be16(final(self).raw@, offset as int) == value,
            forall|i: int|
                0 <= i < 48 && !(offset <= i < offset + 2) ==> #[trigger] final(self).raw[i]
                    == old(self).raw[i],
    {
        let b: [u8; 2] = u16_to_be(value);
        self.raw[offset] = b[0];
        self.raw[offset + 1] = b[1];
    }

    // -----------------------------------------------------------------------
    // Initiator-side builders
    // -----------------------------------------------------------------------

    /// Build a SCSI Command PDU (opcode 0x01).
    pub fn build_scsi_command(
        lun: u64,
        itt: u32,
        cmd_sn: u32,
        exp_stat_sn: u32,
        cdb: &[u8; 16],
        edtl: u32,
        read: bool,
        write: bool,
    ) -> (r: Self)
        ensures
            r.has_fields(
                Opcode::ScsiCommand,
                false,
                0x80 + (if read { 0x40int } else { 0 }) + (if write { 0x20int } else { 0 }),
                0,
                lun,
                itt,
            ),
            r.synced(),
            zero_between(r.raw@, 2, 5),
            be32(r.raw@, 20) == edtl,
            be32(r.raw@, 24) == cmd_sn,
            be32(r.raw@, 28) == exp_stat_sn,
            r.raw@.subrange(32, 48) == cdb@,
    {
        let mut bhs = Self::new_zeroed();
        bhs.opcode = Opcode::ScsiCommand;
        bhs.immediate = false;
        bhs.flags = 0x80 + (if read { 0x40 } else { 0 }) + (if write { 0x20 } else { 0 });
        bhs.lun = lun;
        bhs.itt = itt;
        bhs.sync_raw_from_fields();
        // bytes 20-23: Expected Data Transfer Length
        bhs.set_raw_u32(20, edtl);
        // bytes 24-27: CmdSN
        bhs.set_raw_u32(24, cmd_sn);
        // bytes 28-31: ExpStatSN
        bhs.set_raw_u32(28, exp_stat_sn);
        // bytes 32-47: CDB (16 bytes)
        let ghost before = bhs;
        let mut i: usize = 0;
        while i < 16
            invariant
                i <= 16,
                bhs.same_fields(before),
                forall|j: int| 0 <= j < 32 ==> #[trigger] bhs.raw[j] == before.raw[j],
                forall|j: int| 32 <= j < 32 + i ==> #[trigger] bhs.raw[j] == cdb[j - 32],
            decreases 16 - i,
        {
            bhs.raw[32 + i] = cdb[i];
            i = i + 1;
        }
        assert(bhs.raw@.subrange(32, 48) =~= cdb@);
        bhs
    }

    /// Build a SCSI Data-Out PDU (opcode 0x05).
    pub fn build_data_out(
        lun: u64,
        itt: u32,
        ttt: u32,
        exp_stat_sn: u32,
        data_sn: u32,
        buffer_offset: u32,
    ) -> (r: Self)
        ensures
            r.has_fields(Opcode::ScsiDataOut, false, 0x80, 0, lun, itt),
            r.synced(),
            zero_between(r.raw@, 2, 5),
            be32(r.raw@, 20) == ttt,
            zero_between(r.raw@, 24, 28),
            be32(r.raw@, 28) == exp_stat_sn,
            zero_between(r.raw@, 32, 36),
            be32(r.raw@, 36) == data_sn,
            be32(r.raw@, 40) == buffer_offset,
            zero_between(r.raw@, 44, 48),
    {
        let mut bhs = Self::new_zeroed();
        bhs.opcode = Opcode::ScsiDataOut;
        bhs.immediate = false;
        bhs.flags = 0x80;  // F bit set
        bhs.lun = lun;
        bhs.itt = itt;
        bhs.sync_raw_from_fields();
        // bytes 20-23: TTT
        bhs.set_raw_u32(20, ttt);
        // bytes 28-31: ExpStatSN
        bhs.set_raw_u32(28, exp_stat_sn);
        // bytes 36-39: DataSN
        bhs.set_raw_u32(36, data_sn);
        // bytes 40-43: Buffer Offset
        bhs.set_raw_u32(40, buffer_offset);
        bhs
    }

    /// Build a Login Request PDU (opcode 0x03, always immediate). The LUN area
    /// carries the ISID and the TSIH instead.
    pub fn build_login_request(
        isid: [u8; 6],
        tsih: u16,
        cid: u16,
        itt: u32,
        cmd_sn: u32,
        exp_stat_sn: u32,
        csg: u8,
        nsg: u8,
        transit: bool,
    ) -> (r: Self)
        ensures
            r.has_fields(
                Opcode::LoginRequest,
                true,
                (if transit { 0x80int } else { 0 }) + (csg % 4) * 4 + nsg % 4,
                0,
                0,
                itt,
            ),
            r.control_synced(),
            zero_between(r.raw@, 2, 5),
            r.raw@.subrange(8, 14) == isid@,
            be16(r.raw@, 14) == tsih,
            be32(r.raw@, 16) == itt,
            be16(r.raw@, 20) == cid,
            zero_between(r.raw@, 22, 24),
            be32(r.raw@, 24) == cmd_sn,
            be32(r.raw@, 28) == exp_stat_sn,
            zero_between(r.raw@, 32, 48),
    {
        let mut bhs = Self::new_zeroed();
        bhs.opcode = Opcode::LoginRequest;
        bhs.immediate = true;
        bhs.flags = (if transit { 0x80 } else { 0 }) + (csg % 4) * 4 + nsg % 4;
        bhs.itt = itt;
        bhs.sync_raw_from_fields();
        // bytes 2-3: VersionMax and VersionMin stay zero
        // bytes 8-13: ISID
        bhs.raw[8] = isid[0];
        bhs.raw[9] = isid[1];
        bhs.raw[10] = isid[2];
        bhs.raw[11] = isid[3];
        bhs.raw[12] = isid[4];
        bhs.raw[13] = isid[5];
        // bytes 14-15: TSIH
        bhs.set_raw_u16(14, tsih);
        // bytes 20-21: CID
        bhs.set_raw_u16(20, cid);
        // bytes 24-27: CmdSN
        bhs.set_raw_u32(24, cmd_sn);
        // bytes 28-31: ExpStatSN
        bhs.set_raw_u32(28, exp_stat_sn);
        assert(bhs.raw@.subrange(8, 14) =~= isid@);
        bhs
    }

    /// Build a NOP-Out PDU (opcode 0x00, always immediate).
    pub fn build_nop_out(itt: u32, ttt: u32, cmd_sn: u32, exp_stat_sn: u32) -> (r: Self)
        ensures
            r.has_fields(Opcode::NopOut, true, 0x80, 0, 0, itt),
            r.synced(),
            zero_between(r.raw@, 2, 5),
            be32(r.raw@, 20) == ttt,
            be32(r.raw@, 24) == cmd_sn,
            be32(r.raw@, 28) == exp_stat_sn,
            zero_between(r.raw@, 32, 48),
    {
        let mut bhs = Self::new_zeroed();
        bhs.opcode = Opcode::NopOut;
        bhs.immediate = true;
        bhs.flags = 0x80;  // F bit
        bhs.itt = itt;
        bhs.sync_raw_from_fields();
        // bytes 20-23: TTT
        bhs.set_raw_u32(20, ttt);
        // bytes 24-27: CmdSN
        bhs.set_raw_u32(24, cmd_sn);
        // bytes 28-31: ExpStatSN
        bhs.set_raw_u32(28, exp_stat_sn);
        bhs
    }

    /// Build a Logout Request PDU (opcode 0x06, always immediate). Reason code 0
    /// asks to close the session.
    pub fn build_logout_request(itt: u32, cmd_sn: u32, exp_stat_sn: u32, cid: u16) -> (r: Self)
        ensures
            r.has_fields(Opcode::LogoutRequest, true, 0x80, 0, 0, itt),
            r.synced(),
            zero_between(r.raw@, 2, 5),
            be16(r.raw@, 20) == cid,
            zero_between(r.raw@, 22, 24),
            be32(r.raw@, 24) == cmd_sn,
            be32(r.raw@, 28) == exp_stat_sn,
            zero_between(r.raw@, 32, 48),
    {
        let mut bhs = Self::new_zeroed();
        bhs.opcode = Opcode::LogoutRequest;
        bhs.immediate = true;
        bhs.flags = 0x80;  // F=1, reason=0x00 (close session)
        bhs.itt = itt;
        bhs.sync_raw_from_fields();
        // bytes 20-21: CID
        bhs.set_raw_u16(20, cid);
        // bytes 24-27: CmdSN
        bhs.set_raw_u32(24, cmd_sn);
        // bytes 28-31: ExpStatSN
        bhs.set_raw_u32(28, exp_stat_sn);
        bhs
    }

    // -----------------------------------------------------------------------
    // Target-side builders
    // -----------------------------------------------------------------------

    /// Build a SCSI Response PDU (opcode 0x21).
    pub fn build_scsi_response(
        itt: u32,
        scsi_status: u8,
        stat_sn: u32,
        exp_cmd_sn: u32,
        max_cmd_sn: u32,
    ) -> (r: Self)
        ensures
            r.has_fields(Opcode::ScsiResponse, false, 0x80, 0, 0, itt),
            r.synced(),
            r.raw[2] == 0,
            r.raw[3] == scsi_status,
            r.raw[4] == 0,
            zero_between(r.raw@, 20, 24),
            be32(r.raw@, 24) == stat_sn,
            be32(r.raw@, 28) == exp_cmd_sn,
            be32(r.raw@, 32) == max_cmd_sn,
            zero_between(r.raw@, 36, 48),
    {
        let mut bhs = Self::new_zeroed();
        bhs.opcode = Opcode::ScsiResponse;
        bhs.immediate = false;
        bhs.flags = 0x80;  // F=1
        bhs.itt = itt;
        bhs.sync_raw_from_fields();
        // byte 3: SCSI status
        bhs.raw[3] = scsi_status;
        // bytes 24-27: StatSN
        bhs.set_raw_u32(24, stat_sn);
        // bytes 28-31: ExpCmdSN
        bhs.set_raw_u32(28, exp_cmd_sn);
        // bytes 32-35: MaxCmdSN
        bhs.set_raw_u32(32, max_cmd_sn);
        bhs
    }

    /// Build a Data-In PDU (opcode 0x25). The SCSI status and the StatSN are
    /// carried only with the status flag.
    pub fn build_data_in(
        itt: u32,
        data_sn: u32,
        buffer_offset: u32,
        data_len: u32,
        status_flag: bool,
        scsi_status: u8,
        stat_sn: u32,
        exp_cmd_sn: u32,
        max_cmd_sn: u32,
    ) -> (r: Self)
        ensures
            r.has_fields(
                Opcode::ScsiDataIn,
                false,
                0x80 + (if status_flag { 1int } else { 0 }),
                data_len,
                0,
                itt,
            ),
            r.synced(),
            r.raw[2] == 0,
            r.raw[3] == (if status_flag { scsi_status } else { 0 }),
            r.raw[4] == 0,
            zero_between(r.raw@, 20, 24),
            be32(r.raw@, 24) == (if status_flag { stat_sn } else { 0 }),
            be32(r.raw@, 28) == exp_cmd_sn,
            be32(r.raw@, 32) == max_cmd_sn,
            be32(r.raw@, 36) == data_sn,
            be32(r.raw@, 40) == buffer_offset,
            zero_between(r.raw@, 44, 48),
    {
        let mut bhs = Self::new_zeroed();
        bhs.opcode = Opcode::ScsiDataIn;
        bhs.immediate = false;
        bhs.flags = 0x80 + (if status_flag { 0x01 } else { 0x00 });
        bhs.data_segment_length = data_len;
        bhs.itt = itt;
        bhs.sync_raw_from_fields();
        if status_flag {
            // byte 3: SCSI status
            bhs.raw[3] = scsi_status;
            // bytes 24-27: StatSN
            bhs.set_raw_u32(24, stat_sn);
        }
        // bytes 28-31: ExpCmdSN
        bhs.set_raw_u32(28, exp_cmd_sn);
        // bytes 32-35: MaxCmdSN
        bhs.set_raw_u32(32, max_cmd_sn);
        // bytes 36-39: DataSN
        bhs.set_raw_u32(36, data_sn);
        // bytes 40-43: Buffer Offset
        bhs.set_raw_u32(40, buffer_offset);
        bhs
    }

    /// Build a NOP-In PDU (opcode 0x20).
    pub fn build_nop_in(
        itt: u32,
        ttt: u32,
        stat_sn: u32,
        exp_cmd_sn: u32,
        max_cmd_sn: u32,
    ) -> (r: Self)
        ensures
            r.has_fields(Opcode::NopIn, false, 0x80, 0, 0, itt),
            r.synced(),
            zero_between(r.raw@, 2, 5),
            be32(r.raw@, 20) == ttt,
            be32(r.raw@, 24) == stat_sn,
            be32(r.raw@, 28) == exp_cmd_sn,
            be32(r.raw@, 32) == max_cmd_sn,
            zero_between(r.raw@, 36, 48),
    {
        let mut bhs = Self::new_zeroed();
        bhs.opcode = Opcode::NopIn;
        bhs.immediate = false;
        bhs.flags = 0x80;  // F=1
        bhs.itt = itt;
        bhs.sync_raw_from_fields();
        // bytes 20-23: TTT
        bhs.set_raw_u32(20, ttt);
        // bytes 24-27: StatSN
        bhs.set_raw_u32(24, stat_sn);
        // bytes 28-31: ExpCmdSN
        bhs.set_raw_u32(28, exp_cmd_sn);
        // bytes 32-35: MaxCmdSN
        bhs.set_raw_u32(32, max_cmd_sn);
        bhs
    }

    /// Build an R2T PDU (opcode 0x31).
    pub fn build_r2t(
        itt: u32,
        ttt: u32,
        stat_sn: u32,
        exp_cmd_sn: u32,
        max_cmd_sn: u32,
        r2t_sn: u32,
        buffer_offset: u32,
        desired_length: u32,
    ) -> (r: Self)
        ensures
            r.has_fields(Opcode::R2t, false, 0x80, 0, 0, itt),
            r.synced(),
            zero_between(r.raw@, 2, 5),
            be32(r.raw@, 20) == ttt,
            be32(r.raw@, 24) == stat_sn,
            be32(r.raw@, 28) == exp_cmd_sn,
            be32(r.raw@, 32) == max_cmd_sn,
            be32(r.raw@, 36) == r2t_sn,
            be32(r.raw@, 40) == buffer_offset,
            be32(r.raw@, 44) == desired_length,
    {
        let mut bhs = Self::new_zeroed();
        bhs.opcode = Opcode::R2t;
        bhs.immediate = false;
        bhs.flags = 0x80;  // F=1
        bhs.itt = itt;
        bhs.sync_raw_from_fields();
        // bytes 20-23: TTT
        bhs.set_raw_u32(20, ttt);
        // bytes 24-27: StatSN
        bhs.set_raw_u32(24, stat_sn);
        // bytes 28-31: ExpCmdSN
        bhs.set_raw_u32(28, exp_cmd_sn);
        // bytes 32-35: MaxCmdSN
        bhs.set_raw_u32(32, max_cmd_sn);
        // bytes 36-39: R2TSN
        bhs.set_raw_u32(36, r2t_sn);
        // bytes 40-43: Buffer Offset
        bhs.set_raw_u32(40, buffer_offset);
        // bytes 44-47: Desired Data Transfer Length
        bhs.set_raw_u32(44, desired_length);
        bhs
    }
}

/// The length field of a serialized header holds the low 24 bits of the length.
pub proof fn wire_length_field(b: Bhs)
    ensures
        be24(b.wire(), 5) == b.data_segment_length % 0x100_0000,
{
}

/// A serialized header is always read back, with the control fields that were
/// serialized (the length modulo its 24 bits) and the other bytes of `raw`.
pub proof fn serialized_header_parses(b: Bhs, p: Bhs)
    ensures
        b.wire().len() == 48,
        Opcode::of_code((b.wire()[0] % 0x40) as u8) == Some(b.opcode),
        p.is_parse_of(b.wire()) ==> {
            &&& p.opcode == b.opcode
            &&& p.immediate == b.immediate
            &&& p.flags == b.flags
            &&& p.data_segment_length == b.data_segment_length % 0x100_0000
            &&& p.lun == be64(b.raw@, 8)
            &&& p.itt == be32(b.raw@, 16)
            &&& p.raw@.subrange(8, 48) == b.raw@.subrange(8, 48)
            &&& p.control_synced()
        },
{
    opcode_round_trip(b.opcode);
    if p.is_parse_of(b.wire()) {
        assert forall|i: int| 8 <= i < 48 implies #[trigger] p.raw[i] == b.raw[i] by {
            assert(b.wire()[i] == b.raw[i]);
        }
        assert(p.raw@.subrange(8, 48) =~= b.raw@.subrange(8, 48));
    }
}

/// The three bytes of a length.
proof fn lemma_length_bytes(n: int, b5: u8, b6: u8, b7: u8)
    requires
        n == b5 * 0x1_0000 + b6 * 0x100 + b7,
    ensures
        (n / 0x1_0000) % 0x100 == b5,
        (n / 0x100) % 0x100 == b6,
        n % 0x100 == b7,
        n < 0x100_0000,
{
}

/// The first eight bytes on the wire, where they say what these bytes say.
proof fn lemma_wire_is(b: Bhs, buf: Seq<u8>)
    requires
        buf.len() == 48,
        buf[0] == first_byte(b.immediate, b.opcode),
        buf[1] == b.flags,
        buf[2] == b.raw[2],
        buf[3] == b.raw[3],
        buf[4] == 0,
        be24(buf, 5) == b.data_segment_length,
        b.raw@.subrange(8, 48) == buf.subrange(8, 48),
    ensures
        b.wire() == buf,
{
    lemma_length_bytes(b.data_segment_length as int, buf[5], buf[6], buf[7]);
    let w = b.wire();
    assert(w.len() == 48);
    assert forall|i: int| 0 <= i < 48 implies #[trigger] w[i] == buf[i] by {
        if i >= 8 {
            assert(w[i] == b.raw@.subrange(8, 48)[i - 8]);
            assert(buf.subrange(8, 48)[i - 8] == buf[i]);
        }
    }
    assert(w =~= buf);
}

/// A header whose `raw` mirrors its fields survives the wire unchanged.
pub proof fn synced_header_round_trip(b: Bhs, p: Bhs)
    requires
        b.synced(),
        b.raw[4] == 0,
        b.data_segment_length < 0x100_0000,
        p.is_parse_of(b.wire()),
    ensures
        p == b,
{
    serialized_header_parses(b, p);
    lemma_wire_is(b, b.raw@);
    assert(p.raw@ == b.raw@);
    assert(p.raw =~= b.raw);
}

/// Reading a header and writing it again gives back the same bytes, where the
/// reserved bit of byte 0 and the reserved byte 4 are clear.
pub proof fn parsed_header_serializes(b: Bhs, buf: Seq<u8>)
    requires
        buf.len() == 48,
        b.is_parse_of(buf),
        buf[0] < 0x80,
        buf[4] == 0,
    ensures
        b.wire() == buf,
{
    let code = (buf[0] % 0x40) as u8;
    assert(exists|op: Opcode| #[trigger] op.spec_code() == code);
    assert(b.opcode.spec_code() == code);
    lemma_wire_is(b, buf);
}

// ---------------------------------------------------------------------------
// Pdu
// ---------------------------------------------------------------------------

/// A complete iSCSI Protocol Data Unit: BHS + optional AHS + optional data.
#[derive(Debug, Clone)]
pub struct Pdu {
    pub bhs: Bhs,
    pub ahs: Option<Bytes>,
    pub data: Option<Bytes>,
}

// ---------------------------------------------------------------------------
// Helpers
// ---------------------------------------------------------------------------

/// Round `len` up to the nearest multiple of 4 (iSCSI padding).
pub fn pad_to_4(len: usize) -> (r: usize)
    requires
        len + 3 <= usize::MAX,
    ensures
        r % 4 == 0,
        len <= r < len + 4,
{
    (len + 3) / 4 * 4
}

/// The numbers of the opcodes: those that an initiator sends lie below 0x20, an
/// answer has the number of its request with 0x20 over it, and what a target
/// sends of its own accord comes behind them. No other number stands for an
/// opcode.
pub proof fn opcode_numbers(v: u8)
    ensures
        Opcode::of_code(v) == Some(Opcode::NopOut) <==> v == 0,
        Opcode::of_code(v) == Some(Opcode::ScsiCommand) <==> v == 1,
        Opcode::of_code(v) == Some(Opcode::TaskMgmt) <==> v == 2,
        Opcode::of_code(v) == Some(Opcode::LoginRequest) <==> v == 3,
        Opcode::of_code(v) == Some(Opcode::TextRequest) <==> v == 4,
        Opcode::of_code(v) == Some(Opcode::ScsiDataOut) <==> v == 5,
        Opcode::of_code(v) == Some(Opcode::LogoutRequest) <==> v == 6,
        Opcode::of_code(v) == Some(Opcode::SnackRequest) <==> v == 0x10,
        Opcode::of_code(v) == Some(Opcode::NopIn) <==> v == 0x20 + 0,
        Opcode::of_code(v) == Some(Opcode::ScsiResponse) <==> v == 0x20 + 1,
        Opcode::of_code(v) == Some(Opcode::TaskMgmtResp) <==> v == 0x20 + 2,
        Opcode::of_code(v) == Some(Opcode::LoginResponse) <==> v == 0x20 + 3,
        Opcode::of_code(v) == Some(Opcode::TextResponse) <==> v == 0x20 + 4,
        Opcode::of_code(v) == Some(Opcode::ScsiDataIn) <==> v == 0x20 + 5,
        Opcode::of_code(v) == Some(Opcode::LogoutResponse) <==> v == 0x20 + 6,
        Opcode::of_code(v) == Some(Opcode::R2t) <==> v == 0x31,
        Opcode::of_code(v) == Some(Opcode::AsyncMessage) <==> v == 0x32,
        Opcode::of_code(v) == Some(Opcode::Reject) <==> v == 0x3f,
{
    opcode_round_trip(Opcode::NopOut);
    opcode_round_trip(Opcode::ScsiCommand);
    opcode_round_trip(Opcode::TaskMgmt);
    opcode_round_trip(Opcode::LoginRequest);
    opcode_round_trip(Opcode::TextRequest);
    opcode_round_trip(Opcode::ScsiDataOut);
    opcode_round_trip(Opcode::LogoutRequest);
    opcode_round_trip(Opcode::SnackRequest);
    opcode_round_trip(Opcode::NopIn);
    opcode_round_trip(Opcode::ScsiResponse);
    opcode_round_trip(Opcode::TaskMgmtResp);
    opcode_round_trip(Opcode::LoginResponse);
    opcode_round_trip(Opcode::TextResponse);
    opcode_round_trip(Opcode::ScsiDataIn);
    opcode_round_trip(Opcode::LogoutResponse);
    opcode_round_trip(Opcode::R2t);
    opcode_round_trip(Opcode::AsyncMessage);
    opcode_round_trip(Opcode::Reject);
    if let Some(op) = Opcode::of_code(v) {
        assert(op.spec_code() == v);
    }
}

/// Where the fields of a header stand: on the wire the first byte is the
/// opcode with the immediate bit 0x40 over it, the flags follow, and the length
/// takes the bytes 5 to 7; what stands from byte 8 on is carried as it is. A
/// header that is read has the LUN in its bytes 8 to 15 and the task tag in its
/// bytes 16 to 19.
pub proof fn header_fields_have_their_bytes(b: Bhs, p: Bhs, buf: Seq<u8>, i: int)
    requires
        buf.len() == 48,
        p.is_parse_of(buf),
        8 <= i < 48,
    ensures
        ({
            let w = b.wire();
            &&& w.len() == 48
            &&& w[0] % 0x40 == b.opcode.spec_code()
            &&& w[0] == b.opcode.spec_code() + (if b.immediate {
                0x40int
            } else {
                0
            })
            &&& w[1] == b.flags
            &&& w[2] == b.raw[2]
            &&& w[3] == b.raw[3]
            &&& w[4] == 0
            &&& w[5] * 0x1_0000 + w[6] * 0x100 + w[7] == b.data_segment_length % 0x100_0000
            &&& w[i] == b.raw[i]
        }),
        p.opcode.spec_code() == buf[0] % 0x40,
        p.immediate <==> (buf[0] / 0x40) % 2 == 1,
        p.flags == buf[1],
        p.data_segment_length == buf[5] * 0x1_0000 + buf[6] * 0x100 + buf[7],
        p.lun == (buf[8] * 0x100_0000 + buf[9] * 0x1_0000 + buf[10] * 0x100 + buf[11])
            * 0x1_0000_0000 + (buf[12] * 0x100_0000 + buf[13] * 0x1_0000 + buf[14] * 0x100
            + buf[15]),
        p.itt == buf[16] * 0x100_0000 + buf[17] * 0x1_0000 + buf[18] * 0x100 + buf[19],
        p.raw[i] == buf[i],
{
    serialized_header_parses(b, b);
    opcode_round_trip(b.opcode);
    let code = (buf[0] % 0x40) as u8;
    assert(p.opcode.spec_code() == code);
    assert(b.wire()[i] == b.raw@.subrange(8, 48)[i - 8]);
}

} // verus!

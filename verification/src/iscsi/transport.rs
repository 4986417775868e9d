//! Framing: the bytes that carry a PDU on the wire, with the optional CRC32C
//! digests, and how they are read back.

use crate::buffer::{bytes_as_slice, opt_content};
use crate::iscsi::digest::{
    crc32c_of, data_digest, header_bytes, header_digest, verify_data_digest, verify_header_digest,
    DigestError,
};
use crate::iscsi::pdu::{
    pad_to_4, serialized_header_parses, wire_length_field, Bhs, Opcode, Pdu, PduError,
};
use crate::wire::{append_slice, be24, be32, be32_bytes};
use bytes::Bytes;
use vstd::prelude::*;

verus! {

// ---------------------------------------------------------------------------
// DigestConfig
// ---------------------------------------------------------------------------

/// Controls whether CRC32C digests are computed and verified on the wire.
#[derive(Debug, Clone, Copy, PartialEq, Eq, Structural)]
pub struct DigestConfig {
    pub header: bool,
    pub data: bool,
}

/// Why a PDU could not be read off the wire.
#[derive(Debug, Clone, Copy, PartialEq, Eq, Structural)]
pub enum TransportError {
    /// The stream ended inside the PDU.
    Truncated,
    /// A digest does not match.
    Digest(DigestError),
    /// The header could not be read.
    Pdu(PduError),
}

// ---------------------------------------------------------------------------
// Buffer sizes
// ---------------------------------------------------------------------------

/// 4 MB socket buffer for 10G tuning.
pub const SOCK_BUF_SIZE: usize = 4194304;

/// 1 MB userspace buffer for buffered readers and writers.
pub const IO_BUF_SIZE: usize = 1048576;

// ---------------------------------------------------------------------------
// The frame
// ---------------------------------------------------------------------------

/// The smallest multiple of four that is not below `n`.
pub open spec fn padded(n: int) -> int {
    (n + 3) / 4 * 4
}

/// `n` zero bytes.
pub open spec fn zeros(n: int) -> Seq<u8> {
    Seq::new(n as nat, |i: int| 0u8)
}

/// The header part of a frame: the BHS, the AHS where there is one, and the
/// digest of both.
pub open spec fn header_frame(pdu: Pdu, digests: DigestConfig) -> Seq<u8> {
    header_bytes(pdu.bhs.wire(), opt_content(pdu.ahs)) + if digests.header {
        be32_bytes(crc32c_of(header_bytes(pdu.bhs.wire(), opt_content(pdu.ahs))))
    } else {
        seq![]
    }
}

/// The data part of a frame: the data, padding to a multiple of four bytes,
/// and the digest of the unpadded data.
pub open spec fn data_frame(data: Option<Seq<u8>>, digests: DigestConfig) -> Seq<u8> {
    match data {
        Some(data) => data + zeros(padded(data.len() as int) - data.len()) + if digests.data {
            be32_bytes(crc32c_of(data))
        } else {
            seq![]
        },
        None => seq![],
    }
}

/// The bytes that carry `pdu` on the wire.
pub open spec fn frame(pdu: Pdu, digests: DigestConfig) -> Seq<u8> {
    header_frame(pdu, digests) + data_frame(opt_content(pdu.data), digests)
}

/// How many bytes of a frame come before the data.
pub open spec fn header_frame_len(digests: DigestConfig) -> int {
    if digests.header {
        52
    } else {
        48
    }
}

/// How many bytes of a frame with a data segment of `len` bytes follow the
/// header part.
pub open spec fn data_frame_len(len: int, digests: DigestConfig) -> int {
    if len == 0 {
        0
    } else {
        padded(len) + if digests.data {
            4int
        } else {
            0
        }
    }
}

/// What the header part at the front of `stream` holds: the 48 header bytes.
#[verifier::opaque]
pub open spec fn header_of_stream(stream: Seq<u8>, digests: DigestConfig) -> Result<
    Seq<u8>,
    TransportError,
> {
    let bhs = stream.take(48);
    let code = (bhs[0] % 0x40) as u8;
    if stream.len() < header_frame_len(digests) {
        Err(TransportError::Truncated)
    } else if digests.header && be32(stream, 48) != crc32c_of(bhs) {
        Err(
            TransportError::Digest(
                DigestError::HeaderMismatch {
                    expected: crc32c_of(bhs),
                    received: be32(stream, 48) as u32,
                },
            ),
        )
    } else if Opcode::of_code(code) is None {
        Err(TransportError::Pdu(PduError::UnknownOpcode(code)))
    } else {
        Ok(bhs)
    }
}

/// What the data part at the front of `stream` holds, where the header says
/// that there are `len` bytes of data.
#[verifier::opaque]
pub open spec fn data_of_stream(stream: Seq<u8>, len: int, digests: DigestConfig) -> Result<
    Option<Seq<u8>>,
    TransportError,
> {
    let data = stream.take(len);
    if len == 0 {
        Ok(None)
    } else if stream.len() < data_frame_len(len, digests) {
        Err(TransportError::Truncated)
    } else if digests.data && be32(stream, padded(len)) != crc32c_of(data) {
        Err(
            TransportError::Digest(
                DigestError::DataMismatch {
                    expected: crc32c_of(data),
                    received: be32(stream, padded(len)) as u32,
                },
            ),
        )
    } else {
        Ok(Some(data))
    }
}

/// What stands at the front of `stream`: the header bytes and the data of a
/// PDU, and the number of bytes that it takes up.
pub open spec fn pdu_of_stream(stream: Seq<u8>, digests: DigestConfig) -> Result<
    (Seq<u8>, Option<Seq<u8>>, int),
    TransportError,
> {
    match header_of_stream(stream, digests) {
        Err(e) => Err(e),
        Ok(bhs) => {
            let start = header_frame_len(digests);
            let len = be24(bhs, 5);
            match data_of_stream(stream.skip(start), len, digests) {
                Err(e) => Err(e),
                Ok(data) => Ok((bhs, data, start + data_frame_len(len, digests))),
            }
        },
    }
}

// ---------------------------------------------------------------------------
// TransportWriter
// ---------------------------------------------------------------------------

/// A connection to a target.
pub struct Transport;

impl Transport {
    /// The two halves of the framing of a new connection, with digests
    /// disabled.
    pub fn connect() -> (r: (TransportWriter, TransportReader))
        ensures
            r.0.digests == (DigestConfig { header: false, data: false }),
            r.1.digests == (DigestConfig { header: false, data: false }),
    {
        let digests = DigestConfig { header: false, data: false };
        (TransportWriter::new(digests), TransportReader::new(digests))
    }
}

/// The sending half of the framing.
#[derive(Debug, Clone, Copy)]
pub struct TransportWriter {
    pub digests: DigestConfig,
}

impl TransportWriter {
    pub fn new(digests: DigestConfig) -> (r: Self)
        ensures
            r.digests == digests,
    {
        Self { digests }
    }

    /// Enable header and/or data digests for subsequent writes.
    pub fn enable_digests(&mut self, header: bool, data: bool)
        ensures
            final(self).digests == (DigestConfig { header, data }),
    {
        self.digests = DigestConfig { header, data };
    }

    /// The bytes to write for a complete iSCSI PDU.
    pub fn send_pdu(&self, pdu: &Pdu) -> (r: Vec<u8>)
        requires
            opt_content(pdu.data) is Some ==> opt_content(pdu.data)->0.len() + 3 <= usize::MAX,
        ensures
            r@ == frame(*pdu, self.digests),
    {
        // 1. The BHS (48 bytes).
        let bhs_bytes: [u8; 48] = pdu.bhs.serialize();
        let mut out: Vec<u8> = Vec::new();
        append_slice(&mut out, &bhs_bytes);
        let ahs = match &pdu.ahs {
            Some(ahs) => Some(bytes_as_slice(ahs)),
            None => None,
        };
        if let Some(ahs) = ahs {
            append_slice(&mut out, ahs);
        }
        // 2. Optional header digest (CRC32C, 4 bytes big-endian).
        if self.digests.header {
            let hd: [u8; 4] = header_digest(&bhs_bytes, ahs);
            append_slice(&mut out, &hd);
        }
        assert(out@ =~= header_frame(*pdu, self.digests));
        // 3. Data segment + padding + optional data digest.
        if let Some(data) = &pdu.data {
            let data: &[u8] = bytes_as_slice(data);
            append_slice(&mut out, data);
            let pad_len: usize = pad_to_4(data.len()) - data.len();
            let padding: [u8; 3] = [0u8; 3];
            append_slice(&mut out, vstd::slice::slice_subrange(&padding, 0, pad_len));
            assert(padding@.subrange(0, pad_len as int) =~= zeros(pad_len as int));
            if self.digests.data {
                let dd: [u8; 4] = data_digest(data);
                append_slice(&mut out, &dd);
            }
        }
        assert(out@ =~= frame(*pdu, self.digests));
        out
    }
}

// ---------------------------------------------------------------------------
// TransportReader
// ---------------------------------------------------------------------------

/// The receiving half of the framing.
#[derive(Debug, Clone, Copy)]
pub struct TransportReader {
    pub digests: DigestConfig,
}

impl TransportReader {
    pub fn new(digests: DigestConfig) -> (r: Self)
        ensures
            r.digests == digests,
    {
        Self { digests }
    }

    /// Enable header and/or data digests for subsequent reads.
    pub fn enable_digests(&mut self, header: bool, data: bool)
        ensures
            final(self).digests == (DigestConfig { header, data }),
    {
        self.digests = DigestConfig { header, data };
    }

    /// How many bytes to read for the header part of the next PDU.
    pub fn header_len(&self) -> (r: usize)
        ensures
            r == header_frame_len(self.digests),
    {
        if self.digests.header {
            52
        } else {
            48
        }
    }

    /// Verify and parse the header part at the front of `stream`.
    pub fn read_header(&self, stream: &[u8]) -> (r: Result<Bhs, TransportError>)
        ensures
            match r {
                Ok(bhs) => header_of_stream(stream@, self.digests) == Ok::<_, TransportError>(
                    bhs.raw@,
                ) && bhs.is_parse_of(bhs.raw@),
                Err(e) => header_of_stream(stream@, self.digests) == Err::<Seq<u8>, _>(e),
            },
    {
        reveal(header_of_stream);
        if stream.len() < self.header_len() {
            return Err(TransportError::Truncated);
        }
        let mut bhs_buf: [u8; 48] = [0u8; 48];
        let mut i: usize = 0;
        while i < 48
            invariant
                i <= 48,
                stream.len() >= 48,
                forall|j: int| 0 <= j < i ==> #[trigger] bhs_buf[j] == stream[j],
            decreases 48 - i,
        {
            bhs_buf[i] = stream[i];
            i = i + 1;
        }
        assert(bhs_buf@ =~= stream@.take(48));
        if self.digests.header {
            let hd: [u8; 4] = [stream[48], stream[49], stream[50], stream[51]];
            match verify_header_digest(&bhs_buf, None, &hd) {
                Ok(_) => {},
                Err(e) => {
                    return Err(TransportError::Digest(e));
                },
            }
        }
        match Bhs::parse(&bhs_buf) {
            Ok(bhs) => Ok(bhs),
            Err(e) => Err(TransportError::Pdu(e)),
        }
    }

    /// How many bytes to read for the data part that follows this header.
    pub fn data_len(&self, bhs: &Bhs) -> (r: usize)
        requires
            bhs.data_segment_length < 0x100_0000,
        ensures
            r == data_frame_len(bhs.data_segment_length as int, self.digests),
    {
        if bhs.data_segment_length == 0 {
            0
        } else {
            pad_to_4(bhs.data_segment_length as usize) + (if self.digests.data {
                4
            } else {
                0
            })
        }
    }

    /// Verify the data part at the front of `stream` and put the PDU together.
    pub fn read_data(&self, bhs: Bhs, stream: &[u8]) -> (r: Result<Pdu, TransportError>)
        requires
            bhs.data_segment_length < 0x100_0000,
        ensures
            match r {
                Ok(pdu) => {
                    &&& data_of_stream(stream@, bhs.data_segment_length as int, self.digests)
                        == Ok::<_, TransportError>(opt_content(pdu.data))
                    &&& pdu.bhs == bhs
                    &&& pdu.ahs is None
                },
                Err(e) => data_of_stream(stream@, bhs.data_segment_length as int, self.digests)
                    == Err::<Option<Seq<u8>>, _>(e),
            },
    {
        reveal(data_of_stream);
        if bhs.data_segment_length == 0 {
            return Ok(Pdu { bhs, ahs: None, data: None });
        }
        if stream.len() < self.data_len(&bhs) {
            return Err(TransportError::Truncated);
        }
        let raw_len: usize = bhs.data_segment_length as usize;
        let padded_len: usize = pad_to_4(raw_len);
        let data: &[u8] = vstd::slice::slice_subrange(stream, 0, raw_len);
        assert(data@ =~= stream@.take(raw_len as int));
        // The data digest is over the unpadded data.
        if self.digests.data {
            let dd: [u8; 4] = [
                stream[padded_len],
                stream[padded_len + 1],
                stream[padded_len + 2],
                stream[padded_len + 3],
            ];
            match verify_data_digest(data, &dd) {
                Ok(_) => {},
                Err(e) => {
                    return Err(TransportError::Digest(e));
                },
            }
        }
        Ok(Pdu { bhs, ahs: None, data: Some(Bytes::copy_from_slice(data)) })
    }

    /// Read and reassemble a complete iSCSI PDU from the front of `stream`, and
    /// say how many bytes it took.
    pub fn recv_pdu(&self, stream: &[u8]) -> (r: Result<(Pdu, usize), TransportError>)
        ensures
            match r {
                Ok((pdu, n)) => {
                    &&& pdu_of_stream(stream@, self.digests) == Ok::<_, TransportError>(
                        (pdu.bhs.raw@, opt_content(pdu.data), n as int),
                    )
                    &&& pdu.bhs.is_parse_of(pdu.bhs.raw@)
                    &&& pdu.ahs is None
                },
                Err(e) => pdu_of_stream(stream@, self.digests) == Err::<
                    (Seq<u8>, Option<Seq<u8>>, int),
                    _,
                >(e),
            },
    {
        reveal(header_of_stream);
        let bhs = match self.read_header(stream) {
            Ok(bhs) => bhs,
            Err(e) => {
                return Err(e);
            },
        };
        let start: usize = self.header_len();
        let len: usize = self.data_len(&bhs);
        let rest: &[u8] = vstd::slice::slice_subrange(stream, start, stream.len());
        assert(rest@ =~= stream@.skip(start as int));
        match self.read_data(bhs, rest) {
            Ok(pdu) => Ok((pdu, start + len)),
            Err(e) => Err(e),
        }
    }
}

/// The header part of a frame is read back from the front of any stream.
proof fn lemma_header_read_back(pdu: Pdu, digests: DigestConfig, rest: Seq<u8>)
    requires
        pdu.ahs is None,
    ensures
        header_frame(pdu, digests).len() == header_frame_len(digests),
        header_of_stream(header_frame(pdu, digests) + rest, digests) == Ok::<_, TransportError>(
            pdu.bhs.wire(),
        ),
{
    reveal(header_of_stream);
    let bhs = pdu.bhs.wire();
    let stream = header_frame(pdu, digests) + rest;
    serialized_header_parses(pdu.bhs, pdu.bhs);
    assert(stream.take(48) =~= bhs);
    if digests.header {
        let digest = be32_bytes(crc32c_of(bhs));
        assert forall|i: int| 0 <= i < 4 implies stream[48 + i] == #[trigger] digest[i] by {}
        assert(be32(stream, 48) == be32(digest, 0));
    }
}

/// The data part of a frame is read back from the front of any stream.
proof fn lemma_data_read_back(data: Seq<u8>, digests: DigestConfig, rest: Seq<u8>)
    requires
        data.len() > 0,
    ensures
        data_frame(Some(data), digests).len() == data_frame_len(data.len() as int, digests),
        data_of_stream(data_frame(Some(data), digests) + rest, data.len() as int, digests) == Ok::<
            _,
            TransportError,
        >(Some(data)),
{
    reveal(data_of_stream);
    let len = data.len() as int;
    let stream = data_frame(Some(data), digests) + rest;
    assert(stream.take(len) =~= data);
    if digests.data {
        let digest = be32_bytes(crc32c_of(data));
        assert forall|i: int| 0 <= i < 4 implies stream[padded(len) + i] == #[trigger] digest[i] by {}
        assert(be32(stream, padded(len)) == be32(digest, 0));
    }
}

/// A header part and a data part that are read make a PDU that is read.
proof fn lemma_parts_make_pdu(
    head: Seq<u8>,
    tail: Seq<u8>,
    rest: Seq<u8>,
    digests: DigestConfig,
    bhs: Seq<u8>,
    data: Option<Seq<u8>>,
)
    requires
        head.len() == header_frame_len(digests),
        header_of_stream(head + (tail + rest), digests) == Ok::<_, TransportError>(bhs),
        data_of_stream(tail + rest, be24(bhs, 5), digests) == Ok::<_, TransportError>(data),
        tail.len() == data_frame_len(be24(bhs, 5), digests),
    ensures
        pdu_of_stream((head + tail) + rest, digests) == Ok::<_, TransportError>(
            (bhs, data, (head + tail).len() as int),
        ),
{
    assert((head + tail) + rest =~= head + (tail + rest));
    assert(((head + tail) + rest).skip(head.len() as int) =~= tail + rest);
}

/// What is sent is received: a frame is read back from the front of any stream
/// as the header and the data that were framed, and nothing after it is
/// touched. The length field has to say how much data there is, a data segment
/// that is there must not be empty, and there is no additional header segment,
/// which a reader does not expect.
pub proof fn frame_round_trip(pdu: Pdu, digests: DigestConfig, rest: Seq<u8>)
    requires
        match opt_content(pdu.data) {
            Some(data) => 0 < data.len() == pdu.bhs.data_segment_length,
            None => pdu.bhs.data_segment_length == 0,
        },
        pdu.bhs.data_segment_length < 0x100_0000,
        pdu.ahs is None,
    ensures
        pdu_of_stream(frame(pdu, digests) + rest, digests) == Ok::<_, TransportError>(
            (pdu.bhs.wire(), opt_content(pdu.data), frame(pdu, digests).len() as int),
        ),
{
    let data = opt_content(pdu.data);
    let tail = data_frame(data, digests);
    lemma_header_read_back(pdu, digests, tail + rest);
    wire_length_field(pdu.bhs);
    match data {
        Some(d) => {
            lemma_data_read_back(d, digests, rest);
        },
        None => {
            reveal(data_of_stream);
        },
    }
    lemma_parts_make_pdu(
        header_frame(pdu, digests),
        tail,
        rest,
        digests,
        pdu.bhs.wire(),
        data,
    );
}

/// Padding brings a length to the next multiple of four, and no further.
pub proof fn padding_is_least(n: int)
    requires
        0 <= n,
    ensures
        padded(n) % 4 == 0,
        n <= padded(n) < n + 4,
{
}

/// The header part of a frame: the header, the additional header segment, and
/// their digest where one is agreed on.
pub proof fn header_part_carries_its_parts(pdu: Pdu, digests: DigestConfig, ahs: Seq<u8>)
    requires
        ahs == (match opt_content(pdu.ahs) {
            Some(ahs) => ahs,
            None => seq![],
        }),
    ensures
        ({
            let h = header_frame(pdu, digests);
            let n = 48 + ahs.len() as int;
            &&& h.len() == n + (if digests.header {
                4int
            } else {
                0
            })
            &&& h.take(48) == pdu.bhs.wire()
            &&& h.subrange(48, n) == ahs
            &&& digests.header ==> be32(h, n) == crc32c_of(h.take(n))
        }),
{
    serialized_header_parses(pdu.bhs, pdu.bhs);
    let h = header_frame(pdu, digests);
    let header = header_bytes(pdu.bhs.wire(), opt_content(pdu.ahs));
    let n = 48 + ahs.len() as int;
    assert(header =~= pdu.bhs.wire() + ahs);
    assert(h.take(48) =~= pdu.bhs.wire());
    assert(h.subrange(48, n) =~= ahs);
    if digests.header {
        assert(h.take(n) =~= header);
        let digest = be32_bytes(crc32c_of(header));
        assert(h.subrange(n, n + 4) =~= digest);
        lemma_number_in(h, n, digest);
    }
}

/// The number whose bytes stand at `o`.
proof fn lemma_number_in(s: Seq<u8>, o: int, bytes: Seq<u8>)
    requires
        0 <= o,
        o + 4 <= s.len(),
        s.subrange(o, o + 4) == bytes,
    ensures
        be32(s, o) == be32(bytes, 0),
{
    assert(s.subrange(o, o + 4)[0] == s[o]);
    assert(s.subrange(o, o + 4)[1] == s[o + 1]);
    assert(s.subrange(o, o + 4)[2] == s[o + 2]);
    assert(s.subrange(o, o + 4)[3] == s[o + 3]);
}

/// The data part of a frame: the data, zero bytes up to a multiple of four, and
/// the digest of the data alone where one is agreed on. No data take no bytes.
pub proof fn data_part_carries_its_parts(data: Seq<u8>, digests: DigestConfig)
    ensures
        ({
            let d = data_frame(Some(data), digests);
            let n = data.len() as int;
            let pad = (4 - n % 4) % 4;
            &&& d.len() == n + pad + (if digests.data {
                4int
            } else {
                0
            })
            &&& d.take(n) == data
            &&& forall|i: int| n <= i < n + pad ==> #[trigger] d[i] == 0
            &&& digests.data ==> be32(d, n + pad) == crc32c_of(data)
        }),
        data_frame(None, digests).len() == 0,
{
    let d = data_frame(Some(data), digests);
    let n = data.len() as int;
    let pad = padded(n) - n;
    assert(pad == (4 - n % 4) % 4);
    assert(d.take(n) =~= data);
    if digests.data {
        let digest = be32_bytes(crc32c_of(data));
        assert(d.subrange(n + pad, n + pad + 4) =~= digest);
        lemma_number_in(d, n + pad, digest);
    }
}

/// A frame carries its PDU in the order of the wire: first the header part,
/// then the data part, with nothing between them, in front or behind.
pub proof fn frame_is_header_then_data(pdu: Pdu, digests: DigestConfig)
    ensures
        ({
            let f = frame(pdu, digests);
            let n = header_frame(pdu, digests).len() as int;
            &&& f.take(n) == header_frame(pdu, digests)
            &&& f.skip(n) == data_frame(opt_content(pdu.data), digests)
        }),
{
    let f = frame(pdu, digests);
    let n = header_frame(pdu, digests).len() as int;
    assert(f.take(n) =~= header_frame(pdu, digests));
    assert(f.skip(n) =~= data_frame(opt_content(pdu.data), digests));
}

/// What is received was sent so: a PDU is taken off a stream only where the
/// digests that were agreed on match, its data are the bytes behind the header
/// as far as the length field says, and no byte beyond the stream is counted.
pub proof fn received_pdu_stands_in_the_stream(
    stream: Seq<u8>,
    digests: DigestConfig,
    bhs: Seq<u8>,
    data: Option<Seq<u8>>,
    n: int,
)
    requires
        pdu_of_stream(stream, digests) == Ok::<_, TransportError>((bhs, data, n)),
    ensures
        ({
            let at = if digests.header {
                52int
            } else {
                48
            };
            let len = stream[5] * 0x1_0000 + stream[6] * 0x100 + stream[7];
            &&& bhs == stream.take(48)
            &&& Opcode::of_code((stream[0] % 0x40) as u8) is Some
            &&& digests.header ==> be32(stream, 48) == crc32c_of(stream.take(48))
            &&& at <= n <= stream.len()
            &&& n % 4 == 0
            &&& len == 0 ==> data is None && n == at
            &&& len > 0 ==> {
                let pad = (4 - len % 4) % 4;
                &&& data == Some(stream.subrange(at, at + len))
                &&& n == at + len + pad + (if digests.data {
                    4int
                } else {
                    0
                })
                &&& digests.data ==> be32(stream, at + len + pad) == crc32c_of(
                    stream.subrange(at, at + len),
                )
            }
        }),
{
    reveal(header_of_stream);
    reveal(data_of_stream);
    let at = header_frame_len(digests);
    let len = be24(bhs, 5);
    let rest = stream.skip(at);
    assert(bhs =~= stream.take(48));
    if len > 0 {
        assert(rest.take(len) =~= stream.subrange(at, at + len));
        if digests.data {
            let p = padded(len);
            assert forall|i: int| 0 <= i < 4 implies rest[p + i] == #[trigger] stream[at + p + i] by {}
            assert(be32(rest, p) == be32(stream, at + p));
        }
    }
}

/// A PDU is taken only when all of it is there: until then the stream is cut
/// short, and from then on what follows makes no difference.
pub proof fn pdu_is_taken_when_it_is_complete(
    stream: Seq<u8>,
    more: Seq<u8>,
    digests: DigestConfig,
    bhs: Seq<u8>,
    data: Option<Seq<u8>>,
    n: int,
    m: int,
)
    requires
        pdu_of_stream(stream, digests) == Ok::<_, TransportError>((bhs, data, n)),
        0 <= m < n,
    ensures
        pdu_of_stream(stream.take(m), digests) == Err::<(Seq<u8>, Option<Seq<u8>>, int), _>(
            TransportError::Truncated,
        ),
        pdu_of_stream(stream + more, digests) == pdu_of_stream(stream, digests),
{
    received_pdu_stands_in_the_stream(stream, digests, bhs, data, n);
    reveal(header_of_stream);
    reveal(data_of_stream);
    let at = header_frame_len(digests);
    let len = be24(bhs, 5);
    let all = stream + more;
    assert(all.take(48) =~= bhs);
    if digests.header {
        assert(be32(all, 48) == be32(stream, 48));
    }
    if len > 0 {
        let p = padded(len);
        assert(all.skip(at).take(len) =~= stream.skip(at).take(len));
        if digests.data {
            assert(be32(all.skip(at), p) == be32(stream.skip(at), p));
        }
    }
    let part = stream.take(m);
    if m >= at {
        assert(part.take(48) =~= bhs);
        if digests.header {
            assert(be32(part, 48) == be32(stream, 48));
        }
    }
}

} // verus!

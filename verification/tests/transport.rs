use bytes::Bytes;
use iscsi_lib::iscsi::digest::DigestError;
use iscsi_lib::iscsi::pdu::{Bhs, Opcode, Pdu};
use iscsi_lib::iscsi::transport::{
    DigestConfig, Transport, TransportError, TransportReader, TransportWriter,
};

/// A writer/reader pair with digests disabled.
fn loopback_pair() -> (TransportWriter, TransportReader) {
    let digest = DigestConfig {
        header: false,
        data: false,
    };
    (TransportWriter::new(digest), TransportReader::new(digest))
}

/// A writer/reader pair with both digests enabled.
fn loopback_pair_with_digests() -> (TransportWriter, TransportReader) {
    let digest = DigestConfig {
        header: true,
        data: true,
    };
    (TransportWriter::new(digest), TransportReader::new(digest))
}

#[test]
fn test_send_recv_pdu_no_data_no_digest() {
    let (writer, reader) = loopback_pair();

    // Build a NOP-Out with a recognizable ITT.
    let bhs = Bhs::build_nop_out(0xDEAD_BEEF, 0xFFFF_FFFF, 1, 0);
    let pdu = Pdu {
        bhs,
        ahs: None,
        data: None,
    };

    let wire = writer.send_pdu(&pdu);
    assert_eq!(wire.len(), 48);
    let (received, used) = reader.recv_pdu(&wire).unwrap();

    assert_eq!(used, 48);
    assert_eq!(received.bhs.opcode, Opcode::NopOut);
    assert_eq!(received.bhs.itt, 0xDEAD_BEEF);
    assert!(received.data.is_none());
}

#[test]
fn test_send_recv_pdu_with_data() {
    let (writer, reader) = loopback_pair();

    // 5 bytes of data -- requires 3 bytes of padding to reach 8.
    let data = Bytes::from_static(b"hello");
    let mut bhs = Bhs::build_nop_out(42, 0xFFFF_FFFF, 1, 0);
    bhs.data_segment_length = data.len() as u32;
    // Re-serialize so the wire bytes reflect the updated length.
    let wire = bhs.serialize();
    let bhs = Bhs::parse(&wire).unwrap();

    let pdu = Pdu {
        bhs,
        ahs: None,
        data: Some(data.clone()),
    };

    let wire = writer.send_pdu(&pdu);
    assert_eq!(wire.len(), 48 + 8);
    assert_eq!(&wire[48..], b"hello\0\0\0");
    let (received, used) = reader.recv_pdu(&wire).unwrap();

    assert_eq!(used, wire.len());
    assert_eq!(received.bhs.opcode, Opcode::NopOut);
    assert_eq!(received.bhs.itt, 42);
    assert_eq!(received.bhs.data_segment_length, 5);
    assert_eq!(received.data.as_deref(), Some(b"hello".as_slice()));
}

fn world_pdu() -> Pdu {
    let data = Bytes::from_static(b"world");
    let mut bhs = Bhs::build_nop_out(99, 0xFFFF_FFFF, 2, 1);
    bhs.data_segment_length = data.len() as u32;
    let wire = bhs.serialize();
    Pdu {
        bhs: Bhs::parse(&wire).unwrap(),
        ahs: None,
        data: Some(data),
    }
}

#[test]
fn test_send_recv_with_digests() {
    let (writer, reader) = loopback_pair_with_digests();

    // PDU with 5-byte data payload + both digests.
    let wire = writer.send_pdu(&world_pdu());
    assert_eq!(wire.len(), 48 + 4 + 8 + 4);
    let (received, used) = reader.recv_pdu(&wire).unwrap();

    assert_eq!(used, wire.len());
    assert_eq!(received.bhs.opcode, Opcode::NopOut);
    assert_eq!(received.bhs.itt, 99);
    assert_eq!(received.bhs.data_segment_length, 5);
    assert_eq!(received.data.as_deref(), Some(b"world".as_slice()));
}

#[test]
fn corrupted_header_is_refused() {
    let (writer, reader) = loopback_pair_with_digests();
    let mut wire = writer.send_pdu(&world_pdu());
    wire[16] ^= 1;
    assert!(matches!(
        reader.recv_pdu(&wire),
        Err(TransportError::Digest(DigestError::HeaderMismatch { .. }))
    ));
}

#[test]
fn corrupted_data_is_refused() {
    let (writer, reader) = loopback_pair_with_digests();
    let mut wire = writer.send_pdu(&world_pdu());
    wire[52] ^= 1;
    assert!(matches!(
        reader.recv_pdu(&wire),
        Err(TransportError::Digest(DigestError::DataMismatch { .. }))
    ));
}

#[test]
fn short_stream_is_truncated() {
    let (writer, reader) = loopback_pair_with_digests();
    let wire = writer.send_pdu(&world_pdu());
    for n in 0..wire.len() {
        assert!(matches!(
            reader.recv_pdu(&wire[..n]),
            Err(TransportError::Truncated)
        ));
    }
}

#[test]
fn unknown_opcode_is_refused() {
    let (_, reader) = loopback_pair();
    let mut wire = [0u8; 48];
    wire[0] = 0x07;
    assert!(matches!(
        reader.recv_pdu(&wire),
        Err(TransportError::Pdu(_))
    ));
}

#[test]
fn frames_follow_each_other() {
    let (writer, reader) = loopback_pair_with_digests();
    let mut wire = writer.send_pdu(&world_pdu());
    let first = wire.len();
    let nop = Pdu {
        bhs: Bhs::build_nop_out(7, 8, 9, 10),
        ahs: None,
        data: None,
    };
    wire.extend(writer.send_pdu(&nop));
    let (_, used) = reader.recv_pdu(&wire).unwrap();
    assert_eq!(used, first);
    let (second, used) = reader.recv_pdu(&wire[first..]).unwrap();
    assert_eq!(used, 52);
    assert_eq!(second.bhs.itt, 7);
}

#[test]
fn additional_header_stands_between_header_and_digest() {
    let digest = DigestConfig {
        header: true,
        data: false,
    };
    let writer = TransportWriter::new(digest);
    let pdu = Pdu {
        bhs: Bhs::build_nop_out(1, 2, 3, 4),
        ahs: Some(Bytes::from_static(&[1, 2, 3, 4])),
        data: None,
    };
    let wire = writer.send_pdu(&pdu);
    assert_eq!(wire.len(), 48 + 4 + 4);
    assert_eq!(&wire[48..52], &[1, 2, 3, 4]);
}

#[test]
fn connection_starts_without_digests() {
    let (mut writer, mut reader) = Transport::connect();
    assert!(!writer.digests.header && !writer.digests.data);
    assert!(!reader.digests.header && !reader.digests.data);
    writer.enable_digests(true, false);
    reader.enable_digests(true, false);
    assert_eq!(reader.header_len(), 52);
    let wire = writer.send_pdu(&world_pdu());
    assert_eq!(wire.len(), 52 + 8);
    assert!(reader.recv_pdu(&wire).is_ok());
}

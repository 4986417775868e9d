use iscsi_lib::iscsi::pipeline::CapacityStep;
use iscsi_lib::iscsi_backend::{BackendError, IscsiBackend};

fn backend() -> IscsiBackend {
    let mut b = IscsiBackend::connect(&vec![17, 18], 3).unwrap();
    b.set_geometry(1000, 512);
    b
}

#[test]
fn first_session_is_taken() {
    let b = backend();
    assert_eq!((b.tsih, b.cid, b.lun), (17, 0, 3));
    assert_eq!((b.block_size(), b.total_blocks(), b.total_bytes()), (512, 1000, 512_000));
    assert_eq!(IscsiBackend::connect(&vec![], 3), Err(BackendError::NoSession));
}

#[test]
fn capacity_commands() {
    let c10 = IscsiBackend::read_capacity10();
    assert_eq!(c10.len, 8);
    assert_eq!(c10.cdb, [0x25, 0, 0, 0, 0, 0, 0, 0, 0, 0, 0, 0, 0, 0, 0, 0]);
    let c16 = IscsiBackend::read_capacity16();
    assert_eq!(c16.len, 32);
    assert_eq!(
        c16.cdb,
        [0x9E, 0x10, 0, 0, 0, 0, 0, 0, 0, 0, 0, 0, 0, 32, 0, 0]
    );
}

#[test]
fn capacity_answers() {
    assert_eq!(
        IscsiBackend::capacity10_from(&[0, 0, 3, 0xFF, 0, 0, 2, 0, 9]),
        Ok((1023, 512))
    );
    assert_eq!(
        IscsiBackend::capacity10_from(&[0, 0, 3, 0xFF, 0, 0, 2]),
        Err(BackendError::ShortCapacity)
    );
    assert_eq!(
        IscsiBackend::capacity10_from(&[0, 0, 3, 0xFF, 0, 0, 0, 0]),
        Err(BackendError::ZeroBlockLength)
    );
    assert_eq!(
        IscsiBackend::capacity16_from(&[0, 0, 0, 1, 0, 0, 0, 0, 0, 0, 16, 0, 1, 2]),
        Ok((0x1_0000_0001, 4096))
    );
    assert_eq!(
        IscsiBackend::capacity16_from(&[0; 11]),
        Err(BackendError::ShortCapacity)
    );
    assert_eq!(
        IscsiBackend::capacity16_from(&[0; 12]),
        Err(BackendError::ZeroBlockLength)
    );
    assert_eq!(
        IscsiBackend::capacity16_from(&[0xFF; 12]),
        Err(BackendError::InvalidLastLba)
    );
}

#[test]
fn capacity_is_asked_for_twice() {
    let mut q = IscsiBackend::read_capacity();
    assert!(matches!(q.on_capacity10::<u8>(Err(1)), CapacityStep::Ask10));
    assert!(matches!(
        q.on_capacity10::<u8>(Ok((0xFFFF_FFFF, 512))),
        CapacityStep::Ask16
    ));
    assert!(matches!(
        q.on_capacity16::<u8>(Err(2)),
        CapacityStep::Done(0x1_0000_0000, 512)
    ));
    let mut q = IscsiBackend::read_capacity();
    assert!(matches!(q.on_capacity10::<u8>(Err(1)), CapacityStep::Ask10));
    assert!(matches!(q.on_capacity10::<u8>(Err(2)), CapacityStep::Failed(2)));
}

#[test]
fn large_requests_are_chunked() {
    let b = backend();
    let reads = b.scsi_read(100, 300);
    assert_eq!(reads.len(), 3);
    assert_eq!(reads[0].len, 128 * 512);
    assert_eq!(reads[2].len, 44 * 512);
    assert_eq!(&reads[1].cdb[..10], &[0x28, 0, 0, 0, 0, 228, 0, 0, 128, 0]);
    assert!(b.scsi_read(0, 0).is_empty());
    let data: Vec<u8> = (0..130 * 512).map(|i| (i / 512) as u8).collect();
    let writes = b.scsi_write(5, &data);
    assert_eq!(writes.len(), 2);
    assert_eq!(&writes[1].cdb[..10], &[0x2A, 0, 0, 0, 0, 133, 0, 0, 2, 0]);
    assert_eq!(writes[1].data.len(), 1024);
    assert_eq!(writes[1].data[0], 128);
    assert!(b.scsi_write(5, &vec![]).is_empty());
}

#[test]
fn large_addresses_take_long_commands() {
    let b = backend();
    let lba = 0x1_0000_0002;
    let read = b.scsi_read_single(lba, 2);
    assert_eq!(
        read.cdb,
        [0x88, 0, 0, 0, 0, 1, 0, 0, 0, 2, 0, 0, 0, 2, 0, 0]
    );
    let write = b.scsi_write_single(lba, vec![0; 512]);
    assert_eq!(
        write.cdb,
        [0x8A, 0, 0, 0, 0, 1, 0, 0, 0, 2, 0, 0, 0, 1, 0, 0]
    );
}

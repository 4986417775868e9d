use bytes::Bytes;
use iscsi_lib::iscsi::command::{ScsiStatus, SenseKey};
use iscsi_lib::iscsi::login::NegotiatedParams;
use iscsi_lib::iscsi::pipeline::{
    check_scsi_status, compute_read_chunks, compute_write_chunks, max_read_blocks_for,
    CapacityQuery, CapacityStep, Pipeline, PipelineError, ReadStep, CAPACITY_ATTEMPTS,
};
use iscsi_lib::iscsi::session::PduResponse;

#[test]
fn test_chunk_read_small() {
    // 10 blocks with max 256 should produce a single chunk.
    let chunks = compute_read_chunks(0, 10, 256);
    assert_eq!(chunks.len(), 1);
    assert_eq!(chunks[0], (0, 10));
}

#[test]
fn test_chunk_read_large() {
    // 1000 blocks with max 256 should produce 4 chunks:
    // 256 + 256 + 256 + 232 = 1000
    let chunks = compute_read_chunks(0, 1000, 256);
    assert_eq!(chunks.len(), 4);
    assert_eq!(chunks[0], (0, 256));
    assert_eq!(chunks[1], (256, 256));
    assert_eq!(chunks[2], (512, 256));
    assert_eq!(chunks[3], (768, 232));

    // Total block count should match.
    let total: u32 = chunks.iter().map(|(_, c)| c).sum();
    assert_eq!(total, 1000);
}

#[test]
fn test_chunk_write() {
    // 500 blocks with max 256 should produce 2 chunks:
    // 256 + 244 = 500
    let chunks = compute_write_chunks(100, 500, 4096, 256);
    assert_eq!(chunks.len(), 2);
    assert_eq!(chunks[0], (100, 256));
    assert_eq!(chunks[1], (356, 244));

    let total: u32 = chunks.iter().map(|(_, c)| c).sum();
    assert_eq!(total, 500);
}

#[test]
fn test_max_read_blocks() {
    // 1 MiB burst with 4096 byte blocks = 256 blocks.
    assert_eq!(max_read_blocks_for(1_048_576, 4096), 256);
    // 1 MiB burst with 512 byte blocks = 2048 blocks.
    assert_eq!(max_read_blocks_for(1_048_576, 512), 2048);
}

#[test]
fn test_max_read_blocks_zero_block_size() {
    // Should not panic, returns 0.
    assert_eq!(max_read_blocks_for(1_048_576, 0), 0);
}

#[test]
fn test_chunk_read_exact_multiple() {
    // 512 blocks with max 256 = exactly 2 chunks.
    let chunks = compute_read_chunks(0, 512, 256);
    assert_eq!(chunks.len(), 2);
    assert_eq!(chunks[0], (0, 256));
    assert_eq!(chunks[1], (256, 256));
}

#[test]
fn test_chunk_read_zero() {
    // 0 blocks should produce no chunks.
    let chunks = compute_read_chunks(0, 0, 256);
    assert!(chunks.is_empty());
}

#[test]
fn test_chunk_read_nonzero_start_lba() {
    // Verify that start LBA is carried through correctly.
    let chunks = compute_read_chunks(1000, 600, 256);
    assert_eq!(chunks.len(), 3);
    assert_eq!(chunks[0], (1000, 256));
    assert_eq!(chunks[1], (1256, 256));
    assert_eq!(chunks[2], (1512, 88));
}

fn pipeline() -> Pipeline {
    let mut negotiated = NegotiatedParams::defaults_10g();
    negotiated.max_burst_length = 4096;
    negotiated.first_burst_length = 1024;
    let mut p = Pipeline::new(3, negotiated);
    p.set_geometry(512, 1000);
    p
}

fn response(status: ScsiStatus, data: Option<&[u8]>, sense: Option<&[u8]>) -> PduResponse {
    PduResponse {
        status,
        data: data.map(Bytes::copy_from_slice),
        sense: sense.map(Bytes::copy_from_slice),
    }
}

fn sense(key: u8) -> Vec<u8> {
    let mut sense = vec![0u8; 20];
    sense[2] = 0x70;
    sense[4] = key;
    sense[14] = 0x29;
    sense
}

#[test]
fn geometry_gives_the_sizes() {
    let p = pipeline();
    assert_eq!((p.block_size(), p.total_blocks()), (512, 1000));
    assert_eq!(p.total_bytes(), 512_000);
    assert_eq!((p.max_read_blocks(), p.max_write_blocks()), (8, 8));
}

#[test]
fn reads_are_split_by_the_burst() {
    let requests = pipeline().scsi_read(100, 20);
    assert_eq!(requests.len(), 3);
    assert_eq!(requests[2].edtl, 4 * 512);
    assert_eq!(&requests[1].cdb[..10], &[0x28, 0, 0, 0, 0, 108, 0, 0, 8, 0]);
    assert!(requests.iter().all(|r| r.read && !r.write && r.lun == 3));
    assert!(pipeline().scsi_read(100, 0).is_empty());
}

#[test]
fn writes_carry_their_first_burst() {
    let data: Vec<u8> = (0..10 * 512).map(|i| (i / 512) as u8).collect();
    let requests = pipeline().scsi_write(50, &Bytes::from(data));
    assert_eq!(requests.len(), 2);
    assert_eq!(requests[0].immediate_data.as_ref().unwrap().len(), 1024);
    assert_eq!(requests[0].write_data.as_ref().unwrap().len(), 4096);
    assert_eq!(requests[1].write_data.as_ref().unwrap()[0], 8);
    assert_eq!(requests[1].edtl, 1024);
    assert_eq!(requests[1].cdb[5], 58);
    let mut p = pipeline();
    p.negotiated.immediate_data = false;
    let requests = p.scsi_write(50, &Bytes::from(vec![1u8; 512]));
    assert_eq!(requests.len(), 1);
    assert!(requests[0].immediate_data.is_none());
}

#[test]
fn chunks_join_to_the_read() {
    let parts = vec![Bytes::from_static(&[1, 2]), Bytes::from_static(&[3])];
    assert_eq!(&Pipeline::join_chunks(&parts)[..], &[1, 2, 3]);
    assert!(Pipeline::join_chunks(&vec![]).is_empty());
}

#[test]
fn unit_attention_is_retried_once() {
    let attention = || response(ScsiStatus::CheckCondition, None, Some(&sense(6)));
    assert!(matches!(
        Pipeline::scsi_read_step(attention(), false),
        ReadStep::Retry
    ));
    assert!(matches!(
        Pipeline::scsi_read_step(attention(), true),
        ReadStep::Failed(PipelineError::CheckCondition(_))
    ));
    match Pipeline::scsi_read_step(response(ScsiStatus::Good, Some(&[9]), None), false) {
        ReadStep::Done(data) => assert_eq!(&data[..], &[9]),
        _ => panic!("the read is complete"),
    }
}

#[test]
fn statuses_become_errors() {
    let check = |r: PduResponse| check_scsi_status(&r);
    assert_eq!(check(response(ScsiStatus::Good, None, None)), Ok(()));
    assert_eq!(
        check(response(ScsiStatus::Busy, None, None)),
        Err(PipelineError::Status(ScsiStatus::Busy))
    );
    assert_eq!(
        check(response(ScsiStatus::CheckCondition, None, None)),
        Err(PipelineError::CheckConditionNoSense)
    );
    match check(response(ScsiStatus::CheckCondition, None, Some(&sense(3)))) {
        Err(PipelineError::CheckCondition(s)) => {
            assert_eq!(s.sense_key, SenseKey::MediumError);
            assert_eq!(s.asc, 0x29);
        }
        _ => panic!("the sense data can be read"),
    }
}

#[test]
fn capacity_answers_are_read() {
    let c10 = [0, 0, 3, 0xFF, 0, 0, 2, 0];
    assert_eq!(
        Pipeline::capacity10_from(&response(ScsiStatus::Good, Some(&c10), None)),
        Ok((1023, 512))
    );
    assert_eq!(
        Pipeline::capacity10_from(&response(ScsiStatus::Good, None, None)),
        Err(PipelineError::NoData)
    );
    assert!(matches!(
        Pipeline::capacity10_from(&response(ScsiStatus::Good, Some(&[0; 3]), None)),
        Err(PipelineError::Capacity(_))
    ));
    let c16 = [0, 0, 0, 1, 0, 0, 0, 0, 0, 0, 16, 0];
    assert_eq!(
        Pipeline::capacity16_from(&response(ScsiStatus::Good, Some(&c16), None)),
        Ok((0x1_0000_0001, 4096))
    );
    assert_eq!(
        Pipeline::capacity16_from(&response(ScsiStatus::Good, Some(&[0xFF; 12]), None)),
        Err(PipelineError::MaxLbaOverflow)
    );
    let p = pipeline();
    assert_eq!(p.read_capacity10().cdb[0], 0x25);
    assert_eq!(p.read_capacity16().cdb[0], 0x9E);
    assert_eq!(p.scsi_synchronize_cache().cdb[0], 0x35);
}

#[test]
fn large_device_is_asked_again() {
    let mut q = CapacityQuery::new(CAPACITY_ATTEMPTS);
    assert!(matches!(
        q.on_capacity10::<u8>(Ok((0xFFFF_FFFF, 512))),
        CapacityStep::Ask16
    ));
    assert!(matches!(
        q.on_capacity16::<u8>(Ok((1 << 33, 512))),
        CapacityStep::Done(0x2_0000_0000, 512)
    ));
    let mut q = CapacityQuery::new(CAPACITY_ATTEMPTS);
    assert!(matches!(
        q.on_capacity10::<u8>(Ok((99, 512))),
        CapacityStep::Done(100, 512)
    ));
}

#[test]
fn less_than_a_block_is_not_written() {
    let mut params = NegotiatedParams::defaults_10g();
    params.max_burst_length = 256;
    let mut pipeline = Pipeline::new(0, params);
    pipeline.set_geometry(512, 8);
    // No block fits into a burst, and none is needed.
    assert_eq!(pipeline.max_write_blocks(), 0);
    assert!(pipeline.scsi_write(0, &Bytes::from(vec![1; 511])).is_empty());
}

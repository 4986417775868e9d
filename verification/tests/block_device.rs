use iscsi_lib::block::device::BlockError;
use iscsi_lib::block_device::BlockDevice;

#[test]
fn reads_are_cut_out_of_their_blocks() {
    let dev = BlockDevice::new(4, 10);
    assert_eq!((dev.block_size(), dev.total_bytes()), (4, 10));
    let span = dev.read_bytes(3, 100).unwrap();
    assert_eq!(
        (span.start_lba, span.block_count, span.skip, span.len),
        (0, 3, 3, 7)
    );
    let blocks: Vec<u8> = (0..12).collect();
    assert_eq!(
        BlockDevice::finish_read(&span, &blocks),
        Ok(vec![3, 4, 5, 6, 7, 8, 9])
    );
    assert_eq!(
        BlockDevice::finish_read(&span, &vec![0; 9]),
        Err(BlockError::ShortRead)
    );
    assert!(dev.read_bytes(10, 1).is_none());
    assert!(dev.read_bytes(0, 0).is_none());
}

#[test]
fn unaligned_writes_keep_what_is_around_them() {
    let dev = BlockDevice::new(4, 10);
    let span = dev.write_bytes(3, 2).unwrap();
    assert!(!dev.is_aligned(&span));
    let existing: Vec<u8> = (0..8).collect();
    assert_eq!(
        BlockDevice::modify(&span, &[90, 91], &existing),
        Ok(vec![0, 1, 2, 90, 91, 5, 6, 7])
    );
    assert_eq!(
        BlockDevice::modify(&span, &[90, 91], &vec![0; 4]),
        Err(BlockError::ModifyShort)
    );
    let span = dev.write_bytes(4, 4).unwrap();
    assert!(dev.is_aligned(&span));
    assert!(dev.write_bytes(10, 4).is_none());
}

#[test]
fn misses_are_read_in_runs() {
    let hit = |b: u8| Some(vec![b; 2]);
    let found = vec![None, None, hit(2), None, hit(4), hit(5), None];
    assert_eq!(BlockDevice::miss_runs(&found), vec![(0, 2), (3, 1), (6, 1)]);
    let fetched = vec![vec![0, 0, 1, 1], vec![3, 3], vec![6, 6]];
    assert_eq!(
        BlockDevice::read_blocks_with_cache(&found, &fetched),
        vec![0, 0, 1, 1, 2, 2, 3, 3, 4, 4, 5, 5, 6, 6]
    );
    assert!(BlockDevice::miss_runs(&vec![hit(1)]).is_empty());
    assert!(BlockDevice::read_blocks_with_cache(&vec![], &vec![]).is_empty());
}

#[test]
fn complete_blocks_go_into_the_cache() {
    let dev = BlockDevice::new(2, 100);
    assert_eq!(
        dev.blocks_to_cache(7, 3, &vec![1, 2, 3, 4, 5]),
        vec![(7, vec![1, 2]), (8, vec![3, 4])]
    );
    assert_eq!(
        dev.blocks_to_cache(7, 1, &vec![1, 2, 3, 4]),
        vec![(7, vec![1, 2])]
    );
}

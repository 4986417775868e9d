use bytes::Bytes;
use iscsi_lib::block::device::{
    BlockError, FlushStep, ReadPlan, WorkerStep, WriteOutcome, WritePlan,
};
use iscsi_lib::block::{
    compute_alignment, BlockDevice, BlockDeviceWorker, BlockRequest, DirtyMap,
};

#[test]
fn test_dirty_map_insert_and_drain() {
    let mut dm = DirtyMap::new();
    dm.insert(10, 2, Bytes::from(vec![0xAA; 8192]));
    dm.insert(5, 1, Bytes::from(vec![0xBB; 4096]));

    assert_eq!(dm.total_bytes, 8192 + 4096);

    let drained = dm.drain_sorted();
    assert_eq!(drained.len(), 2);
    // Sorted by LBA: 5 comes before 10.
    assert_eq!(drained[0].0, 5);
    assert_eq!(drained[1].0, 10);
    assert_eq!(dm.total_bytes, 0);
    assert!(dm.is_empty());
}

#[test]
fn test_dirty_map_read_overlap_full() {
    let mut dm = DirtyMap::new();
    let block_size = 512u32;
    // Insert 4 blocks starting at LBA 10.
    let data = Bytes::from(vec![0xCC; 4 * 512]);
    dm.insert(10, 4, data.clone());

    // Read LBA 11..13 (2 blocks), fully within the dirty entry.
    let result = dm.read_overlap(11, 2, block_size);
    assert!(result.is_some());
    let result = result.unwrap();
    assert_eq!(result.len(), 2 * 512);
    // Should be bytes from offset 512..1536 of the original data.
    assert_eq!(&result[..], &data[512..512 + 2 * 512]);
}

#[test]
fn test_dirty_map_read_no_overlap() {
    let mut dm = DirtyMap::new();
    let block_size = 512u32;
    dm.insert(0, 2, Bytes::from(vec![0xDD; 1024]));

    // Read at LBA 100 -- no overlap.
    let result = dm.read_overlap(100, 1, block_size);
    assert!(result.is_none());
}

#[test]
fn test_block_device_alignment() {
    // offset=100, size=200, bs=4096 => lba=0, count=1, skip=100
    let (lba, count, skip) = compute_alignment(100, 200, 4096);
    assert_eq!(lba, 0);
    assert_eq!(count, 1);
    assert_eq!(skip, 100);
}

#[test]
fn test_block_device_alignment_spanning() {
    // offset=4000, size=200, bs=4096 => lba=0, count=2, skip=4000
    let (lba, count, skip) = compute_alignment(4000, 200, 4096);
    assert_eq!(lba, 0);
    assert_eq!(count, 2);
    assert_eq!(skip, 4000);
}

#[test]
fn later_write_wins_where_writes_overlap() {
    let mut dm = DirtyMap::new();
    dm.insert(10, 4, Bytes::from(vec![1; 4 * 512]));
    dm.insert(11, 2, Bytes::from(vec![2; 2 * 512]));
    assert_eq!(dm.total_bytes, 4 * 512);
    let data = dm.read_overlap(10, 4, 512).unwrap();
    assert!(data[..512].iter().all(|&b| b == 1));
    assert!(data[512..1536].iter().all(|&b| b == 2));
    assert!(data[1536..].iter().all(|&b| b == 1));
}

#[test]
fn adjacent_writes_are_merged() {
    let mut dm = DirtyMap::new();
    dm.insert(7, 1, Bytes::from(vec![3; 512]));
    dm.insert(5, 2, Bytes::from(vec![1; 1024]));
    dm.insert(9, 1, Bytes::from(vec![4; 512]));
    let writes = dm.drain_sorted();
    assert_eq!(writes.len(), 2);
    assert_eq!(writes[0].0, 5);
    assert_eq!(writes[0].1.len(), 3 * 512);
    assert_eq!(writes[0].1[1024], 3);
    assert_eq!(writes[1].0, 9);
}

#[test]
fn read_across_two_writes_is_served() {
    let mut dm = DirtyMap::new();
    dm.insert(0, 1, Bytes::from(vec![1; 512]));
    dm.insert(1, 1, Bytes::from(vec![2; 512]));
    let data = dm.read_overlap(0, 2, 512).unwrap();
    assert_eq!((data[0], data[512]), (1, 2));
    assert!(dm.read_overlap(0, 3, 512).is_none());
    assert_eq!(
        dm.overlay(0, 512, &vec![9; 3 * 512])[1023..1025],
        [2, 9]
    );
}

/// A disk, and the worker of its block device.
struct Disk {
    data: Vec<u8>,
    worker: BlockDeviceWorker,
    synced: bool,
}

impl Disk {
    fn new(blocks: usize, coalesce_max_bytes: usize, sync_writes: bool) -> Self {
        let data: Vec<u8> = (0..blocks * 512).map(|i| (i % 251) as u8).collect();
        let device = BlockDevice::new(512, data.len() as u64);
        assert_eq!(device.block_size(), 512);
        assert_eq!(device.total_bytes(), data.len() as u64);
        Disk {
            data,
            worker: device.worker(coalesce_max_bytes, sync_writes),
            synced: false,
        }
    }

    fn blocks(&self, lba: u64, count: u32) -> Bytes {
        let start = lba as usize * 512;
        Bytes::copy_from_slice(&self.data[start..start + count as usize * 512])
    }

    fn read(&mut self, offset: u64, size: u32) -> Vec<u8> {
        match self.worker.on_request(Some(BlockRequest::Read { offset, size })) {
            WorkerStep::Read(ReadPlan::Done(data)) => data.to_vec(),
            WorkerStep::Read(ReadPlan::Fetch(span)) => {
                let fetched = self.blocks(span.start_lba, span.block_count);
                self.worker.finish_read(&span, &fetched).unwrap().to_vec()
            }
            _ => panic!("a read is answered with a read"),
        }
    }

    fn write(&mut self, offset: u64, data: &[u8]) -> u32 {
        let request = BlockRequest::Write {
            offset,
            data: Bytes::copy_from_slice(data),
        };
        let stored = match self.worker.on_request(Some(request)) {
            WorkerStep::Write(WritePlan::Nothing) => return 0,
            WorkerStep::Write(WritePlan::Store { span, data }) => {
                self.worker.store_aligned(&span, data)
            }
            WorkerStep::Write(WritePlan::Modify { span, data }) => {
                let existing = self.blocks(span.start_lba, span.block_count);
                self.worker
                    .store_modified(&span, &data, &existing)
                    .unwrap()
            }
            _ => panic!("a write is answered with a write"),
        };
        if stored.flush {
            let step = self.worker.flush_dirty();
            self.flush(step);
        }
        stored.written
    }

    fn flush(&mut self, step: FlushStep) {
        let writes = match step {
            FlushStep::Done => return,
            FlushStep::Write(writes) => writes,
            _ => panic!("a flush begins with its writes"),
        };
        let mut outcomes = Vec::new();
        for (lba, data) in writes {
            let start = lba as usize * 512;
            self.data[start..start + data.len()].copy_from_slice(&data);
            outcomes.push(WriteOutcome::Written);
        }
        assert!(matches!(
            BlockDeviceWorker::after_flush_writes(&outcomes),
            FlushStep::Synchronize
        ));
        self.synced = true;
        assert!(matches!(
            BlockDeviceWorker::after_synchronize(true),
            FlushStep::Done
        ));
    }
}

#[test]
fn reads_see_writes_before_and_after_a_flush() {
    let mut disk = Disk::new(16, 1 << 20, false);
    let mut model = disk.data.clone();
    let before = disk.data.clone();
    for (offset, len, byte) in [(0u64, 512, 1u8), (700, 900, 2), (1024, 512, 3), (8000, 500, 4)] {
        let end = (offset as usize + len).min(model.len());
        let written = disk.write(offset, &vec![byte; len]);
        assert_eq!(written as usize, end - offset as usize);
        model[offset as usize..end].fill(byte);
        for (at, size) in [(0u64, 8192u32), (600, 700), (1023, 2), (7999, 4000)] {
            let stop = (at as usize + size as usize).min(model.len());
            assert_eq!(disk.read(at, size), model[at as usize..stop].to_vec());
        }
    }
    // Nothing has reached the disk yet.
    assert_eq!(disk.data, before);
    let step = match disk.worker.on_request(Some(BlockRequest::Flush)) {
        WorkerStep::Flush(step) => step,
        _ => panic!("a flush is answered with a flush"),
    };
    disk.flush(step);
    assert_eq!(disk.data, model);
    assert!(disk.synced);
    assert_eq!(disk.read(0, 8192), model);
}

#[test]
fn requests_are_cut_off_at_the_end() {
    let mut disk = Disk::new(2, 1 << 20, false);
    assert_eq!(disk.read(1000, 100).len(), 24);
    assert!(disk.read(1024, 1).is_empty());
    assert!(disk.read(0, 0).is_empty());
    assert_eq!(disk.write(1020, &[7; 10]), 4);
    assert_eq!(disk.write(1024, &[7; 10]), 0);
    assert_eq!(disk.write(0, &[]), 0);
    assert_eq!(disk.read(1019, 5), vec![(1019 % 251) as u8, 7, 7, 7, 7]);
}

#[test]
fn dirty_data_is_flushed_at_the_threshold() {
    let mut disk = Disk::new(8, 1024, false);
    disk.write(0, &[1; 512]);
    assert!(!disk.synced);
    disk.write(512, &[2; 512]);
    assert!(disk.synced);
    assert_eq!(disk.data[511..513], [1, 2]);
}

#[test]
fn sync_writes_are_flushed_at_once() {
    let mut disk = Disk::new(8, 1 << 20, true);
    disk.write(100, &[9; 3]);
    assert!(disk.synced);
    assert_eq!(disk.data[100..103], [9, 9, 9]);
    disk.synced = false;
    let step = disk
        .worker
        .on_request(Some(BlockRequest::SetSyncWrites { enabled: false }));
    assert!(matches!(step, WorkerStep::Acknowledge));
    disk.write(100, &[8; 3]);
    assert!(!disk.synced);
}

#[test]
fn timer_and_end_flush_what_is_dirty() {
    let mut disk = Disk::new(8, 1 << 20, false);
    assert!(disk.worker.on_timer().is_none());
    disk.write(0, &[5; 512]);
    let step = disk.worker.on_timer().expect("something is dirty");
    disk.flush(step);
    assert_eq!(disk.data[0], 5);
    disk.write(512, &[6; 512]);
    match disk.worker.on_request(None) {
        WorkerStep::FlushAndStop(step) => disk.flush(step),
        _ => panic!("the end is answered with a flush"),
    }
    assert_eq!(disk.data[512], 6);
}

#[test]
fn empty_flush_is_done_at_once() {
    let mut disk = Disk::new(8, 1 << 20, false);
    assert!(matches!(disk.worker.flush_dirty(), FlushStep::Done));
}

#[test]
fn first_failure_of_a_flush_decides() {
    let failed = |outcomes: Vec<WriteOutcome>| match BlockDeviceWorker::after_flush_writes(&outcomes)
    {
        FlushStep::Failed(e) => e.message(),
        _ => "",
    };
    assert_eq!(
        failed(vec![
            WriteOutcome::Written,
            WriteOutcome::Failed,
            WriteOutcome::Panicked
        ]),
        "SCSI write failed during flush"
    );
    assert_eq!(failed(vec![WriteOutcome::Panicked]), "flush task panicked");
    match BlockDeviceWorker::after_synchronize(false) {
        FlushStep::Failed(e) => assert_eq!(e.message(), "SYNCHRONIZE CACHE failed"),
        _ => panic!("it failed"),
    }
}

#[test]
fn short_answers_are_errors() {
    let mut disk = Disk::new(8, 1 << 20, false);
    let span = match disk.worker.handle_read(10, 600) {
        ReadPlan::Fetch(span) => span,
        _ => panic!("nothing is dirty"),
    };
    assert_eq!(
        (span.start_lba, span.block_count, span.skip, span.len),
        (0, 2, 10, 600)
    );
    let short = Bytes::from(vec![0; 609]);
    assert_eq!(
        disk.worker.finish_read(&span, &short).err(),
        Some(BlockError::ShortRead)
    );
    assert_eq!(
        BlockError::ShortRead.message(),
        "SCSI read returned less data than expected"
    );
    let (span, data) = match disk.worker.handle_write(10, &Bytes::from_static(&[1, 2])) {
        WritePlan::Modify { span, data } => (span, data),
        _ => panic!("it is unaligned"),
    };
    let short = Bytes::from(vec![0; 11]);
    assert_eq!(
        disk.worker.store_modified(&span, &data, &short).err(),
        Some(BlockError::ModifyShort)
    );
    assert!(disk.worker.dirty.is_empty());
}

#[test]
fn blocks_may_be_modified_as_far_as_they_came() {
    let mut disk = Disk::new(8, 1 << 20, false);
    disk.write(1024, &[3; 512]);
    let (span, data) = match disk.worker.handle_write(600, &Bytes::from_static(&[1, 2])) {
        WritePlan::Modify { span, data } => (span, data),
        _ => panic!("it is unaligned"),
    };
    // The block comes short, but holds all that is to be changed.
    let short = Bytes::from(vec![7; 100]);
    let stored = disk.worker.store_modified(&span, &data, &short).unwrap();
    assert_eq!(stored.written, 2);
    assert_eq!(disk.worker.dirty.total_bytes, 612);
    assert_eq!(disk.read(600, 3), vec![1, 2, 7]);
    // Behind the short block a new write begins.
    let writes = match disk.worker.flush_dirty() {
        FlushStep::Write(writes) => writes,
        _ => panic!("something is dirty"),
    };
    assert_eq!(writes.len(), 2);
    assert_eq!((writes[0].0, writes[0].1.len()), (1, 100));
    assert_eq!(writes[0].1[88..91], [1, 2, 7]);
    assert_eq!((writes[1].0, writes[1].1.len()), (2, 512));
    assert_eq!(disk.worker.flushed_ranges(&writes), vec![(1, 0), (2, 1)]);
    // A block that comes long is kept with all that came.
    let long = Bytes::from(vec![7; 600]);
    disk.worker.store_modified(&span, &data, &long).unwrap();
    assert_eq!(disk.worker.dirty.total_bytes, 600);
    assert_eq!(disk.worker.dirty.drain_sorted()[0].1.len(), 600);
}

#[test]
fn data_that_makes_no_whole_blocks_is_kept() {
    let mut dm = DirtyMap::new();
    let data: Vec<u8> = (0..1025).map(|i| (i % 251) as u8).collect();
    dm.insert(4, 2, Bytes::from(data.clone()));
    dm.insert(6, 1, Bytes::from(vec![9; 512]));
    dm.insert(7, 2, Bytes::from(vec![8; 512]));
    assert_eq!(dm.total_bytes, 1025 + 512 + 512);
    assert_eq!(&dm.read_overlap(4, 2, 512).unwrap()[..], &data[..1024]);
    assert_eq!(&dm.read_overlap(5, 1, 512).unwrap()[..], &data[512..1024]);
    assert!(dm.read_overlap(4, 2, 1024).is_none());
    // Nor are blocks of different lengths merged.
    let writes = dm.drain_sorted();
    assert_eq!(writes.len(), 3);
    assert_eq!((writes[0].0, &writes[0].1[..]), (4, &data[..]));
    assert_eq!((writes[1].0, writes[1].1.len()), (6, 512));
    assert_eq!((writes[2].0, writes[2].1.len()), (7, 512));
    assert_eq!(dm.total_bytes, 0);
}

#[test]
fn write_of_no_blocks_is_kept() {
    let mut dm = DirtyMap::new();
    dm.insert(4, 0, Bytes::from_static(&[1, 2, 3]));
    assert!(!dm.is_empty());
    assert_eq!(dm.total_bytes, 3);
    assert!(dm.read_overlap(4, 1, 3).is_none());
    assert_eq!(dm.overlay(4, 3, &[0; 3]), vec![0; 3]);
    let writes = dm.drain_sorted();
    assert_eq!(writes, vec![(4, Bytes::from_static(&[1, 2, 3]))]);
}

#[test]
fn read_of_no_blocks_is_served_where_a_write_is() {
    let mut dm = DirtyMap::new();
    assert!(dm.read_overlap(10, 0, 512).is_none());
    dm.insert(10, 2, Bytes::from(vec![1; 1024]));
    for lba in 10..=12 {
        assert!(dm.read_overlap(lba, 0, 512).unwrap().is_empty());
    }
    assert!(dm.read_overlap(9, 0, 512).is_none());
    assert!(dm.read_overlap(13, 0, 512).is_none());
}

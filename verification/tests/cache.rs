use std::collections::HashMap;

use bytes::Bytes;
use iscsi_lib::block::cache::{BlockCache, Prefetch};

/// A cache of chunks, and a count of what had to be fetched for it.
struct TestCache {
    cache: BlockCache,
    chunks: HashMap<u64, Bytes>,
    fetches: usize,
}

/// A BlockCache with 1 MB capacity, 512-byte blocks, 512 KB readahead max.
fn test_cache() -> TestCache {
    TestCache {
        cache: BlockCache::new(1, 512, 512),
        chunks: HashMap::new(),
        fetches: 0,
    }
}

impl TestCache {
    /// Look a chunk up, or fetch it: its blocks hold the low byte of their LBA.
    fn chunk(&mut self, clba: u64) -> Bytes {
        if let Some(chunk) = self.chunks.get(&clba) {
            return chunk.clone();
        }
        self.fetches += 1;
        let mut data = Vec::new();
        for lba in clba..clba + self.cache.chunk_blocks as u64 {
            data.extend(vec![(lba & 0xFF) as u8; 512]);
        }
        let chunk = Bytes::from(data);
        self.chunks.insert(clba, chunk.clone());
        chunk
    }

    fn read_blocks(&mut self, start_lba: u64, block_count: u32) -> Bytes {
        let mut chunks = Vec::new();
        for clba in self.cache.chunk_lbas(start_lba, block_count) {
            chunks.push(self.chunk(clba));
        }
        let data = self.cache.read_blocks(start_lba, block_count, &chunks);
        if let Some(batch) = self.cache.maybe_trigger_readahead(start_lba, block_count) {
            for clba in self.cache.prefetch_chunks(&batch) {
                self.chunk(clba);
            }
            self.cache.prefetch_done();
        }
        data
    }

    fn invalidate_range(&mut self, start_lba: u64, block_count: u32) {
        for clba in self.cache.invalidate_range(start_lba, block_count) {
            self.chunks.remove(&clba);
        }
    }
}

#[test]
fn test_cache_miss_calls_fetch() {
    let mut cache = test_cache();
    let data = cache.read_blocks(0, 1);
    assert_eq!(data.len(), 512);
    assert!(cache.fetches >= 1, "fetch should be called on miss");
}

#[test]
fn test_cache_hit_no_fetch() {
    let mut cache = test_cache();

    // First read -- populates cache.
    let _d1 = cache.read_blocks(0, 1);
    let calls_after_first = cache.fetches;

    // Second read of the same range -- should hit cache.
    let d2 = cache.read_blocks(0, 1);
    assert_eq!(
        calls_after_first, cache.fetches,
        "fetch should NOT be called on cache hit"
    );
    assert_eq!(d2.len(), 512);
}

#[test]
fn test_cache_invalidate() {
    let mut cache = test_cache();

    // Populate
    let _ = cache.read_blocks(0, 1);
    let calls_before = cache.fetches;

    // Invalidate
    cache.invalidate_range(0, cache.cache.chunk_blocks);

    // Read again -- should miss.
    let _ = cache.read_blocks(0, 1);
    assert!(
        cache.fetches > calls_before,
        "fetch should be called again after invalidation"
    );
}

#[test]
fn test_chunk_lba_alignment() {
    let cache = test_cache().cache;
    // 512-byte blocks, chunk = 64KB/512 = 128 blocks
    assert_eq!(cache.chunk_blocks, 128);
    assert_eq!(cache.chunk_lba(0), 0);
    assert_eq!(cache.chunk_lba(1), 0);
    assert_eq!(cache.chunk_lba(127), 0);
    assert_eq!(cache.chunk_lba(128), 128);
    assert_eq!(cache.chunk_lba(129), 128);
    assert_eq!(cache.chunk_lba(256), 256);
}

#[test]
fn test_readahead_sequential_triggers_prefetch() {
    let mut cache = test_cache();

    // Issue three sequential reads (each chunk_blocks long).
    let cb = cache.cache.chunk_blocks;
    for i in 0..3u64 {
        let _ = cache.read_blocks(i * cb as u64, cb);
    }

    let total_fetches = cache.fetches;
    assert!(
        total_fetches >= 3,
        "at least 3 fetches expected (3 demand + possible readahead), got {total_fetches}"
    );
}

#[test]
fn test_readahead_resets_on_random() {
    let mut cache = test_cache();
    let cb = cache.cache.chunk_blocks;

    // Two sequential reads to grow window.
    let _ = cache.read_blocks(0, cb);
    let _ = cache.read_blocks(cb as u64, cb);

    let window_before = cache.cache.readahead_window_blocks();

    // Random jump.
    let _ = cache.read_blocks(10000 * cb as u64, cb);

    let window_after = cache.cache.readahead_window_blocks();
    assert_eq!(
        window_after,
        cache.cache.readahead_min_blocks(),
        "window should reset to min after random access (was {window_before}, now {window_after})"
    );
}

#[test]
fn test_readahead_window_grows() {
    let mut cache = test_cache();
    let cb = cache.cache.chunk_blocks;
    let min = cache.cache.readahead_min_blocks();

    // Issue six sequential reads to let the window grow.
    for i in 0..6u64 {
        let _ = cache.read_blocks(i * cb as u64, cb);
    }

    let window = cache.cache.readahead_window_blocks();
    assert!(
        window > min,
        "readahead window should have grown beyond min ({min}), got {window}"
    );
}

#[test]
fn geometry_follows_the_sizes() {
    let cache = BlockCache::new(128, 4096, 8192);
    assert_eq!(cache.max_capacity, 2048);
    assert_eq!(cache.chunk_blocks, 16);
    assert_eq!(cache.readahead.ra_max_blocks, 2048);
    assert_eq!(cache.readahead_window_blocks(), 8);
}

#[test]
fn reads_are_put_together_across_chunks() {
    let mut cache = test_cache();
    let data = cache.read_blocks(120, 20);
    assert_eq!(data.len(), 20 * 512);
    for i in 0..20 {
        assert_eq!(data[i * 512], 120 + i as u8);
    }
    assert_eq!(cache.cache.chunk_lbas(120, 20), vec![0, 128]);
    assert_eq!(cache.cache.chunk_lbas(127, 1), vec![0]);
    assert_eq!(cache.cache.chunk_lbas(128, 256), vec![128, 256]);
    assert!(cache.cache.chunk_lbas(128, 0).is_empty());
}

#[test]
fn short_last_chunk_serves_what_it_has() {
    let cache = BlockCache::new(1, 512, 512);
    let last = Bytes::from(vec![7u8; 3 * 512]);
    let data = cache.read_blocks(129, 2, &vec![last]);
    assert_eq!(data.len(), 2 * 512);
}

#[test]
fn writes_drop_the_chunks_they_touch() {
    let mut cache = test_cache();
    assert_eq!(cache.cache.invalidate_range(127, 2), vec![0, 128]);
    assert_eq!(cache.cache.invalidate_range(256, 128), vec![256]);
}

#[test]
fn writes_reset_the_window() {
    let mut cache = test_cache();
    cache.read_blocks(0, 8);
    cache.read_blocks(8, 8);
    assert_eq!(cache.cache.readahead_window_blocks(), 16);
    cache.invalidate_range(500, 1);
    assert_eq!(cache.cache.readahead_window_blocks(), 8);
}

#[test]
fn window_doubles_up_to_the_maximum() {
    let mut cache = BlockCache::new(1, 512, 32);
    assert_eq!(cache.readahead.ra_max_blocks, 64);
    let mut windows = Vec::new();
    for i in 0..6u64 {
        cache.maybe_trigger_readahead(i * 4, 4);
        windows.push(cache.readahead_window_blocks());
    }
    assert_eq!(windows, vec![8, 16, 32, 64, 64, 64]);
}

#[test]
fn batches_begin_at_the_midpoint_of_the_last() {
    let mut cache = BlockCache::new(1, 512, 512);
    assert_eq!(cache.maybe_trigger_readahead(0, 4), None);
    // Sequential, and nothing was prefetched yet.
    assert_eq!(
        cache.maybe_trigger_readahead(4, 4),
        Some(Prefetch { lba: 8, blocks: 16 })
    );
    // The batch is still under way.
    assert_eq!(cache.maybe_trigger_readahead(8, 8), None);
    cache.prefetch_done();
    // The batch goes from 8 to 24, its midpoint is 16.
    let mut cache2 = BlockCache::new(1, 512, 512);
    cache2.maybe_trigger_readahead(0, 4);
    cache2.maybe_trigger_readahead(4, 4);
    cache2.prefetch_done();
    assert_eq!(cache2.maybe_trigger_readahead(8, 7), None);
    assert_eq!(
        cache2.maybe_trigger_readahead(15, 1),
        Some(Prefetch { lba: 24, blocks: 64 })
    );
}

#[test]
fn batch_chunks_cover_the_batch() {
    let cache = BlockCache::new(1, 512, 512);
    assert_eq!(
        cache.prefetch_chunks(&Prefetch { lba: 100, blocks: 64 }),
        vec![0, 128]
    );
    assert!(cache
        .prefetch_chunks(&Prefetch { lba: 128, blocks: 0 })
        .is_empty());
    assert_eq!(
        cache.prefetch_chunks(&Prefetch { lba: 129, blocks: 0 }),
        vec![128]
    );
}

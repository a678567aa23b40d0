use era_engine::catalog::UniqueChunk;
use era_engine::chunk_index::{create_chunk_index, ChunkIndex, LsmChunkIndex, MemoryChunkIndex};
use era_engine::encryption_context::{EncryptionContext, MAX_BLOCK_INDEX};
use era_engine::index_stage::IndexStage;
use era_engine::locations::{BlockLocation, VolumeId};
use era_engine::metrics_collector::{bytes_metric, gauge_metric, operation_metric, timing_metric};
use era_engine::packing_stage::PackingStage;
use era_engine::sequence::{
    next_finalize_sequence, ArchiveManifest, SequenceSelector, INITIAL_FINALIZE_SEQUENCE,
};
use era_engine::small_file_packer::{SmallFileEntry, SmallFilePacker};
use era_engine::types::{ChunkHash, EraError};

// Sequence numbers

#[test]
fn initial_sequence_is_one() {
    assert_eq!(INITIAL_FINALIZE_SEQUENCE, 1);
}

#[test]
fn next_sequence_increments() {
    assert_eq!(next_finalize_sequence(1), 2);
    assert_eq!(next_finalize_sequence(100), 101);
    assert_eq!(next_finalize_sequence(u64::MAX - 1), u64::MAX);
}

#[test]
fn manifest_implements_sequence_selector() {
    let manifest = ArchiveManifest::new(1, 42, 10, [0; 32], [0; 32]);
    assert_eq!(manifest.selection_sequence(), 42);
}

#[test]
fn sequence_selector_trait_object() {
    let manifest = ArchiveManifest::new(1, 99, 10, [0; 32], [0; 32]);
    let selector: &dyn SequenceSelector = &manifest;
    assert_eq!(selector.selection_sequence(), 99);
}

// Small files

fn make_entry(path: &str, size: usize) -> SmallFileEntry {
    SmallFileEntry {
        path: path.to_string(),
        data: vec![0u8; size],
        hash: ChunkHash([0u8; 32]),
        permissions: 0o644,
        mtime: None,
        xattrs: Vec::new(),
    }
}

#[test]
fn test_disabled_packer() {
    let packer = SmallFilePacker::disabled();
    assert!(!packer.should_buffer(100));
    assert!(!packer.should_buffer(0));
}

#[test]
fn test_should_buffer() {
    let packer = SmallFilePacker::new(1024, 4096, 10);

    assert!(packer.should_buffer(100));
    assert!(packer.should_buffer(1023));

    assert!(!packer.should_buffer(1024));
    assert!(!packer.should_buffer(2000));

    assert!(!packer.should_buffer(0));
}

#[test]
fn test_push_no_flush() {
    let mut packer = SmallFilePacker::new(1024, 4096, 10);

    let result = packer.push(make_entry("file1.txt", 100));
    assert!(result.is_none());
    assert_eq!(packer.len(), 1);
    assert_eq!(packer.total_size(), 100);
}

#[test]
fn test_flush_on_size_threshold() {
    let mut packer = SmallFilePacker::new(1024, 200, 10);

    assert!(packer.push(make_entry("file1.txt", 100)).is_none());

    let result = packer.push(make_entry("file2.txt", 100));
    assert!(result.is_some());
    let entries = result.unwrap();
    assert_eq!(entries.len(), 2);
    assert_eq!(entries[0].path, "file1.txt");
    assert_eq!(entries[1].path, "file2.txt");

    assert!(packer.is_empty());
    assert_eq!(packer.total_size(), 0);
}

#[test]
fn test_flush_on_file_count() {
    let mut packer = SmallFilePacker::new(1024, 10000, 3);

    assert!(packer.push(make_entry("file1.txt", 10)).is_none());
    assert!(packer.push(make_entry("file2.txt", 10)).is_none());

    let result = packer.push(make_entry("file3.txt", 10));
    assert!(result.is_some());
    assert_eq!(result.unwrap().len(), 3);
}

#[test]
fn test_take() {
    let mut packer = SmallFilePacker::new(1024, 4096, 10);

    packer.push(make_entry("file1.txt", 100));
    packer.push(make_entry("file2.txt", 200));

    let entries = packer.take();
    assert_eq!(entries.len(), 2);
    assert!(packer.is_empty());
    assert_eq!(packer.total_size(), 0);
}

// Packing into blocks

fn make_chunk(size: usize) -> UniqueChunk {
    UniqueChunk { hash: ChunkHash([0u8; 32]), data: vec![0u8; size] }
}

fn tagged_chunk(tag: u8, size: usize) -> UniqueChunk {
    UniqueChunk { hash: ChunkHash([tag; 32]), data: vec![tag; size] }
}

#[test]
fn test_new_packing_stage() {
    let stage = PackingStage::new(4, 4 * 1024 * 1024, 95).unwrap();
    assert_eq!(stage.target_block_size(), 4 * 1024 * 1024);
    assert!(stage.is_empty());
}

#[test]
fn test_push_small_chunk() {
    let mut stage = PackingStage::new(4, 1024, 95).unwrap();

    let result = stage.push(make_chunk(100));
    assert!(result.is_none());
    assert!(!stage.is_empty());
}

#[test]
fn test_flush_threshold() {
    let mut stage = PackingStage::new(4, 1000, 50).unwrap();

    let result = stage.push(make_chunk(500));
    assert!(result.is_some());

    let packed = result.unwrap();
    assert_eq!(packed.chunks.len(), 1);
}

#[test]
fn test_flush_all() {
    let mut stage = PackingStage::new(4, 1024, 95).unwrap();

    stage.push(make_chunk(100));
    stage.push(make_chunk(200));

    let blocks = stage.flush_all();
    assert!(!blocks.is_empty());
    assert!(stage.is_empty());
}

#[test]
fn default_index_collects_for_the_volumes() {
    let mut index = create_chunk_index();
    assert_eq!(index.len(), 0);
    let place = BlockLocation::single(VolumeId(1), 2, 3, 4);
    index.put(ChunkHash([9; 32]), place).unwrap();
    assert_eq!(index.len(), 1);
    assert_eq!(index.take_builder().unwrap().entries.len(), 1);
}

#[test]
fn waiting_chunks_are_counted() {
    let mut stage = PackingStage::new(2, 1000, 95).unwrap();
    assert_eq!(stage.stats().total_chunks, 0);
    for size in [600, 700, 100] {
        stage.push(make_chunk(size));
    }
    assert_eq!(stage.stats().total_chunks, 3);
    stage.flush_all();
    assert_eq!(stage.stats().total_chunks, 0);
}

#[test]
fn test_oversized_chunk() {
    let mut stage = PackingStage::new(4, 100, 95).unwrap();

    let result = stage.push(make_chunk(200));
    assert!(result.is_some());
}

#[test]
fn test_invalid_config_zero_flush_threshold() {
    let result = PackingStage::new(4, 4 * 1024 * 1024, 0);
    assert!(result.is_err());
    if let Err(EraError::InvalidConfig(msg)) = result {
        assert!(msg.contains("flush_threshold_percent"));
    } else {
        panic!("Expected InvalidConfig error");
    }
}

#[test]
fn test_invalid_config_flush_threshold_exceeds_100() {
    let result = PackingStage::new(4, 4 * 1024 * 1024, 101);
    assert!(result.is_err());
    if let Err(EraError::InvalidConfig(msg)) = result {
        assert!(msg.contains("flush_threshold_percent"));
    } else {
        panic!("Expected InvalidConfig error");
    }
}

#[test]
fn test_valid_config_flush_threshold_at_boundaries() {
    let result1 = PackingStage::new(4, 4 * 1024 * 1024, 1);
    assert!(result1.is_ok());

    let result100 = PackingStage::new(4, 4 * 1024 * 1024, 100);
    assert!(result100.is_ok());
}

#[test]
fn stage_without_bins_is_refused() {
    assert!(matches!(PackingStage::new(0, 1024, 95), Err(EraError::InvalidConfig(_))));
    assert!(matches!(PackingStage::with_defaults(0, 1024), Err(EraError::InvalidConfig(_))));
    assert_eq!(PackingStage::with_defaults(2, 1024).unwrap().bin_count(), 2);
}

#[test]
fn chunks_that_go_in_come_out() {
    let mut stage = PackingStage::new(2, 100, 100).unwrap();
    let mut out: Vec<u8> = Vec::new();
    for (tag, size) in [(1u8, 60), (2, 50), (3, 40), (4, 70), (5, 20), (6, 100)] {
        if let Some(block) = stage.push(tagged_chunk(tag, size)) {
            out.extend(block.chunks.iter().map(|c| c.hash.0[0]));
        }
    }
    for block in stage.flush_all() {
        assert!(block.chunks.iter().map(|c| c.data.len()).sum::<usize>() <= 100);
        out.extend(block.chunks.iter().map(|c| c.hash.0[0]));
    }
    out.sort();
    assert_eq!(out, vec![1, 2, 3, 4, 5, 6]);
}

// Block numbers

fn create_test_context() -> EncryptionContext {
    EncryptionContext::new([0x07; 16], [0x11; 16], 1, 0)
}

#[test]
fn test_next_block_id_increments() {
    let mut ctx = create_test_context();
    assert_eq!(ctx.next_block_id().unwrap(), 0);
    assert_eq!(ctx.next_block_id().unwrap(), 1);
    assert_eq!(ctx.next_block_id().unwrap(), 2);
    assert_eq!(ctx.blocks_written(), 3);
}

#[test]
fn test_with_starting_block_id() {
    let mut ctx = EncryptionContext::with_starting_block_id([0x07; 16], [0x22; 16], 2, 0, 100);
    assert_eq!(ctx.next_block_id().unwrap(), 100);
    assert_eq!(ctx.next_block_id().unwrap(), 101);
}

#[test]
fn test_next_block_id_rejects_overflow_after_u32_max() {
    let mut ctx =
        EncryptionContext::with_starting_block_id([0x07; 16], [0x33; 16], 3, 0, MAX_BLOCK_INDEX);

    assert_eq!(ctx.next_block_id().unwrap(), MAX_BLOCK_INDEX);
    assert!(ctx.next_block_id().is_err());
}

#[test]
fn test_accessors() {
    let ctx = create_test_context();

    assert_eq!(ctx.nonce_context(), [0x07; 16]);
    assert_eq!(ctx.archive_id(), [0x11; 16]);
    assert_eq!(ctx.epoch_id(), 1);
}

#[test]
fn blocks_are_bound_to_their_archive_and_number() {
    let mut ctx = create_test_context();
    ctx.set_volume_index(5);
    let first = ctx.create_block_builder().unwrap();
    let second = ctx.create_block_builder().unwrap();
    assert_eq!((first.block_id, second.block_id), (0, 1));
    assert_eq!(first.volume_index, 5);
    assert_eq!(first.archive_id, [0x11; 16]);
    assert!(ctx.create_block_builder_with_block_id(2, MAX_BLOCK_INDEX).is_ok());
    assert!(ctx.create_block_builder_with_block_id(2, MAX_BLOCK_INDEX + 1).is_err());
    assert_eq!(ctx.blocks_written(), 2);
}

#[test]
fn advancing_past_the_last_number_is_refused() {
    let mut ctx = create_test_context();
    ctx.advance_block_id(10).unwrap();
    assert_eq!(ctx.next_block_id().unwrap(), 10);
    assert!(ctx.advance_block_id(u64::MAX).is_err());
    assert_eq!(ctx.next_block_id().unwrap(), 11);
}

// Where chunks lie

fn create_test_location(slot: u32) -> BlockLocation {
    BlockLocation::single(VolumeId(7), slot, slot as u64 * 4096, 4096)
}

#[test]
fn test_memory_index() {
    let mut index = MemoryChunkIndex::new();

    let hash = ChunkHash::from_bytes([1u8; 32]);
    let location = create_test_location(0);

    assert!(!index.contains(&hash).unwrap());

    index.put(hash, location.duplicate()).unwrap();

    assert!(index.contains(&hash).unwrap());
    let retrieved = index.get(&hash).unwrap().unwrap();
    assert_eq!(retrieved.slot_index, location.slot_index);

    index.delete(&hash).unwrap();
    assert!(!index.contains(&hash).unwrap());
}

#[test]
fn test_lsm_chunk_index() {
    let mut index = LsmChunkIndex::new();

    let hash = ChunkHash::from_bytes([2u8; 32]);
    let location = create_test_location(1);

    assert!(!index.contains(&hash).unwrap());

    index.put(hash, location.duplicate()).unwrap();

    assert!(index.contains(&hash).unwrap());
    let retrieved = index.get(&hash).unwrap().unwrap();
    assert_eq!(retrieved.slot_index, location.slot_index);

    assert!(index.take_builder().is_some());
    assert!(index.take_builder().is_none());
}

#[test]
fn index_stage_hands_its_entries_out_once() {
    let mut stage = IndexStage::without_checkpoint(LsmChunkIndex::new());
    let hash = ChunkHash([9; 32]);
    stage.record_location(hash, create_test_location(4)).unwrap();
    assert_eq!(stage.get(&hash).unwrap().unwrap().physical_offset, 4 * 4096);
    assert!(stage.sync_checkpoint().is_ok());
    let builder = stage.take_index_builder().unwrap();
    assert_eq!(builder.entries.len(), 1);
    assert_eq!(builder.entries[0].block_id, 4);
    assert!(stage.take_index_builder().is_none());
    assert!(stage.contains(&hash).unwrap());
}

// Metric names

#[test]
fn timer_with_different_operations() {
    for operation in [
        "archive_create", "archive_extract", "compression", "encryption", "decryption",
        "file_read", "file_write",
    ] {
        let expected = format!("{operation}_ms");
        assert_eq!(timing_metric(operation), Some(expected.as_str()));
    }
}

#[test]
fn timer_with_unknown_operation_is_logged() {
    assert_eq!(timing_metric("unknown_op"), None);
}

#[test]
fn record_bytes_processed_with_known_operation() {
    assert_eq!(bytes_metric("compression"), Some("compression_bytes_total"));
    assert_eq!(bytes_metric("encryption"), Some("encryption_bytes_total"));
    assert_eq!(bytes_metric("archive_write"), Some("archive_write_bytes_total"));
    assert_eq!(bytes_metric("archive_read"), Some("archive_read_bytes_total"));
}

#[test]
fn record_bytes_processed_with_unknown_operation_is_logged() {
    assert_eq!(bytes_metric("unknown_bytes_op"), None);
}

#[test]
fn record_operation_with_known_names() {
    for operation in
        ["file_encrypt", "file_decrypt", "chunk_process", "archive_create", "archive_extract"]
    {
        let expected = format!("{operation}_operations_total");
        assert_eq!(operation_metric(operation), Some(expected.as_str()));
    }
}

#[test]
fn record_operation_with_unknown_name_is_logged() {
    assert_eq!(operation_metric("unknown_operation_name"), None);
}

#[test]
fn record_gauge_with_known_metrics() {
    assert_eq!(gauge_metric("active_extractions"), Some("active_extractions"));
    assert_eq!(gauge_metric("cache_size_mb"), Some("cache_size_mb"));
    assert_eq!(gauge_metric("queue_depth"), Some("queue_depth"));
}

#[test]
fn record_gauge_with_unknown_metric_is_logged() {
    assert_eq!(gauge_metric("unknown_gauge_metric"), None);
}

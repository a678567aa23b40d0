use era_engine::async_pipeline::{
    compress_zstd, or_plain, process_compressed, process_plain, process_with, PipelineConfig,
};
use era_engine::catalog::{
    archive_stats, entry_for_chunks, is_internal_path, plan_bytes, split_data, ArchiveStats, Catalog,
    UniqueChunk,
};
use era_engine::checkpoint::CheckpointManager;
use era_engine::chunk_index::{ChunkIndexBackend, LsmChunkIndex, MemoryChunkIndex};
use era_engine::encryption_context::EncryptionContext;
use era_engine::erasure_stage::{BlockMeta, EncryptedMacroBlock, ErasureStage, Stripe};
use era_engine::hash_table::HashTable;
use era_engine::hashing::content_hash;
use era_engine::index_stage::IndexStage;
use era_engine::locations::{BlockLocation, VolumeId};
use era_engine::packing_stage::PackingStage;
use era_engine::recovery::{RecoveryOptions, RecoveryStrategy};
use era_engine::small_file_packer::SmallFileEntry;
use era_engine::types::{ChunkHash, EraError, ErasureCodeConfig, MatrixDistributionStrategy};
use era_engine::volume_stage::{Fanout, FanoutRequest};
use era_engine::write_pipeline::{
    block_meta, check_writers, padding_needed, PipelineStep, ShardEntry, StripeJob, WritePipeline,
};
use era_engine::writer::{
    chunker_config_from_archive, hybrid_key, index_bytes, require_footer, require_password,
    resolve_volume_count, ArchiveConfig, ArchiveWriterBuilder, AuthMode, CheckpointPlan,
    ChunkingConfig, CompressionAlgorithm, CompressionConfig, DistributionConfig,
    EncryptionConfig, ExistingArchive, IndexPlace, DEFAULT_BLOCK_SIZE, SMALL_FILE_THRESHOLD,
};
use era_engine::writer_core::{
    check_recursive, finalize_steps, metadata_ids, packed_chunk, packed_entries, packed_hashes,
    plan_pack, route_file, EmbeddedIndexSnapshot, FileRoute, FinalizeStep, SharedChunkPlan,
    WriterCore,
};

// Files of an archive

fn stats_of(files: &[(&str, &[u8])]) -> ArchiveStats {
    let mut catalog = Catalog { entries: Vec::new() };
    for (name, data) in files {
        let (chunks, entry) = plan_bytes(name, data, DEFAULT_BLOCK_SIZE);
        let joined: Vec<u8> = chunks.iter().flat_map(|c| c.data.clone()).collect();
        assert_eq!(&joined, data);
        catalog.entries.push(entry);
    }
    archive_stats(&catalog, 1, 2)
}

#[test]
fn test_create_archive() {
    let stats = stats_of(&[("hello.txt", b"Hello, ERA!")]);
    assert_eq!(stats.total_files, 1);
    assert_eq!(stats.total_size, 11);
}

#[test]
fn test_add_file() {
    let chunks = split_data(b"Test file content", DEFAULT_BLOCK_SIZE);
    let mut catalog = Catalog { entries: Vec::new() };
    catalog.entries.push(entry_for_chunks("test_file", &chunks));
    let mut staging = PackingStage::new(4, DEFAULT_BLOCK_SIZE, 95).unwrap();
    let mut written = 0;
    for chunk in chunks {
        written += staging.push(chunk).is_some() as u64;
    }
    written += staging.flush_all().len() as u64;
    let stats = archive_stats(&catalog, 1, metadata_ids(written, false, false).blocks_written);
    assert_eq!(stats.total_files, 1);
    assert!(stats.blocks_written >= 2);
}

#[test]
fn test_empty_archive() {
    let stats = stats_of(&[]);
    assert_eq!(stats.total_files, 0);
    assert_eq!(stats.total_size, 0);
}

#[test]
fn test_multiple_files() {
    let stats = stats_of(&[
        ("file1.txt", b"Content 1"),
        ("file2.txt", b"Content 2 is longer"),
        ("dir/file3.txt", b"Nested content"),
    ]);
    assert_eq!(stats.total_files, 3);
}

#[test]
fn test_large_file() {
    let large_data = vec![b'A'; 1024 * 1024];
    let stats = stats_of(&[("large.bin", &large_data)]);
    assert_eq!(stats.total_files, 1);
    assert_eq!(stats.total_size, 1024 * 1024);
}

#[test]
fn test_empty_file() {
    let stats = stats_of(&[("empty.txt", b"")]);
    assert_eq!(stats.total_files, 1);
    assert_eq!(stats.total_size, 0);
}

#[test]
fn test_unicode_filename() {
    let stats = stats_of(&[
        ("中文文件名.txt", "内容".as_bytes()),
        ("日本語.txt", "コンテンツ".as_bytes()),
        ("emoji_📁.txt", b"emoji content"),
    ]);
    assert_eq!(stats.total_files, 3);
}

#[test]
fn test_special_characters_in_filename() {
    let stats = stats_of(&[
        ("file with spaces.txt", b"content"),
        ("file-with-dashes.txt", b"content"),
        ("file_with_underscores.txt", b"content"),
    ]);
    assert_eq!(stats.total_files, 3);
}

#[test]
fn test_binary_content() {
    let binary_data: Vec<u8> = (0..=255).collect();
    let stats = stats_of(&[("all_bytes.bin", &binary_data)]);
    assert_eq!(stats.total_files, 1);
    assert_eq!(stats.total_size, 256);
}

#[test]
fn test_memory_backend_archive() {
    let stats = stats_of(&[("hello.txt", b"Hello, Memory!"), ("world.txt", b"World!")]);
    assert_eq!(stats.total_files, 2);
    assert_eq!(stats.total_size, 20);
}

#[test]
fn test_memory_backend_multiple_files_packed() {
    let mut staging = PackingStage::new(4, DEFAULT_BLOCK_SIZE, 95).unwrap();
    let mut catalog = Catalog { entries: Vec::new() };
    let mut written = 0;
    for i in 0..10 {
        let name = format!("file_{}.txt", i);
        let content = format!("Content for file {}", i);
        let (chunks, entry) = plan_bytes(&name, content.as_bytes(), DEFAULT_BLOCK_SIZE);
        for chunk in chunks {
            written += staging.push(chunk).is_some() as u64;
        }
        catalog.entries.push(entry);
    }
    written += staging.flush_all().len() as u64;
    let stats = archive_stats(&catalog, 1, metadata_ids(written, false, false).blocks_written);
    assert_eq!(stats.total_files, 10);
    assert!(stats.blocks_written <= 2, "Expected <=2 blocks, got {}", stats.blocks_written);
}

#[test]
fn internal_files_do_not_count() {
    assert!(is_internal_path(".era/meta/index.bin"));
    assert!(!is_internal_path("era/meta/index.bin"));
    let stats = stats_of(&[(".era/meta/index.bin", b"12345"), ("a", b"12")]);
    assert_eq!((stats.total_files, stats.total_size), (1, 2));
}

#[test]
fn digest_of_the_empty_text() {
    let expected = "af1349b9f5f9a1a6a0404dea36dcc9499bcb25c9adc112b7cc9a93cae41f3262";
    assert_eq!(era_engine::text::hex_text(&content_hash(b"").0), expected);
    assert_eq!(content_hash(b"").0, *blake3::hash(b"").as_bytes());
}

// Single chunks

#[test]
fn test_pipeline_basic() {
    let data = b"Hello, World!".to_vec();
    let processed = process_plain(data.clone());
    assert!(processed.hash.same(&content_hash(&data)));
    assert_eq!(processed.data, data);
    assert_eq!(processed.original_size, data.len());
}

#[test]
fn test_pipeline_multiple_chunks() {
    let chunks = vec![b"Chunk 1".to_vec(), b"Chunk 2".to_vec(), b"Chunk 3".to_vec()];
    let received: Vec<_> = chunks.iter().map(|c| process_plain(c.clone())).collect();
    assert_eq!(received.len(), chunks.len());
    assert!(!received[0].hash.same(&received[1].hash));
}

#[test]
fn test_pipeline_compression() {
    let data = vec![b'A'; 1024];
    let processed = process_compressed(&data, 3);
    assert_eq!(processed.original_size, 1024);
    assert!(processed.compressed_size < processed.original_size);
    assert!(processed.hash.same(&content_hash(&processed.data)));
}

#[test]
fn compressed_data_can_be_unpacked() {
    let data: Vec<u8> = (0..5000u32).map(|i| (i % 13) as u8).collect();
    let packed = compress_zstd(&data, 3);
    assert_ne!(packed, data);
    assert_eq!(zstd::stream::decode_all(&packed[..]).unwrap(), data);
}

#[test]
fn data_that_cannot_be_compressed_stays() {
    assert_eq!(or_plain(b"abc", None), b"abc");
    assert_eq!(or_plain(b"abc", Some(vec![9])), vec![9]);
    let processed = process_with(b"abc", None);
    assert_eq!((processed.original_size, processed.compressed_size), (3, 3));
    let config = PipelineConfig::default();
    assert_eq!((config.max_concurrent_chunks, config.channel_buffer), (64, 128));
}

// The write pipeline

fn create_test_encryption() -> EncryptionContext {
    EncryptionContext::new([1; 16], [2; 16], 1, 0)
}

fn encrypted(id: u64, data: &[u8]) -> EncryptedMacroBlock {
    EncryptedMacroBlock {
        block_id: id,
        data: data.to_vec(),
        original_size: data.len() as u32,
        compressed_size: data.len() as u32,
        chunk_count: 1,
    }
}

fn process(
    pipeline: &mut WritePipeline<MemoryChunkIndex>,
    data: &[u8],
    extra: &[ChunkHash],
) -> PipelineStep {
    let id = pipeline.next_binding().unwrap().block_id;
    let meta = block_meta(&[content_hash(data)], extra);
    pipeline.process_chunks(encrypted(id, data), meta).unwrap()
}

fn write_plain(pipeline: &mut WritePipeline<MemoryChunkIndex>, step: PipelineStep) {
    match step {
        PipelineStep::WriteBlock(block, meta) => {
            let location =
                BlockLocation::single(VolumeId(5), block.block_id as u32, 4096, block.data.len() as u32);
            pipeline.on_block_written(&meta, &location).unwrap();
        },
        other => panic!("unexpected {other:?}"),
    }
}

#[test]
fn test_pipeline_non_erasure() {
    let index = IndexStage::without_checkpoint(MemoryChunkIndex::new());
    let mut pipeline =
        WritePipeline::new(create_test_encryption(), ErasureStage::disabled(), index);
    let hash = content_hash(b"Hello, World!");

    assert!(!pipeline.contains(&hash).unwrap());

    let step = process(&mut pipeline, b"Hello, World!", &[]);
    write_plain(&mut pipeline, step);

    assert!(pipeline.contains(&hash).unwrap());
    assert!(pipeline.get_location(&hash).unwrap().is_some());
    assert_eq!(pipeline.blocks_written(), 1);
    assert!(pipeline.sync_checkpoint().is_ok());
}

#[test]
fn test_pipeline_with_extra_hashes() {
    let index = IndexStage::without_checkpoint(MemoryChunkIndex::new());
    let mut pipeline =
        WritePipeline::new(create_test_encryption(), ErasureStage::disabled(), index);
    let extra_hash = ChunkHash::from_bytes([42u8; 32]);

    let step = process(&mut pipeline, b"Packed data", &[extra_hash]);
    write_plain(&mut pipeline, step);

    assert!(pipeline.contains(&extra_hash).unwrap());
    assert!(pipeline.contains(&content_hash(b"Packed data")).unwrap());
}

fn write_stripe(pipeline: &mut WritePipeline<MemoryChunkIndex>, stripe: Stripe) {
    let needed = padding_needed(&stripe);
    let padding = (0..needed).map(|i| encrypted(100 + i as u64, b"")).collect();
    let mut job = StripeJob::new(stripe, padding);
    let size = job.shard_size as usize;
    let mut shards: Vec<Vec<u8>> = job.blocks.iter().map(|b| b.data.clone()).collect();
    shards.push(vec![0xEE; size]);
    job.on_coded(shards);
    while let Some(shard) = job.next_shard() {
        assert!(job.shard_data(shard).len() <= size);
        job.on_written(ShardEntry {
            volume_id: VolumeId(10 + shard as u128),
            volume_sequence: shard as u16,
            physical_offset: 1000 * shard as u64,
        });
    }
    pipeline.on_stripe_written(&job).unwrap();
}

fn coded_pipeline() -> WritePipeline<MemoryChunkIndex> {
    let index = IndexStage::without_checkpoint(MemoryChunkIndex::new());
    let erasure = ErasureStage::new(Some(ErasureCodeConfig::new(2, 1))).unwrap();
    WritePipeline::new(create_test_encryption(), erasure, index)
}

#[test]
fn test_pipeline_erasure_enabled() {
    let mut pipeline = coded_pipeline();
    assert!(pipeline.erasure_enabled());

    let hash1 = content_hash(b"Chunk 1 data");
    let hash2 = content_hash(b"Chunk 2 data");

    assert!(matches!(process(&mut pipeline, b"Chunk 1 data", &[]), PipelineStep::Held));
    assert!(!pipeline.contains(&hash1).unwrap());

    match process(&mut pipeline, b"Chunk 2 data", &[]) {
        PipelineStep::WriteStripe(stripe) => write_stripe(&mut pipeline, stripe),
        other => panic!("unexpected {other:?}"),
    }
    assert!(pipeline.contains(&hash1).unwrap());
    assert!(pipeline.contains(&hash2).unwrap());
    let place = pipeline.get_location(&hash2).unwrap().unwrap();
    assert_eq!(place.physical_offset, 1000);
    assert_eq!(place.shard_offsets, Some(vec![0, 2000]));
    assert_eq!(place.shard_volumes, Some(vec![0, 2]));
}

#[test]
fn last_stripe_is_filled_up() {
    let mut pipeline = coded_pipeline();
    process(&mut pipeline, b"alone", &[]);
    let stripe = pipeline.flush_stripe().unwrap().unwrap();
    assert_eq!(padding_needed(&stripe), 1);
    write_stripe(&mut pipeline, stripe);
    assert!(pipeline.contains(&content_hash(b"alone")).unwrap());
    assert!(pipeline.flush_stripe().unwrap().is_none());
    assert!(!pipeline.erasure_mut().has_pending());
    assert!(pipeline.index_mut().take_index_builder().is_none());
}

#[test]
fn nothing_is_written_without_volumes() {
    assert!(check_writers(0).is_err());
    assert!(check_writers(1).is_ok());
}

// Copies on all volumes

fn run_fanout(mut fanout: Fanout) -> Vec<(u64, u32, u32)> {
    let mut at = 0u64;
    loop {
        match fanout.request() {
            FanoutRequest::Done => break,
            FanoutRequest::Open { .. } => fanout.on_open(true).unwrap(),
            FanoutRequest::Write { .. } | FanoutRequest::WriteBackup { .. } => {
                at += 100;
                fanout.on_written(at, 10).unwrap();
            },
        }
    }
    fanout.finish().iter().map(|p| (p.offset, p.size, p.block_id)).collect()
}

#[test]
fn catalog_goes_to_every_volume() {
    let places = run_fanout(Fanout::catalog(&[7], &[8], 2).unwrap());
    assert_eq!(places, vec![(100, 10, 7), (300, 10, 7)]);
}

#[test]
fn index_goes_to_the_other_volumes() {
    let places = run_fanout(Fanout::index(10, 9, 3).unwrap().unwrap());
    assert_eq!(places.len(), 2);
    assert!(Fanout::index(10, 9, 1).unwrap().is_none());
    assert!(Fanout::index(u64::MAX, 9, 3).is_err());
}

#[test]
fn manifest_keeps_its_number() {
    let places = run_fanout(Fanout::manifest(&[3, 4], 2).unwrap());
    let numbers: Vec<u32> = places.iter().map(|p| p.2).collect();
    assert_eq!(numbers, vec![3, 4]);
}

#[test]
fn impossible_fanouts_are_refused() {
    assert!(Fanout::catalog(&[1], &[], 0).is_err());
    assert!(Fanout::catalog(&[], &[], 2).is_err());
    assert!(Fanout::catalog(&[1 << 32], &[], 2).is_err());
    assert!(Fanout::catalog_sets(vec![vec![1]], None, 2).is_err());
    let mut fanout = Fanout::catalog_sets(vec![vec![1], vec![2]], None, 2).unwrap();
    assert_eq!(fanout.request(), FanoutRequest::Open { slot: 0 });
    assert!(fanout.on_open(false).is_err());
}

// What a writer decides

#[test]
fn pipeline_is_taken_apart() {
    let index = IndexStage::without_checkpoint(MemoryChunkIndex::new());
    let mut pipeline =
        WritePipeline::new(create_test_encryption(), ErasureStage::disabled(), index);
    pipeline.next_binding().unwrap();
    let (encryption, erasure, _) = pipeline.into_parts();
    assert_eq!(encryption.blocks_written(), 1);
    assert!(!erasure.is_enabled());
}

#[test]
fn key_is_derived_at_the_cost_of_the_header() {
    let params = config().kdf_params();
    assert_eq!((params.memory_cost, params.time_cost, params.parallelism), (65536, 3, 4));
}

fn config() -> ArchiveConfig {
    ArchiveConfig {
        chunking: ChunkingConfig {
            min_size: 16 * 1024,
            avg_size: 64 * 1024,
            max_size: 256 * 1024,
            normalization_level: 2,
            rolling_hash_seed: 0,
        },
        erasure: None,
        distribution: DistributionConfig {
            strategy: MatrixDistributionStrategy::Striped,
            min_volumes: 1,
            target_volumes: 1,
        },
        compression: CompressionConfig { algorithm: CompressionAlgorithm::Zstd, level: 3 },
        encryption: EncryptionConfig { kdf_memory_cost: 65536, kdf_time_cost: 3 },
        max_volume_size: 1 << 40,
        k_factor: 4,
        flush_threshold: 95,
    }
}

#[test]
fn test_builder_uses_archive_chunking_config() {
    let mut config = config();
    config.chunking.min_size = 2 * 1024;
    config.chunking.avg_size = 8 * 1024;
    config.chunking.max_size = 16 * 1024;
    let builder = ArchiveWriterBuilder::new("chunk_cfg.era", config)
        .password("test_password".to_string())
        .config(config)
        .enable_cdc(true);
    let layout = builder.plan_layout(None);
    let chunker = builder.plan_chunker(&layout).unwrap().unwrap();
    assert_eq!((chunker.min_size, chunker.avg_size), (2 * 1024, 8 * 1024));
    assert_eq!(chunker.max_size, 16 * 1024);
    assert_eq!(chunker_config_from_archive(&config).unwrap(), chunker);
}

#[test]
fn test_builder_uses_packing_k_factor() {
    let mut config = config();
    config.k_factor = 3;
    config.flush_threshold = 90;
    let builder = ArchiveWriterBuilder::new("packing_k.era", config)
        .password("test_password".to_string())
        .config(config);
    let layout = builder.plan_layout(None);
    let chunking = builder.plan_chunker(&layout).unwrap();
    let block_size = builder.plan_block_size(&layout, &chunking);
    let stage =
        PackingStage::new(layout.config.k_factor, block_size, layout.config.flush_threshold)
            .unwrap();
    assert_eq!(stage.bin_count(), 3);
    assert_eq!(stage.flush_threshold_percent, 90);
}

#[test]
fn settings_bring_others_with_them() {
    let b = ArchiveWriterBuilder::new("a.era", config())
        .erasure_config(ErasureCodeConfig::new(3, 2))
        .enable_matrix_distribution(true)
        .volume_count(0)
        .recovery_options(RecoveryOptions::start_fresh());
    assert!(b.enable_erasure && b.enable_checkpoint);
    assert_eq!(b.volume_count, 1);
    let layout = b.plan_layout(None);
    assert!(layout.enable_matrix_distribution);
    assert_eq!(layout.config.erasure, Some(ErasureCodeConfig::new(3, 2)));
    assert_eq!(layout.volume_count, resolve_volume_count(&ErasureCodeConfig::new(3, 2), 1));
    assert!(matches!(b.index_backend, ChunkIndexBackend::EmbeddedLsm { .. }));
    let b = b.with_lsm_index("/tmp/index".to_string());
    assert!(matches!(&b.index_backend, ChunkIndexBackend::Lsm { path } if path == "/tmp/index"));
}

#[test]
fn stored_index_is_restored() {
    let place = IndexPlace { volume_id: VolumeId(7), block_id: 3, offset: 5000, size: 90 };
    let b = ArchiveWriterBuilder::new("a.era", config());
    let location = b.index_to_restore(true, Some(place)).unwrap();
    assert_eq!((location.slot_index, location.physical_offset), (3, 5000));
    assert_eq!(location.encrypted_size, 90);
    assert!(b.index_to_restore(false, Some(place)).is_none());
    assert!(b.index_to_restore(true, None).is_none());
    assert_eq!(index_bytes(&[(1, 2), (0, 1)], b"abcd"), Some(b"bc".to_vec()));
    assert_eq!(index_bytes(&[(3, 2)], b"abcd"), None);
    assert_eq!(index_bytes(&[], b"abcd"), None);
    assert_eq!(b.first_block_id(12), 0);
    let b = b.append_existing(true);
    assert_eq!(b.first_block_id(12), 12);
    let b = b.with_lsm_index("/tmp/index".to_string());
    assert!(b.index_to_restore(true, Some(place)).is_none());
}

#[test]
fn only_passwords_append() {
    let b = ArchiveWriterBuilder::new("a.era", config()).append_existing(true);
    assert!(b.opens_existing(true).unwrap());
    assert!(!b.opens_existing(false).unwrap());
    let b = b.certificate(vec![1]);
    assert!(b.opens_existing(true).is_err());
    assert!(b.check_auth().is_err());
    let b = b.auth_mode(AuthMode::Hybrid { password: "p".to_string(), key_id: vec![1] });
    assert!(b.check_auth().is_err());
    assert!(b.append_existing(false).check_auth().is_ok());
    assert!(require_footer(true).is_ok() && require_footer(false).is_err());
    assert!(require_password(true).is_ok() && require_password(false).is_err());
}

#[test]
fn appending_keeps_the_layout() {
    let old = ExistingArchive {
        config: ArchiveConfig { erasure: Some(ErasureCodeConfig::new(2, 1)), ..config() },
        total_volumes: 3,
    };
    let b = ArchiveWriterBuilder::new("a.era", config()).append_existing(true).volume_count(9);
    let layout = b.plan_layout(Some(&old));
    assert!(layout.enable_erasure);
    assert_eq!(layout.volume_count, 3);
    assert_eq!(layout.config.erasure, Some(ErasureCodeConfig::new(2, 1)));
}

#[test]
fn coded_archives_are_not_appended_to() {
    let coded = ExistingArchive {
        config: ArchiveConfig { erasure: Some(ErasureCodeConfig::new(2, 1)), ..config() },
        total_volumes: 3,
    };
    let plain = ExistingArchive { config: config(), total_volumes: 1 };
    let b = ArchiveWriterBuilder::new("a.era", config()).append_existing(true);
    let e = b.check_append(&b.plan_layout(Some(&coded)), Some(&coded)).unwrap_err();
    assert!(format!("{e:?}").contains("erasure-coded"));
    assert!(b.check_append(&b.plan_layout(Some(&plain)), Some(&plain)).is_ok());
    assert!(b.check_append(&b.plan_layout(None), None).is_err());
}

#[test]
fn block_size_is_planned() {
    let b = ArchiveWriterBuilder::new("a.era", config());
    let layout = b.plan_layout(None);
    assert_eq!(b.plan_block_size(&layout, &None), DEFAULT_BLOCK_SIZE);
    assert_eq!(b.target_block_size(1000).plan_block_size(&layout, &None), 1000);
}

#[test]
fn checkpoints_are_planned() {
    let b = ArchiveWriterBuilder::new("a.era", config());
    assert_eq!(b.plan_checkpoint(true).unwrap(), CheckpointPlan::Without);
    let b = b.recovery_options(RecoveryOptions::start_fresh());
    assert_eq!(b.plan_checkpoint(true).unwrap(), CheckpointPlan::Fresh { delete_old: true });
    let abort = RecoveryOptions { strategy: RecoveryStrategy::Abort, ..Default::default() };
    assert!(b.recovery_options(abort).plan_checkpoint(true).is_err());
}

#[test]
fn small_files_are_packed_unless_forbidden() {
    let b = ArchiveWriterBuilder::new("a.era", config());
    assert_eq!(b.small_file_limits().0, SMALL_FILE_THRESHOLD);
    assert_eq!(b.enable_small_file_packing(false).small_file_limits().0, 0);
    assert_eq!(route_file(10, true, 100, true), FileRoute::Wait);
    assert_eq!(route_file(0, true, 100, true), FileRoute::Chunked);
    assert_eq!(route_file(100, true, 100, false), FileRoute::Single);
    assert!(check_recursive(true, false, "dir").is_err());
    assert!(check_recursive(true, true, "dir").is_ok());
}

#[test]
fn both_keys_are_needed() {
    let mut a = [0b1100u8; 32];
    let mut b = [0b1010u8; 32];
    assert_eq!(hybrid_key(&mut a, &mut b), [0b0110u8; 32]);
    assert_eq!((a, b), ([0; 32], [0; 32]));
}

// Small files in one chunk

fn small(path: &str, data: &[u8]) -> SmallFileEntry {
    SmallFileEntry {
        path: path.to_string(),
        data: data.to_vec(),
        hash: content_hash(data),
        permissions: 0o644,
        mtime: None,
        xattrs: Vec::new(),
    }
}

#[test]
fn same_small_files_are_stored_once() {
    let files = vec![small("a", b"one"), small("b", b"two"), small("c", b"one")];
    let plan = plan_pack(&files);
    assert_eq!(plan.unique, vec![0, 1]);
    assert_eq!(plan.member, vec![0, 1, 0]);
    assert_eq!(packed_hashes(&files, &plan).len(), 2);
    let chunk = packed_chunk(b"onetwo".to_vec());
    assert!(chunk.hash.same(&content_hash(b"onetwo")));
    let entries = packed_entries(&files, &plan, &chunk);
    assert_eq!(entries.len(), 3);
    assert_eq!(entries[2].chunks[0].packed.unwrap().file_index, 0);
    assert_eq!(entries[1].chunks[0].packed.unwrap().file_count, 2);
    assert_eq!(entries[1].size, 3);
}

fn new_core() -> WriterCore<LsmChunkIndex> {
    WriterCore {
        index: IndexStage::without_checkpoint(LsmChunkIndex::new()),
        embedded_index: HashTable::new(),
        staging: PackingStage::new(2, 100, 95).unwrap(),
        catalog: Catalog { entries: Vec::new() },
        checkpoint: Some(CheckpointManager::new("a.era")),
    }
}

#[test]
fn known_chunks_are_not_stored_again() {
    let mut writer = new_core();
    let hash = content_hash(b"x");
    writer.record_chunk_location(hash, BlockLocation::single(VolumeId(1), 3, 10, 20)).unwrap();
    let again = UniqueChunk { hash, data: vec![1; 200] };
    assert!(writer.offer_chunk(again).unwrap().is_none());
    let other = UniqueChunk { hash: content_hash(b"y"), data: vec![1; 200] };
    assert!(writer.offer_chunk(other).unwrap().is_some());
    assert_eq!(writer.embedded_index.len(), 1);
    assert_eq!(writer.checkpoint.as_ref().unwrap().checkpoint().chunks_written, 1);
    let snapshot = EmbeddedIndexSnapshot::from_map(&writer.embedded_index);
    assert_eq!(snapshot.entries.len(), 1);
    assert_eq!(snapshot.entries[0].1.slot_index, 3);
}

#[test]
fn shared_chunk_is_reused() {
    let mut writer = new_core();
    let shared = content_hash(b"shared");
    assert!(matches!(writer.plan_shared_chunk(&shared).unwrap(), SharedChunkPlan::Write));
    writer.record_chunk_location(shared, BlockLocation::single(VolumeId(1), 3, 10, 20)).unwrap();
    match writer.plan_shared_chunk(&shared).unwrap() {
        SharedChunkPlan::Reuse(place) => {
            let hashes = [content_hash(b"a"), shared, content_hash(b"a")];
            writer.reuse_shared_chunk(&hashes, &place).unwrap();
        },
        SharedChunkPlan::Write => panic!("the chunk is there"),
    }
    assert_eq!(writer.embedded_index.len(), 2);
    assert_eq!(writer.checkpoint.as_ref().unwrap().checkpoint().chunks_written, 2);
}

#[test]
fn resuming_writer_knows_its_checkpoint() {
    let hash = content_hash(b"old");
    let make = || {
        let mut writer = new_core();
        let place = BlockLocation::single(VolumeId(1), 3, 10, 20);
        writer.checkpoint.as_mut().unwrap().record_chunk(hash, place).unwrap();
        writer
    };
    let mut writer = make();
    writer.restore_chunks(RecoveryStrategy::StartFresh).unwrap();
    assert!(!writer.index.contains(&hash).unwrap());
    writer.restore_chunks(RecoveryStrategy::Resume).unwrap();
    assert!(writer.index.contains(&hash).unwrap());
    assert_eq!(writer.embedded_index.get(&hash).unwrap().slot_index, 3);
    let mut closed = make();
    closed.index.take_index_builder();
    assert!(closed.restore_chunks(RecoveryStrategy::Resume).is_err());
    assert!(closed.embedded_index.is_empty());
}

#[test]
fn refused_chunk_is_noted_nowhere_else() {
    let mut writer = new_core();
    writer.index.take_index_builder();
    let r = writer.reuse_shared_chunk(
        &[content_hash(b"a")],
        &BlockLocation::single(VolumeId(1), 3, 10, 20),
    );
    assert!(r.is_err());
    assert!(writer.embedded_index.is_empty());
    assert_eq!(writer.checkpoint.as_ref().unwrap().checkpoint().chunks_written, 0);
}

// Finishing

#[test]
fn finalization_has_an_order() {
    let steps = finalize_steps(true, true);
    let at = |s: FinalizeStep| steps.iter().position(|x| *x == s).unwrap();
    assert!(at(FinalizeStep::FlushSmallFiles) < at(FinalizeStep::FlushBins));
    assert!(at(FinalizeStep::WriteIndexManifest) < at(FinalizeStep::WriteCatalog));
    assert!(at(FinalizeStep::CloseVolumes) < at(FinalizeStep::RemoveCheckpoint));
    assert!(!finalize_steps(false, false).contains(&FinalizeStep::SyncCheckpoint));
}

#[test]
fn metadata_has_numbers_of_its_own() {
    let ids = metadata_ids(5, true, true);
    assert_eq!((ids.manifest, ids.catalog, ids.backup), (Some(5), 6, Some(7)));
    assert_eq!(ids.blocks_written, 8);
    let _ = BlockMeta { chunk_hashes: vec![] };
    assert!(matches!(EraError::EmptyCatalog, EraError::EmptyCatalog));
}

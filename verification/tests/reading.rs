use era_engine::auth::AccessPolicy;
use era_engine::block_iter_erasure::ErasureBlockInfo;
use era_engine::catalog::{plan_bytes, Catalog, ChunkRef, FileEntry, FileType, PackedRef};
use era_engine::chunk_index::MemoryChunkIndex;
use era_engine::chunk_processor::{ExtractStats, ExtractionContext, WriteAction};
use era_engine::hash_table::HashTable;
use era_engine::hashing::content_hash;
use era_engine::index_stage::IndexStage;
use era_engine::locations::{BlockLocation, VolumeId};
use era_engine::packing_stage::{PackedBlock, PackingStage};
use era_engine::reader::{
    accept_shard, catalog_bytes, catalog_volume, check_session_policy, conclude_extraction,
    index_volume, list_files, plan_block_read, plan_entry, plan_verification, wipe_shares,
    BlockReadPlan, EntryPlan, ExtractOptions, FailureRun, MetadataProbe, ShardRead, UnlockSearch,
    Unlocked, VolumeTag, MAX_CONSECUTIVE_FAILURES, MAX_DECLARED_FILE_SIZE,
};
use era_engine::small_file_packer::{SmallFileEntry, SmallFilePacker};
use era_engine::types::{ChunkHash, EraError, ShardHeader};
use era_engine::verification::{VerificationContext, VerifyStats};
use era_engine::writer::{DEFAULT_BLOCK_SIZE, SMALL_FILE_THRESHOLD};
use era_engine::writer_core::{packed_chunk, packed_entries, plan_pack, WriterCore};

// An archive whose blocks lie in memory.

struct Archive {
    blocks: Vec<PackedBlock>,
    catalog: Catalog,
}

fn archive(files: &[(&str, &[u8])], block_size: usize) -> Archive {
    let mut core = WriterCore {
        index: IndexStage::without_checkpoint(MemoryChunkIndex::new()),
        embedded_index: HashTable::new(),
        staging: PackingStage::new(4, block_size, 95).unwrap(),
        catalog: Catalog { entries: Vec::new() },
        checkpoint: None,
    };
    let mut blocks: Vec<PackedBlock> = Vec::new();
    for (name, data) in files {
        let (chunks, entry) = plan_bytes(name, data, block_size);
        for chunk in chunks {
            if let Some(block) = core.offer_chunk(chunk).unwrap() {
                for c in &block.chunks {
                    let place = BlockLocation::single(VolumeId(1), blocks.len() as u32, 0, 0);
                    core.record_chunk_location(c.hash, place).unwrap();
                }
                blocks.push(block);
            }
        }
        core.add_entry(entry);
    }
    blocks.extend(core.staging.flush_all());
    Archive { blocks, catalog: core.catalog }
}

// Small files in one chunk: their lengths, two bytes each, between their bytes.

fn pack(files: &[&[u8]]) -> Vec<u8> {
    let mut chunk = Vec::new();
    for data in files {
        chunk.extend((data.len() as u16).to_le_bytes());
        chunk.extend(*data);
    }
    chunk
}

fn unpack(chunk: &[u8], member: usize) -> Vec<u8> {
    let mut rest = chunk;
    for _ in 0..member {
        let length = u16::from_le_bytes([rest[0], rest[1]]) as usize;
        rest = &rest[2 + length..];
    }
    let length = u16::from_le_bytes([rest[0], rest[1]]) as usize;
    rest[2..2 + length].to_vec()
}

fn packed_archive(files: &[(&str, &[u8])]) -> Archive {
    let mut packer = SmallFilePacker::new(SMALL_FILE_THRESHOLD, 30, 100);
    let mut made = Archive { blocks: Vec::new(), catalog: Catalog { entries: Vec::new() } };
    let mut packs = Vec::new();
    for (name, data) in files {
        packs.extend(packer.push(SmallFileEntry {
            path: name.to_string(),
            data: data.to_vec(),
            hash: content_hash(data),
            permissions: 0o644,
            mtime: None,
            xattrs: Vec::new(),
        }));
    }
    packs.push(packer.take());
    for files in packs {
        let plan = plan_pack(&files);
        let members: Vec<&[u8]> = plan.unique.iter().map(|i| files[*i].data.as_slice()).collect();
        let chunk = packed_chunk(pack(&members));
        made.catalog.entries.extend(packed_entries(&files, &plan, &chunk));
        made.blocks.push(PackedBlock { chunks: vec![chunk] });
    }
    made
}

type Disk = std::collections::BTreeMap<String, Vec<u8>>;

fn extract(
    archive: &Archive,
    disk: &mut Disk,
    options: &ExtractOptions,
) -> Result<ExtractStats, EraError> {
    let mut context = ExtractionContext::new();
    let mut stats = ExtractStats::default();
    for (i, entry) in archive.catalog.entries.iter().enumerate() {
        let exists = disk.contains_key(&entry.path);
        match plan_entry(entry, i, exists, options, &mut context, &mut stats)? {
            EntryPlan::Create { size } => {
                disk.insert(entry.path.clone(), vec![0; size as usize]);
            },
            _ => {},
        }
    }
    for chunk in archive.blocks.iter().flat_map(|b| &b.chunks) {
        for action in context.process_chunk(&chunk.hash) {
            let mut length = chunk.data.len() as u64;
            match action {
                WriteAction::Whole { file } => {
                    disk.insert(archive.catalog.entries[file].path.clone(), chunk.data.clone());
                },
                WriteAction::Piece { file, offset, .. } => {
                    let path = &archive.catalog.entries[file].path;
                    let at = offset as usize;
                    disk.get_mut(path).unwrap()[at..at + chunk.data.len()]
                        .copy_from_slice(&chunk.data);
                },
                WriteAction::Packed { file, member } => {
                    let data = unpack(&chunk.data, member);
                    length = data.len() as u64;
                    disk.insert(archive.catalog.entries[file].path.clone(), data);
                },
            }
            stats.note(&action, length);
        }
    }
    conclude_extraction(&context)?;
    Ok(stats)
}

fn verify(archive: &Archive) -> VerifyStats {
    let mut context = plan_verification(&archive.catalog);
    let mut stats = VerifyStats::default();
    for (i, block) in archive.blocks.iter().enumerate() {
        stats.on_block(i as u32, 0);
        for chunk in &block.chunks {
            assert!(context.has_room(chunk, &stats));
            context.process_chunk(chunk, i as u32, &mut stats);
        }
    }
    assert!(context.is_countable());
    let paths: Vec<String> = archive.catalog.entries.iter().map(|e| e.path.clone()).collect();
    context.check_file_completeness(&mut stats, &paths);
    stats
}

#[test]
fn test_roundtrip() {
    let made = archive(
        &[("hello.txt", b"Hello, World!"), ("data.bin", &[1, 2, 3, 4, 5])],
        DEFAULT_BLOCK_SIZE,
    );
    assert_eq!(list_files(&made.catalog).len(), 2);

    let mut disk = Disk::new();
    let stats = extract(&made, &mut disk, &ExtractOptions::new("extracted")).unwrap();
    assert_eq!(stats.extracted, 2);
    assert_eq!(stats.bytes_written, 18);
    assert_eq!(disk["hello.txt"], b"Hello, World!");
    assert_eq!(disk["data.bin"], vec![1, 2, 3, 4, 5]);
}

#[test]
fn test_empty_archive_roundtrip() {
    let made = archive(&[], DEFAULT_BLOCK_SIZE);
    assert!(list_files(&made.catalog).is_empty());
}

#[test]
fn test_large_file_roundtrip() {
    let large_data = vec![b'X'; 512 * 1024];
    let made = archive(&[("large.bin", &large_data)], DEFAULT_BLOCK_SIZE);
    let mut disk = Disk::new();
    let stats = extract(&made, &mut disk, &ExtractOptions::new("extracted")).unwrap();
    assert_eq!(stats.extracted, 1);
    assert_eq!(stats.bytes_written, 512 * 1024);
    assert_eq!(disk["large.bin"], large_data);
}

#[test]
fn chunks_may_come_in_any_order() {
    let data: Vec<u8> = (0..100u8).collect();
    let mut made = archive(&[("small", b"abc"), ("large", &data), ("same", &data)], 7);
    made.blocks.reverse();
    let mut disk = Disk::new();
    let stats = extract(&made, &mut disk, &ExtractOptions::new("extracted")).unwrap();
    assert_eq!(stats.extracted, 3);
    assert_eq!(disk["small"], b"abc");
    assert_eq!(disk["large"], data);
    assert_eq!(disk["same"], data);
}

#[test]
fn small_files_come_back_from_their_packs() {
    let files: [(&str, &[u8]); 6] = [
        ("a.txt", b"first"),
        ("b.txt", b"second file"),
        ("copy of a.txt", b"first"),
        ("c.txt", b"a third one"),
        ("d.txt", b"x"),
        ("e/f.txt", b"the last"),
    ];
    let mut made = packed_archive(&files);
    assert_eq!(made.blocks.len(), 2);
    assert!(made.catalog.entries.iter().all(|e| e.chunks[0].packed.is_some()));
    made.blocks.reverse();
    let mut disk = Disk::new();
    let stats = extract(&made, &mut disk, &ExtractOptions::new("extracted")).unwrap();
    assert_eq!(stats.extracted, 6);
    assert_eq!(stats.bytes_written, 41);
    for (name, data) in files {
        assert_eq!(disk[name], data);
    }
}

#[test]
fn missing_pack_is_noticed() {
    let mut made = packed_archive(&[("a.txt", b"first"), ("b.txt", b"second")]);
    made.blocks.clear();
    let result = extract(&made, &mut Disk::new(), &ExtractOptions::new("extracted"));
    assert!(matches!(result, Err(EraError::ErasureError(_))));
}

#[test]
fn test_unicode_roundtrip() {
    let made = archive(&[("文档.txt", "这是中文内容".as_bytes())], DEFAULT_BLOCK_SIZE);
    let mut disk = Disk::new();
    extract(&made, &mut disk, &ExtractOptions::new("extracted")).unwrap();
    assert_eq!(disk["文档.txt"], "这是中文内容".as_bytes());
}

#[test]
fn test_overwrite_protection() {
    let made = archive(&[("file.txt", b"new content")], DEFAULT_BLOCK_SIZE);
    let mut disk = Disk::new();
    disk.insert("file.txt".to_string(), b"original content".to_vec());
    let stats = extract(&made, &mut disk, &ExtractOptions::new("extracted")).unwrap();

    assert_eq!(stats.skipped, 1);
    assert_eq!(stats.extracted, 0);
    assert_eq!(disk["file.txt"], b"original content");
}

#[test]
fn test_overwrite_enabled() {
    let made = archive(&[("file.txt", b"new content")], DEFAULT_BLOCK_SIZE);
    let mut disk = Disk::new();
    disk.insert("file.txt".to_string(), b"original content".to_vec());
    let options = ExtractOptions::new("extracted").overwrite(true);
    let stats = extract(&made, &mut disk, &options).unwrap();

    assert_eq!(stats.extracted, 1);
    assert_eq!(disk["file.txt"], b"new content");
}

#[test]
fn test_nested_directory_structure() {
    let made = archive(
        &[("a/b/c/deep.txt", b"deep content"), ("a/shallow.txt", b"shallow")],
        DEFAULT_BLOCK_SIZE,
    );
    let mut disk = Disk::new();
    extract(&made, &mut disk, &ExtractOptions::new("extracted")).unwrap();
    assert_eq!(disk["a/b/c/deep.txt"], b"deep content");
    assert_eq!(disk["a/shallow.txt"], b"shallow");
}

#[test]
fn file_of_many_chunks_comes_back() {
    let data: Vec<u8> = (0..1000u32).map(|i| (i * 7 % 251) as u8).collect();
    let made = archive(&[("many.bin", &data), ("again.bin", &data)], 64);
    let mut disk = Disk::new();
    let stats = extract(&made, &mut disk, &ExtractOptions::new("extracted")).unwrap();
    assert_eq!(stats.extracted, 2);
    assert_eq!(stats.bytes_written, 2000);
    assert_eq!(disk["many.bin"], data);
    assert_eq!(disk["again.bin"], data);
}

#[test]
fn missing_block_is_noticed() {
    let data: Vec<u8> = (0..1000u32).map(|i| (i * 7 % 251) as u8).collect();
    let mut made = archive(&[("many.bin", &data)], 64);
    made.blocks.pop();
    let mut disk = Disk::new();
    let r = extract(&made, &mut disk, &ExtractOptions::new("extracted"));
    assert!(matches!(r, Err(EraError::ErasureError(_))));
    let stats = verify(&made);
    assert_eq!(stats.files_incomplete, 1);
    assert!(!stats.is_ok());
}

#[test]
fn test_verify_valid_archive() {
    let made = archive(
        &[
            ("file1.txt", b"Hello, World!"),
            ("file2.txt", b"More content here"),
            ("binary.bin", &[0u8; 1024]),
        ],
        DEFAULT_BLOCK_SIZE,
    );
    let stats = verify(&made);
    assert!(stats.is_ok(), "Verification should pass");
    assert!(stats.blocks_verified > 0);
    assert_eq!(stats.blocks_failed, 0);
    assert_eq!(stats.files_verified, 3);
    assert_eq!(stats.files_incomplete, 0);
    assert!(stats.errors.is_empty());
}

#[test]
fn test_verify_large_chunked_file() {
    let large_data = vec![b'A'; 512 * 1024];
    let made = archive(&[("large.bin", &large_data)], DEFAULT_BLOCK_SIZE);
    let stats = verify(&made);
    assert!(stats.is_ok(), "Verification should pass for chunked file");
    assert!(stats.bytes_verified > 0);
}

#[test]
fn test_verify_empty_archive() {
    let stats = verify(&archive(&[], DEFAULT_BLOCK_SIZE));
    assert!(stats.is_ok(), "Empty archive should verify ok");
    assert_eq!(stats.files_verified, 0);
}

#[test]
fn changed_chunk_is_noticed() {
    let mut made = archive(&[("file1.txt", b"Hello, World!")], DEFAULT_BLOCK_SIZE);
    made.blocks[0].chunks[0].data[0] = b'J';
    let stats = verify(&made);
    assert!(!stats.is_ok());
    assert_eq!(stats.errors.len(), 1);
}

#[test]
fn failed_blocks_are_counted() {
    let mut stats = VerifyStats::default();
    stats.on_block(3, 2);
    assert_eq!(stats.blocks_verified, 1);
    stats.on_block_failure("bad tag");
    assert_eq!(stats.blocks_failed, 1);
    assert!(stats.errors.iter().any(|e| e.contains("bad tag")));
}

#[test]
fn test_extraction_context_new() {
    let ctx = ExtractionContext::new();
    assert!(ctx.single_chunk_pending.is_empty());
    assert!(ctx.multi_chunk_files.is_empty());
    assert!(ctx.chunk_to_files.is_empty());
    assert!(!ctx.has_pending());
}

#[test]
fn test_verification_context_new() {
    let ctx = VerificationContext::new(10);
    assert!(ctx.expected_chunks.is_empty());
    assert_eq!(ctx.file_chunks_found.len(), 10);
}

#[test]
fn test_verify_stats_is_ok() {
    let stats = VerifyStats::default();
    assert!(stats.is_ok());

    let failed_stats = VerifyStats { blocks_failed: 1, ..Default::default() };
    assert!(!failed_stats.is_ok());
}

#[test]
fn test_max_declared_file_size_constant() {
    assert_eq!(MAX_DECLARED_FILE_SIZE, 100 * 1024 * 1024 * 1024);
}

// Single entries

fn entry(path: &str, size: u64, hash: Option<ChunkHash>, chunks: Vec<ChunkRef>) -> FileEntry {
    FileEntry { path: path.to_string(), file_type: FileType::File, size, hash, chunks }
}

fn plan(e: &FileEntry) -> Result<EntryPlan, EraError> {
    let mut context = ExtractionContext::new();
    let mut stats = ExtractStats::default();
    plan_entry(e, 0, false, &ExtractOptions::new("out"), &mut context, &mut stats)
}

#[test]
fn dangerous_paths_are_refused() {
    let hash = content_hash(b"x");
    for path in ["../up.txt", "/etc/passwd", "a/../../b"] {
        assert!(matches!(plan(&entry(path, 1, Some(hash), vec![])), Err(EraError::Security(_))));
    }
}

#[test]
fn links_are_refused() {
    let e = entry("link", 1, Some(content_hash(b"x")), vec![]);
    let e = FileEntry { file_type: FileType::Symlink, ..e };
    assert!(matches!(plan(&e), Err(EraError::Security(m)) if m.contains("link")));
}

#[test]
fn impossible_size_is_refused() {
    let piece = ChunkRef { hash: content_hash(b"x"), offset: 0, length: 1, packed: None };
    let e = entry("big", MAX_DECLARED_FILE_SIZE + 1, None, vec![piece, piece]);
    assert!(plan(&e).is_err());
    let e = entry("big", MAX_DECLARED_FILE_SIZE, None, vec![piece, piece]);
    assert_eq!(plan(&e).unwrap(), EntryPlan::Create { size: MAX_DECLARED_FILE_SIZE });
}

#[test]
fn packed_files_share_a_chunk() {
    let shared = content_hash(b"shared");
    let mut context = ExtractionContext::new();
    let mut stats = ExtractStats::default();
    let options = ExtractOptions::new("out");
    for i in 0..2 {
        let piece = ChunkRef {
            hash: shared,
            offset: 0,
            length: 6,
            packed: Some(PackedRef { file_index: 1 - i, file_count: 2 }),
        };
        let e = entry("small", 3, None, vec![piece]);
        let plan = plan_entry(&e, i, false, &options, &mut context, &mut stats).unwrap();
        assert_eq!(plan, EntryPlan::Awaited);
    }
    assert!(conclude_extraction(&context).is_err());
    let actions = context.process_chunk(&shared);
    assert_eq!(
        actions,
        vec![
            WriteAction::Packed { file: 0, member: 1 },
            WriteAction::Packed { file: 1, member: 0 },
        ]
    );
    assert!(conclude_extraction(&context).is_ok());
    assert!(context.process_chunk(&shared).is_empty());
}

#[test]
fn file_finishes_with_its_last_piece() {
    let (a, b) = (content_hash(b"a"), content_hash(b"b"));
    let mut context = ExtractionContext::new();
    let pieces = vec![
        ChunkRef { hash: a, offset: 0, length: 1, packed: None },
        ChunkRef { hash: b, offset: 1, length: 1, packed: None },
        ChunkRef { hash: a, offset: 2, length: 1, packed: None },
    ];
    context.expect_pieces(4, 3, &pieces);
    assert!(context.incomplete_files().is_empty());
    assert_eq!(
        context.process_chunk(&b),
        vec![WriteAction::Piece { file: 4, chunk: 1, offset: 1, finished: None }]
    );
    let partial = context.incomplete_files();
    assert_eq!(partial.len(), 1);
    assert_eq!((partial[0].file, partial[0].written, partial[0].total), (4, 1, 3));
    assert_eq!(
        context.process_chunk(&a),
        vec![
            WriteAction::Piece { file: 4, chunk: 0, offset: 0, finished: None },
            WriteAction::Piece { file: 4, chunk: 2, offset: 2, finished: Some(3) },
        ]
    );
    assert!(!context.has_pending());
    assert!(context.incomplete_files().is_empty());
}

// Opening

#[test]
fn first_key_opens() {
    let mut search = UnlockSearch::new(AccessPolicy::AnyOfN, 2, 2).unwrap();
    assert_eq!(search.next_try(), Some((0, 0)));
    search.on_answer(None);
    assert_eq!(search.next_try(), Some((0, 1)));
    search.on_answer(Some(vec![7; 32]));
    assert_eq!(search.next_try(), None);
    assert!(matches!(search.finish(), Ok(Unlocked::Key(k)) if k == [7; 32]));
}

#[test]
fn no_key_no_entry() {
    let mut search = UnlockSearch::new(AccessPolicy::AnyOfN, 1, 1).unwrap();
    search.on_answer(None);
    assert_eq!(search.next_try(), None);
    assert!(search.finish().is_err());
}

#[test]
fn threshold_needs_enough_shares() {
    let mut search = UnlockSearch::new(AccessPolicy::Threshold(2), 3, 1).unwrap();
    search.on_answer(Some(vec![1]));
    search.on_answer(None);
    assert_eq!(search.next_try(), Some((2, 0)));
    search.on_answer(Some(vec![2]));
    match search.finish().unwrap() {
        Unlocked::Shares(shares, t) => assert_eq!((shares, t), (vec![vec![1], vec![2]], 2)),
        other => panic!("unexpected {other:?}"),
    }
    let mut search = UnlockSearch::new(AccessPolicy::Threshold(2), 2, 1).unwrap();
    search.on_answer(Some(vec![1]));
    search.on_answer(None);
    assert!(matches!(
        search.finish(),
        Err(EraError::ThresholdNotMet { required: 2, provided: 1 })
    ));
}

#[test]
fn shares_are_wiped() {
    let mut shares = vec![vec![1, 2, 3], vec![4]];
    wipe_shares(&mut shares);
    assert!(shares.iter().all(|s| s.iter().all(|b| *b == 0)));
}

#[test]
fn session_opens_no_threshold_archive() {
    assert!(check_session_policy(AccessPolicy::AnyOfN).is_ok());
    assert!(check_session_policy(AccessPolicy::Threshold(2)).is_err());
}

// Metadata

fn probe(has_index: bool, has_catalog_location: bool) -> MetadataProbe {
    MetadataProbe { has_footer: true, has_index, has_catalog_location, block_count: 1 }
}

#[test]
fn first_volume_with_metadata_is_taken() {
    let volumes = [probe(false, false), probe(true, true), probe(true, true)];
    assert_eq!(index_volume(&volumes), Some(1));
    assert_eq!(catalog_volume(&volumes).unwrap(), 1);
    assert_eq!(index_volume(&volumes[..1]), None);
    assert!(matches!(catalog_volume(&[]), Err(EraError::EmptyArchive)));
}

#[test]
fn catalog_is_cut_out_of_its_block() {
    assert_eq!(catalog_bytes(&[(2, 3)], b"xxabcyy").unwrap(), b"abc");
    assert!(matches!(catalog_bytes(&[], b"abc"), Err(EraError::EmptyCatalog)));
    assert!(matches!(catalog_bytes(&[(2, 3)], b"abcd"), Err(EraError::Decompression(_))));
}

fn coded_location() -> BlockLocation {
    BlockLocation {
        volume_id: VolumeId(10),
        slot_index: 3,
        physical_offset: 4096,
        encrypted_size: 50,
        erasure_info: Some(ErasureBlockInfo {
            data_shards: 2,
            parity_shards: 1,
            shard_size: 50,
            original_len: 50,
        }),
        // Those of the other shards: the block itself is shard 1.
        shard_offsets: Some(vec![100, 300]),
        shard_volumes: Some(vec![0, 2]),
    }
}

#[test]
fn shards_are_read_from_their_volumes() {
    let tags: Vec<VolumeTag> =
        [2, 0].iter().map(|s| VolumeTag { volume_id: VolumeId(*s as u128), sequence: *s }).collect();
    match plan_block_read(&coded_location(), &tags).unwrap() {
        BlockReadPlan::Shards { own, reads } => {
            assert_eq!(own, 1);
            assert_eq!(
                reads,
                vec![
                    ShardRead { shard: 0, volume: 1, offset: 100 },
                    ShardRead { shard: 2, volume: 0, offset: 300 },
                ]
            );
        },
        other => panic!("unexpected {other:?}"),
    }
}

#[test]
fn shards_without_places_are_refused() {
    let location = BlockLocation { shard_offsets: None, ..coded_location() };
    assert!(matches!(plan_block_read(&location, &[]), Err(EraError::IntegrityError(_))));
    let location = BlockLocation { shard_volumes: None, ..coded_location() };
    assert!(matches!(plan_block_read(&location, &[]), Err(EraError::IntegrityError(_))));
    let plain = BlockLocation::single(VolumeId(1), 0, 0, 5);
    assert!(matches!(plan_block_read(&plain, &[]), Ok(BlockReadPlan::Plain)));
}

#[test]
fn shard_must_fit_its_header() {
    let header = Some(ShardHeader { length: 3, crc: 0 });
    assert_eq!(accept_shard(header, vec![1, 2, 3], true).unwrap(), vec![1, 2, 3]);
    assert!(accept_shard(header, vec![1, 2, 3], false).is_err());
    assert!(accept_shard(None, vec![1, 2, 3], true).is_err());
}

#[test]
fn too_many_failures_in_a_row_stop() {
    let mut run = FailureRun::new();
    for _ in 1..MAX_CONSECUTIVE_FAILURES {
        run.on_failure("bad block").unwrap();
    }
    run.on_success();
    for _ in 1..MAX_CONSECUTIVE_FAILURES {
        run.on_failure("bad block").unwrap();
    }
    assert!(run.on_failure("bad block").is_err());
}

#[test]
fn internal_entries_are_not_listed() {
    let catalog = Catalog {
        entries: vec![
            entry(".era/meta/index.bin", 1, None, vec![]),
            entry("a.txt", 1, None, vec![]),
        ],
    };
    assert_eq!(list_files(&catalog), vec![1]);
    assert_eq!(plan(&catalog.entries[0]).unwrap(), EntryPlan::Internal);
}

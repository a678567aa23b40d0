use era_engine::auth::{
    certificate_plan, split_sealed_key, AccessPolicy, PasswordProvider, RecipientSlot,
    RecipientType,
};
use era_engine::catalog::{plan_bytes, Catalog, ChunkRef, FileEntry, FileType, PackedRef};
use era_engine::chunk_processor::ExtractStats;
use era_engine::compact_compactor::{
    plan_discovery, resolve_live_data_block_ids, sorted_distinct, CompactSourcePreflight,
    DiscoveryPlan,
};
use era_engine::compact_reader::{
    assemble, block_of_piece, compact_master_key, file_pieces, piece_bytes, plan_compact_entry,
    unpacked_piece, validate_path_safety, ChunkSearch, CompactEntryPlan, CompactExtractStats,
};
use era_engine::compact_writer::{
    build_compact_header, bundle_header, compact_volumes, group_snapshots_into_stripes,
    pad_stripe_inputs, require_catalog, snapshot_to_shard_input, CompactStats,
};
use era_engine::erasure_stage::{BlockMeta, EncryptedMacroBlock, ErasureStage, Stripe};
use era_engine::hash_table::HashTable;
use era_engine::hashing::content_hash;
use era_engine::lsm_manifest::{
    check_restored_path, create_embedded_lsm_restore_dir, lsm_dir_name, serialize_lsm_dir, LsmEntry, ManifestReader,
    MAX_LSM_ENTRY_COUNT,
};
use era_engine::ordering::{stable_order, ByteKeys, NumberKeys};
use era_engine::paths::{find_path_fault, PathFault};
use era_engine::repack::{
    check_paths_differ, preserve_key_access, preserve_password_access, repack_stats, KeyAccess,
    KeyPairKind, PasswordAccess, SlotFacts,
};
use era_engine::secrets::{
    combine_keys, key_from, random_key, random_number,
};
use era_engine::source_block_snapshot::{
    compact_volume_for_shard, ensure_complete_source_volume_set,
    source_data_block_snapshots_from_stripe, stripe_batch_from_stripe,
};
use era_engine::text::{hex_text, with_number, with_numbers, with_text};
use era_engine::types::{ChunkHash, EraError, ErasureCodeConfig};
use era_engine::volumes::{
    base_name, check_enough_volumes, missing_volumes, reader_map, scan_tolerance, sort_volumes,
    volume_file_name, FoundVolume, RepairProbe, RepairVolumeSearch, VolumeProbe, VolumeSearch,
};

fn text_of(e: EraError) -> String {
    format!("{e:?}")
}

// Keys

#[test]
fn combined_keys_come_apart() {
    let (a, b) = (random_key(), random_key());
    assert_ne!(a, b);
    let both = combine_keys(&a, &b);
    assert_eq!(combine_keys(&both, &b), a);
    assert_eq!(combine_keys(&a, &a), [0; 32]);
    assert_eq!(key_from(&a), Some(a));
    assert_eq!(key_from(&a[1..]), None);
}

#[test]
fn random_numbers_differ() {
    assert_ne!(random_number(), random_number());
}

fn slot(r_type: RecipientType) -> RecipientSlot {
    RecipientSlot {
        r_type,
        key_id: Some([7; 8]),
        params: vec![5; 32],
        encrypted_master_key: vec![0; 72],
    }
}

#[test]
fn sealed_key_has_nonce_and_tag() {
    let sealed: Vec<u8> = (0..72).collect();
    let parts = split_sealed_key(&sealed).unwrap();
    assert_eq!(parts.nonce, sealed[..24]);
    assert_eq!(parts.ciphertext, sealed[24..]);
    assert!(split_sealed_key(&sealed[..39]).is_none());
    assert!(split_sealed_key(&sealed[..40]).is_some());
}

#[test]
fn password_opens_password_slots() {
    let mut provider = PasswordProvider::new("secret".to_string());
    assert!(provider.applies(&slot(RecipientType::ScryptPassword)));
    assert!(!provider.applies(&slot(RecipientType::HybridKem)));
    provider.wipe();
    assert_eq!(provider.password, "");
}

#[test]
fn certificate_opens_its_own_slot() {
    let mine = slot(RecipientType::X25519PubKey);
    assert_eq!(certificate_plan(&mine, &[7; 8]).unwrap(), Some([5; 32]));
    assert_eq!(certificate_plan(&mine, &[8; 8]).unwrap(), None);
    assert_eq!(certificate_plan(&slot(RecipientType::ScryptPassword), &[7; 8]).unwrap(), None);
    let short = RecipientSlot { params: vec![5; 31], ..slot(RecipientType::X25519PubKey) };
    assert!(matches!(certificate_plan(&short, &[7; 8]), Err(EraError::InvalidKey(_))));
}

// Repacking

#[test]
fn repacking_keeps_access() {
    let any = AccessPolicy::AnyOfN;
    assert_eq!(preserve_password_access(any, &[RecipientType::ScryptPassword], 1).unwrap(), PasswordAccess::Single);
    assert!(preserve_password_access(any, &[RecipientType::ScryptPassword], 2).is_err());
    assert!(preserve_password_access(any, &[RecipientType::HybridKem], 1).is_err());
    let two = AccessPolicy::Threshold(2);
    let types = [RecipientType::ScryptPassword, RecipientType::ScryptPassword];
    assert_eq!(preserve_password_access(two, &types, 2).unwrap(), PasswordAccess::Threshold(2));
    assert!(preserve_password_access(AccessPolicy::Threshold(1), &types, 2).is_err());

    let facts = |r_type| SlotFacts { r_type, key_id: Some([1; 8]) };
    let pair = |id: u8| KeyPairKind::Legacy { key_id: vec![id; 8] };
    assert_eq!(
        preserve_key_access(any, &[facts(RecipientType::X25519PubKey)], &[pair(2), pair(1)]).unwrap(),
        KeyAccess::Certificate(1)
    );
    assert!(preserve_key_access(any, &[facts(RecipientType::X25519PubKey)], &[pair(2)]).is_err());
    assert_eq!(
        preserve_key_access(any, &[facts(RecipientType::HybridKem)], &[KeyPairKind::Hybrid]).unwrap(),
        KeyAccess::Hybrid
    );
    let slots = [facts(RecipientType::HybridKem), facts(RecipientType::HybridKem)];
    assert!(preserve_key_access(two, &slots, &[KeyPairKind::Hybrid]).is_err());
    assert_eq!(
        preserve_key_access(two, &slots, &[KeyPairKind::Hybrid, KeyPairKind::Hybrid]).unwrap(),
        KeyAccess::HybridThreshold(2)
    );
}

#[test]
fn repacking_counts_both_sides() {
    assert!(check_paths_differ("a", Some("a")).is_err());
    assert!(check_paths_differ("a", Some("b")).is_ok());
    assert!(check_paths_differ("a", None).is_ok());
    let mut extracted = ExtractStats::default();
    extracted.extracted = 3;
    extracted.bytes_written = 40;
    let written = era_engine::catalog::ArchiveStats {
        archive_id: 1,
        total_files: 3,
        total_size: 41,
        blocks_written: 2,
    };
    let stats = repack_stats(&extracted, &written);
    assert_eq!((stats.files_repacked, stats.extracted_bytes), (3, 40));
    assert_eq!((stats.repacked_total_size, stats.blocks_written), (41, 2));
}

// Compact archives

fn stripe(blocks: &[&[u8]]) -> Stripe {
    let mut stage = ErasureStage::new(Some(ErasureCodeConfig::new(3, 1))).unwrap();
    for (i, data) in blocks.iter().enumerate() {
        let block = EncryptedMacroBlock {
            block_id: 10 + i as u64,
            data: data.to_vec(),
            original_size: 0,
            compressed_size: 0,
            chunk_count: 1,
        };
        if let Some(stripe) = stage.buffer_block(block, BlockMeta { chunk_hashes: vec![] }).unwrap() {
            return stripe;
        }
    }
    stage.flush().unwrap().unwrap()
}

#[test]
fn stripe_is_taken_apart_and_filled_up() {
    let stripe = stripe(&[b"abc", b"de"]);
    let batch = stripe_batch_from_stripe(&stripe, 4).unwrap();
    assert_eq!(batch.stripe_lengths, vec![3, 2]);
    assert_eq!(batch.members[1].canonical_encrypted_bytes, b"de");
    let snapshots = source_data_block_snapshots_from_stripe(&stripe, 4).unwrap();
    assert_eq!(snapshots[1].block_id, 11);
    assert_eq!(snapshots[1].member_position_in_stripe, 1);
    let groups = group_snapshots_into_stripes(&snapshots);
    assert_eq!(groups.len(), 1);
    assert_eq!((groups[0].ordinal, groups[0].members.len()), (4, 2));
    let mut inputs = snapshots.iter().map(snapshot_to_shard_input).collect();
    pad_stripe_inputs(&mut inputs, 3, 0, 1000);
    assert_eq!(inputs.len(), 3);
    let positions: Vec<u16> = inputs.iter().map(|i| i.member_position_in_stripe).collect();
    assert_eq!(positions, vec![0, 1, 2]);
    assert!(inputs[2].block_id >= 1000);
}

#[test]
fn stripes_are_grouped_by_ordinal() {
    let mut snapshots = source_data_block_snapshots_from_stripe(&stripe(&[b"a"]), 9).unwrap();
    snapshots.extend(source_data_block_snapshots_from_stripe(&stripe(&[b"b", b"c"]), 2).unwrap());
    let groups = group_snapshots_into_stripes(&snapshots);
    let ordinals: Vec<u64> = groups.iter().map(|g| g.ordinal).collect();
    assert_eq!(ordinals, vec![2, 9]);
    assert_eq!(groups[0].members, vec![1, 2]);
    assert_eq!(groups[1].members, vec![0]);
}

#[test]
fn all_volumes_are_needed() {
    assert!(ensure_complete_source_volume_set(3, &[0, 1, 2]).is_ok());
    let e = ensure_complete_source_volume_set(4, &[0, 2]).unwrap_err();
    assert!(text_of(e).contains("missing source volumes before compaction: [1, 3]"));
    assert!(ensure_complete_source_volume_set(0, &[]).is_err());
    assert!(CompactSourcePreflight::from_archive([1; 16], 3, &[0, 1], true).is_err());
    let p = CompactSourcePreflight::from_archive([1; 16], 3, &[0, 1], false).unwrap();
    assert_eq!(p.available_volume_indices, vec![0, 1]);
    let on: Vec<usize> = (0..4).map(|s| compact_volume_for_shard(s, 1, 4).unwrap()).collect();
    assert!(compact_volume_for_shard(0, 0, 0).is_err());
    assert_eq!(on, vec![1, 2, 3, 0]);
}

#[test]
fn live_blocks_are_found() {
    assert_eq!(plan_discovery(0, false, false).unwrap(), DiscoveryPlan::Nothing);
    assert_eq!(plan_discovery(1, true, true).unwrap(), DiscoveryPlan::LookUp);
    assert_eq!(plan_discovery(1, false, true).unwrap(), DiscoveryPlan::Walk);
    assert!(plan_discovery(1, false, false).is_err());
    assert_eq!(sorted_distinct(vec![5, 1, 5, 3]), vec![1, 3, 5]);
    let hashes = [ChunkHash([0xab; 32]), ChunkHash([2; 32])];
    assert_eq!(resolve_live_data_block_ids(&hashes, &[Some(4), Some(4)]).unwrap(), vec![4]);
    let e = resolve_live_data_block_ids(&hashes, &[None, Some(4)]).unwrap_err();
    assert!(text_of(e).contains("abababab"));
}

#[test]
fn compact_bundle_is_described() {
    assert_eq!(compact_volumes(Some(ErasureCodeConfig::new(4, 2))).unwrap(), 6);
    assert!(compact_volumes(None).is_err());
    assert!(require_catalog(true).is_ok() && require_catalog(false).is_err());
    let header = bundle_header(77, 6, Some(2));
    assert_eq!((header.bundle_id, header.volume_sequence, header.threshold), (77, 0, 2));
    let (a, b) = (build_compact_header(6, None), build_compact_header(6, None));
    assert_ne!(a.bundle_id, b.bundle_id);
    assert_eq!((a.total_compact_volumes, a.threshold), (6, 0));
    assert_eq!(CompactStats::default().total_blocks, 0);
}

fn catalog() -> Catalog {
    let (_, one) = plan_bytes("one.txt", b"one", 100);
    let (_, many) = plan_bytes("many.txt", b"abcdef", 2);
    Catalog { entries: vec![one, many] }
}

#[test]
fn chunks_are_searched_in_blocks() {
    let catalog = catalog();
    let one = catalog.entries[0].hash.unwrap();
    let pieces: Vec<ChunkHash> = catalog.entries[1].chunks.iter().map(|c| c.hash).collect();
    let mut search = ChunkSearch::new(&catalog);
    search.on_block(3, &[pieces[0], pieces[1]]);
    search.on_block(4, &[pieces[0], one]);
    assert!(!search.is_done());
    search.on_block(5, &[pieces[2]]);
    let found = search.finish().unwrap();
    assert_eq!(found.get(&pieces[0]), Some(&3));
    assert_eq!(block_of_piece(&found, &one, "one.txt").unwrap(), 4);
    assert!(block_of_piece(&HashTable::new(), &one, "one.txt").is_err());
    let unfinished = ChunkSearch::new(&catalog).finish();
    assert!(unfinished.is_err());
    assert_eq!(piece_bytes(Some(vec![1]), 3, "a").unwrap(), vec![1]);
    assert!(piece_bytes(None, 3, "a").is_err());
}

#[test]
fn file_is_assembled_from_its_pieces() {
    for data in [b"one chunk".to_vec(), (0..100u8).collect()] {
        let (chunks, entry) = plan_bytes("a", &data, 32);
        let mut found = Vec::new();
        for piece in file_pieces(&entry) {
            assert_eq!(piece.member, None);
            found.push(chunks.iter().find(|c| c.hash.same(&piece.hash)).unwrap().data.clone());
        }
        assert_eq!(found.len(), chunks.len());
        assert_eq!(assemble(&found), data);
    }
    let packed = FileEntry {
        path: "b".to_string(),
        file_type: FileType::File,
        size: 3,
        hash: None,
        chunks: vec![ChunkRef {
            hash: ChunkHash([7; 32]),
            offset: 0,
            length: 9,
            packed: Some(PackedRef { file_index: 2, file_count: 4 }),
        }],
    };
    let pieces = file_pieces(&packed);
    assert_eq!(pieces.len(), 1);
    assert_eq!((pieces[0].hash.0, pieces[0].member), ([7; 32], Some(2)));
    assert_eq!(assemble(&Vec::new()), Vec::<u8>::new());
    assert_eq!(unpacked_piece(Ok(vec![5])).unwrap(), vec![5]);
    match unpacked_piece(Err("too short".to_string())) {
        Err(EraError::IntegrityError(m)) => assert_eq!(m, "packed unpack failed: too short"),
        _ => panic!("refused"),
    }
}

#[test]
fn compact_entries_are_planned() {
    let catalog = catalog();
    assert_eq!(plan_compact_entry(&catalog.entries[1]).unwrap(), CompactEntryPlan::Assemble);
    let bad = FileEntry {
        path: "../x".to_string(),
        file_type: FileType::File,
        size: 0,
        hash: None,
        chunks: Vec::<ChunkRef>::new(),
    };
    assert!(matches!(plan_compact_entry(&bad), Err(EraError::Security(_))));
    let dir = FileEntry { path: "d".to_string(), file_type: FileType::Directory, ..bad };
    assert_eq!(plan_compact_entry(&dir).unwrap(), CompactEntryPlan::Directory);
    let link = FileEntry { file_type: FileType::Symlink, ..dir };
    assert!(matches!(plan_compact_entry(&link), Err(EraError::Security(_))));
    assert!(validate_path_safety("a/b").is_ok());
    assert!(text_of(validate_path_safety("/a").unwrap_err()).contains("absolute path"));
    assert_eq!(compact_master_key(Some(vec![3; 32])).unwrap(), [3; 32]);
    assert!(compact_master_key(Some(vec![3; 31])).is_err());
    assert!(compact_master_key(None).is_err());
    let mut stats = CompactExtractStats::default();
    stats.on_file(12);
    assert_eq!((stats.files_extracted, stats.bytes_written), (1, 12));
}

// The index directory in an archive

#[test]
fn restored_files_stay_below_the_directory() {
    assert!(check_restored_path("a", "/tmp/index/a", "/tmp/index").is_ok());
    assert!(check_restored_path("a", "/tmp/index", "/tmp/index/").is_ok());
    assert!(check_restored_path("a", "//tmp/./index/a", "/tmp/index").is_ok());
    assert!(check_restored_path("a", "/tmp/indexed/a", "/tmp/index").is_err());
    assert!(check_restored_path("a", "/etc/passwd", "/tmp/index").is_err());
    assert!(check_restored_path("a", "tmp/index/a", "/tmp/index").is_err());
    let e = check_restored_path("link/a", "/etc/a", "/tmp/index").unwrap_err();
    assert!(text_of(e).contains("Path traversal detected: link/a"));
}

fn lsm(path: &str, data: &[u8]) -> LsmEntry {
    LsmEntry { path: path.to_string(), data: data.to_vec() }
}

#[test]
fn index_files_come_back() {
    let files = vec![lsm("wal.log", b"12345"), lsm("sst/ä.sst", b"")];
    let bytes = serialize_lsm_dir(&files);
    let mut reader = ManifestReader::open(bytes, true).unwrap();
    let first = reader.next_entry().unwrap().unwrap();
    assert_eq!((first.path.as_str(), first.data.len()), ("sst/ä.sst", 0));
    let second = reader.next_entry().unwrap().unwrap();
    assert_eq!((second.path.as_str(), second.data.as_slice()), ("wal.log", &b"12345"[..]));
    assert!(reader.next_entry().unwrap().is_none());
}

#[test]
fn damaged_index_files_are_refused() {
    assert!(ManifestReader::open(vec![1, 2], true).is_err());
    assert!(ManifestReader::open((MAX_LSM_ENTRY_COUNT + 1).to_le_bytes().to_vec(), true).is_err());
    let mut bytes = serialize_lsm_dir(&vec![lsm("wal.log", b"12345")]);
    bytes.pop();
    let mut reader = ManifestReader::open(bytes, true).unwrap();
    assert!(reader.next_entry().is_err());
    let climbing = serialize_lsm_dir(&vec![lsm("../wal.log", b"1")]);
    assert!(ManifestReader::open(climbing, true).unwrap().next_entry().is_err());
    let mut bytes = serialize_lsm_dir(&vec![lsm("wal.log", b"12345")]);
    let at = bytes.iter().position(|b| *b == b'w').unwrap();
    bytes[at] = 0xff;
    assert!(ManifestReader::open(bytes, true).unwrap().next_entry().is_err());
}

#[test]
fn index_directories_have_names_of_their_own() {
    assert_eq!(lsm_dir_name("x_", 0xab), "x_00000000000000ab");
    assert_ne!(create_embedded_lsm_restore_dir(), create_embedded_lsm_restore_dir());
}

// Paths and texts

#[test]
fn paths_stay_inside() {
    assert_eq!(find_path_fault("a/b.txt"), None);
    assert_eq!(find_path_fault("/a"), Some(PathFault::Absolute));
    assert_eq!(find_path_fault("a/../b"), Some(PathFault::Climbs));
    assert_eq!(find_path_fault("a/..b"), None);
}

#[test]
fn texts_are_put_together() {
    assert_eq!(with_number("a", 120, "b"), "a120b");
    assert_eq!(with_numbers("", 0, "/", u64::MAX, "."), "0/18446744073709551615.");
    assert_eq!(with_text("<", "é", ">"), "<é>");
    assert_eq!(hex_text(&[0, 0x0f, 0xa0]), "000fa0");
    assert_eq!(hex_text(&content_hash(b"a").0), hex::encode(content_hash(b"a").0));
}

#[test]
fn equal_keys_keep_their_order() {
    assert_eq!(stable_order(&NumberKeys { keys: vec![3, 1, 3, 0] }), vec![3, 1, 0, 2]);
    let keys = ByteKeys { keys: vec![vec![2], vec![1, 9], vec![1]] };
    assert_eq!(stable_order(&keys), vec![2, 1, 0]);
}

#[test]
fn table_holds_the_last_value() {
    let mut table: HashTable<u64> = HashTable::new();
    table.insert(ChunkHash([2; 32]), 1);
    table.insert(ChunkHash([1; 32]), 2);
    table.insert(ChunkHash([2; 32]), 3);
    assert_eq!(table.len(), 2);
    assert_eq!(table.get(&ChunkHash([2; 32])), Some(&3));
    assert_eq!(table.take(&ChunkHash([2; 32])), Some(3));
    table.remove(&ChunkHash([1; 32]));
    assert!(table.is_empty());
}

// Volumes

#[test]
fn volumes_have_numbered_names() {
    assert_eq!(volume_file_name("archive.era", 1), "archive.era.001");
    for i in [1, 12, 1234] {
        assert_eq!(base_name(&volume_file_name("archive.era", i)), "archive.era");
    }
    assert_eq!(base_name("archive.era"), "archive.era");
    assert_eq!(base_name("other"), "other");
}

#[test]
fn search_goes_on_over_gaps() {
    let mut search = VolumeSearch::new(0, 0, Some(2));
    assert_eq!(search.tolerance, scan_tolerance(Some(2)));
    let mut tried = Vec::new();
    while let Some(i) = search.candidate() {
        tried.push(i);
        search.on_probe(if i == 2 { VolumeProbe::Found(2) } else { VolumeProbe::Absent });
    }
    assert!(tried.starts_with(&[1, 2, 3]));
    assert!(search.found.iter().any(|f| f.sequence == 2));
}

#[test]
fn known_number_of_volumes_is_tried() {
    let mut search = VolumeSearch::new(5, 1, None);
    let mut tried = Vec::new();
    while let Some(i) = search.candidate() {
        tried.push(i);
        search.on_probe(VolumeProbe::Absent);
    }
    assert_eq!(tried, vec![0, 2, 3, 4]);
}

#[test]
fn search_hands_out_every_volume_by_number() {
    let mut search = VolumeSearch::new(4, 1, None);
    while let Some(i) = search.candidate() {
        search.on_probe(match i {
            0 => VolumeProbe::Found(3),
            2 => VolumeProbe::Unusable,
            _ => VolumeProbe::Found(0),
        });
    }
    let order: Vec<(usize, usize)> =
        search.finish().iter().map(|f| (f.sequence, f.reader)).collect();
    assert_eq!(order, vec![(0, 2), (1, 0), (3, 1)]);
}

#[test]
fn volume_opened_first_is_kept_though_its_number_is_out_of_range() {
    let mut search = VolumeSearch::new(2, 7, None);
    while let Some(i) = search.candidate() {
        search.on_probe(if i == 1 { VolumeProbe::Found(1) } else { VolumeProbe::Absent });
    }
    assert_eq!(
        search.finish(),
        vec![FoundVolume { sequence: 1, reader: 1 }, FoundVolume { sequence: 7, reader: 0 }]
    );
}

#[test]
fn repair_stops_at_a_foreign_volume() {
    let mut search = RepairVolumeSearch::new(3, 0);
    assert_eq!(search.candidate(), Some(1));
    search.on_probe(RepairProbe::Found(1));
    search.on_probe(RepairProbe::Foreign);
    assert_eq!(search.candidate(), None);
    assert_eq!(search.sequences, vec![0, 1]);
    assert_eq!(missing_volumes(3, &search.sequences), vec![2]);
    assert_eq!(reader_map(&vec![2, 0], 3), vec![Some(1), None, Some(0)]);
    assert!(check_enough_volumes(1).is_err());
    assert!(check_enough_volumes(2).is_ok());
    let sorted = sort_volumes(&vec![
        FoundVolume { sequence: 4, reader: 0 },
        FoundVolume { sequence: 1, reader: 1 },
    ]);
    assert_eq!(sorted[0].sequence, 1);
}

use era_engine::block_iter::BlockType;
use era_engine::checkpoint::{
    can_have_footer, check_checkpoint_offset, check_checkpoint_type, checkpoint_block_size, checkpoint_exists,
    recovered_checkpoints, recovery_target, timestamp_of,
    volume_has_checkpoint, wants_backup_footer, Checkpoint, CheckpointManager, CheckpointSearch, FooterCheckpoint, FooterProbe, SearchStep,
    CHECKPOINT_VERSION,
};
use era_engine::hash_table::HashTable;
use era_engine::locations::{BlockLocation, VolumeId};
use era_engine::recovery::{
    check_truncation_cancelled, truncation_target, RecoverableWriter, RecoveryManager,
    RecoveryOptions, RecoveryStrategy, TruncationFacts,
};
use era_engine::types::{ChunkHash, EraError};

fn test_hash(byte: u8) -> ChunkHash {
    ChunkHash::from_bytes([byte; 32])
}

fn test_location(offset: u64, size: u32) -> BlockLocation {
    BlockLocation::single(VolumeId(0), 0, offset, size)
}

fn message(e: EraError) -> String {
    format!("{e:?}")
}

// Checkpoints

#[test]
fn timestamp_before_the_epoch_is_zero() {
    assert_eq!(timestamp_of(None), 0);
    assert_eq!(timestamp_of(Some(0)), 0);
    assert_eq!(timestamp_of(Some(1_700_000_000)), 1_700_000_000);
    assert!(Checkpoint::new(0, 0, 0, 0, 0, HashTable::new()).timestamp > 0);
}

#[test]
fn test_checkpoint_with_index() {
    let mut written_chunks = HashTable::new();
    let hash = ChunkHash::from_bytes([0u8; 32]);
    written_chunks.insert(hash, BlockLocation::single(VolumeId(3), 0, 1024, 4096));

    let checkpoint =
        Checkpoint::new(0, 1024, 4096, 10, 100, written_chunks).validated().unwrap();

    assert_eq!(checkpoint.written_chunks.len(), 1);
    assert_eq!(checkpoint.written_chunks.get(&hash).unwrap().physical_offset, 1024);
}

#[test]
fn test_in_progress_file() {
    let mut checkpoint = Checkpoint::new(0, 1024, 4096, 10, 100, HashTable::new());

    checkpoint.set_in_progress("/tmp/test.bin", 1024);
    assert!(checkpoint.in_progress_file.is_some());

    checkpoint.update_progress(512, 5);
    assert_eq!(checkpoint.in_progress_file.as_ref().unwrap().bytes_processed, 512);
    assert_eq!(checkpoint.in_progress_file.as_ref().unwrap().chunks_written, 5);

    checkpoint.mark_file_complete();
    assert!(checkpoint.in_progress_file.is_none());
    assert_eq!(checkpoint.total_files_processed, 11);
}

#[test]
fn test_checkpoint_manager_api() {
    let manager = CheckpointManager::with_hmac_key("/tmp/test.era", [0u8; 32]);
    assert_eq!(manager.checkpoint().version, CHECKPOINT_VERSION);

    let manager2 = CheckpointManager::load_or_create("/tmp/test.era").unwrap();
    assert_eq!(manager2.checkpoint().version, CHECKPOINT_VERSION);

    assert!(!checkpoint_exists(None, FooterProbe::NoSeek, FooterProbe::NoSeek));
}

#[test]
fn checkpoint_knows_the_time() {
    let checkpoint = Checkpoint::new(0, 0, 0, 0, 0, HashTable::new());
    // Later than the first day of 2020.
    assert!(checkpoint.timestamp > 1_577_836_800);
}

#[test]
fn checkpoint_of_another_version_is_refused() {
    let mut checkpoint = Checkpoint::at_time(5, 0, 0, 0, 0, 0, HashTable::new());
    assert_eq!(checkpoint.timestamp, 5);
    checkpoint.version = CHECKPOINT_VERSION + 1;
    assert!(matches!(checkpoint.validated(), Err(EraError::Deserialization(_))));
}

#[test]
fn manager_changes_nothing_without_a_volume() {
    let mut manager = CheckpointManager::new("/tmp/a.era");
    manager.checkpoint_mut().total_bytes_written = 77;
    assert!(manager.commit().is_ok());
    assert!(manager.sync().is_ok());
    assert!(manager.save().is_ok());
    assert!(manager.delete().is_ok());
    assert_eq!(manager.checkpoint().total_bytes_written, 77);
    manager.update_stats(5, 6);
    assert_eq!(manager.checkpoint().total_bytes_written, 5);
    assert_eq!(manager.checkpoint().total_files_processed, 6);
}

#[test]
fn positions_only_grow_within_a_volume() {
    let mut manager = CheckpointManager::new("/tmp/a.era");
    manager.update_position(0, 1000, 10).unwrap();
    assert!(matches!(manager.update_position(0, 999, 20), Err(EraError::InvalidConfig(_))));
    assert_eq!(manager.checkpoint().current_offset, 1000);
    manager.update_position(1, 5, 30).unwrap();
    assert_eq!(manager.checkpoint().current_offset, 5);
}

#[test]
fn footer_with_an_offset_has_a_checkpoint() {
    let valid = FooterProbe::Valid { last_checkpoint_offset: 4096 };
    let none = FooterProbe::Valid { last_checkpoint_offset: 0 };
    assert!(checkpoint_exists(Some(100_000), valid, FooterProbe::Invalid));
    assert!(!checkpoint_exists(Some(100_000), none, valid));
    assert!(checkpoint_exists(Some(100_000), FooterProbe::Invalid, valid));
    assert!(!checkpoint_exists(Some(10), valid, valid));
    assert!(wants_backup_footer(100_000, FooterProbe::Invalid));
    assert!(!wants_backup_footer(100_000, none));
    assert!(volume_has_checkpoint(100_000, valid, valid).unwrap());
}

#[test]
fn short_files_have_no_footer() {
    assert!(!can_have_footer(127));
    assert!(can_have_footer(128));
}

#[test]
fn recovery_brings_options_along() {
    assert!(RecoveryOptions::resume_with_verification().verify_existing_chunks);
    let manager = RecoveryManager::new("a.era", true, true);
    assert!(manager.can_recover());
    assert_eq!((manager.bytes_written(), manager.current_volume()), (0, 0));
    assert!(manager.in_progress_file().is_none());
    assert!(manager.cleanup().is_ok());
}

#[test]
fn checkpoint_lies_within_the_data() {
    assert!(check_checkpoint_offset(4096, 4096, 8192).is_ok());
    assert!(check_checkpoint_offset(4095, 4096, 8192).is_err());
    assert!(check_checkpoint_offset(8192, 4096, 8192).is_err());
    assert!(check_checkpoint_type(BlockType::Checkpoint).is_ok());
    assert!(check_checkpoint_type(BlockType::Data).is_err());
    assert!(checkpoint_block_size(12).is_ok());
    assert!(checkpoint_block_size(usize::MAX).is_err());
}

#[test]
fn recovery_starts_at_the_last_checkpoint() {
    assert!(recovery_target(None, 4096, 8192).unwrap().is_none());
    let mark = FooterCheckpoint { offset: 5000, block_id: 3 };
    assert_eq!(recovery_target(Some(mark), 4096, 8192).unwrap(), Some((5000, Some(3))));
    let outside = FooterCheckpoint { offset: 9000, block_id: 3 };
    assert!(recovery_target(Some(outside), 4096, 8192).is_err());
}

#[test]
fn unreadable_checkpoint_is_an_error() {
    let made = || Checkpoint::at_time(1, 0, 0, 0, 0, 0, HashTable::new());
    let search = CheckpointSearch::new(Some(1), 4096, 4096);
    assert_eq!(search.candidate(), 1);
    assert!(matches!(search.on_answer(None), SearchStep::Failed(EraError::Decryption(_))));
    assert!(matches!(search.on_answer(Some(made())), SearchStep::Found(_)));
    assert_eq!(recovered_checkpoints(None).len(), 0);
    assert_eq!(recovered_checkpoints(Some(Ok(made()))).len(), 1);
    assert_eq!(recovered_checkpoints(Some(Err(EraError::EmptyCatalog))).len(), 0);
}

#[test]
fn checkpoint_without_a_number_is_searched_for() {
    let made = || Checkpoint::at_time(7, 0, 0, 0, 0, 0, HashTable::new());
    let footer = FooterCheckpoint { offset: 4096, block_id: 0 };
    let (offset, id) = recovery_target(Some(footer), 4096, 9000).unwrap().unwrap();
    assert_eq!(id, None);
    let first = CheckpointSearch::new(id, offset, 4096);
    assert_eq!(first.candidate(), 0);
    assert!(matches!(first.on_answer(Some(made())), SearchStep::Found(c) if c.timestamp == 7));

    let mut search = CheckpointSearch::new(None, 4096 + 40, 4096);
    let mut tried = Vec::new();
    let end = loop {
        tried.push(search.candidate());
        match search.on_answer(None) {
            SearchStep::Continue(s) => search = s,
            step => break step,
        }
    };
    assert_eq!(tried, vec![0, 1, 2]);
    assert!(matches!(end, SearchStep::Failed(EraError::Decryption(_))));

    let mut stale = made();
    stale.version = CHECKPOINT_VERSION + 1;
    let search = CheckpointSearch::new(None, 4096 + 40, 4096);
    assert!(matches!(search.on_answer(Some(stale)), SearchStep::Continue(s) if s.candidate() == 1));
}

// What a run leaves behind

#[test]
fn test_analyze_no_checkpoint() {
    let status = RecoveryManager::analyze(false, false, None);

    assert!(!status.checkpoint_exists);
    assert!(!status.archive_exists);
    assert!(!status.recovery_needed);
    assert!(status.completed_files.is_empty());
    assert!(status.in_progress_file.is_none());
}

#[test]
fn test_recovery_manager_no_checkpoint() {
    let manager = RecoveryManager::new("test.era", false, false);

    assert!(!manager.can_recover());
    assert!(!manager.is_file_completed("/any/file.txt"));
    assert!(manager.completed_files().is_empty());
}

#[test]
fn test_recovery_options_default() {
    let opts = RecoveryOptions::default();
    assert_eq!(opts.strategy, RecoveryStrategy::Resume);
    assert!(!opts.verify_existing_chunks);
}

#[test]
fn test_recovery_options_start_fresh() {
    let opts = RecoveryOptions::start_fresh();
    assert_eq!(opts.strategy, RecoveryStrategy::StartFresh);
}

#[test]
fn test_recoverable_writer_new_fresh() {
    let writer =
        RecoverableWriter::new("test.era", RecoveryOptions::start_fresh(), false).unwrap();

    assert!(!writer.should_skip_file("/any/file.txt"));
    assert!(writer.get_existing_chunk(&test_hash(1)).is_none());
}

#[test]
fn test_recoverable_writer_abort_without_checkpoint() {
    let opts = RecoveryOptions { strategy: RecoveryStrategy::Abort, ..Default::default() };
    let result = RecoverableWriter::new("test.era", opts, false);
    assert!(result.is_err());
    let err = result.unwrap_err();
    assert!(
        matches!(err, EraError::CheckpointError(_)),
        "Expected CheckpointError, got: {err:?}"
    );
}

#[test]
fn test_recoverable_writer_resume_is_explicitly_unsupported() {
    let err = RecoverableWriter::new("test.era", RecoveryOptions::resume(), false).unwrap_err();

    assert!(
        matches!(err, EraError::CheckpointError(_)),
        "Expected CheckpointError, got: {err:?}"
    );

    let msg = message(err);
    assert!(
        msg.contains("does not support durable resume") && msg.contains("ArchiveWriterBuilder"),
        "resume error should direct callers to the supported durable path, got: {msg}"
    );
}

#[test]
fn test_recoverable_writer_tracking() {
    let mut writer =
        RecoverableWriter::new("test.era", RecoveryOptions::start_fresh(), false).unwrap();

    writer.start_file("/new_file.txt", 10000).unwrap();
    writer.update_progress(5000, 3).unwrap();
    writer.record_chunk(test_hash(99), test_location(500, 250)).unwrap();
    writer.mark_file_completed("/new_file.txt").unwrap();
    writer.update_position(0, 1000, 1000).unwrap();

    let cp = writer.checkpoint();
    assert!(cp.is_file_completed("/new_file.txt"));
    assert!(cp.get_chunk_location(&test_hash(99)).is_some());
    assert_eq!(cp.total_bytes_written, 1000);

    writer.sync().unwrap();
    writer.finalize().unwrap();
}

#[test]
fn latest_progress_counts() {
    let mut writer =
        RecoverableWriter::new("test.era", RecoveryOptions::start_fresh(), false).unwrap();
    writer.start_file("a", 100).unwrap();
    writer.update_progress(30, 1).unwrap();
    writer.update_progress(60, 2).unwrap();
    let file = writer.checkpoint().in_progress_file.as_ref().unwrap();
    assert_eq!((file.bytes_processed, file.chunks_written), (60, 2));
    assert!(!writer.should_skip_file("a"));
}

// Cutting back

#[test]
fn test_truncate_to_checkpoint_respects_pre_cancellation() {
    let result = check_truncation_cancelled(true);
    assert!(result.is_err(), "cancelled truncate must return explicit error");
    let msg = message(result.unwrap_err()).to_lowercase();
    assert!(msg.contains("cancel"), "expected cancellation error message, got: {msg}");
    assert!(check_truncation_cancelled(false).is_ok());
}

fn facts(data_end: Option<u64>) -> TruncationFacts {
    TruncationFacts {
        data_end,
        manifest_offset: None,
        manifest_length: None,
        volume_sequence: 0,
        committed_end: None,
    }
}

#[test]
fn truncation_keeps_what_is_committed() {
    assert_eq!(truncation_target(&facts(Some(5000))).unwrap(), 5000);
    assert!(truncation_target(&facts(None)).is_err());
    let with_manifest = |committed_end| TruncationFacts {
        manifest_offset: Some(4096),
        manifest_length: Some(100),
        committed_end,
        ..facts(Some(5000))
    };
    assert!(truncation_target(&with_manifest(Some(6000))).is_err());
    assert_eq!(truncation_target(&with_manifest(Some(5000))).unwrap(), 5000);
    assert_eq!(truncation_target(&with_manifest(None)).unwrap(), 5000);
    let cuts = TruncationFacts {
        manifest_offset: Some(4900),
        manifest_length: Some(200),
        ..facts(Some(5000))
    };
    assert!(truncation_target(&cuts).is_err());
}

#[test]
fn checkpoint_with_a_key_starts_fresh() {
    let manager =
        CheckpointManager::load_or_create_with_key("/tmp/test.era", Some([1; 32])).unwrap();
    assert_eq!(manager.checkpoint().chunks_written, 0);
    assert_eq!(manager.checkpoint().total_files_processed, 0);
    assert!(manager.checkpoint().in_progress_file.is_none());
}

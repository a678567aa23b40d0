//! Going on after an interrupted run.
use vstd::prelude::*;

use crate::block_iter::BLOCK_HEADER_SIZE;
use crate::checkpoint;
use crate::checkpoint::{Checkpoint, CheckpointManager, InProgressFile};
use crate::locations::BlockLocation;
use crate::text;
use crate::types::{ChunkHash, EraError};

verus! {

/// What is left of an interrupted run.
#[derive(Debug)]
pub struct RecoveryStatus {
    pub checkpoint_exists: bool,
    pub archive_exists: bool,
    pub recovery_needed: bool,
    /// Filled once the checkpoint is loaded.
    pub completed_files: Vec<String>,
    /// Filled once the checkpoint is loaded.
    pub in_progress_file: Option<String>,
    /// Filled once the checkpoint is loaded.
    pub chunks_written: usize,
    pub bytes_written: u64,
}

/// What to do about a checkpoint that is there.
#[derive(Debug, Clone, Copy, PartialEq, Eq, Structural)]
pub enum RecoveryStrategy {
    /// Ignore it.
    StartFresh,
    /// Go on from it.
    Resume,
    /// Fail and let the user decide.
    Abort,
}

/// How recovery behaves.
#[derive(Debug, Clone, Copy, PartialEq, Eq, Structural)]
pub struct RecoveryOptions {
    pub strategy: RecoveryStrategy,
    pub verify_existing_chunks: bool,
    pub backup_before_recovery: bool,
}

impl Default for RecoveryOptions {
    fn default() -> (r: Self)
        ensures
            r == (RecoveryOptions {
                strategy: RecoveryStrategy::Resume,
                verify_existing_chunks: false,
                backup_before_recovery: false,
            }),
    {
        RecoveryOptions {
            strategy: RecoveryStrategy::Resume,
            verify_existing_chunks: false,
            backup_before_recovery: false,
        }
    }
}

impl RecoveryOptions {
    pub fn start_fresh() -> (r: Self)
        ensures
            r == (RecoveryOptions {
                strategy: RecoveryStrategy::StartFresh,
                verify_existing_chunks: false,
                backup_before_recovery: false,
            }),
    {
        RecoveryOptions {
            strategy: RecoveryStrategy::StartFresh,
            verify_existing_chunks: false,
            backup_before_recovery: false,
        }
    }

    pub fn resume() -> (r: Self)
        ensures
            r == (RecoveryOptions {
                strategy: RecoveryStrategy::Resume,
                verify_existing_chunks: false,
                backup_before_recovery: false,
            }),
    {
        RecoveryOptions {
            strategy: RecoveryStrategy::Resume,
            verify_existing_chunks: false,
            backup_before_recovery: false,
        }
    }

    pub fn resume_with_verification() -> (r: Self)
        ensures
            r == (RecoveryOptions {
                strategy: RecoveryStrategy::Resume,
                verify_existing_chunks: true,
                backup_before_recovery: false,
            }),
    {
        RecoveryOptions {
            strategy: RecoveryStrategy::Resume,
            verify_existing_chunks: true,
            backup_before_recovery: false,
        }
    }
}

/// Reads what is left of an interrupted run.
#[derive(Debug)]
pub struct RecoveryManager {
    pub archive_path: String,
    pub checkpoint_manager: Option<CheckpointManager>,
}

/// What the footer of a volume tells about where it can be cut.
#[derive(Debug, Clone, Copy, PartialEq, Eq)]
pub struct TruncationFacts {
    /// The end of the committed data; 0 or none where no footer tells.
    pub data_end: Option<u64>,
    /// Where the manifest block starts, if there is one.
    pub manifest_offset: Option<u64>,
    /// The length that the manifest's block header tells, where it parses.
    pub manifest_length: Option<u32>,
    /// The number of the volume.
    pub volume_sequence: u16,
    /// The committed end that the manifest notes for the volume.
    pub committed_end: Option<u64>,
}

impl TruncationFacts {
    pub open spec fn manifest_end(&self) -> int {
        (self.manifest_offset->0) + BLOCK_HEADER_SIZE + match self.manifest_length {
            Some(n) => n as int,
            None => 0,
        }
    }

    /// Why the volume cannot be cut: nothing tells where, the manifest would be
    /// cut, or the manifest notes a later end.
    pub open spec fn fault(&self) -> Option<TruncationFault> {
        let end = match self.data_end {
            Some(e) => e,
            None => 0,
        };
        if end == 0 {
            Some(TruncationFault::NoFooter)
        } else if self.manifest_offset is Some && end < self.manifest_end() {
            Some(TruncationFault::CutsManifest)
        } else if self.manifest_offset is Some && (self.committed_end matches Some(c) && end < c) {
            Some(TruncationFault::BelowCommitted)
        } else {
            None
        }
    }
}

/// Why a volume cannot be cut.
#[derive(Debug, Clone, Copy, PartialEq, Eq, Structural)]
pub enum TruncationFault {
    NoFooter,
    CutsManifest,
    BelowCommitted,
}

/// The error of an interrupted truncation.
pub fn check_truncation_cancelled(cancelled: bool) -> (r: Result<(), EraError>)
    ensures
        r is Ok <==> !cancelled,
        r matches Err(e) ==> (e matches EraError::Other(m) && m@
            == "Operation cancelled during truncate_to_checkpoint"@),
{
    if cancelled {
        return Err(
            EraError::Other(String::from_str("Operation cancelled during truncate_to_checkpoint")),
        );
    }
    Ok(())
}

/// Where a volume is to be cut so that only committed data is left.
pub fn truncation_target(facts: &TruncationFacts) -> (r: Result<u64, EraError>)
    requires
        facts.manifest_offset matches Some(o) ==> o <= i64::MAX,
    ensures
        match facts.fault() {
            None => r == Ok::<u64, EraError>(facts.data_end->0),
            Some(TruncationFault::NoFooter) => r matches Err(EraError::InvalidConfig(m)) && m@
                == "Cannot truncate: no valid footer with data_end_offset"@,
            Some(TruncationFault::CutsManifest) => r matches Err(EraError::IntegrityError(m)) && m@
                == "data_end ("@ + text::decimal((facts.data_end->0) as nat)
                + ") is below manifest block end ("@ + text::decimal(
                facts.manifest_end() as nat,
            ) + "); truncation would destroy manifest"@,
            Some(TruncationFault::BelowCommitted) => r matches Err(EraError::IntegrityError(m))
                && m@ == "Volume "@ + text::decimal(facts.volume_sequence as nat)
                + " footer data_end_offset "@ + text::decimal((facts.data_end->0) as nat)
                + " is less than manifest committed end "@ + text::decimal(
                (facts.committed_end->0) as nat,
            ) + ". This indicates footer corruption or manifest mismatch."@,
        },
{
    let end: u64 = match facts.data_end {
        Some(e) => e,
        None => 0,
    };
    if end == 0 {
        return Err(
            EraError::InvalidConfig(
                String::from_str("Cannot truncate: no valid footer with data_end_offset"),
            ),
        );
    }
    if let Some(at) = facts.manifest_offset {
        let length: u64 = match facts.manifest_length {
            Some(n) => n as u64,
            None => 0,
        };
        let manifest_end: u64 = at + BLOCK_HEADER_SIZE + length;
        if end < manifest_end {
            return Err(
                EraError::IntegrityError(
                    text::with_numbers(
                        "data_end (",
                        end,
                        ") is below manifest block end (",
                        manifest_end,
                        "); truncation would destroy manifest",
                    ),
                ),
            );
        }
        if let Some(c) = facts.committed_end {
            if end < c {
                let mut m: String = text::with_numbers(
                    "Volume ",
                    facts.volume_sequence as u64,
                    " footer data_end_offset ",
                    end,
                    " is less than manifest committed end ",
                );
                text::push_decimal(&mut m, c);
                m.append(". This indicates footer corruption or manifest mismatch.");
                return Err(EraError::IntegrityError(m));
            }
        }
    }
    Ok(end)
}

/// Cutting a volume never cuts its manifest, nor anything that the manifest
/// notes as committed.
pub proof fn law_truncation_keeps_committed_data(facts: TruncationFacts)
    requires
        facts.fault() is None,
        facts.manifest_offset is Some,
    ensures
        (facts.data_end->0) >= facts.manifest_end(),
        facts.committed_end matches Some(c) ==> (facts.data_end->0) >= c,
{
}

impl RecoveryManager {
    pub open spec fn wf(&self) -> bool {
        self.checkpoint_manager matches Some(m) ==> m.wf()
    }

    /// What is left of an interrupted run: `bytes_written` is what the footer
    /// tells, 0 where it cannot be read.
    pub fn analyze(
        archive_exists: bool,
        has_checkpoint: bool,
        bytes_written: Option<u64>,
    ) -> (s: RecoveryStatus)
        ensures
            s.archive_exists == archive_exists,
            s.checkpoint_exists == (archive_exists && has_checkpoint),
            s.recovery_needed == s.checkpoint_exists,
            s.completed_files@.len() == 0,
            s.in_progress_file is None,
            s.chunks_written == 0,
            s.bytes_written == (if s.checkpoint_exists {
                match bytes_written {
                    Some(n) => n,
                    None => 0,
                }
            } else {
                0
            }),
    {
        let checkpoint_exists = archive_exists && has_checkpoint;
        let bytes: u64 = if checkpoint_exists {
            match bytes_written {
                Some(n) => n,
                None => 0,
            }
        } else {
            0
        };
        RecoveryStatus {
            checkpoint_exists,
            archive_exists,
            recovery_needed: checkpoint_exists,
            completed_files: Vec::new(),
            in_progress_file: None,
            chunks_written: 0,
            bytes_written: bytes,
        }
    }

    pub fn new(archive_path: &str, archive_exists: bool, has_checkpoint: bool) -> (m: Self)
        ensures
            m.wf(),
            m.archive_path@ == archive_path@,
            m.checkpoint_manager is Some <==> archive_exists && has_checkpoint,
            m.checkpoint_manager matches Some(c) ==> c.is_fresh(archive_path@),
    {
        let checkpoint_manager = if archive_exists && has_checkpoint {
            Some(CheckpointManager::new(archive_path))
        } else {
            None
        };
        RecoveryManager { archive_path: String::from_str(archive_path), checkpoint_manager }
    }

    pub fn can_recover(&self) -> (r: bool)
        ensures
            r == (self.checkpoint_manager is Some),
    {
        self.checkpoint_manager.is_some()
    }

    pub fn is_file_completed(&self, path: &str) -> (r: bool)
        ensures
            r == (self.checkpoint_manager matches Some(m)
                && m.checkpoint.completed_files@.contains(path@)),
    {
        match &self.checkpoint_manager {
            Some(m) => m.is_file_completed(path),
            None => false,
        }
    }

    pub fn get_chunk_location(&self, hash: &ChunkHash) -> (r: Option<BlockLocation>)
        requires
            self.wf(),
        ensures
            r is Some <==> (self.checkpoint_manager matches Some(m)
                && m.checkpoint.written_chunks@.contains_key(hash@)),
            r matches Some(l) ==> l@ == (
            self.checkpoint_manager->0).checkpoint.written_chunks@[hash@],
    {
        match &self.checkpoint_manager {
            Some(m) => match m.get_chunk_location(hash) {
                Some(l) => Some(l.duplicate()),
                None => None,
            },
            None => None,
        }
    }

    pub fn completed_files(&self) -> (r: Vec<String>)
        ensures
            checkpoint::texts(r@) == (match self.checkpoint_manager {
                Some(m) => checkpoint::texts(m.checkpoint.completed_files.items@),
                None => Seq::empty(),
            }),
    {
        match &self.checkpoint_manager {
            Some(m) => m.checkpoint.get_completed_files(),
            None => {
                let r: Vec<String> = Vec::new();
                assert(checkpoint::texts(r@) =~= Seq::empty());
                r
            },
        }
    }

    pub fn in_progress_file(&self) -> (r: Option<&InProgressFile>)
        ensures
            r == (match self.checkpoint_manager {
                Some(m) => match m.checkpoint.in_progress_file {
                    Some(f) => Some(&f),
                    None => None,
                },
                None => None,
            }),
    {
        match &self.checkpoint_manager {
            Some(m) => match &m.checkpoint.in_progress_file {
                Some(f) => Some(f),
                None => None,
            },
            None => None,
        }
    }

    pub fn bytes_written(&self) -> (r: u64)
        ensures
            r == (match self.checkpoint_manager {
                Some(m) => m.checkpoint.total_bytes_written,
                None => 0,
            }),
    {
        match &self.checkpoint_manager {
            Some(m) => m.checkpoint.total_bytes_written,
            None => 0,
        }
    }

    pub fn current_volume(&self) -> (r: u16)
        ensures
            r == (match self.checkpoint_manager {
                Some(m) => m.checkpoint.current_volume,
                None => 0,
            }),
    {
        match &self.checkpoint_manager {
            Some(m) => m.checkpoint.current_volume,
            None => 0,
        }
    }

    pub fn current_offset(&self) -> (r: u64)
        ensures
            r == (match self.checkpoint_manager {
                Some(m) => m.checkpoint.current_offset,
                None => 0,
            }),
    {
        match &self.checkpoint_manager {
            Some(m) => m.checkpoint.current_offset,
            None => 0,
        }
    }

    /// Nothing is left to be cleaned up beside the volume.
    pub fn cleanup(self) -> (r: Result<(), EraError>)
        ensures
            r is Ok,
    {
        match self.checkpoint_manager {
            Some(m) => m.delete(),
            None => Ok(()),
        }
    }
}

/// Tracks the progress of a writer in memory.
#[derive(Debug)]
pub struct RecoverableWriter {
    pub checkpoint: CheckpointManager,
    pub options: RecoveryOptions,
}

/// What a strategy comes to for a writer that tracks progress in memory only:
/// it can start fresh, nothing else.
pub open spec fn writer_refusal(strategy: RecoveryStrategy, checkpoint_exists: bool) -> Option<
    Seq<char>,
> {
    match strategy {
        RecoveryStrategy::StartFresh => None,
        RecoveryStrategy::Resume => Some(
            "RecoverableWriter does not support durable resume. Use ArchiveWriterBuilder with recovery_options(RecoveryOptions::resume()) to load an in-volume checkpoint."@,
        ),
        RecoveryStrategy::Abort => if checkpoint_exists {
            Some(
                "Checkpoint exists and Abort strategy specified. Use Resume to continue or StartFresh to discard progress."@,
            )
        } else {
            Some(
                "Abort strategy specified but no checkpoint exists to abort. Use StartFresh to begin a new archive."@,
            )
        },
    }
}

impl RecoverableWriter {
    pub open spec fn wf(&self) -> bool {
        self.checkpoint.wf()
    }

    pub fn new(archive_path: &str, options: RecoveryOptions, checkpoint_exists: bool) -> (r: Result<
        Self,
        EraError,
    >)
        ensures
            match writer_refusal(options.strategy, checkpoint_exists) {
                Some(t) => r matches Err(EraError::CheckpointError(m)) && m@ == t,
                None => r matches Ok(w) && w.options == options && w.checkpoint.is_fresh(
                    archive_path@,
                ),
            },
    {
        match options.strategy {
            RecoveryStrategy::StartFresh => Ok(
                RecoverableWriter { checkpoint: CheckpointManager::new(archive_path), options },
            ),
            RecoveryStrategy::Resume => Err(
                EraError::CheckpointError(
                    String::from_str(
                        "RecoverableWriter does not support durable resume. Use ArchiveWriterBuilder with recovery_options(RecoveryOptions::resume()) to load an in-volume checkpoint.",
                    ),
                ),
            ),
            RecoveryStrategy::Abort => {
                if checkpoint_exists {
                    return Err(
                        EraError::CheckpointError(
                            String::from_str(
                                "Checkpoint exists and Abort strategy specified. Use Resume to continue or StartFresh to discard progress.",
                            ),
                        ),
                    );
                }
                Err(
                    EraError::CheckpointError(
                        String::from_str(
                            "Abort strategy specified but no checkpoint exists to abort. Use StartFresh to begin a new archive.",
                        ),
                    ),
                )
            },
        }
    }

    /// Whether a file was processed in an earlier run.
    pub fn should_skip_file(&self, path: &str) -> (r: bool)
        ensures
            r == (self.options.strategy == RecoveryStrategy::Resume
                && self.checkpoint.checkpoint.completed_files@.contains(path@)),
    {
        match self.options.strategy {
            RecoveryStrategy::Resume => self.checkpoint.is_file_completed(path),
            _ => false,
        }
    }

    /// Where a chunk lies that was written in an earlier run.
    pub fn get_existing_chunk(&self, hash: &ChunkHash) -> (r: Option<BlockLocation>)
        requires
            self.wf(),
        ensures
            r is Some <==> self.options.strategy == RecoveryStrategy::Resume
                && self.checkpoint.checkpoint.written_chunks@.contains_key(hash@),
            r matches Some(l) ==> l@ == self.checkpoint.checkpoint.written_chunks@[hash@],
    {
        match self.options.strategy {
            RecoveryStrategy::Resume => match self.checkpoint.get_chunk_location(hash) {
                Some(l) => Some(l.duplicate()),
                None => None,
            },
            _ => None,
        }
    }

    pub fn mark_file_completed(&mut self, path: &str) -> (r: Result<(), EraError>)
        requires
            old(self).wf(),
            old(self).checkpoint.checkpoint.total_files_processed < u32::MAX,
        ensures
            r is Ok,
            final(self).wf(),
            final(self).options == old(self).options,
            final(self).checkpoint.checkpoint.completed_files@ == old(
                self,
            ).checkpoint.checkpoint.completed_files@.insert(path@),
            final(self).checkpoint.checkpoint.in_progress_file is None,
            final(self).checkpoint.checkpoint.total_files_processed == old(
                self,
            ).checkpoint.checkpoint.total_files_processed + 1,
            final(self).checkpoint.checkpoint.same_but_files(old(self).checkpoint.checkpoint),
            final(self).checkpoint.archive_path == old(self).checkpoint.archive_path,
    {
        self.checkpoint.mark_file_completed(path)
    }

    pub fn record_chunk(&mut self, hash: ChunkHash, location: BlockLocation) -> (r: Result<
        (),
        EraError,
    >)
        requires
            old(self).wf(),
            old(self).checkpoint.checkpoint.chunks_written < u64::MAX,
        ensures
            r is Ok,
            final(self).wf(),
            final(self).options == old(self).options,
            final(self).checkpoint.checkpoint.written_chunks@ == old(
                self,
            ).checkpoint.checkpoint.written_chunks@.insert(hash@, location@),
            final(self).checkpoint.checkpoint.chunks_written == old(
                self,
            ).checkpoint.checkpoint.chunks_written + 1,
            final(self).checkpoint.checkpoint.same_but_chunks(old(self).checkpoint.checkpoint),
            final(self).checkpoint.archive_path == old(self).checkpoint.archive_path,
    {
        self.checkpoint.record_chunk(hash, location)
    }

    pub fn start_file(&mut self, path: &str, size: u64) -> (r: Result<(), EraError>)
        requires
            old(self).wf(),
        ensures
            r is Ok,
            final(self).wf(),
            final(self).options == old(self).options,
            final(self).checkpoint.checkpoint.same_but_files(old(self).checkpoint.checkpoint),
            final(self).checkpoint.checkpoint.completed_files == old(
                self,
            ).checkpoint.checkpoint.completed_files,
            final(self).checkpoint.checkpoint.total_files_processed == old(
                self,
            ).checkpoint.checkpoint.total_files_processed,
            final(self).checkpoint.archive_path == old(self).checkpoint.archive_path,
            final(self).checkpoint.checkpoint.in_progress_file matches Some(f) && f.path@ == path@
                && f.total_size == size && f.bytes_processed == 0 && f.chunks_written == 0,
    {
        self.checkpoint.start_file(path, size)
    }

    pub fn update_progress(&mut self, bytes_added: u64, chunks_added: u32) -> (r: Result<
        (),
        EraError,
    >)
        requires
            old(self).wf(),
        ensures
            r is Ok,
            final(self).wf(),
            final(self).options == old(self).options,
            final(self).checkpoint.checkpoint.same_but_files(old(self).checkpoint.checkpoint),
            final(self).checkpoint.checkpoint.completed_files == old(
                self,
            ).checkpoint.checkpoint.completed_files,
            final(self).checkpoint.checkpoint.total_files_processed == old(
                self,
            ).checkpoint.checkpoint.total_files_processed,
            final(self).checkpoint.archive_path == old(self).checkpoint.archive_path,
            match old(self).checkpoint.checkpoint.in_progress_file {
                Some(f) => final(self).checkpoint.checkpoint.in_progress_file == Some(
                    InProgressFile {
                        bytes_processed: bytes_added,
                        chunks_written: chunks_added,
                        ..f
                    },
                ),
                None => final(self).checkpoint.checkpoint.in_progress_file is None,
            },
    {
        self.checkpoint.update_file_progress(bytes_added, chunks_added)
    }

    pub fn update_position(&mut self, volume: u16, offset: u64, bytes: u64) -> (r: Result<
        (),
        EraError,
    >)
        requires
            old(self).wf(),
        ensures
            final(self).wf(),
            final(self).options == old(self).options,
            final(self).checkpoint.archive_path == old(self).checkpoint.archive_path,
            r is Err <==> volume == old(self).checkpoint.checkpoint.current_volume && offset < old(
                self,
            ).checkpoint.checkpoint.current_offset,
            r is Ok ==> final(self).checkpoint.checkpoint == (Checkpoint {
                current_volume: volume,
                current_offset: offset,
                total_bytes_written: bytes,
                ..old(self).checkpoint.checkpoint
            }),
            r matches Err(e) ==> {
                &&& final(self).checkpoint.checkpoint == old(self).checkpoint.checkpoint
                &&& e matches EraError::InvalidConfig(m)
                &&& m@ == "Position cannot go backwards on same volume: current_offset="@
                    + text::decimal(old(self).checkpoint.checkpoint.current_offset as nat)
                    + ", new_offset="@ + text::decimal(offset as nat) + ""@
            },
    {
        self.checkpoint.update_position(volume, offset, bytes)
    }

    /// See [`CheckpointManager::sync`].
    pub fn sync(&mut self) -> (r: Result<(), EraError>)
        ensures
            r is Ok,
            *final(self) == *old(self),
    {
        self.checkpoint.sync()
    }

    /// Nothing is left to be cleaned up.
    pub fn finalize(self) -> (r: Result<(), EraError>)
        ensures
            r is Ok,
    {
        self.checkpoint.delete()
    }

    pub fn checkpoint(&self) -> (c: &Checkpoint)
        ensures
            *c == self.checkpoint.checkpoint,
    {
        self.checkpoint.checkpoint()
    }

    pub fn options(&self) -> (o: &RecoveryOptions)
        ensures
            *o == self.options,
    {
        &self.options
    }
}

/// A volume can be cut at a known end that lies behind the manifest and behind all
/// that is committed; without a manifest any known end will do.
pub proof fn law_truncation_is_allowed_behind_what_counts(facts: TruncationFacts, end: u64)
    requires
        facts.data_end == Some(end),
        end > 0,
    ensures
        facts.manifest_offset is None ==> facts.fault() is None,
        facts.manifest_offset matches Some(at) ==> (facts.manifest_length matches Some(len) ==> (
        facts.committed_end matches Some(committed) ==> (at + BLOCK_HEADER_SIZE + len <= end
            && committed <= end <==> facts.fault() is None))),
        facts.manifest_offset matches Some(at) ==> (facts.manifest_length is None
            && facts.committed_end is None ==> (at + BLOCK_HEADER_SIZE <= end <==> facts.fault() is None)),
{
}

/// Without a known end nothing is cut.
pub proof fn law_no_truncation_without_an_end(facts: TruncationFacts)
    requires
        facts.data_end is None || facts.data_end == Some(0u64),
    ensures
        facts.fault() is Some,
{
}

/// A writer that keeps progress in memory goes on only where it starts fresh.
pub proof fn law_writer_only_starts_fresh(strategy: RecoveryStrategy, checkpoint_exists: bool)
    ensures
        writer_refusal(strategy, checkpoint_exists) is None <==> strategy
            == RecoveryStrategy::StartFresh,
        writer_refusal(RecoveryStrategy::Abort, true) != writer_refusal(
            RecoveryStrategy::Abort,
            false,
        ),
        writer_refusal(RecoveryStrategy::Resume, true) == writer_refusal(
            RecoveryStrategy::Resume,
            false,
        ),
{
    reveal_strlit(
        "Checkpoint exists and Abort strategy specified. Use Resume to continue or StartFresh to discard progress.",
    );
    reveal_strlit(
        "Abort strategy specified but no checkpoint exists to abort. Use StartFresh to begin a new archive.",
    );
    if writer_refusal(RecoveryStrategy::Abort, true) == writer_refusal(
        RecoveryStrategy::Abort,
        false,
    ) {
        assert((writer_refusal(RecoveryStrategy::Abort, true)->0)[0] == 'C');
        assert((writer_refusal(RecoveryStrategy::Abort, false)->0)[0] == 'A');
    }
}

/// Recovery is needed exactly where an archive is there and names a checkpoint; only then does
/// what the footer tells count.
pub proof fn law_when_recovery_is_needed(
    archive_exists: bool,
    has_checkpoint: bool,
    bytes: Option<u64>,
    s: RecoveryStatus,
)
    requires
        call_ensures(RecoveryManager::analyze, (archive_exists, has_checkpoint, bytes), s),
    ensures
        s.recovery_needed <==> archive_exists && has_checkpoint,
        s.recovery_needed == s.checkpoint_exists,
        !s.recovery_needed ==> s.bytes_written == 0,
        s.recovery_needed ==> (bytes matches Some(n) ==> s.bytes_written == n),
        s.archive_exists == archive_exists,
{
}

/// Where a volume may be cut, it is cut at its known end.
pub proof fn law_truncation_is_at_the_known_end(facts: TruncationFacts, r: Result<u64, EraError>)
    requires
        facts.manifest_offset matches Some(o) ==> o <= i64::MAX,
        call_ensures(truncation_target, (&facts,), r),
    ensures
        r is Ok <==> facts.fault() is None,
        r matches Ok(end) ==> facts.data_end == Some(end) && end > 0,
        r matches Ok(end) ==> (facts.committed_end matches Some(c) ==> (
        facts.manifest_offset is Some ==> c <= end)),
{
}

} // verus!

//! Checkpoints: what a writer needs to go on after a crash.
//!
//! A checkpoint is stored as an encrypted block in the volume; the volume's
//! footer tells where the last one lies.
use vstd::prelude::*;

use crate::block_iter::{BlockType, BLOCK_HEADER_SIZE};
use crate::locations::{BlockLocation, LocationMap, LocationView};
use crate::text;
use crate::types::{ChunkHash, EraError};

verus! {

/// The version of the checkpoint format.
pub const CHECKPOINT_VERSION: u32 = 3;

/// A checkpoint with more entries than this is refused.
pub const MAX_CHECKPOINT_ENTRIES: usize = 10000000;

/// Bytes of a volume's footer.
pub const FOOTER_SIZE: u64 = 128;

/// Bytes of a volume's header.
pub const HEADER_SIZE: u64 = 4096;

/// Progress within a file.
#[derive(Debug)]
pub struct InProgressFile {
    pub path: String,
    pub total_size: u64,
    pub bytes_processed: u64,
    pub chunks_written: u32,
}

/// A set of paths.
#[derive(Debug)]
pub struct PathSet {
    /// The paths, none twice, in the order in which they came.
    pub items: Vec<String>,
}

/// The texts of a list.
pub open spec fn texts(items: Seq<String>) -> Seq<Seq<char>> {
    items.map_values(|s: String| s@)
}

impl View for PathSet {
    type V = Set<Seq<char>>;

    open spec fn view(&self) -> Set<Seq<char>> {
        texts(self.items@).to_set()
    }
}

impl PathSet {
    pub open spec fn wf(&self) -> bool {
        texts(self.items@).no_duplicates()
    }

    pub fn new() -> (s: Self)
        ensures
            s.wf(),
            s@ == Set::<Seq<char>>::empty(),
            s.items@.len() == 0,
    {
        let s = PathSet { items: Vec::new() };
        assert(s@ =~= Set::<Seq<char>>::empty());
        s
    }

    pub fn contains(&self, path: &str) -> (r: bool)
        ensures
            r == self@.contains(path@),
    {
        let mut i: usize = 0;
        while i < self.items.len()
            invariant
                i <= self.items@.len(),
                forall|k: int| 0 <= k < i ==> (#[trigger] self.items@[k])@ != path@,
            decreases self.items@.len() - i,
        {
            if same_text(self.items[i].as_str(), path) {
                assert(texts(self.items@)[i as int] == path@);
                return true;
            }
            i = i + 1;
        }
        assert forall|k: int| 0 <= k < texts(self.items@).len() implies texts(self.items@)[k]
            != path@ by {
            assert(self.items@[k]@ != path@);
        }
        false
    }

    pub fn insert(&mut self, path: &str)
        requires
            old(self).wf(),
        ensures
            final(self).wf(),
            final(self)@ == old(self)@.insert(path@),
    {
        let ghost before = self.items@;
        if self.contains(path) {
            assert(self@.insert(path@) =~= self@);
            return ;
        }
        self.items.push(String::from_str(path));
        proof {
            let a = texts(before);
            let b = texts(self.items@);
            assert(b =~= a.push(path@));
            assert(!a.contains(path@));
            assert(b.no_duplicates()) by {
                assert forall|i: int, j: int|
                    0 <= i < b.len() && 0 <= j < b.len() && i != j implies b[i] != b[j] by {
                    if i == a.len() {
                        assert(a.contains(a[j]));
                    } else if j == a.len() {
                        assert(a.contains(a[i]));
                    } else {
                        assert(a[i] != a[j]);
                    }
                }
            }
            assert forall|x: Seq<char>| b.to_set().contains(x) <==> a.to_set().insert(
                path@,
            ).contains(x) by {
                if a.contains(x) {
                    let i = choose|i: int| 0 <= i < a.len() && a[i] == x;
                    assert(b[i] == x);
                }
                if x == path@ {
                    assert(b[a.len() as int] == x);
                }
            }
            assert(b.to_set() =~= a.to_set().insert(path@));
        }
    }
}

/// Whether two texts are the same.
pub fn same_text(a: &str, b: &str) -> (r: bool)
    ensures
        r == (a@ == b@),
{
    let n: usize = a.unicode_len();
    if n != b.unicode_len() {
        return false;
    }
    let mut i: usize = 0;
    while i < n
        invariant
            i <= n,
            n == a@.len(),
            n == b@.len(),
            forall|k: int| 0 <= k < i ==> a@[k] == b@[k],
        decreases n - i,
    {
        if a.get_char(i) != b.get_char(i) {
            return false;
        }
        i = i + 1;
    }
    assert(a@ =~= b@);
    true
}

/// `std::time::SystemTime`, which is carried from the clock to its reading.
#[verifier::external_type_specification]
#[verifier::external_body]
pub struct ExSystemTime(std::time::SystemTime);

/// What the clock shows, by `std::time::SystemTime::now`. Nothing is claimed of
/// it.
#[verifier::external_body]
fn clock() -> (t: std::time::SystemTime) {
    std::time::SystemTime::now()
}

/// How long ago the epoch was, by `std::time::SystemTime::duration_since`;
/// nothing where the time lies before the epoch. Which time that is, is not
/// claimed.
#[verifier::external_body]
fn since_epoch(t: std::time::SystemTime) -> (d: Option<std::time::Duration>) {
    t.duration_since(std::time::UNIX_EPOCH).ok()
}

/// The whole seconds of a duration, by `std::time::Duration::as_secs`. Nothing
/// is claimed of how many there are.
#[verifier::external_body]
fn whole_seconds(d: std::time::Duration) -> (n: u64) {
    d.as_secs()
}

/// The seconds since the epoch by the clock; see [`timestamp_of`].
fn seconds_now() -> (n: u64) {
    let seconds: Option<u64> = match since_epoch(clock()) {
        Some(d) => Some(whole_seconds(d)),
        None => None,
    };
    timestamp_of(seconds)
}

/// The timestamp for the seconds since the epoch that the clock shows; 0 where
/// it stands before the epoch.
pub fn timestamp_of(seconds: Option<u64>) -> (n: u64)
    ensures
        n == (match seconds {
            Some(s) => s,
            None => 0,
        }),
{
    match seconds {
        Some(s) => s,
        None => 0,
    }
}

/// What a writer has done so far.
#[derive(Debug)]
pub struct Checkpoint {
    pub version: u32,
    /// Seconds since the epoch.
    pub timestamp: u64,
    pub current_volume: u16,
    pub current_offset: u64,
    pub total_bytes_written: u64,
    pub total_files_processed: u32,
    pub chunks_written: u64,
    /// Where the chunks lie that were written since the last checkpoint.
    pub written_chunks: LocationMap,
    pub in_progress_file: Option<InProgressFile>,
    /// Files that are fully processed.
    pub completed_files: PathSet,
}

impl Checkpoint {
    pub open spec fn wf(&self) -> bool {
        self.written_chunks.wf() && self.completed_files.wf()
    }

    /// A checkpoint made now.
    pub fn new(
        current_volume: u16,
        current_offset: u64,
        total_bytes_written: u64,
        total_files_processed: u32,
        chunks_written: u64,
        written_chunks: LocationMap,
    ) -> (c: Self)
        requires
            written_chunks.wf(),
        ensures
            c.wf(),
            c.version == CHECKPOINT_VERSION,
            c.current_volume == current_volume,
            c.current_offset == current_offset,
            c.total_bytes_written == total_bytes_written,
            c.total_files_processed == total_files_processed,
            c.chunks_written == chunks_written,
            c.written_chunks == written_chunks,
            c.in_progress_file is None,
            c.completed_files@ == Set::<Seq<char>>::empty(),
    {
        Self::at_time(
            seconds_now(),
            current_volume,
            current_offset,
            total_bytes_written,
            total_files_processed,
            chunks_written,
            written_chunks,
        )
    }

    /// A checkpoint made at the given time.
    pub fn at_time(
        timestamp: u64,
        current_volume: u16,
        current_offset: u64,
        total_bytes_written: u64,
        total_files_processed: u32,
        chunks_written: u64,
        written_chunks: LocationMap,
    ) -> (c: Self)
        requires
            written_chunks.wf(),
        ensures
            c.wf(),
            c.version == CHECKPOINT_VERSION,
            c.timestamp == timestamp,
            c.current_volume == current_volume,
            c.current_offset == current_offset,
            c.total_bytes_written == total_bytes_written,
            c.total_files_processed == total_files_processed,
            c.chunks_written == chunks_written,
            c.written_chunks == written_chunks,
            c.in_progress_file is None,
            c.completed_files@ == Set::<Seq<char>>::empty(),
            c.completed_files.items@.len() == 0,
    {
        Checkpoint {
            version: CHECKPOINT_VERSION,
            timestamp,
            current_volume,
            current_offset,
            total_bytes_written,
            total_files_processed,
            chunks_written,
            written_chunks,
            in_progress_file: None,
            completed_files: PathSet::new(),
        }
    }

    /// The fault of a checkpoint that was read: too many chunks, too many
    /// files, or another version, in this order.
    pub open spec fn fault(&self) -> Option<CheckpointFault> {
        if self.written_chunks.entries@.len() > MAX_CHECKPOINT_ENTRIES {
            Some(CheckpointFault::TooManyChunks)
        } else if self.completed_files.items@.len() > MAX_CHECKPOINT_ENTRIES {
            Some(CheckpointFault::TooManyFiles)
        } else if self.version != CHECKPOINT_VERSION {
            Some(CheckpointFault::OtherVersion)
        } else {
            None
        }
    }

    /// Accepts a checkpoint that was read, or says what is wrong with it.
    pub fn validated(self) -> (r: Result<Self, EraError>)
        ensures
            match self.fault() {
                None => r == Ok::<Self, EraError>(self),
                Some(CheckpointFault::TooManyChunks) => r matches Err(EraError::InvalidFormat(m))
                    && m@ == "Checkpoint written_chunks exceeds maximum: "@ + text::decimal(
                    self.written_chunks.entries@.len(),
                ) + " > "@ + text::decimal(MAX_CHECKPOINT_ENTRIES as nat) + ""@,
                Some(CheckpointFault::TooManyFiles) => r matches Err(EraError::InvalidFormat(m))
                    && m@ == "Checkpoint completed_files exceeds maximum: "@ + text::decimal(
                    self.completed_files.items@.len(),
                ) + " > "@ + text::decimal(MAX_CHECKPOINT_ENTRIES as nat) + ""@,
                Some(CheckpointFault::OtherVersion) => r matches Err(
                    EraError::Deserialization(m),
                ) && m@ == "Checkpoint version mismatch: expected "@ + text::decimal(
                    CHECKPOINT_VERSION as nat,
                ) + ", found "@ + text::decimal(self.version as nat) + ""@,
            },
    {
        if self.written_chunks.entries.len() > MAX_CHECKPOINT_ENTRIES {
            return Err(
                EraError::InvalidFormat(
                    text::with_numbers(
                        "Checkpoint written_chunks exceeds maximum: ",
                        self.written_chunks.entries.len() as u64,
                        " > ",
                        MAX_CHECKPOINT_ENTRIES as u64,
                        "",
                    ),
                ),
            );
        }
        if self.completed_files.items.len() > MAX_CHECKPOINT_ENTRIES {
            return Err(
                EraError::InvalidFormat(
                    text::with_numbers(
                        "Checkpoint completed_files exceeds maximum: ",
                        self.completed_files.items.len() as u64,
                        " > ",
                        MAX_CHECKPOINT_ENTRIES as u64,
                        "",
                    ),
                ),
            );
        }
        if self.version != CHECKPOINT_VERSION {
            return Err(
                EraError::Deserialization(
                    text::with_numbers(
                        "Checkpoint version mismatch: expected ",
                        CHECKPOINT_VERSION as u64,
                        ", found ",
                        self.version as u64,
                        "",
                    ),
                ),
            );
        }
        Ok(self)
    }

    /// Everything but the chunks that were written is the same.
    pub open spec fn same_but_chunks(&self, from: Checkpoint) -> bool {
        &&& self.version == from.version
        &&& self.timestamp == from.timestamp
        &&& self.current_volume == from.current_volume
        &&& self.current_offset == from.current_offset
        &&& self.total_bytes_written == from.total_bytes_written
        &&& self.total_files_processed == from.total_files_processed
        &&& self.in_progress_file == from.in_progress_file
        &&& self.completed_files == from.completed_files
    }

    /// Everything but the file in progress and the count of files is the same.
    pub open spec fn same_but_files(&self, from: Checkpoint) -> bool {
        &&& self.version == from.version
        &&& self.timestamp == from.timestamp
        &&& self.current_volume == from.current_volume
        &&& self.current_offset == from.current_offset
        &&& self.total_bytes_written == from.total_bytes_written
        &&& self.chunks_written == from.chunks_written
        &&& self.written_chunks == from.written_chunks
    }

    /// A file is being processed from its start.
    pub fn set_in_progress(&mut self, path: &str, total_size: u64)
        ensures
            final(self).same_but_files(*old(self)),
            final(self).completed_files == old(self).completed_files,
            final(self).total_files_processed == old(self).total_files_processed,
            final(self).in_progress_file matches Some(f) && f.path@ == path@ && f.total_size
                == total_size && f.bytes_processed == 0 && f.chunks_written == 0,
    {
        self.in_progress_file = Some(
            InProgressFile {
                path: String::from_str(path),
                total_size,
                bytes_processed: 0,
                chunks_written: 0,
            },
        );
    }

    /// How far the file in progress is; nothing where none is in progress.
    pub fn update_progress(&mut self, bytes_processed: u64, chunks_written: u32)
        ensures
            final(self).same_but_files(*old(self)),
            final(self).completed_files == old(self).completed_files,
            final(self).total_files_processed == old(self).total_files_processed,
            match old(self).in_progress_file {
                Some(f) => final(self).in_progress_file == Some(
                    InProgressFile { bytes_processed, chunks_written, ..f },
                ),
                None => final(self).in_progress_file is None,
            },
    {
        let taken = self.in_progress_file.take();
        if let Some(f) = taken {
            self.in_progress_file = Some(
                InProgressFile {
                    path: f.path,
                    total_size: f.total_size,
                    bytes_processed,
                    chunks_written,
                },
            );
        }
    }

    /// The file in progress is done.
    pub fn mark_file_complete(&mut self)
        requires
            old(self).total_files_processed < u32::MAX,
        ensures
            final(self).same_but_files(*old(self)),
            final(self).completed_files == old(self).completed_files,
            final(self).in_progress_file is None,
            final(self).total_files_processed == old(self).total_files_processed + 1,
    {
        self.in_progress_file = None;
        self.total_files_processed = self.total_files_processed + 1;
    }

    /// The files that are fully processed.
    pub fn get_completed_files(&self) -> (r: Vec<String>)
        ensures
            texts(r@) == texts(self.completed_files.items@),
    {
        let mut r: Vec<String> = Vec::new();
        let mut i: usize = 0;
        let ghost all = texts(self.completed_files.items@);
        while i < self.completed_files.items.len()
            invariant
                i <= self.completed_files.items@.len(),
                all == texts(self.completed_files.items@),
                texts(r@) == all.take(i as int),
            decreases self.completed_files.items@.len() - i,
        {
            let ghost before = r@;
            let s: String = String::from_str(self.completed_files.items[i].as_str());
            r.push(s);
            assert(texts(r@) =~= texts(before).push(s@));
            assert(all.take(i + 1) =~= all.take(i as int).push(all[i as int]));
            i = i + 1;
        }
        assert(all.take(all.len() as int) =~= all);
        r
    }

    pub fn is_file_completed(&self, path: &str) -> (r: bool)
        ensures
            r == self.completed_files@.contains(path@),
    {
        self.completed_files.contains(path)
    }

    pub fn get_chunk_location(&self, hash: &ChunkHash) -> (r: Option<&BlockLocation>)
        requires
            self.wf(),
        ensures
            r is Some <==> self.written_chunks@.contains_key(hash@),
            r matches Some(l) ==> l@ == self.written_chunks@[hash@],
    {
        self.written_chunks.get(hash)
    }
}

/// Why a checkpoint that was read is refused.
#[derive(Debug, Clone, Copy, PartialEq, Eq, Structural)]
pub enum CheckpointFault {
    TooManyChunks,
    TooManyFiles,
    OtherVersion,
}

/// Keeps the checkpoint of a writer up to date.
#[derive(Debug)]
pub struct CheckpointManager {
    pub checkpoint: Checkpoint,
    pub archive_path: String,
}

impl CheckpointManager {
    pub open spec fn wf(&self) -> bool {
        self.checkpoint.wf()
    }

    /// Nothing is written yet.
    pub open spec fn is_fresh(&self, archive_path: Seq<char>) -> bool {
        &&& self.wf()
        &&& self.archive_path@ == archive_path
        &&& self.checkpoint.version == CHECKPOINT_VERSION
        &&& self.checkpoint.current_volume == 0
        &&& self.checkpoint.current_offset == 0
        &&& self.checkpoint.total_bytes_written == 0
        &&& self.checkpoint.total_files_processed == 0
        &&& self.checkpoint.chunks_written == 0
        &&& self.checkpoint.written_chunks@ == Map::<Seq<u8>, LocationView>::empty()
        &&& self.checkpoint.in_progress_file is None
        &&& self.checkpoint.completed_files@ == Set::<Seq<char>>::empty()
    }

    pub fn new(archive_path: &str) -> (m: Self)
        ensures
            m.is_fresh(archive_path@),
    {
        CheckpointManager {
            checkpoint: Checkpoint::new(0, 0, 0, 0, 0, LocationMap::new()),
            archive_path: String::from_str(archive_path),
        }
    }

    /// The key is not used: checkpoints are encrypted blocks.
    pub fn with_hmac_key(archive_path: &str, _hmac_key: [u8; 32]) -> (m: Self)
        ensures
            m.is_fresh(archive_path@),
    {
        Self::new(archive_path)
    }

    /// A fresh checkpoint; one that lies in the volume is not loaded here.
    pub fn load_or_create(archive_path: &str) -> (r: Result<Self, EraError>)
        ensures
            r matches Ok(m) && m.is_fresh(archive_path@),
    {
        Ok(Self::new(archive_path))
    }

    pub fn load_or_create_with_key(archive_path: &str, _hmac_key: Option<[u8; 32]>) -> (r: Result<
        Self,
        EraError,
    >)
        ensures
            r matches Ok(m) && m.is_fresh(archive_path@),
    {
        Self::load_or_create(archive_path)
    }

    pub fn checkpoint(&self) -> (c: &Checkpoint)
        ensures
            *c == self.checkpoint,
    {
        &self.checkpoint
    }

    /// The state itself, to be changed in place.
    pub fn checkpoint_mut(&mut self) -> (c: &mut Checkpoint)
        ensures
            *c == old(self).checkpoint,
            *final(self) == (CheckpointManager {
                checkpoint: *final(c),
                archive_path: old(self).archive_path,
            }),
    {
        &mut self.checkpoint
    }

    /// Checkpoints are blocks of a volume: nothing is written here.
    pub fn commit(&self) -> (r: Result<(), EraError>)
        ensures
            r is Ok,
    {
        Ok(())
    }

    /// Without a volume nothing can be made durable: the state stays as it is.
    pub fn sync(&mut self) -> (r: Result<(), EraError>)
        ensures
            r is Ok,
            *final(self) == *old(self),
    {
        Ok(())
    }

    /// Checkpoints are blocks of a volume: nothing is written here.
    pub fn save(&self) -> (r: Result<(), EraError>)
        ensures
            r is Ok,
    {
        Ok(())
    }

    /// Nothing lies beside the volume that would have to be deleted.
    pub fn delete(&self) -> (r: Result<(), EraError>)
        ensures
            r is Ok,
    {
        Ok(())
    }

    /// Notes a chunk that was written.
    pub fn record_chunk(&mut self, hash: ChunkHash, location: BlockLocation) -> (r: Result<
        (),
        EraError,
    >)
        requires
            old(self).wf(),
            old(self).checkpoint.chunks_written < u64::MAX,
        ensures
            r is Ok,
            final(self).wf(),
            final(self).archive_path == old(self).archive_path,
            final(self).checkpoint.written_chunks@ == old(self).checkpoint.written_chunks@.insert(
                hash@,
                location@,
            ),
            final(self).checkpoint.chunks_written == old(self).checkpoint.chunks_written + 1,
            final(self).checkpoint.same_but_chunks(old(self).checkpoint),
    {
        self.checkpoint.written_chunks.insert(hash, location);
        self.checkpoint.chunks_written = self.checkpoint.chunks_written + 1;
        Ok(())
    }

    pub fn written_chunks(&self) -> (m: &LocationMap)
        ensures
            *m == self.checkpoint.written_chunks,
    {
        &self.checkpoint.written_chunks
    }

    pub fn update_stats(&mut self, bytes_written: u64, files_processed: u32)
        ensures
            final(self).archive_path == old(self).archive_path,
            final(self).checkpoint == (Checkpoint {
                total_bytes_written: bytes_written,
                total_files_processed: files_processed,
                ..old(self).checkpoint
            }),
    {
        self.checkpoint.total_bytes_written = bytes_written;
        self.checkpoint.total_files_processed = files_processed;
    }

    /// Where the writer stands. On the same volume it cannot go back.
    pub fn update_position(&mut self, volume: u16, offset: u64, bytes_written: u64) -> (r: Result<
        (),
        EraError,
    >)
        ensures
            final(self).archive_path == old(self).archive_path,
            if volume == old(self).checkpoint.current_volume && offset < old(
                self,
            ).checkpoint.current_offset {
                &&& r matches Err(EraError::InvalidConfig(m))
                &&& m@
                    == "Position cannot go backwards on same volume: current_offset="@
                    + text::decimal(old(self).checkpoint.current_offset as nat)
                    + ", new_offset="@ + text::decimal(offset as nat) + ""@
                &&& final(self).checkpoint == old(self).checkpoint
            } else {
                &&& r is Ok
                &&& final(self).checkpoint == (Checkpoint {
                    current_volume: volume,
                    current_offset: offset,
                    total_bytes_written: bytes_written,
                    ..old(self).checkpoint
                })
            },
            final(self).checkpoint.current_volume == old(self).checkpoint.current_volume
                ==> final(self).checkpoint.current_offset >= old(self).checkpoint.current_offset,
    {
        if volume == self.checkpoint.current_volume && offset < self.checkpoint.current_offset {
            return Err(
                EraError::InvalidConfig(
                    text::with_numbers(
                        "Position cannot go backwards on same volume: current_offset=",
                        self.checkpoint.current_offset,
                        ", new_offset=",
                        offset,
                        "",
                    ),
                ),
            );
        }
        self.checkpoint.current_volume = volume;
        self.checkpoint.current_offset = offset;
        self.checkpoint.total_bytes_written = bytes_written;
        Ok(())
    }

    pub fn is_file_completed(&self, path: &str) -> (r: bool)
        ensures
            r == self.checkpoint.completed_files@.contains(path@),
    {
        self.checkpoint.is_file_completed(path)
    }

    /// A file is fully processed.
    pub fn mark_file_completed(&mut self, path: &str) -> (r: Result<(), EraError>)
        requires
            old(self).wf(),
            old(self).checkpoint.total_files_processed < u32::MAX,
        ensures
            r is Ok,
            final(self).wf(),
            final(self).archive_path == old(self).archive_path,
            final(self).checkpoint.same_but_files(old(self).checkpoint),
            final(self).checkpoint.completed_files@ == old(
                self,
            ).checkpoint.completed_files@.insert(path@),
            final(self).checkpoint.in_progress_file is None,
            final(self).checkpoint.total_files_processed == old(
                self,
            ).checkpoint.total_files_processed + 1,
    {
        self.checkpoint.completed_files.insert(path);
        self.checkpoint.in_progress_file = None;
        self.checkpoint.total_files_processed = self.checkpoint.total_files_processed + 1;
        Ok(())
    }

    /// A file is being processed from its start.
    pub fn start_file(&mut self, path: &str, total_size: u64) -> (r: Result<(), EraError>)
        ensures
            r is Ok,
            old(self).wf() ==> final(self).wf(),
            final(self).archive_path == old(self).archive_path,
            final(self).checkpoint.same_but_files(old(self).checkpoint),
            final(self).checkpoint.completed_files == old(self).checkpoint.completed_files,
            final(self).checkpoint.total_files_processed == old(
                self,
            ).checkpoint.total_files_processed,
            final(self).checkpoint.in_progress_file matches Some(f) && f.path@ == path@
                && f.total_size == total_size && f.bytes_processed == 0 && f.chunks_written == 0,
    {
        self.checkpoint.set_in_progress(path, total_size);
        Ok(())
    }

    /// How far the file in progress is.
    pub fn update_file_progress(&mut self, bytes_processed: u64, chunks_written: u32) -> (r: Result<
        (),
        EraError,
    >)
        ensures
            r is Ok,
            old(self).wf() ==> final(self).wf(),
            final(self).archive_path == old(self).archive_path,
            final(self).checkpoint.same_but_files(old(self).checkpoint),
            final(self).checkpoint.completed_files == old(self).checkpoint.completed_files,
            final(self).checkpoint.total_files_processed == old(
                self,
            ).checkpoint.total_files_processed,
            match old(self).checkpoint.in_progress_file {
                Some(f) => final(self).checkpoint.in_progress_file == Some(
                    InProgressFile { bytes_processed, chunks_written, ..f },
                ),
                None => final(self).checkpoint.in_progress_file is None,
            },
    {
        self.checkpoint.update_progress(bytes_processed, chunks_written);
        Ok(())
    }

    pub fn get_chunk_location(&self, hash: &ChunkHash) -> (r: Option<&BlockLocation>)
        requires
            self.wf(),
        ensures
            r is Some <==> self.checkpoint.written_chunks@.contains_key(hash@),
            r matches Some(l) ==> l@ == self.checkpoint.written_chunks@[hash@],
    {
        self.checkpoint.get_chunk_location(hash)
    }
}

/// What reading a footer came to.
#[derive(Debug, Clone, Copy, PartialEq, Eq, Structural)]
pub enum FooterProbe {
    /// Its place could not be reached.
    NoSeek,
    /// It could not be read.
    NoRead,
    /// It does not parse.
    Invalid,
    /// It parses and names the last checkpoint, 0 where there is none.
    Valid { last_checkpoint_offset: u64 },
}

/// Whether the file can hold a footer at its end.
pub fn can_have_footer(file_len: u64) -> (r: bool)
    ensures
        r == (file_len >= FOOTER_SIZE),
{
    file_len >= FOOTER_SIZE
}

/// Whether the backup footer behind the header is to be read: the footer at the
/// end does not parse, and the file is long enough.
pub open spec fn backup_due(file_len: u64, primary: FooterProbe) -> bool {
    primary is Invalid && file_len >= HEADER_SIZE + FOOTER_SIZE
}

pub fn wants_backup_footer(file_len: u64, primary: FooterProbe) -> (r: bool)
    ensures
        r == backup_due(file_len, primary),
{
    match primary {
        FooterProbe::Invalid => file_len >= HEADER_SIZE + FOOTER_SIZE,
        _ => false,
    }
}

/// Which footer could not be read, and how.
pub open spec fn footer_fault(file_len: u64, primary: FooterProbe, backup: FooterProbe) -> Option<
    Seq<char>,
> {
    if file_len < FOOTER_SIZE {
        None
    } else if primary is NoSeek {
        Some("failed to seek to primary footer"@)
    } else if primary is NoRead {
        Some("failed to read primary footer"@)
    } else if !backup_due(file_len, primary) {
        None
    } else if backup is NoSeek {
        Some("failed to seek to backup footer"@)
    } else if backup is NoRead {
        Some("failed to read backup footer"@)
    } else {
        None
    }
}

/// Whether the footer that counts names a checkpoint.
pub open spec fn names_checkpoint(file_len: u64, primary: FooterProbe, backup: FooterProbe) -> bool {
    file_len >= FOOTER_SIZE && match primary {
        FooterProbe::Valid { last_checkpoint_offset } => last_checkpoint_offset > 0,
        FooterProbe::Invalid => file_len >= HEADER_SIZE + FOOTER_SIZE && (
        backup matches FooterProbe::Valid { last_checkpoint_offset } && last_checkpoint_offset > 0),
        _ => false,
    }
}

/// Whether a volume has a checkpoint, by its footers. `backup` counts only
/// where [`wants_backup_footer`] asks for it.
pub fn volume_has_checkpoint(file_len: u64, primary: FooterProbe, backup: FooterProbe) -> (r:
    Result<bool, EraError>)
    ensures
        match footer_fault(file_len, primary, backup) {
            Some(t) => r matches Err(EraError::Io(m)) && m@ == t,
            None => r == Ok::<bool, EraError>(names_checkpoint(file_len, primary, backup)),
        },
{
    if file_len < FOOTER_SIZE {
        return Ok(false);
    }
    match primary {
        FooterProbe::NoSeek => Err(
            EraError::Io(String::from_str("failed to seek to primary footer")),
        ),
        FooterProbe::NoRead => Err(EraError::Io(String::from_str("failed to read primary footer"))),
        FooterProbe::Valid { last_checkpoint_offset } => Ok(last_checkpoint_offset > 0),
        FooterProbe::Invalid => {
            if file_len < HEADER_SIZE + FOOTER_SIZE {
                return Ok(false);
            }
            match backup {
                FooterProbe::NoSeek => Err(
                    EraError::Io(String::from_str("failed to seek to backup footer")),
                ),
                FooterProbe::NoRead => Err(
                    EraError::Io(String::from_str("failed to read backup footer")),
                ),
                FooterProbe::Valid { last_checkpoint_offset } => Ok(last_checkpoint_offset > 0),
                FooterProbe::Invalid => Ok(false),
            }
        },
    }
}

/// [`volume_has_checkpoint`] for callers to whom an unreadable footer is no
/// checkpoint. `file_len` is `None` where there is no file.
pub fn checkpoint_exists(file_len: Option<u64>, primary: FooterProbe, backup: FooterProbe) -> (r:
    bool)
    ensures
        r == (file_len matches Some(n) && names_checkpoint(n, primary, backup)),
{
    match file_len {
        Some(n) => match volume_has_checkpoint(n, primary, backup) {
            Ok(b) => b,
            Err(_) => false,
        },
        None => false,
    }
}

/// "`start`..`end`)" behind an offset that lies outside.
pub open spec fn out_of_bounds_text(what: Seq<char>, offset: u64, start: u64, end: u64) -> Seq<char> {
    what + text::decimal(offset as nat) + " out of bounds (data region: "@ + text::decimal(
        start as nat,
    ) + ".."@ + text::decimal(end as nat) + ")"@
}

fn out_of_bounds(what: &str, offset: u64, start: u64, end: u64) -> (e: EraError)
    ensures
        e matches EraError::InvalidFormat(m) && m@ == out_of_bounds_text(what@, offset, start, end),
{
    let mut m: String = text::with_numbers(
        what,
        offset,
        " out of bounds (data region: ",
        start,
        "..",
    );
    text::push_decimal(&mut m, end);
    m.append(")");
    EraError::InvalidFormat(m)
}

/// A checkpoint lies within the data region.
pub fn check_checkpoint_offset(offset: u64, start: u64, end: u64) -> (r: Result<(), EraError>)
    ensures
        r is Ok <==> start <= offset < end,
        r matches Err(e) ==> (e matches EraError::InvalidFormat(m) && m@ == out_of_bounds_text(
            "Checkpoint offset "@,
            offset,
            start,
            end,
        )),
{
    if offset < start || offset >= end {
        return Err(out_of_bounds("Checkpoint offset ", offset, start, end));
    }
    Ok(())
}

/// The name of a block type in messages.
pub open spec fn block_label(t: BlockType) -> Seq<char> {
    match t {
        BlockType::Data => "Data"@,
        BlockType::Catalog => "Catalog"@,
        BlockType::IndexPage => "IndexPage"@,
        BlockType::IndexManifest => "IndexManifest"@,
        BlockType::Checkpoint => "Checkpoint"@,
        BlockType::Manifest => "Manifest"@,
        BlockType::Other => "Other"@,
    }
}

fn block_type_name(t: BlockType) -> (s: &'static str)
    ensures
        s@ == block_label(t),
{
    match t {
        BlockType::Data => "Data",
        BlockType::Catalog => "Catalog",
        BlockType::IndexPage => "IndexPage",
        BlockType::IndexManifest => "IndexManifest",
        BlockType::Checkpoint => "Checkpoint",
        BlockType::Manifest => "Manifest",
        BlockType::Other => "Other",
    }
}

/// The block of a checkpoint is of the checkpoint type.
pub fn check_checkpoint_type(t: BlockType) -> (r: Result<(), EraError>)
    ensures
        r is Ok <==> t == BlockType::Checkpoint,
        r matches Err(e) ==> (e matches EraError::InvalidFormat(m) && m@
            == "Expected Checkpoint block, found "@ + block_label(t) + ""@),
{
    match t {
        BlockType::Checkpoint => Ok(()),
        _ => Err(
            EraError::InvalidFormat(
                text::with_text("Expected Checkpoint block, found ", block_type_name(t), ""),
            ),
        ),
    }
}

/// Whether decrypting a block gave a sound checkpoint.
pub open spec fn is_sound(answer: Option<Checkpoint>) -> bool {
    answer matches Some(c) && c.fault() is None
}

/// The search for the number that the block of a checkpoint was encrypted
/// under: the numbers from `next` on, below `end`, are still to be tried.
#[derive(Debug, Clone, Copy, PartialEq, Eq, Structural)]
pub struct CheckpointSearch {
    pub next: u64,
    pub end: u64,
}

/// What a search does after an answer.
#[derive(Debug)]
pub enum SearchStep {
    /// The checkpoint is found.
    Found(Checkpoint),
    /// Another number is to be tried.
    Continue(CheckpointSearch),
    /// No number is left.
    Failed(EraError),
}

impl CheckpointSearch {
    /// A number is left to be tried.
    pub open spec fn wf(&self) -> bool {
        self.next < self.end
    }

    /// The search for a block at `offset` of a volume whose blocks begin at
    /// `start`. A known number is the only candidate. Otherwise the candidates
    /// are all numbers that the block can have: no more blocks lie before it
    /// than their headers leave room for.
    pub open spec fn of(block_id: Option<u32>, offset: u64, start: u64) -> CheckpointSearch {
        match block_id {
            Some(id) => CheckpointSearch { next: id as u64, end: (id + 1) as u64 },
            None => CheckpointSearch {
                next: 0,
                end: ((offset - start) / (BLOCK_HEADER_SIZE as int) + 1) as u64,
            },
        }
    }

    /// What comes of the search where the block decrypts to `answers(n)` under
    /// number `n`: the sound checkpoint with the lowest number, if there is one.
    pub open spec fn outcome(self, answers: spec_fn(int) -> Option<Checkpoint>) -> Option<Checkpoint>
        decreases self.end - self.next,
    {
        if self.next >= self.end {
            None
        } else if is_sound(answers(self.next as int)) {
            answers(self.next as int)
        } else {
            CheckpointSearch { next: (self.next + 1) as u64, end: self.end }.outcome(answers)
        }
    }

    pub fn new(block_id: Option<u32>, offset: u64, start: u64) -> (s: Self)
        requires
            start <= offset,
        ensures
            s.wf(),
            s == Self::of(block_id, offset, start),
    {
        match block_id {
            Some(id) => CheckpointSearch { next: id as u64, end: id as u64 + 1 },
            None => CheckpointSearch { next: 0, end: (offset - start) / BLOCK_HEADER_SIZE + 1 },
        }
    }

    /// The number to be tried next.
    pub fn candidate(&self) -> (n: u64)
        ensures
            n == self.next,
    {
        self.next
    }

    /// Takes what the block decrypted to under [`Self::candidate`], if it did.
    pub fn on_answer(self, answer: Option<Checkpoint>) -> (step: SearchStep)
        requires
            self.wf(),
        ensures
            is_sound(answer) ==> step == SearchStep::Found(answer->0),
            !is_sound(answer) && self.next + 1 < self.end ==> step == SearchStep::Continue(
                CheckpointSearch { next: (self.next + 1) as u64, end: self.end },
            ),
            !is_sound(answer) && self.next + 1 == self.end ==> (step matches SearchStep::Failed(
                EraError::Decryption(m),
            ) && m@ == "Could not decrypt checkpoint with any candidate block ID"@),
            step matches SearchStep::Continue(s) ==> s.wf(),
    {
        if let Some(c) = answer {
            if let Ok(v) = c.validated() {
                return SearchStep::Found(v);
            }
        }
        if self.next + 1 < self.end {
            return SearchStep::Continue(
                CheckpointSearch { next: self.next + 1, end: self.end },
            );
        }
        SearchStep::Failed(
            EraError::Decryption(
                String::from_str("Could not decrypt checkpoint with any candidate block ID"),
            ),
        )
    }
}

/// A step of a search keeps what comes of it: a checkpoint that is found is
/// the outcome, going on leaves the outcome as it was, and where the search
/// fails there is none.
pub proof fn law_search_step(
    s: CheckpointSearch,
    step: SearchStep,
    answers: spec_fn(int) -> Option<Checkpoint>,
)
    requires
        s.wf(),
        call_ensures(CheckpointSearch::on_answer, (s, answers(s.next as int)), step),
    ensures
        match step {
            SearchStep::Found(c) => s.outcome(answers) == Some(c),
            SearchStep::Continue(t) => s.outcome(answers) == t.outcome(answers) && t.end - t.next
                < s.end - s.next,
            SearchStep::Failed(_) => s.outcome(answers) is None,
        },
{
    reveal_with_fuel(CheckpointSearch::outcome, 2);
}

/// The sound checkpoint with the lowest candidate number wins.
pub proof fn law_search_finds_the_first(
    s: CheckpointSearch,
    answers: spec_fn(int) -> Option<Checkpoint>,
    n: int,
)
    requires
        s.next <= n < s.end,
        is_sound(answers(n)),
        forall|k: int| s.next <= k < n ==> !is_sound(#[trigger] answers(k)),
    ensures
        s.outcome(answers) == answers(n),
    decreases n - s.next,
{
    if s.next < n {
        assert(!is_sound(answers(s.next as int)));
        law_search_finds_the_first(
            CheckpointSearch { next: (s.next + 1) as u64, end: s.end },
            answers,
            n,
        );
    }
}

/// A search comes to nothing only where no candidate gives a sound checkpoint.
pub proof fn law_search_fails_only_without_candidates(
    s: CheckpointSearch,
    answers: spec_fn(int) -> Option<Checkpoint>,
)
    ensures
        s.outcome(answers) is None <==> (forall|k: int|
            s.next <= k < s.end ==> !is_sound(#[trigger] answers(k))),
    decreases s.end - s.next,
{
    if s.next < s.end {
        if is_sound(answers(s.next as int)) {
        } else {
            let t = CheckpointSearch { next: (s.next + 1) as u64, end: s.end };
            law_search_fails_only_without_candidates(t, answers);
            if t.outcome(answers) is None {
                assert forall|k: int| s.next <= k < s.end implies !is_sound(
                    #[trigger] answers(k),
                ) by {
                    if k != s.next {
                        assert(t.next <= k < t.end);
                    }
                }
            }
        }
    }
}

/// A checkpoint that was written is found, with its number and without: its
/// block decrypts to it under the number of blocks that were written before it
/// and under no other.
pub proof fn law_written_checkpoint_is_found(
    written: Checkpoint,
    blocks_before: u32,
    offset: u64,
    start: u64,
    answers: spec_fn(int) -> Option<Checkpoint>,
)
    requires
        written.fault() is None,
        start <= offset,
        blocks_before * BLOCK_HEADER_SIZE <= offset - start,
        answers(blocks_before as int) == Some(written),
        forall|k: int| k != blocks_before ==> (#[trigger] answers(k)) is None,
    ensures
        CheckpointSearch::of(None, offset, start).outcome(answers) == Some(written),
        CheckpointSearch::of(Some(blocks_before), offset, start).outcome(answers) == Some(written),
{
    law_search_finds_the_first(
        CheckpointSearch::of(None, offset, start),
        answers,
        blocks_before as int,
    );
    law_search_finds_the_first(
        CheckpointSearch::of(Some(blocks_before), offset, start),
        answers,
        blocks_before as int,
    );
}

/// Where a footer says that the last checkpoint lies.
#[derive(Debug, Clone, Copy, PartialEq, Eq, Structural)]
pub struct FooterCheckpoint {
    /// 0 where there is none.
    pub offset: u64,
    /// 0 where it is not known, and for the first block of a volume.
    pub block_id: u32,
}

/// The checkpoint to be read when recovering: its offset and, where it is
/// known, its block number. None where the footer names none.
pub fn recovery_target(footer: Option<FooterCheckpoint>, start: u64, end: u64) -> (r: Result<
    Option<(u64, Option<u32>)>,
    EraError,
>)
    ensures
        match footer {
            None => r == Ok::<Option<(u64, Option<u32>)>, EraError>(None),
            Some(f) => if f.offset == 0 {
                r == Ok::<Option<(u64, Option<u32>)>, EraError>(None)
            } else if start <= f.offset < end {
                r == Ok::<Option<(u64, Option<u32>)>, EraError>(
                    Some(
                        (
                            f.offset,
                            if f.block_id > 0 {
                                Some(f.block_id)
                            } else {
                                None
                            },
                        ),
                    ),
                )
            } else {
                r matches Err(EraError::InvalidFormat(m)) && m@ == out_of_bounds_text(
                    "Footer checkpoint offset "@,
                    f.offset,
                    start,
                    end,
                )
            },
        },
{
    match footer {
        None => Ok(None),
        Some(f) => {
            if f.offset == 0 {
                return Ok(None);
            }
            if f.offset < start || f.offset >= end {
                return Err(out_of_bounds("Footer checkpoint offset ", f.offset, start, end));
            }
            let id: Option<u32> = if f.block_id > 0 {
                Some(f.block_id)
            } else {
                None
            };
            Ok(Some((f.offset, id)))
        },
    }
}

/// The checkpoints recovered: the last one, where it could be read.
pub fn recovered_checkpoints(read: Option<Result<Checkpoint, EraError>>) -> (r: Vec<Checkpoint>)
    ensures
        r@ == (match read {
            Some(Ok(c)) => seq![c],
            _ => Seq::empty(),
        }),
{
    let mut r: Vec<Checkpoint> = Vec::new();
    if let Some(Ok(c)) = read {
        r.push(c);
    }
    assert(r@ =~= (match read {
        Some(Ok(c)) => seq![c],
        _ => Seq::empty(),
    }));
    r
}

/// The size of a serialized checkpoint as its block notes it.
pub fn checkpoint_block_size(len: usize) -> (r: Result<u32, EraError>)
    ensures
        r is Ok <==> len <= u32::MAX,
        r matches Ok(n) ==> n == len,
        r matches Err(e) ==> (e matches EraError::Other(m) && m@
            == "Checkpoint size exceeds u32::MAX"@),
{
    if len as u64 > u32::MAX as u64 {
        return Err(EraError::Other(String::from_str("Checkpoint size exceeds u32::MAX")));
    }
    Ok(len as u32)
}

/// The footer at the end decides alone where it parses; the backup is asked
/// only where it does not.
pub proof fn law_backup_footer_is_a_fallback(
    file_len: u64,
    primary: FooterProbe,
    a: FooterProbe,
    b: FooterProbe,
)
    requires
        primary !is Invalid,
    ensures
        names_checkpoint(file_len, primary, a) == names_checkpoint(file_len, primary, b),
        footer_fault(file_len, primary, a) == footer_fault(file_len, primary, b),
{
}

/// A checkpoint that a manager starts with can be read back.
pub proof fn law_fresh_checkpoint_is_sound(m: CheckpointManager, archive_path: Seq<char>)
    requires
        m.is_fresh(archive_path),
        m.checkpoint.written_chunks.entries@.len() == 0,
        m.checkpoint.completed_files.items@.len() == 0,
    ensures
        is_sound(Some(m.checkpoint)),
{
}

/// Adding to a checkpoint does no harm while it stays small: how much was
/// written, and where, has no part in whether it is sound.
pub proof fn law_soundness_depends_on_size_and_version(a: Checkpoint, b: Checkpoint)
    requires
        is_sound(Some(a)),
        b.version == a.version,
        b.written_chunks.entries@.len() <= 10000000,
        b.completed_files.items@.len() <= 10000000,
    ensures
        is_sound(Some(b)),
{
}

/// No checkpoint of another version or with more than ten million chunks or files
/// is sound, nor is the lack of one.
pub proof fn law_what_is_not_sound(c: Checkpoint)
    requires
        c.version != 3 || c.written_chunks.entries@.len() > 10000000
            || c.completed_files.items@.len() > 10000000,
    ensures
        !is_sound(Some(c)),
        !is_sound(None),
{
}

/// A footer that parses says whether there is a checkpoint: the one at the end
/// where it parses, otherwise the backup behind the header.
pub proof fn law_parsed_footer_names_the_checkpoint(
    file_len: u64,
    primary: FooterProbe,
    backup: FooterProbe,
    offset: u64,
)
    requires
        file_len >= HEADER_SIZE + FOOTER_SIZE,
    ensures
        primary == (FooterProbe::Valid { last_checkpoint_offset: offset }) ==> (names_checkpoint(
            file_len,
            primary,
            backup,
        ) <==> offset != 0) && footer_fault(file_len, primary, backup) is None,
        primary is Invalid && backup == (FooterProbe::Valid { last_checkpoint_offset: offset })
            ==> (names_checkpoint(file_len, primary, backup) <==> offset != 0) && footer_fault(
            file_len,
            primary,
            backup,
        ) is None,
        primary is Invalid && backup is Invalid ==> !names_checkpoint(file_len, primary, backup)
            && footer_fault(file_len, primary, backup) is None,
        primary is NoSeek || primary is NoRead ==> footer_fault(file_len, primary, backup) is Some,
        primary is Invalid && (backup is NoSeek || backup is NoRead) ==> footer_fault(
            file_len,
            primary,
            backup,
        ) is Some,
{
}

/// A file too short for a footer holds no checkpoint, and one too short for a
/// second footer has no backup.
pub proof fn law_short_files_name_no_checkpoint(
    file_len: u64,
    primary: FooterProbe,
    backup: FooterProbe,
)
    ensures
        file_len < FOOTER_SIZE ==> !names_checkpoint(file_len, primary, backup) && footer_fault(
            file_len,
            primary,
            backup,
        ) is None,
        file_len < HEADER_SIZE + FOOTER_SIZE && primary is Invalid ==> !names_checkpoint(
            file_len,
            primary,
            backup,
        ),
        file_len < HEADER_SIZE + FOOTER_SIZE ==> !backup_due(file_len, primary),
        primary is Valid ==> !backup_due(file_len, primary),
        names_checkpoint(file_len, primary, backup) ==> footer_fault(file_len, primary, backup) is None,
{
}

/// Without its number a block is tried under every number that leaves room for the
/// headers of the blocks before it, and under no other; with it, under that alone.
pub proof fn law_candidates_are_the_numbers_with_room(n: u32, m: int, offset: u64, start: u64)
    requires
        start <= offset,
        m >= 0,
    ensures
        ({
            let s = CheckpointSearch::of(None, offset, start);
            s.next <= m < s.end <==> m * BLOCK_HEADER_SIZE <= offset - start
        }),
        ({
            let s = CheckpointSearch::of(Some(n), offset, start);
            s.next <= m < s.end <==> m == n
        }),
{
    let room = offset - start;
    let h = BLOCK_HEADER_SIZE as int;
    assert((room / h) * h <= room && room < (room / h + 1) * h) by (nonlinear_arith)
        requires
            h > 0,
            room >= 0,
    ;
    if m <= room / h {
        assert(m * h <= (room / h) * h) by (nonlinear_arith)
            requires
                m <= room / h,
                h > 0,
        ;
    } else {
        assert(m * h >= (room / h + 1) * h) by (nonlinear_arith)
            requires
                m >= room / h + 1,
                h > 0,
        ;
    }
}

/// Where only chunks are noted, the files and the position stay, and where only files are noted,
/// the chunks and the position do.
pub proof fn law_what_notes_leave_alone(a: Checkpoint, b: Checkpoint)
    ensures
        a.same_but_chunks(b) ==> a.version == b.version && a.current_volume == b.current_volume
            && a.current_offset == b.current_offset && a.total_bytes_written
            == b.total_bytes_written && a.total_files_processed == b.total_files_processed
            && a.in_progress_file == b.in_progress_file && a.completed_files == b.completed_files
            && a.timestamp == b.timestamp,
        a.same_but_files(b) ==> a.version == b.version && a.current_volume == b.current_volume
            && a.current_offset == b.current_offset && a.total_bytes_written
            == b.total_bytes_written && a.chunks_written == b.chunks_written && a.written_chunks
            == b.written_chunks && a.timestamp == b.timestamp,
{
}

/// A fresh manager knows no chunk and no file and stands at the start of the first volume.
pub proof fn law_fresh_manager_knows_nothing(
    m: CheckpointManager,
    archive_path: Seq<char>,
    h: Seq<u8>,
    file: Seq<char>,
)
    requires
        m.is_fresh(archive_path),
    ensures
        m.archive_path@ == archive_path,
        !m.checkpoint.written_chunks@.contains_key(h),
        !m.checkpoint.completed_files@.contains(file),
        m.checkpoint.in_progress_file is None,
        m.checkpoint.version == 3,
        m.checkpoint.current_volume == 0 && m.checkpoint.current_offset == 0,
        m.checkpoint.chunks_written == 0 && m.checkpoint.total_files_processed == 0
            && m.checkpoint.total_bytes_written == 0,
{
}

} // verus!

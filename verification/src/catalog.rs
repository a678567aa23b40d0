//! The catalog: which files an archive holds, and of which chunks.
use vstd::prelude::*;

use crate::hashing;
use crate::hashing::content_hash;
use crate::types::{sub_bytes, ChunkHash};

verus! {

/// Files under this path belong to the archive itself.
pub const INTERNAL_META_PREFIX: &'static str = ".era/meta/";

/// The place of a small file in a chunk that packs several.
#[derive(Debug, Clone, Copy, PartialEq, Eq, Structural)]
pub struct PackedRef {
    pub file_index: usize,
    pub file_count: usize,
}

/// A piece of a file.
#[derive(Debug, Clone, Copy)]
pub struct ChunkRef {
    pub hash: ChunkHash,
    /// Where the piece starts in the file.
    pub offset: u64,
    pub length: u32,
    /// Where the chunk packs several files: which of them this is.
    pub packed: Option<PackedRef>,
}

/// What stands at a path.
#[derive(Debug, Clone, Copy, PartialEq, Eq, Structural)]
pub enum FileType {
    File,
    Directory,
    /// A link to another path, which is not extracted.
    Symlink,
}

/// A file of the archive.
#[derive(Debug)]
pub struct FileEntry {
    pub path: String,
    pub file_type: FileType,
    pub size: u64,
    /// The hash of a file that is one chunk.
    pub hash: Option<ChunkHash>,
    /// The pieces of any other file.
    pub chunks: Vec<ChunkRef>,
}

/// All files of an archive.
#[derive(Debug)]
pub struct Catalog {
    pub entries: Vec<FileEntry>,
}

/// A chunk with its bytes.
#[derive(Debug)]
pub struct UniqueChunk {
    pub hash: ChunkHash,
    pub data: Vec<u8>,
}

/// Whether a path belongs to the archive itself.
pub open spec fn is_internal(path: Seq<char>) -> bool {
    INTERNAL_META_PREFIX@.is_prefix_of(path)
}

pub fn is_internal_path(path: &str) -> (r: bool)
    ensures
        r == is_internal(path@),
{
    let prefix = INTERNAL_META_PREFIX;
    let n: usize = prefix.unicode_len();
    if path.unicode_len() < n {
        return false;
    }
    let mut i: usize = 0;
    while i < n
        invariant
            i <= n,
            n == prefix@.len(),
            n <= path@.len(),
            prefix@ == INTERNAL_META_PREFIX@,
            forall|k: int| 0 <= k < i ==> prefix@[k] == path@[k],
        decreases n - i,
    {
        if prefix.get_char(i) != path.get_char(i) {
            assert(path@.take(n as int)[i as int] != prefix@[i as int]);
            return false;
        }
        i = i + 1;
    }
    assert(path@.take(n as int) =~= prefix@);
    true
}

/// Files that are not the archive's own.
pub open spec fn user_files(entries: Seq<FileEntry>) -> nat
    decreases entries.len(),
{
    if entries.len() == 0 {
        0
    } else {
        user_files(entries.drop_last()) + if is_internal(entries.last().path@) {
            0nat
        } else {
            1nat
        }
    }
}

/// Their sizes together.
pub open spec fn user_bytes(entries: Seq<FileEntry>) -> nat
    decreases entries.len(),
{
    if entries.len() == 0 {
        0
    } else {
        user_bytes(entries.drop_last()) + if is_internal(entries.last().path@) {
            0nat
        } else {
            entries.last().size as nat
        }
    }
}

proof fn lemma_user_bytes_grow(entries: Seq<FileEntry>, n: int)
    requires
        0 <= n <= entries.len(),
    ensures
        user_bytes(entries.take(n)) <= user_bytes(entries),
    decreases entries.len() - n,
{
    if n < entries.len() {
        assert(entries.take(n + 1).drop_last() =~= entries.take(n));
        lemma_user_bytes_grow(entries, n + 1);
    } else {
        assert(entries.take(n) =~= entries);
    }
}

/// What an archive holds.
#[derive(Debug, Clone, Copy, PartialEq, Eq, Structural)]
pub struct ArchiveStats {
    pub archive_id: u128,
    pub total_files: u64,
    /// Bytes of all files, uncompressed.
    pub total_size: u64,
    pub blocks_written: u64,
}

/// Counts the files of a finished archive; its own files do not count.
pub fn archive_stats(catalog: &Catalog, archive_id: u128, blocks_written: u64) -> (s: ArchiveStats)
    requires
        user_bytes(catalog.entries@) <= u64::MAX,
    ensures
        s.archive_id == archive_id,
        s.total_files == user_files(catalog.entries@),
        s.total_size == user_bytes(catalog.entries@),
        s.blocks_written == blocks_written,
{
    let mut total_files: u64 = 0;
    let mut total_size: u64 = 0;
    let mut i: usize = 0;
    while i < catalog.entries.len()
        invariant
            i <= catalog.entries@.len(),
            user_bytes(catalog.entries@) <= u64::MAX,
            total_files <= i,
            total_files == user_files(catalog.entries@.take(i as int)),
            total_size == user_bytes(catalog.entries@.take(i as int)),
        decreases catalog.entries@.len() - i,
    {
        proof {
            assert(catalog.entries@.take(i + 1).drop_last() =~= catalog.entries@.take(i as int));
            lemma_user_bytes_grow(catalog.entries@, i + 1);
        }
        if !is_internal_path(catalog.entries[i].path.as_str()) {
            total_files = total_files + 1;
            total_size = total_size + catalog.entries[i].size;
        }
        i = i + 1;
    }
    assert(catalog.entries@.take(i as int) =~= catalog.entries@);
    ArchiveStats { archive_id, total_files, total_size, blocks_written }
}

/// The bytes of a list of chunks one after the other.
pub open spec fn joined(chunks: Seq<UniqueChunk>) -> Seq<u8>
    decreases chunks.len(),
{
    if chunks.len() == 0 {
        Seq::empty()
    } else {
        joined(chunks.drop_last()) + chunks.last().data@
    }
}

/// Splits data into pieces of `size` bytes, the last one shorter where it does
/// not come out even. Each piece is known by its hash; put together they are
/// the data.
pub fn split_data(data: &[u8], size: usize) -> (chunks: Vec<UniqueChunk>)
    requires
        size > 0,
    ensures
        joined(chunks@) == data@,
        forall|k: int|
            0 <= k < chunks@.len() ==> (#[trigger] chunks@[k]).hash@ == hashing::blake3_digest(
                chunks@[k].data@,
            ),
        forall|k: int| 0 <= k < chunks@.len() ==> 0 < (#[trigger] chunks@[k]).data@.len() <= size,
        forall|k: int|
            0 <= k < chunks@.len() - 1 ==> (#[trigger] chunks@[k]).data@.len() == size,
{
    let mut chunks: Vec<UniqueChunk> = Vec::new();
    let mut at: usize = 0;
    assert(data@.take(0) =~= joined(chunks@));
    while at < data.len()
        invariant
            at <= data@.len(),
            size > 0,
            joined(chunks@) == data@.take(at as int),
            forall|k: int|
                0 <= k < chunks@.len() ==> (#[trigger] chunks@[k]).hash@ == hashing::blake3_digest(
                    chunks@[k].data@,
                ),
            forall|k: int|
                0 <= k < chunks@.len() ==> 0 < (#[trigger] chunks@[k]).data@.len() <= size,
            at < data@.len() ==> forall|k: int|
                0 <= k < chunks@.len() ==> (#[trigger] chunks@[k]).data@.len() == size,
            at == data@.len() ==> forall|k: int|
                0 <= k < chunks@.len() - 1 ==> (#[trigger] chunks@[k]).data@.len() == size,
        decreases data@.len() - at,
    {
        let end: usize = if data.len() - at > size {
            at + size
        } else {
            data.len()
        };
        let bytes: Vec<u8> = sub_bytes(data, at, end);
        let hash = content_hash(bytes.as_slice());
        let ghost before = chunks@;
        chunks.push(UniqueChunk { hash, data: bytes });
        assert(chunks@.drop_last() =~= before);
        assert(data@.take(end as int) =~= data@.take(at as int) + bytes@);
        at = end;
    }
    assert(data@.take(at as int) =~= data@);
    chunks
}

/// The bytes of the first `n` chunks.
pub open spec fn offset_of(chunks: Seq<UniqueChunk>, n: int) -> nat
    decreases n,
{
    if n <= 0 {
        0
    } else {
        offset_of(chunks, n - 1) + chunks[n - 1].data@.len()
    }
}

/// A chunk list refers to each chunk at the place where its bytes stand in the
/// file.
pub open spec fn refers_to(refs: Seq<ChunkRef>, chunks: Seq<UniqueChunk>) -> bool {
    &&& refs.len() == chunks.len()
    &&& forall|k: int|
        0 <= k < refs.len() ==> {
            &&& (#[trigger] refs[k]).hash == chunks[k].hash
            &&& refs[k].offset == offset_of(chunks, k)
            &&& refs[k].length == chunks[k].data@.len()
            &&& refs[k].packed is None
        }
}

/// An entry as files get it when they are added: one chunk is referred to by its
/// hash, any other number by a list.
pub open spec fn entry_of(e: FileEntry, chunks: Seq<UniqueChunk>) -> bool {
    &&& e.size == joined(chunks).len()
    &&& if e.hash is Some {
        &&& chunks.len() == 1
        &&& e.hash == Some(chunks[0].hash)
        &&& e.chunks@.len() == 0
    } else {
        refers_to(e.chunks@, chunks)
    }
}

proof fn lemma_offsets_grow(chunks: Seq<UniqueChunk>, n: int)
    requires
        0 <= n <= chunks.len(),
    ensures
        offset_of(chunks, n) <= offset_of(chunks, chunks.len() as int),
    decreases chunks.len() - n,
{
    if n < chunks.len() {
        lemma_offsets_grow(chunks, n + 1);
    }
}

/// The bytes that a list of chunks holds together.
pub proof fn law_size_is_sum_of_chunks(chunks: Seq<UniqueChunk>)
    ensures
        joined(chunks).len() == offset_of(chunks, chunks.len() as int),
    decreases chunks.len(),
{
    if chunks.len() > 0 {
        law_size_is_sum_of_chunks(chunks.drop_last());
        lemma_offset_prefix(chunks, chunks.len() - 1);
    }
}

proof fn lemma_offset_prefix(chunks: Seq<UniqueChunk>, n: int)
    requires
        0 <= n <= chunks.len() - 1,
    ensures
        offset_of(chunks.drop_last(), n) == offset_of(chunks, n),
    decreases n,
{
    if n > 0 {
        lemma_offset_prefix(chunks, n - 1);
    }
}

/// A file can be read back from its chunks: chunk `k` is what stands in the
/// file at its offset.
pub proof fn law_chunks_give_back_the_file(chunks: Seq<UniqueChunk>, k: int)
    requires
        0 <= k < chunks.len(),
    ensures
        joined(chunks).subrange(
            offset_of(chunks, k) as int,
            (offset_of(chunks, k) + chunks[k].data@.len()) as int,
        ) == chunks[k].data@,
        offset_of(chunks, k) + chunks[k].data@.len() <= joined(chunks).len(),
    decreases chunks.len(),
{
    law_size_is_sum_of_chunks(chunks);
    law_size_is_sum_of_chunks(chunks.drop_last());
    lemma_offset_prefix(chunks, chunks.len() - 1);
    let at = offset_of(chunks, k) as int;
    let n = chunks[k].data@.len() as int;
    if k == chunks.len() - 1 {
        assert(joined(chunks).subrange(at, at + n) =~= chunks[k].data@);
    } else {
        law_chunks_give_back_the_file(chunks.drop_last(), k);
        lemma_offset_prefix(chunks, k);
        assert(joined(chunks).subrange(at, at + n) =~= joined(chunks.drop_last()).subrange(
            at,
            at + n,
        ));
    }
}

/// The catalog entry of a file that consists of the given chunks: one chunk is
/// referred to by its hash, any other number by a list.
pub fn entry_for_chunks(path: &str, chunks: &Vec<UniqueChunk>) -> (e: FileEntry)
    requires
        offset_of(chunks@, chunks@.len() as int) <= u64::MAX,
        forall|k: int| 0 <= k < chunks@.len() ==> (#[trigger] chunks@[k]).data@.len() <= u32::MAX,
    ensures
        e.path@ == path@,
        e.file_type == FileType::File,
        e.size == joined(chunks@).len(),
        chunks@.len() == 1 ==> e.hash == Some(chunks@[0].hash) && e.chunks@.len() == 0,
        chunks@.len() != 1 ==> e.hash is None && refers_to(e.chunks@, chunks@),
        entry_of(e, chunks@),
{
    proof {
        law_size_is_sum_of_chunks(chunks@);
    }
    if chunks.len() == 1 {
        proof {
            assert(offset_of(chunks@, 1) == offset_of(chunks@, 0) + chunks@[0].data@.len());
        }
        return FileEntry {
            path: String::from_str(path),
            file_type: FileType::File,
            size: chunks[0].data.len() as u64,
            hash: Some(chunks[0].hash),
            chunks: Vec::new(),
        };
    }
    list_entry(path, chunks)
}

/// The catalog entry of a file that refers to its chunks by a list.
pub fn list_entry(path: &str, chunks: &Vec<UniqueChunk>) -> (e: FileEntry)
    requires
        offset_of(chunks@, chunks@.len() as int) <= u64::MAX,
        forall|k: int| 0 <= k < chunks@.len() ==> (#[trigger] chunks@[k]).data@.len() <= u32::MAX,
    ensures
        e.path@ == path@,
        e.file_type == FileType::File,
        e.size == joined(chunks@).len(),
        e.hash is None,
        refers_to(e.chunks@, chunks@),
        entry_of(e, chunks@),
{
    proof {
        law_size_is_sum_of_chunks(chunks@);
    }
    let mut refs: Vec<ChunkRef> = Vec::new();
    let mut offset: u64 = 0;
    let mut i: usize = 0;
    while i < chunks.len()
        invariant
            i <= chunks@.len(),
            offset_of(chunks@, chunks@.len() as int) <= u64::MAX,
            offset == offset_of(chunks@, i as int),
            refs@.len() == i,
            forall|k: int|
                0 <= k < chunks@.len() ==> (#[trigger] chunks@[k]).data@.len() <= u32::MAX,
            forall|k: int|
                0 <= k < i ==> {
                    &&& (#[trigger] refs@[k]).hash == chunks@[k].hash
                    &&& refs@[k].offset == offset_of(chunks@, k)
                    &&& refs@[k].length == chunks@[k].data@.len()
                    &&& refs@[k].packed is None
                },
        decreases chunks@.len() - i,
    {
        proof {
            lemma_offsets_grow(chunks@, i + 1);
            assert(chunks@[i as int].data@.len() <= u32::MAX);
        }
        let length: u32 = chunks[i].data.len() as u32;
        refs.push(ChunkRef { hash: chunks[i].hash, offset, length, packed: None });
        offset = offset + length as u64;
        i = i + 1;
    }
    FileEntry {
        path: String::from_str(path),
        file_type: FileType::File,
        size: offset,
        hash: None,
        chunks: refs,
    }
}

/// A file given as bytes: its chunks and its catalog entry. Data that is longer
/// than a block is split into pieces of a block's size.
pub fn plan_bytes(name: &str, data: &[u8], target_block_size: usize) -> (r: (
    Vec<UniqueChunk>,
    FileEntry,
))
    requires
        0 < target_block_size <= u32::MAX,
    ensures
        joined(r.0@) == data@,
        forall|k: int|
            0 <= k < r.0@.len() ==> (#[trigger] r.0@[k]).hash@ == hashing::blake3_digest(
                r.0@[k].data@,
            ),
        r.1.path@ == name@,
        r.1.file_type == FileType::File,
        r.1.size == data@.len(),
        entry_of(r.1, r.0@),
        data@.len() <= target_block_size ==> {
            &&& r.0@.len() == 1
            &&& r.1.hash == Some(r.0@[0].hash)
            &&& r.1.chunks@.len() == 0
        },
        data@.len() > target_block_size ==> {
            &&& r.1.hash is None
            &&& refers_to(r.1.chunks@, r.0@)
            &&& forall|k: int|
                0 <= k < r.0@.len() - 1 ==> (#[trigger] r.0@[k]).data@.len() == target_block_size
            &&& forall|k: int|
                0 <= k < r.0@.len() ==> 0 < (#[trigger] r.0@[k]).data@.len() <= target_block_size
        },
{
    if data.len() > target_block_size {
        let chunks = split_data(data, target_block_size);
        proof {
            law_size_is_sum_of_chunks(chunks@);
        }
        let entry = list_entry(name, &chunks);
        return (chunks, entry);
    }
    let hash = content_hash(data);
    let mut chunks: Vec<UniqueChunk> = Vec::new();
    let bytes: Vec<u8> = sub_bytes(data, 0, data.len());
    assert(bytes@ =~= data@);
    chunks.push(UniqueChunk { hash, data: bytes });
    assert(chunks@.drop_last() =~= Seq::<UniqueChunk>::empty());
    assert(joined(chunks@.drop_last()) =~= Seq::<u8>::empty());
    assert(chunks@.last().data@ == data@);
    assert(joined(chunks@) =~= data@);
    let entry = FileEntry {
        path: String::from_str(name),
        file_type: FileType::File,
        size: data.len() as u64,
        hash: Some(hash),
        chunks: Vec::new(),
    };
    (chunks, entry)
}

/// What the archive keeps for itself lies below one directory, and nothing else
/// does: a path is the archive's own exactly where it goes on from there.
pub proof fn law_own_paths(path: Seq<char>, rest: Seq<char>)
    ensures
        is_internal(".era/meta/"@ + rest),
        is_internal(path) ==> path.len() >= 10 && path.take(10) == ".era/meta/"@,
        path.len() < 10 ==> !is_internal(path),
        path.len() >= 10 && path.take(10) != ".era/meta/"@ ==> !is_internal(path),
{
    reveal_strlit(".era/meta/");
    assert((".era/meta/"@ + rest).take(10) =~= ".era/meta/"@);
    if is_internal(path) {
        assert(path.take(10) =~= ".era/meta/"@);
    }
}

/// The totals of an archive grow by every file that is added, by one and by its
/// size, and not by what the archive keeps for itself.
pub proof fn law_totals_count_user_files(entries: Seq<FileEntry>, e: FileEntry)
    ensures
        user_files(Seq::<FileEntry>::empty()) == 0,
        user_bytes(Seq::<FileEntry>::empty()) == 0,
        is_internal(e.path@) ==> user_files(entries.push(e)) == user_files(entries) && user_bytes(
            entries.push(e),
        ) == user_bytes(entries),
        !is_internal(e.path@) ==> user_files(entries.push(e)) == user_files(entries) + 1
            && user_bytes(entries.push(e)) == user_bytes(entries) + e.size,
{
    assert(entries.push(e).drop_last() =~= entries);
}

/// The entry of a file names as many chunks as the file has, under their hashes,
/// and as many bytes.
pub proof fn law_entry_names_every_chunk(e: FileEntry, chunks: Seq<UniqueChunk>, k: int)
    requires
        entry_of(e, chunks),
        0 <= k < chunks.len(),
    ensures
        e.chunks@.len() == chunks.len() && e.chunks@[k].hash == chunks[k].hash
            && e.chunks@[k].length == chunks[k].data@.len() && e.chunks@[k].packed is None || (
        chunks.len() == 1 && e.chunks@.len() == 0 && e.hash == Some(chunks[k].hash)),
        k + 1 < chunks.len() ==> e.chunks@[k].offset + e.chunks@[k].length == e.chunks@[k
            + 1].offset,
        e.chunks@.len() > 0 ==> e.chunks@[0].offset == 0,
        e.size == joined(chunks).len(),
{
    if k + 1 < chunks.len() {
        assert(e.hash is None);
        assert(e.chunks@[k + 1].offset == offset_of(chunks, k + 1));
    }
    if e.chunks@.len() > 0 {
        assert(e.chunks@[0].offset == offset_of(chunks, 0));
    }
}

} // verus!

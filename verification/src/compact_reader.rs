//! Taking files out of a compact bundle.
use vstd::prelude::*;

use crate::catalog;
use crate::catalog::{is_internal_path, Catalog, FileEntry, FileType, UniqueChunk};
use crate::hash_table::HashTable;
use crate::lsm_manifest::push_bytes;
use crate::paths;
use crate::paths::{find_path_fault, PathFault};
use crate::secrets::key_from;
use crate::small_file_packer::SmallFileEntry;
use crate::text;
use crate::types::{ChunkHash, EraError};
use crate::writer_core;

verus! {

/// What was taken out.
#[derive(Debug, Clone, Copy, PartialEq, Eq, Structural)]
pub struct CompactExtractStats {
    pub files_extracted: usize,
    pub bytes_written: u64,
    pub blocks_decrypted: usize,
}

impl Default for CompactExtractStats {
    fn default() -> (s: Self)
        ensures
            s == (CompactExtractStats {
                files_extracted: 0,
                bytes_written: 0,
                blocks_decrypted: 0,
            }),
    {
        CompactExtractStats { files_extracted: 0, bytes_written: 0, blocks_decrypted: 0 }
    }
}

impl CompactExtractStats {
    /// Counts a file that was written.
    pub fn on_file(&mut self, bytes: u64)
        requires
            old(self).files_extracted < usize::MAX,
            old(self).bytes_written + bytes <= u64::MAX,
        ensures
            *final(self) == (CompactExtractStats {
                files_extracted: (old(self).files_extracted + 1) as usize,
                bytes_written: (old(self).bytes_written + bytes) as u64,
                ..*old(self)
            }),
    {
        self.files_extracted = self.files_extracted + 1;
        self.bytes_written = self.bytes_written + bytes;
    }
}

/// The master key that the password opened.
pub fn compact_master_key(opened: Option<Vec<u8>>) -> (r: Result<[u8; 32], EraError>)
    ensures
        match opened {
            None => r matches Err(EraError::InvalidKey(m)) && m@
                == "no valid credentials for compact archive"@,
            Some(b) => if b@.len() == 32 {
                r matches Ok(k) && k@ == b@
            } else {
                r matches Err(EraError::InvalidKey(m)) && m@ == "invalid master key length"@
            },
        },
{
    match opened {
        None => Err(
            EraError::InvalidKey(String::from_str("no valid credentials for compact archive")),
        ),
        Some(b) => match key_from(b.as_slice()) {
            Some(k) => Ok(k),
            None => Err(EraError::InvalidKey(String::from_str("invalid master key length"))),
        },
    }
}

/// A path of a bundle must not lead out of the directory that files go to.
pub fn validate_path_safety(path: &str) -> (r: Result<(), EraError>)
    ensures
        match paths::path_fault(path@) {
            None => r is Ok,
            Some(PathFault::Climbs) => r matches Err(EraError::Security(m)) && m@
                == "path traversal detected: "@ + path@ + ""@,
            Some(PathFault::Absolute) => r matches Err(EraError::Security(m)) && m@
                == "absolute path in archive: "@ + path@ + ""@,
        },
{
    match find_path_fault(path) {
        None => Ok(()),
        Some(PathFault::Climbs) => Err(
            EraError::Security(text::with_text("path traversal detected: ", path, "")),
        ),
        Some(PathFault::Absolute) => Err(
            EraError::Security(text::with_text("absolute path in archive: ", path, "")),
        ),
    }
}

/// File `f` needs the chunk with hash `h`.
pub open spec fn needs(e: FileEntry, h: Seq<u8>) -> bool {
    &&& !catalog::is_internal(e.path@)
    &&& (exists|c: int| 0 <= c < e.chunks@.len() && #[trigger] e.chunks@[c].hash@ == h) || (
    e.chunks@.len() == 0 && e.hash is Some && e.hash->0@ == h)
}

/// One of the first `n` files needs the chunk with hash `h`.
pub open spec fn needed(entries: Seq<FileEntry>, n: nat, h: Seq<u8>) -> bool {
    exists|f: int| 0 <= f < n && needs(#[trigger] entries[f], h)
}

/// The search for the blocks that hold the chunks of a bundle's files.
#[derive(Debug)]
pub struct ChunkSearch {
    /// Chunks that were not found yet.
    pub remaining: HashTable<bool>,
    /// The blocks of those that were.
    pub found: HashTable<u64>,
}

/// A search as a value.
#[verifier::ext_equal]
pub struct SearchView {
    pub remaining: Set<Seq<u8>>,
    pub found: Map<Seq<u8>, u64>,
}

impl View for ChunkSearch {
    type V = SearchView;

    open spec fn view(&self) -> SearchView {
        SearchView { remaining: self.remaining@.dom(), found: self.found@ }
    }
}

impl SearchView {
    /// After the first `n` chunks of a block.
    pub open spec fn step(self, block: u64, hashes: Seq<ChunkHash>, n: nat) -> SearchView
        decreases n,
    {
        if n == 0 {
            self
        } else {
            let before = self.step(block, hashes, (n - 1) as nat);
            let h = hashes[n - 1]@;
            if before.remaining.contains(h) {
                SearchView {
                    remaining: before.remaining.remove(h),
                    found: before.found.insert(h, block),
                }
            } else {
                before
            }
        }
    }

    /// No chunk is both found and looked for.
    pub open spec fn apart(self) -> bool {
        forall|h: Seq<u8>| #[trigger] self.found.contains_key(h) ==> !self.remaining.contains(h)
    }
}

/// A chunk that was found stays where it was found first, and each chunk of the
/// block that was looked for is found there.
pub proof fn law_first_block_wins(
    v: SearchView,
    block: u64,
    hashes: Seq<ChunkHash>,
    n: nat,
    h: Seq<u8>,
)
    requires
        v.apart(),
        n <= hashes.len(),
    ensures
        v.step(block, hashes, n).apart(),
        v.found.contains_key(h) ==> v.step(block, hashes, n).found.contains_key(h) && v.step(
            block,
            hashes,
            n,
        ).found[h] == v.found[h],
        v.remaining.contains(h) ==> (v.step(block, hashes, n).remaining.contains(h) <==> !(exists|
            i: int,
        |
            0 <= i < n && #[trigger] hashes[i]@ == h)),
        v.remaining.contains(h) && !v.step(block, hashes, n).remaining.contains(h) ==> v.step(
            block,
            hashes,
            n,
        ).found.contains_key(h) && v.step(block, hashes, n).found[h] == block,
    decreases n,
{
    if n > 0 {
        law_first_block_wins(v, block, hashes, (n - 1) as nat, h);
        let before = v.step(block, hashes, (n - 1) as nat);
        let g = hashes[n - 1]@;
        law_first_block_wins(v, block, hashes, (n - 1) as nat, g);
        if v.remaining.contains(h) && exists|i: int| 0 <= i < n && #[trigger] hashes[i]@ == h {
            let i = choose|i: int| 0 <= i < n && #[trigger] hashes[i]@ == h;
            if i < n - 1 {
                assert(hashes[i]@ == h);
            }
        }
    }
}

impl ChunkSearch {
    pub open spec fn wf(&self) -> bool {
        self.remaining.wf() && self.found.wf() && self@.apart()
    }

    /// A search for the chunks that the files need.
    pub fn new(catalog: &Catalog) -> (s: Self)
        ensures
            s.wf(),
            s@.found == Map::<Seq<u8>, u64>::empty(),
            forall|h: Seq<u8>| #[trigger] s@.remaining.contains(h) <==> needed(
                catalog.entries@,
                catalog.entries@.len(),
                h,
            ),
    {
        let ghost entries = catalog.entries@;
        let mut remaining: HashTable<bool> = HashTable::new();
        let mut f: usize = 0;
        while f < catalog.entries.len()
            invariant
                f <= entries.len(),
                entries == catalog.entries@,
                remaining.wf(),
                forall|h: Seq<u8>| #[trigger] remaining@.contains_key(h) <==> needed(
                    entries,
                    f as nat,
                    h,
                ),
            decreases entries.len() - f,
        {
            let e = &catalog.entries[f];
            let ghost known = remaining@;
            if !is_internal_path(e.path.as_str()) {
                let n: usize = e.chunks.len();
                let mut c: usize = 0;
                while c < n
                    invariant
                        c <= n,
                        n == e.chunks@.len(),
                        remaining.wf(),
                        forall|h: Seq<u8>| #[trigger] remaining@.contains_key(h) <==> (
                        known.contains_key(h) || exists|k: int|
                            0 <= k < c && #[trigger] e.chunks@[k].hash@ == h),
                    decreases n - c,
                {
                    let ghost held = remaining@;
                    let hash = e.chunks[c].hash;
                    remaining.insert(hash, true);
                    proof {
                        assert forall|h: Seq<u8>| #[trigger] remaining@.contains_key(h) <==> (
                        known.contains_key(h) || exists|k: int|
                            0 <= k < c + 1 && #[trigger] e.chunks@[k].hash@ == h) by {
                            if h == hash@ {
                                assert(e.chunks@[c as int].hash@ == h);
                            } else {
                                assert(remaining@.contains_key(h) == held.contains_key(h));
                                if exists|k: int| 0 <= k < c + 1 && #[trigger] e.chunks@[k].hash@
                                    == h {
                                    let k = choose|k: int|
                                        0 <= k < c + 1 && #[trigger] e.chunks@[k].hash@ == h;
                                    assert(k < c);
                                }
                            }
                        }
                    }
                    c = c + 1;
                }
                if n == 0 {
                    if let Some(hash) = e.hash {
                        remaining.insert(hash, true);
                    }
                }
            }
            proof {
                assert forall|h: Seq<u8>| #[trigger] remaining@.contains_key(h) <==> needed(
                    entries,
                    (f + 1) as nat,
                    h,
                ) by {
                    assert(known.contains_key(h) <==> needed(entries, f as nat, h));
                    if needed(entries, f as nat, h) {
                        let k = choose|k: int| 0 <= k < f && needs(#[trigger] entries[k], h);
                        assert(needs(entries[k], h));
                    }
                    if needed(entries, (f + 1) as nat, h) {
                        let k = choose|k: int| 0 <= k < f + 1 && needs(#[trigger] entries[k], h);
                        if k < f {
                            assert(needed(entries, f as nat, h));
                        } else {
                            assert(needs(entries[f as int], h));
                        }
                    }
                    if needs(entries[f as int], h) {
                        assert(needed(entries, (f + 1) as nat, h));
                    }
                }
            }
            f = f + 1;
        }
        ChunkSearch { remaining, found: HashTable::new() }
    }

    /// Whether all chunks were found.
    pub fn is_done(&self) -> (r: bool)
        requires
            self.wf(),
        ensures
            r <==> self@.remaining == Set::<Seq<u8>>::empty(),
    {
        proof {
            if self.remaining@ == Map::<Seq<u8>, bool>::empty() {
                assert(self@.remaining =~= Set::empty());
            }
            if self@.remaining == Set::<Seq<u8>>::empty() {
                assert(self.remaining@ =~= Map::<Seq<u8>, bool>::empty());
            }
        }
        self.remaining.is_empty()
    }

    /// Takes note of the chunks that a block holds.
    pub fn on_block(&mut self, block: u64, hashes: &[ChunkHash])
        requires
            old(self).wf(),
        ensures
            final(self).wf(),
            final(self)@ == old(self)@.step(block, hashes@, hashes@.len()),
    {
        let ghost v = self@;
        let mut i: usize = 0;
        while i < hashes.len()
            invariant
                i <= hashes@.len(),
                self.wf(),
                self@ == v.step(block, hashes@, i as nat),
            decreases hashes@.len() - i,
        {
            let ghost held = self@;
            let hash = hashes[i];
            if self.remaining.contains(&hash) {
                self.remaining.remove(&hash);
                self.found.insert(hash, block);
                assert(self@.remaining =~= held.remaining.remove(hash@));
                assert forall|h: Seq<u8>| #[trigger] self@.found.contains_key(h) implies
                    !self@.remaining.contains(h) by {
                    if h != hash@ {
                        assert(held.found.contains_key(h));
                    }
                }
            }
            i = i + 1;
        }
    }

    /// Where the chunks lie. Every chunk has to be found.
    pub fn finish(self) -> (r: Result<HashTable<u64>, EraError>)
        requires
            self.wf(),
        ensures
            if self@.remaining == Set::<Seq<u8>>::empty() {
                r matches Ok(t) && t.wf() && t@ == self@.found
            } else {
                r matches Err(EraError::IntegrityError(m)) && m@ == text::decimal(
                    self@.remaining.len(),
                ) + " chunks not found in any compact block"@
            },
    {
        if self.is_done() {
            return Ok(self.found);
        }
        let n: usize = self.remaining.len();
        let m = text::with_number("", n as u64, " chunks not found in any compact block");
        proof {
            reveal_strlit("");
            assert(""@ + text::decimal(n as nat) =~= text::decimal(n as nat));
        }
        Err(EraError::IntegrityError(m))
    }
}

/// What is made of an entry of a bundle.
#[derive(Debug, Clone, Copy, PartialEq, Eq, Structural)]
pub enum CompactEntryPlan {
    Skip,
    Directory,
    EmptyFile,
    /// The file is put together from its chunks.
    Assemble,
}

/// What is made of an entry whose path can be used.
pub open spec fn compact_plan(e: FileEntry) -> CompactEntryPlan {
    if catalog::is_internal(e.path@) {
        CompactEntryPlan::Skip
    } else if e.chunks@.len() == 0 && e.hash is None {
        if e.file_type == FileType::Directory {
            CompactEntryPlan::Directory
        } else {
            CompactEntryPlan::EmptyFile
        }
    } else {
        CompactEntryPlan::Assemble
    }
}

/// Plans an entry of a bundle.
pub fn plan_compact_entry(entry: &FileEntry) -> (r: Result<CompactEntryPlan, EraError>)
    ensures
        if catalog::is_internal(entry.path@) || (paths::path_fault(entry.path@) is None
            && entry.file_type != FileType::Symlink) {
            r == Ok::<CompactEntryPlan, EraError>(compact_plan(*entry))
        } else {
            r matches Err(EraError::Security(m)) && m@ == (match paths::path_fault(entry.path@) {
                Some(PathFault::Climbs) => "path traversal detected: "@,
                Some(PathFault::Absolute) => "absolute path in archive: "@,
                None => "symbolic link in archive: "@,
            }) + entry.path@ + ""@
        },
{
    if is_internal_path(entry.path.as_str()) {
        return Ok(CompactEntryPlan::Skip);
    }
    match validate_path_safety(entry.path.as_str()) {
        Ok(()) => {},
        Err(e) => return Err(e),
    }
    if entry.file_type == FileType::Symlink {
        return Err(
            EraError::Security(
                text::with_text("symbolic link in archive: ", entry.path.as_str(), ""),
            ),
        );
    }
    if entry.chunks.len() == 0 && entry.hash.is_none() {
        if entry.file_type == FileType::Directory {
            return Ok(CompactEntryPlan::Directory);
        }
        return Ok(CompactEntryPlan::EmptyFile);
    }
    Ok(CompactEntryPlan::Assemble)
}

/// The block that a piece of a file lies in.
pub fn block_of_piece(found: &HashTable<u64>, hash: &ChunkHash, path: &str) -> (r: Result<
    u64,
    EraError,
>)
    requires
        found.wf(),
    ensures
        if found@.contains_key(hash@) {
            r == Ok::<u64, EraError>(found@[hash@])
        } else {
            r matches Err(EraError::IntegrityError(m)) && m@
                == "chunk hash not found in any block for file "@ + path@ + ""@
        },
{
    match found.get(hash) {
        Some(b) => Ok(*b),
        None => Err(
            EraError::IntegrityError(
                text::with_text("chunk hash not found in any block for file ", path, ""),
            ),
        ),
    }
}

/// The bytes of a piece that was looked up in its block.
pub fn piece_bytes(chunk: Option<Vec<u8>>, block: u64, path: &str) -> (r: Result<
    Vec<u8>,
    EraError,
>)
    ensures
        match chunk {
            Some(b) => r == Ok::<Vec<u8>, EraError>(b),
            None => r matches Err(EraError::IntegrityError(m)) && m@ == "chunk not found in block "@
                + text::decimal(block as nat) + " for file "@ + path@,
        },
{
    match chunk {
        Some(b) => Ok(b),
        None => {
            let mut m = text::with_number("chunk not found in block ", block, " for file ");
            m.append(path);
            Err(EraError::IntegrityError(m))
        },
    }
}

/// A member that was taken out of a shared chunk, or why it could not be.
pub fn unpacked_piece(member: Result<Vec<u8>, String>) -> (r: Result<Vec<u8>, EraError>)
    ensures
        match member {
            Ok(b) => r == Ok::<Vec<u8>, EraError>(b),
            Err(why) => r matches Err(EraError::IntegrityError(m)) && m@
                == "packed unpack failed: "@ + why@ + ""@,
        },
{
    match member {
        Ok(b) => Ok(b),
        Err(why) => Err(
            EraError::IntegrityError(text::with_text("packed unpack failed: ", why.as_str(), "")),
        ),
    }
}

/// A piece of a file: a chunk, or a member of one that files share.
#[derive(Debug, Clone, Copy)]
pub struct FilePiece {
    pub hash: ChunkHash,
    pub member: Option<usize>,
}

/// The pieces that a file is put together from, in order: those of its list, or
/// the one chunk that it is.
pub open spec fn pieces_of(e: FileEntry) -> Seq<FilePiece> {
    if e.chunks@.len() == 0 && e.hash is Some {
        seq![FilePiece { hash: e.hash->0, member: None }]
    } else {
        Seq::new(
            e.chunks@.len(),
            |c: int|
                FilePiece {
                    hash: e.chunks@[c].hash,
                    member: match e.chunks@[c].packed {
                        Some(p) => Some(p.file_index),
                        None => None,
                    },
                },
        )
    }
}

pub fn file_pieces(entry: &FileEntry) -> (pieces: Vec<FilePiece>)
    ensures
        pieces@ == pieces_of(*entry),
{
    let mut pieces: Vec<FilePiece> = Vec::new();
    if entry.chunks.len() == 0 {
        if let Some(hash) = entry.hash {
            pieces.push(FilePiece { hash, member: None });
        }
        assert(pieces@ =~= pieces_of(*entry));
        return pieces;
    }
    let mut c: usize = 0;
    while c < entry.chunks.len()
        invariant
            c <= entry.chunks@.len(),
            entry.chunks@.len() > 0,
            pieces@ == pieces_of(*entry).take(c as int),
        decreases entry.chunks@.len() - c,
    {
        let member: Option<usize> = match entry.chunks[c].packed {
            Some(p) => Some(p.file_index),
            None => None,
        };
        pieces.push(FilePiece { hash: entry.chunks[c].hash, member });
        assert(pieces@ =~= pieces_of(*entry).take(c + 1));
        c = c + 1;
    }
    assert(pieces_of(*entry).take(c as int) =~= pieces_of(*entry));
    pieces
}

/// Pieces one after another.
pub open spec fn put_together(pieces: Seq<Vec<u8>>) -> Seq<u8>
    decreases pieces.len(),
{
    if pieces.len() == 0 {
        Seq::empty()
    } else {
        put_together(pieces.drop_last()) + pieces.last()@
    }
}

/// The file that its pieces make.
pub fn assemble(pieces: &Vec<Vec<u8>>) -> (data: Vec<u8>)
    ensures
        data@ == put_together(pieces@),
{
    let mut data: Vec<u8> = Vec::new();
    let mut i: usize = 0;
    assert(put_together(pieces@.take(0)) =~= data@);
    while i < pieces.len()
        invariant
            i <= pieces@.len(),
            data@ == put_together(pieces@.take(i as int)),
        decreases pieces@.len() - i,
    {
        push_bytes(&mut data, pieces[i].as_slice());
        assert(pieces@.take(i + 1).drop_last() =~= pieces@.take(i as int));
        i = i + 1;
    }
    assert(pieces@.take(i as int) =~= pieces@);
    data
}

/// What is taken out of a bundle is what was added, for a file that has chunks
/// of its own: its pieces are those chunks, and together they are the file.
pub proof fn law_pieces_make_the_file(
    e: FileEntry,
    chunks: Seq<UniqueChunk>,
    pieces: Seq<Vec<u8>>,
)
    requires
        catalog::entry_of(e, chunks),
        pieces.len() == chunks.len(),
        forall|c: int| 0 <= c < chunks.len() ==> (#[trigger] pieces[c])@ == chunks[c].data@,
    ensures
        pieces_of(e) == chunks.map_values(
            |c: UniqueChunk| FilePiece { hash: c.hash, member: None },
        ),
        put_together(pieces) == catalog::joined(chunks),
{
    assert(pieces_of(e) =~= chunks.map_values(
        |c: UniqueChunk| FilePiece { hash: c.hash, member: None },
    ));
    lemma_put_together(pieces, chunks);
}

proof fn lemma_put_together(pieces: Seq<Vec<u8>>, chunks: Seq<UniqueChunk>)
    requires
        pieces.len() == chunks.len(),
        forall|c: int| 0 <= c < chunks.len() ==> (#[trigger] pieces[c])@ == chunks[c].data@,
    ensures
        put_together(pieces) == catalog::joined(chunks),
    decreases chunks.len(),
{
    if chunks.len() > 0 {
        let n = chunks.len() - 1;
        assert forall|c: int| 0 <= c < n implies (#[trigger] pieces.drop_last()[c])@
            == chunks.drop_last()[c].data@ by {
            assert(pieces[c]@ == chunks[c].data@);
        }
        lemma_put_together(pieces.drop_last(), chunks.drop_last());
        assert(pieces[n]@ == chunks[n].data@);
    }
}

/// What is taken out of a bundle is what was added, for a small file that shares
/// a chunk: its one piece is the member of the chunk that it was packed as.
pub proof fn law_member_makes_the_file(
    e: FileEntry,
    files: Seq<SmallFileEntry>,
    unique: Seq<usize>,
    member: Seq<usize>,
    i: int,
    chunk: UniqueChunk,
    pieces: Seq<Vec<u8>>,
)
    requires
        writer_core::is_pack_plan(files, unique, member),
        0 <= i < files.len(),
        writer_core::is_packed_entry(e, files[i], chunk, member[i], unique.len()),
        pieces.len() == 1,
        pieces[0]@ == files[unique[member[i] as int] as int].data@,
    ensures
        pieces_of(e) == seq![FilePiece { hash: chunk.hash, member: Some(member[i]) }],
        put_together(pieces) == files[unique[member[i] as int] as int].data@,
        files[unique[member[i] as int] as int].hash@ == files[i].hash@,
{
    writer_core::law_packed_files_are_found(files, unique, member, i);
    assert(pieces_of(e) =~= seq![FilePiece { hash: chunk.hash, member: Some(member[i]) }]);
    assert(put_together(pieces.drop_last()) =~= Seq::<u8>::empty());
    assert(put_together(pieces) =~= pieces[0]@);
}

/// The chunks that a user's file needs are those that it is put together from. A file of
/// the archive itself needs none and is passed over.
pub proof fn law_needed_chunks_are_the_pieces(e: FileEntry, h: Seq<u8>)
    ensures
        !catalog::is_internal(e.path@) ==> (needs(e, h) <==> exists|k: int|
            0 <= k < pieces_of(e).len() && (#[trigger] pieces_of(e)[k]).hash@ == h),
        catalog::is_internal(e.path@) ==> !needs(e, h) && compact_plan(e) is Skip,
{
    let p = pieces_of(e);
    if !catalog::is_internal(e.path@) {
        if exists|c: int| 0 <= c < e.chunks@.len() && #[trigger] e.chunks@[c].hash@ == h {
            let c = choose|c: int| 0 <= c < e.chunks@.len() && #[trigger] e.chunks@[c].hash@ == h;
            assert(p[c].hash@ == h);
        } else if needs(e, h) {
            assert(p[0].hash@ == h);
        }
        if exists|k: int| 0 <= k < p.len() && (#[trigger] p[k]).hash@ == h {
            let k = choose|k: int| 0 <= k < p.len() && (#[trigger] p[k]).hash@ == h;
            if e.chunks@.len() > 0 {
                assert(e.chunks@[k].hash@ == h);
            }
        }
    }
}

/// Exactly a user's file that needs a chunk is put together; without content there is a
/// directory or an empty file.
pub proof fn law_files_with_content_are_put_together(e: FileEntry)
    requires
        !catalog::is_internal(e.path@),
    ensures
        compact_plan(e) is Assemble <==> pieces_of(e).len() > 0,
        compact_plan(e) is Assemble <==> exists|h: Seq<u8>| #[trigger] needs(e, h),
        compact_plan(e) is Directory ==> e.file_type == FileType::Directory,
        compact_plan(e) is EmptyFile ==> e.file_type != FileType::Directory,
        compact_plan(e) !is Skip,
{
    let p = pieces_of(e);
    if p.len() > 0 {
        assert(p[0].hash@ == p[0].hash@);
        law_needed_chunks_are_the_pieces(e, p[0].hash@);
    }
    if exists|h: Seq<u8>| #[trigger] needs(e, h) {
        let h = choose|h: Seq<u8>| #[trigger] needs(e, h);
        law_needed_chunks_are_the_pieces(e, h);
    }
}

} // verus!

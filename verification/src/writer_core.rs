//! What a writer does with files: which wait, which chunks are stored, how
//! small files share a chunk, and in which order an archive is finished.
use vstd::prelude::*;

use crate::catalog::{Catalog, ChunkRef, FileEntry, FileType, PackedRef, UniqueChunk};
use crate::checkpoint::CheckpointManager;
use crate::chunk_index;
use crate::chunk_index::ChunkIndex;
use crate::hash_table;
use crate::hash_table::HashEntry;
use crate::hashing;
use crate::hashing::content_hash;
use crate::index_stage::IndexStage;
use crate::locations::{BlockLocation, LocationMap, LocationView};
use crate::ordering;
use crate::ordering::{stable_order, ByteKeys, Keys};
use crate::packing_stage::{PackedBlock, PackingStage};
use crate::recovery::RecoveryStrategy;
use crate::small_file_packer::SmallFileEntry;
use crate::text;
use crate::types::{copy_bytes, ChunkHash, EraError};
use crate::write_pipeline;

verus! {

/// Where the index of an archive is kept in it.
pub const INTERNAL_INDEX_NAME: &'static str = ".era/meta/index.bin";

/// Where the checkpoint of an archive is kept in it.
pub const INTERNAL_CHECKPOINT_NAME: &'static str = ".era/meta/checkpoint.bin";

/// The version of the index that is kept in an archive.
pub const EMBEDDED_INDEX_VERSION: u32 = 1;

/// What is done with a file.
#[derive(Debug, Clone, Copy, PartialEq, Eq, Structural)]
pub enum FileRoute {
    /// It waits for others that it shares a chunk with.
    Wait,
    /// It is cut into chunks by its content.
    Chunked,
    /// It is one chunk.
    Single,
}

/// What is done with a file of a given size. Empty files never wait.
pub fn route_file(size: u64, packing: bool, threshold: u64, enable_cdc: bool) -> (r: FileRoute)
    ensures
        r == if packing && 0 < size < threshold {
            FileRoute::Wait
        } else if enable_cdc {
            FileRoute::Chunked
        } else {
            FileRoute::Single
        },
{
    if packing && size > 0 && size < threshold {
        FileRoute::Wait
    } else if enable_cdc {
        FileRoute::Chunked
    } else {
        FileRoute::Single
    }
}

/// A directory is only added with all that it holds.
pub fn check_recursive(is_dir: bool, recursive: bool, path: &str) -> (r: Result<(), EraError>)
    ensures
        if is_dir && !recursive {
            r matches Err(EraError::Io(m)) && m@ == path@ + " is a directory (use recursive=true)"@
        } else {
            r is Ok
        },
{
    if is_dir && !recursive {
        let m = text::with_text("", path, " is a directory (use recursive=true)");
        proof {
            reveal_strlit("");
            assert(""@ + path@ =~= path@);
        }
        return Err(EraError::Io(m));
    }
    Ok(())
}

/// How small files share a chunk.
#[derive(Debug)]
pub struct PackPlan {
    /// The files whose bytes are in the chunk, in order.
    pub unique: Vec<usize>,
    /// For each file the place of its bytes in the chunk.
    pub member: Vec<usize>,
}

/// The hash of file `i`.
pub open spec fn hash_at(entries: Seq<SmallFileEntry>, i: int) -> Seq<u8> {
    entries[i].hash@
}

/// The chunk holds the bytes of each hash once, by rising hash, and every file
/// is where the bytes of its hash are.
pub open spec fn is_pack_plan(entries: Seq<SmallFileEntry>, unique: Seq<usize>, member: Seq<usize>) -> bool {
    &&& member.len() == entries.len()
    &&& forall|k: int|
        0 <= k < unique.len() ==> #[trigger] unique[k] < entries.len() && first_of_hash(
            entries,
            unique[k] as int,
        )
    &&& forall|k: int, l: int|
        0 <= k < l < unique.len() ==> ordering::lex_less(
            hash_at(entries, #[trigger] unique[k] as int),
            hash_at(entries, #[trigger] unique[l] as int),
        )
    &&& forall|i: int|
        0 <= i < entries.len() ==> #[trigger] member[i] < unique.len() && hash_at(
            entries,
            unique[member[i] as int] as int,
        ) == hash_at(entries, i)
}

/// No file before file `i` has its hash.
pub open spec fn first_of_hash(entries: Seq<SmallFileEntry>, i: int) -> bool {
    forall|k: int| 0 <= k < i ==> (#[trigger] entries[k]).hash@ != entries[i].hash@
}

/// Plans the chunk that small files share.
pub fn plan_pack(entries: &Vec<SmallFileEntry>) -> (p: PackPlan)
    ensures
        is_pack_plan(entries@, p.unique@, p.member@),
{
    let n: usize = entries.len();
    let mut list: Vec<Vec<u8>> = Vec::new();
    let mut i: usize = 0;
    while i < n
        invariant
            n == entries@.len(),
            i <= n,
            list@.len() == i,
            forall|k: int| 0 <= k < i ==> (#[trigger] list@[k])@ == entries@[k].hash@,
        decreases n - i,
    {
        list.push(copy_bytes(entries[i].hash.0.as_slice()));
        i = i + 1;
    }
    let keys = ByteKeys { keys: list };
    let order = stable_order(&keys);
    let mut unique: Vec<usize> = Vec::new();
    let mut member: Vec<usize> = Vec::new();
    let mut f: usize = 0;
    while f < n
        invariant
            f <= n,
            n == entries@.len(),
            member@.len() == f,
            forall|k: int| 0 <= k < f ==> #[trigger] member@[k] == 0,
        decreases n - f,
    {
        member.push(0);
        f = f + 1;
    }
    let mut at: usize = 0;
    while at < n
        invariant
            at <= n,
            n == entries@.len(),
            keys.keys@.len() == n,
            forall|k: int| 0 <= k < n ==> (#[trigger] keys.keys@[k])@ == entries@[k].hash@,
            ordering::is_stable_order(&keys, order@),
            member@.len() == n,
            at > 0 ==> unique@.len() > 0 && hash_at(entries@, unique@.last() as int) == hash_at(
                entries@,
                order@[at - 1] as int,
            ),
            at == 0 ==> unique@.len() == 0,
            unique@.len() <= at,
            forall|k: int|
                0 <= k < unique@.len() ==> #[trigger] unique@[k] < entries@.len() && first_of_hash(
                    entries@,
                    unique@[k] as int,
                ),
            forall|k: int, l: int|
                0 <= k < l < unique@.len() ==> ordering::lex_less(
                    hash_at(entries@, #[trigger] unique@[k] as int),
                    hash_at(entries@, #[trigger] unique@[l] as int),
                ),
            forall|k: int|
                0 <= k < at ==> member@[#[trigger] order@[k] as int] < unique@.len() && hash_at(
                    entries@,
                    unique@[member@[order@[k] as int] as int] as int,
                ) == hash_at(entries@, order@[k] as int),
        decreases n - at,
    {
        let file: usize = order[at];
        let ghost before = unique@;
        let ghost held = member@;
        let fresh: bool = at == 0 || !entries[unique[unique.len() - 1]].hash.same(
            &entries[file].hash,
        );
        proof {
            assert(keys.keys@[file as int]@ == entries@[file as int].hash@);
            assert forall|k: int| 0 <= k < at implies #[trigger] order@[k] != file by {
                assert(ordering::comes_before(&keys, order@[k] as int, order@[at as int] as int));
                keys.less_is_strict_order();
            }
        }
        if fresh {
            proof {
                lemma_fresh(entries@, &keys, order@, at as int);
                if at > 0 {
                    let last = before.last() as int;
                    let prev = order@[at - 1] as int;
                    assert(ordering::comes_before(&keys, prev, file as int));
                    assert(keys.keys@[prev]@ == entries@[prev].hash@);
                    if !ordering::lex_less(entries@[prev].hash@, entries@[file as int].hash@) {
                        ordering::lemma_lex_total(
                            entries@[prev].hash@,
                            entries@[file as int].hash@,
                        );
                    }
                    assert forall|k: int| 0 <= k < before.len() implies ordering::lex_less(
                        hash_at(entries@, #[trigger] before[k] as int),
                        hash_at(entries@, file as int),
                    ) by {
                        if k < before.len() - 1 {
                            assert(ordering::lex_less(
                                hash_at(entries@, before[k] as int),
                                hash_at(entries@, before[before.len() - 1] as int),
                            ));
                            ordering::lemma_lex_transitive(
                                hash_at(entries@, before[k] as int),
                                hash_at(entries@, last),
                                hash_at(entries@, file as int),
                            );
                        }
                    }
                }
            }
            unique.push(file);
        }
        let place: usize = unique.len() - 1;
        member.set(file, place);
        proof {
            assert forall|k: int| 0 <= k < at + 1 implies member@[#[trigger] order@[k] as int]
                < unique@.len() && hash_at(
                entries@,
                unique@[member@[order@[k] as int] as int] as int,
            ) == hash_at(entries@, order@[k] as int) by {
                if k < at {
                    assert(order@[k] != file);
                    assert(member@[order@[k] as int] == held[order@[k] as int]);
                    assert(unique@[held[order@[k] as int] as int] == before[held[order@[k] as int] as int]);
                }
            }
        }
        at = at + 1;
    }
    proof {
        assert forall|i: int| 0 <= i < entries@.len() implies #[trigger] member@[i] < unique@.len()
            && hash_at(entries@, unique@[member@[i] as int] as int) == hash_at(entries@, i) by {
            assert(order@.contains(i as usize));
            let k = choose|k: int| 0 <= k < order@.len() && order@[k] == i as usize;
            assert(member@[order@[k] as int] < unique@.len());
        }
    }
    PackPlan { unique, member }
}

/// The first file of a new hash in the sorted order is the first of that hash.
proof fn lemma_fresh(
    entries: Seq<SmallFileEntry>,
    keys: &ByteKeys,
    order: Seq<usize>,
    at: int,
)
    requires
        ordering::is_stable_order(keys, order),
        keys.keys@.len() == entries.len(),
        forall|k: int| 0 <= k < entries.len() ==> (#[trigger] keys.keys@[k])@ == entries[k].hash@,
        0 <= at < order.len(),
        at > 0 ==> entries[order[at - 1] as int].hash@ != entries[order[at] as int].hash@,
    ensures
        first_of_hash(entries, order[at] as int),
{
    let file = order[at] as int;
    assert forall|k: int| 0 <= k < file implies (#[trigger] entries[k]).hash@
        != entries[file].hash@ by {
        if entries[k].hash@ == entries[file].hash@ {
            assert(order.contains(k as usize));
            let p = choose|p: int| 0 <= p < order.len() && order[p] == k as usize;
            assert(keys.keys@[k]@ == keys.keys@[file]@);
            ordering::lemma_lex_irreflexive(entries[file].hash@);
            if p > at {
                assert(ordering::comes_before(keys, order[at] as int, order[p] as int));
            } else if p < at {
                if p < at - 1 {
                    assert(ordering::comes_before(keys, order[p] as int, order[at - 1] as int));
                }
                assert(ordering::comes_before(keys, order[at - 1] as int, order[at] as int));
                let m = order[at - 1] as int;
                assert(keys.keys@[m]@ == entries[m].hash@);
                let h = entries[file].hash@;
                let g = entries[m].hash@;
                assert(keys.less(k, m) == ordering::lex_less(h, g));
                assert(keys.less(m, k) == ordering::lex_less(g, h));
                assert(keys.less(m, file) == ordering::lex_less(g, h));
                assert(keys.less(file, m) == ordering::lex_less(h, g));
                // Between two files with one hash stand only files with it.
                if ordering::lex_less(g, h) && ordering::lex_less(h, g) {
                    ordering::lemma_lex_transitive(g, h, g);
                    ordering::lemma_lex_irreflexive(g);
                }
                assert(!ordering::lex_less(h, g));
                assert(!ordering::lex_less(g, h));
                ordering::lemma_lex_total(g, h);
            }
        }
    }
}

/// The chunk that small files share, under the hash of its bytes.
pub fn packed_chunk(data: Vec<u8>) -> (c: UniqueChunk)
    ensures
        c.data == data,
        c.hash@ == hashing::blake3_digest(data@),
{
    let hash = content_hash(data.as_slice());
    UniqueChunk { hash, data }
}

/// The catalog entry of a small file is right: it refers to the chunk, and to
/// the file's place in it.
pub open spec fn is_packed_entry(
    e: FileEntry,
    file: SmallFileEntry,
    chunk: UniqueChunk,
    member: usize,
    count: nat,
) -> bool {
    &&& e.path@ == file.path@
    &&& e.file_type == FileType::File
    &&& e.size == file.data@.len()
    &&& e.hash is None
    &&& e.chunks@.len() == 1
    &&& e.chunks@[0].hash == chunk.hash
    &&& e.chunks@[0].offset == 0
    &&& e.chunks@[0].length == chunk.data@.len()
    &&& e.chunks@[0].packed == Some(PackedRef { file_index: member, file_count: count as usize })
}

/// The catalog entries of small files that share a chunk.
pub fn packed_entries(entries: &Vec<SmallFileEntry>, plan: &PackPlan, chunk: &UniqueChunk) -> (list:
    Vec<FileEntry>)
    requires
        is_pack_plan(entries@, plan.unique@, plan.member@),
        chunk.data@.len() <= u32::MAX,
    ensures
        list@.len() == entries@.len(),
        forall|i: int|
            0 <= i < list@.len() ==> is_packed_entry(
                #[trigger] list@[i],
                entries@[i],
                *chunk,
                plan.member@[i],
                plan.unique@.len(),
            ),
        forall|i: int|
            0 <= i < list@.len() ==> (#[trigger] list@[i]).path@ == entries@[i].path@
                && list@[i].size == entries@[i].data@.len(),
{
    let mut list: Vec<FileEntry> = Vec::new();
    let count: usize = plan.unique.len();
    let mut i: usize = 0;
    while i < entries.len()
        invariant
            i <= entries@.len(),
            is_pack_plan(entries@, plan.unique@, plan.member@),
            chunk.data@.len() <= u32::MAX,
            count == plan.unique@.len(),
            list@.len() == i,
            forall|k: int|
                0 <= k < i ==> is_packed_entry(
                    #[trigger] list@[k],
                    entries@[k],
                    *chunk,
                    plan.member@[k],
                    count as nat,
                ),
            forall|k: int|
                0 <= k < i ==> (#[trigger] list@[k]).path@ == entries@[k].path@ && list@[k].size
                    == entries@[k].data@.len(),
        decreases entries@.len() - i,
    {
        let mut chunks: Vec<ChunkRef> = Vec::new();
        chunks.push(
            ChunkRef {
                hash: chunk.hash,
                offset: 0,
                length: chunk.data.len() as u32,
                packed: Some(PackedRef { file_index: plan.member[i], file_count: count }),
            },
        );
        list.push(
            FileEntry {
                path: String::from_str(entries[i].path.as_str()),
                file_type: FileType::File,
                size: entries[i].data.len() as u64,
                hash: None,
                chunks,
            },
        );
        i = i + 1;
    }
    list
}

/// The hashes of small files that share a chunk, each one once.
pub fn packed_hashes(entries: &Vec<SmallFileEntry>, plan: &PackPlan) -> (hashes: Vec<ChunkHash>)
    requires
        is_pack_plan(entries@, plan.unique@, plan.member@),
    ensures
        hashes@ == plan.unique@.map_values(|i: usize| entries@[i as int].hash),
{
    let mut hashes: Vec<ChunkHash> = Vec::new();
    let mut k: usize = 0;
    while k < plan.unique.len()
        invariant
            k <= plan.unique@.len(),
            is_pack_plan(entries@, plan.unique@, plan.member@),
            hashes@ == plan.unique@.take(k as int).map_values(|i: usize| entries@[i as int].hash),
        decreases plan.unique@.len() - k,
    {
        assert(plan.unique@[k as int] < entries@.len());
        hashes.push(entries[plan.unique[k]].hash);
        assert(hashes@ =~= plan.unique@.take(k + 1).map_values(|i: usize| entries@[i as int].hash));
        k = k + 1;
    }
    assert(plan.unique@.take(plan.unique@.len() as int) =~= plan.unique@);
    hashes
}

/// A small file is found by its hash: the bytes at its place in the chunk are
/// those of a file with the same hash.
pub proof fn law_packed_files_are_found(
    entries: Seq<SmallFileEntry>,
    unique: Seq<usize>,
    member: Seq<usize>,
    i: int,
)
    requires
        is_pack_plan(entries, unique, member),
        0 <= i < entries.len(),
    ensures
        member[i] < unique.len(),
        entries[unique[member[i] as int] as int].hash@ == entries[i].hash@,
        unique[member[i] as int] <= i,
{
    let u = unique[member[i] as int] as int;
    assert(member[i] < unique.len());
    assert(hash_at(entries, u) == hash_at(entries, i));
    assert(first_of_hash(entries, u));
    if u > i {
        assert(entries[i].hash@ != entries[u].hash@);
    }
}

/// What a writer keeps while files come in.
#[derive(Debug)]
pub struct WriterCore<I: ChunkIndex> {
    pub index: IndexStage<I>,
    /// The chunks that are in the archive, for the archive itself.
    pub embedded_index: LocationMap,
    pub staging: PackingStage,
    pub catalog: Catalog,
    pub checkpoint: Option<CheckpointManager>,
}

impl<I: ChunkIndex> WriterCore<I> {
    pub open spec fn wf(&self) -> bool {
        &&& self.index.chunk_index.valid()
        &&& self.embedded_index.wf()
        &&& self.staging.wf()
        &&& self.checkpoint matches Some(c) ==> c.wf()
    }

    /// The checkpoint can count `n` more chunks.
    pub open spec fn room(&self, n: nat) -> bool {
        self.checkpoint matches Some(c) ==> c.checkpoint.chunks_written + n <= u64::MAX
    }

    /// The chunks that the checkpoint knows.
    pub open spec fn checkpointed(&self) -> Option<Map<Seq<u8>, LocationView>> {
        match self.checkpoint {
            Some(c) => Some(c.checkpoint.written_chunks@),
            None => None,
        }
    }

    /// Of the checkpoint only the chunks and their number are other than in
    /// `from`.
    pub open spec fn checkpoint_differs_in_chunks(&self, from: Self) -> bool {
        match (self.checkpoint, from.checkpoint) {
            (Some(a), Some(b)) => a.archive_path == b.archive_path
                && a.checkpoint.same_but_chunks(b.checkpoint),
            (None, None) => true,
            _ => false,
        }
    }

    /// Takes a chunk of a file. One that the archive holds already is dropped;
    /// another one goes to the bins, which may give a block back.
    pub fn offer_chunk(&mut self, chunk: UniqueChunk) -> (r: Result<Option<PackedBlock>, EraError>)
        requires
            old(self).wf(),
        ensures
            final(self).wf(),
            final(self).index == old(self).index,
            final(self).embedded_index == old(self).embedded_index,
            final(self).catalog == old(self).catalog,
            final(self).checkpoint == old(self).checkpoint,
            r is Ok,
            final(self).staging.same_limits(old(self).staging),
            old(self).index.chunk_index.locations().contains_key(chunk.hash@) ==> r
                == Ok::<Option<PackedBlock>, EraError>(None) && final(self).staging
                == old(self).staging,
            !old(self).index.chunk_index.locations().contains_key(chunk.hash@)
                && chunk.data@.len() > old(self).staging.target_block_size ==> (r matches Ok(
                Some(b),
            ) && b.chunks@ == seq![chunk] && final(self).staging@ == old(self).staging@),
            !old(self).index.chunk_index.locations().contains_key(chunk.hash@)
                && chunk.data@.len() <= old(self).staging.target_block_size ==> exists|i: int|
                #[trigger] crate::packing_stage::is_choice(
                    old(self).staging@,
                    old(self).staging.target_block_size as nat,
                    chunk.data@.len(),
                    i,
                ) && {
                    let bin = old(self).staging@[i].push(chunk);
                    if old(self).staging.is_full(crate::packing_stage::bytes_of(bin)) {
                        (r matches Ok(Some(b)) && b.chunks@ == bin) && final(self).staging@
                            == old(self).staging@.update(i, Seq::empty())
                    } else {
                        r == Ok::<Option<PackedBlock>, EraError>(None) && final(self).staging@
                            == old(self).staging@.update(i, bin)
                    }
                },
    {
        let known = match self.index.contains(&chunk.hash) {
            Ok(k) => k,
            Err(e) => return Err(e),
        };
        if known {
            return Ok(None);
        }
        Ok(self.staging.push(chunk))
    }

    /// Adds a file to the catalog.
    pub fn add_entry(&mut self, entry: FileEntry)
        requires
            old(self).wf(),
        ensures
            final(self).wf(),
            final(self).index == old(self).index,
            final(self).embedded_index == old(self).embedded_index,
            final(self).staging == old(self).staging,
            final(self).checkpoint == old(self).checkpoint,
            final(self).catalog.entries@ == old(self).catalog.entries@.push(entry),
    {
        self.catalog.entries.push(entry);
    }

    /// Notes where a chunk lies: in the index, in the archive's own copy of it,
    /// and in the checkpoint. Where the index refuses it, the others do not
    /// learn of it.
    pub fn record_chunk_location(&mut self, hash: ChunkHash, location: BlockLocation) -> (r: Result<
        (),
        EraError,
    >)
        requires
            old(self).wf(),
            old(self).room(1),
        ensures
            final(self).wf(),
            final(self).staging == old(self).staging,
            final(self).catalog == old(self).catalog,
            final(self).index.checkpoint_manager == old(self).index.checkpoint_manager,
            final(self).index.chunk_index.accepts() == old(self).index.chunk_index.accepts(),
            final(self).index.chunk_index.locations()
                == old(self).index.chunk_index.locations().insert(hash@, location@),
            final(self).index.chunk_index.collected() == (
            match old(self).index.chunk_index.collected() {
                Some(c) => Some(c.push(chunk_index::index_entry(hash, location@))),
                None => None,
            }),
            r is Ok <==> old(self).index.chunk_index.accepts(),
            r matches Err(e) ==> e is InvalidConfig,
            final(self).checkpoint_differs_in_chunks(*old(self)),
            if old(self).index.chunk_index.accepts() {
                &&& final(self).embedded_index@ == old(self).embedded_index@.insert(
                    hash@,
                    location@,
                )
                &&& final(self).checkpointed() == (match old(self).checkpointed() {
                    Some(m) => Some(m.insert(hash@, location@)),
                    None => None,
                })
                &&& final(self).checkpoint matches Some(c) ==> c.checkpoint.chunks_written == old(
                    self,
                ).checkpoint->0.checkpoint.chunks_written + 1
            } else {
                &&& final(self).embedded_index == old(self).embedded_index
                &&& final(self).checkpoint == old(self).checkpoint
            },
    {
        match self.index.record_location(hash, location.duplicate()) {
            Ok(()) => {},
            Err(e) => return Err(e),
        }
        self.embedded_index.insert(hash, location.duplicate());
        let mut checkpoint: Option<CheckpointManager> = None;
        std::mem::swap(&mut checkpoint, &mut self.checkpoint);
        match checkpoint {
            Some(mut m) => {
                let noted = m.record_chunk(hash, location);
                self.checkpoint = Some(m);
                noted
            },
            None => Ok(()),
        }
    }

    /// A writer that resumes knows from the start what its checkpoint knows. An
    /// index that refuses one chunk stops it.
    pub fn restore_chunks(&mut self, strategy: RecoveryStrategy) -> (r: Result<(), EraError>)
        requires
            old(self).wf(),
        ensures
            final(self).wf(),
            final(self).staging == old(self).staging,
            final(self).catalog == old(self).catalog,
            final(self).checkpoint == old(self).checkpoint,
            final(self).index.checkpoint_manager == old(self).index.checkpoint_manager,
            final(self).index.chunk_index.accepts() == old(self).index.chunk_index.accepts(),
            if strategy == RecoveryStrategy::Resume && old(self).checkpoint is Some {
                let noted = old(self).checkpointed()->0;
                let records = noted_records(
                    (old(self).checkpoint->0).checkpoint.written_chunks.entries@,
                );
                &&& r is Ok ==> final(self).index.chunk_index.collected()
                    == write_pipeline::collected_with(
                    old(self).index.chunk_index.collected(),
                    records,
                )
                &&& r is Err ==> final(self).index.chunk_index.locations() == old(
                    self,
                ).index.chunk_index.locations().insert(records[0].0@, records[0].1)
                &&& r is Err ==> final(self).index.chunk_index.collected()
                    == write_pipeline::collected_with(
                    old(self).index.chunk_index.collected(),
                    seq![records[0]],
                )
                &&& r matches Err(e) ==> e is InvalidConfig
                &&& r is Ok <==> old(self).index.chunk_index.accepts() || noted == Map::<
                    Seq<u8>,
                    LocationView,
                >::empty()
                &&& r is Ok ==> final(self).index.chunk_index.locations() == old(
                    self,
                ).index.chunk_index.locations().union_prefer_right(noted)
                &&& r is Ok ==> final(self).embedded_index@ == old(
                    self,
                ).embedded_index@.union_prefer_right(noted)
                &&& r is Err ==> final(self).embedded_index == old(self).embedded_index
            } else {
                r is Ok && final(self).index == old(self).index && final(self).embedded_index
                    == old(self).embedded_index
            },
    {
        if strategy != RecoveryStrategy::Resume {
            return Ok(());
        }
        let mut checkpoint: Option<CheckpointManager> = None;
        std::mem::swap(&mut checkpoint, &mut self.checkpoint);
        let r = match &checkpoint {
            Some(m) => self.learn_all(&m.checkpoint.written_chunks),
            None => Ok(()),
        };
        self.checkpoint = checkpoint;
        r
    }

    fn learn_all(&mut self, noted: &LocationMap) -> (r: Result<(), EraError>)
        requires
            old(self).wf(),
            old(self).checkpoint is None,
            noted.wf(),
        ensures
            final(self).wf(),
            final(self).staging == old(self).staging,
            final(self).catalog == old(self).catalog,
            final(self).checkpoint is None,
            final(self).index.checkpoint_manager == old(self).index.checkpoint_manager,
            final(self).index.chunk_index.accepts() == old(self).index.chunk_index.accepts(),
            r is Ok ==> final(self).index.chunk_index.collected() == write_pipeline::collected_with(
                old(self).index.chunk_index.collected(),
                noted_records(noted.entries@),
            ),
            r is Err ==> final(self).index.chunk_index.locations() == old(
                self,
            ).index.chunk_index.locations().insert(
                noted.entries@[0].hash@,
                noted.entries@[0].value@,
            ),
            r is Err ==> final(self).index.chunk_index.collected()
                == write_pipeline::collected_with(
                old(self).index.chunk_index.collected(),
                seq![(noted.entries@[0].hash, noted.entries@[0].value@)],
            ),
            r is Err ==> noted.entries@.len() > 0,
            r matches Err(e) ==> e is InvalidConfig,
            r is Ok <==> old(self).index.chunk_index.accepts() || noted@ == Map::<
                Seq<u8>,
                LocationView,
            >::empty(),
            r is Ok ==> final(self).index.chunk_index.locations() == old(
                self,
            ).index.chunk_index.locations().union_prefer_right(noted@),
            r is Ok ==> final(self).embedded_index@ == old(
                self,
            ).embedded_index@.union_prefer_right(noted@),
            r is Err ==> final(self).embedded_index == old(self).embedded_index,
    {
        let ghost before = self.index.chunk_index.locations();
        let ghost embedded = self.embedded_index@;
        let ghost accepts = self.index.chunk_index.accepts();
        let ghost collected = self.index.chunk_index.collected();
        let ghost records = noted_records(noted.entries@);
        let n: usize = noted.entries.len();
        let mut i: usize = 0;
        proof {
            write_pipeline::lemma_collected_none(collected);
            assert(records.take(0) =~= Seq::empty());
            let none = noted.entries@.take(0);
            assert(none.len() == 0);
            assert(before.union_prefer_right(hash_table::map_of(none)) =~= before);
            assert(embedded.union_prefer_right(hash_table::map_of(none)) =~= embedded);
        }
        while i < n
            invariant
                i <= n,
                n == noted.entries@.len(),
                self.wf(),
                self.staging == old(self).staging,
                self.catalog == old(self).catalog,
                self.checkpoint is None,
                self.index.checkpoint_manager == old(self).index.checkpoint_manager,
                collected == old(self).index.chunk_index.collected(),
                records == noted_records(noted.entries@),
                self.index.chunk_index.collected() == write_pipeline::collected_with(
                    collected,
                    records.take(i as int),
                ),
                before == old(self).index.chunk_index.locations(),
                embedded == old(self).embedded_index@,
                accepts == old(self).index.chunk_index.accepts(),
                self.index.chunk_index.accepts() == accepts,
                i > 0 ==> accepts,
                i == 0 ==> self.embedded_index == old(self).embedded_index,
                self.index.chunk_index.locations() == before.union_prefer_right(
                    hash_table::map_of(noted.entries@.take(i as int)),
                ),
                self.embedded_index@ == embedded.union_prefer_right(
                    hash_table::map_of(noted.entries@.take(i as int)),
                ),
            decreases n - i,
        {
            let hash = noted.entries[i].hash;
            proof {
                let less = noted.entries@.take(i as int);
                let more = noted.entries@.take(i + 1);
                assert(more.drop_last() =~= less);
                let one = records[i as int];
                assert(records.take(i + 1) =~= records.take(i as int).push(one));
                write_pipeline::lemma_collected_push(collected, records.take(i as int), one);
                let h = hash@;
                let l = noted.entries@[i as int].value@;
                assert(before.union_prefer_right(hash_table::map_of(more))
                    =~= before.union_prefer_right(hash_table::map_of(less)).insert(h, l));
                assert(embedded.union_prefer_right(hash_table::map_of(more))
                    =~= embedded.union_prefer_right(hash_table::map_of(less)).insert(h, l));
            }
            match self.index.record_location(hash, noted.entries[i].value.duplicate()) {
                Ok(()) => {},
                Err(e) => {
                    proof {
                        let all = noted.entries@;
                        assert(hash_table::map_of(all).contains_key(all.last().hash@));
                        assert(records.take(1) =~= seq![records[0]]);
                        assert(noted.entries@.take(0).len() == 0);
                        assert(before.union_prefer_right(
                            hash_table::map_of(noted.entries@.take(0)),
                        ) =~= before);
                    }
                    return Err(e);
                },
            }
            self.embedded_index.insert(hash, noted.entries[i].value.duplicate());
            i = i + 1;
        }
        proof {
            let all = noted.entries@;
            assert(all.take(all.len() as int) =~= all);
            assert(records.take(all.len() as int) =~= records);
            if all.len() > 0 {
                assert(hash_table::map_of(all).contains_key(all.last().hash@));
            }
        }
        Ok(())
    }

    /// What is done with a chunk that small files share.
    pub fn plan_shared_chunk(&self, chunk: &ChunkHash) -> (r: Result<SharedChunkPlan, EraError>)
        requires
            self.wf(),
        ensures
            if self.index.chunk_index.locations().contains_key(chunk@) {
                r matches Ok(SharedChunkPlan::Reuse(l)) && l@
                    == self.index.chunk_index.locations()[chunk@]
            } else {
                r matches Ok(SharedChunkPlan::Write)
            },
    {
        match self.index.get(chunk) {
            Ok(Some(l)) => Ok(SharedChunkPlan::Reuse(l)),
            Ok(None) => Ok(SharedChunkPlan::Write),
            Err(e) => Err(e),
        }
    }

    /// Notes small files under a chunk that is in the archive already. Those
    /// that are known stay where they are. An index that refuses one stops it.
    pub fn reuse_shared_chunk(&mut self, hashes: &[ChunkHash], location: &BlockLocation) -> (r:
        Result<(), EraError>)
        requires
            old(self).wf(),
            old(self).room(hashes@.len()),
        ensures
            final(self).wf(),
            final(self).staging == old(self).staging,
            final(self).catalog == old(self).catalog,
            final(self).index.checkpoint_manager == old(self).index.checkpoint_manager,
            final(self).checkpoint_differs_in_chunks(*old(self)),
            ({
                let before = old(self).index.chunk_index.locations();
                let all_known = forall|k: int|
                    0 <= k < hashes@.len() ==> before.contains_key((#[trigger] hashes@[k])@);
                &&& r is Ok <==> old(self).index.chunk_index.accepts() || all_known
                &&& r is Ok ==> final(self).index.chunk_index.locations() == with_missing(
                    before,
                    before,
                    hashes@,
                    location@,
                )
                &&& r is Ok ==> final(self).embedded_index@ == with_missing(
                    old(self).embedded_index@,
                    before,
                    hashes@,
                    location@,
                )
                &&& r is Ok ==> final(self).checkpointed() == (match old(self).checkpointed() {
                    Some(m) => Some(with_missing(m, before, hashes@, location@)),
                    None => None,
                })
                &&& r is Ok && final(self).checkpoint is Some ==> (
                final(self).checkpoint->0).checkpoint.chunks_written == (
                old(self).checkpoint->0).checkpoint.chunks_written + missing_records(
                    before,
                    hashes@,
                    location@,
                ).len()
                &&& r is Ok ==> final(self).index.chunk_index.collected()
                    == write_pipeline::collected_with(
                    old(self).index.chunk_index.collected(),
                    missing_records(before, hashes@, location@),
                )
                &&& r is Err ==> final(self).embedded_index@ == old(self).embedded_index@
                    && final(self).checkpoint == old(self).checkpoint
                &&& r matches Err(e) ==> e is InvalidConfig
                &&& r is Err ==> exists|k: int| #[trigger]
                    first_missing(before, hashes@, k)
                        && final(self).index.chunk_index.locations() == before.insert(
                        hashes@[k]@,
                        location@,
                    ) && final(self).index.chunk_index.collected()
                        == write_pipeline::collected_with(
                        old(self).index.chunk_index.collected(),
                        seq![(hashes@[k], location@)],
                    )
            }),
    {
        let ghost collected = self.index.chunk_index.collected();
        proof {
            write_pipeline::lemma_collected_none(collected);
        }
        let ghost before = self.index.chunk_index.locations();
        let ghost accepts = self.index.chunk_index.accepts();
        let ghost embedded = self.embedded_index@;
        let ghost noted = self.checkpointed();
        let mut i: usize = 0;
        proof {
            let none = hashes@.take(0);
            assert(none.len() == 0);
            assert(with_missing(before, before, none, location@) =~= before);
            assert(with_missing(embedded, before, none, location@) =~= embedded);
            if noted is Some {
                assert(with_missing(noted->0, before, none, location@) =~= noted->0);
            }
        }
        while i < hashes.len()
            invariant
                i <= hashes@.len(),
                self.wf(),
                self.room((hashes@.len() - i) as nat),
                self.staging == old(self).staging,
                self.catalog == old(self).catalog,
                self.index.checkpoint_manager == old(self).index.checkpoint_manager,
                self.checkpoint_differs_in_chunks(*old(self)),
                accepts || self.checkpoint == old(self).checkpoint,
                before == old(self).index.chunk_index.locations(),
                accepts == old(self).index.chunk_index.accepts(),
                embedded == old(self).embedded_index@,
                noted == old(self).checkpointed(),
                self.index.chunk_index.accepts() == accepts,
                accepts || self.index.chunk_index.locations() == before,
                accepts || self.embedded_index@ == embedded,
                accepts || self.checkpointed() == noted,
                accepts || forall|k: int|
                    0 <= k < i ==> before.contains_key((#[trigger] hashes@[k])@),
                self.index.chunk_index.locations() == with_missing(
                    before,
                    before,
                    hashes@.take(i as int),
                    location@,
                ),
                self.embedded_index@ == with_missing(
                    embedded,
                    before,
                    hashes@.take(i as int),
                    location@,
                ),
                self.checkpointed() == (match noted {
                    Some(m) => Some(with_missing(m, before, hashes@.take(i as int), location@)),
                    None => None,
                }),
                self.checkpoint is Some ==> (self.checkpoint->0).checkpoint.chunks_written == (
                old(self).checkpoint->0).checkpoint.chunks_written + missing_records(
                    before,
                    hashes@.take(i as int),
                    location@,
                ).len(),
                collected == old(self).index.chunk_index.collected(),
                self.index.chunk_index.collected() == write_pipeline::collected_with(
                    collected,
                    missing_records(before, hashes@.take(i as int), location@),
                ),
                accepts || self.index.chunk_index.collected() == collected,
            decreases hashes@.len() - i,
        {
            let hash = hashes[i];
            proof {
                lemma_one_more(before, before, hashes@, location@, i as int);
                lemma_one_more(embedded, before, hashes@, location@, i as int);
                if noted is Some {
                    lemma_one_more(noted->0, before, hashes@, location@, i as int);
                }
            }
            let known = match self.index.contains(&hash) {
                Ok(k) => k,
                Err(e) => return Err(e),
            };
            if !known {
                proof {
                    let less = missing_records(before, hashes@.take(i as int), location@);
                    write_pipeline::lemma_collected_push(collected, less, (hash, location@));
                }
                match self.record_chunk_location(hash, location.duplicate()) {
                    Ok(()) => {},
                    Err(e) => {
                        proof {
                            let one = Seq::<(ChunkHash, LocationView)>::empty();
                            write_pipeline::lemma_collected_push(
                                collected,
                                one,
                                (hash, location@),
                            );
                            assert(one.push((hash, location@)) =~= seq![(hash, location@)]);
                        }
                        assert(first_missing(before, hashes@, i as int));
                        return Err(e);
                    },
                }
            }
            i = i + 1;
        }
        assert(hashes@.take(hashes@.len() as int) =~= hashes@);
        Ok(())
    }
}

/// The chunks of a checkpoint as an index is told of them.
pub open spec fn noted_records(entries: Seq<HashEntry<BlockLocation>>) -> Seq<
    (ChunkHash, LocationView),
> {
    entries.map_values(|e: HashEntry<BlockLocation>| (e.hash, e.value@))
}

/// What is done with a chunk that small files share.
#[derive(Debug)]
pub enum SharedChunkPlan {
    /// It is in the archive already.
    Reuse(BlockLocation),
    /// It is written.
    Write,
}

/// The hash at `k` is the first one that is not known.
pub open spec fn first_missing(
    known: Map<Seq<u8>, LocationView>,
    hashes: Seq<ChunkHash>,
    k: int,
) -> bool {
    &&& 0 <= k < hashes.len()
    &&& !known.contains_key(hashes[k]@)
    &&& forall|j: int| 0 <= j < k ==> known.contains_key((#[trigger] hashes[j])@)
}

/// `h` is among `hashes`, and not known.
pub open spec fn is_missing(
    known: Map<Seq<u8>, LocationView>,
    hashes: Seq<ChunkHash>,
    h: Seq<u8>,
) -> bool {
    !known.contains_key(h) && exists|k: int| 0 <= k < hashes.len() && (#[trigger] hashes[k])@ == h
}

/// `m` with a place for the hashes that are not known.
pub open spec fn with_missing(
    m: Map<Seq<u8>, LocationView>,
    known: Map<Seq<u8>, LocationView>,
    hashes: Seq<ChunkHash>,
    location: LocationView,
) -> Map<Seq<u8>, LocationView> {
    Map::new(
        |h: Seq<u8>| m.contains_key(h) || is_missing(known, hashes, h),
        |h: Seq<u8>|
            if is_missing(known, hashes, h) {
                location
            } else {
                m[h]
            },
    )
}

/// What is noted: the hashes that are not known, each one once, in order.
pub open spec fn missing_records(
    known: Map<Seq<u8>, LocationView>,
    hashes: Seq<ChunkHash>,
    location: LocationView,
) -> Seq<(ChunkHash, LocationView)>
    decreases hashes.len(),
{
    if hashes.len() == 0 {
        Seq::empty()
    } else {
        let less = missing_records(known, hashes.drop_last(), location);
        if known.contains_key(hashes.last()@) || is_missing(
            known,
            hashes.drop_last(),
            hashes.last()@,
        ) {
            less
        } else {
            less.push((hashes.last(), location))
        }
    }
}

/// A chunk that is in the archive is known from then on, and stays where it
/// lies, whatever is noted besides: it is never stored again.
pub proof fn law_known_chunks_stay_known(
    known: Map<Seq<u8>, LocationView>,
    hashes: Seq<ChunkHash>,
    location: LocationView,
    h: Seq<u8>,
)
    requires
        known.contains_key(h),
    ensures
        with_missing(known, known, hashes, location).contains_key(h),
        with_missing(known, known, hashes, location)[h] == known[h],
{
}

/// Once small files are noted under a chunk, every one of them is known.
pub proof fn law_noted_files_are_known(
    known: Map<Seq<u8>, LocationView>,
    hashes: Seq<ChunkHash>,
    location: LocationView,
    k: int,
)
    requires
        0 <= k < hashes.len(),
    ensures
        with_missing(known, known, hashes, location).contains_key(hashes[k]@),
        !known.contains_key(hashes[k]@) ==> with_missing(known, known, hashes, location)[hashes[k]@]
            == location,
{
    assert(known.contains_key(hashes[k]@) || is_missing(known, hashes, hashes[k]@));
}

/// One more hash is missing or it is not.
proof fn lemma_one_more(
    m: Map<Seq<u8>, LocationView>,
    known: Map<Seq<u8>, LocationView>,
    hashes: Seq<ChunkHash>,
    location: LocationView,
    i: int,
)
    requires
        0 <= i < hashes.len(),
    ensures
        hashes.take(i + 1).drop_last() == hashes.take(i),
        hashes.take(i + 1).last() == hashes[i],
        known.contains_key(hashes[i]@) || is_missing(known, hashes.take(i), hashes[i]@)
            ==> with_missing(m, known, hashes.take(i + 1), location) == with_missing(
            m,
            known,
            hashes.take(i),
            location,
        ),
        !known.contains_key(hashes[i]@) ==> with_missing(m, known, hashes.take(i + 1), location)
            == with_missing(m, known, hashes.take(i), location).insert(hashes[i]@, location),
{
    let less = hashes.take(i);
    let more = hashes.take(i + 1);
    assert(more.drop_last() =~= less);
    assert forall|h: Seq<u8>| #[trigger]
        is_missing(known, more, h) <==> is_missing(known, less, h) || (!known.contains_key(h) && h
            == hashes[i]@) by {
        if is_missing(known, less, h) {
            let k = choose|k: int| 0 <= k < less.len() && (#[trigger] less[k])@ == h;
            assert(more[k]@ == h);
        }
        if is_missing(known, more, h) && h != hashes[i]@ {
            let k = choose|k: int| 0 <= k < more.len() && (#[trigger] more[k])@ == h;
            assert(less[k]@ == h);
        }
        if h == hashes[i]@ {
            assert(more[i]@ == h);
        }
    }
    assert(!known.contains_key(hashes[i]@) ==> with_missing(m, known, more, location)
        =~= with_missing(m, known, less, location).insert(hashes[i]@, location));
    if known.contains_key(hashes[i]@) || is_missing(known, less, hashes[i]@) {
        assert(with_missing(m, known, more, location) =~= with_missing(m, known, less, location));
    }
}

/// The index as it is kept in an archive.
#[derive(Debug)]
pub struct EmbeddedIndexSnapshot {
    pub version: u32,
    pub entries: Vec<(ChunkHash, BlockLocation)>,
}

impl EmbeddedIndexSnapshot {
    /// All chunks that are known, by rising hash.
    pub fn from_map(map: &LocationMap) -> (s: Self)
        requires
            map.wf(),
        ensures
            s.version == EMBEDDED_INDEX_VERSION,
            s.entries@.len() == map.entries@.len(),
            forall|i: int|
                0 <= i < s.entries@.len() ==> (#[trigger] s.entries@[i]).0 == map.entries@[i].hash
                    && s.entries@[i].1@ == map.entries@[i].value@,
            forall|i: int, j: int|
                0 <= i < j < s.entries@.len() ==> ordering::lex_less(
                    (#[trigger] s.entries@[i]).0@,
                    (#[trigger] s.entries@[j]).0@,
                ),
    {
        let mut entries: Vec<(ChunkHash, BlockLocation)> = Vec::new();
        let mut i: usize = 0;
        while i < map.entries.len()
            invariant
                i <= map.entries@.len(),
                entries@.len() == i,
                forall|k: int|
                    0 <= k < i ==> (#[trigger] entries@[k]).0 == map.entries@[k].hash
                        && entries@[k].1@ == map.entries@[k].value@,
            decreases map.entries@.len() - i,
        {
            entries.push((map.entries[i].hash, map.entries[i].value.duplicate()));
            i = i + 1;
        }
        proof {
            assert(hash_table::hashes_rise(map.entries@));
            assert forall|a: int, b: int| 0 <= a < b < entries@.len() implies ordering::lex_less(
                (#[trigger] entries@[a]).0@,
                (#[trigger] entries@[b]).0@,
            ) by {
                assert(ordering::lex_less(map.entries@[a].hash@, map.entries@[b].hash@));
            }
        }
        EmbeddedIndexSnapshot { version: EMBEDDED_INDEX_VERSION, entries }
    }
}

/// A step of finishing an archive.
#[derive(Debug, Clone, Copy, PartialEq, Eq, Structural)]
pub enum FinalizeStep {
    /// Small files that wait become a chunk.
    FlushSmallFiles,
    /// Chunks that wait become blocks.
    FlushBins,
    /// Blocks that wait become a stripe.
    FlushStripe,
    /// The index and the checkpoint are added as files of the archive's own.
    AddMetadata,
    SyncCheckpoint,
    WriteIndexManifest,
    WriteCatalog,
    CloseVolumes,
    RemoveCheckpoint,
    RemoveIndexDirectory,
}

/// The steps of finishing an archive, in order. What waits is written before
/// the metadata that describes it; the catalog comes after everything that it
/// refers to; the checkpoint goes only once the volumes are closed.
pub open spec fn finalize_order(checkpoint: bool, embedded_lsm: bool) -> Seq<FinalizeStep> {
    seq![
        FinalizeStep::FlushSmallFiles,
        FinalizeStep::FlushBins,
        FinalizeStep::FlushStripe,
        FinalizeStep::AddMetadata,
        FinalizeStep::FlushBins,
        FinalizeStep::FlushStripe,
    ] + (if checkpoint {
        seq![FinalizeStep::SyncCheckpoint]
    } else {
        Seq::empty()
    }) + (if embedded_lsm {
        seq![FinalizeStep::WriteIndexManifest]
    } else {
        Seq::empty()
    }) + seq![FinalizeStep::WriteCatalog, FinalizeStep::CloseVolumes] + (if checkpoint {
        seq![FinalizeStep::RemoveCheckpoint]
    } else {
        Seq::empty()
    }) + (if embedded_lsm {
        seq![FinalizeStep::RemoveIndexDirectory]
    } else {
        Seq::empty()
    })
}

/// The steps of finishing an archive, in order.
pub fn finalize_steps(checkpoint: bool, embedded_lsm: bool) -> (steps: Vec<FinalizeStep>)
    ensures
        steps@ == finalize_order(checkpoint, embedded_lsm),
{
    let mut steps: Vec<FinalizeStep> = Vec::new();
    steps.push(FinalizeStep::FlushSmallFiles);
    steps.push(FinalizeStep::FlushBins);
    steps.push(FinalizeStep::FlushStripe);
    steps.push(FinalizeStep::AddMetadata);
    steps.push(FinalizeStep::FlushBins);
    steps.push(FinalizeStep::FlushStripe);
    if checkpoint {
        steps.push(FinalizeStep::SyncCheckpoint);
    }
    if embedded_lsm {
        steps.push(FinalizeStep::WriteIndexManifest);
    }
    steps.push(FinalizeStep::WriteCatalog);
    steps.push(FinalizeStep::CloseVolumes);
    if checkpoint {
        steps.push(FinalizeStep::RemoveCheckpoint);
    }
    if embedded_lsm {
        steps.push(FinalizeStep::RemoveIndexDirectory);
    }
    assert(steps@ =~= finalize_order(checkpoint, embedded_lsm));
    steps
}

/// The numbers of the blocks that hold an archive's metadata.
#[derive(Debug, Clone, Copy, PartialEq, Eq, Structural)]
pub struct MetadataIds {
    pub manifest: Option<u64>,
    pub catalog: u64,
    /// A second copy of the catalog, in an erasure-coded archive.
    pub backup: Option<u64>,
    /// The blocks that were written in all.
    pub blocks_written: u64,
}

/// Hands out the numbers of the metadata blocks, from the next free one on: the
/// index first, then the catalog, then its second copy.
pub fn metadata_ids(next: u64, embedded_lsm: bool, erasure_coded: bool) -> (ids: MetadataIds)
    requires
        next <= u64::MAX - 3,
    ensures
        ids.manifest == (if embedded_lsm {
            Some(next)
        } else {
            None
        }),
        ids.catalog == next + (if embedded_lsm {
            1int
        } else {
            0
        }),
        ids.backup == (if erasure_coded {
            Some((ids.catalog + 1) as u64)
        } else {
            None
        }),
        ids.blocks_written == ids.catalog + (if erasure_coded {
            2int
        } else {
            1
        }),
{
    let catalog: u64 = if embedded_lsm {
        next + 1
    } else {
        next
    };
    MetadataIds {
        manifest: if embedded_lsm {
            Some(next)
        } else {
            None
        },
        catalog,
        backup: if erasure_coded {
            Some(catalog + 1)
        } else {
            None
        },
        blocks_written: if erasure_coded {
            catalog + 2
        } else {
            catalog + 1
        },
    }
}

/// The entry of a small file is that of no other: path and size are the file's,
/// and it names one chunk, the shared one, and one member of it.
pub proof fn law_packed_entry_names_its_file(
    e: FileEntry,
    file: SmallFileEntry,
    chunk: UniqueChunk,
    member: usize,
    count: nat,
)
    requires
        is_packed_entry(e, file, chunk, member, count),
    ensures
        e.path@ == file.path@,
        e.size == file.data@.len(),
        e.file_type == FileType::File,
        e.chunks@.len() == 1,
        e.chunks@[0].hash == chunk.hash,
        e.chunks@[0].length == chunk.data@.len(),
        e.chunks@[0].packed matches Some(p) && p.file_index == member,
{
}

/// In a pack every hash has one place: files with the same hash share it, files
/// with other hashes have others, and every place is that of some file.
pub proof fn law_one_place_for_each_hash(
    entries: Seq<SmallFileEntry>,
    unique: Seq<usize>,
    member: Seq<usize>,
    i: int,
    j: int,
)
    requires
        is_pack_plan(entries, unique, member),
        0 <= i < entries.len(),
        0 <= j < entries.len(),
    ensures
        member[i] == member[j] <==> entries[i].hash@ == entries[j].hash@,
        unique.len() <= entries.len() || unique.len() == 0,
{
    assert(member[i] < unique.len() && member[j] < unique.len());
    assert(hash_at(entries, unique[member[i] as int] as int) == entries[i].hash@);
    assert(hash_at(entries, unique[member[j] as int] as int) == entries[j].hash@);
    if member[i] < member[j] {
        ordering::lemma_lex_irreflexive(hash_at(entries, unique[member[i] as int] as int));
    } else if member[j] < member[i] {
        ordering::lemma_lex_irreflexive(hash_at(entries, unique[member[j] as int] as int));
    }
    lemma_distinct_bounded(entries, unique);
}

proof fn lemma_distinct_bounded(entries: Seq<SmallFileEntry>, unique: Seq<usize>)
    requires
        forall|k: int| 0 <= k < unique.len() ==> #[trigger] unique[k] < entries.len(),
        forall|k: int, l: int|
            0 <= k < l < unique.len() ==> ordering::lex_less(
                hash_at(entries, #[trigger] unique[k] as int),
                hash_at(entries, #[trigger] unique[l] as int),
            ),
    ensures
        unique.len() <= entries.len(),
{
    assert forall|k: int, l: int| 0 <= k < l < unique.len() implies unique[k] != unique[l] by {
        ordering::lemma_lex_irreflexive(hash_at(entries, unique[k] as int));
    }
    assert(unique.no_duplicates());
    let all = vstd::set_lib::set_int_range(0, entries.len() as int);
    let used = unique.map_values(|u: usize| u as int);
    assert(used.no_duplicates()) by {
        assert forall|k: int, l: int| 0 <= k < used.len() && 0 <= l < used.len() && k != l implies
            used[k] != used[l] by {
            assert(unique[k] != unique[l]);
        }
    }
    used.unique_seq_to_set();
    vstd::set_lib::lemma_int_range(0, entries.len() as int);
    assert(used.to_set().subset_of(all)) by {
        assert forall|x: int| used.to_set().contains(x) implies all.contains(x) by {
            let k = choose|k: int| 0 <= k < used.len() && used[k] == x;
            assert(unique[k] < entries.len());
        }
    }
    vstd::set_lib::lemma_len_subset(used.to_set(), all);
}

/// What is noted of small files that share a chunk is a record for each that was
/// not known, under the chunk's place, and no hash is noted twice.
pub proof fn law_notes_of_shared_chunks(
    m: Map<Seq<u8>, LocationView>,
    known: Map<Seq<u8>, LocationView>,
    hashes: Seq<ChunkHash>,
    location: LocationView,
)
    ensures
        write_pipeline::after_records(m, missing_records(known, hashes, location)) == with_missing(
            m,
            known,
            hashes,
            location,
        ),
        missing_records(known, hashes, location).len() <= hashes.len(),
        forall|k: int|
            0 <= k < missing_records(known, hashes, location).len() ==> !known.contains_key(
                (#[trigger] missing_records(known, hashes, location)[k]).0@,
            ) && missing_records(known, hashes, location)[k].1 == location,
    decreases hashes.len(),
{
    let records = missing_records(known, hashes, location);
    if hashes.len() == 0 {
        assert(with_missing(m, known, hashes, location) =~= m);
    } else {
        let i = hashes.len() - 1;
        law_notes_of_shared_chunks(m, known, hashes.drop_last(), location);
        lemma_one_more(m, known, hashes, location, i);
        assert(hashes.take(i) =~= hashes.drop_last());
        assert(hashes.take(i + 1) =~= hashes);
        let less = missing_records(known, hashes.drop_last(), location);
        if !(known.contains_key(hashes.last()@) || is_missing(
            known,
            hashes.drop_last(),
            hashes.last()@,
        )) {
            assert(records.drop_last() =~= less);
        }
    }
}

/// `a` is among the steps, and every `b` comes after it.
pub open spec fn precedes(steps: Seq<FinalizeStep>, a: FinalizeStep, b: FinalizeStep) -> bool {
    exists|i: int|
        0 <= i < steps.len() && #[trigger] steps[i] == a && forall|j: int|
            0 <= j < steps.len() && #[trigger] steps[j] == b ==> i < j
}

/// `a` is among the steps, and no `b` comes after the last of them.
pub open spec fn settles(steps: Seq<FinalizeStep>, a: FinalizeStep, b: FinalizeStep) -> bool {
    exists|i: int|
        0 <= i < steps.len() && #[trigger] steps[i] == a && forall|j: int|
            0 <= j < steps.len() && #[trigger] steps[j] == b ==> j < i
}

/// An archive is finished in an order that loses nothing: what waits is written
/// before the metadata is made, everything that waits then before the catalog is
/// written, and the catalog before the volumes are closed. The index goes to the
/// volumes before they are closed, exactly where it is kept there. The checkpoint
/// and the directory of the index go last, exactly where there are any.
pub proof fn law_finishing_loses_nothing(checkpoint: bool, embedded_lsm: bool)
    ensures
        ({
            let s = finalize_order(checkpoint, embedded_lsm);
            &&& precedes(s, FinalizeStep::FlushSmallFiles, FinalizeStep::FlushBins)
            &&& precedes(s, FinalizeStep::FlushSmallFiles, FinalizeStep::AddMetadata)
            &&& precedes(s, FinalizeStep::FlushBins, FinalizeStep::AddMetadata)
            &&& precedes(s, FinalizeStep::FlushStripe, FinalizeStep::AddMetadata)
            &&& settles(s, FinalizeStep::FlushBins, FinalizeStep::AddMetadata)
            &&& settles(s, FinalizeStep::FlushStripe, FinalizeStep::FlushBins)
            &&& settles(s, FinalizeStep::WriteCatalog, FinalizeStep::FlushStripe)
            &&& settles(s, FinalizeStep::WriteCatalog, FinalizeStep::FlushBins)
            &&& settles(s, FinalizeStep::CloseVolumes, FinalizeStep::WriteCatalog)
            &&& checkpoint ==> settles(s, FinalizeStep::RemoveCheckpoint, FinalizeStep::CloseVolumes)
                && precedes(s, FinalizeStep::SyncCheckpoint, FinalizeStep::WriteCatalog) && settles(
                s,
                FinalizeStep::SyncCheckpoint,
                FinalizeStep::FlushStripe,
            )
            &&& !checkpoint ==> !s.contains(FinalizeStep::RemoveCheckpoint) && !s.contains(
                FinalizeStep::SyncCheckpoint,
            )
            &&& embedded_lsm ==> precedes(
                s,
                FinalizeStep::WriteIndexManifest,
                FinalizeStep::CloseVolumes,
            ) && settles(s, FinalizeStep::WriteIndexManifest, FinalizeStep::FlushStripe)
                && settles(s, FinalizeStep::RemoveIndexDirectory, FinalizeStep::CloseVolumes)
            &&& !embedded_lsm ==> !s.contains(FinalizeStep::WriteIndexManifest) && !s.contains(
                FinalizeStep::RemoveIndexDirectory,
            )
        }),
{
    let s = finalize_order(checkpoint, embedded_lsm);
    let c = if checkpoint {
        1int
    } else {
        0
    };
    let l = if embedded_lsm {
        1int
    } else {
        0
    };
    assert(s[0] == FinalizeStep::FlushSmallFiles);
    assert(s[1] == FinalizeStep::FlushBins);
    assert(s[2] == FinalizeStep::FlushStripe);
    assert(s[3] == FinalizeStep::AddMetadata);
    assert(s[4] == FinalizeStep::FlushBins);
    assert(s[5] == FinalizeStep::FlushStripe);
    if checkpoint {
        assert(s[6] == FinalizeStep::SyncCheckpoint);
        assert(s[8 + c + l] == FinalizeStep::RemoveCheckpoint);
    }
    if embedded_lsm {
        assert(s[6 + c] == FinalizeStep::WriteIndexManifest);
        assert(s[8 + 2 * c + l] == FinalizeStep::RemoveIndexDirectory);
    }
    assert(s[6 + c + l] == FinalizeStep::WriteCatalog);
    assert(s[7 + c + l] == FinalizeStep::CloseVolumes);
    assert(s.len() == 8 + 2 * c + 2 * l);
}

/// Once the missing ones of a list were noted, every hash of the list is known or noted at the
/// place; all that was noted before stays, unless it was missing.
pub proof fn law_every_missing_hash_is_noted(
    m: Map<Seq<u8>, LocationView>,
    known: Map<Seq<u8>, LocationView>,
    hashes: Seq<ChunkHash>,
    location: LocationView,
    k: int,
    other: Seq<u8>,
)
    requires
        0 <= k < hashes.len(),
    ensures
        ({
            let after = with_missing(m, known, hashes, location);
            &&& !known.contains_key(hashes[k]@) ==> after.contains_key(hashes[k]@)
                && after[hashes[k]@] == location
            &&& known.contains_key(other) || (forall|j: int|
                0 <= j < hashes.len() ==> (#[trigger] hashes[j])@ != other) ==> (
            after.contains_key(other) <==> m.contains_key(other)) && (m.contains_key(other)
                ==> after[other] == m[other])
        }),
{
    if !known.contains_key(hashes[k]@) {
        assert(is_missing(known, hashes, hashes[k]@));
    }
}

/// The metadata blocks have numbers of their own, none before the next free one, and the count
/// of blocks ends right behind the last of them.
pub proof fn law_metadata_numbers_are_apart(next: u64, embedded: bool, coded: bool, ids: MetadataIds)
    requires
        next <= u64::MAX - 3,
        call_ensures(metadata_ids, (next, embedded, coded), ids),
    ensures
        ids.manifest is Some <==> embedded,
        ids.backup is Some <==> coded,
        ids.catalog >= next,
        ids.manifest matches Some(m) ==> next <= m < ids.catalog,
        ids.backup matches Some(b) ==> ids.catalog < b < ids.blocks_written,
        ids.catalog < ids.blocks_written,
        ids.blocks_written - next == 1 + (if embedded {
            1int
        } else {
            0
        }) + (if coded {
            1int
        } else {
            0
        }),
{
}

/// Only small files that are not empty wait to share a chunk; any other is cut where files are
/// cut and written whole where they are not.
pub proof fn law_route_of_a_file(
    size: u64,
    packing: bool,
    threshold: u64,
    cdc: bool,
    r: FileRoute,
)
    requires
        call_ensures(route_file, (size, packing, threshold, cdc), r),
    ensures
        size == 0 || size >= threshold || !packing ==> r != FileRoute::Wait,
        packing && size > 0 && size < threshold ==> r == FileRoute::Wait,
        r != FileRoute::Wait ==> (r == FileRoute::Chunked <==> cdc),
{
}

/// A directory stops the writer exactly where what it holds was not asked for.
pub proof fn law_directories_are_added_whole(
    is_dir: bool,
    recursive: bool,
    path: &str,
    r: Result<(), EraError>,
)
    requires
        call_ensures(check_recursive, (is_dir, recursive, path), r),
    ensures
        r is Err <==> is_dir && !recursive,
{
}

/// Where only chunks were noted, the checkpoint stays that of its archive, with the same files at
/// the same position.
pub proof fn law_only_chunks_are_noted<I: ChunkIndex>(a: WriterCore<I>, b: WriterCore<I>)
    requires
        a.checkpoint_differs_in_chunks(b),
    ensures
        a.checkpoint is Some <==> b.checkpoint is Some,
        a.checkpoint matches Some(c) ==> (b.checkpoint matches Some(d) && c.archive_path
            == d.archive_path && c.checkpoint.completed_files == d.checkpoint.completed_files
            && c.checkpoint.current_offset == d.checkpoint.current_offset
            && c.checkpoint.current_volume == d.checkpoint.current_volume
            && c.checkpoint.total_bytes_written == d.checkpoint.total_bytes_written),
{
}

} // verus!

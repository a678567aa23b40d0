//! Which chunks an archive holds already, for deduplication.
use vstd::prelude::*;

use crate::locations::{BlockLocation, LocationMap, LocationView, VolumeId};
use crate::types::{ChunkHash, EraError};

verus! {

/// Which index a writer keeps.
#[derive(Debug)]
pub enum ChunkIndexBackend {
    /// In memory only.
    Memory,
    /// Spilled to an outside directory.
    Lsm { path: String },
    /// Spilled to a working directory and stored in the archive.
    EmbeddedLsm { path: String },
}

/// An entry of the index that is stored in a volume.
#[derive(Debug, Clone, Copy)]
pub struct IndexEntry {
    pub hash: ChunkHash,
    pub volume_id: VolumeId,
    pub block_id: u64,
    /// Offset within the block, which is not tracked here.
    pub offset: u32,
    pub length: u32,
}

/// The entry for a chunk that lies at `location`.
pub open spec fn index_entry(hash: ChunkHash, location: LocationView) -> IndexEntry {
    IndexEntry {
        hash,
        volume_id: location.volume_id,
        block_id: location.slot_index as u64,
        offset: 0,
        length: location.encrypted_size,
    }
}

/// Collects the entries of the index that is stored in the volumes, in the
/// order in which they come.
#[derive(Debug)]
pub struct IndexBuilder {
    pub entries: Vec<IndexEntry>,
}

/// A deduplication index.
pub trait ChunkIndex {
    spec fn valid(&self) -> bool;

    /// The chunks it knows.
    spec fn locations(&self) -> Map<Seq<u8>, LocationView>;

    /// The entries collected for the volumes; none where none are collected.
    spec fn collected(&self) -> Option<Seq<IndexEntry>>;

    /// Whether a location can be noted without an error.
    spec fn accepts(&self) -> bool;

    fn contains(&self, hash: &ChunkHash) -> (r: Result<bool, EraError>)
        requires
            self.valid(),
        ensures
            r == Ok::<bool, EraError>(self.locations().contains_key(hash@)),
    ;

    fn get(&self, hash: &ChunkHash) -> (r: Result<Option<BlockLocation>, EraError>)
        requires
            self.valid(),
        ensures
            r matches Ok(l) && (l is Some <==> self.locations().contains_key(hash@)) && (l matches Some(
                b,
            ) ==> b@ == self.locations()[hash@]),
    ;

    /// Notes where a chunk lies. The location is noted even where an error is
    /// returned.
    fn put(&mut self, hash: ChunkHash, location: BlockLocation) -> (r: Result<(), EraError>)
        requires
            old(self).valid(),
        ensures
            final(self).valid(),
            final(self).locations() == old(self).locations().insert(hash@, location@),
            r is Ok <==> old(self).accepts(),
            r matches Err(e) ==> e is InvalidConfig,
            final(self).accepts() == old(self).accepts(),
            final(self).collected() == (match old(self).collected() {
                Some(c) => Some(c.push(index_entry(hash, location@))),
                None => None,
            }),
    ;

    /// Forgets a chunk. What was collected for the volumes stays.
    fn delete(&mut self, hash: &ChunkHash) -> (r: Result<(), EraError>)
        requires
            old(self).valid(),
        ensures
            r is Ok,
            final(self).valid(),
            final(self).locations() == old(self).locations().remove(hash@),
            final(self).accepts() == old(self).accepts(),
            final(self).collected() == old(self).collected(),
    ;

    fn len(&self) -> (n: usize)
        requires
            self.valid(),
        ensures
            n == self.locations().dom().len(),
    ;

    /// Takes what was collected for the volumes, once.
    fn take_builder(&mut self) -> (b: Option<IndexBuilder>)
        requires
            old(self).valid(),
        ensures
            final(self).valid(),
            final(self).locations() == old(self).locations(),
            final(self).collected() is None,
            b is Some <==> old(self).collected() is Some,
            b matches Some(x) ==> Some(x.entries@) == old(self).collected(),
    ;
}

/// An index in memory.
#[derive(Debug)]
pub struct MemoryChunkIndex {
    pub map: LocationMap,
}

impl MemoryChunkIndex {
    pub fn new() -> (m: Self)
        ensures
            m.valid(),
            m.locations() == Map::<Seq<u8>, LocationView>::empty(),
    {
        MemoryChunkIndex { map: LocationMap::new() }
    }
}

impl ChunkIndex for MemoryChunkIndex {
    open spec fn valid(&self) -> bool {
        self.map.wf()
    }

    open spec fn locations(&self) -> Map<Seq<u8>, LocationView> {
        self.map@
    }

    open spec fn collected(&self) -> Option<Seq<IndexEntry>> {
        None
    }

    open spec fn accepts(&self) -> bool {
        true
    }

    fn contains(&self, hash: &ChunkHash) -> Result<bool, EraError> {
        Ok(self.map.contains(hash))
    }

    fn get(&self, hash: &ChunkHash) -> Result<Option<BlockLocation>, EraError> {
        match self.map.get(hash) {
            Some(l) => Ok(Some(l.duplicate())),
            None => Ok(None),
        }
    }

    fn put(&mut self, hash: ChunkHash, location: BlockLocation) -> Result<(), EraError> {
        self.map.insert(hash, location);
        Ok(())
    }

    fn delete(&mut self, hash: &ChunkHash) -> Result<(), EraError> {
        self.map.remove(hash);
        Ok(())
    }

    fn len(&self) -> usize {
        self.map.len()
    }

    fn take_builder(&mut self) -> Option<IndexBuilder> {
        None
    }
}

/// An index in memory that also collects the entries for the volumes. Once
/// these were taken, noting a further location is an error.
#[derive(Debug)]
pub struct LsmChunkIndex {
    pub builder: Option<IndexBuilder>,
    pub lookup: LocationMap,
}

impl LsmChunkIndex {
    pub fn new() -> (m: Self)
        ensures
            m.valid(),
            m.accepts(),
            m.locations() == Map::<Seq<u8>, LocationView>::empty(),
            m.collected() == Some(Seq::<IndexEntry>::empty()),
    {
        let m = LsmChunkIndex {
            builder: Some(IndexBuilder { entries: Vec::new() }),
            lookup: LocationMap::new(),
        };
        assert((m.builder->0).entries@ =~= Seq::<IndexEntry>::empty());
        m
    }
}

impl ChunkIndex for LsmChunkIndex {
    open spec fn valid(&self) -> bool {
        self.lookup.wf()
    }

    open spec fn locations(&self) -> Map<Seq<u8>, LocationView> {
        self.lookup@
    }

    open spec fn collected(&self) -> Option<Seq<IndexEntry>> {
        match self.builder {
            Some(b) => Some(b.entries@),
            None => None,
        }
    }

    open spec fn accepts(&self) -> bool {
        self.builder is Some
    }

    fn contains(&self, hash: &ChunkHash) -> Result<bool, EraError> {
        Ok(self.lookup.contains(hash))
    }

    fn get(&self, hash: &ChunkHash) -> Result<Option<BlockLocation>, EraError> {
        match self.lookup.get(hash) {
            Some(l) => Ok(Some(l.duplicate())),
            None => Ok(None),
        }
    }

    fn put(&mut self, hash: ChunkHash, location: BlockLocation) -> (r: Result<(), EraError>)
        ensures
            r matches Err(EraError::InvalidConfig(m)) ==> m@
                == "Cannot insert after builder taken — finalization already started"@,
    {
        let entry = IndexEntry {
            hash,
            volume_id: location.volume_id,
            block_id: location.slot_index as u64,
            offset: 0,
            length: location.encrypted_size,
        };
        self.lookup.insert(hash, location);
        let taken = self.builder.take();
        match taken {
            Some(b) => {
                let mut builder = b;
                builder.entries.push(entry);
                self.builder = Some(builder);
                Ok(())
            },
            None => Err(
                EraError::InvalidConfig(
                    String::from_str(
                        "Cannot insert after builder taken — finalization already started",
                    ),
                ),
            ),
        }
    }

    fn delete(&mut self, hash: &ChunkHash) -> Result<(), EraError> {
        self.lookup.remove(hash);
        Ok(())
    }

    fn len(&self) -> usize {
        self.lookup.len()
    }

    fn take_builder(&mut self) -> Option<IndexBuilder> {
        self.builder.take()
    }
}

/// The index that a writer keeps by default.
pub fn create_chunk_index() -> (i: LsmChunkIndex)
    ensures
        i.valid(),
        i.accepts(),
        i.locations() == Map::<Seq<u8>, LocationView>::empty(),
        i.collected() == Some(Seq::<IndexEntry>::empty()),
{
    LsmChunkIndex::new()
}

/// The entry for a chunk leads to the block that holds it: volume, number and
/// length are those of its place, and the hash is the chunk's.
pub proof fn law_index_entry_leads_to_the_block(
    hash: ChunkHash,
    l: LocationView,
    other: ChunkHash,
    m: LocationView,
)
    ensures
        index_entry(hash, l).hash == hash,
        index_entry(hash, l).volume_id == l.volume_id,
        index_entry(hash, l).block_id == l.slot_index,
        index_entry(hash, l).length == l.encrypted_size,
        index_entry(hash, l) == index_entry(other, m) ==> hash == other && l.volume_id
            == m.volume_id && l.slot_index == m.slot_index && l.encrypted_size == m.encrypted_size,
{
}

/// An index in memory takes every chunk and collects nothing for the volumes; one that is kept in
/// the archive takes chunks as long as it collects them.
pub proof fn law_which_index_takes_chunks(m: MemoryChunkIndex, l: LsmChunkIndex)
    ensures
        m.accepts(),
        m.collected() is None,
        l.accepts() <==> l.collected() is Some,
{
}

} // verus!

//! The last stage of the write pipeline: noting where chunks lie.
use vstd::prelude::*;

use crate::checkpoint::CheckpointManager;
use crate::chunk_index;
use crate::chunk_index::{ChunkIndex, IndexBuilder};
use crate::locations::BlockLocation;
use crate::types::{ChunkHash, EraError};

verus! {

/// A deduplication index and, where crash recovery is on, the checkpoint.
#[derive(Debug)]
pub struct IndexStage<I: ChunkIndex> {
    pub chunk_index: I,
    pub checkpoint_manager: Option<CheckpointManager>,
}

impl<I: ChunkIndex> IndexStage<I> {
    pub fn new(chunk_index: I, checkpoint_manager: Option<CheckpointManager>) -> (s: Self)
        ensures
            s.chunk_index == chunk_index,
            s.checkpoint_manager == checkpoint_manager,
    {
        IndexStage { chunk_index, checkpoint_manager }
    }

    pub fn without_checkpoint(chunk_index: I) -> (s: Self)
        ensures
            s.chunk_index == chunk_index,
            s.checkpoint_manager is None,
    {
        IndexStage { chunk_index, checkpoint_manager: None }
    }

    /// Whether a chunk is known already.
    pub fn contains(&self, hash: &ChunkHash) -> (r: Result<bool, EraError>)
        requires
            self.chunk_index.valid(),
        ensures
            r == Ok::<bool, EraError>(self.chunk_index.locations().contains_key(hash@)),
    {
        self.chunk_index.contains(hash)
    }

    /// Where a chunk lies, if it is known.
    pub fn get(&self, hash: &ChunkHash) -> (r: Result<Option<BlockLocation>, EraError>)
        requires
            self.chunk_index.valid(),
        ensures
            r matches Ok(l) && (l is Some <==> self.chunk_index.locations().contains_key(hash@)) && (
            l matches Some(b) ==> b@ == self.chunk_index.locations()[hash@]),
    {
        self.chunk_index.get(hash)
    }

    /// Notes where a chunk lies.
    pub fn record_location(&mut self, hash: ChunkHash, location: BlockLocation) -> (r: Result<
        (),
        EraError,
    >)
        requires
            old(self).chunk_index.valid(),
        ensures
            final(self).chunk_index.valid(),
            final(self).chunk_index.locations() == old(self).chunk_index.locations().insert(
                hash@,
                location@,
            ),
            final(self).chunk_index.collected() == (match old(self).chunk_index.collected() {
                Some(c) => Some(c.push(chunk_index::index_entry(hash, location@))),
                None => None,
            }),
            final(self).checkpoint_manager == old(self).checkpoint_manager,
            final(self).chunk_index.accepts() == old(self).chunk_index.accepts(),
            r is Ok <==> old(self).chunk_index.accepts(),
            r matches Err(e) ==> e is InvalidConfig,
    {
        self.chunk_index.put(hash, location)
    }

    /// Takes what was collected for the volumes, once.
    pub fn take_index_builder(&mut self) -> (b: Option<IndexBuilder>)
        requires
            old(self).chunk_index.valid(),
        ensures
            final(self).chunk_index.valid(),
            final(self).chunk_index.locations() == old(self).chunk_index.locations(),
            final(self).chunk_index.collected() is None,
            b is Some <==> old(self).chunk_index.collected() is Some,
            b matches Some(x) ==> Some(x.entries@) == old(self).chunk_index.collected(),
            final(self).checkpoint_manager == old(self).checkpoint_manager,
    {
        self.chunk_index.take_builder()
    }

    /// Brings the checkpoint up to date, where there is one; see
    /// [`CheckpointManager::sync`].
    pub fn sync_checkpoint(&mut self) -> (r: Result<(), EraError>)
        ensures
            r is Ok,
            *final(self) == *old(self),
    {
        if let Some(m) = &mut self.checkpoint_manager {
            m.sync()
        } else {
            Ok(())
        }
    }

    pub fn checkpoint_manager(&self) -> (m: Option<&CheckpointManager>)
        ensures
            m is Some <==> self.checkpoint_manager is Some,
            m matches Some(c) ==> *c == self.checkpoint_manager->0,
    {
        match &self.checkpoint_manager {
            Some(m) => Some(m),
            None => None,
        }
    }

    pub fn chunk_index(&self) -> (i: &I)
        ensures
            *i == self.chunk_index,
    {
        &self.chunk_index
    }
}

} // verus!

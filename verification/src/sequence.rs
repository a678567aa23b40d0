//! Which finalization a manifest belongs to.
use vstd::prelude::*;

verus! {

/// What can be ordered by the finalization it belongs to. A higher number is
/// newer.
pub trait SequenceSelector {
    spec fn sequence(&self) -> u64;

    fn selection_sequence(&self) -> (n: u64)
        ensures
            n == self.sequence(),
    ;
}

/// The manifest of an archive.
#[derive(Debug)]
pub struct ArchiveManifest {
    pub version: u32,
    pub finalize_sequence: u64,
    pub total_blocks: u64,
    pub catalog_hash: [u8; 32],
    pub index_hash: [u8; 32],
}

impl ArchiveManifest {
    pub fn new(
        version: u32,
        finalize_sequence: u64,
        total_blocks: u64,
        catalog_hash: [u8; 32],
        index_hash: [u8; 32],
    ) -> (m: Self)
        ensures
            m == (ArchiveManifest {
                version,
                finalize_sequence,
                total_blocks,
                catalog_hash,
                index_hash,
            }),
    {
        ArchiveManifest { version, finalize_sequence, total_blocks, catalog_hash, index_hash }
    }
}

impl SequenceSelector for ArchiveManifest {
    open spec fn sequence(&self) -> u64 {
        self.finalize_sequence
    }

    fn selection_sequence(&self) -> u64 {
        self.finalize_sequence
    }
}

/// The number of a new archive.
pub const INITIAL_FINALIZE_SEQUENCE: u64 = 1;

/// The number of the next finalization.
pub fn next_finalize_sequence(current: u64) -> (next: u64)
    requires
        current < u64::MAX,
    ensures
        next == current + 1,
{
    current + 1
}

} // verus!

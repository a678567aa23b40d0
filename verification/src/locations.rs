//! Where blocks lie, and which block holds a chunk.
use vstd::prelude::*;

use crate::block_iter_erasure::ErasureBlockInfo;
use crate::hash_table::HashTable;

verus! {

/// The identity of a volume.
#[derive(Debug, Clone, Copy, PartialEq, Eq, Structural)]
pub struct VolumeId(pub u128);

/// Where a block lies.
#[derive(Debug)]
pub struct BlockLocation {
    pub volume_id: VolumeId,
    /// The number of the block, from which its key is derived.
    pub slot_index: u32,
    pub physical_offset: u64,
    pub encrypted_size: u32,
    /// How the block's stripe was coded.
    pub erasure_info: Option<ErasureBlockInfo>,
    /// The offsets of the other shards of the stripe.
    pub shard_offsets: Option<Vec<u64>>,
    /// The volumes of the other shards of the stripe.
    pub shard_volumes: Option<Vec<u16>>,
}

/// A block location as a value.
#[verifier::ext_equal]
pub struct LocationView {
    pub volume_id: VolumeId,
    pub slot_index: u32,
    pub physical_offset: u64,
    pub encrypted_size: u32,
    pub erasure_info: Option<ErasureBlockInfo>,
    pub shard_offsets: Option<Seq<u64>>,
    pub shard_volumes: Option<Seq<u16>>,
}

impl View for BlockLocation {
    type V = LocationView;

    open spec fn view(&self) -> LocationView {
        LocationView {
            volume_id: self.volume_id,
            slot_index: self.slot_index,
            physical_offset: self.physical_offset,
            encrypted_size: self.encrypted_size,
            erasure_info: self.erasure_info,
            shard_offsets: match self.shard_offsets {
                Some(v) => Some(v@),
                None => None,
            },
            shard_volumes: match self.shard_volumes {
                Some(v) => Some(v@),
                None => None,
            },
        }
    }
}

impl BlockLocation {
    /// A block that is not part of a stripe.
    pub fn single(
        volume_id: VolumeId,
        slot_index: u32,
        physical_offset: u64,
        encrypted_size: u32,
    ) -> (l: Self)
        ensures
            l@ == (LocationView {
                volume_id,
                slot_index,
                physical_offset,
                encrypted_size,
                erasure_info: None,
                shard_offsets: None,
                shard_volumes: None,
            }),
    {
        BlockLocation {
            volume_id,
            slot_index,
            physical_offset,
            encrypted_size,
            erasure_info: None,
            shard_offsets: None,
            shard_volumes: None,
        }
    }

    /// The same location once more.
    pub fn duplicate(&self) -> (l: Self)
        ensures
            l@ == self@,
    {
        let shard_offsets: Option<Vec<u64>> = match &self.shard_offsets {
            Some(v) => Some(copy_u64s(v)),
            None => None,
        };
        let shard_volumes: Option<Vec<u16>> = match &self.shard_volumes {
            Some(v) => Some(copy_u16s(v)),
            None => None,
        };
        BlockLocation {
            volume_id: self.volume_id,
            slot_index: self.slot_index,
            physical_offset: self.physical_offset,
            encrypted_size: self.encrypted_size,
            erasure_info: self.erasure_info,
            shard_offsets,
            shard_volumes,
        }
    }
}

pub(crate) fn copy_u64s(v: &Vec<u64>) -> (r: Vec<u64>)
    ensures
        r@ == v@,
{
    let mut r: Vec<u64> = Vec::new();
    let mut i: usize = 0;
    while i < v.len()
        invariant
            i <= v.len(),
            r@ == v@.take(i as int),
        decreases v.len() - i,
    {
        r.push(v[i]);
        assert(v@.take(i + 1) =~= v@.take(i as int).push(v@[i as int]));
        i = i + 1;
    }
    assert(v@.take(v.len() as int) =~= v@);
    r
}

pub(crate) fn copy_u16s(v: &Vec<u16>) -> (r: Vec<u16>)
    ensures
        r@ == v@,
{
    let mut r: Vec<u16> = Vec::new();
    let mut i: usize = 0;
    while i < v.len()
        invariant
            i <= v.len(),
            r@ == v@.take(i as int),
        decreases v.len() - i,
    {
        r.push(v[i]);
        assert(v@.take(i + 1) =~= v@.take(i as int).push(v@[i as int]));
        i = i + 1;
    }
    assert(v@.take(v.len() as int) =~= v@);
    r
}

/// Where the chunks lie that an archive holds, by their hash.
pub type LocationMap = HashTable<BlockLocation>;

} // verus!

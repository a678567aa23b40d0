//! From chunks to written blocks: which blocks are written or held back, how a
//! stripe is laid out, and what the index learns of it.
use vstd::prelude::*;

use crate::block_iter_erasure::ErasureBlockInfo;
use crate::chunk_index;
use crate::chunk_index::{ChunkIndex, IndexEntry};
use crate::encryption_context;
use crate::encryption_context::{BlockBinding, EncryptionContext, MAX_BLOCK_INDEX};
use crate::erasure_stage;
use crate::erasure_stage::{
    lengths_of, BlockMeta, EncryptedMacroBlock, ErasureStage, Stripe,
};
use crate::index_stage::IndexStage;
use crate::locations::{BlockLocation, LocationView, VolumeId};
use crate::types::{ChunkHash, EraError, ErasureCodeConfig};

verus! {

/// Where a shard was written.
#[derive(Debug, Clone, Copy)]
pub struct ShardEntry {
    pub volume_id: VolumeId,
    pub volume_sequence: u16,
    pub physical_offset: u64,
}

/// The hashes that are found in a block: those of its chunks, then those of
/// files that were packed into a chunk.
pub fn block_meta(chunk_hashes: &[ChunkHash], extra_hashes: &[ChunkHash]) -> (m: BlockMeta)
    ensures
        m.chunk_hashes@ == chunk_hashes@ + extra_hashes@,
{
    let mut hashes: Vec<ChunkHash> = Vec::new();
    let mut i: usize = 0;
    while i < chunk_hashes.len()
        invariant
            i <= chunk_hashes.len(),
            hashes@ == chunk_hashes@.take(i as int),
        decreases chunk_hashes.len() - i,
    {
        hashes.push(chunk_hashes[i]);
        assert(chunk_hashes@.take(i + 1) =~= chunk_hashes@.take(i as int).push(
            chunk_hashes@[i as int],
        ));
        i = i + 1;
    }
    assert(chunk_hashes@.take(chunk_hashes.len() as int) =~= chunk_hashes@);
    let mut j: usize = 0;
    while j < extra_hashes.len()
        invariant
            j <= extra_hashes.len(),
            hashes@ == chunk_hashes@ + extra_hashes@.take(j as int),
        decreases extra_hashes.len() - j,
    {
        hashes.push(extra_hashes[j]);
        assert(extra_hashes@.take(j + 1) =~= extra_hashes@.take(j as int).push(
            extra_hashes@[j as int],
        ));
        assert(hashes@ =~= chunk_hashes@ + extra_hashes@.take(j + 1));
        j = j + 1;
    }
    assert(extra_hashes@.take(extra_hashes.len() as int) =~= extra_hashes@);
    BlockMeta { chunk_hashes: hashes }
}

/// A stripe can only be written where a volume is open.
pub fn check_writers(volume_count: usize) -> (r: Result<(), EraError>)
    ensures
        r is Ok <==> volume_count > 0,
        r matches Err(e) ==> (e matches EraError::Io(m) && m@ == "No volume writers available"@),
{
    if volume_count == 0 {
        return Err(EraError::Io(String::from_str("No volume writers available")));
    }
    Ok(())
}

/// How many empty blocks fill a stripe up.
pub fn padding_needed(stripe: &Stripe) -> (n: usize)
    requires
        stripe.wf(),
    ensures
        n == stripe.config.data_shards - stripe.data_blocks@.len(),
{
    stripe.config.data_shards as usize - stripe.data_blocks.len()
}

/// A stripe that is being written, shard by shard.
#[derive(Debug)]
pub struct StripeJob {
    pub config: ErasureCodeConfig,
    pub shard_size: u32,
    /// One block for each data shard.
    pub blocks: Vec<EncryptedMacroBlock>,
    /// What the blocks hold; those that only fill the stripe up hold nothing.
    pub metas: Vec<BlockMeta>,
    /// The lengths that are written in front of every shard.
    pub lengths: Vec<u32>,
    pub parity: Vec<Vec<u8>>,
    pub entries: Vec<ShardEntry>,
}

/// What a block of the stripe is found by: its own place and the places of the
/// other shards, in shard order.
pub open spec fn shard_location(
    config: ErasureCodeConfig,
    shard_size: u32,
    block_id: u64,
    size: u32,
    entries: Seq<ShardEntry>,
    i: int,
) -> LocationView {
    LocationView {
        volume_id: entries[i].volume_id,
        slot_index: block_id as u32,
        physical_offset: entries[i].physical_offset,
        encrypted_size: size,
        erasure_info: Some(
            ErasureBlockInfo {
                data_shards: config.data_shards,
                parity_shards: config.parity_shards,
                shard_size,
                original_len: size,
            },
        ),
        shard_offsets: Some(
            entries.remove(i).map_values(|e: ShardEntry| e.physical_offset),
        ),
        shard_volumes: Some(
            entries.remove(i).map_values(|e: ShardEntry| e.volume_sequence),
        ),
    }
}

/// The position that shard `shard` has in the lists of shard `own`.
pub open spec fn sibling_slot(own: int, shard: int) -> int {
    if shard < own {
        shard
    } else {
        shard - 1
    }
}

/// What the lists of a block say of another shard of the stripe is where that
/// shard was written.
pub proof fn law_siblings_are_found(
    config: ErasureCodeConfig,
    shard_size: u32,
    block_id: u64,
    size: u32,
    entries: Seq<ShardEntry>,
    own: int,
    shard: int,
)
    requires
        0 <= own < entries.len(),
        0 <= shard < entries.len(),
        own != shard,
    ensures
        ({
            let l = shard_location(config, shard_size, block_id, size, entries, own);
            let at = sibling_slot(own, shard);
            &&& l.shard_offsets->0.len() == entries.len() - 1
            &&& l.shard_volumes->0.len() == entries.len() - 1
            &&& 0 <= at < entries.len() - 1
            &&& l.shard_offsets->0[at] == entries[shard].physical_offset
            &&& l.shard_volumes->0[at] == entries[shard].volume_sequence
        }),
{
}

/// What an index learns: the hash of a chunk and where it lies.
pub open spec fn block_records(meta: BlockMeta, location: LocationView) -> Seq<
    (ChunkHash, LocationView),
> {
    meta.chunk_hashes@.map_values(|h: ChunkHash| (h, location))
}

/// What an index learns of the first `n` blocks of a stripe, in order.
pub open spec fn stripe_records(
    metas: Seq<BlockMeta>,
    locations: Seq<LocationView>,
    n: nat,
) -> Seq<(ChunkHash, LocationView)>
    decreases n,
{
    if n == 0 {
        Seq::empty()
    } else {
        stripe_records(metas, locations, (n - 1) as nat) + block_records(
            metas[n - 1],
            locations[n - 1],
        )
    }
}

/// The index `m` after it learned `records`, in order.
pub open spec fn after_records(
    m: Map<Seq<u8>, LocationView>,
    records: Seq<(ChunkHash, LocationView)>,
) -> Map<Seq<u8>, LocationView>
    decreases records.len(),
{
    if records.len() == 0 {
        m
    } else {
        after_records(m, records.drop_last()).insert(records.last().0@, records.last().1)
    }
}

proof fn lemma_after_records_push(
    m: Map<Seq<u8>, LocationView>,
    records: Seq<(ChunkHash, LocationView)>,
    r: (ChunkHash, LocationView),
)
    ensures
        after_records(m, records.push(r)) == after_records(m, records).insert(r.0@, r.1),
{
    assert(records.push(r).drop_last() =~= records);
}

proof fn lemma_after_records_add(
    m: Map<Seq<u8>, LocationView>,
    a: Seq<(ChunkHash, LocationView)>,
    b: Seq<(ChunkHash, LocationView)>,
)
    ensures
        after_records(m, a + b) == after_records(after_records(m, a), b),
    decreases b.len(),
{
    if b.len() == 0 {
        assert(a + b =~= a);
    } else {
        lemma_after_records_add(m, a, b.drop_last());
        assert((a + b).drop_last() =~= a + b.drop_last());
    }
}

/// A chunk is found where it was last said to lie.
pub proof fn law_recorded_chunks_are_found(
    m: Map<Seq<u8>, LocationView>,
    records: Seq<(ChunkHash, LocationView)>,
    k: int,
)
    requires
        0 <= k < records.len(),
        forall|j: int| k < j < records.len() ==> (#[trigger] records[j]).0@ != records[k].0@,
    ensures
        after_records(m, records).contains_key(records[k].0@),
        after_records(m, records)[records[k].0@] == records[k].1,
    decreases records.len(),
{
    if k < records.len() - 1 {
        assert(records[records.len() - 1].0@ != records[k].0@);
        assert forall|j: int| k < j < records.drop_last().len() implies (
        #[trigger] records.drop_last()[j]).0@ != records.drop_last()[k].0@ by {
            assert(records.drop_last()[j] == records[j]);
        }
        law_recorded_chunks_are_found(m, records.drop_last(), k);
    }
}

/// A chunk of which nothing is said stays where it was.
pub proof fn law_other_chunks_stay(
    m: Map<Seq<u8>, LocationView>,
    records: Seq<(ChunkHash, LocationView)>,
    hash: Seq<u8>,
)
    requires
        forall|j: int| 0 <= j < records.len() ==> (#[trigger] records[j]).0@ != hash,
    ensures
        after_records(m, records).contains_key(hash) == m.contains_key(hash),
        m.contains_key(hash) ==> after_records(m, records)[hash] == m[hash],
    decreases records.len(),
{
    if records.len() > 0 {
        assert(records[records.len() - 1].0@ != hash);
        assert forall|j: int| 0 <= j < records.drop_last().len() implies (
        #[trigger] records.drop_last()[j]).0@ != hash by {
            assert(records.drop_last()[j] == records[j]);
        }
        law_other_chunks_stay(m, records.drop_last(), hash);
    }
}

/// What is collected for the volumes after `records` were told.
pub open spec fn collected_with(
    before: Option<Seq<IndexEntry>>,
    records: Seq<(ChunkHash, LocationView)>,
) -> Option<Seq<IndexEntry>> {
    match before {
        Some(c) => Some(
            c + records.map_values(
                |r: (ChunkHash, LocationView)| chunk_index::index_entry(r.0, r.1),
            ),
        ),
        None => None,
    }
}

pub(crate) proof fn lemma_collected_push(
    before: Option<Seq<IndexEntry>>,
    records: Seq<(ChunkHash, LocationView)>,
    r: (ChunkHash, LocationView),
)
    ensures
        collected_with(before, records.push(r)) == (match collected_with(before, records) {
            Some(c) => Some(c.push(chunk_index::index_entry(r.0, r.1))),
            None => None,
        }),
{
    if let Some(c) = before {
        let f = |r: (ChunkHash, LocationView)| chunk_index::index_entry(r.0, r.1);
        assert(c + records.push(r).map_values(f) =~= (c + records.map_values(f)).push(f(r)));
    }
}

proof fn lemma_collected_add(
    before: Option<Seq<IndexEntry>>,
    a: Seq<(ChunkHash, LocationView)>,
    b: Seq<(ChunkHash, LocationView)>,
)
    ensures
        collected_with(before, a + b) == collected_with(collected_with(before, a), b),
{
    if let Some(c) = before {
        let f = |r: (ChunkHash, LocationView)| chunk_index::index_entry(r.0, r.1);
        assert(c + (a + b).map_values(f) =~= (c + a.map_values(f)) + b.map_values(f));
    }
}

pub(crate) proof fn lemma_collected_none(before: Option<Seq<IndexEntry>>)
    ensures
        collected_with(before, Seq::empty()) == before,
{
    if let Some(c) = before {
        let f = |r: (ChunkHash, LocationView)| chunk_index::index_entry(r.0, r.1);
        assert(c + Seq::<(ChunkHash, LocationView)>::empty().map_values(f) =~= c);
    }
}

/// How an index changes that is told `records` and stops at an error: all are
/// learned where it accepts them, else the first one only. The same goes for
/// what it collects for the volumes.
pub open spec fn learned<I: ChunkIndex>(
    before: I,
    after: I,
    records: Seq<(ChunkHash, LocationView)>,
    ok: bool,
) -> bool {
    &&& after.valid()
    &&& after.accepts() == before.accepts()
    &&& ok <==> before.accepts() || records.len() == 0
    &&& after.locations() == if before.accepts() || records.len() == 0 {
        after_records(before.locations(), records)
    } else {
        before.locations().insert(records[0].0@, records[0].1)
    }
    &&& after.collected() == collected_with(
        before.collected(),
        if before.accepts() || records.len() == 0 {
            records
        } else {
            seq![records[0]]
        },
    )
}

/// Tells the index where the chunks of a block lie.
fn record_block<I: ChunkIndex>(
    index: &mut IndexStage<I>,
    meta: &BlockMeta,
    location: &BlockLocation,
) -> (r: Result<(), EraError>)
    requires
        old(index).chunk_index.valid(),
    ensures
        learned(
            old(index).chunk_index,
            final(index).chunk_index,
            block_records(*meta, location@),
            r is Ok,
        ),
        final(index).checkpoint_manager == old(index).checkpoint_manager,
{
    let ghost all = block_records(*meta, location@);
    let ghost start = index.chunk_index;
    let mut i: usize = 0;
    assert(all.take(0) =~= Seq::empty());
    proof {
        lemma_collected_none(start.collected());
    }
    while i < meta.chunk_hashes.len()
        invariant
            i <= meta.chunk_hashes.len(),
            all == block_records(*meta, location@),
            start == old(index).chunk_index,
            index.chunk_index.valid(),
            index.chunk_index.accepts() == start.accepts(),
            i > 0 ==> start.accepts(),
            index.chunk_index.locations() == after_records(start.locations(), all.take(i as int)),
            index.chunk_index.collected() == collected_with(
                start.collected(),
                all.take(i as int),
            ),
            index.checkpoint_manager == old(index).checkpoint_manager,
        decreases meta.chunk_hashes.len() - i,
    {
        let hash = meta.chunk_hashes[i];
        proof {
            assert(all[i as int] == (hash, location@));
            assert(all.take(i + 1) =~= all.take(i as int).push(all[i as int]));
            lemma_after_records_push(start.locations(), all.take(i as int), all[i as int]);
            lemma_collected_push(start.collected(), all.take(i as int), all[i as int]);
        }
        match index.record_location(hash, location.duplicate()) {
            Ok(()) => {},
            Err(e) => {
                assert(i == 0);
                assert(all.take(1) =~= seq![all[0]]);
                return Err(e);
            },
        }
        i = i + 1;
    }
    assert(all.take(all.len() as int) =~= all);
    Ok(())
}

impl StripeJob {
    /// The lengths are those of the blocks; a shard is written only once
    /// the parity is known.
    pub open spec fn wf(&self) -> bool {
        &&& self.blocks@.len() == self.config.data_shards
        &&& self.metas@.len() <= self.blocks@.len()
        &&& erasure_stage::fit(self.blocks@)
        &&& self.lengths@ == erasure_stage::block_lengths(self.blocks@)
        &&& self.parity@.len() == 0 || self.parity@.len() == self.config.parity_shards
        &&& self.entries@.len() <= self.blocks@.len() + self.parity@.len()
    }

    /// A stripe whose missing blocks are filled up by `padding`.
    pub fn new(stripe: Stripe, padding: Vec<EncryptedMacroBlock>) -> (j: Self)
        requires
            stripe.wf(),
            padding@.len() == stripe.config.data_shards - stripe.data_blocks@.len(),
            erasure_stage::fit(padding@),
        ensures
            j.wf(),
            j.config == stripe.config,
            j.shard_size == stripe.shard_size,
            j.blocks@ == stripe.data_blocks@ + padding@,
            j.metas == stripe.block_meta,
            j.parity@.len() == 0,
            j.entries@.len() == 0,
    {
        let mut blocks = stripe.data_blocks;
        let mut rest = padding;
        blocks.append(&mut rest);
        let lengths = lengths_of(&blocks);
        StripeJob {
            config: stripe.config,
            shard_size: stripe.shard_size,
            blocks,
            metas: stripe.block_meta,
            lengths,
            parity: Vec::new(),
            entries: Vec::new(),
        }
    }

    /// Takes the coded shards, of which those after the data shards are kept.
    pub fn on_coded(&mut self, all_shards: Vec<Vec<u8>>)
        requires
            old(self).wf(),
            old(self).entries@.len() == 0,
            all_shards@.len() == old(self).config.total(),
        ensures
            final(self).wf(),
            *final(self) == (StripeJob { parity: final(self).parity, ..*old(self) }),
            final(self).parity@ == all_shards@.skip(old(self).config.data_shards as int),
    {
        let mut all = all_shards;
        let parity = all.split_off(self.config.data_shards as usize);
        assert(parity@ =~= all_shards@.skip(self.config.data_shards as int));
        self.parity = parity;
    }

    /// The shard that is written next.
    pub fn next_shard(&self) -> (r: Option<usize>)
        requires
            self.wf(),
        ensures
            r == if self.entries@.len() < self.blocks@.len() + self.parity@.len() {
                Some(self.entries@.len() as usize)
            } else {
                None
            },
    {
        if self.entries.len() < self.blocks.len() {
            return Some(self.entries.len());
        }
        if self.entries.len() - self.blocks.len() < self.parity.len() {
            Some(self.entries.len())
        } else {
            None
        }
    }

    /// What a shard holds: a block, or a parity shard.
    pub fn shard_data(&self, shard: usize) -> (d: &Vec<u8>)
        requires
            self.wf(),
            shard < self.blocks@.len() + self.parity@.len(),
        ensures
            *d == if shard < self.blocks@.len() {
                self.blocks@[shard as int].data
            } else {
                self.parity@[shard - self.blocks@.len()]
            },
    {
        if shard < self.blocks.len() {
            &self.blocks[shard].data
        } else {
            &self.parity[shard - self.blocks.len()]
        }
    }

    /// Notes where the next shard was written.
    pub fn on_written(&mut self, entry: ShardEntry)
        requires
            old(self).wf(),
            old(self).entries@.len() < old(self).blocks@.len() + old(self).parity@.len(),
        ensures
            final(self).wf(),
            *final(self) == (StripeJob { entries: final(self).entries, ..*old(self) }),
            final(self).entries@ == old(self).entries@.push(entry),
    {
        self.entries.push(entry);
    }

    /// All shards were written.
    pub open spec fn complete(&self) -> bool {
        self.entries@.len() == self.blocks@.len() + self.parity@.len()
    }

    /// Where the blocks of the stripe lie.
    pub open spec fn locations(&self) -> Seq<LocationView> {
        Seq::new(
            self.metas@.len(),
            |i: int|
                shard_location(
                    self.config,
                    self.shard_size,
                    self.blocks@[i].block_id,
                    self.lengths@[i],
                    self.entries@,
                    i,
                ),
        )
    }

    fn location(&self, own: usize) -> (l: BlockLocation)
        requires
            self.wf(),
            self.complete(),
            own < self.metas@.len(),
        ensures
            l@ == self.locations()[own as int],
    {
        let ghost others = self.entries@.remove(own as int);
        let mut shard_offsets: Vec<u64> = Vec::new();
        let mut shard_volumes: Vec<u16> = Vec::new();
        let n: usize = self.entries.len();
        let mut i: usize = 0;
        while i < n
            invariant
                n == self.entries@.len(),
                i <= n,
                own < n,
                others == self.entries@.remove(own as int),
                shard_offsets@.len() == shard_volumes@.len(),
                shard_offsets@.len() == (if i <= own {
                    i as int
                } else {
                    i - 1
                }),
                forall|k: int|
                    0 <= k < shard_offsets@.len() ==> #[trigger] shard_offsets@[k]
                        == others[k].physical_offset,
                forall|k: int|
                    0 <= k < shard_offsets@.len() ==> #[trigger] shard_volumes@[k]
                        == others[k].volume_sequence,
            decreases n - i,
        {
            if i != own {
                let e = self.entries[i];
                assert(others[sibling_slot(own as int, i as int)] == e);
                shard_offsets.push(e.physical_offset);
                shard_volumes.push(e.volume_sequence);
            }
            i = i + 1;
        }
        assert(shard_offsets@ =~= others.map_values(|e: ShardEntry| e.physical_offset));
        assert(shard_volumes@ =~= others.map_values(|e: ShardEntry| e.volume_sequence));
        let base = self.entries[own];
        let size: u32 = self.lengths[own];
        BlockLocation {
            volume_id: base.volume_id,
            slot_index: #[verifier::truncate] (self.blocks[own].block_id as u32),
            physical_offset: base.physical_offset,
            encrypted_size: size,
            erasure_info: Some(
                ErasureBlockInfo {
                    data_shards: self.config.data_shards,
                    parity_shards: self.config.parity_shards,
                    shard_size: self.shard_size,
                    original_len: size,
                },
            ),
            shard_offsets: Some(shard_offsets),
            shard_volumes: Some(shard_volumes),
        }
    }

    /// Tells the index where the chunks of the stripe lie.
    pub fn record<I: ChunkIndex>(&self, index: &mut IndexStage<I>) -> (r: Result<(), EraError>)
        requires
            self.wf(),
            self.complete(),
            old(index).chunk_index.valid(),
        ensures
            learned(
                old(index).chunk_index,
                final(index).chunk_index,
                stripe_records(self.metas@, self.locations(), self.metas@.len()),
                r is Ok,
            ),
            final(index).checkpoint_manager == old(index).checkpoint_manager,
    {
        let ghost start = index.chunk_index;
        let ghost places = self.locations();
        let mut i: usize = 0;
        proof {
            lemma_collected_none(start.collected());
        }
        while i < self.metas.len()
            invariant
                self.wf(),
                self.complete(),
                i <= self.metas@.len(),
                start == old(index).chunk_index,
                places == self.locations(),
                index.chunk_index.valid(),
                index.chunk_index.accepts() == start.accepts(),
                stripe_records(self.metas@, places, i as nat).len() == 0 || start.accepts(),
                index.chunk_index.locations() == after_records(
                    start.locations(),
                    stripe_records(self.metas@, places, i as nat),
                ),
                index.chunk_index.collected() == collected_with(
                    start.collected(),
                    stripe_records(self.metas@, places, i as nat),
                ),
                index.checkpoint_manager == old(index).checkpoint_manager,
            decreases self.metas@.len() - i,
        {
            let ghost done = stripe_records(self.metas@, places, i as nat);
            let location = self.location(i);
            let ghost here = block_records(self.metas@[i as int], location@);
            proof {
                assert(stripe_records(self.metas@, places, (i + 1) as nat) == done + here);
                lemma_after_records_add(start.locations(), done, here);
                lemma_collected_add(start.collected(), done, here);
            }
            match record_block(index, &self.metas[i], &location) {
                Ok(()) => {},
                Err(e) => {
                    proof {
                        assert(done.len() == 0);
                        assert(done + here =~= here);
                        assert(done =~= Seq::empty());
                        lemma_collected_none(start.collected());
                        lemma_stripe_records_prefix(
                            self.metas@,
                            places,
                            (i + 1) as nat,
                            self.metas@.len(),
                        );
                    }
                    return Err(e);
                },
            }
            i = i + 1;
        }
        Ok(())
    }
}

/// What is learned of the first blocks comes first.
proof fn lemma_stripe_records_prefix(
    metas: Seq<BlockMeta>,
    locations: Seq<LocationView>,
    k: nat,
    n: nat,
)
    requires
        k <= n,
    ensures
        stripe_records(metas, locations, k).len() <= stripe_records(metas, locations, n).len(),
        stripe_records(metas, locations, n).take(
            stripe_records(metas, locations, k).len() as int,
        ) == stripe_records(metas, locations, k),
        stripe_records(metas, locations, k).len() > 0 ==> stripe_records(metas, locations, n)[0]
            == stripe_records(metas, locations, k)[0],
    decreases n,
{
    let a = stripe_records(metas, locations, k);
    if k == n {
        assert(a.take(a.len() as int) =~= a);
    } else {
        lemma_stripe_records_prefix(metas, locations, k, (n - 1) as nat);
        let b = stripe_records(metas, locations, (n - 1) as nat);
        let c = stripe_records(metas, locations, n);
        assert(c.take(a.len() as int) =~= b.take(a.len() as int));
        if a.len() > 0 {
            assert(c.take(a.len() as int)[0] == c[0]);
        }
    }
}

/// What becomes of an encrypted block.
#[derive(Debug)]
pub enum PipelineStep {
    /// It waits for its stripe.
    Held,
    /// It filled a stripe, which is written now.
    WriteStripe(Stripe),
    /// It is written by itself.
    WriteBlock(EncryptedMacroBlock, BlockMeta),
}

/// The stages of the write path.
#[derive(Debug)]
pub struct WritePipeline<I: ChunkIndex> {
    pub encryption: EncryptionContext,
    pub erasure: ErasureStage,
    pub index: IndexStage<I>,
}

impl<I: ChunkIndex> WritePipeline<I> {
    pub open spec fn wf(&self) -> bool {
        self.erasure.wf() && self.index.chunk_index.valid()
    }

    pub fn new(encryption: EncryptionContext, erasure: ErasureStage, index: IndexStage<I>) -> (p:
        Self)
        ensures
            p == (WritePipeline { encryption, erasure, index }),
    {
        WritePipeline { encryption, erasure, index }
    }

    /// What the next block is bound to; see
    /// [`EncryptionContext::create_block_builder`].
    pub fn next_binding(&mut self) -> (r: Result<BlockBinding, EraError>)
        requires
            old(self).wf(),
        ensures
            final(self).wf(),
            final(self).erasure == old(self).erasure,
            final(self).index == old(self).index,
            final(self).encryption.same_binding(old(self).encryption),
            if old(self).encryption.next_block_id <= MAX_BLOCK_INDEX {
                &&& r == Ok::<BlockBinding, EraError>(
                    (BlockBinding {
                        nonce_context: old(self).encryption.nonce_context,
                        archive_id: old(self).encryption.archive_id,
                        epoch_id: old(self).encryption.epoch_id,
                        volume_index: old(self).encryption.volume_index,
                        block_id: old(self).encryption.next_block_id,
                    }),
                )
                &&& final(self).encryption.next_block_id == old(self).encryption.next_block_id + 1
            } else {
                &&& r matches Err(EraError::IntegrityError(m))
                &&& m@ == encryption_context::over_capacity_text(
                    old(self).encryption.next_block_id,
                )
                &&& final(self).encryption.next_block_id == old(self).encryption.next_block_id
            },
    {
        self.encryption.create_block_builder()
    }

    /// Takes an encrypted block: without erasure coding it is written at once,
    /// with erasure coding it waits until its stripe is full.
    pub fn process_chunks(&mut self, block: EncryptedMacroBlock, meta: BlockMeta) -> (r: Result<
        PipelineStep,
        EraError,
    >)
        requires
            old(self).wf(),
            block.data@.len() < u32::MAX,
        ensures
            final(self).wf(),
            final(self).encryption == old(self).encryption,
            final(self).index == old(self).index,
            final(self).erasure.config == old(self).erasure.config,
            match old(self).erasure.config {
                None => r == Ok::<PipelineStep, EraError>(PipelineStep::WriteBlock(block, meta))
                    && final(self).erasure == old(self).erasure,
                Some(c) => if old(self).erasure.blocks@.len() + 1 < c.data_shards {
                    &&& r == Ok::<PipelineStep, EraError>(PipelineStep::Held)
                    &&& final(self).erasure.blocks@ == old(self).erasure.blocks@.push(block)
                    &&& final(self).erasure.metas@ == old(self).erasure.metas@.push(meta)
                } else {
                    &&& r matches Ok(PipelineStep::WriteStripe(s))
                    &&& s.wf()
                    &&& s.config == c
                    &&& s.data_blocks@ == old(self).erasure.blocks@.push(block)
                    &&& s.block_meta@ == old(self).erasure.metas@.push(meta)
                    &&& final(self).erasure.blocks@.len() == 0
                },
            },
    {
        if !self.erasure.is_enabled() {
            return Ok(PipelineStep::WriteBlock(block, meta));
        }
        match self.erasure.buffer_block(block, meta) {
            Ok(Some(stripe)) => Ok(PipelineStep::WriteStripe(stripe)),
            Ok(None) => Ok(PipelineStep::Held),
            Err(e) => Err(e),
        }
    }

    /// Notes that a block was written by itself.
    pub fn on_block_written(&mut self, meta: &BlockMeta, location: &BlockLocation) -> (r: Result<
        (),
        EraError,
    >)
        requires
            old(self).wf(),
        ensures
            final(self).wf(),
            final(self).encryption == old(self).encryption,
            final(self).erasure == old(self).erasure,
            learned(
                old(self).index.chunk_index,
                final(self).index.chunk_index,
                block_records(*meta, location@),
                r is Ok,
            ),
            final(self).index.checkpoint_manager == old(self).index.checkpoint_manager,
    {
        record_block(&mut self.index, meta, location)
    }

    /// Notes that a stripe was written.
    pub fn on_stripe_written(&mut self, job: &StripeJob) -> (r: Result<(), EraError>)
        requires
            old(self).wf(),
            job.wf(),
            job.complete(),
        ensures
            final(self).wf(),
            final(self).encryption == old(self).encryption,
            final(self).erasure == old(self).erasure,
            learned(
                old(self).index.chunk_index,
                final(self).index.chunk_index,
                stripe_records(job.metas@, job.locations(), job.metas@.len()),
                r is Ok,
            ),
            final(self).index.checkpoint_manager == old(self).index.checkpoint_manager,
    {
        job.record(&mut self.index)
    }

    /// Takes out the blocks that wait for their stripe, at the end.
    pub fn flush_stripe(&mut self) -> (r: Result<Option<Stripe>, EraError>)
        requires
            old(self).wf(),
        ensures
            final(self).wf(),
            final(self).encryption == old(self).encryption,
            final(self).index == old(self).index,
            final(self).erasure.config == old(self).erasure.config,
            final(self).erasure.blocks@.len() == 0,
            old(self).erasure.blocks@.len() == 0 ==> r matches Ok(None),
            old(self).erasure.blocks@.len() > 0 ==> {
                &&& r matches Ok(Some(s))
                &&& s.wf()
                &&& Some(s.config) == old(self).erasure.config
                &&& s.data_blocks@ == old(self).erasure.blocks@
                &&& s.block_meta@ == old(self).erasure.metas@
            },
    {
        self.erasure.flush()
    }

    /// Whether a chunk is known already.
    pub fn contains(&self, hash: &ChunkHash) -> (r: Result<bool, EraError>)
        requires
            self.wf(),
        ensures
            r == Ok::<bool, EraError>(self.index.chunk_index.locations().contains_key(hash@)),
    {
        self.index.contains(hash)
    }

    /// Where a chunk lies, if it is known.
    pub fn get_location(&self, hash: &ChunkHash) -> (r: Result<Option<BlockLocation>, EraError>)
        requires
            self.wf(),
        ensures
            r matches Ok(l) && (l is Some <==> self.index.chunk_index.locations().contains_key(
                hash@,
            )) && (l matches Some(b) ==> b@ == self.index.chunk_index.locations()[hash@]),
    {
        self.index.get(hash)
    }

    /// Notes where a chunk lies.
    pub fn record_location(&mut self, hash: ChunkHash, location: BlockLocation) -> (r: Result<
        (),
        EraError,
    >)
        requires
            old(self).wf(),
        ensures
            final(self).wf(),
            final(self).encryption == old(self).encryption,
            final(self).erasure == old(self).erasure,
            final(self).index.chunk_index.locations()
                == old(self).index.chunk_index.locations().insert(hash@, location@),
            final(self).index.chunk_index.accepts() == old(self).index.chunk_index.accepts(),
            final(self).index.chunk_index.collected() == (
            match old(self).index.chunk_index.collected() {
                Some(c) => Some(c.push(chunk_index::index_entry(hash, location@))),
                None => None,
            }),
            final(self).index.checkpoint_manager == old(self).index.checkpoint_manager,
            r is Ok <==> old(self).index.chunk_index.accepts(),
            r matches Err(e) ==> e is InvalidConfig,
    {
        self.index.record_location(hash, location)
    }

    pub fn erasure_enabled(&self) -> (r: bool)
        ensures
            r == (self.erasure.config is Some),
    {
        self.erasure.is_enabled()
    }

    pub fn blocks_written(&self) -> (n: u64)
        ensures
            n == self.encryption.next_block_id,
    {
        self.encryption.blocks_written()
    }

    pub fn encryption(&self) -> (e: &EncryptionContext)
        ensures
            *e == self.encryption,
    {
        &self.encryption
    }

    pub fn erasure(&self) -> (e: &ErasureStage)
        ensures
            *e == self.erasure,
    {
        &self.erasure
    }

    pub fn index(&self) -> (i: &IndexStage<I>)
        ensures
            *i == self.index,
    {
        &self.index
    }

    pub fn erasure_mut(&mut self) -> (e: &mut ErasureStage)
        ensures
            *e == old(self).erasure,
            *final(self) == (WritePipeline {
                encryption: old(self).encryption,
                erasure: *final(e),
                index: old(self).index,
            }),
    {
        &mut self.erasure
    }

    pub fn index_mut(&mut self) -> (i: &mut IndexStage<I>)
        ensures
            *i == old(self).index,
            *final(self) == (WritePipeline {
                encryption: old(self).encryption,
                erasure: old(self).erasure,
                index: *final(i),
            }),
    {
        &mut self.index
    }

    /// See [`IndexStage::sync_checkpoint`].
    pub fn sync_checkpoint(&mut self) -> (r: Result<(), EraError>)
        ensures
            r is Ok,
            *final(self) == *old(self),
    {
        self.index.sync_checkpoint()
    }

    /// The stages by themselves.
    pub fn into_parts(self) -> (p: (EncryptionContext, ErasureStage, IndexStage<I>))
        ensures
            p == (self.encryption, self.erasure, self.index),
    {
        (self.encryption, self.erasure, self.index)
    }
}

/// A block of a stripe is found at its own place and by its own number and
/// length, with the layout of the stripe beside it.
pub proof fn law_block_is_found_at_its_place(
    config: ErasureCodeConfig,
    shard_size: u32,
    block_id: u64,
    size: u32,
    entries: Seq<ShardEntry>,
    i: int,
)
    requires
        0 <= i < entries.len(),
        block_id <= u32::MAX,
    ensures
        ({
            let l = shard_location(config, shard_size, block_id, size, entries, i);
            &&& l.volume_id == entries[i].volume_id
            &&& l.physical_offset == entries[i].physical_offset
            &&& l.slot_index == block_id
            &&& l.encrypted_size == size
            &&& l.erasure_info matches Some(e) && e.data_shards == config.data_shards
                && e.parity_shards == config.parity_shards && e.shard_size == shard_size
                && e.original_len == size
        }),
{
}

/// Every chunk of a stripe is told to the index, at the place of the block that
/// holds it.
pub proof fn law_every_chunk_of_a_stripe_is_told(
    metas: Seq<BlockMeta>,
    locations: Seq<LocationView>,
    n: nat,
    i: int,
    k: int,
)
    requires
        n <= metas.len(),
        locations.len() >= n,
        0 <= i < n,
        0 <= k < metas[i].chunk_hashes@.len(),
    ensures
        stripe_records(metas, locations, n).contains((metas[i].chunk_hashes@[k], locations[i])),
    decreases n,
{
    let m = (n - 1) as nat;
    let before = stripe_records(metas, locations, m);
    let last = block_records(metas[n - 1], locations[n - 1]);
    let x = (metas[i].chunk_hashes@[k], locations[i]);
    if i < m {
        law_every_chunk_of_a_stripe_is_told(metas, locations, m, i, k);
        let j = choose|j: int| 0 <= j < before.len() && before[j] == x;
        assert((before + last)[j] == x);
    } else {
        assert(last[k] == x);
        assert((before + last)[before.len() + k] == x);
    }
}

/// Once an index that accepts was told of a block, every chunk of the block is
/// found at its place, and what it was told is collected for the volumes, entry
/// by entry.
pub proof fn law_told_chunks_are_found<I: ChunkIndex>(
    before: I,
    after: I,
    meta: BlockMeta,
    location: LocationView,
    ok: bool,
    k: int,
)
    requires
        learned(before, after, block_records(meta, location), ok),
        before.accepts(),
        0 <= k < meta.chunk_hashes@.len(),
    ensures
        ok,
        after.locations().contains_key(meta.chunk_hashes@[k]@),
        after.locations()[meta.chunk_hashes@[k]@] == location,
        before.collected() matches Some(c) ==> (after.collected() matches Some(d) && d.len()
            == c.len() + meta.chunk_hashes@.len() && d[c.len() + k] == chunk_index::index_entry(
            meta.chunk_hashes@[k],
            location,
        )),
{
    let records = block_records(meta, location);
    assert(records[k] == (meta.chunk_hashes@[k], location));
    lemma_found_in_block(before.locations(), records, location, k);
}

proof fn lemma_found_in_block(
    m: Map<Seq<u8>, LocationView>,
    records: Seq<(ChunkHash, LocationView)>,
    location: LocationView,
    k: int,
)
    requires
        0 <= k < records.len(),
        forall|j: int| 0 <= j < records.len() ==> (#[trigger] records[j]).1 == location,
    ensures
        after_records(m, records).contains_key(records[k].0@),
        after_records(m, records)[records[k].0@] == location,
    decreases records.len(),
{
    assert(records[records.len() - 1].1 == location);
    if k < records.len() - 1 {
        assert forall|j: int| 0 <= j < records.drop_last().len() implies (
        #[trigger] records.drop_last()[j]).1 == location by {
            assert(records.drop_last()[j] == records[j]);
        }
        lemma_found_in_block(m, records.drop_last(), location, k);
        assert(records.drop_last()[k] == records[k]);
    }
}

/// Being told of chunks changes nothing of whether an index takes any, and it fails exactly where
/// it does not and there is something to tell.
pub proof fn law_index_goes_on_taking<I: ChunkIndex>(
    before: I,
    after: I,
    records: Seq<(ChunkHash, LocationView)>,
    ok: bool,
)
    requires
        learned(before, after, records, ok),
    ensures
        after.valid(),
        after.accepts() <==> before.accepts(),
        !ok <==> !before.accepts() && records.len() > 0,
        records.len() == 0 ==> after.locations() == before.locations(),
{
}

/// A stripe is complete exactly where there is a place for each of its shards.
pub proof fn law_when_a_stripe_is_complete(job: StripeJob)
    requires
        job.wf(),
        job.parity@.len() == job.config.parity_shards,
    ensures
        job.complete() <==> job.entries@.len() == job.config.data_shards + job.config.parity_shards,
{
}

} // verus!

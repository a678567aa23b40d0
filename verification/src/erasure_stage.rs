//! Collecting encrypted blocks into stripes.
use vstd::prelude::*;

use crate::erasure_scan;
use crate::erasure_scan::max_length;
use crate::text;
use crate::types::{ChunkHash, EraError, ErasureCodeConfig};

verus! {

/// An encrypted block.
#[derive(Debug)]
pub struct EncryptedMacroBlock {
    pub block_id: u64,
    pub data: Vec<u8>,
    pub original_size: u32,
    pub compressed_size: u32,
    pub chunk_count: u32,
}

/// The chunks that are found in a block.
#[derive(Debug)]
pub struct BlockMeta {
    pub chunk_hashes: Vec<ChunkHash>,
}

/// Blocks that are coded together.
#[derive(Debug)]
pub struct Stripe {
    pub config: ErasureCodeConfig,
    pub data_blocks: Vec<EncryptedMacroBlock>,
    pub block_meta: Vec<BlockMeta>,
    /// The size to which shards are padded for coding.
    pub shard_size: u32,
}

impl Stripe {
    /// At most as many blocks as the stripe has data shards, and for each what
    /// it holds.
    pub open spec fn wf(&self) -> bool {
        &&& self.data_blocks@.len() == self.block_meta@.len()
        &&& self.data_blocks@.len() <= self.config.data_shards
        &&& fit(self.data_blocks@)
        &&& self.shard_size == erasure_scan::even_up(
            erasure_scan::longest(block_lengths(self.data_blocks@)),
        )
    }
}

/// The blocks are short enough for their lengths to be written down.
pub open spec fn fit(blocks: Seq<EncryptedMacroBlock>) -> bool {
    forall|i: int| 0 <= i < blocks.len() ==> (#[trigger] blocks[i]).data@.len() < u32::MAX
}

/// Which layouts can be used.
pub open spec fn config_fault(config: ErasureCodeConfig) -> Option<Seq<char>> {
    if config.data_shards == 0 {
        Some("data_shards must be greater than 0"@)
    } else if config.parity_shards == 0 {
        Some("parity_shards must be greater than 0"@)
    } else if config.total() > 255 {
        Some("total shards ("@ + text::decimal(config.total()) + ") exceeds maximum (255)"@)
    } else {
        None
    }
}

/// Collects blocks until a stripe is full.
#[derive(Debug)]
pub struct ErasureStage {
    /// None where erasure coding is off.
    pub config: Option<ErasureCodeConfig>,
    pub blocks: Vec<EncryptedMacroBlock>,
    pub metas: Vec<BlockMeta>,
}

impl ErasureStage {
    pub open spec fn wf(&self) -> bool {
        &&& self.blocks@.len() == self.metas@.len()
        &&& fit(self.blocks@)
        &&& match self.config {
            Some(c) => config_fault(c) is None && self.blocks@.len() < c.data_shards,
            None => self.blocks@.len() == 0,
        }
    }

    pub fn new(config: Option<ErasureCodeConfig>) -> (r: Result<Self, EraError>)
        ensures
            match config {
                Some(c) => match config_fault(c) {
                    Some(t) => r matches Err(EraError::InvalidConfig(m)) && m@ == t,
                    None => r matches Ok(s) && s.wf() && s.config == config && s.blocks@.len() == 0,
                },
                None => r matches Ok(s) && s.wf() && s.config is None,
            },
    {
        if let Some(c) = config {
            match Self::validate_config(&c) {
                Ok(()) => {},
                Err(e) => return Err(e),
            }
        }
        Ok(ErasureStage { config, blocks: Vec::new(), metas: Vec::new() })
    }

    fn validate_config(config: &ErasureCodeConfig) -> (r: Result<(), EraError>)
        ensures
            match config_fault(*config) {
                Some(t) => r matches Err(EraError::InvalidConfig(m)) && m@ == t,
                None => r is Ok,
            },
    {
        if config.data_shards == 0 {
            return Err(
                EraError::InvalidConfig(String::from_str("data_shards must be greater than 0")),
            );
        }
        if config.parity_shards == 0 {
            return Err(
                EraError::InvalidConfig(String::from_str("parity_shards must be greater than 0")),
            );
        }
        let total: usize = config.total_shards();
        if total > 255 {
            return Err(
                EraError::InvalidConfig(
                    text::with_number("total shards (", total as u64, ") exceeds maximum (255)"),
                ),
            );
        }
        Ok(())
    }

    pub fn disabled() -> (s: Self)
        ensures
            s.wf(),
            s.config is None,
    {
        ErasureStage { config: None, blocks: Vec::new(), metas: Vec::new() }
    }

    pub fn is_enabled(&self) -> (r: bool)
        ensures
            r == (self.config is Some),
    {
        self.config.is_some()
    }

    pub fn config(&self) -> (r: Option<&ErasureCodeConfig>)
        ensures
            r == (match self.config {
                Some(c) => Some(&c),
                None => None,
            }),
    {
        match &self.config {
            Some(c) => Some(c),
            None => None,
        }
    }

    /// Takes a block. The block that fills a stripe brings the stripe: all
    /// blocks since the last one, in order.
    pub fn buffer_block(&mut self, block: EncryptedMacroBlock, meta: BlockMeta) -> (r: Result<
        Option<Stripe>,
        EraError,
    >)
        requires
            old(self).wf(),
            block.data@.len() < u32::MAX,
        ensures
            final(self).wf(),
            final(self).config == old(self).config,
            match old(self).config {
                None => r matches Err(EraError::InvalidFormat(m)) && m@
                    == "Erasure coding is not enabled"@,
                Some(c) => if old(self).blocks@.len() + 1 < c.data_shards {
                    &&& r matches Ok(None)
                    &&& final(self).blocks@ == old(self).blocks@.push(block)
                    &&& final(self).metas@ == old(self).metas@.push(meta)
                } else {
                    &&& r matches Ok(Some(s))
                    &&& s.wf()
                    &&& s.config == c
                    &&& s.data_blocks@ == old(self).blocks@.push(block)
                    &&& s.block_meta@ == old(self).metas@.push(meta)
                    &&& s.data_blocks@.len() == c.data_shards
                    &&& final(self).blocks@.len() == 0
                },
            },
    {
        let c = match self.config {
            Some(c) => c,
            None => {
                return Err(
                    EraError::InvalidFormat(String::from_str("Erasure coding is not enabled")),
                );
            },
        };
        self.blocks.push(block);
        self.metas.push(meta);
        if self.blocks.len() < c.data_shards as usize {
            return Ok(None);
        }
        let mut data_blocks: Vec<EncryptedMacroBlock> = Vec::new();
        let mut block_meta: Vec<BlockMeta> = Vec::new();
        std::mem::swap(&mut data_blocks, &mut self.blocks);
        std::mem::swap(&mut block_meta, &mut self.metas);
        Ok(Some(make_stripe(c, data_blocks, block_meta)))
    }

    /// Takes out a stripe that is not full, if blocks are waiting.
    pub fn flush(&mut self) -> (r: Result<Option<Stripe>, EraError>)
        requires
            old(self).wf(),
        ensures
            final(self).wf(),
            final(self).config == old(self).config,
            final(self).blocks@.len() == 0,
            old(self).blocks@.len() == 0 ==> r matches Ok(None),
            old(self).blocks@.len() > 0 ==> {
                &&& r matches Ok(Some(s))
                &&& s.wf()
                &&& Some(s.config) == old(self).config
                &&& s.data_blocks@ == old(self).blocks@
                &&& s.block_meta@ == old(self).metas@
            },
    {
        if self.blocks.len() == 0 {
            return Ok(None);
        }
        match self.config {
            Some(c) => {
                let mut data_blocks: Vec<EncryptedMacroBlock> = Vec::new();
                let mut block_meta: Vec<BlockMeta> = Vec::new();
                std::mem::swap(&mut data_blocks, &mut self.blocks);
                std::mem::swap(&mut block_meta, &mut self.metas);
                Ok(Some(make_stripe(c, data_blocks, block_meta)))
            },
            None => Ok(None),
        }
    }

    pub fn has_pending(&self) -> (r: bool)
        ensures
            r == (self.blocks@.len() > 0),
    {
        self.blocks.len() > 0
    }
}

/// The lengths of blocks.
pub open spec fn block_lengths(blocks: Seq<EncryptedMacroBlock>) -> Seq<u32> {
    blocks.map_values(|b: EncryptedMacroBlock| b.data@.len() as u32)
}

/// The lengths of blocks.
pub fn lengths_of(blocks: &Vec<EncryptedMacroBlock>) -> (lengths: Vec<u32>)
    requires
        fit(blocks@),
    ensures
        lengths@ == block_lengths(blocks@),
{
    let mut lengths: Vec<u32> = Vec::new();
    let mut i: usize = 0;
    while i < blocks.len()
        invariant
            i <= blocks.len(),
            fit(blocks@),
            lengths@ == block_lengths(blocks@.take(i as int)),
        decreases blocks.len() - i,
    {
        assert(blocks@[i as int].data@.len() < u32::MAX);
        lengths.push(blocks[i].data.len() as u32);
        assert(blocks@.take(i + 1) =~= blocks@.take(i as int).push(blocks@[i as int]));
        assert(lengths@ =~= block_lengths(blocks@.take(i + 1)));
        i = i + 1;
    }
    assert(blocks@.take(blocks.len() as int) =~= blocks@);
    lengths
}

fn make_stripe(
    config: ErasureCodeConfig,
    data_blocks: Vec<EncryptedMacroBlock>,
    block_meta: Vec<BlockMeta>,
) -> (s: Stripe)
    requires
        data_blocks@.len() == block_meta@.len(),
        data_blocks@.len() <= config.data_shards,
        fit(data_blocks@),
    ensures
        s.wf(),
        s.config == config,
        s.data_blocks == data_blocks,
        s.block_meta == block_meta,
{
    let lengths = lengths_of(&data_blocks);
    proof {
        erasure_scan::law_longest_is_the_maximum(lengths@);
    }
    let m: u32 = max_length(lengths.as_slice());
    assert(m < u32::MAX);
    let shard_size: u32 = if m % 2 == 0 {
        m
    } else {
        m + 1
    };
    Stripe { config, data_blocks, block_meta, shard_size }
}

/// A layout can be used exactly where it has data shards and parity shards, at
/// most 255 together.
pub proof fn law_usable_layouts(c: ErasureCodeConfig)
    ensures
        config_fault(c) is None <==> c.data_shards >= 1 && c.parity_shards >= 1 && c.data_shards
            + c.parity_shards <= 255,
{
}

/// Every block of a stripe fits into a shard, whose size is even and no more than
/// one byte beyond the longest block.
pub proof fn law_blocks_fit_into_shards(s: Stripe, i: int)
    requires
        s.wf(),
        0 <= i < s.data_blocks@.len(),
    ensures
        s.data_blocks@[i].data@.len() <= s.shard_size,
        s.shard_size % 2 == 0,
        exists|k: int|
            0 <= k < s.data_blocks@.len() && s.shard_size <= (
            #[trigger] s.data_blocks@[k]).data@.len() + 1,
{
    let l = block_lengths(s.data_blocks@);
    erasure_scan::law_longest_is_the_maximum(l);
    assert(l[i] == s.data_blocks@[i].data@.len() as u32);
    assert(s.data_blocks@[i].data@.len() < u32::MAX);
    let k = choose|k: int| 0 <= k < l.len() && l[k] == erasure_scan::longest(l);
    assert(l[k] == s.data_blocks@[k].data@.len() as u32);
    assert(s.data_blocks@[k].data@.len() < u32::MAX);
    assert(s.shard_size <= s.data_blocks@[k].data@.len() + 1);
}

/// The lengths that are written down are those of the blocks.
pub proof fn law_lengths_are_those_of_the_blocks(blocks: Seq<EncryptedMacroBlock>, i: int)
    requires
        fit(blocks),
        0 <= i < blocks.len(),
    ensures
        block_lengths(blocks).len() == blocks.len(),
        block_lengths(blocks)[i] == blocks[i].data@.len(),
{
    assert(blocks[i].data@.len() < u32::MAX);
}

} // verus!

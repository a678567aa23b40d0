//! Walking stripes whose data shards are blocks of their own.
//!
//! Every data shard of a stripe is an encrypted block. A stripe is read from
//! the volumes as the distribution strategy says, damaged shards are recovered,
//! and each data shard is decoded; the blocks are handed out one by one.
use vstd::prelude::*;

use crate::block_iter::{BlockIterStats, DecodedBlock};
use crate::block_iter_erasure;
use crate::block_iter_erasure::{
    implied_volume_count, index_map, VerifiedShard, MAX_SHARD_SIZE,
};
use crate::erasure_scan;
use crate::erasure_scan::{
    normalize_data_lengths, padded_size, parity_bound_or_zero, reconcile_stripe_prefixes,
};
use crate::repair;
use crate::repair::{shard_is_intact, ShardRead};
use crate::repair_scan;
use crate::repair_scan::{agreed_shard_length, PendingShard};
use crate::shard_decode;
use crate::shard_decode::{report_first, FirstError, ShardOutcome};
use crate::types::{
    copy_bytes, EraError, ErasureCodeConfig, MatrixDistributionStrategy, ShardHeader,
    SHARD_HEADER_SIZE,
};

verus! {

/// What reading in front of a shard came to: the table, where it could be read,
/// and the header, where it could be read and parses.
#[derive(Debug)]
pub struct FrontReply {
    pub prefix: Option<Vec<u8>>,
    pub header: Option<ShardHeader>,
}

/// Where an iterator stands in a stripe.
#[derive(Debug, Clone, Copy, PartialEq, Eq, Structural)]
pub enum StripePhase {
    /// Between two stripes.
    Between,
    /// Collecting the copies of the length table.
    Collect,
    /// At what stands in front of a shard.
    Front,
    /// At the bytes of a shard.
    Data,
    /// All shards are read.
    Read,
    /// The data shards are being decoded.
    Decode,
}

/// What to read in front of the next shard.
#[derive(Debug, Clone, Copy, PartialEq, Eq, Structural)]
pub enum FrontSite {
    /// Nothing is there: reply with nothing.
    Nowhere,
    At { volume: usize, offset: u64 },
}

/// What a shard's front means.
#[derive(Debug, Clone, Copy, PartialEq, Eq, Structural)]
pub enum FrontVerdict {
    /// The parity shard is shorter than the stripe's parity length.
    ParityTooShort(u32),
    TooLarge,
    /// So many bytes are to be read.
    Readable(u32),
}

pub open spec fn front_verdict(
    agreed: Option<u32>,
    is_data: bool,
    header: ShardHeader,
    bound: u32,
) -> FrontVerdict {
    let n = match agreed {
        Some(a) => a,
        None => if !is_data && 0 < bound <= header.length {
            bound
        } else {
            header.length
        },
    };
    if agreed is None && !is_data && header.length < bound {
        FrontVerdict::ParityTooShort(bound)
    } else if n > MAX_SHARD_SIZE {
        FrontVerdict::TooLarge
    } else {
        FrontVerdict::Readable(n)
    }
}

pub fn judge_front(agreed: Option<u32>, is_data: bool, header: &ShardHeader, bound: u32) -> (v:
    FrontVerdict)
    ensures
        v == front_verdict(agreed, is_data, *header, bound),
{
    let n: u32 = match agreed {
        Some(a) => a,
        None => {
            if is_data {
                header.length
            } else {
                if bound > 0 && header.length < bound {
                    return FrontVerdict::ParityTooShort(bound);
                }
                if bound > 0 && header.length > bound {
                    bound
                } else {
                    header.length
                }
            }
        },
    };
    if n > MAX_SHARD_SIZE {
        FrontVerdict::TooLarge
    } else {
        FrontVerdict::Readable(n)
    }
}

/// What an iteration works on.
#[derive(Debug)]
pub struct StripeVolumes {
    pub layout: ErasureCodeConfig,
    pub strategy: MatrixDistributionStrategy,
    /// For each volume of the archive, the open volume that it is.
    pub vol_index_map: Vec<Option<usize>>,
    /// The end of the stripes of each open volume.
    pub ends: Vec<u64>,
}

impl StripeVolumes {
    pub open spec fn valid(&self) -> bool {
        &&& self.vol_index_map@.len() > 0
        &&& self.ends@.len() > 0
        &&& forall|i: int|
            0 <= i < self.vol_index_map@.len() ==> ((#[trigger] self.vol_index_map@[i]) matches Some(
                r,
            ) ==> r < self.ends@.len())
        &&& forall|i: int| 0 <= i < self.ends@.len() ==> #[trigger] self.ends@[i] <= i64::MAX
    }

    /// The volume of the archive that holds shard `shard` of stripe `stripe`.
    pub open spec fn volume(&self, shard: int, stripe: int) -> nat {
        self.strategy.volume_of(shard as nat, stripe as nat, self.vol_index_map@.len())
    }

    pub open spec fn reader(&self, shard: int, stripe: int) -> Option<usize> {
        self.vol_index_map@[self.volume(shard, stripe) as int]
    }

    fn reader_of(&self, shard: usize, stripe: u64) -> (r: Option<usize>)
        requires
            self.valid(),
        ensures
            r == self.reader(shard as int, stripe as int),
            r matches Some(v) ==> v < self.ends@.len(),
    {
        let v: usize = self.strategy.calculate_volume(shard, stripe, self.vol_index_map.len());
        self.vol_index_map[v]
    }
}

/// The state of an iteration within a stripe, as a value.
#[verifier::ext_equal]
pub struct StripeIterView {
    pub phase: StripePhase,
    pub stripe: int,
    pub offsets: Seq<u64>,
    pub probes: Seq<u64>,
    pub shard: int,
    pub copies: Seq<Vec<u8>>,
    pub lengths: Option<Seq<u32>>,
    pub pending: Option<PendingShard>,
    pub data_lengths: Seq<Option<u32>>,
    pub max_len: int,
    pub any_seen: bool,
    pub shards: Seq<VerifiedShard>,
    pub stats: BlockIterStats,
}

impl StripeIterView {
    /// At the start of a stripe.
    pub open spec fn begun(self, cx: &StripeVolumes) -> StripeIterView {
        StripeIterView {
            phase: StripePhase::Collect,
            probes: self.offsets,
            shard: 0,
            copies: Seq::empty(),
            lengths: None,
            pending: None,
            data_lengths: Seq::new(cx.layout.data_shards as nat, |i: int| None),
            max_len: 0,
            any_seen: false,
            shards: Seq::empty(),
            ..self
        }
    }

    pub open spec fn reader(self, cx: &StripeVolumes) -> Option<usize> {
        cx.reader(self.shard, self.stripe)
    }

    /// What lies in front of a shard and its length, as far as it can be used:
    /// the table has the right size, the header parses and is in range.
    pub open spec fn usable_copy(reply: FrontReply, cx: &StripeVolumes) -> bool {
        &&& reply.prefix matches Some(p)
        &&& p@.len() == cx.layout.prefix_len()
        &&& reply.header matches Some(h)
        &&& h.length <= MAX_SHARD_SIZE
    }

    /// A reply while copies are collected. A volume whose copy cannot be used
    /// is not read any further in this pass.
    pub open spec fn after_copy(self, cx: &StripeVolumes, reply: FrontReply) -> StripeIterView {
        let m = match self.reader(cx) {
            Some(r) => if self.probes[r as int] >= cx.ends@[r as int] {
                self
            } else if StripeIterView::usable_copy(reply, cx) {
                StripeIterView {
                    copies: self.copies.push(reply.prefix->0),
                    probes: self.probes.update(
                        r as int,
                        (self.probes[r as int] + cx.layout.prefix_len() + SHARD_HEADER_SIZE
                            + (reply.header->0).length) as u64,
                    ),
                    ..self
                }
            } else {
                StripeIterView {
                    probes: self.probes.update(r as int, cx.ends@[r as int]),
                    ..self
                }
            },
            None => self,
        };
        let n = StripeIterView { shard: self.shard + 1, ..m };
        if n.shard < cx.layout.total() {
            n
        } else {
            n.collected(cx)
        }
    }

    pub open spec fn collected(self, cx: &StripeVolumes) -> StripeIterView {
        StripeIterView {
            phase: if cx.layout.total() > 0 {
                StripePhase::Front
            } else {
                StripePhase::Read
            },
            shard: 0,
            lengths: erasure_scan::agreed_lengths(erasure_scan::contents(self.copies)),
            ..self
        }
    }

    /// Volume `r` moves on by a shard of `length` bytes.
    pub open spec fn moved(self, cx: &StripeVolumes, r: usize, length: u32) -> StripeIterView {
        StripeIterView {
            offsets: self.offsets.update(
                r as int,
                (self.offsets[r as int] + cx.layout.prefix_len() + SHARD_HEADER_SIZE
                    + length) as u64,
            ),
            ..self
        }
    }

    /// The shard at hand is done; after the last one the agreed table is taken
    /// into account.
    pub open spec fn past_shard(self, cx: &StripeVolumes) -> StripeIterView {
        let m = StripeIterView {
            phase: StripePhase::Front,
            pending: None,
            shard: self.shard + 1,
            ..self
        };
        if m.shard < cx.layout.total() {
            m
        } else {
            StripeIterView {
                phase: StripePhase::Read,
                data_lengths: match self.lengths {
                    Some(l) => erasure_scan::filled_lengths(self.data_lengths, l),
                    None => self.data_lengths,
                },
                max_len: match self.lengths {
                    Some(l) => if erasure_scan::longest(l) > self.max_len {
                        erasure_scan::longest(l)
                    } else {
                        self.max_len
                    },
                    None => self.max_len,
                },
                ..m
            }
        }
    }

    pub open spec fn one_damaged(self) -> StripeIterView {
        StripeIterView {
            stats: BlockIterStats {
                corrupted_shards: (self.stats.corrupted_shards + 1) as u32,
                ..self.stats
            },
            ..self
        }
    }

    /// The volume of the shard at hand is not read any further.
    pub open spec fn ended(self, cx: &StripeVolumes, r: usize) -> StripeIterView {
        StripeIterView { offsets: self.offsets.update(r as int, cx.ends@[r as int]), ..self }
    }

    pub open spec fn agreed(self, cx: &StripeVolumes) -> Option<u32> {
        repair_scan::agreed_length(self.lengths, self.shard, cx.layout.data_shards as int)
    }

    pub open spec fn judged(self, cx: &StripeVolumes, header: ShardHeader) -> FrontVerdict {
        front_verdict(
            self.agreed(cx),
            self.shard < cx.layout.data_shards,
            header,
            erasure_scan::padded_bound(self.lengths),
        )
    }

    /// A reply about what stands in front of the shard at hand.
    pub open spec fn after_front(self, cx: &StripeVolumes, reply: FrontReply) -> StripeIterView {
        match self.reader(cx) {
            None => self.past_shard(cx),
            Some(r) => if self.offsets[r as int] >= cx.ends@[r as int] {
                self.past_shard(cx)
            } else {
                match reply.prefix {
                    None => self.ended(cx, r).past_shard(cx),
                    Some(p) => if p@.len() != cx.layout.prefix_len() {
                        self.ended(cx, r).past_shard(cx)
                    } else {
                        let seen = StripeIterView { any_seen: true, ..self };
                        match reply.header {
                            None => seen.ended(cx, r).past_shard(cx),
                            Some(h) => match self.judged(cx, h) {
                                FrontVerdict::TooLarge => StripeIterView {
                                    phase: StripePhase::Between,
                                    ..seen
                                },
                                FrontVerdict::ParityTooShort(n) => seen.one_damaged().moved(
                                    cx,
                                    r,
                                    n,
                                ).past_shard(cx),
                                FrontVerdict::Readable(n) => seen.opened(cx, h, n),
                            },
                        }
                    },
                }
            },
        }
    }

    /// Whether the shard's length is out of range, which fails the stripe.
    pub open spec fn front_fails(self, cx: &StripeVolumes, reply: FrontReply) -> bool {
        &&& self.reader(cx) matches Some(r)
        &&& self.offsets[r as int] < cx.ends@[r as int]
        &&& reply.prefix matches Some(p)
        &&& p@.len() == cx.layout.prefix_len()
        &&& reply.header matches Some(h)
        &&& self.judged(cx, h) is TooLarge
    }

    pub open spec fn opened(self, cx: &StripeVolumes, header: ShardHeader, n: u32) -> StripeIterView {
        let own = match self.agreed(cx) {
            Some(a) => a,
            None => header.length,
        };
        StripeIterView {
            phase: StripePhase::Data,
            pending: Some(
                PendingShard { header, length: n, agreed: self.agreed(cx) is Some },
            ),
            data_lengths: if self.shard < self.data_lengths.len() {
                self.data_lengths.update(self.shard, Some(own))
            } else {
                self.data_lengths
            },
            max_len: if n > self.max_len {
                n as int
            } else {
                self.max_len
            },
            ..self
        }
    }

    /// A reply with the bytes of the shard at hand: intact and damaged shards
    /// are both kept, those that cannot be read are not.
    pub open spec fn after_data(self, cx: &StripeVolumes, read: Option<ShardRead>) -> StripeIterView {
        let p = self.pending->0;
        let r = self.reader(cx)->0;
        let m = match read {
            Some(d) => {
                let good = repair::intact(p.header, p.agreed, d);
                let k = StripeIterView {
                    shards: self.shards.push(
                        VerifiedShard {
                            index: self.shard as usize,
                            data: d.data,
                            expected_crc: p.header.crc,
                            crc_valid: good,
                        },
                    ),
                    ..self
                };
                if good {
                    k
                } else {
                    k.one_damaged()
                }
            },
            None => self,
        };
        m.moved(cx, r, p.length).past_shard(cx)
    }
}

/// What follows a stripe whose shards are all read.
#[derive(Debug)]
pub enum StripeStep {
    /// Nothing was there: the iteration is over.
    End,
    /// The stripe is reported as failed.
    Fail(EraError),
    /// The data shards are to be recovered from the intact shards, padded to
    /// `shard_size`.
    Recover { slots: Vec<Option<Vec<u8>>>, shard_size: u64 },
}

/// The blocks of an archive, stripe by stripe.
#[derive(Debug)]
pub struct SessionErasureBlockIterator {
    pub cx: StripeVolumes,
    pub phase: StripePhase,
    pub stripe: u64,
    pub offsets: Vec<u64>,
    pub probes: Vec<u64>,
    pub shard: usize,
    pub copies: Vec<Vec<u8>>,
    pub lengths: Option<Vec<u32>>,
    pub pending: Option<PendingShard>,
    pub data_lengths: Vec<Option<u32>>,
    pub max_len: usize,
    pub any_seen: bool,
    pub shards: Vec<VerifiedShard>,
    pub stats: BlockIterStats,
    pub block_index: u32,
    /// Blocks of the current stripe that were not handed out yet.
    pub pending_blocks: Vec<Result<DecodedBlock, EraError>>,
}

impl View for SessionErasureBlockIterator {
    type V = StripeIterView;

    open spec fn view(&self) -> StripeIterView {
        StripeIterView {
            phase: self.phase,
            stripe: self.stripe as int,
            offsets: self.offsets@,
            probes: self.probes@,
            shard: self.shard as int,
            copies: self.copies@,
            lengths: erasure_scan::lengths_view(self.lengths),
            pending: self.pending,
            data_lengths: self.data_lengths@,
            max_len: self.max_len as int,
            any_seen: self.any_seen,
            shards: self.shards@,
            stats: self.stats,
        }
    }
}

/// The damaged ones among shards.
pub open spec fn damaged_count(shards: Seq<VerifiedShard>) -> nat
    decreases shards.len(),
{
    if shards.len() == 0 {
        0
    } else {
        damaged_count(shards.drop_last()) + if shards.last().crc_valid {
            0nat
        } else {
            1nat
        }
    }
}

fn copy_offsets(v: &Vec<u64>) -> (r: Vec<u64>)
    ensures
        r@ == v@,
{
    let mut r: Vec<u64> = Vec::new();
    let mut i: usize = 0;
    while i < v.len()
        invariant
            i <= v.len(),
            r@ == v@.take(i as int),
        decreases v.len() - i,
    {
        r.push(v[i]);
        assert(v@.take(i + 1) =~= v@.take(i as int).push(v@[i as int]));
        i = i + 1;
    }
    assert(v@.take(v.len() as int) =~= v@);
    r
}

impl SessionErasureBlockIterator {
    pub open spec fn frame(&self) -> bool {
        &&& self.cx.valid()
        &&& self.offsets@.len() == self.cx.ends@.len()
        &&& self.phase != StripePhase::Between ==> {
            &&& self.probes@.len() == self.cx.ends@.len()
            &&& self.data_lengths@.len() == self.cx.layout.data_shards
            &&& self.max_len <= u32::MAX
            &&& self.shards@.len() <= self.cx.layout.total()
            &&& forall|k: int|
                0 <= k < self.shards@.len() ==> (#[trigger] self.shards@[k]).index
                    < self.cx.layout.total()
        }
    }

    pub open spec fn wf(&self) -> bool {
        let total = self.cx.layout.total();
        &&& self.frame()
        &&& match self.phase {
            StripePhase::Between => true,
            StripePhase::Collect => self.shard < total && self.shards@.len() == 0,
            StripePhase::Front => self.shard < total && self.shards@.len() <= self.shard,
            StripePhase::Data => {
                &&& self.shard < total
                &&& self.shards@.len() <= self.shard
                &&& self.pending is Some
                &&& self@.reader(&self.cx) matches Some(r) && self.offsets@[r as int]
                    < self.cx.ends@[r as int]
            },
            StripePhase::Read => true,
            StripePhase::Decode => true,
        }
    }

    /// An iterator over open volumes whose numbers in the archive are
    /// `volume_indices`. The archive has `original_volume_count` volumes, or as
    /// many as the numbers imply.
    pub fn new(
        offsets: Vec<u64>,
        ends: Vec<u64>,
        volume_indices: &Vec<usize>,
        original_volume_count: usize,
        layout: ErasureCodeConfig,
        strategy: MatrixDistributionStrategy,
    ) -> (r: Result<Self, EraError>)
        requires
            offsets@.len() == ends@.len(),
            forall|i: int| 0 <= i < ends@.len() ==> #[trigger] ends@[i] <= i64::MAX,
            forall|k: int|
                0 <= k < volume_indices@.len() ==> #[trigger] volume_indices@[k] < usize::MAX,
        ensures
            offsets@.len() == 0 ==> (r matches Err(EraError::InvalidFormat(m)) && m@
                == "No volume readers provided"@),
            offsets@.len() > 0 && offsets@.len() != volume_indices@.len() ==> (r matches Err(
                EraError::InvalidFormat(m),
            ) && m@ == "volume_readers and volume_indices length mismatch"@),
            offsets@.len() > 0 && offsets@.len() == volume_indices@.len() ==> {
                &&& r matches Ok(it)
                &&& it.wf()
                &&& it.phase == StripePhase::Between
                &&& it.stripe == 0
                &&& it.block_index == 0
                &&& it.offsets == offsets
                &&& it.cx.ends == ends
                &&& it.cx.layout == layout
                &&& it.cx.strategy == strategy
                &&& it.pending_blocks@.len() == 0
                &&& it.stats == (BlockIterStats {
                    blocks_read: 0,
                    blocks_failed: 0,
                    corrupted_shards: 0,
                })
                &&& it.cx.vol_index_map@.len() == (if original_volume_count
                    > block_iter_erasure::count_from(volume_indices@) {
                    original_volume_count as int
                } else {
                    block_iter_erasure::count_from(volume_indices@)
                })
                &&& forall|v: int|
                    0 <= v < it.cx.vol_index_map@.len() ==> #[trigger] it.cx.vol_index_map@[v]
                        == block_iter_erasure::position_of(
                        volume_indices@,
                        v,
                        volume_indices@.len() as int,
                    )
            },
    {
        if offsets.len() == 0 {
            return Err(EraError::InvalidFormat(String::from_str("No volume readers provided")));
        }
        if offsets.len() != volume_indices.len() {
            return Err(
                EraError::InvalidFormat(
                    String::from_str("volume_readers and volume_indices length mismatch"),
                ),
            );
        }
        let implied: usize = implied_volume_count(volume_indices);
        proof {
            block_iter_erasure::lemma_count_from(volume_indices@);
        }
        let count: usize = if original_volume_count > implied {
            original_volume_count
        } else {
            implied
        };
        let vol_index_map = index_map(volume_indices, count);
        let probes: Vec<u64> = Vec::new();
        Ok(
            SessionErasureBlockIterator {
                cx: StripeVolumes { layout, strategy, vol_index_map, ends },
                phase: StripePhase::Between,
                stripe: 0,
                offsets,
                probes,
                shard: 0,
                copies: Vec::new(),
                lengths: None,
                pending: None,
                data_lengths: Vec::new(),
                max_len: 0,
                any_seen: false,
                shards: Vec::new(),
                stats: BlockIterStats::default(),
                block_index: 0,
                pending_blocks: Vec::new(),
            },
        )
    }

    /// What the steps within a stripe leave alone.
    pub open spec fn same_blocks(&self, from: SessionErasureBlockIterator) -> bool {
        &&& self.cx == from.cx
        &&& self.block_index == from.block_index
        &&& self.pending_blocks == from.pending_blocks
    }

    /// Hands out the next block of the stripe that was decoded last.
    pub fn take_pending(&mut self) -> (r: Option<Result<DecodedBlock, EraError>>)
        requires
            old(self).wf(),
        ensures
            final(self).wf(),
            final(self).cx == old(self).cx,
            final(self)@ == old(self)@,
            final(self).block_index == old(self).block_index,
            old(self).pending_blocks@.len() == 0 ==> r is None && final(self).pending_blocks
                == old(self).pending_blocks,
            old(self).pending_blocks@.len() > 0 ==> r == Some(old(self).pending_blocks@[0])
                && final(self).pending_blocks@ == old(self).pending_blocks@.drop_first(),
    {
        if self.pending_blocks.len() == 0 {
            return None;
        }
        let b = self.pending_blocks.remove(0);
        assert(self.pending_blocks@ =~= old(self).pending_blocks@.drop_first());
        Some(b)
    }

    /// Starts the next stripe.
    pub fn begin_stripe(&mut self)
        requires
            old(self).wf(),
            old(self).phase == StripePhase::Between,
            old(self).cx.layout.total() > 0,
        ensures
            final(self).wf(),
            final(self).same_blocks(*old(self)),
            final(self)@ == old(self)@.begun(&old(self).cx),
    {
        self.probes = copy_offsets(&self.offsets);
        self.shard = 0;
        self.copies = Vec::new();
        self.lengths = None;
        self.pending = None;
        let mut data_lengths: Vec<Option<u32>> = Vec::new();
        let data: usize = self.cx.layout.data_shards as usize;
        let mut j: usize = 0;
        while j < data
            invariant
                j <= data,
                data_lengths@ == Seq::new(j as nat, |i: int| None::<u32>),
            decreases data - j,
        {
            data_lengths.push(None);
            assert(data_lengths@ =~= Seq::new((j + 1) as nat, |i: int| None::<u32>));
            j = j + 1;
        }
        self.data_lengths = data_lengths;
        self.max_len = 0;
        self.any_seen = false;
        self.shards = Vec::new();
        self.phase = StripePhase::Collect;
        assert(self@ =~= old(self)@.begun(&old(self).cx));
    }

    /// Where to read in front of the next shard.
    pub fn front_site(&self) -> (s: FrontSite)
        requires
            self.wf(),
            self.phase == StripePhase::Collect || self.phase == StripePhase::Front,
        ensures
            s == (match self@.reader(&self.cx) {
                Some(r) => {
                    let at = if self.phase == StripePhase::Collect {
                        self.probes@[r as int]
                    } else {
                        self.offsets@[r as int]
                    };
                    if at < self.cx.ends@[r as int] {
                        FrontSite::At { volume: r, offset: at }
                    } else {
                        FrontSite::Nowhere
                    }
                },
                None => FrontSite::Nowhere,
            }),
    {
        match self.cx.reader_of(self.shard, self.stripe) {
            Some(r) => {
                let at: u64 = match self.phase {
                    StripePhase::Collect => self.probes[r],
                    _ => self.offsets[r],
                };
                if at < self.cx.ends[r] {
                    FrontSite::At { volume: r, offset: at }
                } else {
                    FrontSite::Nowhere
                }
            },
            None => FrontSite::Nowhere,
        }
    }

    fn collect_copy(&mut self, reply: FrontReply)
        requires
            old(self).wf(),
            old(self).phase == StripePhase::Collect,
        ensures
            final(self).wf(),
            final(self).same_blocks(*old(self)),
            final(self)@ == old(self)@.after_copy(&old(self).cx, reply),
    {
        let prefix_len: usize = self.cx.layout.prefix_bytes();
        if let Some(r) = self.cx.reader_of(self.shard, self.stripe) {
            assert(self.cx.ends@[r as int] <= i64::MAX);
            if self.probes[r] < self.cx.ends[r] {
                let mut to: u64 = self.cx.ends[r];
                if let Some(p) = reply.prefix {
                    if let Some(h) = reply.header {
                        if p.len() == prefix_len && h.length <= MAX_SHARD_SIZE {
                            self.copies.push(p);
                            to = self.probes[r] + prefix_len as u64 + SHARD_HEADER_SIZE
                                + h.length as u64;
                        }
                    }
                }
                self.probes.set(r, to);
            }
        }
        self.shard = self.shard + 1;
        if self.shard >= self.cx.layout.total_shards() {
            self.lengths = reconcile_stripe_prefixes(
                self.copies.as_slice(),
                self.cx.layout.data_shards as usize,
            );
            self.phase = StripePhase::Front;
            self.shard = 0;
        }
        assert(self@ =~= old(self)@.after_copy(&old(self).cx, reply));
    }

    fn pass_shard(&mut self)
        requires
            old(self).frame(),
            old(self).phase == StripePhase::Front || old(self).phase == StripePhase::Data,
            old(self).shard < old(self).cx.layout.total(),
            old(self).shards@.len() <= old(self).shard + 1,
        ensures
            final(self).wf(),
            final(self).same_blocks(*old(self)),
            final(self)@ == old(self)@.past_shard(&old(self).cx),
    {
        self.pending = None;
        self.phase = StripePhase::Front;
        self.shard = self.shard + 1;
        if self.shard >= self.cx.layout.total_shards() {
            let table: Option<&[u32]> = match &self.lengths {
                Some(l) => Some(l.as_slice()),
                None => None,
            };
            normalize_data_lengths(&mut self.data_lengths, table, &mut self.max_len);
            proof {
                match old(self)@.lengths {
                    Some(l) => erasure_scan::law_longest_is_the_maximum(l),
                    None => {},
                }
            }
            self.phase = StripePhase::Read;
        }
        assert(self@ =~= old(self)@.past_shard(&old(self).cx));
    }

    fn move_volume(&mut self, r: usize, length: u32)
        requires
            old(self).frame(),
            r < old(self).offsets@.len(),
            old(self).offsets@[r as int] < old(self).cx.ends@[r as int],
        ensures
            final(self).frame(),
            final(self).same_blocks(*old(self)),
            final(self)@ == old(self)@.moved(&old(self).cx, r, length),
    {
        assert(self.cx.ends@[r as int] <= i64::MAX);
        let to: u64 = self.offsets[r] + self.cx.layout.prefix_bytes() as u64 + SHARD_HEADER_SIZE
            + length as u64;
        self.offsets.set(r, to);
        assert(self@ =~= old(self)@.moved(&old(self).cx, r, length));
    }

    /// Takes what stands in front of the next shard. Fails where the shard
    /// announces an impossible length.
    pub fn on_front(&mut self, reply: FrontReply) -> (res: Result<(), EraError>)
        requires
            old(self).wf(),
            old(self).phase == StripePhase::Collect || old(self).phase == StripePhase::Front,
            old(self).stats.room(1),
        ensures
            final(self).wf(),
            final(self).same_blocks(*old(self)),
            old(self).phase == StripePhase::Collect ==> res is Ok && final(self)@
                == old(self)@.after_copy(&old(self).cx, reply),
            old(self).phase == StripePhase::Front ==> final(self)@ == old(self)@.after_front(
                &old(self).cx,
                reply,
            ),
            old(self).phase == StripePhase::Front ==> if old(self)@.front_fails(
                &old(self).cx,
                reply,
            ) {
                res matches Err(EraError::InvalidFormat(m)) && m@ == "Shard size exceeds maximum"@
            } else {
                res is Ok
            },
    {
        let collecting = match self.phase {
            StripePhase::Collect => true,
            _ => false,
        };
        if collecting {
            self.collect_copy(reply);
            return Ok(());
        }
        let prefix_len: usize = self.cx.layout.prefix_bytes();
        let r: usize = match self.cx.reader_of(self.shard, self.stripe) {
            Some(r) => r,
            None => {
                self.pass_shard();
                return Ok(());
            },
        };
        if self.offsets[r] >= self.cx.ends[r] {
            self.pass_shard();
            return Ok(());
        }
        let whole = match &reply.prefix {
            Some(p) => p.len() == prefix_len,
            None => false,
        };
        let end: u64 = self.cx.ends[r];
        if !whole {
            self.offsets.set(r, end);
            assert(self@ =~= old(self)@.ended(&old(self).cx, r));
            self.pass_shard();
            return Ok(());
        }
        self.any_seen = true;
        let h = match reply.header {
            Some(h) => h,
            None => {
                self.offsets.set(r, end);
                self.pass_shard();
                return Ok(());
            },
        };
        let data: usize = self.cx.layout.data_shards as usize;
        let agreed: Option<u32> = agreed_shard_length(&self.lengths, self.shard, data);
        let bound: u32 = parity_bound_or_zero(&self.lengths);
        match judge_front(agreed, self.shard < data, &h, bound) {
            FrontVerdict::TooLarge => {
                self.phase = StripePhase::Between;
                Err(EraError::InvalidFormat(String::from_str("Shard size exceeds maximum")))
            },
            FrontVerdict::ParityTooShort(n) => {
                self.stats.corrupted_shards = self.stats.corrupted_shards + 1;
                self.move_volume(r, n);
                self.pass_shard();
                Ok(())
            },
            FrontVerdict::Readable(n) => {
                let own: u32 = match agreed {
                    Some(a) => a,
                    None => h.length,
                };
                if self.shard < self.data_lengths.len() {
                    self.data_lengths.set(self.shard, Some(own));
                }
                if n as usize > self.max_len {
                    self.max_len = n as usize;
                }
                self.pending = Some(
                    PendingShard { header: h, length: n, agreed: agreed.is_some() },
                );
                self.phase = StripePhase::Data;
                Ok(())
            },
        }
    }

    /// The bytes of the shard at hand: volume, offset and length.
    pub fn data_site(&self) -> (s: (usize, u64, u32))
        requires
            self.wf(),
            self.phase == StripePhase::Data,
        ensures
            ({
                let r = self@.reader(&self.cx)->0;
                s == (
                    r,
                    (self.offsets@[r as int] + self.cx.layout.prefix_len()
                        + SHARD_HEADER_SIZE) as u64,
                    (self.pending->0).length,
                )
            }),
    {
        match (self.cx.reader_of(self.shard, self.stripe), self.pending) {
            (Some(r), Some(p)) => {
                assert(self.cx.ends@[r as int] <= i64::MAX);
                (
                    r,
                    self.offsets[r] + self.cx.layout.prefix_bytes() as u64 + SHARD_HEADER_SIZE,
                    p.length,
                )
            },
            _ => (0, 0, 0),
        }
    }

    /// Takes the bytes of the shard at hand with their checksum; `None` where
    /// they cannot be read.
    pub fn on_data(&mut self, read: Option<ShardRead>)
        requires
            old(self).wf(),
            old(self).phase == StripePhase::Data,
            old(self).stats.room(1),
        ensures
            final(self).wf(),
            final(self).same_blocks(*old(self)),
            final(self)@ == old(self)@.after_data(&old(self).cx, read),
    {
        let (r, p) = match (self.cx.reader_of(self.shard, self.stripe), self.pending) {
            (Some(r), Some(p)) => (r, p),
            _ => return ,
        };
        if let Some(d) = read {
            let good = shard_is_intact(&p.header, p.agreed, &d);
            if !good {
                self.stats.corrupted_shards = self.stats.corrupted_shards + 1;
            }
            self.shards.push(
                VerifiedShard {
                    index: self.shard,
                    data: d.data,
                    expected_crc: p.header.crc,
                    crc_valid: good,
                },
            );
        }
        self.move_volume(r, p.length);
        self.pass_shard();
    }

    /// After the last shard of a stripe. Where no shard has a length, the
    /// iteration is over, or fails if anything was seen of the stripe.
    pub fn conclude(&mut self) -> (step: StripeStep)
        requires
            old(self).wf(),
            old(self).phase == StripePhase::Read,
        ensures
            final(self).wf(),
            final(self).same_blocks(*old(self)),
            if old(self).max_len == 0 {
                &&& final(self)@ == (StripeIterView {
                    phase: StripePhase::Between,
                    ..old(self)@
                })
                &&& if old(self).any_seen {
                    step matches StripeStep::Fail(EraError::ErasureError(m)) && m@
                        == "Unexpected EOF while reading stripe"@
                } else {
                    step is End
                }
            } else {
                &&& final(self)@ == (StripeIterView { phase: StripePhase::Decode, ..old(self)@ })
                &&& step matches StripeStep::Recover { slots, shard_size }
                &&& shard_size == erasure_scan::even_up(old(self).max_len as int)
                &&& slots@.len() == old(self).cx.layout.total()
                &&& forall|i: int|
                    0 <= i < slots@.len() ==> slot_holds(
                        #[trigger] slots@[i],
                        old(self).shards@,
                        i,
                        old(self).shards@.len() as int,
                    )
            },
    {
        if self.max_len == 0 {
            self.phase = StripePhase::Between;
            if self.any_seen {
                return StripeStep::Fail(
                    EraError::ErasureError(
                        String::from_str("Unexpected EOF while reading stripe"),
                    ),
                );
            }
            return StripeStep::End;
        }
        let slots = valid_slots(&self.shards, self.cx.layout.total_shards());
        let shard_size: u64 = padded_size(self.max_len as u64);
        self.phase = StripePhase::Decode;
        StripeStep::Recover { slots, shard_size }
    }

    /// The damaged shards of the stripe, as each of its blocks reports them.
    pub fn damaged_shards(&self) -> (n: usize)
        ensures
            n == damaged_count(self.shards@),
    {
        let mut n: usize = 0;
        let mut i: usize = 0;
        while i < self.shards.len()
            invariant
                i <= self.shards@.len(),
                n <= i,
                n == damaged_count(self.shards@.take(i as int)),
            decreases self.shards@.len() - i,
        {
            assert(self.shards@.take(i + 1).drop_last() =~= self.shards@.take(i as int));
            if !self.shards[i].crc_valid {
                n = n + 1;
            }
            i = i + 1;
        }
        assert(self.shards@.take(i as int) =~= self.shards@);
        n
    }

    /// The stripe cannot be decoded at all: no coder for its layout.
    pub fn on_no_coder(&mut self)
        requires
            old(self).wf(),
            old(self).phase == StripePhase::Decode,
        ensures
            final(self).wf(),
            final(self).same_blocks(*old(self)),
            final(self)@ == (StripeIterView { phase: StripePhase::Between, ..old(self)@ }),
    {
        self.phase = StripePhase::Between;
    }

    /// The data shards could not be recovered: each block of the stripe fails
    /// with the given reason.
    pub fn on_unrecoverable(&mut self, why: &str)
        requires
            old(self).wf(),
            old(self).phase == StripePhase::Decode,
            old(self).stats.room(1024),
            old(self).block_index <= u32::MAX - 1024,
            old(self).stripe < u64::MAX,
            old(self).pending_blocks@.len() == 0,
        ensures
            final(self).wf(),
            final(self).cx == old(self).cx,
            final(self).phase == StripePhase::Between,
            final(self).stripe == old(self).stripe + 1,
            final(self).offsets == old(self).offsets,
            final(self).block_index == old(self).block_index + old(self).cx.layout.data_shards,
            final(self).stats == (BlockIterStats {
                blocks_failed: (old(self).stats.blocks_failed
                    + old(self).cx.layout.data_shards) as u32,
                ..old(self).stats
            }),
            final(self).pending_blocks@.len() == old(self).cx.layout.data_shards,
            forall|i: int|
                0 <= i < final(self).pending_blocks@.len() ==> ((
                #[trigger] final(self).pending_blocks@[i]) matches Err(EraError::ErasureError(m))
                    && m@ == why@),
    {
        let data: u8 = self.cx.layout.data_shards;
        let mut i: u8 = 0;
        while i < data
            invariant
                i <= data,
                data == self.cx.layout.data_shards,
                self.wf(),
                self.cx == old(self).cx,
                self.phase == StripePhase::Decode,
                self.stripe == old(self).stripe,
                self.offsets == old(self).offsets,
                old(self).stats.room(1024),
                old(self).block_index <= u32::MAX - 1024,
                self.block_index == old(self).block_index + i,
                self.stats == (BlockIterStats {
                    blocks_failed: (old(self).stats.blocks_failed + i) as u32,
                    ..old(self).stats
                }),
                self.pending_blocks@.len() == i,
                forall|k: int|
                    0 <= k < self.pending_blocks@.len() ==> ((
                    #[trigger] self.pending_blocks@[k]) matches Err(EraError::ErasureError(m))
                        && m@ == why@),
            decreases data - i,
        {
            self.pending_blocks.push(Err(EraError::ErasureError(String::from_str(why))));
            self.stats.blocks_failed = self.stats.blocks_failed + 1;
            self.block_index = self.block_index + 1;
            i = i + 1;
        }
        self.stripe = self.stripe + 1;
        self.phase = StripePhase::Between;
    }

    /// The number of the block in data shard `i` of the stripe, and the volume
    /// that it belongs to.
    pub fn block_place(&self, i: usize) -> (r: (u32, usize))
        requires
            self.wf(),
            i < self.cx.layout.data_shards,
            self.stripe * self.cx.layout.data_shards + i <= u32::MAX,
        ensures
            r.0 == self.stripe * self.cx.layout.data_shards + i,
            r.1 == self.cx.volume(i as int, self.stripe as int),
    {
        let data: u64 = self.cx.layout.data_shards as u64;
        assert(0 <= self.stripe * self.cx.layout.data_shards) by (nonlinear_arith);
        let n: u64 = self.stripe * data + i as u64;
        (
            n as u32,
            self.cx.strategy.calculate_volume(i, self.stripe, self.cx.vol_index_map.len()),
        )
    }

    /// Takes what came of the data shard at hand and queues its block.
    pub fn on_shard(&mut self, block: u32, outcome: ShardOutcome, first_error: FirstError)
        requires
            old(self).wf(),
            old(self).phase == StripePhase::Decode,
            old(self).stats.room(2),
            old(self).block_index < u32::MAX,
            outcome !is Undecided,
        ensures
            final(self).wf(),
            final(self).cx == old(self).cx,
            final(self).phase == StripePhase::Decode,
            final(self).stripe == old(self).stripe,
            final(self).offsets == old(self).offsets,
            final(self).shards == old(self).shards,
            final(self).data_lengths == old(self).data_lengths,
            final(self).max_len == old(self).max_len,
            final(self).block_index == old(self).block_index + 1,
            final(self).pending_blocks@.len() == old(self).pending_blocks@.len() + 1,
            final(self).pending_blocks@.drop_last() == old(self).pending_blocks@,
            block_reports(
                final(self).pending_blocks@.last(),
                block,
                outcome,
                first_error,
                damaged_count(old(self).shards@),
            ),
            final(self).stats == outcome_stats(old(self).stats, outcome),
    {
        let damaged: usize = self.damaged_shards();
        match outcome {
            ShardOutcome::Decoded { chunks, recoded } => {
                if recoded {
                    self.stats.corrupted_shards = self.stats.corrupted_shards + 1;
                }
                self.stats.blocks_read = self.stats.blocks_read + 1;
                self.pending_blocks.push(
                    Ok(DecodedBlock { block_index: block, chunks, corrupted_shards: damaged }),
                );
            },
            ShardOutcome::Empty { recoded } => {
                if recoded {
                    self.stats.corrupted_shards = self.stats.corrupted_shards + 1;
                }
                self.stats.blocks_read = self.stats.blocks_read + 1;
                self.pending_blocks.push(
                    Ok(
                        DecodedBlock {
                            block_index: block,
                            chunks: Vec::new(),
                            corrupted_shards: damaged,
                        },
                    ),
                );
            },
            _ => {
                self.stats.blocks_failed = self.stats.blocks_failed + 1;
                self.pending_blocks.push(Err(report_first(first_error, block)));
            },
        }
        self.block_index = self.block_index + 1;
        assert(self.pending_blocks@.drop_last() =~= old(self).pending_blocks@);
    }

    /// All data shards of the stripe are done.
    pub fn end_stripe(&mut self)
        requires
            old(self).wf(),
            old(self).phase == StripePhase::Decode,
            old(self).stripe < u64::MAX,
        ensures
            final(self).wf(),
            final(self).same_blocks(*old(self)),
            final(self)@ == (StripeIterView {
                phase: StripePhase::Between,
                stripe: old(self).stripe + 1,
                ..old(self)@
            }),
    {
        self.stripe = self.stripe + 1;
        self.phase = StripePhase::Between;
    }

    /// Whether there are more blocks to read: one is queued, or an open volume
    /// is not done.
    pub fn has_more(&self) -> (r: bool)
        requires
            self.wf(),
        ensures
            r == (self.pending_blocks@.len() > 0 || exists|i: int|
                0 <= i < self.offsets@.len() && #[trigger] self.offsets@[i] < self.cx.ends@[i]),
    {
        if self.pending_blocks.len() > 0 {
            return true;
        }
        let mut i: usize = 0;
        while i < self.offsets.len()
            invariant
                self.wf(),
                i <= self.offsets@.len(),
                forall|k: int|
                    0 <= k < i ==> #[trigger] self.offsets@[k] >= self.cx.ends@[k],
            decreases self.offsets@.len() - i,
        {
            if self.offsets[i] < self.cx.ends[i] {
                return true;
            }
            i = i + 1;
        }
        false
    }

    pub fn stats(&self) -> (r: &BlockIterStats)
        ensures
            *r == self.stats,
    {
        &self.stats
    }
}

/// How a shard's outcome counts. A shard that had to be recovered without its
/// own copy counts as damaged.
pub open spec fn outcome_stats(s: BlockIterStats, outcome: ShardOutcome) -> BlockIterStats {
    match outcome {
        ShardOutcome::Decoded { recoded, .. } => BlockIterStats {
            blocks_read: (s.blocks_read + 1) as u32,
            corrupted_shards: (s.corrupted_shards + if recoded {
                1int
            } else {
                0
            }) as u32,
            ..s
        },
        ShardOutcome::Empty { recoded } => BlockIterStats {
            blocks_read: (s.blocks_read + 1) as u32,
            corrupted_shards: (s.corrupted_shards + if recoded {
                1int
            } else {
                0
            }) as u32,
            ..s
        },
        _ => s.one_failed(),
    }
}

/// The block that a shard's outcome is handed out as.
pub open spec fn block_reports(
    b: Result<DecodedBlock, EraError>,
    block: u32,
    outcome: ShardOutcome,
    first: FirstError,
    damaged: nat,
) -> bool {
    match outcome {
        ShardOutcome::Decoded { chunks, .. } => b matches Ok(d) && d.block_index == block
            && d.chunks == chunks && d.corrupted_shards == damaged,
        ShardOutcome::Empty { .. } => b matches Ok(d) && d.block_index == block && d.chunks@.len()
            == 0 && d.corrupted_shards == damaged,
        _ => b matches Err(e) && shard_decode::reported(e, first, block),
    }
}

/// What a slot holds for position `i`: the last intact shard of that position
/// among the first `n`, if there is one.
pub open spec fn slot_holds(
    slot: Option<Vec<u8>>,
    shards: Seq<VerifiedShard>,
    i: int,
    n: int,
) -> bool
    decreases n,
{
    if n <= 0 {
        slot is None
    } else if shards[n - 1].index == i && shards[n - 1].crc_valid {
        slot matches Some(d) && d@ == shards[n - 1].data@
    } else {
        slot_holds(slot, shards, i, n - 1)
    }
}

/// The intact shards by position.
fn valid_slots(shards: &Vec<VerifiedShard>, total: usize) -> (slots: Vec<Option<Vec<u8>>>)
    requires
        forall|k: int| 0 <= k < shards@.len() ==> (#[trigger] shards@[k]).index < total,
    ensures
        slots@.len() == total,
        forall|i: int|
            0 <= i < total ==> slot_holds(
                #[trigger] slots@[i],
                shards@,
                i,
                shards@.len() as int,
            ),
{
    let mut slots: Vec<Option<Vec<u8>>> = Vec::new();
    let mut i: usize = 0;
    while i < total
        invariant
            i <= total,
            slots@.len() == i,
            forall|k: int| 0 <= k < i ==> (#[trigger] slots@[k]) is None,
        decreases total - i,
    {
        slots.push(None);
        i = i + 1;
    }
    let mut k: usize = 0;
    while k < shards.len()
        invariant
            k <= shards@.len(),
            slots@.len() == total,
            forall|k: int| 0 <= k < shards@.len() ==> (#[trigger] shards@[k]).index < total,
            forall|i: int|
                0 <= i < total ==> slot_holds(#[trigger] slots@[i], shards@, i, k as int),
        decreases shards@.len() - k,
    {
        let at: usize = shards[k].index;
        assert(shards@[k as int].index < total);
        if shards[k].crc_valid {
            let d = copy_bytes(shards[k].data.as_slice());
            slots.set(at, Some(d));
        }
        k = k + 1;
    }
    slots
}

/// Of one stripe, every block has a number of its own, and the numbers of
/// consecutive stripes follow each other.
pub proof fn law_block_numbers_are_consecutive(stripe: int, data_shards: int, i: int)
    requires
        0 <= i < data_shards,
        0 <= stripe,
    ensures
        stripe * data_shards + i < (stripe + 1) * data_shards,
        (stripe + 1) * data_shards + 0 == stripe * data_shards + data_shards,
{
    assert((stripe + 1) * data_shards == stripe * data_shards + data_shards) by (nonlinear_arith);
}

/// Every shard counts either as intact or as damaged.
pub proof fn law_shards_are_intact_or_damaged(shards: Seq<VerifiedShard>)
    ensures
        damaged_count(shards) + block_iter_erasure::valid_shards(shards).len() == shards.len(),
    decreases shards.len(),
{
    if shards.len() > 0 {
        law_shards_are_intact_or_damaged(shards.drop_last());
    }
}

/// Each outcome counts as one block, read where it could be decoded or holds nothing and
/// failed otherwise. Only one that was recovered without its own copy counts as damaged.
pub proof fn law_every_outcome_counts_once(s: BlockIterStats, outcome: ShardOutcome)
    requires
        s.blocks_read < u32::MAX,
        s.blocks_failed < u32::MAX,
        s.corrupted_shards < u32::MAX,
    ensures
        ({
            let t = outcome_stats(s, outcome);
            &&& t.blocks_read + t.blocks_failed == s.blocks_read + s.blocks_failed + 1
            &&& t.blocks_read > s.blocks_read <==> outcome is Decoded || outcome is Empty
            &&& t.corrupted_shards - s.corrupted_shards == match outcome {
                ShardOutcome::Decoded { recoded, .. } => if recoded {
                    1int
                } else {
                    0
                },
                ShardOutcome::Empty { recoded } => if recoded {
                    1int
                } else {
                    0
                },
                _ => 0,
            }
        }),
{
}

/// A position holds the bytes of an intact shard with its number, the last of them, and is
/// empty exactly where there is none.
pub proof fn law_slots_hold_intact_shards(
    slot: Option<Vec<u8>>,
    shards: Seq<VerifiedShard>,
    i: int,
    n: int,
    k: int,
)
    requires
        0 <= k < n <= shards.len(),
        slot_holds(slot, shards, i, n),
        shards[k].index == i,
        shards[k].crc_valid,
        forall|l: int| k < l < n ==> !((#[trigger] shards[l]).index == i && shards[l].crc_valid),
    ensures
        slot matches Some(d) && d@ == shards[k].data@,
    decreases n,
{
    if k < n - 1 {
        assert(!(shards[n - 1].index == i && shards[n - 1].crc_valid));
        law_slots_hold_intact_shards(slot, shards, i, n - 1, k);
    }
}

/// Without an intact shard of its number a position is empty.
pub proof fn law_slots_without_shards_are_empty(
    slot: Option<Vec<u8>>,
    shards: Seq<VerifiedShard>,
    i: int,
    n: int,
)
    requires
        n <= shards.len(),
        slot_holds(slot, shards, i, n),
        forall|l: int| 0 <= l < n ==> !((#[trigger] shards[l]).index == i && shards[l].crc_valid),
    ensures
        slot is None,
    decreases n,
{
    if n > 0 {
        assert(!(shards[n - 1].index == i && shards[n - 1].crc_valid));
        law_slots_without_shards_are_empty(slot, shards, i, n - 1);
    }
}

/// A shard whose header tells its length is read at that length, whether or not the table
/// agrees on it; where they differ the table is right.
pub proof fn law_shards_are_read_at_their_length(
    agreed: Option<u32>,
    is_data: bool,
    header: ShardHeader,
    bound: u32,
)
    requires
        header.length <= 268435456,
    ensures
        agreed is None && is_data ==> front_verdict(agreed, is_data, header, bound)
            == FrontVerdict::Readable(header.length),
        agreed matches Some(a) && a <= 268435456 ==> front_verdict(agreed, is_data, header, bound)
            == FrontVerdict::Readable(agreed->0),
        agreed matches Some(a) && a > 268435456 ==> front_verdict(agreed, is_data, header, bound)
            is TooLarge,
        agreed is None && !is_data && (bound == 0 || bound == header.length) ==> front_verdict(
            agreed,
            is_data,
            header,
            bound,
        ) == FrontVerdict::Readable(header.length),
        agreed is None && !is_data && bound > header.length ==> front_verdict(
            agreed,
            is_data,
            header,
            bound,
        ) == FrontVerdict::ParityTooShort(bound),
{
}

/// No shard beyond the largest size is read.
pub proof fn law_overlong_shards_are_refused(
    agreed: Option<u32>,
    is_data: bool,
    header: ShardHeader,
    bound: u32,
    n: u32,
)
    requires
        front_verdict(agreed, is_data, header, bound) == FrontVerdict::Readable(n),
    ensures
        n <= 268435456,
{
}

/// An intact shard is taken: its front leads to its bytes, which are kept as intact under
/// its number, and its volume moves on by what it takes there. Nothing is counted as damaged
/// and no other volume moves.
pub proof fn law_intact_shard_is_taken(
    s: StripeIterView,
    cx: StripeVolumes,
    r: usize,
    reply: FrontReply,
    read: ShardRead,
)
    requires
        s.reader(&cx) == Some(r),
        r < s.offsets.len(),
        s.offsets[r as int] < cx.ends@[r as int],
        reply.prefix matches Some(p) && p@.len() == cx.layout.prefix_len(),
        reply.header matches Some(h) && h.length <= 268435456 && read.crc == h.crc
            && read.data@.len() == h.length && (s.agreed(&cx) is None || s.agreed(&cx) == Some(
            h.length,
        )),
        0 <= s.shard < cx.layout.data_shards,
        s.shard < s.data_lengths.len(),
        s.offsets[r as int] + cx.layout.prefix_len() + SHARD_HEADER_SIZE + (reply.header->0).length
            <= u64::MAX,
    ensures
        ({
            let m = s.after_front(&cx, reply);
            let t = m.after_data(&cx, Some(read));
            let h = reply.header->0;
            &&& !s.front_fails(&cx, reply)
            &&& m.phase == StripePhase::Data
            &&& m.pending matches Some(p) && p.length == h.length && p.header == h
            &&& m.offsets == s.offsets
            &&& t.shards.len() == s.shards.len() + 1
            &&& s.shards.is_prefix_of(t.shards)
            &&& t.shards.last().index == s.shard as usize
            &&& t.shards.last().data@ == read.data@
            &&& t.shards.last().crc_valid
            &&& t.stats == s.stats
            &&& t.shard == s.shard + 1
            &&& t.any_seen
            &&& t.offsets.len() == s.offsets.len()
            &&& t.offsets[r as int] == s.offsets[r as int] + cx.layout.prefix_len() + 8 + h.length
            &&& forall|v: int|
                0 <= v < s.offsets.len() && v != r ==> t.offsets[v] == s.offsets[v]
            &&& t.max_len >= h.length
            &&& t.data_lengths[s.shard] == Some(h.length)
        }),
{
    let m = s.after_front(&cx, reply);
    let t = m.after_data(&cx, Some(read));
    assert(m.reader(&cx) == Some(r));
    assert(t.shards.drop_last() =~= s.shards);
}

/// A shard whose bytes do not have its checksum is counted as damaged and not taken for
/// intact; its volume moves on all the same.
pub proof fn law_damaged_shard_is_counted(
    s: StripeIterView,
    cx: StripeVolumes,
    r: usize,
    pending: PendingShard,
    read: ShardRead,
)
    requires
        s.reader(&cx) == Some(r),
        r < s.offsets.len(),
        s.pending == Some(pending),
        read.crc != pending.header.crc,
        s.stats.corrupted_shards < u32::MAX,
        s.offsets[r as int] + cx.layout.prefix_len() + SHARD_HEADER_SIZE + pending.length
            <= u64::MAX,
    ensures
        ({
            let t = s.after_data(&cx, Some(read));
            &&& t.stats.corrupted_shards == s.stats.corrupted_shards + 1
            &&& t.shards.len() == s.shards.len() + 1
            &&& !t.shards.last().crc_valid
            &&& t.offsets[r as int] == s.offsets[r as int] + cx.layout.prefix_len() + 8
                + pending.length
            &&& t.shard == s.shard + 1
        }),
{
}

/// The steps within a stripe keep its volumes, the block numbers and what waits to be handed out.
pub proof fn law_stripes_stay_with_their_blocks(
    a: SessionErasureBlockIterator,
    b: SessionErasureBlockIterator,
)
    requires
        a.same_blocks(b),
    ensures
        a.cx == b.cx,
        a.block_index == b.block_index,
        a.pending_blocks == b.pending_blocks,
{
}

} // verus!

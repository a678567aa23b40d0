//! The scan of an archive whose shards are spread over several volumes.
//!
//! [`MatrixRepairScan`] walks the stripes of all open volumes at once. The
//! shards of a stripe go round the volumes as the distribution strategy says;
//! a shard whose volume is missing counts as damaged.
use vstd::prelude::*;

use crate::erasure_scan;
use crate::erasure_scan::{padded_size, parity_bound_or_zero, reconcile_stripe_prefixes};
use crate::repair;
use crate::repair::{
    classify_repair_archive_health, collect_repairs, judge_shard, refusal, select_repaired,
    shard_is_intact, RepairOptions, RepairStats, RepairView, ShardFront, ShardRead, ShardRepair,
    ShardSite, ShardVerdict, StatsView, StripeScan, StripeView,
};
use crate::repair_scan;
use crate::repair_scan::{agreed_shard_length, PendingShard, ScanPhase};
use crate::text;
use crate::types::{
    EraError, ErasureCodeConfig, MatrixDistributionStrategy, ShardHeader, SHARD_HEADER_SIZE,
};

verus! {

/// What a scan over several volumes needs next.
#[derive(Debug, Clone, Copy, PartialEq, Eq, Structural)]
pub enum MatrixRequest {
    /// The length table at `offset` of an open volume and the header behind it.
    ReadFront { volume: usize, offset: u64 },
    /// Nothing is there to be read for the next shard: reply with `None`.
    Skip,
    /// `length` bytes at `offset` of an open volume, and their checksum.
    ReadData { volume: usize, offset: u64, length: u32 },
    /// The stripe coded anew from its intact shards, padded to `shard_size`.
    Rebuild { shard_size: u64 },
    Finished,
}

/// What a scan over several volumes works on.
#[derive(Debug)]
pub struct MatrixLimits {
    pub layout: ErasureCodeConfig,
    pub strategy: MatrixDistributionStrategy,
    /// For each volume of the archive, the open volume that it is.
    pub readers: Vec<Option<usize>>,
    /// The end of the stripes of each open volume.
    pub ends: Vec<u64>,
    pub continue_on_error: bool,
}

impl MatrixLimits {
    pub open spec fn valid(&self) -> bool {
        &&& self.layout.total() > 0
        &&& self.readers@.len() > 0
        &&& forall|i: int|
            0 <= i < self.readers@.len() ==> ((#[trigger] self.readers@[i]) matches Some(r) ==> r
                < self.ends@.len())
        &&& forall|i: int| 0 <= i < self.ends@.len() ==> #[trigger] self.ends@[i] <= i64::MAX
    }

    /// The open volume that holds shard `shard` of stripe `sequence`.
    pub open spec fn reader(&self, shard: int, sequence: int) -> Option<usize> {
        self.readers@[self.strategy.volume_of(
            shard as nat,
            sequence as nat,
            self.readers@.len(),
        ) as int]
    }

    pub fn reader_of(&self, shard: usize, sequence: u64) -> (r: Option<usize>)
        requires
            self.valid(),
        ensures
            r == self.reader(shard as int, sequence as int),
            r matches Some(v) ==> v < self.ends@.len(),
    {
        let v: usize = self.strategy.calculate_volume(shard, sequence, self.readers.len());
        self.readers[v]
    }
}

/// The state of a scan over several volumes, as a value.
#[verifier::ext_equal]
pub struct MatrixView {
    pub phase: ScanPhase,
    /// Number of the stripe.
    pub sequence: int,
    /// Where each open volume stands.
    pub offsets: Seq<u64>,
    /// Where each open volume stands while copies are collected.
    pub probes: Seq<u64>,
    pub shard: int,
    pub copies: Seq<Vec<u8>>,
    pub lengths: Option<Seq<u32>>,
    pub pending: Option<PendingShard>,
    pub stripe: StripeView,
    pub stats: StatsView,
    pub repairs: Seq<RepairView>,
}

impl MatrixView {
    /// The start of stripe `sequence`.
    pub open spec fn stripe_start(self, limits: &MatrixLimits) -> MatrixView {
        MatrixView {
            phase: ScanPhase::Collect,
            probes: self.offsets,
            shard: 0,
            copies: Seq::empty(),
            lengths: None,
            pending: None,
            stripe: StripeView::fresh(limits.layout),
            ..self
        }
    }

    pub open spec fn next_stripe(self, limits: &MatrixLimits) -> MatrixView {
        MatrixView { sequence: self.sequence + 1, ..self }.stripe_start(limits)
    }

    pub open spec fn stopped(self) -> MatrixView {
        MatrixView { phase: ScanPhase::Done, ..self }
    }

    pub open spec fn reader(self, limits: &MatrixLimits) -> Option<usize> {
        limits.reader(self.shard, self.sequence)
    }

    /// A reply while copies are collected: a copy that cannot be read is left
    /// out, and its volume does not move.
    pub open spec fn after_copy(self, limits: &MatrixLimits, front: Option<ShardFront>) -> MatrixView {
        let m = match (self.reader(limits), front) {
            (Some(r), Some(f)) => if self.probes[r as int] < limits.ends@[r as int]
                && f.prefix@.len() == limits.layout.prefix_len() {
                MatrixView {
                    copies: self.copies.push(f.prefix),
                    probes: self.probes.update(
                        r as int,
                        (self.probes[r as int] + limits.layout.prefix_len() + SHARD_HEADER_SIZE
                            + repair_scan::announced(f.header)) as u64,
                    ),
                    ..self
                }
            } else {
                self
            },
            _ => self,
        };
        let n = MatrixView { shard: self.shard + 1, ..m };
        if n.shard < limits.layout.total() {
            n
        } else {
            MatrixView {
                phase: ScanPhase::Front,
                shard: 0,
                lengths: erasure_scan::agreed_lengths(erasure_scan::contents(n.copies)),
                ..n
            }
        }
    }

    pub open spec fn site(self, limits: &MatrixLimits, r: usize) -> ShardSite {
        ShardSite {
            volume: r,
            offset: (self.offsets[r as int] + limits.layout.prefix_len()) as u64,
        }
    }

    pub open spec fn damaged(self) -> MatrixView {
        MatrixView {
            stripe: self.stripe.damaged(self.shard as usize),
            stats: self.stats.one_damaged(),
            ..self
        }
    }

    pub open spec fn placed(self, limits: &MatrixLimits, r: usize) -> MatrixView {
        MatrixView { stripe: self.stripe.placed(self.shard as usize, self.site(limits, r)), ..self }
    }

    /// Volume `r` moves behind the shard at hand, which is `length` bytes long.
    pub open spec fn moved(self, limits: &MatrixLimits, r: usize, length: u32) -> MatrixView {
        MatrixView {
            offsets: self.offsets.update(
                r as int,
                (self.offsets[r as int] + limits.layout.prefix_len() + SHARD_HEADER_SIZE
                    + length) as u64,
            ),
            ..self
        }
    }

    /// The shard at hand is done.
    pub open spec fn past_shard(self, limits: &MatrixLimits) -> MatrixView {
        MatrixView {
            phase: ScanPhase::Front,
            pending: None,
            shard: self.shard + 1,
            ..self
        }.settled(limits)
    }

    /// After the last shard of a stripe. A stripe of which nothing was read is
    /// the end of the archive.
    pub open spec fn settled(self, limits: &MatrixLimits) -> MatrixView {
        if self.shard < limits.layout.total() {
            self
        } else {
            let stripe = self.stripe.normalized(self.lengths);
            if !stripe.any_read {
                MatrixView { stripe, ..self }.stopped()
            } else {
                let m = MatrixView {
                    stripe,
                    stats: self.stats.concluded(stripe, limits.layout),
                    ..self
                };
                if stripe.corrupted.len() == 0 {
                    m.next_stripe(limits)
                } else if repair::is_lost(stripe, limits.layout) {
                    if limits.continue_on_error {
                        m.next_stripe(limits)
                    } else {
                        m.stopped()
                    }
                } else {
                    MatrixView { phase: ScanPhase::Rebuild, ..m }
                }
            }
        }
    }

    pub open spec fn judged(self, limits: &MatrixLimits, header: Option<ShardHeader>) -> ShardVerdict {
        repair::verdict(
            repair_scan::agreed_length(
                self.lengths,
                self.shard,
                limits.layout.data_shards as int,
            ),
            header,
            erasure_scan::padded_bound(self.lengths),
        )
    }

    /// What stands in front of the shard at hand, as far as it can be used.
    pub open spec fn usable(self, limits: &MatrixLimits, front: Option<ShardFront>) -> Option<
        ShardFront,
    > {
        match (self.reader(limits), front) {
            (Some(r), Some(f)) => if self.offsets[r as int] < limits.ends@[r as int]
                && f.prefix@.len() == limits.layout.prefix_len() {
                front
            } else {
                None
            },
            _ => None,
        }
    }

    /// A reply about what stands in front of the shard at hand. Where nothing
    /// usable is there, the shard is damaged; the first shard of a stripe not
    /// being there, though its volume is, ends the scan.
    pub open spec fn after_front(self, limits: &MatrixLimits, front: Option<ShardFront>) -> MatrixView {
        match self.reader(limits) {
            None => self.damaged().past_shard(limits),
            Some(r) => match self.usable(limits, front) {
                None => if self.shard == 0 {
                    self.stopped()
                } else {
                    self.damaged().past_shard(limits)
                },
                Some(f) => match self.judged(limits, f.header) {
                    ShardVerdict::PrefixTooLarge(_) => self.stopped(),
                    ShardVerdict::HeaderTooLarge(_) => self.stopped(),
                    ShardVerdict::Unknown => self.damaged().past_shard(limits),
                    ShardVerdict::ParityTooShort(n) => self.placed(limits, r).damaged().moved(
                        limits,
                        r,
                        n,
                    ).past_shard(limits),
                    ShardVerdict::Headerless(n) => self.damaged().moved(limits, r, n).past_shard(
                        limits,
                    ),
                    ShardVerdict::Readable(n) => self.opened(limits, f.header->0, n),
                },
            },
        }
    }

    /// The bytes of the shard at hand are to be read.
    pub open spec fn opened(self, limits: &MatrixLimits, header: ShardHeader, n: u32) -> MatrixView {
        let agreed = repair_scan::agreed_length(
            self.lengths,
            self.shard,
            limits.layout.data_shards as int,
        );
        let own = match agreed {
            Some(a) => a,
            None => header.length,
        };
        MatrixView {
            phase: ScanPhase::Data,
            pending: Some(PendingShard { header, length: n, agreed: agreed is Some }),
            stripe: self.stripe.measured(self.shard as usize, own, n),
            ..self
        }
    }

    /// The shard at hand is intact or damaged, by its bytes. Its place is known
    /// where it could be read.
    pub open spec fn checked(self, limits: &MatrixLimits, read: Option<ShardRead>) -> MatrixView {
        let p = self.pending->0;
        let r = self.reader(limits)->0;
        match read {
            Some(d) => if repair::intact(p.header, p.agreed, d) {
                MatrixView {
                    stripe: self.stripe.kept(self.shard as usize, d.data),
                    ..self
                }.placed(limits, r)
            } else {
                self.damaged().placed(limits, r)
            },
            None => self.damaged(),
        }
    }

    pub open spec fn after_data(self, limits: &MatrixLimits, read: Option<ShardRead>) -> MatrixView {
        self.checked(limits, read).moved(
            limits,
            self.reader(limits)->0,
            (self.pending->0).length,
        ).past_shard(limits)
    }

    /// A reply with the stripe coded anew.
    pub open spec fn after_rebuild(
        self,
        limits: &MatrixLimits,
        coded: Result<Seq<Vec<u8>>, Seq<char>>,
    ) -> MatrixView {
        let m = match coded {
            Ok(c) => match repair::first_fault(
                self.stripe.corrupted,
                c.len() as int,
                self.stripe.data_lengths,
            ) {
                None => {
                    let found = repair::repairs_of(
                        self.stripe,
                        c,
                        self.stripe.corrupted.len() as int,
                    );
                    MatrixView {
                        repairs: self.repairs + found,
                        stats: StatsView {
                            repaired: self.stats.repaired + found.len(),
                            ..self.stats
                        },
                        ..self
                    }
                },
                Some(why) => MatrixView { stats: self.stats.coding_failed(why), ..self },
            },
            Err(why) => MatrixView { stats: self.stats.coding_failed(why), ..self },
        };
        m.next_stripe(limits)
    }

    /// Passing the shard at hand ends a stripe that is lost, and the scan is
    /// not to go on after that.
    pub open spec fn gives_up(self, limits: &MatrixLimits) -> bool {
        &&& self.shard + 1 >= limits.layout.total()
        &&& self.stripe.any_read
        &&& repair::is_lost(self.stripe, limits.layout)
        &&& !limits.continue_on_error
    }

    /// Whether the shard at hand is damaged by what stands in front of it.
    pub open spec fn front_damages(self, limits: &MatrixLimits, front: Option<ShardFront>) -> bool {
        match self.reader(limits) {
            None => true,
            Some(_) => match self.usable(limits, front) {
                None => self.shard != 0,
                Some(f) => match self.judged(limits, f.header) {
                    ShardVerdict::Unknown => true,
                    ShardVerdict::ParityTooShort(_) => true,
                    ShardVerdict::Headerless(_) => true,
                    _ => false,
                },
            },
        }
    }

    /// The text of the refusal, where an impossible length is announced.
    pub open spec fn refused(self, limits: &MatrixLimits, front: Option<ShardFront>) -> Option<
        Seq<char>,
    > {
        match self.usable(limits, front) {
            Some(f) => repair::refusal_text(self.judged(limits, f.header)),
            None => None,
        }
    }
}

/// A scan over the stripes of several volumes.
#[derive(Debug)]
pub struct MatrixRepairScan {
    pub limits: MatrixLimits,
    pub phase: ScanPhase,
    pub sequence: u64,
    pub offsets: Vec<u64>,
    pub probes: Vec<u64>,
    pub shard: usize,
    pub copies: Vec<Vec<u8>>,
    pub lengths: Option<Vec<u32>>,
    pub pending: Option<PendingShard>,
    pub stripe: StripeScan,
    pub stats: RepairStats,
    pub repairs: Vec<ShardRepair>,
}

impl View for MatrixRepairScan {
    type V = MatrixView;

    open spec fn view(&self) -> MatrixView {
        MatrixView {
            phase: self.phase,
            sequence: self.sequence as int,
            offsets: self.offsets@,
            probes: self.probes@,
            shard: self.shard as int,
            copies: self.copies@,
            lengths: erasure_scan::lengths_view(self.lengths),
            pending: self.pending,
            stripe: self.stripe@,
            stats: self.stats.counts(),
            repairs: repair::repair_views(self.repairs@),
        }
    }
}

fn copy_offsets(v: &Vec<u64>) -> (r: Vec<u64>)
    ensures
        r@ == v@,
{
    let mut r: Vec<u64> = Vec::new();
    let mut i: usize = 0;
    while i < v.len()
        invariant
            i <= v.len(),
            r@ == v@.take(i as int),
        decreases v.len() - i,
    {
        r.push(v[i]);
        assert(v@.take(i + 1) =~= v@.take(i as int).push(v@[i as int]));
        i = i + 1;
    }
    assert(v@.take(v.len() as int) =~= v@);
    r
}

impl MatrixRepairScan {
    /// What holds in every state but for the phase.
    pub open spec fn frame(&self) -> bool {
        &&& self.limits.valid()
        &&& self.offsets@.len() == self.limits.ends@.len()
        &&& self.probes@.len() == self.limits.ends@.len()
        &&& self.stripe@.fits(self.limits.layout)
        &&& self.sequence <= self.stats.blocks_scanned
    }

    /// What holds of every scan: each shard passed so far was found intact or
    /// damaged, once, and no more shards are repaired than were found damaged.
    pub open spec fn wf(&self) -> bool {
        let total = self.limits.layout.total();
        &&& self.frame()
        &&& self.stats.shards_repaired + (if self.phase == ScanPhase::Done {
            0
        } else {
            self.stripe@.corrupted.len() as int
        }) <= self.stats.corrupted_shards_found
        &&& self.stats.counts().consistent(
            if self.phase == ScanPhase::Rebuild {
                1
            } else {
                0
            },
        )
        &&& match self.phase {
            ScanPhase::Collect => self.shard < total && self.stripe@ == StripeView::fresh(
                self.limits.layout,
            ),
            ScanPhase::Front => self.shard < total && self.stripe@.covers(self.shard as int),
            ScanPhase::Data => {
                &&& self.shard < total
                &&& self.stripe@.covers(self.shard as int)
                &&& self.stripe@.any_read
                &&& self.pending is Some
                &&& self@.reader(&self.limits) matches Some(r) && self.offsets@[r as int]
                    < self.limits.ends@[r as int]
            },
            ScanPhase::Rebuild => self.stripe@.covers(total as int) && self.stripe@.corrupted.len()
                > 0 && self.stripe@.shards.len() >= self.limits.layout.data_shards
                && self.stats.blocks_scanned > 0 && self.sequence < self.stats.blocks_scanned,
            ScanPhase::Done => true,
        }
    }

    /// A scan that starts at the given offset of each open volume.
    pub fn new(limits: MatrixLimits, starts: Vec<u64>) -> (s: Self)
        requires
            limits.valid(),
            starts@.len() == limits.ends@.len(),
        ensures
            s.wf(),
            s.limits == limits,
            s@ == (MatrixView {
                phase: ScanPhase::Collect,
                sequence: 0,
                offsets: starts@,
                probes: starts@,
                shard: 0,
                copies: Seq::empty(),
                lengths: None,
                pending: None,
                stripe: StripeView::fresh(limits.layout),
                stats: StatsView {
                    scanned: 0,
                    with_corruption: 0,
                    found: 0,
                    repaired: 0,
                    unrecoverable: 0,
                    errors: Seq::empty(),
                },
                repairs: Seq::empty(),
            }),
    {
        let probes = copy_offsets(&starts);
        let stripe = StripeScan::new(limits.layout);
        let s = MatrixRepairScan {
            limits,
            phase: ScanPhase::Collect,
            sequence: 0,
            offsets: starts,
            probes,
            shard: 0,
            copies: Vec::new(),
            lengths: None,
            pending: None,
            stripe,
            stats: RepairStats::default(),
            repairs: Vec::new(),
        };
        assert(s@.stats.errors =~= Seq::empty());
        assert(s@.repairs =~= Seq::<RepairView>::empty());
        s
    }

    /// What the scan needs next.
    pub fn request(&self) -> (q: MatrixRequest)
        requires
            self.wf(),
        ensures
            q == (match self.phase {
                ScanPhase::Collect => match self@.reader(&self.limits) {
                    Some(r) => if self.probes@[r as int] < self.limits.ends@[r as int] {
                        MatrixRequest::ReadFront { volume: r, offset: self.probes@[r as int] }
                    } else {
                        MatrixRequest::Skip
                    },
                    None => MatrixRequest::Skip,
                },
                ScanPhase::Front => match self@.reader(&self.limits) {
                    Some(r) => if self.offsets@[r as int] < self.limits.ends@[r as int] {
                        MatrixRequest::ReadFront { volume: r, offset: self.offsets@[r as int] }
                    } else {
                        MatrixRequest::Skip
                    },
                    None => MatrixRequest::Skip,
                },
                ScanPhase::Data => {
                    let r = self@.reader(&self.limits)->0;
                    MatrixRequest::ReadData {
                        volume: r,
                        offset: (self.offsets@[r as int] + self.limits.layout.prefix_len()
                            + SHARD_HEADER_SIZE) as u64,
                        length: (self.pending->0).length,
                    }
                },
                ScanPhase::Rebuild => MatrixRequest::Rebuild {
                    shard_size: erasure_scan::even_up(self.stripe@.max_len) as u64,
                },
                ScanPhase::Done => MatrixRequest::Finished,
            }),
    {
        match self.phase {
            ScanPhase::Collect => match self.limits.reader_of(self.shard, self.sequence) {
                Some(r) => {
                    if self.probes[r] < self.limits.ends[r] {
                        MatrixRequest::ReadFront { volume: r, offset: self.probes[r] }
                    } else {
                        MatrixRequest::Skip
                    }
                },
                None => MatrixRequest::Skip,
            },
            ScanPhase::Front => match self.limits.reader_of(self.shard, self.sequence) {
                Some(r) => {
                    if self.offsets[r] < self.limits.ends[r] {
                        MatrixRequest::ReadFront { volume: r, offset: self.offsets[r] }
                    } else {
                        MatrixRequest::Skip
                    }
                },
                None => MatrixRequest::Skip,
            },
            ScanPhase::Data => match (
                self.limits.reader_of(self.shard, self.sequence),
                self.pending,
            ) {
                (Some(r), Some(p)) => {
                    assert(self.limits.ends@[r as int] <= i64::MAX);
                    MatrixRequest::ReadData {
                        volume: r,
                        offset: self.offsets[r] + self.limits.layout.prefix_bytes() as u64
                            + SHARD_HEADER_SIZE,
                        length: p.length,
                    }
                },
                _ => MatrixRequest::Finished,
            },
            ScanPhase::Rebuild => MatrixRequest::Rebuild {
                shard_size: padded_size(self.stripe.max_len as u64),
            },
            ScanPhase::Done => MatrixRequest::Finished,
        }
    }

    fn start_next_stripe(&mut self)
        requires
            old(self).frame(),
            old(self).sequence < old(self).stats.blocks_scanned,
            old(self).stats.shards_repaired <= old(self).stats.corrupted_shards_found,
            old(self)@.stats.consistent(0),
        ensures
            final(self)@ == old(self)@.next_stripe(&old(self).limits),
            final(self).limits == old(self).limits,
            final(self).wf(),
    {
        self.sequence = self.sequence + 1;
        self.phase = ScanPhase::Collect;
        self.probes = copy_offsets(&self.offsets);
        self.shard = 0;
        self.copies = Vec::new();
        self.lengths = None;
        self.pending = None;
        self.stripe = StripeScan::new(self.limits.layout);
        assert(self@ =~= old(self)@.next_stripe(&old(self).limits));
    }

    /// Moves past the shard at hand.
    fn pass_shard(&mut self) -> (r: Result<(), EraError>)
        requires
            old(self).frame(),
            old(self).stats.shards_repaired + old(self).stripe@.corrupted.len()
                <= old(self).stats.corrupted_shards_found,
            old(self)@.stats.consistent(0),
            old(self).shard < old(self).limits.layout.total(),
            old(self).stripe@.covers(old(self).shard + 1),
            old(self).stats.room(1),
        ensures
            final(self)@ == old(self)@.past_shard(&old(self).limits),
            final(self).limits == old(self).limits,
            final(self).wf(),
            repair_scan::given_up(
                r,
                old(self)@.gives_up(&old(self).limits),
                old(self)@.stats.scanned,
            ),
    {
        self.phase = ScanPhase::Front;
        self.pending = None;
        self.shard = self.shard + 1;
        if self.shard < self.limits.layout.total_shards() {
            assert(self@ =~= old(self)@.past_shard(&old(self).limits));
            return Ok(());
        }
        let ghost full = self@;
        self.stripe.normalize(&self.lengths);
        proof {
            match full.lengths {
                Some(l) => erasure_scan::law_longest_is_the_maximum(l),
                None => {},
            }
        }
        if !self.stripe.any_read {
            self.phase = ScanPhase::Done;
            assert(self@ =~= old(self)@.past_shard(&old(self).limits));
            return Ok(());
        }
        let block: u64 = self.stats.blocks_scanned;
        self.stats.conclude(&self.stripe, self.limits.layout);
        let ghost done = MatrixView {
            stripe: full.stripe.normalized(full.lengths),
            stats: full.stats.concluded(
                full.stripe.normalized(full.lengths),
                self.limits.layout,
            ),
            ..full
        };
        assert(self@ =~= done);
        if self.stripe.corrupted.len() == 0 {
            self.start_next_stripe();
            return Ok(());
        }
        if self.stripe.shards.len() < self.limits.layout.data_shards as usize {
            if self.limits.continue_on_error {
                self.start_next_stripe();
                return Ok(());
            }
            self.phase = ScanPhase::Done;
            return Err(
                EraError::ErasureError(text::with_number("Block ", block, " is unrecoverable")),
            );
        }
        self.phase = ScanPhase::Rebuild;
        Ok(())
    }

    fn mark_damaged(&mut self)
        requires
            old(self).frame(),
            old(self).stats.room(1),
            old(self).stripe@.covers(old(self).shard as int),
        ensures
            final(self)@ == old(self)@.damaged(),
            final(self).limits == old(self).limits,
            final(self).frame(),
            final(self).stripe@.covers(old(self).shard + 1),
            final(self).stats.archive_health == old(self).stats.archive_health,
    {
        proof {
            repair::lemma_damaged_covers(self.stripe@, self.shard);
        }
        self.stripe.mark_damaged(self.shard);
        self.stats.corrupted_shards_found = self.stats.corrupted_shards_found + 1;
        assert(self@ =~= old(self)@.damaged());
    }

    fn move_volume(&mut self, r: usize, length: u32)
        requires
            old(self).frame(),
            r < old(self).offsets@.len(),
            old(self).offsets@[r as int] < old(self).limits.ends@[r as int],
        ensures
            final(self)@ == old(self)@.moved(&old(self).limits, r, length),
            final(self).limits == old(self).limits,
            final(self).frame(),
    {
        assert(self.limits.ends@[r as int] <= i64::MAX);
        let to: u64 = self.offsets[r] + self.limits.layout.prefix_bytes() as u64
            + SHARD_HEADER_SIZE + length as u64;
        self.offsets.set(r, to);
        assert(self@ =~= old(self)@.moved(&old(self).limits, r, length));
    }

    fn collect_copy(&mut self, front: Option<ShardFront>)
        requires
            old(self).wf(),
            old(self).phase == ScanPhase::Collect,
        ensures
            final(self).wf(),
            final(self).limits == old(self).limits,
            final(self)@ == old(self)@.after_copy(&old(self).limits, front),
    {
        let prefix_len: usize = self.limits.layout.prefix_bytes();
        let reader: Option<usize> = self.limits.reader_of(self.shard, self.sequence);
        if let Some(r) = reader {
            if let Some(f) = front {
                if self.probes[r] < self.limits.ends[r] && f.prefix.len() == prefix_len {
                    assert(self.limits.ends@[r as int] <= i64::MAX);
                    let n: u32 = match f.header {
                        Some(h) => h.length,
                        None => 0,
                    };
                    self.copies.push(f.prefix);
                    let to: u64 = self.probes[r] + prefix_len as u64 + SHARD_HEADER_SIZE
                        + n as u64;
                    self.probes.set(r, to);
                }
            }
        }
        self.shard = self.shard + 1;
        if self.shard >= self.limits.layout.total_shards() {
            self.lengths = reconcile_stripe_prefixes(
                self.copies.as_slice(),
                self.limits.layout.data_shards as usize,
            );
            self.phase = ScanPhase::Front;
            self.shard = 0;
        }
        assert(self@ =~= old(self)@.after_copy(&old(self).limits, front));
    }

    /// Takes what stands in front of a shard; `None` where it cannot be read.
    /// Fails where the archive is refused for an impossible length, and where a
    /// stripe is lost and the scan is not to go on.
    pub fn on_front(&mut self, front: Option<ShardFront>) -> (res: Result<(), EraError>)
        requires
            old(self).wf(),
            old(self).stats.room(1024),
            old(self).phase == ScanPhase::Collect || old(self).phase == ScanPhase::Front,
        ensures
            final(self).wf(),
            final(self).limits == old(self).limits,
            old(self).phase == ScanPhase::Collect ==> res is Ok && final(self)@
                == old(self)@.after_copy(&old(self).limits, front),
            old(self).phase == ScanPhase::Front ==> final(self)@ == old(self)@.after_front(
                &old(self).limits,
                front,
            ),
            old(self).phase == ScanPhase::Front ==> match old(self)@.refused(
                &old(self).limits,
                front,
            ) {
                Some(t) => res matches Err(EraError::ErasureError(m)) && m@ == t,
                None => repair_scan::given_up(
                    res,
                    old(self)@.front_damages(&old(self).limits, front)
                        && old(self)@.damaged().gives_up(&old(self).limits),
                    old(self)@.stats.scanned,
                ),
            },
    {
        let collecting = match self.phase {
            ScanPhase::Collect => true,
            _ => false,
        };
        if collecting {
            self.collect_copy(front);
            return Ok(());
        }
        let prefix_len: usize = self.limits.layout.prefix_bytes();
        let i: usize = self.shard;
        let r: usize = match self.limits.reader_of(self.shard, self.sequence) {
            Some(r) => r,
            None => {
                self.mark_damaged();
                return self.pass_shard();
            },
        };
        let usable: Option<ShardFront> = match front {
            Some(f) => {
                if self.offsets[r] < self.limits.ends[r] && f.prefix.len() == prefix_len {
                    Some(f)
                } else {
                    None
                }
            },
            None => None,
        };
        assert(usable == old(self)@.usable(&old(self).limits, front));
        let f = match usable {
            Some(f) => f,
            None => {
                if i == 0 {
                    self.phase = ScanPhase::Done;
                    return Ok(());
                }
                self.mark_damaged();
                return self.pass_shard();
            },
        };
        let agreed: Option<u32> = agreed_shard_length(
            &self.lengths,
            i,
            self.limits.layout.data_shards as usize,
        );
        let bound: u32 = parity_bound_or_zero(&self.lengths);
        let v = judge_shard(agreed, f.header, bound);
        if let Some(e) = refusal(v) {
            self.phase = ScanPhase::Done;
            return Err(e);
        }
        assert(self.limits.ends@[r as int] <= i64::MAX);
        match v {
            ShardVerdict::ParityTooShort(n) => {
                let site = ShardSite { volume: r, offset: self.offsets[r] + prefix_len as u64 };
                self.stripe.place(i, site);
                assert(self@ =~= old(self)@.placed(&old(self).limits, r));
                self.mark_damaged();
                self.move_volume(r, n);
                self.pass_shard()
            },
            ShardVerdict::Headerless(n) => {
                self.mark_damaged();
                self.move_volume(r, n);
                self.pass_shard()
            },
            ShardVerdict::Readable(n) => {
                if let Some(h) = f.header {
                    let own: u32 = match agreed {
                        Some(a) => a,
                        None => h.length,
                    };
                    self.stripe.measure(i, own, n);
                    self.pending = Some(
                        PendingShard { header: h, length: n, agreed: agreed.is_some() },
                    );
                    self.phase = ScanPhase::Data;
                }
                Ok(())
            },
            _ => {
                self.mark_damaged();
                self.pass_shard()
            },
        }
    }

    /// Takes the bytes of a shard with their checksum; `None` where they cannot
    /// be read. Fails where a stripe is lost and the scan is not to go on.
    pub fn on_data(&mut self, read: Option<ShardRead>) -> (res: Result<(), EraError>)
        requires
            old(self).wf(),
            old(self).stats.room(1024),
            old(self).phase == ScanPhase::Data,
        ensures
            final(self).wf(),
            final(self).limits == old(self).limits,
            final(self)@ == old(self)@.after_data(&old(self).limits, read),
            repair_scan::given_up(
                res,
                old(self)@.checked(&old(self).limits, read).gives_up(&old(self).limits),
                old(self)@.stats.scanned,
            ),
    {
        let i: usize = self.shard;
        let (r, p) = match (self.limits.reader_of(self.shard, self.sequence), self.pending) {
            (Some(r), Some(p)) => (r, p),
            _ => return Ok(()),
        };
        assert(self.limits.ends@[r as int] <= i64::MAX);
        let site = ShardSite {
            volume: r,
            offset: self.offsets[r] + self.limits.layout.prefix_bytes() as u64,
        };
        if let Some(d) = read {
            proof {
                repair::lemma_kept_covers(self.stripe@, i, d.data);
            }
            if shard_is_intact(&p.header, p.agreed, &d) {
                self.stripe.keep(i, d.data);
            } else {
                self.mark_damaged();
            }
            self.stripe.place(i, site);
        } else {
            self.mark_damaged();
        }
        assert(self@ =~= old(self)@.checked(&old(self).limits, read));
        self.move_volume(r, p.length);
        self.pass_shard()
    }

    /// Takes the stripe coded anew, or why it could not be coded.
    pub fn on_rebuilt(&mut self, coded: Result<Vec<Vec<u8>>, String>)
        requires
            old(self).wf(),
            old(self).stats.room(1024),
            old(self).phase == ScanPhase::Rebuild,
        ensures
            final(self).wf(),
            final(self).limits == old(self).limits,
            final(self)@ == old(self)@.after_rebuild(
                &old(self).limits,
                match coded {
                    Ok(c) => Ok(c@),
                    Err(w) => Err(w@),
                },
            ),
    {
        match coded {
            Ok(c) => {
                match select_repaired(&c, &self.stripe.corrupted, &self.stripe.data_lengths) {
                    Ok(shards) => {
                        let n: u64 = collect_repairs(
                            &mut self.repairs,
                            &self.stripe,
                            shards,
                            Ghost(c@),
                        );
                        self.stats.shards_repaired = self.stats.shards_repaired + n;
                    },
                    Err(EraError::ErasureError(m)) => {
                        self.stats.coding_failed(m.as_str());
                    },
                    Err(_) => {},
                }
            },
            Err(why) => {
                self.stats.coding_failed(why.as_str());
            },
        }
        self.start_next_stripe();
    }

    /// The result of a scan that has ended, rated by the volumes that were
    /// found: at least as many as a stripe has data shards are needed.
    /// With the statistics come the shards to be written back.
    pub fn finish(
        self,
        expected_volumes: usize,
        missing_indices: Vec<usize>,
        options: &RepairOptions,
    ) -> (r: (
        RepairStats,
        Vec<ShardRepair>,
    ))
        requires
            self.wf(),
            self.phase == ScanPhase::Done,
        ensures
            r.0.counts() == self@.stats,
            repair::repair_views(r.1@) == options.written(self@.repairs),
            repair::is_rating(
                r.0.archive_health,
                expected_volumes,
                self.limits.ends@.len() as usize,
                missing_indices@,
                self@.stats.unrecoverable,
                self.limits.layout.data_shards as int,
            ),
            missing_indices@.len() > 0 ==> !(r.0.archive_health is Healthy)
                && repair::reported_missing(r.0.archive_health) == missing_indices@,
            self@.stats.unrecoverable > 0 || self.limits.ends@.len()
                < self.limits.layout.data_shards ==> r.0.archive_health is Incomplete,
    {
        let mut stats = self.stats;
        let found: usize = self.limits.ends.len();
        stats.archive_health = classify_repair_archive_health(
            expected_volumes,
            found,
            missing_indices,
            stats.unrecoverable_blocks,
            self.limits.layout.data_shards as usize,
        );
        (stats, options.repairs_to_write(self.repairs))
    }
}

/// What is repaired never exceeds what was found damaged, in every state a scan
/// over several volumes can reach.
pub proof fn law_matrix_repaired_within_found(scan: MatrixRepairScan)
    requires
        scan.wf(),
    ensures
        scan@.stats.repaired <= scan@.stats.found,
{
}

/// A shard whose volume is missing is damaged, and moves no volume.
pub proof fn law_missing_volume_damages_its_shard(
    m: MatrixView,
    limits: &MatrixLimits,
    front: Option<ShardFront>,
)
    requires
        m.reader(limits) is None,
        m.shard + 1 < limits.layout.total(),
        0 <= m.shard <= usize::MAX,
    ensures
        m.after_front(limits, front).stripe.corrupted == m.stripe.corrupted.push(m.shard as usize),
        m.after_front(limits, front).stripe.shards == m.stripe.shards,
        m.after_front(limits, front).offsets == m.offsets,
{
}

/// Whenever a stripe is handed over to be rebuilt, it has at least as many
/// intact shards as data shards, and there is something to rebuild.
pub proof fn law_matrix_rebuilding_has_enough_shards(scan: MatrixRepairScan)
    requires
        scan.wf(),
        scan.phase == ScanPhase::Rebuild,
    ensures
        scan.stripe@.shards.len() >= scan.limits.layout.data_shards,
        0 < scan.stripe@.corrupted.len() <= scan.limits.layout.parity_shards,
{
    repair::law_damage_up_to_parity_is_survived(scan.stripe@, scan.limits.layout);
}

/// In every state that a scan over several volumes can reach, no more stripes
/// cannot be rebuilt than have damage, of which there are no more than were
/// scanned, and there is one message for each that cannot be rebuilt.
pub proof fn law_matrix_counters_are_consistent(scan: MatrixRepairScan)
    requires
        scan.wf(),
    ensures
        scan.stats.unrecoverable_blocks <= scan.stats.blocks_with_corruption
            <= scan.stats.blocks_scanned,
        scan.stats.errors@.len() == scan.stats.unrecoverable_blocks,
{
    assert(scan.stats.counts().errors.len() == scan.stats.errors@.len());
}

/// On an open volume, a data shard whose header cannot be read is damaged; its volume, and no
/// other, moves on by the length that the table gives the shard.
pub proof fn law_matrix_unreadable_header_is_damage(
    v: MatrixView,
    limits: &MatrixLimits,
    front: ShardFront,
    table: Seq<u32>,
    r: usize,
)
    requires
        v.reader(limits) == Some(r),
        r < v.offsets.len(),
        v.offsets[r as int] < limits.ends@[r as int] <= i64::MAX,
        v.lengths == Some(table),
        0 <= v.shard < table.len(),
        v.shard < limits.layout.data_shards,
        v.shard + 1 < limits.layout.total(),
        table[v.shard] <= 268435456,
        front.prefix@.len() == limits.layout.prefix_len(),
        front.header is None,
    ensures
        ({
            let e = v.after_front(limits, Some(front));
            &&& v.refused(limits, Some(front)) is None
            &&& v.front_damages(limits, Some(front))
            &&& e.stripe.corrupted == v.stripe.corrupted.push(v.shard as usize)
            &&& e.stripe.shards == v.stripe.shards
            &&& e.stats.found == v.stats.found + 1
            &&& e.offsets[r as int] == v.offsets[r as int] + limits.layout.prefix_len() + 8
                + table[v.shard]
            &&& forall|w: int| 0 <= w < v.offsets.len() && w != r ==> e.offsets[w] == v.offsets[w]
            &&& e.shard == v.shard + 1
            &&& e.phase == ScanPhase::Front
        }),
{
}

/// A shard that cannot be read, or whose bytes do not have its checksum, is damaged, and its
/// volume moves on behind it.
pub proof fn law_matrix_bad_bytes_are_damage(
    v: MatrixView,
    limits: &MatrixLimits,
    read: Option<ShardRead>,
    r: usize,
)
    requires
        v.reader(limits) == Some(r),
        r < v.offsets.len(),
        v.offsets[r as int] <= i64::MAX,
        v.pending is Some,
        0 <= v.shard,
        v.shard + 1 < limits.layout.total(),
        read matches Some(d) ==> d.crc != (v.pending->0).header.crc,
    ensures
        ({
            let e = v.after_data(limits, read);
            &&& e.stripe.corrupted == v.stripe.corrupted.push(v.shard as usize)
            &&& e.stripe.shards == v.stripe.shards
            &&& e.stats.found == v.stats.found + 1
            &&& e.offsets[r as int] == v.offsets[r as int] + limits.layout.prefix_len() + 8 + (
            v.pending->0).length
            &&& e.shard == v.shard + 1
        }),
{
}

/// Behind the last shard of a stripe of which something was read, too few intact shards are a
/// loss, which is counted and told. The scan then goes on only where it was asked to.
pub proof fn law_matrix_lost_stripe_is_told(v: MatrixView, limits: &MatrixLimits)
    requires
        v.shard + 1 == limits.layout.total(),
        v.stripe.any_read,
        v.stripe.corrupted.len() > 0,
        v.stripe.shards.len() < limits.layout.data_shards,
    ensures
        ({
            let e = v.past_shard(limits);
            &&& e.stats.unrecoverable == v.stats.unrecoverable + 1
            &&& e.stats.errors.len() == v.stats.errors.len() + 1
            &&& e.stats.repaired == v.stats.repaired
            &&& e.repairs == v.repairs
            &&& v.gives_up(limits) <==> !limits.continue_on_error
            &&& !limits.continue_on_error ==> e.phase == ScanPhase::Done
            &&& limits.continue_on_error ==> e.phase == ScanPhase::Collect && e.sequence
                == v.sequence + 1
        }),
{
}

/// A stripe with enough intact shards never makes the scan give up, and one of which nothing
/// was read ends it without being counted.
pub proof fn law_matrix_other_stripes_go_on(v: MatrixView, limits: &MatrixLimits)
    requires
        v.shard + 1 == limits.layout.total(),
        v.stripe.corrupted.len() == 0 || v.stripe.shards.len() >= limits.layout.data_shards
            || !v.stripe.any_read,
    ensures
        ({
            let e = v.past_shard(limits);
            &&& !v.gives_up(limits)
            &&& e.stats.unrecoverable == v.stats.unrecoverable
            &&& e.stats.errors == v.stats.errors
            &&& !v.stripe.any_read ==> e.phase == ScanPhase::Done && e.stats == v.stats
            &&& v.stripe.any_read ==> e.stats.scanned == v.stats.scanned + 1
            &&& v.stripe.any_read && v.stripe.corrupted.len() > 0 ==> e.phase
                == ScanPhase::Rebuild && e.stripe.corrupted == v.stripe.corrupted
            &&& v.stripe.any_read && v.stripe.corrupted.len() == 0 ==> e.phase
                == ScanPhase::Collect && e.sequence == v.sequence + 1
        }),
{
}

/// Where coding fails nothing is written back for the stripe, which counts as lost.
pub proof fn law_matrix_failed_coding_is_told(
    v: MatrixView,
    limits: &MatrixLimits,
    why: Seq<char>,
)
    ensures
        ({
            let e = v.after_rebuild(limits, Err(why));
            &&& e.repairs == v.repairs
            &&& e.stats.unrecoverable == v.stats.unrecoverable + 1
            &&& e.stats.errors.len() == v.stats.errors.len() + 1
            &&& e.stats.repaired == v.stats.repaired
            &&& e.sequence == v.sequence + 1
            &&& e.offsets == v.offsets
        }),
{
}

} // verus!

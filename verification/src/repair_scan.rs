//! The scan of a single-volume archive for damaged shards.
//!
//! [`RepairScan`] walks the stripes of one volume. Each stripe is passed twice:
//! first its length tables are collected and outvoted against each other, then
//! its shards are read and checked one by one. [`RepairScan::request`] says what
//! is needed next; the `on_...` methods take the reply.
use vstd::prelude::*;

use crate::erasure_scan;
use crate::erasure_scan::{
    padded_size, parity_bound_or_zero, reconcile_stripe_prefixes,
};
use crate::repair;
use crate::repair::{
    classify_repair_archive_health, collect_repairs, judge_shard, refusal, select_repaired,
    shard_is_intact, RepairOptions, RepairStats, RepairView, ShardFront, ShardRead, ShardRepair,
    ShardSite, ShardVerdict, StatsView, StripeScan, StripeView,
};
use crate::text;
use crate::types::{EraError, ErasureCodeConfig, ShardHeader, SHARD_HEADER_SIZE};

verus! {

/// No shard moves a scan further than this: table, header and bytes.
pub const SHARD_STEP: u64 = 4294971392;

/// Where a scan stands.
#[derive(Debug, Clone, Copy, PartialEq, Eq, Structural)]
pub enum ScanPhase {
    /// Collecting the copies of the length table.
    Collect,
    /// Waiting for what stands in front of a shard.
    Front,
    /// Waiting for the bytes of a shard.
    Data,
    /// Waiting for the stripe to be coded anew.
    Rebuild,
    /// Nothing is left to do.
    Done,
}

/// A shard whose bytes are being read.
#[derive(Debug, Clone, Copy, PartialEq, Eq, Structural)]
pub struct PendingShard {
    pub header: ShardHeader,
    pub length: u32,
    /// The length comes from the agreed table.
    pub agreed: bool,
}

/// What a scan needs next.
#[derive(Debug, Clone, Copy, PartialEq, Eq, Structural)]
pub enum ScanRequest {
    /// The length table at `offset` and the header behind it.
    ReadFront { offset: u64 },
    /// `length` bytes at `offset`, and their checksum.
    ReadData { offset: u64, length: u32 },
    /// The stripe coded anew from its intact shards, padded to `shard_size`.
    Rebuild { shard_size: u64 },
    Finished,
}

/// What a scan works on.
#[derive(Debug, Clone, Copy, PartialEq, Eq, Structural)]
pub struct ScanLimits {
    pub layout: ErasureCodeConfig,
    /// The stripes end here.
    pub data_end: u64,
    pub continue_on_error: bool,
}

impl ScanLimits {
    pub open spec fn of(
        layout: ErasureCodeConfig,
        data_end: u64,
        options: RepairOptions,
    ) -> ScanLimits {
        ScanLimits { layout, data_end, continue_on_error: options.continue_on_error }
    }
}

/// The state of a scan, as a value.
#[verifier::ext_equal]
pub struct ScanView {
    pub phase: ScanPhase,
    pub offset: int,
    pub probe: int,
    pub shard: int,
    pub copies: Seq<Vec<u8>>,
    pub lengths: Option<Seq<u32>>,
    pub pending: Option<PendingShard>,
    pub stripe: StripeView,
    pub stats: StatsView,
    pub repairs: Seq<RepairView>,
}

/// The entry of data shard `i` in the agreed table.
pub open spec fn agreed_length(lengths: Option<Seq<u32>>, i: int, data_shards: int) -> Option<u32> {
    match lengths {
        Some(l) => if i < data_shards && i < l.len() {
            Some(l[i])
        } else {
            None
        },
        None => None,
    }
}

pub fn agreed_shard_length(lengths: &Option<Vec<u32>>, i: usize, data_shards: usize) -> (r: Option<
    u32,
>)
    ensures
        r == agreed_length(erasure_scan::lengths_view(*lengths), i as int, data_shards as int),
{
    match lengths {
        Some(l) => {
            if i < data_shards && i < l.len() {
                Some(l[i])
            } else {
                None
            }
        },
        None => None,
    }
}

/// The bytes that a header announces, none where it does not parse.
pub open spec fn announced(header: Option<ShardHeader>) -> u32 {
    match header {
        Some(h) => h.length,
        None => 0,
    }
}

impl ScanView {
    /// A scan that begins at `at`.
    pub open spec fn start(limits: ScanLimits, at: int) -> ScanView {
        ScanView {
            phase: if at < limits.data_end {
                ScanPhase::Collect
            } else {
                ScanPhase::Done
            },
            offset: at,
            probe: at,
            shard: 0,
            copies: Seq::empty(),
            lengths: None,
            pending: None,
            stripe: StripeView::fresh(limits.layout),
            stats: StatsView {
                scanned: 0,
                with_corruption: 0,
                found: 0,
                repaired: 0,
                unrecoverable: 0,
                errors: Seq::empty(),
            },
            repairs: Seq::empty(),
        }
    }

    /// The scan at the start of the next stripe, or at its end.
    pub open spec fn next_stripe(self, limits: ScanLimits) -> ScanView {
        if self.offset < limits.data_end {
            ScanView {
                phase: ScanPhase::Collect,
                probe: self.offset,
                shard: 0,
                copies: Seq::empty(),
                lengths: None,
                pending: None,
                stripe: StripeView::fresh(limits.layout),
                ..self
            }
        } else {
            self.stopped()
        }
    }

    pub open spec fn stopped(self) -> ScanView {
        ScanView { phase: ScanPhase::Done, ..self }
    }

    /// All copies are collected: the shards come next.
    pub open spec fn collected(self) -> ScanView {
        ScanView {
            phase: ScanPhase::Front,
            shard: 0,
            lengths: erasure_scan::agreed_lengths(erasure_scan::contents(self.copies)),
            ..self
        }
    }

    /// A reply while copies are collected. A copy that cannot be read ends the
    /// collection, and so does the end of the stripes.
    pub open spec fn after_copy(self, limits: ScanLimits, front: Option<ShardFront>) -> ScanView {
        match front {
            Some(f) => if f.prefix@.len() == limits.layout.prefix_len() {
                let m = ScanView {
                    copies: self.copies.push(f.prefix),
                    probe: self.probe + limits.layout.prefix_len() + SHARD_HEADER_SIZE
                        + announced(f.header),
                    shard: self.shard + 1,
                    ..self
                };
                if m.shard == limits.layout.total() || m.probe >= limits.data_end {
                    m.collected()
                } else {
                    m
                }
            } else {
                self.collected()
            },
            None => self.collected(),
        }
    }

    /// The header of the shard at hand.
    pub open spec fn site(self, limits: ScanLimits) -> ShardSite {
        ShardSite { volume: 0, offset: (self.offset + limits.layout.prefix_len()) as u64 }
    }

    /// The shard at hand is done and `length` bytes long.
    pub open spec fn past_shard(self, limits: ScanLimits, length: u32) -> ScanView {
        ScanView {
            phase: ScanPhase::Front,
            pending: None,
            offset: self.offset + limits.layout.prefix_len() + SHARD_HEADER_SIZE + length,
            shard: self.shard + 1,
            ..self
        }.settled(limits)
    }

    /// After the last shard of a stripe: the stripe is counted, and what is
    /// damaged is rebuilt where enough is left.
    pub open spec fn settled(self, limits: ScanLimits) -> ScanView {
        if self.shard < limits.layout.total() {
            self
        } else {
            let stripe = self.stripe.normalized(self.lengths);
            let m = ScanView {
                stripe,
                stats: self.stats.concluded(stripe, limits.layout),
                ..self
            };
            if stripe.corrupted.len() == 0 {
                m.next_stripe(limits)
            } else if repair::is_lost(stripe, limits.layout) {
                if limits.continue_on_error {
                    m.next_stripe(limits)
                } else {
                    m.stopped()
                }
            } else {
                ScanView { phase: ScanPhase::Rebuild, ..m }
            }
        }
    }

    /// The shard at hand is damaged.
    pub open spec fn damaged(self) -> ScanView {
        ScanView {
            stripe: self.stripe.damaged(self.shard as usize),
            stats: self.stats.one_damaged(),
            ..self
        }
    }

    pub open spec fn placed(self, limits: ScanLimits) -> ScanView {
        ScanView { stripe: self.stripe.placed(self.shard as usize, self.site(limits)), ..self }
    }

    pub open spec fn judged(self, limits: ScanLimits, header: Option<ShardHeader>) -> ShardVerdict {
        repair::verdict(
            agreed_length(self.lengths, self.shard, limits.layout.data_shards as int),
            header,
            erasure_scan::padded_bound(self.lengths),
        )
    }

    /// A reply about what stands in front of the shard at hand.
    pub open spec fn after_front(self, limits: ScanLimits, front: Option<ShardFront>) -> ScanView {
        match front {
            None => self.stopped(),
            Some(f) => if f.prefix@.len() != limits.layout.prefix_len() {
                self.stopped()
            } else {
                match self.judged(limits, f.header) {
                    ShardVerdict::PrefixTooLarge(_) => self.stopped(),
                    ShardVerdict::HeaderTooLarge(_) => self.stopped(),
                    ShardVerdict::Unknown => self.stopped(),
                    ShardVerdict::ParityTooShort(n) => self.placed(limits).damaged().past_shard(
                        limits,
                        n,
                    ),
                    ShardVerdict::Headerless(n) => self.damaged().past_shard(limits, n),
                    ShardVerdict::Readable(n) => self.opened(limits, f.header->0, n),
                }
            },
        }
    }

    /// The bytes of the shard at hand are to be read.
    pub open spec fn opened(self, limits: ScanLimits, header: ShardHeader, n: u32) -> ScanView {
        let agreed = agreed_length(self.lengths, self.shard, limits.layout.data_shards as int);
        let own = match agreed {
            Some(a) => a,
            None => header.length,
        };
        ScanView {
            phase: ScanPhase::Data,
            pending: Some(PendingShard { header, length: n, agreed: agreed is Some }),
            stripe: self.placed(limits).stripe.measured(self.shard as usize, own, n),
            ..self
        }
    }

    /// The shard at hand is intact or damaged, by its bytes.
    pub open spec fn checked(self, read: Option<ShardRead>) -> ScanView {
        let p = self.pending->0;
        match read {
            Some(r) => if repair::intact(p.header, p.agreed, r) {
                ScanView { stripe: self.stripe.kept(self.shard as usize, r.data), ..self }
            } else {
                self.damaged()
            },
            None => self.damaged(),
        }
    }

    /// A reply with the bytes of the shard at hand.
    pub open spec fn after_data(self, limits: ScanLimits, read: Option<ShardRead>) -> ScanView {
        self.checked(read).past_shard(limits, (self.pending->0).length)
    }

    /// Passing the shard at hand ends a stripe that is lost, and the scan is
    /// not to go on after that.
    pub open spec fn gives_up(self, limits: ScanLimits) -> bool {
        &&& self.shard + 1 >= limits.layout.total()
        &&& repair::is_lost(self.stripe, limits.layout)
        &&& !limits.continue_on_error
    }

    /// [`ScanView::gives_up`], by what stands in front of the shard at hand.
    pub open spec fn front_gives_up(self, limits: ScanLimits, front: Option<ShardFront>) -> bool {
        match front {
            Some(f) => f.prefix@.len() == limits.layout.prefix_len() && match self.judged(
                limits,
                f.header,
            ) {
                ShardVerdict::ParityTooShort(_) => self.damaged().gives_up(limits),
                ShardVerdict::Headerless(_) => self.damaged().gives_up(limits),
                _ => false,
            },
            None => false,
        }
    }

    /// The text of the refusal, where an impossible length is announced.
    pub open spec fn refused(self, limits: ScanLimits, front: Option<ShardFront>) -> Option<
        Seq<char>,
    > {
        match front {
            Some(f) => if f.prefix@.len() == limits.layout.prefix_len() {
                repair::refusal_text(self.judged(limits, f.header))
            } else {
                None
            },
            None => None,
        }
    }

    /// A reply with the stripe coded anew.
    pub open spec fn after_rebuild(
        self,
        limits: ScanLimits,
        coded: Result<Seq<Vec<u8>>, Seq<char>>,
    ) -> ScanView {
        let m = match coded {
            Ok(c) => match repair::first_fault(
                self.stripe.corrupted,
                c.len() as int,
                self.stripe.data_lengths,
            ) {
                None => {
                    let found = repair::repairs_of(
                        self.stripe,
                        c,
                        self.stripe.corrupted.len() as int,
                    );
                    ScanView {
                        repairs: self.repairs + found,
                        stats: StatsView {
                            repaired: self.stats.repaired + found.len(),
                            ..self.stats
                        },
                        ..self
                    }
                },
                Some(why) => ScanView { stats: self.stats.coding_failed(why), ..self },
            },
            Err(why) => ScanView { stats: self.stats.coding_failed(why), ..self },
        };
        m.next_stripe(limits)
    }
}

/// Fails exactly where the scan gives up, naming the stripe.
pub open spec fn given_up(r: Result<(), EraError>, fails: bool, block: int) -> bool {
    if fails {
        r matches Err(EraError::ErasureError(m)) && m@ == "Block "@ + text::decimal(block as nat)
            + " is unrecoverable"@
    } else {
        r is Ok
    }
}

/// A scan over the stripes of one volume.
#[derive(Debug)]
pub struct RepairScan {
    pub limits: ScanLimits,
    pub phase: ScanPhase,
    pub offset: u64,
    pub probe: u64,
    pub shard: usize,
    pub copies: Vec<Vec<u8>>,
    pub lengths: Option<Vec<u32>>,
    pub pending: Option<PendingShard>,
    pub stripe: StripeScan,
    pub stats: RepairStats,
    pub repairs: Vec<ShardRepair>,
}

impl View for RepairScan {
    type V = ScanView;

    open spec fn view(&self) -> ScanView {
        ScanView {
            phase: self.phase,
            offset: self.offset as int,
            probe: self.probe as int,
            shard: self.shard as int,
            copies: self.copies@,
            lengths: erasure_scan::lengths_view(self.lengths),
            pending: self.pending,
            stripe: self.stripe@,
            stats: self.stats.counts(),
            repairs: repair::repair_views(self.repairs@),
        }
    }
}

impl RepairScan {
    /// What holds of every scan: each shard passed so far was found intact or
    /// damaged, once, and no more shards are repaired than were found damaged.
    pub open spec fn wf(&self) -> bool {
        let l = self.limits;
        let total = l.layout.total();
        &&& total > 0
        &&& l.data_end <= i64::MAX
        &&& self.stripe@.fits(l.layout)
        &&& self.stats.archive_health is Healthy
        &&& self.stats.shards_repaired + (if self.phase == ScanPhase::Done {
            0
        } else {
            self.stripe@.corrupted.len() as int
        }) <= self.stats.corrupted_shards_found
        &&& self.stats.counts().consistent(
            if self.phase == ScanPhase::Rebuild {
                1
            } else {
                0
            },
        )
        &&& match self.phase {
            ScanPhase::Collect => self.probe < l.data_end && self.shard < total && self.offset
                < l.data_end && self.stripe@ == StripeView::fresh(l.layout),
            ScanPhase::Front => self.shard < total && self.offset <= l.data_end + self.shard
                * SHARD_STEP && self.stripe@.covers(self.shard as int),
            ScanPhase::Data => self.shard < total && self.offset <= l.data_end + self.shard
                * SHARD_STEP && self.stripe@.covers(self.shard as int) && self.pending is Some,
            ScanPhase::Rebuild => self.stripe@.covers(total as int) && self.stripe@.corrupted.len()
                > 0 && self.stripe@.shards.len() >= l.layout.data_shards
                && self.stats.blocks_scanned > 0,
            ScanPhase::Done => true,
        }
    }

    /// A scan of the stripes between `data_start` and `data_end`.
    pub fn new(
        layout: ErasureCodeConfig,
        data_start: u64,
        data_end: u64,
        options: &RepairOptions,
    ) -> (s: Self)
        requires
            layout.total() > 0,
            data_end <= i64::MAX,
        ensures
            s.wf(),
            s.limits == ScanLimits::of(layout, data_end, *options),
            s@ == ScanView::start(s.limits, data_start as int),
            data_start < data_end ==> s@ == s@.next_stripe(s.limits),
    {
        let limits = ScanLimits {
            layout,
            data_end,
            continue_on_error: options.continue_on_error,
        };
        let s = RepairScan {
            limits,
            phase: if data_start < data_end {
                ScanPhase::Collect
            } else {
                ScanPhase::Done
            },
            offset: data_start,
            probe: data_start,
            shard: 0,
            copies: Vec::new(),
            lengths: None,
            pending: None,
            stripe: StripeScan::new(layout),
            stats: RepairStats::default(),
            repairs: Vec::new(),
        };
        assert(s@.stats.errors =~= Seq::empty());
        assert(s@.repairs =~= Seq::<RepairView>::empty());
        assert(data_start < data_end ==> s@ =~= s@.next_stripe(limits));
        s
    }

    /// What the scan needs next.
    pub fn request(&self) -> (r: ScanRequest)
        requires
            self.wf(),
        ensures
            r == (match self.phase {
                ScanPhase::Collect => ScanRequest::ReadFront { offset: self.probe },
                ScanPhase::Front => ScanRequest::ReadFront { offset: self.offset },
                ScanPhase::Data => ScanRequest::ReadData {
                    offset: (self.offset + self.limits.layout.prefix_len()
                        + SHARD_HEADER_SIZE) as u64,
                    length: (self.pending->0).length,
                },
                ScanPhase::Rebuild => ScanRequest::Rebuild {
                    shard_size: erasure_scan::even_up(self.stripe@.max_len) as u64,
                },
                ScanPhase::Done => ScanRequest::Finished,
            }),
    {
        match self.phase {
            ScanPhase::Collect => ScanRequest::ReadFront { offset: self.probe },
            ScanPhase::Front => ScanRequest::ReadFront { offset: self.offset },
            ScanPhase::Data => match self.pending {
                Some(p) => ScanRequest::ReadData {
                    offset: self.offset + self.limits.layout.prefix_bytes() as u64
                        + SHARD_HEADER_SIZE,
                    length: p.length,
                },
                None => ScanRequest::Finished,
            },
            ScanPhase::Rebuild => ScanRequest::Rebuild {
                shard_size: padded_size(self.stripe.max_len as u64),
            },
            ScanPhase::Done => ScanRequest::Finished,
        }
    }
}

impl RepairScan {
    /// Moves to the next stripe, or ends the scan.
    fn start_stripe(&mut self)
        requires
            old(self).limits.layout.total() > 0,
            old(self).limits.data_end <= i64::MAX,
            old(self).stripe@.fits(old(self).limits.layout),
            old(self).stats.archive_health is Healthy,
            old(self).stats.shards_repaired <= old(self).stats.corrupted_shards_found,
            old(self)@.stats.consistent(0),
        ensures
            final(self)@ == old(self)@.next_stripe(old(self).limits),
            final(self).limits == old(self).limits,
            final(self).wf(),
    {
        if self.offset < self.limits.data_end {
            self.phase = ScanPhase::Collect;
            self.probe = self.offset;
            self.shard = 0;
            self.copies = Vec::new();
            self.lengths = None;
            self.pending = None;
            self.stripe = StripeScan::new(self.limits.layout);
        } else {
            self.phase = ScanPhase::Done;
        }
        assert(self@ =~= old(self)@.next_stripe(old(self).limits));
    }

    /// Moves past the shard at hand, which is `length` bytes long.
    fn pass_shard(&mut self, length: u32) -> (r: Result<(), EraError>)
        requires
            old(self).limits.layout.total() > 0,
            old(self).limits.data_end <= i64::MAX,
            old(self).stripe@.fits(old(self).limits.layout),
            old(self).stats.archive_health is Healthy,
            old(self).stats.shards_repaired + old(self).stripe@.corrupted.len()
                <= old(self).stats.corrupted_shards_found,
            old(self)@.stats.consistent(0),
            old(self).shard < old(self).limits.layout.total(),
            old(self).offset <= old(self).limits.data_end + old(self).shard * SHARD_STEP,
            old(self).stripe@.covers(old(self).shard + 1),
            old(self).stats.room(1),
        ensures
            final(self)@ == old(self)@.past_shard(old(self).limits, length),
            final(self).limits == old(self).limits,
            final(self).wf(),
            given_up(r, old(self)@.gives_up(old(self).limits), old(self)@.stats.scanned),
    {
        let limits = self.limits;
        self.phase = ScanPhase::Front;
        self.pending = None;
        self.offset = self.offset + limits.layout.prefix_bytes() as u64 + SHARD_HEADER_SIZE
            + length as u64;
        self.shard = self.shard + 1;
        if self.shard < limits.layout.total_shards() {
            assert(self@ =~= old(self)@.past_shard(limits, length));
            return Ok(());
        }
        let ghost full = self@;
        self.stripe.normalize(&self.lengths);
        let block: u64 = self.stats.blocks_scanned;
        self.stats.conclude(&self.stripe, limits.layout);
        let ghost done = ScanView {
            stripe: full.stripe.normalized(full.lengths),
            stats: full.stats.concluded(full.stripe.normalized(full.lengths), limits.layout),
            ..full
        };
        assert(self@ =~= done);
        proof {
            match full.lengths {
                Some(l) => erasure_scan::law_longest_is_the_maximum(l),
                None => {},
            }
        }
        if self.stripe.corrupted.len() == 0 {
            self.start_stripe();
            return Ok(());
        }
        if self.stripe.shards.len() < limits.layout.data_shards as usize {
            if limits.continue_on_error {
                self.start_stripe();
                return Ok(());
            }
            self.phase = ScanPhase::Done;
            return Err(
                EraError::ErasureError(text::with_number("Block ", block, " is unrecoverable")),
            );
        }
        self.phase = ScanPhase::Rebuild;
        Ok(())
    }

    /// Takes what stands in front of a shard; `None` where it cannot be read.
    /// Fails where the archive is refused for an impossible length, and where a
    /// stripe is lost and the scan is not to go on.
    pub fn on_front(&mut self, front: Option<ShardFront>) -> (r: Result<(), EraError>)
        requires
            old(self).wf(),
            old(self).stats.room(1024),
            old(self).phase == ScanPhase::Collect || old(self).phase == ScanPhase::Front,
        ensures
            final(self).wf(),
            final(self).limits == old(self).limits,
            old(self).phase == ScanPhase::Collect ==> r is Ok && final(self)@
                == old(self)@.after_copy(old(self).limits, front),
            old(self).phase == ScanPhase::Front ==> final(self)@ == old(self)@.after_front(
                old(self).limits,
                front,
            ),
            old(self).phase == ScanPhase::Front ==> match old(self)@.refused(
                old(self).limits,
                front,
            ) {
                Some(t) => r matches Err(EraError::ErasureError(m)) && m@ == t,
                None => given_up(
                    r,
                    old(self)@.front_gives_up(old(self).limits, front),
                    old(self)@.stats.scanned,
                ),
            },
    {
        let limits = self.limits;
        let prefix_len: usize = limits.layout.prefix_bytes();
        let collecting = match self.phase {
            ScanPhase::Collect => true,
            _ => false,
        };
        if collecting {
            if let Some(f) = front {
                if f.prefix.len() == prefix_len {
                    let n: u32 = match f.header {
                        Some(h) => h.length,
                        None => 0,
                    };
                    self.copies.push(f.prefix);
                    self.probe = self.probe + prefix_len as u64 + SHARD_HEADER_SIZE + n as u64;
                    self.shard = self.shard + 1;
                    if self.shard < limits.layout.total_shards() && self.probe < limits.data_end {
                        assert(self@ =~= old(self)@.after_copy(limits, front));
                        return Ok(());
                    }
                }
            }
            self.lengths = reconcile_stripe_prefixes(
                self.copies.as_slice(),
                limits.layout.data_shards as usize,
            );
            self.phase = ScanPhase::Front;
            self.shard = 0;
            assert(self@ =~= old(self)@.after_copy(limits, front));
            return Ok(());
        }
        let f = match front {
            Some(f) => f,
            None => {
                self.phase = ScanPhase::Done;
                assert(self@ =~= old(self)@.after_front(limits, front));
                return Ok(());
            },
        };
        if f.prefix.len() != prefix_len {
            self.phase = ScanPhase::Done;
            assert(self@ =~= old(self)@.after_front(limits, front));
            return Ok(());
        }
        let agreed: Option<u32> = agreed_shard_length(
            &self.lengths,
            self.shard,
            limits.layout.data_shards as usize,
        );
        let bound: u32 = parity_bound_or_zero(&self.lengths);
        let v = judge_shard(agreed, f.header, bound);
        if let Some(e) = refusal(v) {
            self.phase = ScanPhase::Done;
            assert(self@ =~= old(self)@.after_front(limits, front));
            return Err(e);
        }
        let site = ShardSite { volume: 0, offset: self.offset + prefix_len as u64 };
        let i: usize = self.shard;
        proof {
            repair::lemma_damaged_covers(self.stripe@, i);
        }
        match v {
            ShardVerdict::ParityTooShort(n) => {
                self.stripe.place(i, site);
                proof {
                    repair::lemma_damaged_covers(self.stripe@, i);
                }
                self.stripe.mark_damaged(i);
                self.stats.corrupted_shards_found = self.stats.corrupted_shards_found + 1;
                assert(self@ =~= old(self)@.placed(limits).damaged());
                self.pass_shard(n)
            },
            ShardVerdict::Headerless(n) => {
                self.stripe.mark_damaged(i);
                self.stats.corrupted_shards_found = self.stats.corrupted_shards_found + 1;
                assert(self@ =~= old(self)@.damaged());
                self.pass_shard(n)
            },
            ShardVerdict::Readable(n) => {
                if let Some(h) = f.header {
                    let own: u32 = match agreed {
                        Some(a) => a,
                        None => h.length,
                    };
                    self.stripe.place(i, site);
                    self.stripe.measure(i, own, n);
                    self.pending = Some(
                        PendingShard { header: h, length: n, agreed: agreed.is_some() },
                    );
                    self.phase = ScanPhase::Data;
                }
                assert(self@ =~= old(self)@.after_front(limits, front));
                Ok(())
            },
            _ => {
                self.phase = ScanPhase::Done;
                assert(self@ =~= old(self)@.after_front(limits, front));
                Ok(())
            },
        }
    }

    /// Takes the bytes of a shard with their checksum; `None` where they cannot
    /// be read. Fails where a stripe is lost and the scan is not to go on.
    pub fn on_data(&mut self, read: Option<ShardRead>) -> (r: Result<(), EraError>)
        requires
            old(self).wf(),
            old(self).stats.room(1024),
            old(self).phase == ScanPhase::Data,
        ensures
            final(self).wf(),
            final(self).limits == old(self).limits,
            final(self)@ == old(self)@.after_data(old(self).limits, read),
            given_up(
                r,
                old(self)@.checked(read).gives_up(old(self).limits),
                old(self)@.stats.scanned,
            ),
    {
        let i: usize = self.shard;
        let p = match self.pending {
            Some(p) => p,
            None => return Ok(()),
        };
        if let Some(d) = read {
            proof {
                repair::lemma_damaged_covers(self.stripe@, i);
                repair::lemma_kept_covers(self.stripe@, i, d.data);
            }
            if shard_is_intact(&p.header, p.agreed, &d) {
                self.stripe.keep(i, d.data);
            } else {
                self.stripe.mark_damaged(i);
                self.stats.corrupted_shards_found = self.stats.corrupted_shards_found + 1;
            }
        } else {
            proof {
                repair::lemma_damaged_covers(self.stripe@, i);
            }
            self.stripe.mark_damaged(i);
            self.stats.corrupted_shards_found = self.stats.corrupted_shards_found + 1;
        }
        assert(self@ =~= old(self)@.checked(read));
        self.pass_shard(p.length)
    }

    /// Takes the stripe coded anew, or why it could not be coded.
    pub fn on_rebuilt(&mut self, coded: Result<Vec<Vec<u8>>, String>)
        requires
            old(self).wf(),
            old(self).stats.room(1024),
            old(self).phase == ScanPhase::Rebuild,
        ensures
            final(self).wf(),
            final(self).limits == old(self).limits,
            final(self)@ == old(self)@.after_rebuild(
                old(self).limits,
                match coded {
                    Ok(c) => Ok(c@),
                    Err(w) => Err(w@),
                },
            ),
    {
        match coded {
            Ok(c) => {
                match select_repaired(&c, &self.stripe.corrupted, &self.stripe.data_lengths) {
                    Ok(shards) => {
                        let n: u64 = collect_repairs(
                            &mut self.repairs,
                            &self.stripe,
                            shards,
                            Ghost(c@),
                        );
                        self.stats.shards_repaired = self.stats.shards_repaired + n;
                    },
                    Err(EraError::ErasureError(m)) => {
                        self.stats.coding_failed(m.as_str());
                    },
                    Err(_) => {},
                }
            },
            Err(why) => {
                self.stats.coding_failed(why.as_str());
            },
        }
        self.start_stripe();
    }

    /// The result of a scan that has ended. A single volume is always there.
    /// With the statistics come the shards to be written back.
    pub fn finish(self, total_volumes: u16, options: &RepairOptions) -> (r: (RepairStats, Vec<ShardRepair>))
        requires
            self.wf(),
            self.phase == ScanPhase::Done,
        ensures
            r.0.counts() == self@.stats,
            repair::repair_views(r.1@) == options.written(self@.repairs),
            repair::is_rating(
                r.0.archive_health,
                if total_volumes == 0 {
                    1
                } else {
                    total_volumes as usize
                },
                1,
                Seq::empty(),
                self@.stats.unrecoverable,
                1,
            ),
            r.0.archive_health is Healthy <==> self@.stats.unrecoverable == 0,
            self@.stats.unrecoverable > 0 ==> r.0.archive_health is Incomplete,
    {
        let mut stats = self.stats;
        let expected: usize = if total_volumes == 0 {
            1
        } else {
            total_volumes as usize
        };
        stats.archive_health = classify_repair_archive_health(
            expected,
            1,
            Vec::new(),
            stats.unrecoverable_blocks,
            1,
        );
        (stats, options.repairs_to_write(self.repairs))
    }
}

/// A scan reports every shard it passes as it moves on: what is repaired never
/// exceeds what was found damaged, in every state a scan can reach.
pub proof fn law_repaired_within_found(scan: RepairScan)
    requires
        scan.wf(),
    ensures
        scan@.stats.repaired <= scan@.stats.found,
{
}

/// Each shard that is passed moves the scan forward by at least its table and
/// header: a scan cannot stay in place.
pub proof fn law_scan_advances(m: ScanView, limits: ScanLimits, length: u32)
    requires
        m.shard + 1 < limits.layout.total(),
    ensures
        m.past_shard(limits, length).offset >= m.offset + limits.layout.prefix_len()
            + SHARD_HEADER_SIZE,
        m.past_shard(limits, length).offset > m.offset,
{
}

/// The place where a shard is written back is the place of its header, within
/// the stretch that the scan passes with that shard.
pub proof fn law_site_is_the_header(m: ScanView, limits: ScanLimits, header: ShardHeader, n: u32)
    requires
        0 <= m.shard < m.stripe.sites.len(),
        m.shard <= usize::MAX,
    ensures
        m.opened(limits, header, n).stripe.sites[m.shard] == Some(m.site(limits)),
{
}

/// Whenever a stripe is handed over to be rebuilt, it has at least as many
/// intact shards as data shards, and there is something to rebuild.
pub proof fn law_rebuilding_has_enough_shards(scan: RepairScan)
    requires
        scan.wf(),
        scan.phase == ScanPhase::Rebuild,
    ensures
        scan.stripe@.shards.len() >= scan.limits.layout.data_shards,
        0 < scan.stripe@.corrupted.len() <= scan.limits.layout.parity_shards,
{
    repair::law_damage_up_to_parity_is_survived(scan.stripe@, scan.limits.layout);
}

/// In every state that a scan can reach, no more stripes cannot be rebuilt than
/// have damage, of which there are no more than were scanned, and there is one
/// message for each that cannot be rebuilt.
pub proof fn law_counters_are_consistent(scan: RepairScan)
    requires
        scan.wf(),
    ensures
        scan.stats.unrecoverable_blocks <= scan.stats.blocks_with_corruption
            <= scan.stats.blocks_scanned,
        scan.stats.errors@.len() == scan.stats.unrecoverable_blocks,
{
    assert(scan.stats.counts().errors.len() == scan.stats.errors@.len());
}

/// What comes in while a volume is scanned.
pub enum ScanEvent {
    Front(Option<ShardFront>),
    Data(Option<ShardRead>),
    Rebuilt(Result<Seq<Vec<u8>>, Seq<char>>),
}

/// A scan after the first `n` of `events`.
pub open spec fn scanned(
    limits: ScanLimits,
    at: int,
    events: Seq<ScanEvent>,
    n: int,
) -> ScanView
    decreases n,
{
    if n <= 0 {
        ScanView::start(limits, at)
    } else {
        let v = scanned(limits, at, events, n - 1);
        match events[n - 1] {
            ScanEvent::Front(f) => if v.phase == ScanPhase::Collect {
                v.after_copy(limits, f)
            } else {
                v.after_front(limits, f)
            },
            ScanEvent::Data(d) => v.after_data(limits, d),
            ScanEvent::Rebuilt(c) => v.after_rebuild(limits, c),
        }
    }
}

/// A dry run reports what a repair of the same volume reports, writes nothing
/// back, and makes no copy, also where copies are asked for.
pub proof fn law_dry_run_only_reports(
    options: RepairOptions,
    layout: ErasureCodeConfig,
    data_start: u64,
    data_end: u64,
    events: Seq<ScanEvent>,
    n: int,
)
    ensures
        ({
            let dry = RepairOptions { dry_run: true, ..options };
            let tried = scanned(
                ScanLimits::of(layout, data_end, dry),
                data_start as int,
                events,
                n,
            );
            let done = scanned(
                ScanLimits::of(layout, data_end, options),
                data_start as int,
                events,
                n,
            );
            &&& tried.stats == done.stats
            &&& dry.written(tried.repairs) == Seq::<RepairView>::empty()
            &&& !dry.backs_up()
        }),
{
}

/// A data shard whose header cannot be read is damaged and is passed over at the length that
/// the table gives it, so that the next shard is found.
pub proof fn law_unreadable_header_is_damage(
    v: ScanView,
    limits: ScanLimits,
    front: ShardFront,
    table: Seq<u32>,
)
    requires
        v.lengths == Some(table),
        0 <= v.shard < table.len(),
        v.shard < limits.layout.data_shards,
        v.shard + 1 < limits.layout.total(),
        table[v.shard] <= 268435456,
        front.prefix@.len() == limits.layout.prefix_len(),
        front.header is None,
    ensures
        ({
            let e = v.after_front(limits, Some(front));
            &&& v.refused(limits, Some(front)) is None
            &&& e.stripe.corrupted == v.stripe.corrupted.push(v.shard as usize)
            &&& e.stripe.shards == v.stripe.shards
            &&& e.stats.found == v.stats.found + 1
            &&& e.stats.repaired == v.stats.repaired
            &&& e.offset == v.offset + limits.layout.prefix_len() + 8 + table[v.shard]
            &&& e.shard == v.shard + 1
            &&& e.phase == ScanPhase::Front
            &&& e.repairs == v.repairs
        }),
{
}

/// A shard that cannot be read, or whose bytes do not have its checksum, is damaged; its place
/// stays known and the scan goes on behind it.
pub proof fn law_bad_bytes_are_damage(v: ScanView, limits: ScanLimits, read: Option<ShardRead>)
    requires
        v.pending is Some,
        0 <= v.shard,
        v.shard + 1 < limits.layout.total(),
        read matches Some(r) ==> r.crc != (v.pending->0).header.crc,
    ensures
        ({
            let e = v.after_data(limits, read);
            &&& e.stripe.corrupted == v.stripe.corrupted.push(v.shard as usize)
            &&& e.stripe.shards == v.stripe.shards
            &&& e.stripe.sites == v.stripe.sites
            &&& e.stats.found == v.stats.found + 1
            &&& e.offset == v.offset + limits.layout.prefix_len() + 8 + (v.pending->0).length
            &&& e.shard == v.shard + 1
        }),
{
}

/// Behind the last shard of a stripe with too few intact shards, the loss is counted and told.
/// The scan then goes on only where it was asked to, and gives up exactly where it was not.
pub proof fn law_lost_stripe_is_told(v: ScanView, limits: ScanLimits, length: u32)
    requires
        v.shard + 1 == limits.layout.total(),
        v.stripe.corrupted.len() > 0,
        v.stripe.shards.len() < limits.layout.data_shards,
    ensures
        ({
            let e = v.past_shard(limits, length);
            &&& e.stats.unrecoverable == v.stats.unrecoverable + 1
            &&& e.stats.errors.len() == v.stats.errors.len() + 1
            &&& e.stats.repaired == v.stats.repaired
            &&& e.repairs == v.repairs
            &&& v.gives_up(limits) <==> !limits.continue_on_error
            &&& !limits.continue_on_error ==> e.phase == ScanPhase::Done
            &&& limits.continue_on_error && e.offset < limits.data_end ==> e.phase
                == ScanPhase::Collect && e.shard == 0
        }),
{
}

/// A stripe with enough intact shards never makes the scan give up: without damage the next
/// stripe comes, with damage it is rebuilt.
pub proof fn law_other_stripes_go_on(v: ScanView, limits: ScanLimits, length: u32)
    requires
        v.shard + 1 == limits.layout.total(),
        v.stripe.corrupted.len() == 0 || v.stripe.shards.len() >= limits.layout.data_shards,
    ensures
        ({
            let e = v.past_shard(limits, length);
            &&& !v.gives_up(limits)
            &&& e.stats.unrecoverable == v.stats.unrecoverable
            &&& e.stats.errors == v.stats.errors
            &&& e.stats.scanned == v.stats.scanned + 1
            &&& v.stripe.corrupted.len() > 0 ==> e.phase == ScanPhase::Rebuild
                && e.stripe.corrupted == v.stripe.corrupted && e.stripe.shards == v.stripe.shards
            &&& v.stripe.corrupted.len() == 0 && e.offset < limits.data_end ==> e.phase
                == ScanPhase::Collect && e.probe == e.offset
            &&& v.stripe.corrupted.len() == 0 && e.offset >= limits.data_end ==> e.phase
                == ScanPhase::Done
        }),
{
}

/// Where coding fails nothing is written back for the stripe, which counts as lost.
pub proof fn law_failed_coding_is_told(v: ScanView, limits: ScanLimits, why: Seq<char>)
    ensures
        ({
            let e = v.after_rebuild(limits, Err(why));
            &&& e.repairs == v.repairs
            &&& e.stats.unrecoverable == v.stats.unrecoverable + 1
            &&& e.stats.errors.len() == v.stats.errors.len() + 1
            &&& e.stats.repaired == v.stats.repaired
            &&& e.stats.scanned == v.stats.scanned
            &&& e.offset == v.offset
        }),
{
}

/// The table tells the length of data shards only, each its own.
pub proof fn law_table_is_for_data_shards(table: Seq<u32>, i: int, data_shards: int)
    requires
        0 <= i,
    ensures
        i < table.len() && i < data_shards ==> agreed_length(Some(table), i, data_shards) == Some(
            table[i],
        ),
        i >= data_shards || i >= table.len() ==> agreed_length(Some(table), i, data_shards) is None,
        agreed_length(None, i, data_shards) is None,
{
}

} // verus!

//! Repairing a volume whose shards are damaged.
//!
//! Here a whole scan over the stripes of a volume is put next to what was written
//! there: what the scan wants written back is, shard by shard, what stood there
//! before the damage.
use vstd::prelude::*;

use crate::erasure_scan;
use crate::lost_volumes;
use crate::lost_volumes::WrittenStripe;
use crate::repair;
use crate::repair::{RepairView, ShardFront, ShardRead, ShardSite, StripeView};
use crate::repair_scan::{ScanLimits, ScanPhase, ScanView};
use crate::types::{ErasureCodeConfig, SHARD_HEADER_SIZE};

verus! {

/// What a volume replies while a stripe is scanned, shard by shard: in front of
/// the shard while copies are collected, in front of it again, and its bytes;
/// and the stripe coded anew, where that is asked for.
pub struct ScanReplies {
    pub fronts: Seq<Option<ShardFront>>,
    pub heads: Seq<Option<ShardFront>>,
    pub reads: Seq<Option<ShardRead>>,
    pub coded: Result<Seq<Vec<u8>>, Seq<char>>,
}

/// The scan after the copies of the first `n` shards.
pub open spec fn copies_scanned(v: ScanView, limits: ScanLimits, r: ScanReplies, n: int) -> ScanView
    decreases n,
{
    if n <= 0 {
        v
    } else {
        copies_scanned(v, limits, r, n - 1).after_copy(limits, r.fronts[n - 1])
    }
}

/// The scan after one shard.
pub open spec fn shard_scanned(
    m: ScanView,
    limits: ScanLimits,
    head: Option<ShardFront>,
    read: Option<ShardRead>,
) -> ScanView {
    let f = m.after_front(limits, head);
    if f.phase == ScanPhase::Data {
        f.after_data(limits, read)
    } else {
        f
    }
}

/// The scan after the first `n` shards.
pub open spec fn shards_scanned(v: ScanView, limits: ScanLimits, r: ScanReplies, n: int) -> ScanView
    decreases n,
{
    if n <= 0 {
        copies_scanned(v, limits, r, limits.layout.total() as int)
    } else {
        shard_scanned(shards_scanned(v, limits, r, n - 1), limits, r.heads[n - 1], r.reads[n - 1])
    }
}

/// The scan after a stripe, coded anew where that is asked for.
pub open spec fn stripe_scanned(v: ScanView, limits: ScanLimits, r: ScanReplies) -> ScanView {
    let m = shards_scanned(v, limits, r, limits.layout.total() as int);
    if m.phase == ScanPhase::Rebuild {
        m.after_rebuild(limits, r.coded)
    } else {
        m
    }
}

/// The scan after the first `n` stripes.
pub open spec fn stripes_scanned(
    v: ScanView,
    limits: ScanLimits,
    replies: Seq<ScanReplies>,
    n: int,
) -> ScanView
    decreases n,
{
    if n <= 0 {
        v
    } else {
        stripe_scanned(stripes_scanned(v, limits, replies, n - 1), limits, replies[n - 1])
    }
}

/// The bytes that the first `n` shards of a stripe take.
pub open spec fn space_of(w: WrittenStripe, layout: ErasureCodeConfig, n: int) -> int
    decreases n,
{
    if n <= 0 {
        0
    } else {
        space_of(w, layout, n - 1) + w.space(layout, n - 1)
    }
}

/// Where the first `n` stripes of a volume end, the first of which begins at
/// `at`.
pub open spec fn stripes_end(
    stripes: Seq<WrittenStripe>,
    layout: ErasureCodeConfig,
    at: int,
    n: int,
) -> int
    decreases n,
{
    if n <= 0 {
        at
    } else {
        stripes_end(stripes, layout, at, n - 1) + space_of(
            stripes[n - 1],
            layout,
            layout.total() as int,
        )
    }
}

/// What stands in front of shard `j` is what was written there.
pub open spec fn front_stands(w: WrittenStripe, front: Option<ShardFront>, j: int) -> bool {
    &&& front matches Some(f)
    &&& f.prefix@ == erasure_scan::length_table(w.table)
    &&& f.header == Some(w.headers[j])
}

/// The replies about shard `j`: tables and headers are intact; the bytes are
/// what was written, or, where the shard is damaged, their checksum is not that
/// of the header, or they cannot be read.
pub open spec fn replied(w: WrittenStripe, damage: Set<int>, r: ScanReplies, j: int) -> bool {
    &&& front_stands(w, r.fronts[j], j)
    &&& front_stands(w, r.heads[j], j)
    &&& if damage.contains(j) {
        r.reads[j] matches Some(d) ==> d.crc != w.headers[j].crc
    } else {
        r.reads[j] matches Some(d) && d.data@ == w.data[j] && d.crc == w.headers[j].crc
    }
}

/// Of the first `n` shards, those that are damaged.
pub open spec fn damaged_below(damage: Set<int>, n: int) -> nat
    decreases n,
{
    if n <= 0 {
        0
    } else {
        damaged_below(damage, n - 1) + if damage.contains(n - 1) {
            1nat
        } else {
            0nat
        }
    }
}

/// What belongs written back of the first `n` shards of a stripe that begins at
/// `at`: every damaged one, as it was written, where its header stands.
pub open spec fn owed(
    w: WrittenStripe,
    layout: ErasureCodeConfig,
    at: int,
    damage: Set<int>,
    n: int,
) -> Seq<RepairView>
    decreases n,
{
    if n <= 0 {
        Seq::empty()
    } else {
        let rest = owed(w, layout, at, damage, n - 1);
        if damage.contains(n - 1) {
            rest.push(
                RepairView {
                    site: site_of(w, layout, at, n - 1),
                    shard_idx: (n - 1) as usize,
                    data: w.data[n - 1],
                },
            )
        } else {
            rest
        }
    }
}

/// Where the header of shard `j` stands.
pub open spec fn site_of(w: WrittenStripe, layout: ErasureCodeConfig, at: int, j: int) -> ShardSite {
    ShardSite { volume: 0, offset: (at + space_of(w, layout, j) + layout.prefix_len()) as u64 }
}

/// What belongs written back of the first `n` stripes.
pub open spec fn all_owed(
    stripes: Seq<WrittenStripe>,
    layout: ErasureCodeConfig,
    at: int,
    damage: Seq<Set<int>>,
    n: int,
) -> Seq<RepairView>
    decreases n,
{
    if n <= 0 {
        Seq::empty()
    } else {
        all_owed(stripes, layout, at, damage, n - 1) + owed(
            stripes[n - 1],
            layout,
            stripes_end(stripes, layout, at, n - 1),
            damage[n - 1],
            layout.total() as int,
        )
    }
}

/// A scan stands at the start of a stripe.
pub open spec fn at_stripe(v: ScanView, limits: ScanLimits) -> bool {
    &&& v.phase == ScanPhase::Collect
    &&& v.probe == v.offset
    &&& v.shard == 0
    &&& v.copies.len() == 0
    &&& v.lengths is None
    &&& v.pending is None
    &&& v.stripe == StripeView::fresh(limits.layout)
}

/// A stripe that a scan is at, and the replies about it.
spec fn scanning(
    v: ScanView,
    limits: ScanLimits,
    w: WrittenStripe,
    damage: Set<int>,
    r: ScanReplies,
) -> bool {
    &&& at_stripe(v, limits)
    &&& limits.layout.data_shards > 0
    &&& w.wf(limits.layout)
    &&& v.offset + space_of(w, limits.layout, limits.layout.total() as int) <= limits.data_end
    &&& forall|j: int| 0 <= j < limits.layout.total() ==> #[trigger] replied(w, damage, r, j)
}

proof fn lemma_space_grows(w: WrittenStripe, layout: ErasureCodeConfig, i: int, j: int)
    requires
        0 <= i < j,
    ensures
        space_of(w, layout, i) < space_of(w, layout, j),
    decreases j - i,
{
    if i < j - 1 {
        lemma_space_grows(w, layout, i, j - 1);
    }
}

proof fn lemma_copies_scanned(
    v: ScanView,
    limits: ScanLimits,
    w: WrittenStripe,
    damage: Set<int>,
    r: ScanReplies,
    n: int,
)
    requires
        scanning(v, limits, w, damage, r),
        0 <= n <= limits.layout.total(),
    ensures
        ({
            let m = copies_scanned(v, limits, r, n);
            let total = limits.layout.total();
            &&& m.copies.len() == n
            &&& forall|k: int|
                0 <= k < n ==> (#[trigger] m.copies[k])@ == erasure_scan::length_table(w.table)
            &&& m.probe == v.offset + space_of(w, limits.layout, n)
            &&& m.offset == v.offset
            &&& m.stripe == v.stripe
            &&& m.stats == v.stats
            &&& m.repairs == v.repairs
            &&& m.pending is None
            &&& n < total ==> m.phase == ScanPhase::Collect && m.shard == n && m.lengths is None
            &&& n == total ==> m.phase == ScanPhase::Front && m.shard == 0 && m.lengths == if total
                >= 2 {
                Some(w.table)
            } else {
                None
            }
        }),
    decreases n,
{
    if n > 0 {
        lemma_copies_scanned(v, limits, w, damage, r, n - 1);
        let m = copies_scanned(v, limits, r, n - 1);
        let e = copies_scanned(v, limits, r, n);
        assert(replied(w, damage, r, n - 1));
        assert(w.shard_wf(limits.layout, n - 1));
        assert(erasure_scan::length_table(w.table).len() == limits.layout.prefix_len());
        assert(e.copies == m.copies.push((r.fronts[n - 1]->0).prefix));
        if n < limits.layout.total() {
            lemma_space_grows(w, limits.layout, n, limits.layout.total() as int);
        } else {
            let t = erasure_scan::length_table(w.table);
            assert forall|k: int| 0 <= k < e.copies.len() implies erasure_scan::contents(
                e.copies,
            )[k] == t by {
                assert(e.copies[k]@ == t);
            }
            erasure_scan::law_equal_copies_agree(erasure_scan::contents(e.copies), t);
            erasure_scan::law_length_table_round_trip(w.table);
        }
    }
}

/// What holds of the stripe under scan after `n` shards.
spec fn noted(
    m: ScanView,
    v: ScanView,
    limits: ScanLimits,
    w: WrittenStripe,
    damage: Set<int>,
    n: int,
) -> bool {
    let layout = limits.layout;
    &&& m.offset == v.offset + space_of(w, layout, n)
    &&& m.repairs == v.repairs
    &&& m.stats == (repair::StatsView {
        found: v.stats.found + damaged_below(damage, n),
        ..v.stats
    })
    &&& m.lengths == if layout.total() >= 2 {
        Some(w.table)
    } else {
        None
    }
    &&& m.stripe.corrupted.len() == damaged_below(damage, n)
    &&& m.stripe.shards.len() + m.stripe.corrupted.len() == n
    &&& forall|k: int|
        0 <= k < m.stripe.corrupted.len() ==> #[trigger] m.stripe.corrupted[k] < n
            && damage.contains(m.stripe.corrupted[k] as int)
    &&& m.stripe.sites.len() == layout.total()
    &&& forall|j: int|
        0 <= j < n ==> #[trigger] m.stripe.sites[j] == Some(site_of(w, layout, v.offset, j))
    &&& m.stripe.data_lengths.len() == layout.data_shards
    &&& forall|j: int|
        0 <= j < n && j < layout.data_shards ==> #[trigger] m.stripe.data_lengths[j] == Some(
            w.table[j],
        )
    &&& forall|coded: Seq<Vec<u8>>|
        lost_volumes::coded_as_written(coded, w, layout) ==> #[trigger] repair::repairs_of(
            m.stripe,
            coded,
            m.stripe.corrupted.len() as int,
        ) == owed(w, layout, v.offset, damage, n)
}

/// Repairs look at the sites and lengths of the shards that they are about.
proof fn lemma_repairs_same(a: StripeView, b: StripeView, coded: Seq<Vec<u8>>, n: int)
    requires
        0 <= n <= a.corrupted.len(),
        n <= b.corrupted.len(),
        a.data_lengths.len() == b.data_lengths.len(),
        forall|k: int|
            0 <= k < n ==> {
                let j = #[trigger] a.corrupted[k];
                &&& b.corrupted[k] == j
                &&& a.sites[j as int] == b.sites[j as int]
                &&& j < a.data_lengths.len() ==> a.data_lengths[j as int]
                    == b.data_lengths[j as int]
            },
    ensures
        repair::repairs_of(a, coded, n) == repair::repairs_of(b, coded, n),
    decreases n,
{
    if n > 0 {
        lemma_repairs_same(a, b, coded, n - 1);
        let j = a.corrupted[n - 1];
        assert(b.corrupted[n - 1] == j);
    }
}

/// One shard is passed.
proof fn lemma_shard_scanned(
    m: ScanView,
    v: ScanView,
    limits: ScanLimits,
    w: WrittenStripe,
    damage: Set<int>,
    r: ScanReplies,
    j: int,
) -> (p: ScanView)
    requires
        scanning(v, limits, w, damage, r),
        0 <= j < limits.layout.total(),
        noted(m, v, limits, w, damage, j),
        m.phase == ScanPhase::Front,
        m.shard == j,
    ensures
        noted(
            ScanView {
                offset: p.offset + limits.layout.prefix_len()
                    + SHARD_HEADER_SIZE + w.headers[j].length,
                ..p
            },
            v,
            limits,
            w,
            damage,
            j + 1,
        ),
        p.shard == j,
        shard_scanned(m, limits, r.heads[j], r.reads[j]) == p.past_shard(
            limits,
            w.headers[j].length,
        ),
{
    let layout = limits.layout;
    assert(replied(w, damage, r, j));
    assert(w.shard_wf(layout, j));
    let header = w.headers[j];
    erasure_scan::law_longest_is_the_maximum(w.table);
    let top = choose|k: int| 0 <= k < w.table.len() && w.table[k] == erasure_scan::longest(w.table);
    assert(w.shard_wf(layout, top));
    assert(erasure_scan::length_table(w.table).len() == layout.prefix_len());
    assert(m.judged(limits, Some(header)) == repair::ShardVerdict::Readable(header.length));
    let f = m.opened(limits, header, header.length);
    assert(m.after_front(limits, r.heads[j]) == f);
    let p = f.checked(r.reads[j]);
    let e = ScanView {
        offset: p.offset + layout.prefix_len() + SHARD_HEADER_SIZE + header.length,
        ..p
    };
    assert(m.site(limits) == site_of(w, layout, v.offset, j));
    if j < layout.data_shards {
        assert(f.stripe.data_lengths[j] == Some(w.table[j]));
    }
    assert forall|coded: Seq<Vec<u8>>|
        lost_volumes::coded_as_written(coded, w, layout) implies #[trigger] repair::repairs_of(
        e.stripe,
        coded,
        e.stripe.corrupted.len() as int,
    ) == owed(w, layout, v.offset, damage, j + 1) by {
        let n = m.stripe.corrupted.len() as int;
        assert(repair::repairs_of(m.stripe, coded, n) == owed(w, layout, v.offset, damage, j));
        assert forall|k: int| 0 <= k < n implies {
            let i = #[trigger] m.stripe.corrupted[k];
            &&& e.stripe.corrupted[k] == i
            &&& m.stripe.sites[i as int] == e.stripe.sites[i as int]
            &&& i < m.stripe.data_lengths.len() ==> m.stripe.data_lengths[i as int]
                == e.stripe.data_lengths[i as int]
        } by {
            assert(m.stripe.corrupted[k] < j);
        }
        lemma_repairs_same(m.stripe, e.stripe, coded, n);
        if damage.contains(j) {
            assert(e.stripe.corrupted[n] == j);
            assert(e.stripe.sites[j] == Some(site_of(w, layout, v.offset, j)));
            lost_volumes::lemma_coded_shard(w, layout, coded, e.stripe.data_lengths, j);
        }
    }
    p
}

proof fn lemma_shards_scanned(
    v: ScanView,
    limits: ScanLimits,
    w: WrittenStripe,
    damage: Set<int>,
    r: ScanReplies,
    n: int,
)
    requires
        scanning(v, limits, w, damage, r),
        0 <= n < limits.layout.total(),
    ensures
        noted(shards_scanned(v, limits, r, n), v, limits, w, damage, n),
        shards_scanned(v, limits, r, n).phase == ScanPhase::Front,
        shards_scanned(v, limits, r, n).shard == n,
        shards_scanned(v, limits, r, n).pending is None,
    decreases n,
{
    if n > 0 {
        lemma_shards_scanned(v, limits, w, damage, r, n - 1);
        let m = shards_scanned(v, limits, r, n - 1);
        let p = lemma_shard_scanned(m, v, limits, w, damage, r, n - 1);
    } else {
        lemma_copies_scanned(v, limits, w, damage, r, limits.layout.total() as int);
        let m = shards_scanned(v, limits, r, 0);
        assert forall|coded: Seq<Vec<u8>>|
            lost_volumes::coded_as_written(coded, w, limits.layout) implies #[trigger]
        repair::repairs_of(m.stripe, coded, m.stripe.corrupted.len() as int) == owed(
            w,
            limits.layout,
            v.offset,
            damage,
            0,
        ) by {}
    }
}

pub(crate) proof fn lemma_no_fault(corrupted: Seq<usize>, total: int, lengths: Seq<Option<u32>>)
    requires
        forall|k: int|
            0 <= k < corrupted.len() ==> repair::selection_fault(
                #[trigger] corrupted[k],
                total,
                lengths,
            ) is None,
    ensures
        repair::first_fault(corrupted, total, lengths) is None,
    decreases corrupted.len(),
{
    if corrupted.len() > 0 {
        assert forall|k: int| 0 <= k < corrupted.drop_last().len() implies repair::selection_fault(
            #[trigger] corrupted.drop_last()[k],
            total,
            lengths,
        ) is None by {
            assert(corrupted.drop_last()[k] == corrupted[k]);
        }
        lemma_no_fault(corrupted.drop_last(), total, lengths);
        assert(repair::selection_fault(corrupted[corrupted.len() - 1], total, lengths) is None);
    }
}

/// A stripe with no more damaged shards than it has parity shards is repaired:
/// every damaged shard is to be written back as it was, nothing else is, and the
/// scan goes on behind the stripe.
pub proof fn law_damaged_stripe_is_repaired(
    v: ScanView,
    limits: ScanLimits,
    w: WrittenStripe,
    damage: Set<int>,
    r: ScanReplies,
)
    requires
        at_stripe(v, limits),
        limits.layout.data_shards > 0,
        w.wf(limits.layout),
        v.offset + space_of(w, limits.layout, limits.layout.total() as int) <= limits.data_end,
        forall|j: int| 0 <= j < limits.layout.total() ==> #[trigger] replied(w, damage, r, j),
        damaged_below(damage, limits.layout.total() as int) <= limits.layout.parity_shards,
        r.coded matches Ok(c) && lost_volumes::coded_as_written(c, w, limits.layout),
    ensures
        ({
            let e = stripe_scanned(v, limits, r);
            let total = limits.layout.total() as int;
            let n = damaged_below(damage, total);
            &&& e.repairs == v.repairs + owed(w, limits.layout, v.offset, damage, total)
            &&& e.offset == v.offset + space_of(w, limits.layout, total)
            &&& e.stats == (repair::StatsView {
                scanned: v.stats.scanned + 1,
                with_corruption: v.stats.with_corruption + if n > 0 {
                    1int
                } else {
                    0
                },
                found: v.stats.found + n,
                repaired: v.stats.repaired + n,
                ..v.stats
            })
            &&& e.offset < limits.data_end ==> at_stripe(e, limits)
            &&& e.offset >= limits.data_end ==> e.phase == ScanPhase::Done
        }),
{
    let layout = limits.layout;
    let total = layout.total() as int;
    assert(scanning(v, limits, w, damage, r));
    lemma_shards_scanned(v, limits, w, damage, r, total - 1);
    let p = lemma_shard_scanned(
        shards_scanned(v, limits, r, total - 1),
        v,
        limits,
        w,
        damage,
        r,
        total - 1,
    );
    let m = ScanView {
        phase: ScanPhase::Front,
        pending: None,
        offset: p.offset + layout.prefix_len() + SHARD_HEADER_SIZE
            + w.headers[total - 1].length,
        shard: p.shard + 1,
        ..p
    };
    let s = shards_scanned(v, limits, r, total);
    assert(s == m.settled(limits));
    let n = damaged_below(damage, total) as int;
    let stripe = m.stripe.normalized(m.lengths);
    assert(stripe.corrupted == m.stripe.corrupted);
    assert(stripe.sites == m.stripe.sites);
    assert(stripe.shards == m.stripe.shards);
    assert(stripe.data_lengths =~= m.stripe.data_lengths) by {
        assert forall|j: int| 0 <= j < layout.data_shards implies stripe.data_lengths[j]
            == m.stripe.data_lengths[j] by {
            assert(m.stripe.data_lengths[j] == Some(w.table[j]));
        }
    }
    assert(!repair::is_lost(stripe, layout));
    let coded = r.coded->Ok_0;
    let found = owed(w, layout, v.offset, damage, total);
    assert(repair::repairs_of(m.stripe, coded, n) == found);
    lemma_owed_count(w, layout, v.offset, damage, total);
    if n > 0 {
        assert(s.phase == ScanPhase::Rebuild);
        assert forall|k: int| 0 <= k < stripe.corrupted.len() implies {
            let i = #[trigger] m.stripe.corrupted[k];
            &&& stripe.corrupted[k] == i
            &&& m.stripe.sites[i as int] == stripe.sites[i as int]
            &&& i < m.stripe.data_lengths.len() ==> m.stripe.data_lengths[i as int]
                == stripe.data_lengths[i as int]
        } by {}
        lemma_repairs_same(m.stripe, stripe, coded, n);
        assert forall|k: int| 0 <= k < stripe.corrupted.len() implies repair::selection_fault(
            #[trigger] stripe.corrupted[k],
            coded.len() as int,
            stripe.data_lengths,
        ) is None by {
            let i = m.stripe.corrupted[k] as int;
            assert(i < total);
            if i < layout.data_shards {
                assert(m.stripe.data_lengths[i] == Some(w.table[i]));
            }
        }
        lemma_no_fault(stripe.corrupted, coded.len() as int, stripe.data_lengths);
    } else {
        assert(v.repairs + found =~= v.repairs);
    }
}

/// One repair is owed for every damaged shard.
proof fn lemma_owed_count(
    w: WrittenStripe,
    layout: ErasureCodeConfig,
    at: int,
    damage: Set<int>,
    n: int,
)
    ensures
        owed(w, layout, at, damage, n).len() == damaged_below(damage, n),
    decreases n,
{
    if n > 0 {
        lemma_owed_count(w, layout, at, damage, n - 1);
    }
}

/// Repair gives a damaged volume back: where no stripe has more damaged shards
/// than parity shards, a scan from the start of the stripes to their end wants
/// exactly the damaged shards written back, each as it was written and where it
/// was written; it finds no stripe lost and repairs what it finds.
pub proof fn law_repair_gives_back_the_volume(
    stripes: Seq<WrittenStripe>,
    limits: ScanLimits,
    at: int,
    damage: Seq<Set<int>>,
    replies: Seq<ScanReplies>,
    n: int,
)
    requires
        limits.layout.data_shards > 0,
        damage.len() == stripes.len(),
        limits.data_end == stripes_end(stripes, limits.layout, at, stripes.len() as int),
        forall|s: int| 0 <= s < stripes.len() ==> (#[trigger] stripes[s]).wf(limits.layout),
        forall|s: int|
            0 <= s < stripes.len() ==> damaged_below(
                #[trigger] damage[s],
                limits.layout.total() as int,
            ) <= limits.layout.parity_shards,
        forall|s: int, j: int|
            0 <= s < stripes.len() && 0 <= j < limits.layout.total() ==> #[trigger] replied(
                stripes[s],
                damage[s],
                replies[s],
                j,
            ),
        forall|s: int|
            0 <= s < stripes.len() ==> ((#[trigger] replies[s]).coded matches Ok(c)
                && lost_volumes::coded_as_written(c, stripes[s], limits.layout)),
        0 <= n <= stripes.len(),
    ensures
        ({
            let e = stripes_scanned(ScanView::start(limits, at), limits, replies, n);
            &&& e.repairs == all_owed(stripes, limits.layout, at, damage, n)
            &&& e.stats.scanned == n
            &&& e.stats.unrecoverable == 0
            &&& e.stats.errors.len() == 0
            &&& e.stats.repaired == e.stats.found == e.repairs.len()
            &&& e.offset == stripes_end(stripes, limits.layout, at, n)
            &&& n < stripes.len() ==> at_stripe(e, limits)
            &&& n == stripes.len() ==> e.phase == ScanPhase::Done
        }),
    decreases n,
{
    let layout = limits.layout;
    if n < stripes.len() {
        lemma_stripes_end_grows(stripes, layout, at, n, stripes.len() as int);
    }
    if n > 0 {
        law_repair_gives_back_the_volume(stripes, limits, at, damage, replies, n - 1);
        let v = stripes_scanned(ScanView::start(limits, at), limits, replies, n - 1);
        assert(stripes[n - 1].wf(layout));
        assert(damaged_below(damage[n - 1], layout.total() as int) <= layout.parity_shards);
        assert(replies[n - 1].coded is Ok);
        if n < stripes.len() {
            lemma_stripes_end_grows(stripes, layout, at, n, stripes.len() as int);
        }
        law_damaged_stripe_is_repaired(v, limits, stripes[n - 1], damage[n - 1], replies[n - 1]);
        lemma_owed_count(
            stripes[n - 1],
            layout,
            v.offset,
            damage[n - 1],
            layout.total() as int,
        );
    }
}

proof fn lemma_stripes_end_grows(
    stripes: Seq<WrittenStripe>,
    layout: ErasureCodeConfig,
    at: int,
    i: int,
    j: int,
)
    requires
        0 <= i < j <= stripes.len(),
        layout.data_shards > 0,
    ensures
        stripes_end(stripes, layout, at, i) < stripes_end(stripes, layout, at, j),
    decreases j - i,
{
    lemma_space_grows(stripes[j - 1], layout, 0, layout.total() as int);
    if i < j - 1 {
        lemma_stripes_end_grows(stripes, layout, at, i, j - 1);
    }
}

} // verus!

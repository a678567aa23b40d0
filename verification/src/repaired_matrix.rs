//! Repairing an archive whose shards are spread over volumes, some of which are
//! missing or hold damaged shards.
//!
//! As for a single volume, a whole scan is put next to what was written: what it
//! wants written back is what stood there before.
use vstd::prelude::*;

use crate::erasure_scan;
use crate::lost_volumes;
use crate::lost_volumes::WrittenStripe;
use crate::repair;
use crate::repair::{RepairView, ShardSite, StripeView};
use crate::repair_matrix::{MatrixLimits, MatrixView};
use crate::repair_scan::ScanPhase;
use crate::repaired;
use crate::repaired::ScanReplies;

verus! {

/// The scan after the copies of the first `n` shards.
pub open spec fn copies_scanned(v: MatrixView, limits: &MatrixLimits, r: ScanReplies, n: int) -> MatrixView
    decreases n,
{
    if n <= 0 {
        v
    } else {
        copies_scanned(v, limits, r, n - 1).after_copy(limits, r.fronts[n - 1])
    }
}

/// The scan after the first `n` shards; one that has ended stays as it is.
pub open spec fn shards_scanned(v: MatrixView, limits: &MatrixLimits, r: ScanReplies, n: int) -> MatrixView
    decreases n,
{
    if n <= 0 {
        copies_scanned(v, limits, r, limits.layout.total() as int)
    } else {
        let m = shards_scanned(v, limits, r, n - 1);
        if m.phase == ScanPhase::Done {
            m
        } else {
            let f = m.after_front(limits, r.heads[n - 1]);
            if f.phase == ScanPhase::Data {
                f.after_data(limits, r.reads[n - 1])
            } else {
                f
            }
        }
    }
}

/// The scan after a stripe, coded anew where that is asked for.
pub open spec fn stripe_scanned(v: MatrixView, limits: &MatrixLimits, r: ScanReplies) -> MatrixView {
    let m = shards_scanned(v, limits, r, limits.layout.total() as int);
    if m.phase == ScanPhase::Rebuild {
        m.after_rebuild(limits, r.coded)
    } else {
        m
    }
}

/// The scan after the first `n` stripes.
pub open spec fn stripes_scanned(
    v: MatrixView,
    limits: &MatrixLimits,
    replies: Seq<ScanReplies>,
    n: int,
) -> MatrixView
    decreases n,
{
    if n <= 0 {
        v
    } else {
        stripe_scanned(stripes_scanned(v, limits, replies, n - 1), limits, replies[n - 1])
    }
}

/// Where the open volumes stand behind the first `n` shards of a stripe.
pub open spec fn behind(
    offsets: Seq<u64>,
    limits: &MatrixLimits,
    w: WrittenStripe,
    sequence: int,
    n: int,
) -> Seq<u64>
    decreases n,
{
    if n <= 0 {
        offsets
    } else {
        let before = behind(offsets, limits, w, sequence, n - 1);
        match limits.reader(n - 1, sequence) {
            Some(r) => before.update(
                r as int,
                (before[r as int] + w.space(limits.layout, n - 1)) as u64,
            ),
            None => before,
        }
    }
}

/// Where the open volumes stand behind the first `n` stripes.
pub open spec fn behind_stripes(
    offsets: Seq<u64>,
    limits: &MatrixLimits,
    stripes: Seq<WrittenStripe>,
    n: int,
) -> Seq<u64>
    decreases n,
{
    if n <= 0 {
        offsets
    } else {
        behind(
            behind_stripes(offsets, limits, stripes, n - 1),
            limits,
            stripes[n - 1],
            n - 1,
            limits.layout.total() as int,
        )
    }
}

/// Shard `j` of a stripe lies before the end of its volume, where that is open.
pub open spec fn lies_within(
    offsets: Seq<u64>,
    limits: &MatrixLimits,
    w: WrittenStripe,
    sequence: int,
    j: int,
) -> bool {
    limits.reader(j, sequence) matches Some(r) ==> behind(
        offsets,
        limits,
        w,
        sequence,
        j,
    )[r as int] + w.space(limits.layout, j) <= limits.ends@[r as int]
}

/// The shards of a stripe that cannot be used: those of missing volumes, and the
/// damaged ones.
pub open spec fn unusable(
    limits: &MatrixLimits,
    sequence: int,
    damage: Set<int>,
    n: int,
) -> nat
    decreases n,
{
    if n <= 0 {
        0
    } else {
        unusable(limits, sequence, damage, n - 1) + if limits.reader(n - 1, sequence) is None
            || damage.contains(n - 1) {
            1nat
        } else {
            0nat
        }
    }
}

/// The first `n` shards of a stripe that lie on open volumes.
pub open spec fn present(limits: &MatrixLimits, sequence: int, n: int) -> nat
    decreases n,
{
    if n <= 0 {
        0
    } else {
        present(limits, sequence, n - 1) + if limits.reader(n - 1, sequence) is Some {
            1nat
        } else {
            0nat
        }
    }
}

/// The replies about shard `j`: of an open volume as written, the bytes damaged
/// or not, but readable; of a missing one anything.
pub open spec fn replied(
    limits: &MatrixLimits,
    sequence: int,
    w: WrittenStripe,
    damage: Set<int>,
    r: ScanReplies,
    j: int,
) -> bool {
    limits.reader(j, sequence) is Some ==> repaired::replied(w, damage, r, j) && r.reads[j] is Some
}

/// What belongs written back of the first `n` shards of a stripe: every damaged
/// one on an open volume, as it was written, where its header stands.
pub open spec fn owed(
    offsets: Seq<u64>,
    limits: &MatrixLimits,
    w: WrittenStripe,
    sequence: int,
    damage: Set<int>,
    n: int,
) -> Seq<RepairView>
    decreases n,
{
    if n <= 0 {
        Seq::empty()
    } else {
        let rest = owed(offsets, limits, w, sequence, damage, n - 1);
        match limits.reader(n - 1, sequence) {
            Some(r) => if damage.contains(n - 1) {
                rest.push(
                    RepairView {
                        site: site_of(offsets, limits, w, sequence, r, n - 1),
                        shard_idx: (n - 1) as usize,
                        data: w.data[n - 1],
                    },
                )
            } else {
                rest
            },
            None => rest,
        }
    }
}

/// Where the header of shard `j` stands on open volume `r`.
pub open spec fn site_of(
    offsets: Seq<u64>,
    limits: &MatrixLimits,
    w: WrittenStripe,
    sequence: int,
    r: usize,
    j: int,
) -> ShardSite {
    ShardSite {
        volume: r,
        offset: (behind(offsets, limits, w, sequence, j)[r as int]
            + limits.layout.prefix_len()) as u64,
    }
}

/// What belongs written back of the first `n` stripes.
pub open spec fn all_owed(
    offsets: Seq<u64>,
    limits: &MatrixLimits,
    stripes: Seq<WrittenStripe>,
    damage: Seq<Set<int>>,
    n: int,
) -> Seq<RepairView>
    decreases n,
{
    if n <= 0 {
        Seq::empty()
    } else {
        all_owed(offsets, limits, stripes, damage, n - 1) + owed(
            behind_stripes(offsets, limits, stripes, n - 1),
            limits,
            stripes[n - 1],
            n - 1,
            damage[n - 1],
            limits.layout.total() as int,
        )
    }
}

/// A scan stands at the start of stripe `sequence`.
pub open spec fn at_stripe(v: MatrixView, limits: &MatrixLimits, sequence: int) -> bool {
    &&& v.phase == ScanPhase::Collect
    &&& v.sequence == sequence
    &&& v.probes == v.offsets
    &&& v.offsets.len() == limits.ends@.len()
    &&& v.shard == 0
    &&& v.copies.len() == 0
    &&& v.lengths is None
    &&& v.pending is None
    &&& v.stripe == StripeView::fresh(limits.layout)
}

/// The length of every data shard comes to be known: it lies on an open volume,
/// or two shards of the stripe do, and it is not empty.
pub open spec fn lengths_known(limits: &MatrixLimits, sequence: int, w: WrittenStripe) -> bool {
    forall|j: int|
        0 <= j < limits.layout.data_shards && (#[trigger] limits.reader(j, sequence)) is None
            ==> w.table[j] > 0 && present(limits, sequence, limits.layout.total() as int) >= 2
}

/// A stripe can be repaired: no more of its shards are missing or damaged than it
/// has parity shards, the others are as written, and coding gives the stripe.
pub open spec fn repairable(
    offsets: Seq<u64>,
    limits: &MatrixLimits,
    w: WrittenStripe,
    sequence: int,
    damage: Set<int>,
    r: ScanReplies,
) -> bool {
    let total = limits.layout.total() as int;
    &&& w.wf(limits.layout)
    &&& lengths_known(limits, sequence, w)
    &&& unusable(limits, sequence, damage, total) <= limits.layout.parity_shards
    &&& forall|j: int|
        0 <= j < total ==> #[trigger] lies_within(offsets, limits, w, sequence, j)
    &&& forall|j: int|
        0 <= j < total ==> #[trigger] replied(limits, sequence, w, damage, r, j)
    &&& r.coded matches Ok(c)
    &&& lost_volumes::coded_as_written(c, w, limits.layout)
}

spec fn scanning(
    v: MatrixView,
    limits: &MatrixLimits,
    w: WrittenStripe,
    damage: Set<int>,
    r: ScanReplies,
) -> bool {
    &&& limits.valid()
    &&& limits.layout.data_shards > 0
    &&& at_stripe(v, limits, v.sequence)
    &&& 0 <= v.sequence
    &&& repairable(v.offsets, limits, w, v.sequence, damage, r)
}

proof fn lemma_reader_fits(limits: &MatrixLimits, j: int, sequence: int)
    requires
        limits.valid(),
        0 <= j,
        0 <= sequence,
    ensures
        limits.reader(j, sequence) matches Some(r) ==> r < limits.ends@.len(),
{
    let n = limits.readers@.len() as int;
    vstd::arithmetic::div_mod::lemma_mod_bound(j, n);
    vstd::arithmetic::div_mod::lemma_mod_bound(j + sequence, n);
    let at = limits.strategy.volume_of(j as nat, sequence as nat, n as nat) as int;
    assert(limits.readers@[at] matches Some(r) ==> r < limits.ends@.len());
}

proof fn lemma_behind_len(
    offsets: Seq<u64>,
    limits: &MatrixLimits,
    w: WrittenStripe,
    sequence: int,
    n: int,
)
    requires
        limits.valid(),
        offsets.len() == limits.ends@.len(),
        0 <= sequence,
    ensures
        behind(offsets, limits, w, sequence, n).len() == offsets.len(),
    decreases n,
{
    if n > 0 {
        lemma_behind_len(offsets, limits, w, sequence, n - 1);
        lemma_reader_fits(limits, n - 1, sequence);
    }
}

proof fn lemma_copies_scanned(
    v: MatrixView,
    limits: &MatrixLimits,
    w: WrittenStripe,
    damage: Set<int>,
    r: ScanReplies,
    n: int,
)
    requires
        scanning(v, limits, w, damage, r),
        0 <= n <= limits.layout.total(),
    ensures
        ({
            let m = copies_scanned(v, limits, r, n);
            let total = limits.layout.total();
            &&& m.copies.len() == present(limits, v.sequence, n)
            &&& forall|k: int|
                0 <= k < m.copies.len() ==> (#[trigger] m.copies[k])@ == erasure_scan::length_table(
                    w.table,
                )
            &&& m.probes == behind(v.offsets, limits, w, v.sequence, n)
            &&& m.offsets == v.offsets
            &&& m.sequence == v.sequence
            &&& m.stripe == v.stripe
            &&& m.stats == v.stats
            &&& m.repairs == v.repairs
            &&& m.pending is None
            &&& n < total ==> m.phase == ScanPhase::Collect && m.shard == n && m.lengths is None
            &&& n == total ==> m.phase == ScanPhase::Front && m.shard == 0 && m.lengths == if
                m.copies.len() >= 2 {
                Some(w.table)
            } else {
                None
            }
        }),
    decreases n,
{
    if n > 0 {
        let j = n - 1;
        lemma_copies_scanned(v, limits, w, damage, r, j);
        lemma_reader_fits(limits, j, v.sequence);
        lemma_behind_len(v.offsets, limits, w, v.sequence, j);
        let m = copies_scanned(v, limits, r, j);
        let e = copies_scanned(v, limits, r, n);
        assert(replied(limits, v.sequence, w, damage, r, j));
        assert(lies_within(v.offsets, limits, w, v.sequence, j));
        assert(w.shard_wf(limits.layout, j));
        assert(erasure_scan::length_table(w.table).len() == limits.layout.prefix_len());
        match limits.reader(j, v.sequence) {
            Some(i) => {
                assert(e.copies == m.copies.push((r.fronts[j]->0).prefix));
            },
            None => {
                assert(e.copies == m.copies);
            },
        }
        if n == limits.layout.total() {
            let t = erasure_scan::length_table(w.table);
            assert forall|k: int| 0 <= k < e.copies.len() implies erasure_scan::contents(
                e.copies,
            )[k] == t by {
                assert(e.copies[k]@ == t);
            }
            erasure_scan::law_equal_copies_agree(erasure_scan::contents(e.copies), t);
            erasure_scan::law_length_table_round_trip(w.table);
        }
    }
}

/// What holds of the stripe under scan after `n` shards.
spec fn noted(
    m: MatrixView,
    v: MatrixView,
    limits: &MatrixLimits,
    w: WrittenStripe,
    damage: Set<int>,
    n: int,
) -> bool {
    let layout = limits.layout;
    let s = v.sequence;
    &&& m.offsets == behind(v.offsets, limits, w, s, n)
    &&& m.sequence == s
    &&& m.repairs == v.repairs
    &&& m.stats == (repair::StatsView {
        found: v.stats.found + unusable(limits, s, damage, n),
        ..v.stats
    })
    &&& m.lengths == if present(limits, s, layout.total() as int) >= 2 {
        Some(w.table)
    } else {
        None
    }
    &&& present(limits, s, n) > 0 ==> m.stripe.any_read
    &&& m.stripe.corrupted.len() == unusable(limits, s, damage, n)
    &&& m.stripe.shards.len() + m.stripe.corrupted.len() == n
    &&& forall|k: int|
        0 <= k < m.stripe.corrupted.len() ==> #[trigger] m.stripe.corrupted[k] < n
    &&& m.stripe.sites.len() == layout.total()
    &&& forall|j: int|
        0 <= j < layout.total() && (j >= n || limits.reader(j, s) is None)
            ==> (#[trigger] m.stripe.sites[j]) is None
    &&& m.stripe.data_lengths.len() == layout.data_shards
    &&& forall|j: int|
        0 <= j < layout.data_shards ==> #[trigger] m.stripe.data_lengths[j] == if j < n
            && limits.reader(j, s) is Some {
            Some(w.table[j])
        } else {
            None
        }
    &&& forall|coded: Seq<Vec<u8>>|
        lost_volumes::coded_as_written(coded, w, layout) ==> #[trigger] repair::repairs_of(
            m.stripe,
            coded,
            m.stripe.corrupted.len() as int,
        ) == owed(v.offsets, limits, w, s, damage, n)
}

/// Repairs look at the sites of damaged shards, and at the lengths of those whose
/// site is known.
proof fn lemma_repairs_same(a: StripeView, b: StripeView, coded: Seq<Vec<u8>>, n: int)
    requires
        0 <= n <= a.corrupted.len(),
        n <= b.corrupted.len(),
        a.data_lengths.len() == b.data_lengths.len(),
        forall|k: int|
            0 <= k < n ==> {
                let j = #[trigger] a.corrupted[k];
                &&& b.corrupted[k] == j
                &&& a.sites[j as int] == b.sites[j as int]
                &&& a.sites[j as int] is Some && j < a.data_lengths.len()
                    ==> a.data_lengths[j as int] == b.data_lengths[j as int]
            },
    ensures
        repair::repairs_of(a, coded, n) == repair::repairs_of(b, coded, n),
    decreases n,
{
    if n > 0 {
        lemma_repairs_same(a, b, coded, n - 1);
        let j = a.corrupted[n - 1];
        assert(b.corrupted[n - 1] == j);
    }
}

/// One shard is passed.
proof fn lemma_shard_scanned(
    m: MatrixView,
    v: MatrixView,
    limits: &MatrixLimits,
    w: WrittenStripe,
    damage: Set<int>,
    r: ScanReplies,
    j: int,
) -> (p: MatrixView)
    requires
        scanning(v, limits, w, damage, r),
        0 <= j < limits.layout.total(),
        noted(m, v, limits, w, damage, j),
        m.phase == ScanPhase::Front,
        m.shard == j,
    ensures
        noted(p, v, limits, w, damage, j + 1),
        p.shard == j,
        ({
            let f = m.after_front(limits, r.heads[j]);
            if f.phase == ScanPhase::Data {
                f.after_data(limits, r.reads[j])
            } else {
                f
            }
        }) == p.past_shard(limits),
{
    let layout = limits.layout;
    let s = v.sequence;
    lemma_reader_fits(limits, j, s);
    lemma_behind_len(v.offsets, limits, w, s, j);
    assert(replied(limits, s, w, damage, r, j));
    assert(lies_within(v.offsets, limits, w, s, j));
    assert(w.shard_wf(layout, j));
    let header = w.headers[j];
    erasure_scan::law_longest_is_the_maximum(w.table);
    let top = choose|k: int| 0 <= k < w.table.len() && w.table[k] == erasure_scan::longest(w.table);
    assert(w.shard_wf(layout, top));
    assert(erasure_scan::length_table(w.table).len() == layout.prefix_len());
    let n = m.stripe.corrupted.len() as int;
    match limits.reader(j, s) {
        None => {
            let p = m.damaged();
            let f = m.after_front(limits, r.heads[j]);
            assert(f == p.past_shard(limits));
            assert(f.phase != ScanPhase::Data);
            assert forall|coded: Seq<Vec<u8>>|
                lost_volumes::coded_as_written(coded, w, layout) implies #[trigger] repair::repairs_of(
                p.stripe,
                coded,
                p.stripe.corrupted.len() as int,
            ) == owed(v.offsets, limits, w, s, damage, j + 1) by {
                assert(repair::repairs_of(m.stripe, coded, n) == owed(
                    v.offsets,
                    limits,
                    w,
                    s,
                    damage,
                    j,
                ));
                lemma_repairs_same(m.stripe, p.stripe, coded, n);
                assert(p.stripe.corrupted[n] == j);
                assert(p.stripe.sites[j] is None);
            }
            p
        },
        Some(i) => {
            assert(m.offsets[i as int] < limits.ends@[i as int]);
            assert(m.usable(limits, r.heads[j]) == r.heads[j]);
            assert(m.judged(limits, Some(header)) == repair::ShardVerdict::Readable(
                header.length,
            ));
            let f = m.opened(limits, header, header.length);
            assert(m.after_front(limits, r.heads[j]) == f);
            let c = f.checked(limits, r.reads[j]);
            let p = c.moved(limits, i, header.length);
            assert(m.site(limits, i) == site_of(v.offsets, limits, w, s, i, j));
            assert(c.stripe.sites[j] == Some(m.site(limits, i)));
            assert forall|coded: Seq<Vec<u8>>|
                lost_volumes::coded_as_written(coded, w, layout) implies #[trigger] repair::repairs_of(
                p.stripe,
                coded,
                p.stripe.corrupted.len() as int,
            ) == owed(v.offsets, limits, w, s, damage, j + 1) by {
                assert(repair::repairs_of(m.stripe, coded, n) == owed(
                    v.offsets,
                    limits,
                    w,
                    s,
                    damage,
                    j,
                ));
                assert forall|k: int| 0 <= k < n implies {
                    let q = #[trigger] m.stripe.corrupted[k];
                    &&& p.stripe.corrupted[k] == q
                    &&& m.stripe.sites[q as int] == p.stripe.sites[q as int]
                    &&& m.stripe.sites[q as int] is Some && q < m.stripe.data_lengths.len()
                        ==> m.stripe.data_lengths[q as int] == p.stripe.data_lengths[q as int]
                } by {
                    assert(m.stripe.corrupted[k] < j);
                }
                lemma_repairs_same(m.stripe, p.stripe, coded, n);
                if damage.contains(j) {
                    assert(p.stripe.corrupted[n] == j);
                    lost_volumes::lemma_coded_shard(
                        w,
                        layout,
                        coded,
                        p.stripe.data_lengths,
                        j,
                    );
                }
            }
            p
        },
    }
}

proof fn lemma_shards_scanned(
    v: MatrixView,
    limits: &MatrixLimits,
    w: WrittenStripe,
    damage: Set<int>,
    r: ScanReplies,
    n: int,
)
    requires
        scanning(v, limits, w, damage, r),
        0 <= n < limits.layout.total(),
    ensures
        noted(shards_scanned(v, limits, r, n), v, limits, w, damage, n),
        shards_scanned(v, limits, r, n).phase == ScanPhase::Front,
        shards_scanned(v, limits, r, n).shard == n,
    decreases n,
{
    if n > 0 {
        lemma_shards_scanned(v, limits, w, damage, r, n - 1);
        let m = shards_scanned(v, limits, r, n - 1);
        let p = lemma_shard_scanned(m, v, limits, w, damage, r, n - 1);
    } else {
        lemma_copies_scanned(v, limits, w, damage, r, limits.layout.total() as int);
        let m = shards_scanned(v, limits, r, 0);
        assert forall|coded: Seq<Vec<u8>>|
            lost_volumes::coded_as_written(coded, w, limits.layout) implies #[trigger]
        repair::repairs_of(m.stripe, coded, m.stripe.corrupted.len() as int) == owed(
            v.offsets,
            limits,
            w,
            v.sequence,
            damage,
            0,
        ) by {}
    }
}

proof fn lemma_present(limits: &MatrixLimits, sequence: int, damage: Set<int>, n: int)
    requires
        0 <= n,
    ensures
        present(limits, sequence, n) + unusable(limits, sequence, damage, n) >= n,
    decreases n,
{
    if n > 0 {
        lemma_present(limits, sequence, damage, n - 1);
    }
}

/// A stripe of which no more shards are missing or damaged than it has parity
/// shards is repaired: every damaged shard on an open volume is to be written
/// back as it was, nothing else is, and the scan goes on behind the stripe.
pub proof fn law_spread_stripe_is_repaired(
    v: MatrixView,
    limits: &MatrixLimits,
    w: WrittenStripe,
    damage: Set<int>,
    r: ScanReplies,
)
    requires
        limits.valid(),
        limits.layout.data_shards > 0,
        at_stripe(v, limits, v.sequence),
        0 <= v.sequence,
        repairable(v.offsets, limits, w, v.sequence, damage, r),
    ensures
        ({
            let e = stripe_scanned(v, limits, r);
            let total = limits.layout.total() as int;
            let found = owed(v.offsets, limits, w, v.sequence, damage, total);
            let n = unusable(limits, v.sequence, damage, total);
            &&& e.repairs == v.repairs + found
            &&& e.offsets == behind(v.offsets, limits, w, v.sequence, total)
            &&& at_stripe(e, limits, v.sequence + 1)
            &&& e.stats == (repair::StatsView {
                scanned: v.stats.scanned + 1,
                with_corruption: v.stats.with_corruption + if n > 0 {
                    1int
                } else {
                    0
                },
                found: v.stats.found + n,
                repaired: v.stats.repaired + found.len(),
                ..v.stats
            })
        }),
{
    let layout = limits.layout;
    let total = layout.total() as int;
    let s = v.sequence;
    assert(scanning(v, limits, w, damage, r));
    lemma_shards_scanned(v, limits, w, damage, r, total - 1);
    let p = lemma_shard_scanned(
        shards_scanned(v, limits, r, total - 1),
        v,
        limits,
        w,
        damage,
        r,
        total - 1,
    );
    lemma_behind_len(v.offsets, limits, w, s, total);
    lemma_present(limits, s, damage, total);
    let m = MatrixView { phase: ScanPhase::Front, pending: None, shard: p.shard + 1, ..p };
    let e = shards_scanned(v, limits, r, total);
    assert(e == m.settled(limits));
    let stripe = m.stripe.normalized(m.lengths);
    let n = unusable(limits, s, damage, total) as int;
    let coded = r.coded->Ok_0;
    let found = owed(v.offsets, limits, w, s, damage, total);
    assert(repair::repairs_of(m.stripe, coded, n) == found);
    assert(!repair::is_lost(stripe, layout));
    assert forall|j: int| 0 <= j < layout.data_shards implies #[trigger] stripe.data_lengths[j]
        == Some(w.table[j]) by {
        assert(m.stripe.data_lengths[j] == if limits.reader(j, s) is Some {
            Some(w.table[j])
        } else {
            None
        });
    }
    if n > 0 {
        assert(e.phase == ScanPhase::Rebuild);
        assert forall|k: int| 0 <= k < n implies {
            let q = #[trigger] m.stripe.corrupted[k];
            &&& stripe.corrupted[k] == q
            &&& m.stripe.sites[q as int] == stripe.sites[q as int]
            &&& m.stripe.sites[q as int] is Some && q < m.stripe.data_lengths.len()
                ==> m.stripe.data_lengths[q as int] == stripe.data_lengths[q as int]
        } by {
            let q = m.stripe.corrupted[k] as int;
            assert(q < total);
            if q < layout.data_shards && m.stripe.sites[q] is Some {
                assert(limits.reader(q, s) is Some);
                assert(m.stripe.data_lengths[q] == Some(w.table[q]));
                assert(stripe.data_lengths[q] == Some(w.table[q]));
            }
        }
        lemma_repairs_same(m.stripe, stripe, coded, n);
        assert forall|k: int| 0 <= k < stripe.corrupted.len() implies repair::selection_fault(
            #[trigger] stripe.corrupted[k],
            coded.len() as int,
            stripe.data_lengths,
        ) is None by {
            let q = m.stripe.corrupted[k] as int;
            assert(q < total);
            if q < layout.data_shards {
                assert(stripe.data_lengths[q] == Some(w.table[q]));
            }
        }
        repaired::lemma_no_fault(stripe.corrupted, coded.len() as int, stripe.data_lengths);
    } else {
        lemma_nothing_owed(v.offsets, limits, w, s, damage, total);
        assert(v.repairs + found =~= v.repairs);
    }
}

/// Nothing is owed where nothing is damaged.
proof fn lemma_nothing_owed(
    offsets: Seq<u64>,
    limits: &MatrixLimits,
    w: WrittenStripe,
    sequence: int,
    damage: Set<int>,
    n: int,
)
    requires
        unusable(limits, sequence, damage, n) == 0,
    ensures
        owed(offsets, limits, w, sequence, damage, n).len() == 0,
    decreases n,
{
    if n > 0 {
        lemma_nothing_owed(offsets, limits, w, sequence, damage, n - 1);
    }
}

/// Once no open volume has anything left, the scan ends with the next stripe,
/// whatever is replied, and nothing is added to what is to be written back.
pub proof fn law_scan_ends_with_the_volumes(
    v: MatrixView,
    limits: &MatrixLimits,
    r: ScanReplies,
)
    requires
        limits.valid(),
        at_stripe(v, limits, v.sequence),
        0 <= v.sequence,
        forall|i: int| 0 <= i < v.offsets.len() ==> #[trigger] v.offsets[i] >= limits.ends@[i],
    ensures
        ({
            let e = stripe_scanned(v, limits, r);
            &&& e.phase == ScanPhase::Done
            &&& e.repairs == v.repairs
            &&& e.stats == (repair::StatsView { found: e.stats.found, ..v.stats })
        }),
{
    let total = limits.layout.total() as int;
    lemma_nothing_copied(v, limits, r, total);
    lemma_nothing_read(v, limits, r, total);
}

proof fn lemma_nothing_copied(v: MatrixView, limits: &MatrixLimits, r: ScanReplies, n: int)
    requires
        limits.valid(),
        at_stripe(v, limits, v.sequence),
        0 <= v.sequence,
        forall|i: int| 0 <= i < v.offsets.len() ==> #[trigger] v.offsets[i] >= limits.ends@[i],
        0 <= n <= limits.layout.total(),
    ensures
        ({
            let m = copies_scanned(v, limits, r, n);
            &&& m.probes == v.offsets
            &&& m.offsets == v.offsets
            &&& m.sequence == v.sequence
            &&& m.stripe == v.stripe
            &&& m.stats == v.stats
            &&& m.repairs == v.repairs
            &&& n < limits.layout.total() ==> m.phase == ScanPhase::Collect && m.shard == n
            &&& n == limits.layout.total() ==> m.phase == ScanPhase::Front && m.shard == 0
        }),
    decreases n,
{
    if n > 0 {
        lemma_nothing_copied(v, limits, r, n - 1);
        lemma_reader_fits(limits, n - 1, v.sequence);
    }
}

proof fn lemma_nothing_read(v: MatrixView, limits: &MatrixLimits, r: ScanReplies, n: int)
    requires
        limits.valid(),
        at_stripe(v, limits, v.sequence),
        0 <= v.sequence,
        forall|i: int| 0 <= i < v.offsets.len() ==> #[trigger] v.offsets[i] >= limits.ends@[i],
        0 <= n <= limits.layout.total(),
    ensures
        ({
            let m = shards_scanned(v, limits, r, n);
            &&& m.repairs == v.repairs
            &&& m.stats == (repair::StatsView { found: m.stats.found, ..v.stats })
            &&& m.phase != ScanPhase::Done ==> {
                &&& m.phase == ScanPhase::Front
                &&& m.shard == n
                &&& n < limits.layout.total()
                &&& m.offsets == v.offsets
                &&& m.sequence == v.sequence
                &&& !m.stripe.any_read
            }
        }),
    decreases n,
{
    if n > 0 {
        lemma_nothing_read(v, limits, r, n - 1);
        lemma_reader_fits(limits, n - 1, v.sequence);
    } else {
        lemma_nothing_copied(v, limits, r, limits.layout.total() as int);
    }
}

/// Repair gives the open volumes of a damaged archive back: where of no stripe
/// more shards are missing or damaged than it has parity shards, a scan over all
/// stripes wants exactly the damaged shards of open volumes written back, each as
/// it was written and where it was written, and finds no stripe lost. Behind the
/// last stripe it ends.
pub proof fn law_repair_gives_back_the_volumes(
    v: MatrixView,
    limits: &MatrixLimits,
    stripes: Seq<WrittenStripe>,
    damage: Seq<Set<int>>,
    replies: Seq<ScanReplies>,
    n: int,
)
    requires
        limits.valid(),
        limits.layout.data_shards > 0,
        at_stripe(v, limits, 0),
        damage.len() == stripes.len(),
        0 <= n <= stripes.len(),
        forall|s: int|
            0 <= s < n ==> repairable(
                behind_stripes(v.offsets, limits, stripes, s),
                limits,
                #[trigger] stripes[s],
                s,
                damage[s],
                replies[s],
            ),
    ensures
        ({
            let e = stripes_scanned(v, limits, replies, n);
            let end = stripe_scanned(e, limits, replies[n]);
            let owed = all_owed(v.offsets, limits, stripes, damage, n);
            &&& e.repairs == v.repairs + owed
            &&& e.stats.repaired == v.stats.repaired + owed.len()
            &&& e.stats.scanned == v.stats.scanned + n
            &&& e.stats.unrecoverable == v.stats.unrecoverable
            &&& e.stats.errors == v.stats.errors
            &&& e.offsets == behind_stripes(v.offsets, limits, stripes, n)
            &&& at_stripe(e, limits, n)
            &&& (forall|i: int|
                0 <= i < e.offsets.len() ==> #[trigger] e.offsets[i] >= limits.ends@[i]) ==> {
                &&& end.phase == ScanPhase::Done
                &&& end.repairs == e.repairs
                &&& end.stats == (repair::StatsView { found: end.stats.found, ..e.stats })
            }
        }),
    decreases n,
{
    let e = stripes_scanned(v, limits, replies, n);
    if n > 0 {
        law_repair_gives_back_the_volumes(v, limits, stripes, damage, replies, n - 1);
        let u = stripes_scanned(v, limits, replies, n - 1);
        assert(repairable(u.offsets, limits, stripes[n - 1], n - 1, damage[n - 1], replies[n - 1]));
        law_spread_stripe_is_repaired(u, limits, stripes[n - 1], damage[n - 1], replies[n - 1]);
        assert(e.repairs =~= v.repairs + all_owed(v.offsets, limits, stripes, damage, n));
    } else {
        assert(e.repairs =~= v.repairs + all_owed(v.offsets, limits, stripes, damage, n));
    }
    if forall|i: int| 0 <= i < e.offsets.len() ==> #[trigger] e.offsets[i] >= limits.ends@[i] {
        law_scan_ends_with_the_volumes(e, limits, replies[n]);
    }
}

} // verus!

//! Reading an archive some of whose volumes are lost.
//!
//! The shards of a stripe lie on different volumes, so that losing as many
//! volumes as a stripe has parity shards leaves enough shards of every stripe.
//! Here this is stated of a whole iteration, stripe by stripe to the end.
use vstd::prelude::*;

use crate::block_iter::{DecodedBlock, DecodedChunk};
use crate::block_iter_erasure::{VerifiedShard, MAX_SHARD_SIZE};
use crate::block_iter_session;
use crate::block_iter_session::{FrontReply, StripeIterView, StripePhase, StripeVolumes};
use crate::erasure_scan;
use crate::repair;
use crate::repair::{ShardRead, StripeView};
use crate::shard_decode;
use crate::shard_decode::{DecodeContext, FirstError, ShardOutcome};
use crate::types;
use crate::types::{EraError, ErasureCodeConfig, ShardHeader, SHARD_HEADER_SIZE};

verus! {

/// What the volumes reply while a stripe is read, shard by shard: in front of
/// the shard while copies are collected, in front of it again, and its bytes.
pub struct StripeReplies {
    pub fronts: Seq<FrontReply>,
    pub heads: Seq<FrontReply>,
    pub reads: Seq<Option<ShardRead>>,
}

/// The view after the copies of the first `n` shards.
pub open spec fn copies_taken(
    v: StripeIterView,
    cx: &StripeVolumes,
    r: StripeReplies,
    n: int,
) -> StripeIterView
    decreases n,
{
    if n <= 0 {
        v.begun(cx)
    } else {
        copies_taken(v, cx, r, n - 1).after_copy(cx, r.fronts[n - 1])
    }
}

/// The view after the first `n` shards.
pub open spec fn shards_taken(
    v: StripeIterView,
    cx: &StripeVolumes,
    r: StripeReplies,
    n: int,
) -> StripeIterView
    decreases n,
{
    if n <= 0 {
        copies_taken(v, cx, r, cx.layout.total() as int)
    } else {
        shard_taken(shards_taken(v, cx, r, n - 1), cx, r.heads[n - 1], r.reads[n - 1])
    }
}

/// The view after one shard.
pub open spec fn shard_taken(
    m: StripeIterView,
    cx: &StripeVolumes,
    head: FrontReply,
    read: Option<ShardRead>,
) -> StripeIterView {
    let f = m.after_front(cx, head);
    if f.phase == StripePhase::Data {
        f.after_data(cx, read)
    } else {
        f
    }
}

/// The view after all shards of a stripe.
pub open spec fn stripe_taken(v: StripeIterView, cx: &StripeVolumes, r: StripeReplies) -> StripeIterView {
    shards_taken(v, cx, r, cx.layout.total() as int)
}

/// Nothing is to be had of shard `j`: its volume is not open, is at its end, or
/// cannot be read.
pub open spec fn silent(v: StripeIterView, cx: &StripeVolumes, r: StripeReplies, j: int) -> bool {
    match cx.reader(j, v.stripe) {
        None => true,
        Some(i) => v.offsets[i as int] >= cx.ends@[i as int] || (r.fronts[j].prefix is None
            && r.heads[j].prefix is None),
    }
}

/// Each position is as it was, or at the end.
spec fn only_ended(now: Seq<u64>, before: Seq<u64>, ends: Seq<u64>) -> bool {
    &&& now.len() == before.len()
    &&& forall|i: int|
        0 <= i < now.len() ==> #[trigger] now[i] == before[i] || now[i] == ends[i]
}

proof fn lemma_reader_in_range(cx: &StripeVolumes, j: int, stripe: int)
    requires
        cx.valid(),
        0 <= j,
        0 <= stripe,
    ensures
        0 <= cx.volume(j, stripe) < cx.vol_index_map@.len(),
        cx.reader(j, stripe) matches Some(i) ==> i < cx.ends@.len(),
{
    let n = cx.vol_index_map@.len() as int;
    vstd::arithmetic::div_mod::lemma_mod_bound(j, n);
    vstd::arithmetic::div_mod::lemma_mod_bound(j + stripe, n);
    let at = cx.volume(j, stripe) as int;
    assert(cx.vol_index_map@[at] matches Some(r) ==> r < cx.ends@.len());
}

proof fn lemma_silent_copies(v: StripeIterView, cx: &StripeVolumes, r: StripeReplies, n: int)
    requires
        cx.valid(),
        cx.layout.total() > 0,
        0 <= v.stripe,
        v.offsets.len() == cx.ends@.len(),
        forall|j: int| 0 <= j < cx.layout.total() ==> #[trigger] silent(v, cx, r, j),
        0 <= n <= cx.layout.total(),
    ensures
        ({
            let m = copies_taken(v, cx, r, n);
            &&& m.offsets == v.offsets
            &&& m.stripe == v.stripe
            &&& m.shards.len() == 0
            &&& m.max_len == 0
            &&& !m.any_seen
            &&& m.copies.len() == 0
            &&& only_ended(m.probes, v.offsets, cx.ends@)
            &&& n < cx.layout.total() ==> m.phase == StripePhase::Collect && m.shard == n
            &&& n == cx.layout.total() ==> m.phase == StripePhase::Front && m.shard == 0
                && m.lengths is None
        }),
    decreases n,
{
    if n > 0 {
        lemma_silent_copies(v, cx, r, n - 1);
        lemma_reader_in_range(cx, n - 1, v.stripe);
        assert(silent(v, cx, r, n - 1));
        let m = copies_taken(v, cx, r, n - 1);
        erasure_scan::law_equal_copies_agree(erasure_scan::contents(m.copies), Seq::empty());
    }
}

proof fn lemma_silent_shards(v: StripeIterView, cx: &StripeVolumes, r: StripeReplies, n: int)
    requires
        cx.valid(),
        cx.layout.total() > 0,
        0 <= v.stripe,
        v.offsets.len() == cx.ends@.len(),
        forall|j: int| 0 <= j < cx.layout.total() ==> #[trigger] silent(v, cx, r, j),
        0 <= n <= cx.layout.total(),
    ensures
        ({
            let m = shards_taken(v, cx, r, n);
            &&& only_ended(m.offsets, v.offsets, cx.ends@)
            &&& m.stripe == v.stripe
            &&& m.max_len == 0
            &&& !m.any_seen
            &&& m.lengths is None
            &&& n < cx.layout.total() ==> m.phase == StripePhase::Front && m.shard == n
            &&& n == cx.layout.total() ==> m.phase == StripePhase::Read
        }),
    decreases n,
{
    if n > 0 {
        lemma_silent_shards(v, cx, r, n - 1);
        lemma_reader_in_range(cx, n - 1, v.stripe);
        assert(silent(v, cx, r, n - 1));
    } else {
        lemma_silent_copies(v, cx, r, cx.layout.total() as int);
    }
}

/// Once no volume has anything left, whatever is replied, the next stripe is
/// the end: nothing was seen and no shard has a length. With no block queued,
/// this is where an iterator says that there is no more.
pub proof fn law_nothing_follows_the_end(v: StripeIterView, cx: &StripeVolumes, r: StripeReplies)
    requires
        cx.valid(),
        cx.layout.total() > 0,
        0 <= v.stripe,
        v.offsets.len() == cx.ends@.len(),
        forall|i: int| 0 <= i < v.offsets.len() ==> #[trigger] v.offsets[i] >= cx.ends@[i],
    ensures
        stripe_taken(v, cx, r).phase == StripePhase::Read,
        stripe_taken(v, cx, r).max_len == 0,
        !stripe_taken(v, cx, r).any_seen,
{
    assert forall|j: int| 0 <= j < cx.layout.total() implies #[trigger] silent(v, cx, r, j) by {
        lemma_reader_in_range(cx, j, v.stripe);
    }
    lemma_silent_shards(v, cx, r, cx.layout.total() as int);
}

/// A stripe as it was written: the lengths of its data shards, and the header
/// and the bytes of each shard.
pub struct WrittenStripe {
    pub table: Seq<u32>,
    pub headers: Seq<ShardHeader>,
    pub data: Seq<Seq<u8>>,
}

impl WrittenStripe {
    /// Data shards have their own lengths; parity shards have that of the
    /// longest, rounded up to an even number.
    pub open spec fn wf(self, layout: ErasureCodeConfig) -> bool {
        &&& self.table.len() == layout.data_shards
        &&& self.headers.len() == layout.total()
        &&& self.data.len() == layout.total()
        &&& 0 < erasure_scan::longest(self.table)
        &&& forall|j: int| 0 <= j < layout.total() ==> #[trigger] self.shard_wf(layout, j)
    }

    pub open spec fn shard_wf(self, layout: ErasureCodeConfig, j: int) -> bool {
        &&& self.headers[j].length == if j < layout.data_shards {
            self.table[j] as int
        } else {
            erasure_scan::even_up(erasure_scan::longest(self.table))
        }
        &&& self.headers[j].length <= MAX_SHARD_SIZE
        &&& self.data[j].len() == self.headers[j].length
    }

    /// The bytes that shard `j` takes on its volume.
    pub open spec fn space(self, layout: ErasureCodeConfig, j: int) -> int {
        layout.prefix_len() + SHARD_HEADER_SIZE + self.headers[j].length
    }

    /// The bytes that the first `n` shards of the stripe take on a volume, of
    /// which one at most lies there.
    pub open spec fn advance(self, cx: &StripeVolumes, stripe: int, volume: nat, n: int) -> int
        decreases n,
    {
        if n <= 0 {
            0
        } else if cx.volume(n - 1, stripe) == volume {
            self.space(cx.layout, n - 1)
        } else {
            self.advance(cx, stripe, volume, n - 1)
        }
    }

    /// What stands in front of shard `j` is what was written there.
    pub open spec fn front_is(self, reply: FrontReply, j: int) -> bool {
        &&& reply.prefix matches Some(p)
        &&& p@ == erasure_scan::length_table(self.table)
        &&& reply.header == Some(self.headers[j])
    }

    /// The replies about shard `j`: what was written, or nothing where its
    /// volume is lost.
    pub open spec fn answered(
        self,
        cx: &StripeVolumes,
        lost: Set<nat>,
        stripe: int,
        r: StripeReplies,
        j: int,
    ) -> bool {
        if lost.contains(cx.volume(j, stripe)) {
            cx.reader(j, stripe) is None || (r.fronts[j].prefix is None && r.heads[j].prefix is None)
        } else {
            &&& self.front_is(r.fronts[j], j)
            &&& self.front_is(r.heads[j], j)
            &&& r.reads[j] matches Some(d)
            &&& d.data@ == self.data[j]
            &&& d.crc == self.headers[j].crc
        }
    }
}

/// At most as many volumes are lost as there are parity shards; the others are
/// open, and there are at least as many volumes as a stripe has shards.
pub open spec fn enough_volumes(cx: &StripeVolumes, lost: Set<nat>) -> bool {
    &&& cx.valid()
    &&& cx.layout.data_shards > 0
    &&& cx.layout.total() <= cx.vol_index_map@.len()
    &&& lost.finite()
    &&& lost.len() <= cx.layout.parity_shards
    &&& forall|v: int|
        0 <= v < cx.vol_index_map@.len() && !lost.contains(v as nat) ==> (
        #[trigger] cx.vol_index_map@[v]) is Some
    &&& forall|v: int, w: int|
        0 <= v < w < cx.vol_index_map@.len() && cx.vol_index_map@[v] is Some ==> (
        #[trigger] cx.vol_index_map@[v]) != (#[trigger] cx.vol_index_map@[w])
}

/// Of the first `n` shards of a stripe, those whose volume is not lost.
pub open spec fn kept(cx: &StripeVolumes, lost: Set<nat>, stripe: int, n: int) -> nat
    decreases n,
{
    if n <= 0 {
        0
    } else {
        kept(cx, lost, stripe, n - 1) + if lost.contains(cx.volume(n - 1, stripe)) {
            0nat
        } else {
            1nat
        }
    }
}

/// The lost volumes that hold one of the first `n` shards.
spec fn hit(cx: &StripeVolumes, lost: Set<nat>, stripe: int, n: int) -> Set<nat>
    decreases n,
{
    if n <= 0 {
        Set::empty()
    } else if lost.contains(cx.volume(n - 1, stripe)) {
        hit(cx, lost, stripe, n - 1).insert(cx.volume(n - 1, stripe))
    } else {
        hit(cx, lost, stripe, n - 1)
    }
}

proof fn lemma_hit(cx: &StripeVolumes, lost: Set<nat>, stripe: int, n: int)
    requires
        0 <= stripe,
        0 <= n <= cx.vol_index_map@.len(),
    ensures
        hit(cx, lost, stripe, n).finite(),
        hit(cx, lost, stripe, n).len() + kept(cx, lost, stripe, n) == n,
        hit(cx, lost, stripe, n).subset_of(lost),
        forall|v: nat| #[trigger]
            hit(cx, lost, stripe, n).contains(v) ==> exists|j: int|
                0 <= j < n && #[trigger] cx.volume(j, stripe) == v,
    decreases n,
{
    if n > 0 {
        lemma_hit(cx, lost, stripe, n - 1);
        let v = cx.volume(n - 1, stripe);
        let h = hit(cx, lost, stripe, n - 1);
        if h.contains(v) {
            let j = choose|j: int| 0 <= j < n - 1 && #[trigger] cx.volume(j, stripe) == v;
            types::law_shards_of_a_stripe_are_apart(
                cx.strategy,
                j as nat,
                (n - 1) as nat,
                stripe as nat,
                cx.vol_index_map@.len(),
            );
        }
        assert forall|u: nat| #[trigger] hit(cx, lost, stripe, n).contains(u) implies exists|j: int|
            0 <= j < n && #[trigger] cx.volume(j, stripe) == u by {
            if u == v {
                assert(cx.volume(n - 1, stripe) == u);
            } else {
                assert(h.contains(u));
                let j = choose|j: int| 0 <= j < n - 1 && #[trigger] cx.volume(j, stripe) == u;
                assert(cx.volume(j, stripe) == u);
            }
        }
    }
}

/// Losing volumes costs a stripe at most one shard for each of them.
pub proof fn law_lost_volumes_cost_one_shard_each(
    cx: &StripeVolumes,
    lost: Set<nat>,
    stripe: int,
)
    requires
        0 <= stripe,
        lost.finite(),
        cx.layout.total() <= cx.vol_index_map@.len(),
    ensures
        kept(cx, lost, stripe, cx.layout.total() as int) + lost.len() >= cx.layout.total(),
{
    let n = cx.layout.total() as int;
    lemma_hit(cx, lost, stripe, n);
    vstd::set_lib::lemma_len_subset(hit(cx, lost, stripe, n), lost);
}

/// Two volumes that are not lost are read as two open volumes.
proof fn lemma_apart(cx: &StripeVolumes, lost: Set<nat>, v: nat, w: nat)
    requires
        enough_volumes(cx, lost),
        v < cx.vol_index_map@.len(),
        w < cx.vol_index_map@.len(),
        v != w,
        cx.vol_index_map@[v as int] is Some,
    ensures
        cx.vol_index_map@[v as int] != cx.vol_index_map@[w as int],
{
    if v < w {
        assert(cx.vol_index_map@[v as int] != cx.vol_index_map@[w as int]);
    } else if cx.vol_index_map@[w as int] is Some {
        assert(cx.vol_index_map@[w as int] != cx.vol_index_map@[v as int]);
    }
}

/// Before its shard, a stripe takes nothing of a volume; with it, the shard's
/// space.
proof fn lemma_advance(w: WrittenStripe, cx: &StripeVolumes, stripe: int, j: int, n: int)
    requires
        0 <= stripe,
        0 <= j < cx.vol_index_map@.len(),
        0 <= n <= cx.vol_index_map@.len(),
    ensures
        w.advance(cx, stripe, cx.volume(j, stripe), n) == if j < n {
            w.space(cx.layout, j)
        } else {
            0
        },
    decreases n,
{
    if n > 0 {
        lemma_advance(w, cx, stripe, j, n - 1);
        if j < n - 1 {
            types::law_shards_of_a_stripe_are_apart(
                cx.strategy,
                j as nat,
                (n - 1) as nat,
                stripe as nat,
                cx.vol_index_map@.len(),
            );
        } else if n - 1 < j {
            types::law_shards_of_a_stripe_are_apart(
                cx.strategy,
                (n - 1) as nat,
                j as nat,
                stripe as nat,
                cx.vol_index_map@.len(),
            );
        }
    }
}

/// Where the volumes stand after the first `n` shards: each that is not lost has
/// passed what it holds of them.
spec fn moved_on(
    now: Seq<u64>,
    v: StripeIterView,
    cx: &StripeVolumes,
    lost: Set<nat>,
    w: WrittenStripe,
    n: int,
) -> bool {
    &&& now.len() == cx.ends@.len()
    &&& forall|u: nat|
        u < cx.vol_index_map@.len() && !lost.contains(u) ==> #[trigger] volume_at(now, cx, u)
            == volume_at(v.offsets, cx, u) + w.advance(cx, v.stripe, u, n)
}

/// Where a volume of the archive that is open stands.
pub open spec fn volume_at(offsets: Seq<u64>, cx: &StripeVolumes, u: nat) -> int {
    offsets[(cx.vol_index_map@[u as int]->0) as int] as int
}

/// A stripe is to be read whole: every shard whose volume is not lost ends
/// before its volume does.
pub open spec fn ready(
    v: StripeIterView,
    cx: &StripeVolumes,
    lost: Set<nat>,
    w: WrittenStripe,
) -> bool {
    &&& 0 <= v.stripe
    &&& v.offsets.len() == cx.ends@.len()
    &&& forall|j: int|
        0 <= j < cx.layout.total() && !lost.contains(cx.volume(j, v.stripe)) ==> volume_at(
            v.offsets,
            cx,
            #[trigger] cx.volume(j, v.stripe),
        ) + w.space(cx.layout, j) <= cx.ends@[(cx.reader(j, v.stripe)->0) as int]
}

/// A stripe that is read, some volumes being lost.
spec fn reading(
    v: StripeIterView,
    cx: &StripeVolumes,
    lost: Set<nat>,
    w: WrittenStripe,
    r: StripeReplies,
) -> bool {
    &&& enough_volumes(cx, lost)
    &&& w.wf(cx.layout)
    &&& ready(v, cx, lost, w)
    &&& forall|j: int|
        0 <= j < cx.layout.total() ==> #[trigger] w.answered(cx, lost, v.stripe, r, j)
}

/// The position of one volume moves, which leaves the others where they are.
proof fn lemma_moved_on(
    before: Seq<u64>,
    now: Seq<u64>,
    to: u64,
    v: StripeIterView,
    cx: &StripeVolumes,
    lost: Set<nat>,
    w: WrittenStripe,
    n: int,
)
    requires
        enough_volumes(cx, lost),
        0 <= v.stripe,
        0 <= n < cx.layout.total(),
        moved_on(before, v, cx, lost, w, n),
        match cx.reader(n, v.stripe) {
            Some(i) => now == before.update(i as int, to) && (!lost.contains(
                cx.volume(n, v.stripe),
            ) ==> to == before[i as int] + w.space(cx.layout, n)),
            None => now == before,
        },
    ensures
        moved_on(now, v, cx, lost, w, n + 1),
{
    lemma_reader_in_range(cx, n, v.stripe);
    let h = cx.volume(n, v.stripe);
    assert forall|u: nat|
        u < cx.vol_index_map@.len() && !lost.contains(u) implies #[trigger] volume_at(now, cx, u)
        == volume_at(v.offsets, cx, u) + w.advance(cx, v.stripe, u, n + 1) by {
        assert(volume_at(before, cx, u) == volume_at(v.offsets, cx, u) + w.advance(
            cx,
            v.stripe,
            u,
            n,
        ));
        assert(cx.vol_index_map@[u as int] is Some);
        if u == h {
            lemma_advance(w, cx, v.stripe, n, n);
        } else {
            lemma_apart(cx, lost, u, h);
        }
    }
}

proof fn lemma_copies(
    v: StripeIterView,
    cx: &StripeVolumes,
    lost: Set<nat>,
    w: WrittenStripe,
    r: StripeReplies,
    n: int,
)
    requires
        reading(v, cx, lost, w, r),
        0 <= n <= cx.layout.total(),
    ensures
        ({
            let m = copies_taken(v, cx, r, n);
            &&& m.offsets == v.offsets
            &&& m.stripe == v.stripe
            &&& m.shards.len() == 0
            &&& m.max_len == 0
            &&& m.data_lengths == Seq::new(
                cx.layout.data_shards as nat,
                |i: int| None::<u32>,
            )
            &&& m.copies.len() == kept(cx, lost, v.stripe, n)
            &&& forall|k: int|
                0 <= k < m.copies.len() ==> (#[trigger] m.copies[k])@ == erasure_scan::length_table(
                    w.table,
                )
            &&& moved_on(m.probes, v, cx, lost, w, n)
            &&& n < cx.layout.total() ==> m.phase == StripePhase::Collect && m.shard == n
            &&& n == cx.layout.total() ==> m.phase == StripePhase::Front && m.shard == 0
                && m.lengths == if m.copies.len() >= 2 {
                Some(w.table)
            } else {
                None
            }
        }),
    decreases n,
{
    if n > 0 {
        lemma_copies(v, cx, lost, w, r, n - 1);
        let m = copies_taken(v, cx, r, n - 1);
        let e = copies_taken(v, cx, r, n);
        let j = n - 1;
        lemma_reader_in_range(cx, j, v.stripe);
        assert(w.answered(cx, lost, v.stripe, r, j));
        assert(w.shard_wf(cx.layout, j));
        let h = cx.volume(j, v.stripe);
        if !lost.contains(h) {
            assert(cx.vol_index_map@[h as int] is Some);
            let i = cx.reader(j, v.stripe)->0;
            lemma_advance(w, cx, v.stripe, j, j);
            assert(volume_at(m.probes, cx, h) == volume_at(v.offsets, cx, h));
            assert(cx.ends@[i as int] <= i64::MAX);
            let to = (m.probes[i as int] + w.space(cx.layout, j)) as u64;
            assert(e.probes == m.probes.update(i as int, to));
            lemma_moved_on(m.probes, e.probes, to, v, cx, lost, w, j);
            assert(e.copies == m.copies.push(r.fronts[j].prefix->0));
        } else {
            match cx.reader(j, v.stripe) {
                Some(i) => {
                    let to = e.probes[i as int];
                    assert(e.probes =~= m.probes.update(i as int, to));
                    lemma_moved_on(m.probes, e.probes, to, v, cx, lost, w, j);
                },
                None => {
                    lemma_moved_on(m.probes, e.probes, 0, v, cx, lost, w, j);
                },
            }
            assert(e.copies == m.copies);
        }
        if n == cx.layout.total() {
            let t = erasure_scan::length_table(w.table);
            assert forall|k: int| 0 <= k < e.copies.len() implies erasure_scan::contents(
                e.copies,
            )[k] == t by {
                assert(e.copies[k]@ == t);
            }
            erasure_scan::law_equal_copies_agree(erasure_scan::contents(e.copies), t);
            erasure_scan::law_length_table_round_trip(w.table);
        }
    } else {
        assert(moved_on(v.begun(cx).probes, v, cx, lost, w, 0));
    }
}

/// What the slot of shard `i` comes to hold.
pub open spec fn slot_for(slot: Option<Vec<u8>>, w: WrittenStripe, is_lost: bool, i: int) -> bool {
    if is_lost {
        slot is None
    } else {
        slot matches Some(d) && d@ == w.data[i]
    }
}

/// The shards read so far fill the slots as they should.
spec fn fills(
    shards: Seq<VerifiedShard>,
    cx: &StripeVolumes,
    lost: Set<nat>,
    stripe: int,
    w: WrittenStripe,
    n: int,
) -> bool {
    &&& forall|k: int|
        0 <= k < shards.len() ==> (#[trigger] shards[k]).index < n && shards[k].crc_valid
    &&& forall|i: int, slot: Option<Vec<u8>>|
        0 <= i < n && #[trigger] block_iter_session::slot_holds(
            slot,
            shards,
            i,
            shards.len() as int,
        ) ==> slot_for(slot, w, lost.contains(cx.volume(i, stripe)), i)
}

proof fn lemma_slot_prefix(
    slot: Option<Vec<u8>>,
    shards: Seq<VerifiedShard>,
    x: VerifiedShard,
    i: int,
    n: int,
)
    requires
        0 <= n <= shards.len(),
    ensures
        block_iter_session::slot_holds(slot, shards.push(x), i, n)
            == block_iter_session::slot_holds(slot, shards, i, n),
    decreases n,
{
    if n > 0 {
        lemma_slot_prefix(slot, shards, x, i, n - 1);
    }
}

proof fn lemma_slot_absent(slot: Option<Vec<u8>>, shards: Seq<VerifiedShard>, i: int, n: int)
    requires
        0 <= n <= shards.len(),
        forall|k: int| 0 <= k < shards.len() ==> (#[trigger] shards[k]).index < i,
        block_iter_session::slot_holds(slot, shards, i, n),
    ensures
        slot is None,
    decreases n,
{
    if n > 0 {
        assert(shards[n - 1].index < i);
        lemma_slot_absent(slot, shards, i, n - 1);
    }
}

proof fn lemma_fills_lost(
    shards: Seq<VerifiedShard>,
    cx: &StripeVolumes,
    lost: Set<nat>,
    stripe: int,
    w: WrittenStripe,
    n: int,
)
    requires
        fills(shards, cx, lost, stripe, w, n),
        lost.contains(cx.volume(n, stripe)),
        0 <= n,
    ensures
        fills(shards, cx, lost, stripe, w, n + 1),
{
    assert forall|i: int, slot: Option<Vec<u8>>|
        0 <= i < n + 1 && #[trigger] block_iter_session::slot_holds(
            slot,
            shards,
            i,
            shards.len() as int,
        ) implies slot_for(slot, w, lost.contains(cx.volume(i, stripe)), i) by {
        if i == n {
            lemma_slot_absent(slot, shards, i, shards.len() as int);
        }
    }
}

proof fn lemma_fills_kept(
    shards: Seq<VerifiedShard>,
    x: VerifiedShard,
    cx: &StripeVolumes,
    lost: Set<nat>,
    stripe: int,
    w: WrittenStripe,
    n: int,
)
    requires
        fills(shards, cx, lost, stripe, w, n),
        !lost.contains(cx.volume(n, stripe)),
        0 <= n,
        x.index == n,
        x.crc_valid,
        x.data@ == w.data[n],
    ensures
        fills(shards.push(x), cx, lost, stripe, w, n + 1),
{
    let all = shards.push(x);
    assert forall|i: int, slot: Option<Vec<u8>>|
        0 <= i < n + 1 && #[trigger] block_iter_session::slot_holds(
            slot,
            all,
            i,
            all.len() as int,
        ) implies slot_for(slot, w, lost.contains(cx.volume(i, stripe)), i) by {
        if i != n {
            lemma_slot_prefix(slot, shards, x, i, shards.len() as int);
            assert(block_iter_session::slot_holds(slot, shards, i, shards.len() as int));
        }
    }
}

/// What holds of a view after `n` shards, before the agreed table is taken into
/// account.
spec fn progress(
    m: StripeIterView,
    v: StripeIterView,
    cx: &StripeVolumes,
    lost: Set<nat>,
    w: WrittenStripe,
    n: int,
) -> bool {
    let all = kept(cx, lost, v.stripe, cx.layout.total() as int);
    &&& m.stripe == v.stripe
    &&& m.lengths == if all >= 2 {
        Some(w.table)
    } else {
        None
    }
    &&& moved_on(m.offsets, v, cx, lost, w, n)
    &&& fills(m.shards, cx, lost, v.stripe, w, n)
    &&& 0 <= m.max_len <= erasure_scan::even_up(erasure_scan::longest(w.table))
    &&& forall|j: int|
        0 <= j < n && !lost.contains(cx.volume(j, v.stripe)) ==> (#[trigger] w.headers[j]).length
            <= m.max_len
    &&& kept(cx, lost, v.stripe, n) > 0 ==> m.any_seen
    &&& m.data_lengths.len() == cx.layout.data_shards
    &&& forall|i: int|
        0 <= i < m.data_lengths.len() ==> (#[trigger] m.data_lengths[i] is None
            || m.data_lengths[i] == Some(w.table[i]))
}

/// After a shard, the view is past it.
proof fn lemma_shard(
    m: StripeIterView,
    v: StripeIterView,
    cx: &StripeVolumes,
    lost: Set<nat>,
    w: WrittenStripe,
    r: StripeReplies,
    j: int,
) -> (p: StripeIterView)
    requires
        reading(v, cx, lost, w, r),
        0 <= j < cx.layout.total(),
        progress(m, v, cx, lost, w, j),
        m.phase == StripePhase::Front,
        m.shard == j,
    ensures
        progress(p, v, cx, lost, w, j + 1),
        p.shard == j,
        shard_taken(m, cx, r.heads[j], r.reads[j]) == p.past_shard(cx),
{
    lemma_reader_in_range(cx, j, v.stripe);
    assert(w.answered(cx, lost, v.stripe, r, j));
    assert(w.shard_wf(cx.layout, j));
    let h = cx.volume(j, v.stripe);
    if lost.contains(h) {
        lemma_fills_lost(m.shards, cx, lost, v.stripe, w, j);
        match cx.reader(j, v.stripe) {
            None => {
                lemma_moved_on(m.offsets, m.offsets, 0, v, cx, lost, w, j);
                m
            },
            Some(i) => {
                if m.offsets[i as int] >= cx.ends@[i as int] {
                    assert(m.offsets.update(i as int, m.offsets[i as int]) =~= m.offsets);
                    lemma_moved_on(
                        m.offsets,
                        m.offsets,
                        m.offsets[i as int],
                        v,
                        cx,
                        lost,
                        w,
                        j,
                    );
                    m
                } else {
                    let p = m.ended(cx, i);
                    lemma_moved_on(
                        m.offsets,
                        p.offsets,
                        cx.ends@[i as int],
                        v,
                        cx,
                        lost,
                        w,
                        j,
                    );
                    p
                }
            },
        }
    } else {
        assert(cx.vol_index_map@[h as int] is Some);
        let i = cx.reader(j, v.stripe)->0;
        let header = w.headers[j];
        lemma_advance(w, cx, v.stripe, j, j);
        assert(volume_at(m.offsets, cx, h) == volume_at(v.offsets, cx, h));
        assert(cx.ends@[i as int] <= i64::MAX);
        assert(m.offsets[i as int] < cx.ends@[i as int]);
        erasure_scan::law_longest_is_the_maximum(w.table);
        let top = choose|k: int|
            0 <= k < w.table.len() && w.table[k] == erasure_scan::longest(w.table);
        assert(w.shard_wf(cx.layout, top));
        assert(erasure_scan::length_table(w.table).len() == cx.layout.prefix_len());
        assert(m.judged(cx, header) == block_iter_session::FrontVerdict::Readable(header.length));
        let seen = StripeIterView { any_seen: true, ..m };
        let f = seen.opened(cx, header, header.length);
        assert(m.after_front(cx, r.heads[j]) == f);
        let d = r.reads[j]->0;
        let x = VerifiedShard {
            index: j as usize,
            data: d.data,
            expected_crc: header.crc,
            crc_valid: true,
        };
        let k = StripeIterView { shards: m.shards.push(x), ..f };
        let p = k.moved(cx, i, header.length);
        assert(shard_taken(m, cx, r.heads[j], r.reads[j]) == p.past_shard(cx));
        lemma_fills_kept(m.shards, x, cx, lost, v.stripe, w, j);
        lemma_moved_on(
            m.offsets,
            p.offsets,
            (m.offsets[i as int] + w.space(cx.layout, j)) as u64,
            v,
            cx,
            lost,
            w,
            j,
        );
        p
    }
}

/// After the first shards of a stripe, as long as one is left.
proof fn lemma_shards(
    v: StripeIterView,
    cx: &StripeVolumes,
    lost: Set<nat>,
    w: WrittenStripe,
    r: StripeReplies,
    n: int,
)
    requires
        reading(v, cx, lost, w, r),
        0 <= n < cx.layout.total(),
    ensures
        progress(shards_taken(v, cx, r, n), v, cx, lost, w, n),
        shards_taken(v, cx, r, n).phase == StripePhase::Front,
        shards_taken(v, cx, r, n).shard == n,
    decreases n,
{
    if n > 0 {
        lemma_shards(v, cx, lost, w, r, n - 1);
        let m = shards_taken(v, cx, r, n - 1);
        let p = lemma_shard(m, v, cx, lost, w, r, n - 1);
    } else {
        lemma_copies(v, cx, lost, w, r, cx.layout.total() as int);
        erasure_scan::law_longest_is_the_maximum(w.table);
        assert(moved_on(v.offsets, v, cx, lost, w, 0));
    }
}

proof fn lemma_kept_one(cx: &StripeVolumes, lost: Set<nat>, stripe: int, n: int) -> (j: int)
    requires
        kept(cx, lost, stripe, n) > 0,
    ensures
        0 <= j < n,
        !lost.contains(cx.volume(j, stripe)),
    decreases n,
{
    if lost.contains(cx.volume(n - 1, stripe)) {
        lemma_kept_one(cx, lost, stripe, n - 1)
    } else {
        n - 1
    }
}

/// The slots that hold a shard.
pub open spec fn filled_slots(slots: Seq<Option<Vec<u8>>>) -> nat
    decreases slots.len(),
{
    if slots.len() == 0 {
        0
    } else {
        filled_slots(slots.drop_last()) + if slots.last() is Some {
            1nat
        } else {
            0nat
        }
    }
}

proof fn lemma_filled_slots(
    slots: Seq<Option<Vec<u8>>>,
    cx: &StripeVolumes,
    lost: Set<nat>,
    stripe: int,
    w: WrittenStripe,
)
    requires
        forall|i: int|
            0 <= i < slots.len() ==> slot_for(
                #[trigger] slots[i],
                w,
                lost.contains(cx.volume(i, stripe)),
                i,
            ),
    ensures
        filled_slots(slots) == kept(cx, lost, stripe, slots.len() as int),
    decreases slots.len(),
{
    if slots.len() > 0 {
        let n = slots.len() - 1;
        assert forall|i: int| 0 <= i < n implies slot_for(
            #[trigger] slots.drop_last()[i],
            w,
            lost.contains(cx.volume(i, stripe)),
            i,
        ) by {
            assert(slots.drop_last()[i] == slots[i]);
        }
        lemma_filled_slots(slots.drop_last(), cx, lost, stripe, w);
        assert(slot_for(slots[n], w, lost.contains(cx.volume(n, stripe)), n));
    }
}

/// The slots that an iterator hands to the coder after a stripe.
pub open spec fn slots_of(slots: Seq<Option<Vec<u8>>>, e: StripeIterView, cx: &StripeVolumes) -> bool {
    &&& slots.len() == cx.layout.total()
    &&& forall|i: int|
        0 <= i < slots.len() ==> block_iter_session::slot_holds(
            #[trigger] slots[i],
            e.shards,
            i,
            e.shards.len() as int,
        )
}

/// An archive as it was written: its stripes, and where each volume begins.
pub struct WrittenArchive {
    pub stripes: Seq<WrittenStripe>,
    pub begin: spec_fn(nat) -> int,
}

impl WrittenArchive {
    /// Where stripe `s` begins on a volume.
    pub open spec fn place(self, cx: &StripeVolumes, volume: nat, s: int) -> int
        decreases s,
    {
        if s <= 0 {
            (self.begin)(volume)
        } else {
            self.place(cx, volume, s - 1) + self.stripes[s - 1].advance(
                cx,
                s - 1,
                volume,
                cx.layout.total() as int,
            )
        }
    }

    /// Every volume that is not lost ends with its part of the last stripe.
    pub open spec fn wf(self, cx: &StripeVolumes, lost: Set<nat>) -> bool {
        &&& forall|s: int|
            0 <= s < self.stripes.len() ==> (#[trigger] self.stripes[s]).wf(cx.layout)
        &&& forall|u: nat|
            u < cx.vol_index_map@.len() && !lost.contains(u) ==> #[trigger] self.place(
                cx,
                u,
                self.stripes.len() as int,
            ) == volume_at(cx.ends@, cx, u)
    }

    /// An iteration is at stripe `s`: so is every volume that is not lost.
    pub open spec fn reached(
        self,
        v: StripeIterView,
        cx: &StripeVolumes,
        lost: Set<nat>,
        s: int,
    ) -> bool {
        &&& v.stripe == s
        &&& v.offsets.len() == cx.ends@.len()
        &&& forall|u: nat|
            u < cx.vol_index_map@.len() && !lost.contains(u) ==> #[trigger] volume_at(
                v.offsets,
                cx,
                u,
            ) == self.place(cx, u, s)
    }
}

proof fn lemma_place_grows(a: WrittenArchive, cx: &StripeVolumes, u: nat, s: int, t: int)
    requires
        0 <= s <= t <= a.stripes.len(),
    ensures
        a.place(cx, u, s) <= a.place(cx, u, t),
    decreases t - s,
{
    if s < t {
        lemma_place_grows(a, cx, u, s, t - 1);
        lemma_advance_positive(a.stripes[t - 1], cx, t - 1, u, cx.layout.total() as int);
    }
}

proof fn lemma_advance_positive(
    w: WrittenStripe,
    cx: &StripeVolumes,
    stripe: int,
    u: nat,
    n: int,
)
    ensures
        w.advance(cx, stripe, u, n) >= 0,
    decreases n,
{
    if n > 0 {
        lemma_advance_positive(w, cx, stripe, u, n - 1);
    }
}

/// A stripe that is reached can be read whole.
proof fn lemma_ready(
    a: WrittenArchive,
    v: StripeIterView,
    cx: &StripeVolumes,
    lost: Set<nat>,
    s: int,
)
    requires
        enough_volumes(cx, lost),
        a.wf(cx, lost),
        0 <= s < a.stripes.len(),
        a.reached(v, cx, lost, s),
    ensures
        ready(v, cx, lost, a.stripes[s]),
{
    let w = a.stripes[s];
    let n = cx.layout.total() as int;
    assert forall|j: int| 0 <= j < n && !lost.contains(cx.volume(j, v.stripe)) implies volume_at(
        v.offsets,
        cx,
        #[trigger] cx.volume(j, v.stripe),
    ) + w.space(cx.layout, j) <= cx.ends@[(cx.reader(j, v.stripe)->0) as int] by {
        let u = cx.volume(j, s);
        lemma_reader_in_range(cx, j, s);
        lemma_advance(w, cx, s, j, n);
        lemma_place_grows(a, cx, u, s + 1, a.stripes.len() as int);
        assert(volume_at(v.offsets, cx, u) == a.place(cx, u, s));
        assert(a.place(cx, u, a.stripes.len() as int) == volume_at(cx.ends@, cx, u));
    }
}

/// After a stripe that was reached, every volume that is not lost is at the next.
proof fn lemma_next_reached(
    a: WrittenArchive,
    v: StripeIterView,
    cx: &StripeVolumes,
    lost: Set<nat>,
    s: int,
    r: StripeReplies,
)
    requires
        enough_volumes(cx, lost),
        a.wf(cx, lost),
        0 <= s < a.stripes.len(),
        a.reached(v, cx, lost, s),
        forall|j: int|
            0 <= j < cx.layout.total() ==> #[trigger] a.stripes[s].answered(cx, lost, s, r, j),
    ensures
        a.reached(after_stripe(v, cx, r), cx, lost, s + 1),
{
    let w = a.stripes[s];
    let n = cx.layout.total() as int;
    lemma_ready(a, v, cx, lost, s);
    assert(reading(v, cx, lost, w, r));
    lemma_shards(v, cx, lost, w, r, n - 1);
    let p = lemma_shard(shards_taken(v, cx, r, n - 1), v, cx, lost, w, r, n - 1);
    let next = after_stripe(v, cx, r);
    assert forall|u: nat| u < cx.vol_index_map@.len() && !lost.contains(u) implies #[trigger]
    volume_at(next.offsets, cx, u) == a.place(cx, u, s + 1) by {
        assert(volume_at(p.offsets, cx, u) == volume_at(v.offsets, cx, u) + w.advance(cx, s, u, n));
        assert(volume_at(v.offsets, cx, u) == a.place(cx, u, s));
    }
}

/// The view once a stripe was read and its blocks were queued.
pub open spec fn after_stripe(v: StripeIterView, cx: &StripeVolumes, r: StripeReplies) -> StripeIterView {
    let e = stripe_taken(v, cx, r);
    StripeIterView { phase: StripePhase::Between, stripe: e.stripe + 1, ..e }
}

/// The view after the first `n` stripes.
pub open spec fn stripes_taken(
    v: StripeIterView,
    cx: &StripeVolumes,
    replies: Seq<StripeReplies>,
    n: int,
) -> StripeIterView
    decreases n,
{
    if n <= 0 {
        v
    } else {
        after_stripe(stripes_taken(v, cx, replies, n - 1), cx, replies[n - 1])
    }
}

/// An iteration from the start of an archive comes to every stripe in turn,
/// whichever volumes are lost, up to as many as a stripe has parity shards.
pub proof fn law_every_stripe_is_reached(
    a: WrittenArchive,
    v: StripeIterView,
    cx: &StripeVolumes,
    lost: Set<nat>,
    replies: Seq<StripeReplies>,
    n: int,
)
    requires
        enough_volumes(cx, lost),
        a.wf(cx, lost),
        0 <= n <= a.stripes.len(),
        a.reached(v, cx, lost, 0),
        forall|s: int, j: int|
            0 <= s < n && 0 <= j < cx.layout.total() ==> #[trigger] a.stripes[s].answered(
                cx,
                lost,
                s,
                replies[s],
                j,
            ),
    ensures
        a.reached(stripes_taken(v, cx, replies, n), cx, lost, n),
    decreases n,
{
    if n > 0 {
        law_every_stripe_is_reached(a, v, cx, lost, replies, n - 1);
        lemma_next_reached(
            a,
            stripes_taken(v, cx, replies, n - 1),
            cx,
            lost,
            n - 1,
            replies[n - 1],
        );
    }
}

/// Losing up to as many volumes as a stripe has parity shards costs no stripe:
/// the others being intact, the coder gets every shard that is not on a lost
/// volume, at least as many as there are data shards, and the same shard size
/// whichever volumes are lost. The iteration then stands at the next stripe, so
/// that the blocks of stripe `s` have the numbers that they have with all
/// volumes. The lengths of the data shards are known, lost or not, where at
/// least two copies of the table are left.
pub proof fn law_lost_volumes_are_survived(
    a: WrittenArchive,
    v: StripeIterView,
    cx: &StripeVolumes,
    lost: Set<nat>,
    s: int,
    r: StripeReplies,
    slots: Seq<Option<Vec<u8>>>,
)
    requires
        enough_volumes(cx, lost),
        a.wf(cx, lost),
        0 <= s < a.stripes.len(),
        a.reached(v, cx, lost, s),
        forall|j: int|
            0 <= j < cx.layout.total() ==> #[trigger] a.stripes[s].answered(cx, lost, s, r, j),
        slots_of(slots, stripe_taken(v, cx, r), cx),
    ensures
        ({
            let w = a.stripes[s];
            let e = stripe_taken(v, cx, r);
            &&& e.phase == StripePhase::Read
            &&& e.max_len > 0
            &&& erasure_scan::even_up(e.max_len) == erasure_scan::even_up(
                erasure_scan::longest(w.table),
            )
            &&& filled_slots(slots) >= cx.layout.data_shards
            &&& forall|i: int|
                0 <= i < slots.len() ==> slot_for(
                    #[trigger] slots[i],
                    w,
                    lost.contains(cx.volume(i, s)),
                    i,
                )
            &&& cx.layout.total() - lost.len() >= 2 ==> forall|i: int|
                0 <= i < cx.layout.data_shards && w.table[i] > 0 ==> #[trigger] e.data_lengths[i]
                    == Some(w.table[i])
            &&& e.stripe == s
            &&& a.reached(after_stripe(v, cx, r), cx, lost, s + 1)
        }),
{
    let w = a.stripes[s];
    let n = cx.layout.total() as int;
    lemma_ready(a, v, cx, lost, s);
    assert(reading(v, cx, lost, w, r));
    lemma_shards(v, cx, lost, w, r, n - 1);
    let m = shards_taken(v, cx, r, n - 1);
    let p = lemma_shard(m, v, cx, lost, w, r, n - 1);
    let e = stripe_taken(v, cx, r);
    assert(e == p.past_shard(cx));
    law_lost_volumes_cost_one_shard_each(cx, lost, s);
    erasure_scan::law_longest_is_the_maximum(w.table);
    let all = kept(cx, lost, s, n);
    if all < 2 {
        let j = lemma_kept_one(cx, lost, s, n);
        assert(w.shard_wf(cx.layout, j));
        assert(w.headers[j].length <= p.max_len);
        assert(w.table.len() == 1);
        assert(w.table[0] == erasure_scan::longest(w.table));
    }
    assert forall|i: int| 0 <= i < slots.len() implies slot_for(
        #[trigger] slots[i],
        w,
        lost.contains(cx.volume(i, s)),
        i,
    ) by {
        assert(block_iter_session::slot_holds(slots[i], p.shards, i, p.shards.len() as int));
    }
    lemma_filled_slots(slots, cx, lost, s, w);
    lemma_next_reached(a, v, cx, lost, s, r);
}

/// A data shard is no longer than the shard size.
proof fn lemma_data_fits(w: WrittenStripe, layout: ErasureCodeConfig, i: int)
    requires
        w.wf(layout),
        0 <= i < layout.data_shards,
    ensures
        w.data[i].len() == w.table[i],
        w.data[i].len() <= erasure_scan::even_up(erasure_scan::longest(w.table)),
{
    assert(w.shard_wf(layout, i));
    erasure_scan::law_longest_is_the_maximum(w.table);
}

proof fn lemma_none_damaged(shards: Seq<VerifiedShard>)
    requires
        forall|k: int| 0 <= k < shards.len() ==> (#[trigger] shards[k]).crc_valid,
    ensures
        block_iter_session::damaged_count(shards) == 0,
    decreases shards.len(),
{
    if shards.len() > 0 {
        assert(shards[shards.len() - 1].crc_valid);
        assert forall|k: int| 0 <= k < shards.drop_last().len() implies (
        #[trigger] shards.drop_last()[k]).crc_valid by {
            assert(shards.drop_last()[k] == shards[k]);
        }
        lemma_none_damaged(shards.drop_last());
    }
}

/// What recovering the data shards of a stripe gives, by the slots and the shard
/// size.
pub type Coder = spec_fn(Seq<Option<Seq<u8>>>, int) -> Option<Seq<Seq<u8>>>;

/// Slots as values.
pub open spec fn slot_views(slots: Seq<Option<Vec<u8>>>) -> Seq<Option<Seq<u8>>> {
    slots.map_values(
        |s: Option<Vec<u8>>|
            match s {
                Some(d) => Some(d@),
                None => None,
            },
    )
}

/// The data shards of a stripe, filled up with zeros to the same size.
pub open spec fn padded_data(w: WrittenStripe, layout: ErasureCodeConfig) -> Seq<Seq<u8>> {
    let size = erasure_scan::even_up(erasure_scan::longest(w.table));
    Seq::new(layout.data_shards as nat, |i: int| shard_decode::padded(w.data[i], size as nat))
}

/// A coder gives the data shards of a stripe back from as many of its shards as
/// it has data shards.
pub open spec fn gives_back(coder: Coder, w: WrittenStripe, layout: ErasureCodeConfig) -> bool {
    forall|slots: Seq<Option<Vec<u8>>>|
        slots.len() == layout.total() && #[trigger] filled_slots(slots) >= layout.data_shards && (
        forall|i: int|
            0 <= i < slots.len() ==> ((#[trigger] slots[i]) matches Some(d) ==> d@ == w.data[i]))
            ==> coder(
            slot_views(slots),
            erasure_scan::even_up(erasure_scan::longest(w.table)),
        ) == Some(padded_data(w, layout))
}

/// The blocks of a stripe do not depend on which volumes are lost, up to as many
/// as it has parity shards. What decoding them starts from is what was written:
/// the data shards that the coder gives back, which cut to their lengths are the
/// written ones, these lengths, and the shard size; and no shard counts as
/// damaged. Where a stripe has a single shard left, its
/// table of lengths stands alone and is not relied on; an empty shard needs no
/// length.
pub proof fn law_lost_volumes_change_no_block(
    a: WrittenArchive,
    v: StripeIterView,
    cx: &StripeVolumes,
    lost: Set<nat>,
    s: int,
    r: StripeReplies,
    slots: Seq<Option<Vec<u8>>>,
    coder: Coder,
)
    requires
        enough_volumes(cx, lost),
        a.wf(cx, lost),
        0 <= s < a.stripes.len(),
        a.reached(v, cx, lost, s),
        forall|j: int|
            0 <= j < cx.layout.total() ==> #[trigger] a.stripes[s].answered(cx, lost, s, r, j),
        slots_of(slots, stripe_taken(v, cx, r), cx),
        gives_back(coder, a.stripes[s], cx.layout),
    ensures
        ({
            let w = a.stripes[s];
            let e = stripe_taken(v, cx, r);
            &&& coder(slot_views(slots), erasure_scan::even_up(e.max_len)) == Some(
                padded_data(w, cx.layout),
            )
            &&& erasure_scan::even_up(e.max_len) == erasure_scan::even_up(
                erasure_scan::longest(w.table),
            )
            &&& block_iter_session::damaged_count(e.shards) == 0
            &&& forall|i: int|
                0 <= i < cx.layout.data_shards ==> (#[trigger] padded_data(w, cx.layout)[i]).take(
                    w.table[i] as int,
                ) == w.data[i]
            &&& cx.layout.total() - lost.len() >= 2 && (forall|i: int|
                0 <= i < w.table.len() ==> #[trigger] w.table[i] > 0) ==> e.data_lengths
                == Seq::new(cx.layout.data_shards as nat, |i: int| Some(w.table[i]))
        }),
{
    let w = a.stripes[s];
    let e = stripe_taken(v, cx, r);
    law_lost_volumes_are_survived(a, v, cx, lost, s, r, slots);
    assert forall|i: int| 0 <= i < slots.len() implies ((#[trigger] slots[i]) matches Some(d)
        ==> d@ == w.data[i]) by {
        assert(slot_for(slots[i], w, lost.contains(cx.volume(i, s)), i));
    }
    let n = cx.layout.total() as int;
    lemma_ready(a, v, cx, lost, s);
    assert(reading(v, cx, lost, w, r));
    lemma_shards(v, cx, lost, w, r, n - 1);
    let p = lemma_shard(shards_taken(v, cx, r, n - 1), v, cx, lost, w, r, n - 1);
    lemma_none_damaged(e.shards);
    assert forall|i: int| 0 <= i < cx.layout.data_shards implies (#[trigger] padded_data(
        w,
        cx.layout,
    )[i]).take(w.table[i] as int) == w.data[i] by {
        lemma_data_fits(w, cx.layout, i);
        shard_decode::law_padding_is_cut_off(
            w.data[i],
            erasure_scan::even_up(erasure_scan::longest(w.table)) as nat,
        );
    }
    if cx.layout.total() - lost.len() >= 2 && (forall|i: int|
        0 <= i < w.table.len() ==> #[trigger] w.table[i] > 0) {
        assert(e.data_lengths =~= Seq::new(
            cx.layout.data_shards as nat,
            |i: int| Some(w.table[i]),
        ));
    }
}

/// After the last stripe the iteration is over, whichever volumes are lost.
pub proof fn law_iteration_ends_after_the_last_stripe(
    a: WrittenArchive,
    v: StripeIterView,
    cx: &StripeVolumes,
    lost: Set<nat>,
    r: StripeReplies,
)
    requires
        enough_volumes(cx, lost),
        a.wf(cx, lost),
        a.reached(v, cx, lost, a.stripes.len() as int),
        forall|j: int|
            0 <= j < cx.layout.total() && lost.contains(#[trigger] cx.volume(j, v.stripe)) ==> (
            cx.reader(j, v.stripe) is None || (r.fronts[j].prefix is None
                && r.heads[j].prefix is None)),
    ensures
        stripe_taken(v, cx, r).phase == StripePhase::Read,
        stripe_taken(v, cx, r).max_len == 0,
        !stripe_taken(v, cx, r).any_seen,
{
    let s = a.stripes.len() as int;
    assert forall|j: int| 0 <= j < cx.layout.total() implies #[trigger] silent(v, cx, r, j) by {
        lemma_reader_in_range(cx, j, s);
        let u = cx.volume(j, s);
        if !lost.contains(u) {
            assert(volume_at(v.offsets, cx, u) == a.place(cx, u, s));
            assert(a.place(cx, u, s) == volume_at(cx.ends@, cx, u));
        }
    }
    lemma_silent_shards(v, cx, r, cx.layout.total() as int);
}

/// The numbers and the volumes that the blocks of a stripe are decrypted with do
/// not depend on which volumes are open.
pub proof fn law_block_places_ignore_lost_volumes(
    a: &StripeVolumes,
    b: &StripeVolumes,
    shard: int,
    stripe: int,
)
    requires
        a.layout == b.layout,
        a.strategy == b.strategy,
        a.vol_index_map@.len() == b.vol_index_map@.len(),
    ensures
        stripe * a.layout.data_shards + shard == stripe * b.layout.data_shards + shard,
        a.volume(shard, stripe) == b.volume(shard, stripe),
{
}

/// What decrypting a block gives, by its bytes, its volume and its number.
pub type BlockOpener = spec_fn(Seq<u8>, nat, int) -> Result<Vec<DecodedChunk>, EraError>;

/// The number of the block in data shard `i` of stripe `s`.
pub open spec fn block_number(cx: &StripeVolumes, s: int, i: int) -> int {
    s * cx.layout.data_shards + i
}

/// What decrypting the block in data shard `i` of stripe `s` gives.
pub open spec fn opener_at(cx: &StripeVolumes, open: BlockOpener, s: int, i: int) -> shard_decode::Opener {
    |bytes: Seq<u8>| open(bytes, cx.volume(i, s), block_number(cx, s, i))
}

/// What decoding data shard `i` starts from once a stripe was read and the
/// shard was recovered as `data`.
pub open spec fn context_for(
    dc: DecodeContext,
    e: StripeIterView,
    cx: &StripeVolumes,
    data: Seq<u8>,
    i: int,
) -> bool {
    &&& dc.data@ == data
    &&& dc.own == e.data_lengths[i]
    &&& dc.stripe@ == e.data_lengths
    &&& dc.shard_size == erasure_scan::even_up(e.max_len)
    &&& dc.parity_shards == cx.layout.parity_shards
}

/// Data shard `i` recovered without its own copy.
pub open spec fn recovered_without(
    coder: Coder,
    slots: Seq<Option<Vec<u8>>>,
    shard_size: int,
    i: int,
) -> Option<Seq<u8>> {
    match coder(slot_views(slots.update(i, None)), shard_size) {
        Some(shards) => Some(shards[i]),
        None => None,
    }
}

/// A coder gives nothing from fewer shards than a stripe has data shards.
pub open spec fn refuses_too_few(coder: Coder, layout: ErasureCodeConfig) -> bool {
    forall|slots: Seq<Option<Vec<u8>>>, size: int|
        #![trigger coder(slot_views(slots), size)]
        filled_slots(slots) < layout.data_shards ==> coder(slot_views(slots), size) is None
}

/// A block can be told by its bytes: it is not all zero, and decrypting it
/// succeeds.
pub open spec fn opens(d: Seq<u8>, opener: shard_decode::Opener) -> bool {
    !shard_decode::all_zero(d) && opener(d) is Ok
}

/// Where a single shard of a stripe is left, the length of a block is not known:
/// no other length opens, and its own can be found.
pub open spec fn opens_alone(d: Seq<u8>, size: nat, opener: shard_decode::Opener) -> bool {
    &&& shard_decode::can_be_found(d, size)
    &&& forall|n: int|
        0 < n <= size && n != d.len() ==> opener(
            #[trigger] shard_decode::padded(d, size).take(n),
        ) is Err
}

/// Every block is read, whichever volumes are lost, up to as many as a stripe
/// has parity shards: the coder gives back its shard, and decoding it, with what
/// was read of the lengths, comes to the chunks that decrypting the block as it
/// was written gives. Number and volume are those of its place. None of this
/// depends on what is lost, so that the blocks that an iteration gives are the
/// same as with all volumes. Only where all but one shard of a stripe are lost
/// is the length of its block searched for.
pub proof fn law_every_block_is_read(
    a: WrittenArchive,
    v: StripeIterView,
    cx: &StripeVolumes,
    lost: Set<nat>,
    replies: Seq<StripeReplies>,
    s: int,
    i: int,
    slots: Seq<Option<Vec<u8>>>,
    coder: Coder,
    open: BlockOpener,
    dc: DecodeContext,
)
    requires
        enough_volumes(cx, lost),
        a.wf(cx, lost),
        a.reached(v, cx, lost, 0),
        0 <= s < a.stripes.len(),
        0 <= i < cx.layout.data_shards,
        forall|t: int, j: int|
            0 <= t <= s && 0 <= j < cx.layout.total() ==> #[trigger] a.stripes[t].answered(
                cx,
                lost,
                t,
                replies[t],
                j,
            ),
        slots_of(slots, stripe_taken(stripes_taken(v, cx, replies, s), cx, replies[s]), cx),
        gives_back(coder, a.stripes[s], cx.layout),
        refuses_too_few(coder, cx.layout),
        context_for(
            dc,
            stripe_taken(stripes_taken(v, cx, replies, s), cx, replies[s]),
            cx,
            padded_data(a.stripes[s], cx.layout)[i],
            i,
        ),
        opens(a.stripes[s].data[i], opener_at(cx, open, s, i)),
        cx.layout.total() - lost.len() < 2 ==> opens_alone(
            a.stripes[s].data[i],
            dc.shard_size as nat,
            opener_at(cx, open, s, i),
        ),
    ensures
        ({
            let w = a.stripes[s];
            let e = stripe_taken(stripes_taken(v, cx, replies, s), cx, replies[s]);
            let size = erasure_scan::even_up(e.max_len);
            let block = open(w.data[i], cx.volume(i, s), block_number(cx, s, i));
            &&& e.phase == StripePhase::Read
            &&& e.max_len > 0
            &&& e.stripe == s
            &&& coder(slot_views(slots), size) == Some(padded_data(w, cx.layout))
            &&& block_iter_session::damaged_count(e.shards) == 0
            &&& shard_decode::decodes_to(
                dc,
                opener_at(cx, open, s, i),
                recovered_without(coder, slots, size, i),
                ShardOutcome::Decoded { chunks: block->Ok_0, recoded: false },
            )
        }),
{
    let w = a.stripes[s];
    let u = stripes_taken(v, cx, replies, s);
    let r = replies[s];
    let e = stripe_taken(u, cx, r);
    law_every_stripe_is_reached(a, v, cx, lost, replies, s);
    law_lost_volumes_are_survived(a, u, cx, lost, s, r, slots);
    law_lost_volumes_change_no_block(a, u, cx, lost, s, r, slots, coder);
    let n = cx.layout.total() as int;
    lemma_ready(a, u, cx, lost, s);
    assert(reading(u, cx, lost, w, r));
    lemma_shards(u, cx, lost, w, r, n - 1);
    let p = lemma_shard(shards_taken(u, cx, r, n - 1), u, cx, lost, w, r, n - 1);
    assert(e == p.past_shard(cx));
    lemma_data_fits(w, cx.layout, i);
    let d = w.data[i];
    let opener = opener_at(cx, open, s, i);
    let size = erasure_scan::even_up(e.max_len);
    let again = recovered_without(coder, slots, size, i);
    let chunks = opener(d)->Ok_0;
    assert(dc.data@ == shard_decode::padded(d, dc.shard_size as nat));
    if e.data_lengths[i] is Some {
        assert(e.data_lengths[i] == Some(w.table[i]));
        shard_decode::law_known_length_is_decoded(dc, d, opener, again, chunks);
    } else {
        if w.table[i] == 0 {
            assert(shard_decode::all_zero(d));
        }
        assert(cx.layout.total() - lost.len() < 2);
        assert(cx.layout.data_shards == 1);
        assert forall|k: int| 0 <= k < dc.stripe@.len() implies (#[trigger] dc.stripe@[k])
            is None by {}
        let others = slots.update(i, None);
        if filled_slots(others) >= cx.layout.data_shards {
            assert forall|k: int| 0 <= k < others.len() implies ((#[trigger] others[k])
                matches Some(x) ==> x@ == w.data[k]) by {
                assert(slot_for(slots[k], w, lost.contains(cx.volume(k, s)), k));
            }
        } else {
            assert(coder(slot_views(others), size) is None);
        }
        shard_decode::law_unknown_length_is_found(dc, d, opener, again, chunks);
    }
}

/// The blocks of an archive are numbered one after another, stripe by stripe.
pub proof fn law_block_numbers_have_no_gap(cx: &StripeVolumes, s: int, i: int)
    requires
        0 <= s,
        0 <= i < cx.layout.data_shards,
    ensures
        block_number(cx, 0, 0) == 0,
        i + 1 < cx.layout.data_shards ==> block_number(cx, s, i + 1) == block_number(cx, s, i) + 1,
        i + 1 == cx.layout.data_shards ==> block_number(cx, s + 1, 0) == block_number(cx, s, i)
            + 1,
{
    let n = cx.layout.data_shards as int;
    assert((s + 1) * n == s * n + n) by (nonlinear_arith);
}

/// The reading of one stripe: the replies, what is handed to the coder, what
/// decoding each data shard starts from, and the blocks that come of it.
pub struct StripeRun {
    pub replies: StripeReplies,
    pub slots: Seq<Option<Vec<u8>>>,
    pub contexts: Seq<DecodeContext>,
    pub blocks: Seq<Result<DecodedBlock, EraError>>,
}

impl StripeRun {
    /// Block `i` is what decoding data shard `i` came to.
    pub open spec fn block_comes(
        self,
        e: StripeIterView,
        cx: &StripeVolumes,
        coder: Coder,
        open: BlockOpener,
        i: int,
    ) -> bool {
        let size = erasure_scan::even_up(e.max_len);
        &&& context_for(
            self.contexts[i],
            e,
            cx,
            (coder(slot_views(self.slots), size)->0)[i],
            i,
        )
        &&& exists|outcome: ShardOutcome, first: FirstError| #[trigger]
            block_iter_session::block_reports(
                self.blocks[i],
                block_number(cx, e.stripe, i) as u32,
                outcome,
                first,
                block_iter_session::damaged_count(e.shards),
            ) && shard_decode::decodes_to(
                self.contexts[i],
                opener_at(cx, open, e.stripe, i),
                recovered_without(coder, self.slots, size, i),
                outcome,
            )
    }

    /// The stripe was read from view `v` on: the coder got the shards that were
    /// read, and where it gave something, every data shard was decoded.
    pub open spec fn went(
        self,
        v: StripeIterView,
        cx: &StripeVolumes,
        coder: Coder,
        open: BlockOpener,
    ) -> bool {
        let e = stripe_taken(v, cx, self.replies);
        &&& slots_of(self.slots, e, cx)
        &&& self.contexts.len() == cx.layout.data_shards
        &&& self.blocks.len() == cx.layout.data_shards
        &&& coder(slot_views(self.slots), erasure_scan::even_up(e.max_len)) is Some ==> forall|
            i: int,
        |
            0 <= i < cx.layout.data_shards ==> #[trigger] self.block_comes(e, cx, coder, open, i)
    }
}

/// The replies of a row of stripes.
pub open spec fn replies_of(runs: Seq<StripeRun>) -> Seq<StripeReplies> {
    runs.map_values(|r: StripeRun| r.replies)
}

/// An archive is read to its end by `runs`, with the volumes of `lost` missing:
/// the other volumes reply what was written.
pub open spec fn archive_read(
    a: WrittenArchive,
    v: StripeIterView,
    cx: &StripeVolumes,
    lost: Set<nat>,
    runs: Seq<StripeRun>,
    coder: Coder,
    open: BlockOpener,
) -> bool {
    &&& enough_volumes(cx, lost)
    &&& a.wf(cx, lost)
    &&& a.reached(v, cx, lost, 0)
    &&& runs.len() == a.stripes.len()
    &&& forall|s: int, j: int|
        0 <= s < runs.len() && 0 <= j < cx.layout.total() ==> #[trigger] a.stripes[s].answered(
            cx,
            lost,
            s,
            runs[s].replies,
            j,
        )
    &&& forall|s: int|
        0 <= s < runs.len() ==> (#[trigger] runs[s]).went(
            stripes_taken(v, cx, replies_of(runs), s),
            cx,
            coder,
            open,
        )
}

/// The coder and the cipher do for stripe `s` what they are there for.
pub open spec fn stripe_can_be_opened(
    a: WrittenArchive,
    cx: &StripeVolumes,
    lost: Set<nat>,
    coder: Coder,
    open: BlockOpener,
    s: int,
) -> bool {
    let w = a.stripes[s];
    let size = erasure_scan::even_up(erasure_scan::longest(w.table)) as nat;
    &&& gives_back(coder, w, cx.layout)
    &&& forall|i: int|
        0 <= i < cx.layout.data_shards ==> opens(
            #[trigger] w.data[i],
            opener_at(cx, open, s, i),
        )
    &&& cx.layout.total() - lost.len() < 2 ==> forall|i: int|
        0 <= i < cx.layout.data_shards ==> opens_alone(
            #[trigger] w.data[i],
            size,
            opener_at(cx, open, s, i),
        )
}

/// Reading an archive to its end with up to as many volumes lost as a stripe has
/// parity shards gives every block that was written, under its number, with
/// nothing counted as damaged. Nothing of this speaks of the volumes that are
/// lost: the blocks are those that reading with all volumes gives.
pub proof fn law_lost_volumes_give_the_same_blocks(
    a: WrittenArchive,
    v: StripeIterView,
    cx: &StripeVolumes,
    lost: Set<nat>,
    runs: Seq<StripeRun>,
    coder: Coder,
    open: BlockOpener,
    s: int,
    i: int,
)
    requires
        archive_read(a, v, cx, lost, runs, coder, open),
        refuses_too_few(coder, cx.layout),
        forall|t: int|
            0 <= t < a.stripes.len() ==> #[trigger] stripe_can_be_opened(
                a,
                cx,
                lost,
                coder,
                open,
                t,
            ),
        0 <= s < runs.len(),
        0 <= i < cx.layout.data_shards,
    ensures
        runs[s].blocks.len() == cx.layout.data_shards,
        runs[s].blocks[i] == Ok::<DecodedBlock, EraError>(
            DecodedBlock {
                block_index: block_number(cx, s, i) as u32,
                chunks: open(
                    a.stripes[s].data[i],
                    cx.volume(i, s),
                    block_number(cx, s, i),
                )->Ok_0,
                corrupted_shards: 0,
            },
        ),
{
    let replies = replies_of(runs);
    let u = stripes_taken(v, cx, replies, s);
    let run = runs[s];
    let e = stripe_taken(u, cx, replies[s]);
    let w = a.stripes[s];
    assert(run.went(u, cx, coder, open));
    assert(stripe_can_be_opened(a, cx, lost, coder, open, s));
    assert forall|t: int, j: int|
        0 <= t <= s && 0 <= j < cx.layout.total() implies #[trigger] a.stripes[t].answered(
        cx,
        lost,
        t,
        replies[t],
        j,
    ) by {
        assert(a.stripes[t].answered(cx, lost, t, runs[t].replies, j));
    }
    law_every_stripe_is_reached(a, v, cx, lost, replies, s);
    law_lost_volumes_change_no_block(a, u, cx, lost, s, replies[s], run.slots, coder);
    law_lost_volumes_are_survived(a, u, cx, lost, s, replies[s], run.slots);
    assert(run.block_comes(e, cx, coder, open, i));
    let dc = run.contexts[i];
    assert(opens(w.data[i], opener_at(cx, open, s, i)));
    law_every_block_is_read(a, v, cx, lost, replies, s, i, run.slots, coder, open, dc);
    let size = erasure_scan::even_up(e.max_len);
    let again = recovered_without(coder, run.slots, size, i);
    let opener = opener_at(cx, open, s, i);
    let (outcome, first) = choose|outcome: ShardOutcome, first: FirstError| #[trigger]
        block_iter_session::block_reports(
            run.blocks[i],
            block_number(cx, e.stripe, i) as u32,
            outcome,
            first,
            block_iter_session::damaged_count(e.shards),
        ) && shard_decode::decodes_to(dc, opener, again, outcome);
    let chunks = open(w.data[i], cx.volume(i, s), block_number(cx, s, i))->Ok_0;
    shard_decode::law_one_outcome(
        dc,
        opener,
        again,
        outcome,
        ShardOutcome::Decoded { chunks, recoded: false },
    );
}

/// What coding gives for a stripe is what was written: the data shards filled up
/// to the shard size, and the parity shards.
pub open spec fn coded_as_written(
    coded: Seq<Vec<u8>>,
    w: WrittenStripe,
    layout: ErasureCodeConfig,
) -> bool {
    &&& coded.len() == layout.total()
    &&& forall|j: int|
        0 <= j < coded.len() ==> (#[trigger] coded[j])@ == if j < layout.data_shards {
            padded_data(w, layout)[j]
        } else {
            w.data[j]
        }
}

/// Repair writes back what was written at first: where coding gives the stripe
/// as written and the lengths of damaged data shards are known, every shard that
/// is written back has its first bytes and goes to its own place.
pub proof fn law_repaired_is_what_was_written(
    stripe: StripeView,
    w: WrittenStripe,
    layout: ErasureCodeConfig,
    coded: Seq<Vec<u8>>,
    n: int,
    k: int,
)
    requires
        w.wf(layout),
        stripe.data_lengths.len() == layout.data_shards,
        coded_as_written(coded, w, layout),
        0 <= n <= stripe.corrupted.len(),
        forall|j: int|
            0 <= j < n ==> (#[trigger] stripe.corrupted[j]) < layout.total() && (
            stripe.corrupted[j] < layout.data_shards ==> stripe.data_lengths[stripe.corrupted[j] as int]
                == Some(w.table[stripe.corrupted[j] as int])),
        0 <= k < repair::repairs_of(stripe, coded, n).len(),
    ensures
        ({
            let x = repair::repairs_of(stripe, coded, n)[k];
            &&& x.data == w.data[x.shard_idx as int]
            &&& stripe.sites[x.shard_idx as int] == Some(x.site)
        }),
    decreases n,
{
    let rest = repair::repairs_of(stripe, coded, n - 1);
    if k < rest.len() {
        law_repaired_is_what_was_written(stripe, w, layout, coded, n - 1, k);
        assert(repair::repairs_of(stripe, coded, n)[k] == rest[k]);
    } else {
        let j = stripe.corrupted[n - 1] as int;
        lemma_coded_shard(w, layout, coded, stripe.data_lengths, j);
    }
}

/// A coded shard cut to its known length is what was written.
pub(crate) proof fn lemma_coded_shard(
    w: WrittenStripe,
    layout: ErasureCodeConfig,
    coded: Seq<Vec<u8>>,
    lengths: Seq<Option<u32>>,
    j: int,
)
    requires
        w.wf(layout),
        0 <= j < layout.total(),
        coded_as_written(coded, w, layout),
        lengths.len() == layout.data_shards,
        j < layout.data_shards ==> lengths[j] == Some(w.table[j]),
    ensures
        repair::rebuilt_bytes(coded[j]@, j, lengths) == w.data[j],
{
    assert(coded[j]@ == if j < layout.data_shards {
        padded_data(w, layout)[j]
    } else {
        w.data[j]
    });
    if j < layout.data_shards {
        lemma_data_fits(w, layout, j);
        let size = erasure_scan::even_up(erasure_scan::longest(w.table)) as nat;
        shard_decode::law_padding_is_cut_off(w.data[j], size);
        assert(coded[j]@.take(coded[j]@.len() as int) =~= coded[j]@);
    }
}

} // verus!

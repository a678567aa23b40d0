//! What is checked before an archive is compacted, and which of its blocks are
//! still in use.
use vstd::prelude::*;

use crate::ordering::{stable_order, NumberKeys};
use crate::source_block_snapshot;
use crate::source_block_snapshot::{
    ensure_complete_source_volume_set, SourceDataBlockSnapshot,
};
use crate::text;
use crate::types::{ChunkHash, EraError};

verus! {

/// How the blocks in use were found.
#[derive(Debug, Clone, Copy, PartialEq, Eq, Structural)]
pub enum CompactLiveBlockDiscovery {
    EmbeddedIndex,
    IteratorFallback,
}

/// The blocks in use.
#[derive(Debug)]
pub struct CompactLiveDataBlocks {
    pub block_ids: Vec<u64>,
    pub source: CompactLiveBlockDiscovery,
}

/// What is known of the archive before it is compacted.
#[derive(Debug)]
pub struct CompactSourcePreflight {
    pub archive_id: [u8; 16],
    pub expected_total_volumes: usize,
    pub available_volume_indices: Vec<u16>,
}

/// All that compacting needs.
#[derive(Debug)]
pub struct CompactPreparedSource {
    pub preflight: CompactSourcePreflight,
    pub live_data_blocks: CompactLiveDataBlocks,
    pub snapshots: Vec<SourceDataBlockSnapshot>,
}

/// Numbers of volumes, 16 bits each.
pub open spec fn narrowed(indices: Seq<usize>) -> Seq<u16> {
    indices.map_values(|i: usize| i as u16)
}

fn narrow(indices: &[usize]) -> (r: Vec<u16>)
    ensures
        r@ == narrowed(indices@),
{
    let mut r: Vec<u16> = Vec::new();
    let mut i: usize = 0;
    while i < indices.len()
        invariant
            i <= indices@.len(),
            r@ == narrowed(indices@.take(i as int)),
        decreases indices@.len() - i,
    {
        r.push(#[verifier::truncate] (indices[i] as u16));
        assert(r@ =~= narrowed(indices@.take(i + 1)));
        i = i + 1;
    }
    assert(indices@.take(indices@.len() as int) =~= indices@);
    r
}

/// What has to be done to find the blocks in use.
#[derive(Debug, Clone, Copy, PartialEq, Eq, Structural)]
pub enum DiscoveryPlan {
    /// No file has content: no block is in use.
    Nothing,
    /// Look the chunks up in the index of the archive.
    LookUp,
    /// Walk over all blocks.
    Walk,
}

/// How the blocks in use are found. An archive that has neither an index nor
/// a failed recovery of one is refused.
pub fn plan_discovery(live_hashes: usize, has_index: bool, recovery_failed: bool) -> (r: Result<
    DiscoveryPlan,
    EraError,
>)
    ensures
        if live_hashes == 0 {
            r == Ok::<DiscoveryPlan, EraError>(DiscoveryPlan::Nothing)
        } else if has_index {
            r == Ok::<DiscoveryPlan, EraError>(DiscoveryPlan::LookUp)
        } else if recovery_failed {
            r == Ok::<DiscoveryPlan, EraError>(DiscoveryPlan::Walk)
        } else {
            r matches Err(EraError::IntegrityError(m)) && m@
                == "embedded index unavailable after preflight"@
        },
{
    if live_hashes == 0 {
        return Ok(DiscoveryPlan::Nothing);
    }
    if has_index {
        return Ok(DiscoveryPlan::LookUp);
    }
    if recovery_failed {
        return Ok(DiscoveryPlan::Walk);
    }
    Err(EraError::IntegrityError(String::from_str("embedded index unavailable after preflight")))
}

/// `out` lists what occurs in `v`, ascending and each number once.
pub open spec fn is_sorted_set(out: Seq<u64>, v: Seq<u64>) -> bool {
    &&& forall|i: int, j: int| 0 <= i < j < out.len() ==> #[trigger] out[i] < #[trigger] out[j]
    &&& forall|x: u64| #[trigger] out.contains(x) <==> v.contains(x)
}

/// The numbers that occur, ascending and each one once.
pub fn sorted_distinct(v: Vec<u64>) -> (out: Vec<u64>)
    ensures
        is_sorted_set(out@, v@),
{
    let keys = NumberKeys { keys: v };
    let order = stable_order(&keys);
    let ghost all = keys.keys@;
    let mut out: Vec<u64> = Vec::new();
    let mut i: usize = 0;
    while i < order.len()
        invariant
            i <= order@.len(),
            all == keys.keys@,
            crate::ordering::is_stable_order(&keys, order@),
            forall|a: int, b: int|
                0 <= a < b < out@.len() ==> #[trigger] out@[a] < #[trigger] out@[b],
            i > 0 ==> out@.len() > 0 && out@.last() == all[order@[i - 1] as int],
            i == 0 ==> out@.len() == 0,
            forall|a: int| 0 <= a < out@.len() ==> all.contains(#[trigger] out@[a]),
            forall|k: int| 0 <= k < i ==> out@.contains(all[#[trigger] order@[k] as int]),
        decreases order@.len() - i,
    {
        let x: u64 = keys.keys[order[i]];
        let n: usize = out.len();
        let ghost before = out@;
        if i > 0 {
            assert(crate::ordering::comes_before(
                &keys,
                order@[i - 1] as int,
                order@[i as int] as int,
            ));
        }
        if n == 0 || out[n - 1] != x {
            out.push(x);
            assert(out@[n as int] == x);
            assert forall|k: int| 0 <= k < i + 1 implies out@.contains(
                all[#[trigger] order@[k] as int],
            ) by {
                if k < i {
                    let a = choose|a: int|
                        0 <= a < before.len() && before[a] == all[order@[k] as int];
                    assert(out@[a] == before[a]);
                }
            }
        } else {
            assert(out@[n - 1] == x);
        }
        i = i + 1;
    }
    proof {
        assert forall|x: u64| #[trigger] out@.contains(x) <==> all.contains(x) by {
            if all.contains(x) {
                let p = choose|p: int| 0 <= p < all.len() && all[p] == x;
                assert(order@.contains(p as usize));
                let k = choose|k: int| 0 <= k < order@.len() && order@[k] == p as usize;
                assert(out@.contains(all[order@[k] as int]));
            }
            if out@.contains(x) {
                let a = choose|a: int| 0 <= a < out@.len() && out@[a] == x;
                assert(all.contains(out@[a]));
            }
        }
    }
    out
}

/// There is one ascending list of the numbers that occur.
pub proof fn law_sorted_set_is_unique(p: Seq<u64>, q: Seq<u64>, v: Seq<u64>)
    requires
        is_sorted_set(p, v),
        is_sorted_set(q, v),
    ensures
        p == q,
{
    assert forall|x: u64| #[trigger] p.contains(x) <==> q.contains(x) by {
        assert(p.contains(x) <==> v.contains(x));
        assert(q.contains(x) <==> v.contains(x));
    }
    lemma_sorted_same(p, q);
}

proof fn lemma_sorted_same(p: Seq<u64>, q: Seq<u64>)
    requires
        forall|i: int, j: int| 0 <= i < j < p.len() ==> #[trigger] p[i] < #[trigger] p[j],
        forall|i: int, j: int| 0 <= i < j < q.len() ==> #[trigger] q[i] < #[trigger] q[j],
        forall|x: u64| #[trigger] p.contains(x) <==> q.contains(x),
    ensures
        p == q,
    decreases p.len(),
{
    if p.len() == 0 {
        if q.len() > 0 {
            assert(q.contains(q[0]));
            assert(p.contains(q[0]));
        }
        assert(p =~= q);
    } else {
        assert(p.contains(p[p.len() - 1]));
        assert(q.contains(p[p.len() - 1]));
        assert(q.contains(q[q.len() - 1]));
        assert(p.contains(q[q.len() - 1]));
        assert(p.last() == q.last());
        let a = p.drop_last();
        let b = q.drop_last();
        assert forall|x: u64| #[trigger] a.contains(x) <==> b.contains(x) by {
            if a.contains(x) {
                let i = choose|i: int| 0 <= i < a.len() && a[i] == x;
                assert(p[i] == x);
                assert(p.contains(x));
                assert(q.contains(x));
                let j = choose|j: int| 0 <= j < q.len() && q[j] == x;
                assert(b[j] == x);
            }
            if b.contains(x) {
                let i = choose|i: int| 0 <= i < b.len() && b[i] == x;
                assert(q[i] == x);
                assert(q.contains(x));
                assert(p.contains(x));
                let j = choose|j: int| 0 <= j < p.len() && p[j] == x;
                assert(a[j] == x);
            }
        }
        lemma_sorted_same(a, b);
        assert(p =~= a.push(p.last()));
        assert(q =~= b.push(q.last()));
    }
}

/// The numbers that were found, up to the first chunk that was not.
pub open spec fn all_found(found: Seq<Option<u64>>) -> bool {
    forall|i: int| 0 <= i < found.len() ==> (#[trigger] found[i]) is Some
}

/// The first chunk that was not found.
pub open spec fn first_missing(found: Seq<Option<u64>>, i: int) -> bool {
    &&& 0 <= i < found.len()
    &&& found[i] is None
    &&& forall|k: int| 0 <= k < i ==> (#[trigger] found[k]) is Some
}

/// The blocks that hold the chunks, ascending and each one once. Every chunk
/// has to be found.
pub fn resolve_live_data_block_ids(live_hashes: &[ChunkHash], found: &[Option<u64>]) -> (r: Result<
    Vec<u64>,
    EraError,
>)
    requires
        live_hashes@.len() == found@.len(),
    ensures
        all_found(found@) ==> (r matches Ok(out) && is_sorted_set(
            out@,
            found@.map_values(|f: Option<u64>| f->0),
        )),
        forall|i: int|
            #[trigger] first_missing(found@, i) ==> (r matches Err(EraError::IntegrityError(m))
                && m@ == "embedded index missing live catalog hash "@ + text::hex(live_hashes@[i]@)
                + " during compact preflight"@),
{
    let mut ids: Vec<u64> = Vec::new();
    let mut i: usize = 0;
    while i < found.len()
        invariant
            live_hashes@.len() == found@.len(),
            i <= found@.len(),
            ids@.len() == i,
            forall|k: int| 0 <= k < i ==> found@[k] == Some(#[trigger] ids@[k]),
            forall|k: int| 0 <= k < i ==> (#[trigger] found@[k]) is Some,
        decreases found@.len() - i,
    {
        match found[i] {
            Some(id) => ids.push(id),
            None => {
                let h = text::hex_text(live_hashes[i].0.as_slice());
                assert forall|j: int| #[trigger] first_missing(found@, j) implies j == i by {
                    if j > i {
                        assert(found@[i as int] is Some);
                    }
                    if j < i {
                        assert(found@[j] is Some);
                    }
                }
                return Err(
                    EraError::IntegrityError(
                        text::with_text(
                            "embedded index missing live catalog hash ",
                            h.as_str(),
                            " during compact preflight",
                        ),
                    ),
                );
            },
        }
        i = i + 1;
    }
    assert(ids@ =~= found@.map_values(|f: Option<u64>| f->0));
    Ok(sorted_distinct(ids))
}

impl CompactSourcePreflight {
    /// Checks that an erasure-coded archive is complete before it is compacted.
    pub fn from_archive(
        archive_id: [u8; 16],
        total_volumes: u16,
        volume_indices: &[usize],
        erasure_coded: bool,
    ) -> (r: Result<Self, EraError>)
        ensures
            if total_volumes > 0 && erasure_coded && source_block_snapshot::absent(
                narrowed(volume_indices@),
                total_volumes as nat,
            ).len() > 0 {
                r matches Err(EraError::InvalidFormat(m)) && m@
                    == "missing source volumes before compaction: ["@
                    + source_block_snapshot::listed(
                    source_block_snapshot::absent(
                        narrowed(volume_indices@),
                        total_volumes as nat,
                    ),
                ) + "]"@
            } else {
                &&& r matches Ok(p)
                &&& p.archive_id == archive_id
                &&& p.expected_total_volumes == total_volumes
                &&& p.available_volume_indices@ == narrowed(volume_indices@)
            },
    {
        let available = narrow(volume_indices);
        let expected: usize = total_volumes as usize;
        if expected > 0 && erasure_coded {
            match ensure_complete_source_volume_set(expected, available.as_slice()) {
                Ok(()) => {},
                Err(e) => return Err(e),
            }
        }
        Ok(
            CompactSourcePreflight {
                archive_id,
                expected_total_volumes: expected,
                available_volume_indices: available,
            },
        )
    }
}

/// Numbers of volumes keep their values.
pub proof fn law_volume_numbers_are_kept(indices: Seq<usize>, k: int)
    requires
        0 <= k < indices.len(),
        indices[k] <= 65535,
    ensures
        narrowed(indices).len() == indices.len(),
        narrowed(indices)[k] == indices[k],
{
}

/// The sorted numbers rise and are those that were given: none is lost, none is new.
pub proof fn law_sorted_set_has_the_same_numbers(out: Seq<u64>, v: Seq<u64>, i: int, k: int)
    requires
        is_sorted_set(out, v),
        0 <= i < v.len(),
        0 <= k < out.len(),
    ensures
        out.contains(v[i]),
        v.contains(out[k]),
        k + 1 < out.len() ==> out[k] < out[k + 1],
{
    assert(v.contains(v[i]));
    assert(out.contains(out[k]));
}

/// Compaction goes on exactly where every chunk in use was found, with the blocks of all of them
/// and no other block.
pub proof fn law_every_live_chunk_has_to_be_found(
    live: &[ChunkHash],
    found: &[Option<u64>],
    r: Result<Vec<u64>, EraError>,
)
    requires
        live@.len() == found@.len(),
        call_ensures(resolve_live_data_block_ids, (live, found), r),
    ensures
        r is Ok <==> forall|i: int| 0 <= i < found@.len() ==> (#[trigger] found@[i]) is Some,
        r matches Ok(out) ==> forall|i: int|
            0 <= i < found@.len() ==> out@.contains((#[trigger] found@[i])->0),
{
    if !all_found(found@) {
        let i = choose|i: int| 0 <= i < found@.len() && (#[trigger] found@[i]) is None;
        lemma_first_missing(found@, i);
    } else {
        let v = found@.map_values(|f: Option<u64>| f->0);
        assert forall|i: int| 0 <= i < found@.len() implies (r->Ok_0)@.contains(
            (#[trigger] found@[i])->0,
        ) by {
            assert(v[i] == found@[i]->0);
            assert(v.contains(v[i]));
        }
    }
}

proof fn lemma_first_missing(found: Seq<Option<u64>>, n: int)
    requires
        0 <= n < found.len(),
        found[n] is None,
    ensures
        exists|i: int| #[trigger] first_missing(found, i),
    decreases n,
{
    if exists|k: int| 0 <= k < n && (#[trigger] found[k]) is None {
        let k = choose|k: int| 0 <= k < n && (#[trigger] found[k]) is None;
        lemma_first_missing(found, k);
    } else {
        assert(first_missing(found, n));
    }
}

/// An erasure-coded archive is compacted only where each of its volumes is there; any other, and
/// one whose number of volumes is not known, is not asked for them.
pub proof fn law_coded_archives_have_to_be_complete(
    archive_id: [u8; 16],
    total: u16,
    volumes: &[usize],
    coded: bool,
    r: Result<CompactSourcePreflight, EraError>,
)
    requires
        call_ensures(CompactSourcePreflight::from_archive, (archive_id, total, volumes, coded), r),
        forall|k: int| 0 <= k < volumes@.len() ==> #[trigger] volumes@[k] <= 65535,
    ensures
        !coded || total == 0 ==> r is Ok,
        coded && total > 0 ==> (r is Ok <==> forall|v: int|
            0 <= v < total ==> volumes@.contains(#[trigger] narrow_back(v))),
{
    if coded && total > 0 {
        let n = narrowed(volumes@);
        source_block_snapshot::law_absent_volumes(n, total as nat);
        assert forall|v: int| 0 <= v < total implies (source_block_snapshot::has_volume(n, v)
            <==> volumes@.contains(#[trigger] narrow_back(v))) by {
            if source_block_snapshot::has_volume(n, v) {
                let k = choose|k: int| 0 <= k < n.len() && #[trigger] n[k] == v;
                assert(volumes@[k] <= 65535);
                assert(volumes@[k] == v);
            }
            if volumes@.contains(narrow_back(v)) {
                let k = choose|k: int| 0 <= k < volumes@.len() && volumes@[k] == narrow_back(v);
                assert(n[k] == v);
            }
        }
        if absent_any(n, total) {
            let v = choose|v: int| 0 <= v < total && !source_block_snapshot::has_volume(n, v);
            assert(!volumes@.contains(narrow_back(v)));
        } else {
            assert forall|v: int| 0 <= v < total implies volumes@.contains(
                #[trigger] narrow_back(v),
            ) by {
                assert(source_block_snapshot::has_volume(n, v));
            }
        }
    }
}

/// The number of a volume as an index.
pub open spec fn narrow_back(v: int) -> usize {
    v as usize
}

/// One of the volumes is not there.
spec fn absent_any(available: Seq<u16>, total: u16) -> bool {
    exists|v: int| 0 <= v < total && !#[trigger] source_block_snapshot::has_volume(available, v)
}

} // verus!

//! From the blocks of an archive to the stripes of a compact bundle.
//! Encrypted bytes are taken over unchanged.
use vstd::prelude::*;

use crate::compact_compactor;
use crate::compact_compactor::sorted_distinct;
use crate::ordering;
use crate::ordering::{stable_order, NumberKeys};
use crate::source_block_snapshot;
use crate::source_block_snapshot::{copy_u32s, SnapshotView, SourceDataBlockSnapshot};
use crate::types::{copy_bytes, EraError, ErasureCodeConfig};

verus! {

/// What was put into a bundle.
#[derive(Debug, Clone, Copy, PartialEq, Eq, Structural)]
pub struct CompactStats {
    pub total_blocks: usize,
    pub total_stripes: usize,
    pub total_volumes: usize,
    pub catalog_bytes: usize,
    pub index_bytes: usize,
}

impl Default for CompactStats {
    fn default() -> (s: Self)
        ensures
            s == (CompactStats {
                total_blocks: 0,
                total_stripes: 0,
                total_volumes: 0,
                catalog_bytes: 0,
                index_bytes: 0,
            }),
    {
        CompactStats {
            total_blocks: 0,
            total_stripes: 0,
            total_volumes: 0,
            catalog_bytes: 0,
            index_bytes: 0,
        }
    }
}

/// A block as the bundle takes it.
#[derive(Debug)]
pub struct CompactShardInput {
    pub block_id: u64,
    pub encrypted_bytes: Vec<u8>,
    pub stripe_ordinal: u64,
    pub member_position_in_stripe: u16,
    pub stripe_lengths: Vec<u32>,
    pub data_shards: u8,
    pub parity_shards: u8,
}

impl View for CompactShardInput {
    type V = SnapshotView;

    open spec fn view(&self) -> SnapshotView {
        SnapshotView {
            block_id: self.block_id,
            encrypted_bytes: self.encrypted_bytes@,
            stripe_ordinal: self.stripe_ordinal,
            member_position_in_stripe: self.member_position_in_stripe,
            stripe_lengths: self.stripe_lengths@,
            data_shards: self.data_shards,
            parity_shards: self.parity_shards,
        }
    }
}

/// How many volumes a bundle has: one for each shard of a stripe. Only an
/// erasure-coded archive can be compacted.
pub fn compact_volumes(erasure: Option<ErasureCodeConfig>) -> (r: Result<u16, EraError>)
    ensures
        match erasure {
            Some(c) => r matches Ok(n) && n == c.total(),
            None => r matches Err(EraError::InvalidConfig(m)) && m@
                == "compact archive requires erasure-coded source"@,
        },
{
    match erasure {
        Some(c) => Ok(c.data_shards as u16 + c.parity_shards as u16),
        None => Err(
            EraError::InvalidConfig(
                String::from_str("compact archive requires erasure-coded source"),
            ),
        ),
    }
}

/// The catalog has to be there once the archive was looked through.
pub fn require_catalog(loaded: bool) -> (r: Result<(), EraError>)
    ensures
        r is Ok <==> loaded,
        r matches Err(e) ==> (e matches EraError::IntegrityError(m) && m@
            == "catalog not loaded after preflight"@),
{
    if !loaded {
        return Err(
            EraError::IntegrityError(String::from_str("catalog not loaded after preflight")),
        );
    }
    Ok(())
}

/// A new random number for a bundle, from `uuid::Uuid::new_v4`. Of the 128
/// bits, those that say that it is a random UUID are fixed: the version digit
/// is 4 and the two variant bits are 10. Nothing is said of the others, which
/// come from the operating system.
#[verifier::external_body]
fn random_bundle_id() -> (id: u128)
    ensures
        (id / 0x10000000000000000000) % 16 == 4,
        (id / 0x4000000000000000) % 4 == 2,
{
    uuid::Uuid::new_v4().as_u128()
}

/// What is new in the header of a bundle; the rest is taken from the archive.
#[derive(Debug, Clone, Copy, PartialEq, Eq, Structural)]
pub struct BundleHeaderPlan {
    pub bundle_id: u128,
    pub volume_sequence: u16,
    pub total_compact_volumes: u16,
    /// Credentials that have to come together; 0 where one is enough.
    pub threshold: u32,
}

/// The plan for a bundle with a given number.
pub fn bundle_header(bundle_id: u128, total_compact_volumes: u16, threshold: Option<u32>) -> (p:
    BundleHeaderPlan)
    ensures
        p.bundle_id == bundle_id,
        p.volume_sequence == 0,
        p.total_compact_volumes == total_compact_volumes,
        p.threshold == (match threshold {
            Some(t) => t,
            None => 0,
        }),
{
    BundleHeaderPlan {
        bundle_id,
        volume_sequence: 0,
        total_compact_volumes,
        threshold: match threshold {
            Some(t) => t,
            None => 0,
        },
    }
}

/// The plan for a new bundle, which gets a random number.
pub fn build_compact_header(total_compact_volumes: u16, threshold: Option<u32>) -> (p:
    BundleHeaderPlan)
    ensures
        (p.bundle_id / 0x10000000000000000000) % 16 == 4,
        (p.bundle_id / 0x4000000000000000) % 4 == 2,
        p.volume_sequence == 0,
        p.total_compact_volumes == total_compact_volumes,
        p.threshold == (match threshold {
            Some(t) => t,
            None => 0,
        }),
{
    bundle_header(random_bundle_id(), total_compact_volumes, threshold)
}

/// The blocks of one stripe, by their position among all blocks.
#[derive(Debug)]
pub struct StripeGroup {
    pub ordinal: u64,
    pub members: Vec<usize>,
}

/// Block `a` comes before block `b` in a stripe.
pub open spec fn stands_before(s: Seq<SourceDataBlockSnapshot>, a: int, b: int) -> bool {
    ||| s[a].member_position_in_stripe < s[b].member_position_in_stripe
    ||| s[a].member_position_in_stripe == s[b].member_position_in_stripe && a < b
}

/// The group holds the blocks of its stripe, all of them, in order.
pub open spec fn is_group(s: Seq<SourceDataBlockSnapshot>, ordinal: u64, members: Seq<usize>) -> bool {
    &&& members.len() > 0
    &&& forall|k: int|
        0 <= k < members.len() ==> #[trigger] members[k] < s.len()
            && s[members[k] as int].stripe_ordinal == ordinal
    &&& forall|i: int|
        0 <= i < s.len() && (#[trigger] s[i]).stripe_ordinal == ordinal ==> members.contains(
            i as usize,
        )
    &&& forall|k: int, l: int|
        0 <= k < l < members.len() ==> stands_before(
            s,
            #[trigger] members[k] as int,
            #[trigger] members[l] as int,
        )
}

/// The stripe numbers of blocks.
pub open spec fn ordinals(s: Seq<SourceDataBlockSnapshot>) -> Seq<u64> {
    s.map_values(|b: SourceDataBlockSnapshot| b.stripe_ordinal)
}

fn members_of(snapshots: &[SourceDataBlockSnapshot], order: &Vec<usize>, ordinal: u64) -> (members:
    Vec<usize>)
    requires
        order@.len() == snapshots@.len(),
        forall|k: int| 0 <= k < order@.len() ==> #[trigger] order@[k] < snapshots@.len(),
        forall|i: int| 0 <= i < snapshots@.len() ==> #[trigger] order@.contains(i as usize),
        forall|k: int, l: int|
            0 <= k < l < order@.len() ==> stands_before(
                snapshots@,
                #[trigger] order@[k] as int,
                #[trigger] order@[l] as int,
            ),
        ordinals(snapshots@).contains(ordinal),
    ensures
        is_group(snapshots@, ordinal, members@),
{
    let mut members: Vec<usize> = Vec::new();
    // The position in `order` that each member comes from.
    let ghost mut from: Seq<int> = Seq::empty();
    let mut k: usize = 0;
    while k < order.len()
        invariant
            k <= order@.len(),
            forall|k: int| 0 <= k < order@.len() ==> #[trigger] order@[k] < snapshots@.len(),
            from.len() == members@.len(),
            forall|a: int|
                0 <= a < from.len() ==> 0 <= #[trigger] from[a] < k && members@[a] == order@[from[a]],
            forall|a: int, b: int| 0 <= a < b < from.len() ==> #[trigger] from[a] < #[trigger] from[b],
            forall|a: int|
                0 <= a < members@.len() ==> snapshots@[#[trigger] members@[a] as int].stripe_ordinal
                    == ordinal,
            forall|a: int|
                0 <= a < k && snapshots@[#[trigger] order@[a] as int].stripe_ordinal == ordinal
                    ==> members@.contains(order@[a]),
        decreases order@.len() - k,
    {
        let i: usize = order[k];
        let ghost before = members@;
        if snapshots[i].stripe_ordinal == ordinal {
            members.push(i);
            proof {
                from = from.push(k as int);
                assert(members@[before.len() as int] == i);
                assert forall|a: int|
                    0 <= a < k + 1 && snapshots@[#[trigger] order@[a] as int].stripe_ordinal
                        == ordinal implies members@.contains(order@[a]) by {
                    if a < k {
                        let b = choose|b: int| 0 <= b < before.len() && before[b] == order@[a];
                        assert(members@[b] == order@[a]);
                    }
                }
            }
        }
        k = k + 1;
    }
    proof {
        assert forall|i: int|
            0 <= i < snapshots@.len() && (#[trigger] snapshots@[i]).stripe_ordinal
                == ordinal implies members@.contains(i as usize) by {
            assert(order@.contains(i as usize));
            let a = choose|a: int| 0 <= a < order@.len() && order@[a] == i as usize;
            assert(members@.contains(order@[a]));
        }
        let p = choose|p: int|
            0 <= p < ordinals(snapshots@).len() && ordinals(snapshots@)[p] == ordinal;
        assert(snapshots@[p].stripe_ordinal == ordinal);
        assert forall|a: int, b: int| 0 <= a < b < members@.len() implies stands_before(
            snapshots@,
            #[trigger] members@[a] as int,
            #[trigger] members@[b] as int,
        ) by {
            assert(from[a] < from[b]);
            assert(stands_before(
                snapshots@,
                order@[from[a]] as int,
                order@[from[b]] as int,
            ));
        }
        assert forall|a: int| 0 <= a < members@.len() implies #[trigger] members@[a]
            < snapshots@.len() && snapshots@[members@[a] as int].stripe_ordinal == ordinal by {
            assert(0 <= from[a] < order@.len());
        }
    }
    members
}

/// The numbers of the groups.
pub open spec fn group_ordinals(groups: Seq<StripeGroup>) -> Seq<u64> {
    groups.map_values(|g: StripeGroup| g.ordinal)
}

/// The blocks of each stripe, the stripes by ascending number, the blocks by
/// their position in the stripe.
pub fn group_snapshots_into_stripes(snapshots: &[SourceDataBlockSnapshot]) -> (groups: Vec<
    StripeGroup,
>)
    ensures
        forall|g: int|
            0 <= g < groups@.len() ==> is_group(
                snapshots@,
                (#[trigger] groups@[g]).ordinal,
                groups@[g].members@,
            ),
        compact_compactor::is_sorted_set(group_ordinals(groups@), ordinals(snapshots@)),
{
    let n: usize = snapshots.len();
    let mut numbers: Vec<u64> = Vec::new();
    let mut positions: Vec<u64> = Vec::new();
    let mut i: usize = 0;
    while i < n
        invariant
            n == snapshots@.len(),
            i <= n,
            numbers@.len() == i,
            positions@.len() == i,
            forall|k: int| 0 <= k < i ==> #[trigger] numbers@[k] == snapshots@[k].stripe_ordinal,
            forall|k: int|
                0 <= k < i ==> #[trigger] positions@[k] == snapshots@[k].member_position_in_stripe,
        decreases n - i,
    {
        numbers.push(snapshots[i].stripe_ordinal);
        positions.push(snapshots[i].member_position_in_stripe as u64);
        i = i + 1;
    }
    assert(numbers@ =~= ordinals(snapshots@));
    let distinct = sorted_distinct(numbers);
    let keys = NumberKeys { keys: positions };
    let order = stable_order(&keys);
    proof {
        assert forall|k: int, l: int| 0 <= k < l < order@.len() implies stands_before(
            snapshots@,
            #[trigger] order@[k] as int,
            #[trigger] order@[l] as int,
        ) by {
            assert(ordering::comes_before(&keys, order@[k] as int, order@[l] as int));
            assert(keys.keys@[order@[k] as int]
                == snapshots@[order@[k] as int].member_position_in_stripe);
            assert(keys.keys@[order@[l] as int]
                == snapshots@[order@[l] as int].member_position_in_stripe);
        }
    }
    let mut groups: Vec<StripeGroup> = Vec::new();
    let mut d: usize = 0;
    while d < distinct.len()
        invariant
            d <= distinct@.len(),
            compact_compactor::is_sorted_set(distinct@, ordinals(snapshots@)),
            order@.len() == snapshots@.len(),
            forall|k: int| 0 <= k < order@.len() ==> #[trigger] order@[k] < snapshots@.len(),
            forall|i: int| 0 <= i < snapshots@.len() ==> #[trigger] order@.contains(i as usize),
            forall|k: int, l: int|
                0 <= k < l < order@.len() ==> stands_before(
                    snapshots@,
                    #[trigger] order@[k] as int,
                    #[trigger] order@[l] as int,
                ),
            groups@.len() == d,
            forall|g: int|
                0 <= g < d ==> is_group(
                    snapshots@,
                    (#[trigger] groups@[g]).ordinal,
                    groups@[g].members@,
                ),
            forall|g: int| 0 <= g < d ==> (#[trigger] groups@[g]).ordinal == distinct@[g],
        decreases distinct@.len() - d,
    {
        let ordinal: u64 = distinct[d];
        assert(distinct@.contains(distinct@[d as int]));
        let members = members_of(snapshots, &order, ordinal);
        groups.push(StripeGroup { ordinal, members });
        d = d + 1;
    }
    assert(group_ordinals(groups@) =~= distinct@);
    groups
}

/// A block as the bundle takes it.
pub fn snapshot_to_shard_input(snap: &SourceDataBlockSnapshot) -> (input: CompactShardInput)
    ensures
        input@ == snap@,
{
    CompactShardInput {
        block_id: snap.block_id,
        encrypted_bytes: copy_bytes(snap.encrypted_bytes.as_slice()),
        stripe_ordinal: snap.stripe_ordinal,
        member_position_in_stripe: snap.member_position_in_stripe,
        stripe_lengths: copy_u32s(&snap.stripe_lengths),
        data_shards: snap.data_shards,
        parity_shards: snap.parity_shards,
    }
}

/// Blocks as values.
pub open spec fn input_views(inputs: Seq<CompactShardInput>) -> Seq<SnapshotView> {
    inputs.map_values(|i: CompactShardInput| i@)
}

/// The positions that the blocks have in their stripe.
pub open spec fn positions(inputs: Seq<SnapshotView>) -> Seq<u16> {
    inputs.map_values(|i: SnapshotView| i.member_position_in_stripe)
}

/// The length of the longest block.
pub open spec fn longest_block(inputs: Seq<SnapshotView>) -> nat
    decreases inputs.len(),
{
    if inputs.len() == 0 {
        0
    } else {
        let before = longest_block(inputs.drop_last());
        let last = inputs.last().encrypted_bytes.len();
        if last > before {
            last
        } else {
            before
        }
    }
}

/// A length table with zeros up to `n` lengths.
pub open spec fn lengthened(lengths: Seq<u32>, n: nat) -> Seq<u32> {
    if lengths.len() >= n {
        lengths
    } else {
        lengths + Seq::new((n - lengths.len()) as nat, |i: int| 0u32)
    }
}

/// The block of zeros that stands for position `pos` of a stripe.
pub open spec fn filler(
    inputs: Seq<SnapshotView>,
    data_shards: u8,
    first_id: int,
    pos: nat,
) -> SnapshotView {
    SnapshotView {
        block_id: (first_id + pos) as u64,
        encrypted_bytes: Seq::new(longest_block(inputs), |i: int| 0u8),
        stripe_ordinal: inputs[0].stripe_ordinal,
        member_position_in_stripe: pos as u16,
        stripe_lengths: lengthened(inputs[0].stripe_lengths, data_shards as nat),
        data_shards: inputs[0].data_shards,
        parity_shards: inputs[0].parity_shards,
    }
}

/// The positions of a stripe that no block has.
pub open spec fn open_positions(inputs: Seq<SnapshotView>, data_shards: u8) -> Seq<nat> {
    source_block_snapshot::absent(positions(inputs), data_shards as nat)
}

/// The blocks, and a block of zeros for each position that none of them has.
pub open spec fn filled(inputs: Seq<SnapshotView>, data_shards: u8, first_id: int) -> Seq<
    SnapshotView,
> {
    inputs + open_positions(inputs, data_shards).map_values(
        |pos: nat| filler(inputs, data_shards, first_id, pos),
    )
}

/// `order` lists `s` by ascending position, equal positions as they stood.
pub open spec fn is_position_order(s: Seq<SnapshotView>, order: Seq<usize>) -> bool {
    &&& order.len() == s.len()
    &&& forall|k: int| 0 <= k < order.len() ==> #[trigger] order[k] < s.len()
    &&& forall|i: int| 0 <= i < s.len() ==> #[trigger] order.contains(i as usize)
    &&& forall|k: int, l: int|
        0 <= k < l < order.len() ==> {
            ||| s[#[trigger] order[k] as int].member_position_in_stripe
                < s[#[trigger] order[l] as int].member_position_in_stripe
            ||| s[order[k] as int].member_position_in_stripe
                == s[order[l] as int].member_position_in_stripe && order[k] < order[l]
        }
}

/// `s` in the order `order`.
pub open spec fn reordered(s: Seq<SnapshotView>, order: Seq<usize>) -> Seq<SnapshotView> {
    order.map_values(|i: usize| s[i as int])
}

impl CompactShardInput {
    fn duplicate(&self) -> (c: Self)
        ensures
            c@ == self@,
    {
        CompactShardInput {
            block_id: self.block_id,
            encrypted_bytes: copy_bytes(self.encrypted_bytes.as_slice()),
            stripe_ordinal: self.stripe_ordinal,
            member_position_in_stripe: self.member_position_in_stripe,
            stripe_lengths: copy_u32s(&self.stripe_lengths),
            data_shards: self.data_shards,
            parity_shards: self.parity_shards,
        }
    }
}

fn zeros(n: usize) -> (v: Vec<u8>)
    ensures
        v@ == Seq::new(n as nat, |i: int| 0u8),
{
    let mut v: Vec<u8> = Vec::new();
    let mut i: usize = 0;
    while i < n
        invariant
            i <= n,
            v@ == Seq::new(i as nat, |k: int| 0u8),
        decreases n - i,
    {
        v.push(0);
        assert(v@ =~= Seq::new((i + 1) as nat, |k: int| 0u8));
        i = i + 1;
    }
    v
}

fn longest_of(inputs: &Vec<CompactShardInput>) -> (m: usize)
    ensures
        m == longest_block(input_views(inputs@)),
{
    let mut m: usize = 0;
    let mut i: usize = 0;
    while i < inputs.len()
        invariant
            i <= inputs@.len(),
            m == longest_block(input_views(inputs@.take(i as int))),
        decreases inputs@.len() - i,
    {
        assert(input_views(inputs@.take(i + 1)).drop_last() =~= input_views(
            inputs@.take(i as int),
        ));
        let l: usize = inputs[i].encrypted_bytes.len();
        if l > m {
            m = l;
        }
        i = i + 1;
    }
    assert(inputs@.take(inputs@.len() as int) =~= inputs@);
    m
}

fn has_position(inputs: &Vec<CompactShardInput>, n: usize, pos: u16) -> (r: bool)
    requires
        n <= inputs@.len(),
    ensures
        r == source_block_snapshot::has_volume(
            positions(input_views(inputs@.take(n as int))),
            pos as int,
        ),
{
    let ghost all = positions(input_views(inputs@.take(n as int)));
    let mut i: usize = 0;
    while i < n
        invariant
            i <= n,
            n <= inputs@.len(),
            all == positions(input_views(inputs@.take(n as int))),
            forall|k: int| 0 <= k < i ==> #[trigger] all[k] != pos,
        decreases n - i,
    {
        assert(all[i as int] == inputs@[i as int].member_position_in_stripe);
        if inputs[i].member_position_in_stripe == pos {
            return true;
        }
        i = i + 1;
    }
    false
}

/// The first of the numbers for blocks of zeros in stripe `stripe_idx`.
pub open spec fn first_filler_id(padding_base: u64, stripe_idx: usize) -> int {
    padding_base + stripe_idx * 256
}

/// Fills a stripe up where blocks are missing: every position that no block
/// has gets a block of zeros. A full stripe and an empty one stay as they are.
pub fn pad_stripe_inputs(
    inputs: &mut Vec<CompactShardInput>,
    data_shards: u8,
    stripe_idx: usize,
    padding_base: u64,
)
    requires
        first_filler_id(padding_base, stripe_idx) + 255 <= u64::MAX,
    ensures
        ({
            let before = input_views(old(inputs)@);
            let after = input_views(final(inputs)@);
            if before.len() >= data_shards || before.len() == 0 {
                final(inputs)@ == old(inputs)@
            } else {
                let all = filled(before, data_shards, first_filler_id(padding_base, stripe_idx));
                exists|order: Seq<usize>| #[trigger]
                    is_position_order(all, order) && after == reordered(all, order)
            }
        }),
{
    let expected: usize = data_shards as usize;
    let n: usize = inputs.len();
    if n >= expected || n == 0 {
        return;
    }
    let ghost before = input_views(inputs@);
    let ghost first_id = first_filler_id(padding_base, stripe_idx);
    let max_len: usize = longest_of(inputs);
    let stripe_ordinal: u64 = inputs[0].stripe_ordinal;
    let ds: u8 = inputs[0].data_shards;
    let ps: u8 = inputs[0].parity_shards;
    let mut stripe_lengths: Vec<u32> = copy_u32s(&inputs[0].stripe_lengths);
    let ghost template = inputs@[0].stripe_lengths@;
    while stripe_lengths.len() < expected
        invariant
            stripe_lengths@ == lengthened(template, stripe_lengths@.len()),
            template.len() <= stripe_lengths@.len(),
            stripe_lengths@.len() <= expected || stripe_lengths@ == template,
        decreases expected - stripe_lengths@.len(),
    {
        stripe_lengths.push(0);
        assert(stripe_lengths@ =~= lengthened(template, stripe_lengths@.len()));
    }
    assert(stripe_lengths@ =~= lengthened(template, expected as nat));
    let base: u64 = padding_base + (stripe_idx as u64) * 256;
    let mut pos: usize = 0;
    assert(inputs@.take(n as int) =~= inputs@);
    assert(before[0] == inputs@[0]@);
    assert(input_views(inputs@) =~= before + source_block_snapshot::absent(
        positions(before),
        0,
    ).map_values(|p: nat| filler(before, data_shards, first_id, p)));
    while pos < expected
        invariant
            pos <= expected,
            expected == data_shards,
            n <= inputs@.len(),
            n < expected,
            n > 0,
            before == input_views(inputs@.take(n as int)),
            first_id == first_filler_id(padding_base, stripe_idx),
            base == first_id,
            first_id + 255 <= u64::MAX,
            max_len == longest_block(before),
            stripe_ordinal == before[0].stripe_ordinal,
            ds == before[0].data_shards,
            ps == before[0].parity_shards,
            stripe_lengths@ == lengthened(before[0].stripe_lengths, expected as nat),
            input_views(inputs@) == before + source_block_snapshot::absent(
                positions(before),
                pos as nat,
            ).map_values(|p: nat| filler(before, data_shards, first_id, p)),
        decreases expected - pos,
    {
        let ghost done = source_block_snapshot::absent(positions(before), pos as nat);
        let ghost held = inputs@;
        if !has_position(inputs, n, pos as u16) {
            let input = CompactShardInput {
                block_id: base + pos as u64,
                encrypted_bytes: zeros(max_len),
                stripe_ordinal,
                member_position_in_stripe: pos as u16,
                stripe_lengths: copy_u32s(&stripe_lengths),
                data_shards: ds,
                parity_shards: ps,
            };
            assert(input@ =~= filler(before, data_shards, first_id, pos as nat));
            inputs.push(input);
            proof {
                let grown = source_block_snapshot::absent(positions(before), (pos + 1) as nat);
                assert(grown == done.push(pos as nat));
                assert(input_views(inputs@) =~= input_views(held).push(input@));
                assert(grown.map_values(|p: nat| filler(before, data_shards, first_id, p))
                    =~= done.map_values(|p: nat| filler(before, data_shards, first_id, p)).push(
                    input@,
                ));
                assert(inputs@.take(n as int) =~= held.take(n as int));
                assert(input_views(inputs@) =~= before + grown.map_values(
                    |p: nat| filler(before, data_shards, first_id, p),
                ));
            }
        }
        pos = pos + 1;
    }
    let ghost all = input_views(inputs@);
    assert(all =~= filled(before, data_shards, first_id));
    let mut numbers: Vec<u64> = Vec::new();
    let total: usize = inputs.len();
    let mut i: usize = 0;
    while i < total
        invariant
            total == inputs@.len(),
            i <= total,
            all == input_views(inputs@),
            numbers@.len() == i,
            forall|k: int|
                0 <= k < i ==> #[trigger] numbers@[k] == all[k].member_position_in_stripe,
        decreases total - i,
    {
        numbers.push(inputs[i].member_position_in_stripe as u64);
        i = i + 1;
    }
    let keys = NumberKeys { keys: numbers };
    let order = stable_order(&keys);
    proof {
        assert forall|k: int, l: int| 0 <= k < l < order@.len() implies {
            ||| all[#[trigger] order@[k] as int].member_position_in_stripe
                < all[#[trigger] order@[l] as int].member_position_in_stripe
            ||| all[order@[k] as int].member_position_in_stripe
                == all[order@[l] as int].member_position_in_stripe && order@[k] < order@[l]
        } by {
            assert(ordering::comes_before(&keys, order@[k] as int, order@[l] as int));
            assert(keys.keys@[order@[k] as int] == all[order@[k] as int].member_position_in_stripe);
            assert(keys.keys@[order@[l] as int] == all[order@[l] as int].member_position_in_stripe);
        }
        assert(is_position_order(all, order@));
    }
    let mut sorted: Vec<CompactShardInput> = Vec::new();
    let mut j: usize = 0;
    while j < order.len()
        invariant
            j <= order@.len(),
            all == input_views(inputs@),
            all.len() == inputs@.len(),
            is_position_order(all, order@),
            sorted@.len() == j,
            forall|k: int| 0 <= k < j ==> (#[trigger] sorted@[k])@ == all[order@[k] as int],
        decreases order@.len() - j,
    {
        assert(order@[j as int] < all.len());
        let input = inputs[order[j]].duplicate();
        assert(input@ == all[order@[j as int] as int]);
        sorted.push(input);
        j = j + 1;
    }
    assert(input_views(sorted@) =~= reordered(all, order@));
    *inputs = sorted;
}

/// The positions below `n` that are taken.
spec fn taken(available: Seq<u16>, n: nat) -> Set<int> {
    Set::new(|v: int| 0 <= v < n && source_block_snapshot::has_volume(available, v))
}

proof fn lemma_absent_and_taken(available: Seq<u16>, n: nat)
    ensures
        taken(available, n).finite(),
        source_block_snapshot::absent(available, n).len() + taken(available, n).len() == n,
    decreases n,
{
    if n == 0 {
        assert(taken(available, n) =~= Set::empty());
    } else {
        lemma_absent_and_taken(available, (n - 1) as nat);
        if source_block_snapshot::has_volume(available, n - 1) {
            assert(taken(available, n) =~= taken(available, (n - 1) as nat).insert(n - 1));
        } else {
            assert(taken(available, n) =~= taken(available, (n - 1) as nat));
        }
    }
}

/// A stripe that was filled up has as many blocks as it has data shards.
pub proof fn law_filled_stripe_is_full(inputs: Seq<SnapshotView>, data_shards: u8, first_id: int)
    requires
        positions(inputs).no_duplicates(),
        forall|i: int|
            0 <= i < inputs.len() ==> (#[trigger] inputs[i]).member_position_in_stripe < data_shards,
    ensures
        filled(inputs, data_shards, first_id).len() == data_shards,
{
    let p = positions(inputs);
    let n = data_shards as nat;
    lemma_absent_and_taken(p, n);
    let q = p.map_values(|x: u16| x as int);
    assert forall|i: int, j: int| 0 <= i < q.len() && 0 <= j < q.len() && i != j implies q[i]
        != q[j] by {
        assert(p[i] != p[j]);
    }
    q.unique_seq_to_set();
    assert forall|v: int| #[trigger] q.to_set().contains(v) <==> taken(p, n).contains(v) by {
        if q.contains(v) {
            let i = choose|i: int| 0 <= i < q.len() && q[i] == v;
            assert(p[i] == v);
            assert(inputs[i].member_position_in_stripe < data_shards);
        }
        if taken(p, n).contains(v) {
            let k = choose|k: int| 0 <= k < p.len() && #[trigger] p[k] == v;
            assert(q[k] == v);
        }
    }
    assert(q.to_set() =~= taken(p, n));
}

/// The numbers of two blocks of zeros differ unless stripe and position are
/// the same.
pub proof fn law_filler_numbers_are_apart(
    padding_base: u64,
    stripe_a: usize,
    pos_a: nat,
    stripe_b: usize,
    pos_b: nat,
)
    requires
        pos_a < 256,
        pos_b < 256,
        first_filler_id(padding_base, stripe_a) + pos_a == first_filler_id(padding_base, stripe_b)
            + pos_b,
    ensures
        stripe_a == stripe_b,
        pos_a == pos_b,
{
}

proof fn lemma_longest_block(inputs: Seq<SnapshotView>)
    ensures
        forall|i: int|
            0 <= i < inputs.len() ==> (#[trigger] inputs[i]).encrypted_bytes.len() <= longest_block(
                inputs,
            ),
        inputs.len() > 0 ==> exists|i: int|
            0 <= i < inputs.len() && (#[trigger] inputs[i]).encrypted_bytes.len() == longest_block(
                inputs,
            ),
    decreases inputs.len(),
{
    if inputs.len() > 0 {
        let front = inputs.drop_last();
        lemma_longest_block(front);
        assert(inputs.last() == inputs[inputs.len() - 1]);
        assert forall|i: int| 0 <= i < inputs.len() implies (
        #[trigger] inputs[i]).encrypted_bytes.len() <= longest_block(inputs) by {
            if i < front.len() {
                assert(front[i] == inputs[i]);
            }
        }
        if inputs.last().encrypted_bytes.len() == longest_block(inputs) {
        } else {
            let i = choose|i: int|
                0 <= i < front.len() && (#[trigger] front[i]).encrypted_bytes.len()
                    == longest_block(front);
            assert(inputs[i] == front[i]);
        }
    }
}

/// Filling up a stripe changes none of its blocks. What is added are zeros, as many as the
/// longest block has bytes, at the positions that were open.
pub proof fn law_filling_up_adds_zeros(
    inputs: Seq<SnapshotView>,
    data_shards: u8,
    first_id: int,
    i: int,
    k: int,
)
    requires
        inputs.len() > 0,
        0 <= i < inputs.len(),
        inputs.len() <= k < filled(inputs, data_shards, first_id).len(),
    ensures
        filled(inputs, data_shards, first_id)[i] == inputs[i],
        ({
            let z = filled(inputs, data_shards, first_id)[k];
            &&& forall|b: int| 0 <= b < z.encrypted_bytes.len() ==> z.encrypted_bytes[b] == 0u8
            &&& inputs[i].encrypted_bytes.len() <= z.encrypted_bytes.len()
            &&& exists|l: int|
                0 <= l < inputs.len() && (#[trigger] inputs[l]).encrypted_bytes.len()
                    == z.encrypted_bytes.len()
            &&& z.member_position_in_stripe < data_shards
            &&& z.member_position_in_stripe != inputs[i].member_position_in_stripe
            &&& z.stripe_ordinal == inputs[0].stripe_ordinal
            &&& z.data_shards == inputs[0].data_shards
            &&& z.parity_shards == inputs[0].parity_shards
            &&& inputs[0].stripe_lengths.is_prefix_of(z.stripe_lengths)
            &&& z.stripe_lengths.len() >= data_shards
            &&& forall|b: int|
                inputs[0].stripe_lengths.len() <= b < z.stripe_lengths.len()
                    ==> z.stripe_lengths[b] == 0u32
        }),
{
    lemma_longest_block(inputs);
    let open = open_positions(inputs, data_shards);
    let p = positions(inputs);
    source_block_snapshot::law_absent_volumes(p, data_shards as nat);
    let pos = open[k - inputs.len()];
    assert(pos < data_shards && !source_block_snapshot::has_volume(p, pos as int));
    let z = filled(inputs, data_shards, first_id)[k];
    assert(z == filler(inputs, data_shards, first_id, pos));
    assert(p[i] == inputs[i].member_position_in_stripe);
    let l = choose|l: int|
        0 <= l < inputs.len() && (#[trigger] inputs[l]).encrypted_bytes.len() == longest_block(
            inputs,
        );
    assert(inputs[l].encrypted_bytes.len() == z.encrypted_bytes.len());
    assert(inputs[0].stripe_lengths.is_prefix_of(z.stripe_lengths));
}

/// Putting the blocks of a stripe in order loses none, and their positions rise.
pub proof fn law_ordered_blocks_are_the_same(s: Seq<SnapshotView>, order: Seq<usize>, i: int)
    requires
        is_position_order(s, order),
        s.len() <= usize::MAX,
        0 <= i < s.len(),
    ensures
        reordered(s, order).len() == s.len(),
        reordered(s, order).contains(s[i]),
        i + 1 < s.len() ==> reordered(s, order)[i].member_position_in_stripe <= reordered(
            s,
            order,
        )[i + 1].member_position_in_stripe,
{
    assert(order.contains(i as usize));
    let k = choose|k: int| 0 <= k < order.len() && order[k] == i as usize;
    assert(reordered(s, order)[k] == s[i]);
    if i + 1 < s.len() {
        assert(order[i] < s.len() && order[i + 1] < s.len());
    }
}

/// A group has every block of its stripe, no other block, and each once.
pub proof fn law_group_is_its_stripe(
    s: Seq<SourceDataBlockSnapshot>,
    ordinal: u64,
    members: Seq<usize>,
    i: usize,
)
    requires
        is_group(s, ordinal, members),
        i < s.len(),
    ensures
        members.contains(i) <==> s[i as int].stripe_ordinal == ordinal,
        members.no_duplicates(),
        forall|k: int|
            0 < k < members.len() ==> s[members[k - 1] as int].member_position_in_stripe
                <= s[#[trigger] members[k] as int].member_position_in_stripe,
{
    assert forall|k: int, l: int|
        0 <= k < members.len() && 0 <= l < members.len() && k != l implies members[k]
        != members[l] by {
        if k < l {
            assert(stands_before(s, members[k] as int, members[l] as int));
        } else {
            assert(stands_before(s, members[l] as int, members[k] as int));
        }
    }
    assert forall|k: int| 0 < k < members.len() implies s[members[k
        - 1] as int].member_position_in_stripe <= s[#[trigger] members[k] as int].member_position_in_stripe by {
        assert(stands_before(s, members[k - 1] as int, members[k] as int));
    }
}

} // verus!

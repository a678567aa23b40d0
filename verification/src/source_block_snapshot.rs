//! The encrypted blocks of an archive as they are taken over into a compact
//! bundle: bytes unchanged, with the place each block has in its stripe.
use vstd::prelude::*;

use crate::erasure_stage;
use crate::erasure_stage::{lengths_of, EncryptedMacroBlock, Stripe};
use crate::text;
use crate::types::{copy_bytes, EraError, MatrixDistributionStrategy};

verus! {

/// A block of a stripe.
#[derive(Debug)]
pub struct StripeBatchMember {
    pub block_id: u64,
    pub member_position_in_stripe: u16,
    pub canonical_encrypted_bytes: Vec<u8>,
}

/// A stripe.
#[derive(Debug)]
pub struct StripeBatchSnapshot {
    pub stripe_ordinal: u64,
    pub stripe_lengths: Vec<u32>,
    pub members: Vec<StripeBatchMember>,
    pub data_shards: u8,
    pub parity_shards: u8,
}

/// A block together with what is to be known of its stripe.
#[derive(Debug)]
pub struct SourceDataBlockSnapshot {
    pub block_id: u64,
    pub encrypted_bytes: Vec<u8>,
    pub stripe_ordinal: u64,
    pub member_position_in_stripe: u16,
    pub stripe_lengths: Vec<u32>,
    pub data_shards: u8,
    pub parity_shards: u8,
}

/// A block with its stripe, as a value.
#[verifier::ext_equal]
pub struct SnapshotView {
    pub block_id: u64,
    pub encrypted_bytes: Seq<u8>,
    pub stripe_ordinal: u64,
    pub member_position_in_stripe: u16,
    pub stripe_lengths: Seq<u32>,
    pub data_shards: u8,
    pub parity_shards: u8,
}

impl View for SourceDataBlockSnapshot {
    type V = SnapshotView;

    open spec fn view(&self) -> SnapshotView {
        SnapshotView {
            block_id: self.block_id,
            encrypted_bytes: self.encrypted_bytes@,
            stripe_ordinal: self.stripe_ordinal,
            member_position_in_stripe: self.member_position_in_stripe,
            stripe_lengths: self.stripe_lengths@,
            data_shards: self.data_shards,
            parity_shards: self.parity_shards,
        }
    }
}

pub(crate) fn copy_u32s(v: &Vec<u32>) -> (r: Vec<u32>)
    ensures
        r@ == v@,
{
    let mut r: Vec<u32> = Vec::new();
    let mut i: usize = 0;
    while i < v.len()
        invariant
            i <= v.len(),
            r@ == v@.take(i as int),
        decreases v.len() - i,
    {
        r.push(v[i]);
        assert(v@.take(i + 1) =~= v@.take(i as int).push(v@[i as int]));
        i = i + 1;
    }
    assert(v@.take(v.len() as int) =~= v@);
    r
}

/// Member `i` is block `i` of the stripe, bytes unchanged.
pub open spec fn member_of(m: StripeBatchMember, blocks: Seq<EncryptedMacroBlock>, i: int) -> bool {
    &&& m.block_id == blocks[i].block_id
    &&& m.member_position_in_stripe == i
    &&& m.canonical_encrypted_bytes@ == blocks[i].data@
}

/// The blocks of a stripe in order. A stripe without data shards is refused.
pub fn stripe_batch_from_stripe(stripe: &Stripe, stripe_ordinal: u64) -> (r: Result<
    StripeBatchSnapshot,
    EraError,
>)
    requires
        stripe.wf(),
    ensures
        if stripe.config.data_shards == 0 {
            r matches Err(EraError::InvalidConfig(m)) && m@ == "stripe data_shards must be > 0"@
        } else {
            &&& r matches Ok(b)
            &&& b.stripe_ordinal == stripe_ordinal
            &&& b.stripe_lengths@ == erasure_stage::block_lengths(stripe.data_blocks@)
            &&& b.members@.len() == stripe.data_blocks@.len()
            &&& forall|i: int|
                0 <= i < b.members@.len() ==> member_of(
                    #[trigger] b.members@[i],
                    stripe.data_blocks@,
                    i,
                )
            &&& b.data_shards == stripe.config.data_shards
            &&& b.parity_shards == stripe.config.parity_shards
        },
{
    if stripe.config.data_shards == 0 {
        return Err(EraError::InvalidConfig(String::from_str("stripe data_shards must be > 0")));
    }
    let stripe_lengths = lengths_of(&stripe.data_blocks);
    let n: usize = stripe.data_blocks.len();
    let mut members: Vec<StripeBatchMember> = Vec::new();
    let mut i: usize = 0;
    while i < n
        invariant
            stripe.wf(),
            n == stripe.data_blocks@.len(),
            i <= n,
            members@.len() == i,
            forall|k: int|
                0 <= k < i ==> member_of(#[trigger] members@[k], stripe.data_blocks@, k),
        decreases n - i,
    {
        let block = &stripe.data_blocks[i];
        members.push(
            StripeBatchMember {
                block_id: block.block_id,
                member_position_in_stripe: i as u16,
                canonical_encrypted_bytes: copy_bytes(block.data.as_slice()),
            },
        );
        i = i + 1;
    }
    Ok(
        StripeBatchSnapshot {
            stripe_ordinal,
            stripe_lengths,
            members,
            data_shards: stripe.config.data_shards,
            parity_shards: stripe.config.parity_shards,
        },
    )
}

/// What is taken over of block `i` of a stripe.
pub open spec fn snapshot_of(stripe: Stripe, stripe_ordinal: u64, i: int) -> SnapshotView {
    SnapshotView {
        block_id: stripe.data_blocks@[i].block_id,
        encrypted_bytes: stripe.data_blocks@[i].data@,
        stripe_ordinal,
        member_position_in_stripe: i as u16,
        stripe_lengths: erasure_stage::block_lengths(stripe.data_blocks@),
        data_shards: stripe.config.data_shards,
        parity_shards: stripe.config.parity_shards,
    }
}

/// The blocks of a stripe in order, each with what is to be known of the
/// stripe.
pub fn source_data_block_snapshots_from_stripe(stripe: &Stripe, stripe_ordinal: u64) -> (r: Result<
    Vec<SourceDataBlockSnapshot>,
    EraError,
>)
    requires
        stripe.wf(),
    ensures
        if stripe.config.data_shards == 0 {
            r matches Err(EraError::InvalidConfig(m)) && m@ == "stripe data_shards must be > 0"@
        } else {
            &&& r matches Ok(v)
            &&& v@.len() == stripe.data_blocks@.len()
            &&& forall|i: int|
                0 <= i < v@.len() ==> (#[trigger] v@[i])@ == snapshot_of(
                    *stripe,
                    stripe_ordinal,
                    i,
                )
        },
{
    let batch = match stripe_batch_from_stripe(stripe, stripe_ordinal) {
        Ok(b) => b,
        Err(e) => return Err(e),
    };
    let mut out: Vec<SourceDataBlockSnapshot> = Vec::new();
    let mut i: usize = 0;
    while i < batch.members.len()
        invariant
            stripe.wf(),
            i <= batch.members@.len(),
            batch.members@.len() == stripe.data_blocks@.len(),
            forall|k: int|
                0 <= k < batch.members@.len() ==> member_of(
                    #[trigger] batch.members@[k],
                    stripe.data_blocks@,
                    k,
                ),
            batch.stripe_ordinal == stripe_ordinal,
            batch.stripe_lengths@ == erasure_stage::block_lengths(stripe.data_blocks@),
            batch.data_shards == stripe.config.data_shards,
            batch.parity_shards == stripe.config.parity_shards,
            out@.len() == i,
            forall|k: int|
                0 <= k < i ==> (#[trigger] out@[k])@ == snapshot_of(*stripe, stripe_ordinal, k),
        decreases batch.members@.len() - i,
    {
        let member = &batch.members[i];
        assert(member_of(batch.members@[i as int], stripe.data_blocks@, i as int));
        let snapshot = SourceDataBlockSnapshot {
            block_id: member.block_id,
            encrypted_bytes: copy_bytes(member.canonical_encrypted_bytes.as_slice()),
            stripe_ordinal: batch.stripe_ordinal,
            member_position_in_stripe: member.member_position_in_stripe,
            stripe_lengths: copy_u32s(&batch.stripe_lengths),
            data_shards: batch.data_shards,
            parity_shards: batch.parity_shards,
        };
        assert(snapshot@ =~= snapshot_of(*stripe, stripe_ordinal, i as int));
        out.push(snapshot);
        i = i + 1;
    }
    Ok(out)
}

/// Volume `n` is among those that are there.
pub open spec fn has_volume(available: Seq<u16>, n: int) -> bool {
    exists|k: int| 0 <= k < available.len() && #[trigger] available[k] == n
}

/// The numbers below `n` that are not there, ascending.
pub open spec fn absent(available: Seq<u16>, n: nat) -> Seq<nat>
    decreases n,
{
    if n == 0 {
        Seq::empty()
    } else {
        let before = absent(available, (n - 1) as nat);
        if has_volume(available, n - 1) {
            before
        } else {
            before.push((n - 1) as nat)
        }
    }
}

/// Numbers between brackets, with a comma and a space between two.
pub open spec fn listed(numbers: Seq<nat>) -> Seq<char>
    decreases numbers.len(),
{
    if numbers.len() == 0 {
        Seq::empty()
    } else if numbers.len() == 1 {
        text::decimal(numbers[0])
    } else {
        listed(numbers.drop_last()) + ", "@ + text::decimal(numbers.last())
    }
}

fn contains_volume(available: &[u16], n: usize) -> (r: bool)
    ensures
        r == has_volume(available@, n as int),
{
    let mut i: usize = 0;
    while i < available.len()
        invariant
            i <= available@.len(),
            forall|k: int| 0 <= k < i ==> #[trigger] available@[k] != n,
        decreases available@.len() - i,
    {
        if available[i] as usize == n {
            assert(available@[i as int] == n);
            return true;
        }
        i = i + 1;
    }
    false
}

/// Checks that volumes 0 up to the expected number are all there.
pub fn ensure_complete_source_volume_set(
    expected_total_volumes: usize,
    available_volume_sequences: &[u16],
) -> (r: Result<(), EraError>)
    ensures
        if expected_total_volumes == 0 {
            r matches Err(EraError::InvalidConfig(m)) && m@ == "expected_total_volumes must be > 0"@
        } else if absent(available_volume_sequences@, expected_total_volumes as nat).len() > 0 {
            r matches Err(EraError::InvalidFormat(m)) && m@
                == "missing source volumes before compaction: ["@ + listed(
                absent(available_volume_sequences@, expected_total_volumes as nat),
            ) + "]"@
        } else {
            r is Ok
        },
{
    if expected_total_volumes == 0 {
        return Err(
            EraError::InvalidConfig(String::from_str("expected_total_volumes must be > 0")),
        );
    }
    let head = "missing source volumes before compaction: [";
    let mut text: String = String::from_str(head);
    let mut any = false;
    let mut i: usize = 0;
    assert(head@ + listed(Seq::empty()) =~= head@);
    while i < expected_total_volumes
        invariant
            i <= expected_total_volumes,
            any == (absent(available_volume_sequences@, i as nat).len() > 0),
            text@ == head@ + listed(absent(available_volume_sequences@, i as nat)),
        decreases expected_total_volumes - i,
    {
        let ghost before = absent(available_volume_sequences@, i as nat);
        if !contains_volume(available_volume_sequences, i) {
            proof {
                assert(before.push(i as nat).drop_last() =~= before);
            }
            if any {
                text.append(", ");
            }
            text::push_decimal(&mut text, i as u64);
            assert(absent(available_volume_sequences@, (i + 1) as nat) == before.push(i as nat));
            assert(text@ =~= head@ + listed(before.push(i as nat)));
            any = true;
        }
        i = i + 1;
    }
    if any {
        text.append("]");
        return Err(EraError::InvalidFormat(text));
    }
    Ok(())
}

/// Exactly where every expected volume is there, none is reported absent.
pub proof fn law_absent_volumes(available: Seq<u16>, n: nat)
    ensures
        absent(available, n).len() == 0 <==> forall|v: int|
            0 <= v < n ==> #[trigger] has_volume(available, v),
        forall|k: int|
            0 <= k < absent(available, n).len() ==> #[trigger] absent(available, n)[k] < n
                && !has_volume(available, absent(available, n)[k] as int),
    decreases n,
{
    if n > 0 {
        law_absent_volumes(available, (n - 1) as nat);
        let before = absent(available, (n - 1) as nat);
        let after = absent(available, n);
        if has_volume(available, n - 1) {
            if after.len() == 0 {
                assert forall|v: int| 0 <= v < n implies #[trigger] has_volume(available, v) by {}
            } else {
                assert(!(forall|v: int| 0 <= v < n - 1 ==> #[trigger] has_volume(available, v)));
            }
        } else {
            assert(after[after.len() - 1] == n - 1);
            assert forall|k: int| 0 <= k < after.len() implies #[trigger] after[k] < n
                && !has_volume(available, after[k] as int) by {
                if k < before.len() {
                    assert(after[k] == before[k]);
                }
            }
        }
    }
}

/// The volume of a compact bundle that holds a shard. Fails for a bundle without
/// volumes.
pub fn compact_volume_for_shard(
    shard_idx: usize,
    stripe_ordinal: u64,
    total_compact_volumes: usize,
) -> (r: Result<usize, EraError>)
    ensures
        match r {
            Ok(v) => total_compact_volumes > 0 && v
                == MatrixDistributionStrategy::RotatingOffset.volume_of(
                shard_idx as nat,
                stripe_ordinal as nat,
                total_compact_volumes as nat,
            ),
            Err(e) => total_compact_volumes == 0 && (e matches EraError::InvalidConfig(m) && m@
                == "Volume count must be at least 1"@),
        },
{
    if total_compact_volumes == 0 {
        return Err(EraError::InvalidConfig(String::from_str("Volume count must be at least 1")));
    }
    Ok(
        MatrixDistributionStrategy::RotatingOffset.calculate_volume(
            shard_idx,
            stripe_ordinal,
            total_compact_volumes,
        ),
    )
}

/// A number is reported absent exactly where its volume is not there; the reported
/// numbers rise.
pub proof fn law_every_absent_volume_is_reported(available: Seq<u16>, n: nat, v: nat)
    requires
        n <= 65536,
    ensures
        absent(available, n).contains(v) <==> v < n && !available.contains(v as u16),
        forall|k: int, l: int|
            0 <= k < l < absent(available, n).len() ==> #[trigger] absent(available, n)[k]
                < #[trigger] absent(available, n)[l],
    decreases n,
{
    if n > 0 {
        let m = (n - 1) as nat;
        let before = absent(available, m);
        let after = absent(available, n);
        law_every_absent_volume_is_reported(available, m, v);
        law_absent_volumes(available, m);
        assert(has_volume(available, m as int) <==> available.contains(m as u16));
        if has_volume(available, m as int) {
        } else {
            assert(after == before.push(m));
            if before.contains(v) {
                let k = choose|k: int| 0 <= k < before.len() && before[k] == v;
                assert(after[k] == v);
            }
            if v == m {
                assert(after[before.len() as int] == v);
            }
        }
    }
}

/// What is taken over of a block names its bytes, its place in the stripe, and how long
/// each block of the stripe is.
pub proof fn law_snapshot_tells_of_the_block(stripe: Stripe, ordinal: u64, i: int, j: int)
    requires
        erasure_stage::fit(stripe.data_blocks@),
        0 <= i < stripe.data_blocks@.len() <= u16::MAX,
        0 <= j < stripe.data_blocks@.len(),
    ensures
        ({
            let s = snapshot_of(stripe, ordinal, i);
            &&& s.encrypted_bytes == stripe.data_blocks@[i].data@
            &&& s.block_id == stripe.data_blocks@[i].block_id
            &&& s.stripe_ordinal == ordinal
            &&& s.member_position_in_stripe == i
            &&& s.stripe_lengths.len() == stripe.data_blocks@.len()
            &&& s.stripe_lengths[j] == stripe.data_blocks@[j].data@.len()
            &&& s.data_shards == stripe.config.data_shards
            &&& s.parity_shards == stripe.config.parity_shards
        }),
        i != j ==> snapshot_of(stripe, ordinal, i) != snapshot_of(stripe, ordinal, j),
{
    erasure_stage::law_lengths_are_those_of_the_blocks(stripe.data_blocks@, j);
    assert(snapshot_of(stripe, ordinal, j).member_position_in_stripe == j);
}

/// A list of numbers goes on behind a comma and a space.
pub proof fn law_lists_are_joined(a: Seq<nat>, b: Seq<nat>, n: nat)
    requires
        a.len() > 0,
        b.len() > 0,
    ensures
        listed(seq![n]) == text::decimal(n),
        listed(a + b) == listed(a) + seq![',', ' '] + listed(b),
    decreases b.len(),
{
    reveal_strlit(", ");
    assert(", "@ =~= seq![',', ' ']);
    assert((a + b).drop_last() =~= a + b.drop_last());
    assert((a + b).last() == b.last());
    if b.len() > 1 {
        law_lists_are_joined(a, b.drop_last(), n);
        assert(listed(a + b) =~= listed(a) + seq![',', ' '] + listed(b));
    } else {
        assert(a + b.drop_last() =~= a);
        assert(listed(b) == text::decimal(b[0]));
    }
}

/// A member of a batch is one block of the stripe: its bytes, its number and its place.
pub proof fn law_members_are_the_blocks(
    m: StripeBatchMember,
    blocks: Seq<EncryptedMacroBlock>,
    i: int,
)
    requires
        0 <= i < blocks.len(),
        member_of(m, blocks, i),
    ensures
        m.canonical_encrypted_bytes@ == blocks[i].data@,
        m.block_id == blocks[i].block_id,
        m.member_position_in_stripe == i,
        forall|j: int| #[trigger] member_of(m, blocks, j) ==> j == i,
{
}

} // verus!

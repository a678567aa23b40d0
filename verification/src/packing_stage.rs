//! Putting chunks together into blocks: a number of bins, each chunk into the
//! bin that it fits best.
use vstd::multiset::Multiset;
use vstd::prelude::*;

use crate::catalog::UniqueChunk;
use crate::text;
use crate::types::EraError;

verus! {

/// Chunks that become one block.
#[derive(Debug)]
pub struct PackedBlock {
    pub chunks: Vec<UniqueChunk>,
}

/// The bytes of chunks together.
pub open spec fn bytes_of(chunks: Seq<UniqueChunk>) -> nat
    decreases chunks.len(),
{
    if chunks.len() == 0 {
        0
    } else {
        bytes_of(chunks.drop_last()) + chunks.last().data@.len()
    }
}

/// What all bins hold together.
pub open spec fn held(bins: Seq<Seq<UniqueChunk>>) -> Multiset<UniqueChunk>
    decreases bins.len(),
{
    if bins.len() == 0 {
        Multiset::empty()
    } else {
        held(bins.drop_last()).add(bins.last().to_multiset())
    }
}

/// How many chunks all bins hold together.
pub open spec fn chunks_in(bins: Seq<Seq<UniqueChunk>>) -> nat
    decreases bins.len(),
{
    if bins.len() == 0 {
        0
    } else {
        chunks_in(bins.drop_last()) + bins.last().len()
    }
}

/// Bin `i` has room for `size` bytes.
pub open spec fn fits(bins: Seq<Seq<UniqueChunk>>, target: nat, size: nat, i: int) -> bool {
    bytes_of(bins[i]) + size <= target
}

/// The bin for a chunk: of those that it fits into the fullest one; where it
/// fits into none, the emptiest one. Of several the first.
pub open spec fn is_choice(bins: Seq<Seq<UniqueChunk>>, target: nat, size: nat, i: int) -> bool {
    &&& 0 <= i < bins.len()
    &&& if exists|k: int| 0 <= k < bins.len() && #[trigger] fits(bins, target, size, k) {
        &&& fits(bins, target, size, i)
        &&& forall|k: int|
            0 <= k < bins.len() && #[trigger] fits(bins, target, size, k) ==> bytes_of(bins[k])
                <= bytes_of(bins[i]) && (bytes_of(bins[k]) == bytes_of(bins[i]) ==> i <= k)
    } else {
        forall|k: int|
            0 <= k < bins.len() ==> bytes_of(#[trigger] bins[k]) >= bytes_of(bins[i]) && (
            bytes_of(bins[k]) == bytes_of(bins[i]) ==> i <= k)
    }
}

/// There is one bin to choose.
pub proof fn law_choice_is_unique(
    bins: Seq<Seq<UniqueChunk>>,
    target: nat,
    size: nat,
    i: int,
    j: int,
)
    requires
        is_choice(bins, target, size, i),
        is_choice(bins, target, size, j),
    ensures
        i == j,
{
    if exists|k: int| 0 <= k < bins.len() && #[trigger] fits(bins, target, size, k) {
        assert(fits(bins, target, size, i) && fits(bins, target, size, j));
    } else {
        assert(bytes_of(bins[i]) >= bytes_of(bins[j]) && bytes_of(bins[j]) >= bytes_of(bins[i]));
    }
}

/// The bins.
#[derive(Debug)]
pub struct PackingStage {
    pub bins: Vec<Vec<UniqueChunk>>,
    /// The bytes in each bin.
    pub sizes: Vec<u64>,
    pub target_block_size: usize,
    pub flush_threshold_percent: usize,
}

/// The chunks of each bin.
pub open spec fn contents(bins: Seq<Vec<UniqueChunk>>) -> Seq<Seq<UniqueChunk>> {
    bins.map_values(|b: Vec<UniqueChunk>| b@)
}

impl View for PackingStage {
    type V = Seq<Seq<UniqueChunk>>;

    open spec fn view(&self) -> Seq<Seq<UniqueChunk>> {
        contents(self.bins@)
    }
}

impl PackingStage {
    /// The sizes are right, and no bin waits that is full enough to be written.
    pub open spec fn wf(&self) -> bool {
        &&& self.bins@.len() > 0
        &&& self.sizes@.len() == self.bins@.len()
        &&& 1 <= self.flush_threshold_percent <= 100
        &&& self.target_block_size <= isize::MAX
        &&& forall|i: int|
            0 <= i < self.bins@.len() ==> #[trigger] self.sizes@[i] == bytes_of(self@[i])
        &&& forall|i: int|
            0 <= i < self.bins@.len() ==> self.sizes@[i] == 0 || !self.is_full(
                #[trigger] self.sizes@[i] as nat,
            )
    }

    /// A bin with this many bytes is written.
    pub open spec fn is_full(&self, bytes: nat) -> bool {
        bytes * 100 >= self.target_block_size * self.flush_threshold_percent
    }

    /// The limits are the same.
    pub open spec fn same_limits(&self, other: PackingStage) -> bool {
        &&& self.target_block_size == other.target_block_size
        &&& self.flush_threshold_percent == other.flush_threshold_percent
    }

    /// `k_factor` bins, at least one, for blocks of `target_block_size` bytes, written when
    /// they are filled to the given percentage.
    pub fn new(k_factor: usize, target_block_size: usize, flush_threshold_percent: usize) -> (r:
        Result<Self, EraError>)
        requires
            target_block_size <= isize::MAX,
        ensures
            if 1 <= flush_threshold_percent <= 100 && k_factor == 0 {
                r matches Err(EraError::InvalidConfig(m)) && m@ == "k_factor must be at least 1"@
            } else if 1 <= flush_threshold_percent <= 100 {
                &&& r matches Ok(s)
                &&& s.wf()
                &&& s@ == Seq::new(k_factor as nat, |i: int| Seq::<UniqueChunk>::empty())
                &&& s.target_block_size == target_block_size
                &&& s.flush_threshold_percent == flush_threshold_percent
            } else {
                r matches Err(EraError::InvalidConfig(m)) && m@
                    == "flush_threshold_percent must be in range 1-100, got "@ + text::decimal(
                    flush_threshold_percent as nat,
                ) + ""@
            },
    {
        if flush_threshold_percent == 0 || flush_threshold_percent > 100 {
            return Err(
                EraError::InvalidConfig(
                    text::with_number(
                        "flush_threshold_percent must be in range 1-100, got ",
                        flush_threshold_percent as u64,
                        "",
                    ),
                ),
            );
        }
        if k_factor == 0 {
            return Err(EraError::InvalidConfig(String::from_str("k_factor must be at least 1")));
        }
        let mut bins: Vec<Vec<UniqueChunk>> = Vec::new();
        let mut sizes: Vec<u64> = Vec::new();
        let mut i: usize = 0;
        while i < k_factor
            invariant
                i <= k_factor,
                bins@.len() == i,
                sizes@.len() == i,
                forall|k: int| 0 <= k < i ==> (#[trigger] bins@[k])@.len() == 0,
                forall|k: int| 0 <= k < i ==> #[trigger] sizes@[k] == 0,
            decreases k_factor - i,
        {
            bins.push(Vec::new());
            sizes.push(0);
            i = i + 1;
        }
        let s = PackingStage { bins, sizes, target_block_size, flush_threshold_percent };
        assert forall|i: int| 0 <= i < s@.len() implies #[trigger] s@[i]
            == Seq::<UniqueChunk>::empty() by {
            assert(s@[i] == s.bins@[i]@);
            assert(s@[i] =~= Seq::<UniqueChunk>::empty());
        }
        assert(s@ =~= Seq::new(k_factor as nat, |i: int| Seq::<UniqueChunk>::empty()));
        Ok(s)
    }

    /// Bins that are written when they are filled to 95 percent.
    pub fn with_defaults(k_factor: usize, target_block_size: usize) -> (r: Result<Self, EraError>)
        requires
            target_block_size <= isize::MAX,
        ensures
            k_factor > 0 ==> (r matches Ok(s) && s.wf() && s@ == Seq::new(
                k_factor as nat,
                |i: int| Seq::<UniqueChunk>::empty(),
            ) && s.target_block_size == target_block_size && s.flush_threshold_percent == 95),
            k_factor == 0 ==> (r matches Err(EraError::InvalidConfig(m)) && m@
                == "k_factor must be at least 1"@),
    {
        Self::new(k_factor, target_block_size, 95)
    }

    pub fn target_block_size(&self) -> (n: usize)
        ensures
            n == self.target_block_size,
    {
        self.target_block_size
    }

    fn choose_bin(&self, size: u64) -> (at: usize)
        requires
            self.wf(),
            size <= self.target_block_size,
        ensures
            is_choice(self@, self.target_block_size as nat, size as nat, at as int),
    {
        let n: usize = self.sizes.len();
        let target: u64 = self.target_block_size as u64;
        let ghost bins = self@;
        let mut best: Option<usize> = None;
        let mut emptiest: usize = 0;
        let mut i: usize = 0;
        while i < n
            invariant
                self.wf(),
                bins == self@,
                n == self.sizes@.len(),
                n == bins.len(),
                target == self.target_block_size,
                size <= target,
                i <= n,
                emptiest < n,
                i == 0 ==> emptiest == 0,
                i > 0 ==> emptiest < i,
                forall|k: int|
                    0 <= k < i ==> bytes_of(#[trigger] bins[k]) >= bytes_of(bins[emptiest as int])
                        && (bytes_of(bins[k]) == bytes_of(bins[emptiest as int]) ==> emptiest
                        <= k),
                best matches Some(b) ==> b < i && fits(bins, target as nat, size as nat, b as int),
                best is None ==> forall|k: int|
                    0 <= k < i ==> !#[trigger] fits(bins, target as nat, size as nat, k),
                best matches Some(b) ==> forall|k: int|
                    0 <= k < i && #[trigger] fits(bins, target as nat, size as nat, k)
                        ==> bytes_of(bins[k]) <= bytes_of(bins[b as int]) && (bytes_of(bins[k])
                        == bytes_of(bins[b as int]) ==> b <= k),
            decreases n - i,
        {
            assert(self.sizes@[i as int] == bytes_of(bins[i as int]));
            assert(self.sizes@[emptiest as int] == bytes_of(bins[emptiest as int]));
            let here: u64 = self.sizes[i];
            if here < self.sizes[emptiest] {
                emptiest = i;
            }
            if here <= target - size {
                assert(fits(bins, target as nat, size as nat, i as int));
                match best {
                    Some(b) => {
                        assert(self.sizes@[b as int] == bytes_of(bins[b as int]));
                        if here > self.sizes[b] {
                            best = Some(i);
                        }
                    },
                    None => {
                        best = Some(i);
                    },
                }
            }
            i = i + 1;
        }
        match best {
            Some(b) => b,
            None => emptiest,
        }
    }

    /// Takes a chunk. A chunk that is larger than a block is a block by itself.
    /// Any other goes into the bin that it fits best, and the bin comes back
    /// once it is full enough.
    pub fn push(&mut self, chunk: UniqueChunk) -> (r: Option<PackedBlock>)
        requires
            old(self).wf(),
        ensures
            final(self).wf(),
            final(self).same_limits(*old(self)),
            if chunk.data@.len() > old(self).target_block_size {
                &&& r matches Some(b)
                &&& b.chunks@ == seq![chunk]
                &&& final(self)@ == old(self)@
            } else {
                exists|i: int| #[trigger]
                    is_choice(
                        old(self)@,
                        old(self).target_block_size as nat,
                        chunk.data@.len(),
                        i,
                    ) && {
                        let bin = old(self)@[i].push(chunk);
                        if old(self).is_full(bytes_of(bin)) {
                            &&& r matches Some(b)
                            &&& b.chunks@ == bin
                            &&& final(self)@ == old(self)@.update(i, Seq::empty())
                        } else {
                            r is None && final(self)@ == old(self)@.update(i, bin)
                        }
                    }
            },
    {
        let ghost before = self@;
        if chunk.data.len() > self.target_block_size {
            let mut chunks: Vec<UniqueChunk> = Vec::new();
            chunks.push(chunk);
            assert(chunks@ =~= seq![chunk]);
            return Some(PackedBlock { chunks });
        }
        let size: u64 = chunk.data.len() as u64;
        let at: usize = self.choose_bin(size);
        let ghost bin = before[at as int].push(chunk);
        assert(bin.drop_last() =~= before[at as int]);
        assert(self.sizes@[at as int] == bytes_of(before[at as int]));
        let held: u64 = self.sizes[at];
        let percent: u128 = self.flush_threshold_percent as u128;
        let target: u128 = self.target_block_size as u128;
        proof {
            lemma_percent(target as int, percent as int);
            if held > 0 {
                assert(!self.is_full(self.sizes@[at as int] as nat));
            }
        }
        assert(held <= isize::MAX);
        let mut chunks: Vec<UniqueChunk> = Vec::new();
        self.bins.set_and_swap(at, &mut chunks);
        chunks.push(chunk);
        let total: u64 = held + size;
        if total as u128 * 100 >= target * percent {
            self.sizes.set(at, 0);
            assert(self@ =~= before.update(at as int, Seq::empty()));
            return Some(PackedBlock { chunks });
        }
        let mut back = chunks;
        self.bins.set_and_swap(at, &mut back);
        self.sizes.set(at, total);
        assert(self@ =~= before.update(at as int, bin));
        None
    }

    /// Takes everything out: the bins that hold something, in order.
    pub fn flush_all(&mut self) -> (blocks: Vec<PackedBlock>)
        requires
            old(self).wf(),
        ensures
            final(self).wf(),
            final(self).target_block_size == old(self).target_block_size,
            final(self).flush_threshold_percent == old(self).flush_threshold_percent,
            final(self)@ == Seq::new(old(self)@.len(), |i: int| Seq::<UniqueChunk>::empty()),
            blocks@.map_values(|b: PackedBlock| b.chunks@) == filled(
                old(self)@,
                old(self)@.len(),
            ),
    {
        let ghost before = self@;
        let n: usize = self.bins.len();
        let mut blocks: Vec<PackedBlock> = Vec::new();
        assert(blocks@.map_values(|b: PackedBlock| b.chunks@) =~= filled(before, 0));
        let mut i: usize = 0;
        while i < n
            invariant
                i <= n,
                n == self.bins@.len(),
                n == before.len(),
                self.wf(),
                self.target_block_size == old(self).target_block_size,
                self.flush_threshold_percent == old(self).flush_threshold_percent,
                forall|k: int| 0 <= k < i ==> (#[trigger] self@[k]) == Seq::<UniqueChunk>::empty(),
                forall|k: int| i <= k < n ==> (#[trigger] self@[k]) == before[k],
                blocks@.map_values(|b: PackedBlock| b.chunks@) == filled(before, i as nat),
            decreases n - i,
        {
            let ghost held = self@;
            let ghost list = blocks@;
            let mut chunks: Vec<UniqueChunk> = Vec::new();
            self.bins.set_and_swap(i, &mut chunks);
            self.sizes.set(i, 0);
            assert(self@ =~= held.update(i as int, Seq::empty()));
            assert(held[i as int] == before[i as int]);
            if chunks.len() > 0 {
                blocks.push(PackedBlock { chunks });
                assert(blocks@.map_values(|b: PackedBlock| b.chunks@) =~= list.map_values(
                    |b: PackedBlock| b.chunks@,
                ).push(before[i as int]));
            }
            i = i + 1;
        }
        assert(self@ =~= Seq::new(before.len(), |i: int| Seq::<UniqueChunk>::empty()));
        blocks
    }

    /// Whether nothing waits.
    pub fn is_empty(&self) -> (r: bool)
        requires
            self.wf(),
        ensures
            r == (forall|i: int| 0 <= i < self@.len() ==> (#[trigger] self@[i]).len() == 0),
    {
        let mut i: usize = 0;
        while i < self.bins.len()
            invariant
                i <= self.bins@.len(),
                forall|k: int| 0 <= k < i ==> (#[trigger] self@[k]).len() == 0,
            decreases self.bins@.len() - i,
        {
            if self.bins[i].len() > 0 {
                assert(self@[i as int].len() > 0);
                return false;
            }
            i = i + 1;
        }
        true
    }

    /// What waits.
    pub fn stats(&self) -> (s: PackingStats)
        requires
            self.wf(),
            chunks_in(self@) <= usize::MAX,
        ensures
            s.total_chunks == chunks_in(self@),
    {
        let mut total_chunks: usize = 0;
        let mut i: usize = 0;
        while i < self.bins.len()
            invariant
                i <= self.bins@.len(),
                chunks_in(self@) <= usize::MAX,
                total_chunks == chunks_in(self@.take(i as int)),
            decreases self.bins@.len() - i,
        {
            assert(self@.take(i + 1).drop_last() =~= self@.take(i as int));
            assert(self@.take(i + 1).last() == self.bins@[i as int]@);
            proof {
                lemma_chunks_prefix(self@, i + 1);
            }
            total_chunks = total_chunks + self.bins[i].len();
            i = i + 1;
        }
        assert(self@.take(i as int) =~= self@);
        PackingStats { total_chunks }
    }

    pub fn bin_count(&self) -> (n: usize)
        ensures
            n == self@.len(),
    {
        self.bins.len()
    }
}

/// What waits in the bins of a stage.
#[derive(Debug, Clone, Copy, PartialEq, Eq, Structural)]
pub struct PackingStats {
    pub total_chunks: usize,
}

proof fn lemma_chunks_prefix(bins: Seq<Seq<UniqueChunk>>, n: int)
    requires
        0 <= n <= bins.len(),
    ensures
        chunks_in(bins.take(n)) <= chunks_in(bins),
    decreases bins.len() - n,
{
    if n < bins.len() {
        lemma_chunks_prefix(bins, n + 1);
        assert(bins.take(n + 1).drop_last() =~= bins.take(n));
    } else {
        assert(bins.take(n) =~= bins);
    }
}

/// The bins among the first `n` that hold something.
pub open spec fn filled(bins: Seq<Seq<UniqueChunk>>, n: nat) -> Seq<Seq<UniqueChunk>>
    decreases n,
{
    if n == 0 {
        Seq::empty()
    } else if bins[n - 1].len() > 0 {
        filled(bins, (n - 1) as nat).push(bins[n - 1])
    } else {
        filled(bins, (n - 1) as nat)
    }
}

proof fn lemma_percent(target: int, percent: int)
    requires
        0 <= target <= isize::MAX,
        1 <= percent <= 100,
    ensures
        0 <= target * percent <= target * 100,
{
    assert(0 <= target * percent <= target * 100) by (nonlinear_arith)
        requires
            0 <= target,
            1 <= percent <= 100,
    ;
}

proof fn lemma_held_update(bins: Seq<Seq<UniqueChunk>>, i: int, bin: Seq<UniqueChunk>)
    requires
        0 <= i < bins.len(),
    ensures
        held(bins.update(i, bin)).add(bins[i].to_multiset()) == held(bins).add(bin.to_multiset()),
    decreases bins.len(),
{
    let after = bins.update(i, bin);
    if i == bins.len() - 1 {
        assert(after.drop_last() =~= bins.drop_last());
        assert(held(after).add(bins[i].to_multiset()) =~= held(bins).add(bin.to_multiset()));
    } else {
        lemma_held_update(bins.drop_last(), i, bin);
        assert(after.drop_last() =~= bins.drop_last().update(i, bin));
        let rest = bins.last().to_multiset();
        let x = held(after.drop_last());
        let y = held(bins.drop_last());
        assert(x.add(bins[i].to_multiset()) == y.add(bin.to_multiset()));
        assert forall|c: UniqueChunk|
            held(after).add(bins[i].to_multiset()).count(c) == held(bins).add(
                bin.to_multiset(),
            ).count(c) by {
            assert(x.add(bins[i].to_multiset()).count(c) == y.add(bin.to_multiset()).count(c));
        }
        assert(held(after).add(bins[i].to_multiset()) =~= held(bins).add(bin.to_multiset()));
    }
}

/// Nothing is lost on the way into a bin, and nothing is doubled: what the bins
/// hold afterwards, together with what comes back, is what they held and the new
/// chunk.
pub proof fn law_no_chunk_is_lost(bins: Seq<Seq<UniqueChunk>>, i: int, chunk: UniqueChunk)
    requires
        0 <= i < bins.len(),
    ensures
        ({
            let bin = bins[i].push(chunk);
            &&& held(bins.update(i, bin)) == held(bins).insert(chunk)
            &&& held(bins.update(i, Seq::empty())).add(bin.to_multiset()) == held(bins).insert(
                chunk,
            )
        }),
{
    let old = bins[i];
    let bin = old.push(chunk);
    let none = Seq::<UniqueChunk>::empty();
    old.to_multiset_ensures();
    none.to_multiset_ensures();
    lemma_held_update(bins, i, bin);
    lemma_held_update(bins, i, none);
    let a = held(bins.update(i, bin));
    let b = held(bins.update(i, none));
    assert(bin.to_multiset() == old.to_multiset().insert(chunk));
    assert(none.to_multiset() =~= Multiset::empty());
    assert forall|c: UniqueChunk| a.count(c) == held(bins).insert(chunk).count(c) by {
        assert(a.add(old.to_multiset()).count(c) == held(bins).add(bin.to_multiset()).count(c));
    }
    assert forall|c: UniqueChunk|
        b.add(bin.to_multiset()).count(c) == held(bins).insert(chunk).count(c) by {
        assert(b.add(old.to_multiset()).count(c) == held(bins).add(none.to_multiset()).count(c));
    }
    assert(a =~= held(bins).insert(chunk));
    assert(b.add(bin.to_multiset()) =~= held(bins).insert(chunk));
}

/// What is handed out at the end is all that the bins held.
pub proof fn law_flushing_hands_everything_out(bins: Seq<Seq<UniqueChunk>>)
    ensures
        held(filled(bins, bins.len())) == held(bins),
{
    lemma_filled_holds(bins, bins.len());
    assert(bins.take(bins.len() as int) =~= bins);
}

proof fn lemma_filled_holds(bins: Seq<Seq<UniqueChunk>>, n: nat)
    requires
        n <= bins.len(),
    ensures
        held(filled(bins, n)) == held(bins.take(n as int)),
    decreases n,
{
    if n > 0 {
        let m = (n - 1) as nat;
        lemma_filled_holds(bins, m);
        assert(bins.take(n as int).drop_last() =~= bins.take(m as int));
        if bins[n - 1].len() > 0 {
            assert(filled(bins, n).drop_last() =~= filled(bins, m));
        } else {
            bins[n - 1].to_multiset_ensures();
            assert(bins[n - 1] =~= Seq::empty());
            assert(bins[n - 1].to_multiset() =~= Multiset::empty());
            assert(held(bins.take(m as int)).add(Multiset::empty()) =~= held(bins.take(m as int)));
        }
    }
}

/// The bytes of chunks are those of each, added up.
pub proof fn law_bytes_add_up(a: Seq<UniqueChunk>, b: Seq<UniqueChunk>, c: UniqueChunk)
    ensures
        bytes_of(Seq::empty()) == 0,
        bytes_of(seq![c]) == c.data@.len(),
        bytes_of(a + b) == bytes_of(a) + bytes_of(b),
    decreases b.len(),
{
    assert(seq![c].drop_last() =~= Seq::<UniqueChunk>::empty());
    if b.len() == 0 {
        assert(a + b =~= a);
    } else {
        assert((a + b).drop_last() =~= a + b.drop_last());
        law_bytes_add_up(a, b.drop_last(), c);
    }
}

/// Where a chunk fits into some bin, the bin that gets it holds no more than a block,
/// and no bin is left fuller that had room. Otherwise no bin holds less.
pub proof fn law_best_bin_is_chosen(
    bins: Seq<Seq<UniqueChunk>>,
    target: nat,
    chunk: UniqueChunk,
    i: int,
    k: int,
)
    requires
        is_choice(bins, target, chunk.data@.len(), i),
        0 <= k < bins.len(),
    ensures
        bytes_of(bins[k].push(chunk)) <= target ==> bytes_of(bins[i].push(chunk)) <= target
            && bytes_of(bins[k]) <= bytes_of(bins[i]),
        bytes_of(bins[i].push(chunk)) > target ==> bytes_of(bins[i]) <= bytes_of(bins[k])
            && bytes_of(bins[k].push(chunk)) > target,
        bytes_of(bins[k]) == bytes_of(bins[i]) ==> i <= k,
{
    assert(bins[k].push(chunk).drop_last() =~= bins[k]);
    assert(bins[i].push(chunk).drop_last() =~= bins[i]);
    assert(bytes_of(bins[k].push(chunk)) == bytes_of(bins[k]) + chunk.data@.len());
    assert(bytes_of(bins[i].push(chunk)) == bytes_of(bins[i]) + chunk.data@.len());
    if bytes_of(bins[k].push(chunk)) <= target {
        assert(fits(bins, target, chunk.data@.len(), k));
    }
    if bytes_of(bins[k]) == bytes_of(bins[i]) {
        if fits(bins, target, chunk.data@.len(), i) {
            assert(fits(bins, target, chunk.data@.len(), k));
        }
    }
}

/// A bin is full once it holds so many hundredths of a block: with a whole block it is,
/// and what is less than full stays so with fewer bytes.
pub proof fn law_when_a_bin_is_full(s: PackingStage, bytes: nat, fewer: nat, hundredth: nat)
    requires
        s.wf(),
        fewer <= bytes,
    ensures
        bytes >= s.target_block_size ==> s.is_full(bytes),
        s.is_full(fewer) ==> s.is_full(bytes),
        s.target_block_size == 100 * hundredth ==> (s.is_full(bytes) <==> bytes >= hundredth
            * s.flush_threshold_percent),
{
    let t = s.target_block_size as int;
    let p = s.flush_threshold_percent as int;
    lemma_percent(t, p);
    if t == 100 * hundredth {
        assert(t * p == 100 * (hundredth * p)) by (nonlinear_arith)
            requires
                t == 100 * hundredth,
        ;
    }
}

/// The chunks of all bins are those of each, added up.
pub proof fn law_chunks_add_up(bins: Seq<Seq<UniqueChunk>>, i: int, chunk: UniqueChunk)
    requires
        0 <= i < bins.len(),
    ensures
        chunks_in(bins.update(i, bins[i].push(chunk))) == chunks_in(bins) + 1,
        chunks_in(Seq::empty()) == 0,
    decreases bins.len(),
{
    let after = bins.update(i, bins[i].push(chunk));
    if i == bins.len() - 1 {
        assert(after.drop_last() =~= bins.drop_last());
    } else {
        law_chunks_add_up(bins.drop_last(), i, chunk);
        assert(after.drop_last() =~= bins.drop_last().update(i, bins.drop_last()[i].push(chunk)));
    }
}

/// Stages with the same limits call the same bins full.
pub proof fn law_same_limits_fill_alike(a: PackingStage, b: PackingStage, bytes: nat)
    requires
        a.same_limits(b),
    ensures
        a.is_full(bytes) == b.is_full(bytes),
        a.target_block_size == b.target_block_size,
        a.flush_threshold_percent == b.flush_threshold_percent,
{
}

} // verus!

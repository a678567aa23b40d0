//! What a scan over erasure-coded stripes reads out of the length tables.
//!
//! Each shard is preceded by a copy of the stripe's length table: the length of
//! every data shard as a little-endian 32-bit number. Several copies exist, so
//! a damaged copy can be outvoted.
use vstd::prelude::*;

use crate::types::bytes_equal;

verus! {

/// The number written in four bytes, least significant first.
pub open spec fn le32(b: Seq<u8>, at: int) -> int {
    b[at] + 256 * b[at + 1] + 65536 * b[at + 2] + 16777216 * b[at + 3]
}

/// The table held in `prefix`: one number for each four bytes, a rest of fewer
/// than four bytes ignored.
pub open spec fn stripe_lengths(prefix: Seq<u8>) -> Seq<u32> {
    Seq::new(prefix.len() / 4, |i: int| le32(prefix, 4 * i) as u32)
}

/// The bytes of a length table.
pub open spec fn length_table(lengths: Seq<u32>) -> Seq<u8> {
    Seq::new(
        lengths.len() * 4,
        |k: int|
            {
                let n = lengths[k / 4] as int;
                (if k % 4 == 0 {
                    n % 256
                } else if k % 4 == 1 {
                    (n / 256) % 256
                } else if k % 4 == 2 {
                    (n / 65536) % 256
                } else {
                    n / 16777216
                }) as u8
            },
    )
}

/// A table that was written is read back unchanged.
pub proof fn law_length_table_round_trip(lengths: Seq<u32>)
    ensures
        stripe_lengths(length_table(lengths)) == lengths,
{
    let t = length_table(lengths);
    assert forall|i: int| 0 <= i < lengths.len() implies le32(t, 4 * i) == lengths[i] by {
        let n = lengths[i] as int;
        assert((4 * i) / 4 == i && (4 * i + 1) / 4 == i && (4 * i + 2) / 4 == i && (4 * i + 3) / 4
            == i);
        assert(t[4 * i] as int == n % 256);
        assert(t[4 * i + 1] as int == (n / 256) % 256);
        assert(t[4 * i + 2] as int == (n / 65536) % 256);
        assert(t[4 * i + 3] as int == n / 16777216);
        assert(n / 65536 == (n / 256) / 256);
        assert(n / 16777216 == (n / 65536) / 256);
    }
    assert(stripe_lengths(t) =~= lengths);
}

/// The four bytes of a number, least significant first.
pub fn push_le32(out: &mut Vec<u8>, n: u32)
    ensures
        final(out)@ == old(out)@ + length_table(seq![n]),
{
    let ghost before = out@;
    out.push((n % 256) as u8);
    out.push(((n / 256) % 256) as u8);
    out.push(((n / 65536) % 256) as u8);
    out.push((n / 16777216) as u8);
    proof {
        let t = length_table(seq![n]);
        assert(0int / 4 == 0 && 1int / 4 == 0 && 2int / 4 == 0 && 3int / 4 == 0);
        assert(out@ =~= before + t);
    }
}

/// The length table of a stripe as it is written in front of each shard.
pub fn write_length_table(lengths: &[u32]) -> (out: Vec<u8>)
    ensures
        out@ == length_table(lengths@),
{
    let mut out: Vec<u8> = Vec::new();
    let mut i: usize = 0;
    while i < lengths.len()
        invariant
            i <= lengths.len(),
            out@ == length_table(lengths@.take(i as int)),
        decreases lengths.len() - i,
    {
        push_le32(&mut out, lengths[i]);
        proof {
            let a = lengths@.take(i as int);
            let b = lengths@.take(i + 1);
            let one = seq![lengths@[i as int]];
            assert(b =~= a + one);
            assert forall|k: int| 0 <= k < b.len() * 4 implies length_table(b)[k] == (
            length_table(a) + length_table(one))[k] by {
                if k < 4 * i {
                    assert(k / 4 < i);
                } else {
                    assert(k / 4 == i && (k - 4 * i) / 4 == 0 && (k - 4 * i) % 4 == k % 4);
                }
            }
            assert(length_table(b) =~= length_table(a) + length_table(one));
        }
        i = i + 1;
    }
    assert(lengths@.take(lengths.len() as int) =~= lengths@);
    out
}

/// Reads a length table.
pub fn parse_stripe_lengths(prefix_bytes: &[u8], data_shards: usize) -> (lengths: Vec<u32>)
    ensures
        lengths@ == stripe_lengths(prefix_bytes@),
{
    let mut lengths: Vec<u32> = Vec::with_capacity(data_shards);
    let n: usize = prefix_bytes.len() / 4;
    let mut i: usize = 0;
    while i < n
        invariant
            i <= n,
            n == prefix_bytes.len() / 4,
            lengths@ == stripe_lengths(prefix_bytes@).take(i as int),
        decreases n - i,
    {
        let at: usize = 4 * i;
        let v: u32 = prefix_bytes[at] as u32 + 256 * (prefix_bytes[at + 1] as u32) + 65536 * (
        prefix_bytes[at + 2] as u32) + 16777216 * (prefix_bytes[at + 3] as u32);
        lengths.push(v);
        assert(stripe_lengths(prefix_bytes@).take(i + 1) =~= stripe_lengths(prefix_bytes@).take(
            i as int,
        ).push(v));
        i = i + 1;
    }
    assert(stripe_lengths(prefix_bytes@).take(n as int) =~= stripe_lengths(prefix_bytes@));
    lengths
}

/// How often `x` stands in `s`.
pub open spec fn occurrences(s: Seq<Seq<u8>>, x: Seq<u8>) -> nat
    decreases s.len(),
{
    if s.len() == 0 {
        0
    } else {
        occurrences(s.drop_last(), x) + if s.last() == x {
            1nat
        } else {
            0nat
        }
    }
}

/// `w` is the agreed copy: it occurs at least twice and more often than any other.
pub open spec fn is_consensus(copies: Seq<Seq<u8>>, w: Seq<u8>) -> bool {
    &&& occurrences(copies, w) >= 2
    &&& forall|x: Seq<u8>|
        x != w ==> #[trigger] occurrences(copies, x) < occurrences(copies, w)
}

/// The lengths in the agreed copy, where there is one.
pub open spec fn agreed_lengths(copies: Seq<Seq<u8>>) -> Option<Seq<u32>> {
    if exists|w: Seq<u8>| #[trigger] is_consensus(copies, w) {
        Some(stripe_lengths(choose|w: Seq<u8>| #[trigger] is_consensus(copies, w)))
    } else {
        None
    }
}

/// An optional table as a sequence.
pub open spec fn lengths_view(lengths: Option<Vec<u32>>) -> Option<Seq<u32>> {
    match lengths {
        Some(l) => Some(l@),
        None => None,
    }
}

/// The copies as byte sequences.
pub open spec fn contents(copies: Seq<Vec<u8>>) -> Seq<Seq<u8>> {
    copies.map_values(|v: Vec<u8>| v@)
}

proof fn lemma_occurrences_absent(s: Seq<Seq<u8>>, x: Seq<u8>)
    requires
        forall|i: int| 0 <= i < s.len() ==> s[i] != x,
    ensures
        occurrences(s, x) == 0,
    decreases s.len(),
{
    if s.len() > 0 {
        lemma_occurrences_absent(s.drop_last(), x);
    }
}

proof fn lemma_occurrences_bounded(s: Seq<Seq<u8>>, x: Seq<u8>)
    ensures
        occurrences(s, x) <= s.len(),
    decreases s.len(),
{
    if s.len() > 0 {
        lemma_occurrences_bounded(s.drop_last(), x);
    }
}

proof fn lemma_occurrences_swap(s: Seq<Seq<u8>>, x: Seq<u8>, i: int, j: int)
    requires
        0 <= i < j < s.len(),
    ensures
        occurrences(s.update(i, s[j]).update(j, s[i]), x) == occurrences(s, x),
{
    let t = s.update(i, s[j]).update(j, s[i]);
    lemma_occurrences_update(s, x, i, s[j]);
    lemma_occurrences_update(s.update(i, s[j]), x, j, s[i]);
}

proof fn lemma_occurrences_update(s: Seq<Seq<u8>>, x: Seq<u8>, i: int, v: Seq<u8>)
    requires
        0 <= i < s.len(),
    ensures
        occurrences(s.update(i, v), x) + (if s[i] == x {
            1nat
        } else {
            0nat
        }) == occurrences(s, x) + (if v == x {
            1nat
        } else {
            0nat
        }),
    decreases s.len(),
{
    let t = s.update(i, v);
    if i == s.len() - 1 {
        assert(t.drop_last() =~= s.drop_last());
    } else {
        lemma_occurrences_update(s.drop_last(), x, i, v);
        assert(t.drop_last() =~= s.drop_last().update(i, v));
    }
}

/// At most one copy can be agreed on.
pub proof fn law_consensus_is_unique(copies: Seq<Seq<u8>>, v: Seq<u8>, w: Seq<u8>)
    requires
        is_consensus(copies, v),
        is_consensus(copies, w),
    ensures
        v == w,
{
}

proof fn lemma_occurrences_all(s: Seq<Seq<u8>>, x: Seq<u8>)
    requires
        forall|i: int| 0 <= i < s.len() ==> s[i] == x,
    ensures
        occurrences(s, x) == s.len(),
    decreases s.len(),
{
    if s.len() > 0 {
        lemma_occurrences_all(s.drop_last(), x);
    }
}

/// Copies that are all the same are agreed on, where there are at least two.
pub proof fn law_equal_copies_agree(copies: Seq<Seq<u8>>, w: Seq<u8>)
    requires
        forall|i: int| 0 <= i < copies.len() ==> copies[i] == w,
    ensures
        agreed_lengths(copies) == if copies.len() >= 2 {
            Some(stripe_lengths(w))
        } else {
            None
        },
{
    lemma_occurrences_all(copies, w);
    assert forall|x: Seq<u8>| x != w implies #[trigger] occurrences(copies, x) == 0 by {
        lemma_occurrences_absent(copies, x);
    }
    if copies.len() >= 2 {
        assert(is_consensus(copies, w));
        law_consensus_is_unique(copies, w, choose|v: Seq<u8>| #[trigger] is_consensus(copies, v));
    } else {
        assert forall|v: Seq<u8>| !(#[trigger] is_consensus(copies, v)) by {
            lemma_occurrences_bounded(copies, v);
        }
    }
}

/// The agreed copy does not depend on the order in which the copies were read:
/// exchanging two of them changes nothing.
pub proof fn law_consensus_ignores_order(copies: Seq<Seq<u8>>, i: int, j: int, w: Seq<u8>)
    requires
        0 <= i < j < copies.len(),
    ensures
        is_consensus(copies, w) == is_consensus(
            copies.update(i, copies[j]).update(j, copies[i]),
            w,
        ),
{
    let t = copies.update(i, copies[j]).update(j, copies[i]);
    assert forall|x: Seq<u8>|
        #![trigger occurrences(t, x)]
        #![trigger occurrences(copies, x)]
        occurrences(t, x) == occurrences(copies, x) by {
        lemma_occurrences_swap(copies, x, i, j);
    }
}

fn count_copies(copies: &[Vec<u8>], value: &[u8]) -> (n: usize)
    ensures
        n == occurrences(contents(copies@), value@),
{
    let mut n: usize = 0;
    let mut i: usize = 0;
    let ghost all = contents(copies@);
    while i < copies.len()
        invariant
            i <= copies.len(),
            n <= i,
            all == contents(copies@),
            n == occurrences(all.take(i as int), value@),
        decreases copies.len() - i,
    {
        proof {
            assert(all.take(i + 1).drop_last() =~= all.take(i as int));
            assert(all.take(i + 1).last() == copies@[i as int]@);
        }
        if bytes_equal(copies[i].as_slice(), value) {
            n = n + 1;
        }
        i = i + 1;
    }
    assert(all.take(copies.len() as int) =~= all);
    n
}

/// The lengths that the copies of a stripe's table agree on. There is none
/// where no copy occurs twice, or where two copies occur most often.
pub fn reconcile_stripe_prefixes(prefix_copies: &[Vec<u8>], data_shards: usize) -> (r: Option<
    Vec<u32>,
>)
    ensures
        lengths_view(r) == agreed_lengths(contents(prefix_copies@)),
{
    let ghost all = contents(prefix_copies@);
    if prefix_copies.len() < 2 {
        proof {
            assert forall|w: Seq<u8>| !(#[trigger] is_consensus(all, w)) by {
                lemma_occurrences_bounded(all, w);
            }
        }
        return None;
    }
    let mut best: usize = 0;
    let mut best_count: usize = count_copies(prefix_copies, prefix_copies[0].as_slice());
    let mut i: usize = 1;
    while i < prefix_copies.len()
        invariant
            1 <= i <= prefix_copies.len(),
            best < i,
            all == contents(prefix_copies@),
            best_count == occurrences(all, all[best as int]),
            forall|k: int| 0 <= k < i ==> occurrences(all, #[trigger] all[k]) <= best_count,
        decreases prefix_copies.len() - i,
    {
        let c: usize = count_copies(prefix_copies, prefix_copies[i].as_slice());
        assert(all[i as int] == prefix_copies@[i as int]@);
        if c > best_count {
            best = i;
            best_count = c;
        }
        i = i + 1;
    }
    let ghost w = all[best as int];
    assert(w == prefix_copies@[best as int]@);
    let mut tied = false;
    let mut j: usize = 0;
    while j < prefix_copies.len()
        invariant
            j <= prefix_copies.len(),
            best < prefix_copies.len(),
            all == contents(prefix_copies@),
            w == all[best as int],
            w == prefix_copies@[best as int]@,
            best_count == occurrences(all, w),
            tied ==> exists|k: int|
                0 <= k < all.len() && #[trigger] all[k] != w && occurrences(all, all[k])
                    == best_count,
            !tied ==> forall|k: int|
                0 <= k < j && #[trigger] all[k] != w ==> occurrences(all, all[k]) != best_count,
        decreases prefix_copies.len() - j,
    {
        assert(all[j as int] == prefix_copies@[j as int]@);
        if !bytes_equal(prefix_copies[j].as_slice(), prefix_copies[best].as_slice()) {
            if count_copies(prefix_copies, prefix_copies[j].as_slice()) == best_count {
                tied = true;
            }
        }
        j = j + 1;
    }
    if best_count < 2 || tied {
        proof {
            assert forall|x: Seq<u8>| !(#[trigger] is_consensus(all, x)) by {
                if is_consensus(all, x) {
                    if forall|k: int| 0 <= k < all.len() ==> all[k] != x {
                        lemma_occurrences_absent(all, x);
                    }
                    let k = choose|k: int| 0 <= k < all.len() && all[k] == x;
                    assert(occurrences(all, all[k]) <= best_count);
                    if tied {
                        let t = choose|t: int|
                            0 <= t < all.len() && #[trigger] all[t] != w && occurrences(
                                all,
                                all[t],
                            ) == best_count;
                        assert(occurrences(all, all[t]) == best_count);
                        assert(occurrences(all, w) == best_count);
                    }
                }
            }
        }
        return None;
    }
    proof {
        assert forall|x: Seq<u8>| x != w implies #[trigger] occurrences(all, x) < occurrences(
            all,
            w,
        ) by {
            if forall|k: int| 0 <= k < all.len() ==> all[k] != x {
                lemma_occurrences_absent(all, x);
            } else {
                let k = choose|k: int| 0 <= k < all.len() && all[k] == x;
                assert(occurrences(all, all[k]) <= best_count);
            }
        }
        assert(is_consensus(all, w));
    }
    Some(parse_stripe_lengths(prefix_copies[best].as_slice(), data_shards))
}

/// The largest number in `s`, 0 if there is none.
pub open spec fn longest(s: Seq<u32>) -> int
    decreases s.len(),
{
    if s.len() == 0 {
        0
    } else if s.last() > longest(s.drop_last()) {
        s.last() as int
    } else {
        longest(s.drop_last())
    }
}

/// `n` rounded up to an even number.
pub open spec fn even_up(n: int) -> int {
    if n % 2 == 0 {
        n
    } else {
        n + 1
    }
}

/// No element exceeds the largest one, and the largest one is an element.
pub proof fn law_longest_is_the_maximum(s: Seq<u32>)
    ensures
        forall|i: int| 0 <= i < s.len() ==> s[i] <= longest(s),
        s.len() > 0 ==> exists|i: int| 0 <= i < s.len() && s[i] == longest(s),
        0 <= longest(s) <= u32::MAX,
    decreases s.len(),
{
    if s.len() > 0 {
        law_longest_is_the_maximum(s.drop_last());
        assert forall|i: int| 0 <= i < s.len() implies s[i] <= longest(s) by {
            if i < s.len() - 1 {
                assert(s.drop_last()[i] == s[i]);
            }
        }
        if s.last() > longest(s.drop_last()) || s.len() == 1 {
            assert(s[s.len() - 1] == longest(s));
        } else {
            let i = choose|i: int|
                0 <= i < s.drop_last().len() && s.drop_last()[i] == longest(s.drop_last());
            assert(s[i] == longest(s));
        }
    }
}

/// The largest of the lengths, 0 if there is none.
pub fn max_length(lengths: &[u32]) -> (m: u32)
    ensures
        m == longest(lengths@),
{
    let mut m: u32 = 0;
    let mut i: usize = 0;
    while i < lengths.len()
        invariant
            i <= lengths.len(),
            m == longest(lengths@.take(i as int)),
        decreases lengths.len() - i,
    {
        assert(lengths@.take(i + 1).drop_last() =~= lengths@.take(i as int));
        if lengths[i] > m {
            m = lengths[i];
        }
        i = i + 1;
    }
    assert(lengths@.take(lengths.len() as int) =~= lengths@);
    m
}

/// The length that every parity shard of a stripe has: the largest data shard,
/// rounded up to an even number.
pub fn parity_bound_from_lengths(stripe_lengths: Option<&[u32]>) -> (r: Option<u32>)
    requires
        stripe_lengths matches Some(l) ==> longest(l@) < u32::MAX,
    ensures
        r == (match stripe_lengths {
            Some(l) => if l@.len() == 0 {
                None
            } else {
                Some(even_up(longest(l@)) as u32)
            },
            None => None,
        }),
{
    match stripe_lengths {
        Some(l) => {
            if l.len() == 0 {
                return None;
            }
            let m: u32 = max_length(l);
            if m % 2 == 0 {
                Some(m)
            } else {
                Some(m + 1)
            }
        },
        None => None,
    }
}

/// The parity length of a stripe as a scan uses it: 0 where it is not known,
/// because there is no table, it is empty, or no even 32-bit length fits.
pub open spec fn padded_bound(lengths: Option<Seq<u32>>) -> u32 {
    match lengths {
        Some(l) => if l.len() == 0 || longest(l) == u32::MAX {
            0
        } else {
            even_up(longest(l)) as u32
        },
        None => 0,
    }
}

pub fn parity_bound_or_zero(lengths: &Option<Vec<u32>>) -> (r: u32)
    ensures
        r == padded_bound(lengths_view(*lengths)),
{
    match lengths {
        Some(l) => {
            if max_length(l.as_slice()) == u32::MAX {
                return 0;
            }
            proof {
                law_longest_is_the_maximum(l@);
            }
            match parity_bound_from_lengths(Some(l.as_slice())) {
                Some(b) => b,
                None => 0,
            }
        },
        None => 0,
    }
}

/// The size that shards are padded to before coding: an even number of bytes.
pub fn even_aligned_shard_size(max_len: usize) -> (r: usize)
    requires
        even_up(max_len as int) <= usize::MAX,
    ensures
        r == even_up(max_len as int),
{
    if max_len % 2 == 0 {
        max_len
    } else {
        max_len + 1
    }
}

/// [`even_aligned_shard_size`] for a length that may not fit a pointer.
pub fn padded_size(max_len: u64) -> (r: u64)
    requires
        max_len < u64::MAX,
    ensures
        r == even_up(max_len as int),
{
    if max_len % 2 == 0 {
        max_len
    } else {
        max_len + 1
    }
}

/// Rounding up to even gives the next even number, and leaves it alone.
pub proof fn law_even_up(n: int)
    ensures
        even_up(n) % 2 == 0,
        n <= even_up(n) <= n + 1,
        even_up(even_up(n)) == even_up(n),
{
}

/// What is known of a stripe's data shard lengths once the agreed table is
/// taken into account: lengths that were read stay, gaps are filled from the
/// table where it holds a positive length.
pub open spec fn filled_lengths(known: Seq<Option<u32>>, table: Seq<u32>) -> Seq<Option<u32>> {
    Seq::new(
        known.len(),
        |i: int|
            if known[i] is None && i < table.len() && table[i] > 0 {
                Some(table[i])
            } else {
                known[i]
            },
    )
}

/// Takes the agreed table into account.
pub fn normalize_data_lengths(
    data_lengths: &mut Vec<Option<u32>>,
    stripe_lengths: Option<&[u32]>,
    max_len: &mut usize,
)
    ensures
        match stripe_lengths {
            Some(l) => {
                &&& final(data_lengths)@ == filled_lengths(old(data_lengths)@, l@)
                &&& *final(max_len) == if longest(l@) > *old(max_len) {
                    longest(l@)
                } else {
                    *old(max_len) as int
                }
            },
            None => final(data_lengths)@ == old(data_lengths)@ && *final(max_len) == *old(max_len),
        },
{
    if let Some(l) = stripe_lengths {
        let m: u32 = max_length(l);
        if m as usize > *max_len {
            *max_len = m as usize;
        }
        let mut i: usize = 0;
        let n: usize = data_lengths.len();
        let ghost before = data_lengths@;
        while i < n && i < l.len()
            invariant
                i <= n,
                i <= l.len(),
                n == before.len(),
                data_lengths@.len() == n,
                forall|k: int|
                    0 <= k < i ==> data_lengths@[k] == filled_lengths(before, l@)[k],
                forall|k: int| i <= k < n ==> data_lengths@[k] == before[k],
            decreases n - i,
        {
            let known = data_lengths[i].is_some();
            if !known && l[i] > 0 {
                data_lengths.set(i, Some(l[i]));
            }
            i = i + 1;
        }
        assert(data_lengths@ =~= filled_lengths(before, l@));
    }
}

/// Normalising never changes a length that was read, and fills only gaps.
pub proof fn law_known_lengths_stay(known: Seq<Option<u32>>, table: Seq<u32>, i: int)
    requires
        0 <= i < known.len(),
    ensures
        known[i] is Some ==> filled_lengths(known, table)[i] == known[i],
        filled_lengths(filled_lengths(known, table), table) == filled_lengths(known, table),
{
    assert(filled_lengths(filled_lengths(known, table), table) =~= filled_lengths(known, table));
}

/// Where the metadata at the end of a volume starts, as its footer tells.
#[derive(Debug, Clone, Copy, PartialEq, Eq)]
pub struct FooterMarks {
    pub catalog_offset: Option<u64>,
    pub index_offset: Option<u64>,
    /// 0 where there is no checkpoint.
    pub last_checkpoint_offset: u64,
}

pub open spec fn lesser(a: u64, b: u64) -> u64 {
    if a < b {
        a
    } else {
        b
    }
}

/// The end of the stripes of a volume: its data region without the catalog, the
/// index and the last checkpoint behind the stripes.
pub open spec fn stripes_end(region_end: u64, footer: Option<FooterMarks>) -> u64 {
    match footer {
        None => region_end,
        Some(f) => {
            let a = match f.catalog_offset {
                Some(c) => c,
                None => region_end,
            };
            let b = match f.index_offset {
                Some(i) => lesser(a, i),
                None => a,
            };
            if f.last_checkpoint_offset > 0 {
                lesser(b, f.last_checkpoint_offset)
            } else {
                b
            }
        },
    }
}

pub fn erasure_data_end(region_end: u64, footer: Option<FooterMarks>) -> (end: u64)
    ensures
        end == stripes_end(region_end, footer),
{
    match footer {
        None => region_end,
        Some(f) => {
            let mut limit: u64 = match f.catalog_offset {
                Some(c) => c,
                None => region_end,
            };
            if let Some(i) = f.index_offset {
                if i < limit {
                    limit = i;
                }
            }
            if f.last_checkpoint_offset > 0 && f.last_checkpoint_offset < limit {
                limit = f.last_checkpoint_offset;
            }
            limit
        },
    }
}

/// A table takes four bytes for each length, the lowest byte first.
pub proof fn law_length_bytes(lengths: Seq<u32>, i: int)
    requires
        0 <= i < lengths.len(),
    ensures
        length_table(lengths).len() == 4 * lengths.len(),
        length_table(lengths)[4 * i] == lengths[i] as int % 256,
        length_table(lengths)[4 * i + 1] == lengths[i] as int / 256 % 256,
        length_table(lengths)[4 * i + 2] == lengths[i] as int / 65536 % 256,
        length_table(lengths)[4 * i + 3] == lengths[i] as int / 16777216,
{
    let n = lengths[i] as int;
    assert(0 <= n / 16777216 < 256);
    assert((4 * i) / 4 == i && (4 * i + 1) / 4 == i && (4 * i + 2) / 4 == i && (4 * i + 3) / 4
        == i);
    assert((4 * i) % 4 == 0 && (4 * i + 1) % 4 == 1 && (4 * i + 2) % 4 == 2 && (4 * i + 3) % 4
        == 3);
}

proof fn lemma_two_share(s: Seq<Seq<u8>>, x: Seq<u8>, y: Seq<u8>)
    requires
        x != y,
    ensures
        occurrences(s, x) + occurrences(s, y) <= s.len(),
    decreases s.len(),
{
    if s.len() > 0 {
        lemma_two_share(s.drop_last(), x, y);
    }
}

/// A copy that occurs a second time is counted once more, whatever else there is.
pub proof fn law_copies_are_counted(a: Seq<Seq<u8>>, b: Seq<Seq<u8>>, x: Seq<u8>, y: Seq<u8>)
    ensures
        occurrences(Seq::empty(), x) == 0,
        occurrences(seq![x], x) == 1,
        x != y ==> occurrences(seq![y], x) == 0,
        occurrences(a + b, x) == occurrences(a, x) + occurrences(b, x),
    decreases b.len(),
{
    assert(seq![x].drop_last() =~= Seq::<Seq<u8>>::empty());
    assert(seq![y].drop_last() =~= Seq::<Seq<u8>>::empty());
    assert(occurrences(Seq::<Seq<u8>>::empty(), x) == 0);
    if b.len() == 0 {
        assert(a + b =~= a);
    } else {
        assert((a + b).drop_last() =~= a + b.drop_last());
        law_copies_are_counted(a, b.drop_last(), x, y);
    }
}

/// What more than half of the copies say is what counts, as long as there are two of
/// them: damage to fewer than half does no harm.
pub proof fn law_majority_is_agreed(copies: Seq<Seq<u8>>, w: Seq<u8>)
    requires
        2 * occurrences(copies, w) > copies.len(),
        copies.len() >= 2,
    ensures
        agreed_lengths(copies) == Some(stripe_lengths(w)),
{
    assert forall|x: Seq<u8>| x != w implies #[trigger] occurrences(copies, x) < occurrences(
        copies,
        w,
    ) by {
        lemma_two_share(copies, x, w);
    }
    assert(is_consensus(copies, w));
    let v = choose|v: Seq<u8>| #[trigger] is_consensus(copies, v);
    law_consensus_is_unique(copies, v, w);
}

/// One copy alone is not believed, nor one of two that are found equally often.
pub proof fn law_no_agreement(copies: Seq<Seq<u8>>, x: Seq<u8>, y: Seq<u8>)
    requires
        copies.len() < 2 || (x != y && occurrences(copies, x) == occurrences(copies, y) && forall|
            z: Seq<u8>,
        |
            #[trigger] occurrences(copies, z) <= occurrences(copies, x)),
    ensures
        agreed_lengths(copies) is None,
{
    if exists|w: Seq<u8>| #[trigger] is_consensus(copies, w) {
        let w = choose|w: Seq<u8>| #[trigger] is_consensus(copies, w);
        lemma_occurrences_bounded(copies, w);
        if copies.len() >= 2 {
            assert(occurrences(copies, w) <= occurrences(copies, x));
            if w == x {
                assert(occurrences(copies, y) < occurrences(copies, w));
            } else {
                assert(occurrences(copies, x) < occurrences(copies, w));
            }
        }
        assert(false);
    }
}

/// The parity length is even, no shorter than any shard of the stripe and at most one byte
/// longer than the longest.
pub proof fn law_parity_length(lengths: Seq<u32>, i: int)
    requires
        0 <= i < lengths.len(),
        forall|k: int| 0 <= k < lengths.len() ==> #[trigger] lengths[k] < u32::MAX,
    ensures
        padded_bound(Some(lengths)) % 2 == 0,
        padded_bound(Some(lengths)) >= lengths[i],
        exists|k: int|
            0 <= k < lengths.len() && padded_bound(Some(lengths)) <= #[trigger] lengths[k] + 1,
        padded_bound(None) == 0,
{
    law_longest_is_the_maximum(lengths);
    let top = choose|k: int| 0 <= k < lengths.len() && #[trigger] lengths[k] == longest(lengths);
    assert(lengths[top] < u32::MAX);
    assert(padded_bound(Some(lengths)) <= lengths[top] + 1);
}

/// A gap takes what the table says, a length of zero aside; beyond the table it stays.
pub proof fn law_gaps_are_filled(known: Seq<Option<u32>>, table: Seq<u32>, i: int)
    requires
        0 <= i < known.len(),
        known[i] is None,
    ensures
        filled_lengths(known, table).len() == known.len(),
        i < table.len() && table[i] > 0 ==> filled_lengths(known, table)[i] == Some(table[i]),
        i >= table.len() || table[i] == 0 ==> filled_lengths(known, table)[i] is None,
{
}

/// Stripes end where the first of the catalog, the index and the checkpoint begins. Without
/// a catalog, that is no later than the end of the region.
pub proof fn law_stripes_end_before_the_metadata(region_end: u64, f: FooterMarks)
    ensures
        stripes_end(region_end, None) == region_end,
        ({
            let e = stripes_end(region_end, Some(f));
            &&& f.catalog_offset matches Some(c) ==> e <= c
            &&& f.catalog_offset is None ==> e <= region_end
            &&& f.index_offset matches Some(i) ==> e <= i
            &&& f.last_checkpoint_offset > 0 ==> e <= f.last_checkpoint_offset
            &&& {
                ||| f.catalog_offset == Some(e)
                ||| f.index_offset == Some(e)
                ||| f.last_checkpoint_offset == e && e > 0
                ||| f.catalog_offset is None && e == region_end
            }
        }),
{
}

} // verus!

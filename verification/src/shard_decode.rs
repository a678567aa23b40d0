//! Decoding a data shard whose length may be unknown.
//!
//! A recovered shard is padded. Its block is found by trying lengths: the known
//! length where there is one, otherwise lengths seen in the stripe, the length
//! without trailing zeros, the padded size, and at last a limited number of
//! lengths in between. Decryption, which tells a right length from a wrong one,
//! happens outside.
use vstd::prelude::*;

use crate::block_iter::DecodedChunk;
use crate::text;
use crate::types::{sub_bytes, EraError};

verus! {

/// Lengths that are probed for one block, at most.
pub const MAX_PROBE_ATTEMPTS: usize = 256;

/// All bytes are zero.
pub open spec fn all_zero(data: Seq<u8>) -> bool {
    forall|k: int| 0 <= k < data.len() ==> data[k] == 0
}

/// The length without trailing zeros.
pub open spec fn trimmed_len(data: Seq<u8>) -> nat
    decreases data.len(),
{
    if data.len() > 0 && data.last() == 0 {
        trimmed_len(data.drop_last())
    } else {
        data.len()
    }
}

/// What is left after trimming ends in a byte that is not zero, and only zeros
/// are cut off.
pub proof fn law_trimming_cuts_zeros(data: Seq<u8>)
    ensures
        trimmed_len(data) <= data.len(),
        forall|k: int| trimmed_len(data) <= k < data.len() ==> data[k] == 0,
        trimmed_len(data) > 0 ==> data[trimmed_len(data) - 1] != 0,
    decreases data.len(),
{
    if data.len() > 0 && data.last() == 0 {
        law_trimming_cuts_zeros(data.drop_last());
        assert forall|k: int| trimmed_len(data) <= k < data.len() implies data[k] == 0 by {
            if k < data.len() - 1 {
                assert(data.drop_last()[k] == data[k]);
            }
        }
    }
}

fn trim(data: &Vec<u8>) -> (n: usize)
    ensures
        n == trimmed_len(data@),
        n <= data@.len(),
{
    let mut n: usize = data.len();
    assert(data@.take(n as int) =~= data@);
    while n > 0 && data[n - 1] == 0
        invariant
            n <= data@.len(),
            trimmed_len(data@.take(n as int)) == trimmed_len(data@),
        decreases n,
    {
        assert(data@.take(n as int).drop_last() =~= data@.take(n - 1));
        n = n - 1;
    }
    n
}

fn is_zero(data: &Vec<u8>, n: usize) -> (r: bool)
    requires
        n <= data@.len(),
    ensures
        r == all_zero(data@.take(n as int)),
{
    let mut i: usize = 0;
    while i < n
        invariant
            i <= n <= data@.len(),
            forall|k: int| 0 <= k < i ==> data@[k] == 0,
        decreases n - i,
    {
        if data[i] != 0 {
            assert(data@.take(n as int)[i as int] != 0);
            return false;
        }
        i = i + 1;
    }
    true
}

/// Whether `n` is one of the lengths that a shard may have: its own length
/// where it is known, otherwise any length known in the stripe, the length
/// without trailing zeros, and the padded size.
pub open spec fn is_candidate(
    n: usize,
    data: Seq<u8>,
    own: Option<u32>,
    stripe: Seq<Option<u32>>,
    shard_size: usize,
) -> bool {
    match own {
        Some(l) => n == l,
        None => {
            ||| exists|k: int| 0 <= k < stripe.len() && #[trigger] stripe[k] == Some(n as u32) && n
                <= u32::MAX
            ||| n == trimmed_len(data) && n > 0
            ||| n == shard_size && 0 < shard_size <= data.len()
        },
    }
}

/// Adds a number to a list in falling order that holds no number twice.
fn insert_falling(list: &mut Vec<usize>, n: usize)
    requires
        forall|k: int, l: int|
            0 <= k < l < old(list)@.len() ==> #[trigger] old(list)@[k] > #[trigger] old(list)@[l],
    ensures
        forall|k: int, l: int|
            0 <= k < l < final(list)@.len() ==> #[trigger] final(list)@[k]
                > #[trigger] final(list)@[l],
        forall|x: usize| #[trigger]
            final(list)@.contains(x) <==> old(list)@.contains(x) || x == n,
{
    let mut at: usize = 0;
    while at < list.len() && list[at] > n
        invariant
            at <= list@.len(),
            list@ == old(list)@,
            forall|k: int| 0 <= k < at ==> #[trigger] list@[k] > n,
        decreases list@.len() - at,
    {
        at = at + 1;
    }
    if at < list.len() && list[at] == n {
        assert(list@[at as int] == n);
        return ;
    }
    let ghost before = list@;
    list.insert(at, n);
    proof {
        let after = list@;
        assert(after == before.insert(at as int, n));
        assert forall|k: int, l: int| 0 <= k < l < after.len() implies #[trigger] after[k]
            > #[trigger] after[l] by {
            if k == at {
                if l - 1 > at {
                    assert(before[at as int] > before[l - 1]);
                }
            } else if l == at {
                assert(before[k] > n);
            } else {
                let k0 = if k < at {
                    k
                } else {
                    k - 1
                };
                let l0 = if l < at {
                    l
                } else {
                    l - 1
                };
                assert(before[k0] > before[l0]);
            }
        }
        assert forall|x: usize| #[trigger] after.contains(x) <==> before.contains(x) || x == n by {
            if before.contains(x) {
                let k = choose|k: int| 0 <= k < before.len() && before[k] == x;
                if k < at {
                    assert(after[k] == x);
                } else {
                    assert(after[k + 1] == x);
                }
            }
            if x == n {
                assert(after[at as int] == x);
            }
            if after.contains(x) && x != n {
                let k = choose|k: int| 0 <= k < after.len() && after[k] == x;
                if k < at {
                    assert(before[k] == x);
                } else {
                    assert(before[k - 1] == x);
                }
            }
        }
    }
}

/// The lengths that a shard may have, the longest first.
pub fn candidate_lengths(
    data: &Vec<u8>,
    own: Option<u32>,
    stripe: &Vec<Option<u32>>,
    shard_size: usize,
) -> (list: Vec<usize>)
    ensures
        forall|k: int, l: int|
            0 <= k < l < list@.len() ==> #[trigger] list@[k] > #[trigger] list@[l],
        forall|n: usize| #[trigger]
            list@.contains(n) <==> is_candidate(n, data@, own, stripe@, shard_size),
{
    let mut list: Vec<usize> = Vec::new();
    if let Some(l) = own {
        list.push(l as usize);
        assert(list@[0] == l as usize);
        return list;
    }
    let mut i: usize = 0;
    while i < stripe.len()
        invariant
            i <= stripe@.len(),
            forall|k: int, l: int|
                0 <= k < l < list@.len() ==> #[trigger] list@[k] > #[trigger] list@[l],
            forall|n: usize| #[trigger]
                list@.contains(n) <==> exists|k: int|
                    0 <= k < i && #[trigger] stripe@[k] == Some(n as u32) && n <= u32::MAX,
        decreases stripe@.len() - i,
    {
        let ghost before = list@;
        if let Some(l) = stripe[i] {
            insert_falling(&mut list, l as usize);
        }
        proof {
            assert forall|n: usize| #[trigger] list@.contains(n) <==> exists|k: int|
                0 <= k < i + 1 && #[trigger] stripe@[k] == Some(n as u32) && n <= u32::MAX by {
                if list@.contains(n) {
                    if before.contains(n) {
                        let k = choose|k: int|
                            0 <= k < i && #[trigger] stripe@[k] == Some(n as u32) && n <= u32::MAX;
                        assert(stripe@[k] == Some(n as u32));
                    } else {
                        assert(stripe@[i as int] == Some(n as u32));
                    }
                }
                if exists|k: int|
                    0 <= k < i + 1 && #[trigger] stripe@[k] == Some(n as u32) && n <= u32::MAX {
                    let k = choose|k: int|
                        0 <= k < i + 1 && #[trigger] stripe@[k] == Some(n as u32) && n <= u32::MAX;
                    if k < i {
                        assert(stripe@[k] == Some(n as u32));
                        assert(before.contains(n));
                    }
                }
            }
        }
        i = i + 1;
    }
    let n: usize = trim(data);
    if n > 0 {
        insert_falling(&mut list, n);
    }
    if shard_size > 0 && shard_size <= data.len() {
        insert_falling(&mut list, shard_size);
    }
    list
}

/// How a row of tries ends when none of them succeeds.
#[derive(Debug, Clone, Copy, PartialEq, Eq, Structural)]
pub enum RowEnd {
    /// Without a result.
    Nothing,
    /// With an empty block: what is left is all zero.
    EmptyBlock,
    /// Because too many lengths were probed.
    ProbeLimit,
}

/// A row of lengths to be tried, in order.
#[verifier::ext_equal]
pub struct RowView {
    pub tries: Seq<usize>,
    pub end: RowEnd,
}

impl RowView {
    pub open spec fn ends(end: RowEnd) -> RowView {
        RowView { tries: Seq::empty(), end }
    }

    pub open spec fn first(n: usize, rest: RowView) -> RowView {
        RowView { tries: seq![n] + rest.tries, end: rest.end }
    }
}

/// The lengths of `candidates` from position `i` on that are tried: those that
/// fit, up to the first at which the shard is all zero.
pub open spec fn candidate_row(data: Seq<u8>, candidates: Seq<usize>, i: int) -> RowView
    decreases candidates.len() - i,
{
    if i >= candidates.len() {
        RowView::ends(RowEnd::Nothing)
    } else if candidates[i] == 0 || candidates[i] > data.len() {
        candidate_row(data, candidates, i + 1)
    } else if all_zero(data.take(candidates[i] as int)) {
        RowView::ends(RowEnd::EmptyBlock)
    } else {
        RowView::first(candidates[i], candidate_row(data, candidates, i + 1))
    }
}

/// The distance between two probed lengths.
pub open spec fn probe_step(trimmed: int, shard_size: int) -> int {
    let padding = shard_size - trimmed;
    if padding > MAX_PROBE_ATTEMPTS {
        padding / (MAX_PROBE_ATTEMPTS as int)
    } else {
        1
    }
}

/// The lengths probed from `probe` downwards to `trimmed`, after `attempts`.
pub open spec fn probe_row(
    data: Seq<u8>,
    candidates: Seq<usize>,
    trimmed: int,
    step: int,
    probe: int,
    attempts: int,
) -> RowView
    decreases probe,
{
    if probe < trimmed || step < 1 || probe < 0 {
        RowView::ends(RowEnd::Nothing)
    } else if !candidates.contains(probe as usize) && 0 < probe <= data.len() {
        if attempts + 1 > MAX_PROBE_ATTEMPTS {
            RowView::ends(RowEnd::ProbeLimit)
        } else if all_zero(data.take(probe)) {
            RowView::ends(RowEnd::EmptyBlock)
        } else {
            RowView::first(
                probe as usize,
                if probe < step {
                    RowView::ends(RowEnd::Nothing)
                } else {
                    probe_row(data, candidates, trimmed, step, probe - step, attempts + 1)
                },
            )
        }
    } else if probe < step {
        RowView::ends(RowEnd::Nothing)
    } else {
        probe_row(data, candidates, trimmed, step, probe - step, attempts)
    }
}

/// All lengths of a row lie within `n` bytes.
pub open spec fn row_fits(row: RowView, n: nat) -> bool {
    forall|k: int| 0 <= k < row.tries.len() ==> 0 < #[trigger] row.tries[k] <= n
}

proof fn lemma_first_fits(n: usize, rest: RowView, limit: nat)
    requires
        0 < n <= limit,
        row_fits(rest, limit),
    ensures
        row_fits(RowView::first(n, rest), limit),
{
    assert forall|k: int| 0 <= k < RowView::first(n, rest).tries.len() implies 0
        < #[trigger] RowView::first(n, rest).tries[k] <= limit by {
        if k > 0 {
            assert(rest.tries[k - 1] == RowView::first(n, rest).tries[k]);
        }
    }
}

/// Only lengths that the shard has are tried.
pub proof fn law_candidates_fit(data: Seq<u8>, candidates: Seq<usize>, i: int)
    ensures
        row_fits(candidate_row(data, candidates, i), data.len()),
    decreases candidates.len() - i,
{
    if i < candidates.len() {
        law_candidates_fit(data, candidates, i + 1);
        if candidates[i] == 0 || candidates[i] > data.len() {
        } else if all_zero(data.take(candidates[i] as int)) {
        } else {
            lemma_first_fits(
                candidates[i],
                candidate_row(data, candidates, i + 1),
                data.len(),
            );
        }
    }
}

/// Only lengths that the shard has are probed.
pub proof fn law_probes_fit(
    data: Seq<u8>,
    candidates: Seq<usize>,
    trimmed: int,
    step: int,
    probe: int,
    attempts: int,
)
    requires
        probe <= usize::MAX,
    ensures
        row_fits(probe_row(data, candidates, trimmed, step, probe, attempts), data.len()),
    decreases probe,
{
    if probe < trimmed || step < 1 || probe < 0 {
    } else if !candidates.contains(probe as usize) && 0 < probe <= data.len() {
        if attempts + 1 > MAX_PROBE_ATTEMPTS {
        } else if all_zero(data.take(probe)) {
        } else if probe < step {
            lemma_first_fits(probe as usize, RowView::ends(RowEnd::Nothing), data.len());
        } else {
            law_probes_fit(data, candidates, trimmed, step, probe - step, attempts + 1);
            lemma_first_fits(
                probe as usize,
                probe_row(data, candidates, trimmed, step, probe - step, attempts + 1),
                data.len(),
            );
        }
    } else if probe < step {
    } else {
        law_probes_fit(data, candidates, trimmed, step, probe - step, attempts);
    }
}

/// Probing tries at most [`MAX_PROBE_ATTEMPTS`] lengths.
pub proof fn law_probing_is_limited(
    data: Seq<u8>,
    candidates: Seq<usize>,
    trimmed: int,
    step: int,
    probe: int,
    attempts: int,
)
    requires
        0 <= attempts <= MAX_PROBE_ATTEMPTS,
    ensures
        probe_row(data, candidates, trimmed, step, probe, attempts).tries.len() + attempts
            <= MAX_PROBE_ATTEMPTS,
    decreases probe,
{
    if probe < trimmed || step < 1 || probe < 0 {
    } else if !candidates.contains(probe as usize) && 0 < probe <= data.len() {
        if attempts + 1 <= MAX_PROBE_ATTEMPTS && !all_zero(data.take(probe)) && probe >= step {
            law_probing_is_limited(data, candidates, trimmed, step, probe - step, attempts + 1);
        }
    } else if probe >= step {
        law_probing_is_limited(data, candidates, trimmed, step, probe - step, attempts);
    }
}

/// A row of lengths to be tried.
#[derive(Debug)]
pub struct Row {
    pub tries: Vec<usize>,
    pub end: RowEnd,
}

impl View for Row {
    type V = RowView;

    open spec fn view(&self) -> RowView {
        RowView { tries: self.tries@, end: self.end }
    }
}

fn candidate_tries(data: &Vec<u8>, candidates: &Vec<usize>) -> (row: Row)
    ensures
        row@ == candidate_row(data@, candidates@, 0),
{
    let mut tries: Vec<usize> = Vec::new();
    let mut i: usize = 0;
    let ghost whole = candidate_row(data@, candidates@, 0);
    assert(tries@ + whole.tries =~= whole.tries);
    while i < candidates.len()
        invariant
            i <= candidates@.len(),
            whole == candidate_row(data@, candidates@, 0),
            whole.tries == tries@ + candidate_row(data@, candidates@, i as int).tries,
            whole.end == candidate_row(data@, candidates@, i as int).end,
        decreases candidates@.len() - i,
    {
        let n: usize = candidates[i];
        if n > 0 && n <= data.len() {
            if is_zero(data, n) {
                assert(whole.tries =~= tries@);
                return Row { tries, end: RowEnd::EmptyBlock };
            }
            let ghost before = tries@;
            tries.push(n);
            assert(whole.tries =~= tries@ + candidate_row(data@, candidates@, i + 1).tries);
        }
        i = i + 1;
    }
    assert(whole.tries =~= tries@);
    Row { tries, end: RowEnd::Nothing }
}

fn list_contains(list: &Vec<usize>, n: usize) -> (r: bool)
    ensures
        r == list@.contains(n),
{
    let mut i: usize = 0;
    while i < list.len()
        invariant
            i <= list@.len(),
            forall|k: int| 0 <= k < i ==> list@[k] != n,
        decreases list@.len() - i,
    {
        if list[i] == n {
            return true;
        }
        i = i + 1;
    }
    false
}

fn probe_tries(data: &Vec<u8>, candidates: &Vec<usize>, trimmed: usize, shard_size: usize) -> (row:
    Row)
    requires
        trimmed < shard_size,
    ensures
        row@ == probe_row(
            data@,
            candidates@,
            trimmed as int,
            probe_step(trimmed as int, shard_size as int),
            shard_size as int,
            0,
        ),
{
    let padding: usize = shard_size - trimmed;
    let step: usize = if padding > MAX_PROBE_ATTEMPTS {
        padding / MAX_PROBE_ATTEMPTS
    } else {
        1
    };
    let mut tries: Vec<usize> = Vec::new();
    let mut probe: usize = shard_size;
    let mut attempts: usize = 0;
    let ghost whole = probe_row(
        data@,
        candidates@,
        trimmed as int,
        step as int,
        shard_size as int,
        0,
    );
    assert(tries@ + whole.tries =~= whole.tries);
    while probe >= trimmed
        invariant
            step >= 1,
            step == probe_step(trimmed as int, shard_size as int),
            attempts <= MAX_PROBE_ATTEMPTS,
            whole == probe_row(
                data@,
                candidates@,
                trimmed as int,
                step as int,
                shard_size as int,
                0,
            ),
            whole.tries == tries@ + probe_row(
                data@,
                candidates@,
                trimmed as int,
                step as int,
                probe as int,
                attempts as int,
            ).tries,
            whole.end == probe_row(
                data@,
                candidates@,
                trimmed as int,
                step as int,
                probe as int,
                attempts as int,
            ).end,
        decreases probe,
    {
        if !list_contains(candidates, probe) && probe <= data.len() && probe > 0 {
            attempts = attempts + 1;
            if attempts > MAX_PROBE_ATTEMPTS {
                assert(whole.tries =~= tries@);
                return Row { tries, end: RowEnd::ProbeLimit };
            }
            if is_zero(data, probe) {
                assert(whole.tries =~= tries@);
                return Row { tries, end: RowEnd::EmptyBlock };
            }
            let ghost before = tries@;
            tries.push(probe);
            assert(seq![probe] + Seq::<usize>::empty() =~= seq![probe]);
            if probe < step {
                assert(whole.tries =~= tries@);
                return Row { tries, end: RowEnd::Nothing };
            }
            assert(whole.tries =~= tries@ + probe_row(
                data@,
                candidates@,
                trimmed as int,
                step as int,
                probe - step,
                attempts as int,
            ).tries);
        } else if probe < step {
            assert(whole.tries =~= tries@);
            return Row { tries, end: RowEnd::Nothing };
        }
        probe = probe - step;
    }
    assert(whole.tries =~= tries@);
    Row { tries, end: RowEnd::Nothing }
}

/// Which row of tries a shard is at.
#[derive(Debug, Clone, Copy, PartialEq, Eq, Structural)]
pub enum DecodeStage {
    /// The shard as it was recovered.
    First,
    /// Waiting for the shard recovered without its own copy.
    AwaitAlternative,
    /// That shard.
    Alternative,
    /// Probing.
    Probe,
    Done,
}

/// The first error of the tries.
#[derive(Debug)]
pub enum FirstError {
    NoError,
    Given(EraError),
    /// Too many lengths were probed.
    ProbeLimit,
}

/// What came of a shard.
#[derive(Debug)]
pub enum ShardOutcome {
    Undecided,
    /// Its block was decoded; `recoded` where only after recovering the shard
    /// without its own copy.
    Decoded { chunks: Vec<DecodedChunk>, recoded: bool },
    /// It holds nothing.
    Empty { recoded: bool },
    Failed,
}

/// What decoding a shard needs next.
#[derive(Debug, Clone, Copy, PartialEq, Eq, Structural)]
pub enum DecodeAction {
    /// Decode the first `length` bytes of the shard at hand.
    Try { length: usize },
    /// Recover the stripe without this shard's own copy.
    RecoverWithout,
    Finished,
}

/// What is fixed for a shard.
#[derive(Debug)]
pub struct DecodeContext {
    /// The shard as it was recovered.
    pub data: Vec<u8>,
    /// Its length, where it is known.
    pub own: Option<u32>,
    /// The lengths known in the stripe.
    pub stripe: Vec<Option<u32>>,
    pub shard_size: usize,
    pub parity_shards: u8,
}

/// A row, how far it was tried, and what came of it.
#[verifier::ext_equal]
pub struct DecodeView {
    pub stage: DecodeStage,
    pub row: RowView,
    pub at: int,
    pub first_error: FirstError,
    pub outcome: ShardOutcome,
    /// The shard recovered without its own copy; empty before it came.
    pub alternative: Seq<u8>,
}

/// `list` holds exactly the candidates, the longest first.
pub open spec fn lists_candidates(list: Seq<usize>, data: Seq<u8>, cx: DecodeContext) -> bool {
    &&& forall|k: int, l: int| 0 <= k < l < list.len() ==> #[trigger] list[k] > #[trigger] list[l]
    &&& forall|n: usize| #[trigger]
        list.contains(n) <==> is_candidate(n, data, cx.own, cx.stripe@, cx.shard_size)
}

/// The candidates of `data`.
pub open spec fn candidates_of(data: Seq<u8>, cx: DecodeContext) -> Seq<usize> {
    choose|list: Seq<usize>| lists_candidates(list, data, cx)
}

/// A falling list is determined by what it holds.
proof fn lemma_falling_unique(a: Seq<usize>, b: Seq<usize>)
    requires
        forall|k: int, l: int| 0 <= k < l < a.len() ==> #[trigger] a[k] > #[trigger] a[l],
        forall|k: int, l: int| 0 <= k < l < b.len() ==> #[trigger] b[k] > #[trigger] b[l],
        forall|n: usize| #[trigger] a.contains(n) <==> b.contains(n),
    ensures
        a == b,
    decreases a.len(),
{
    if a.len() == 0 {
        if b.len() > 0 {
            assert(b.contains(b[0]));
            assert(a.contains(b[0]));
        }
    } else {
        assert(a.contains(a[0]));
        assert(b.contains(a[0]));
        assert(b.contains(b[0]));
        assert(a.contains(b[0]));
        let i = choose|i: int| 0 <= i < b.len() && b[i] == a[0];
        let j = choose|j: int| 0 <= j < a.len() && a[j] == b[0];
        assert(a[0] == b[0]);
        let x = a.drop_first();
        let y = b.drop_first();
        assert forall|n: usize| #[trigger] x.contains(n) <==> y.contains(n) by {
            if x.contains(n) {
                let k = choose|k: int| 0 <= k < x.len() && x[k] == n;
                assert(a[k + 1] == n);
                assert(a.contains(n));
                assert(b.contains(n));
                let m = choose|m: int| 0 <= m < b.len() && b[m] == n;
                assert(m > 0);
                assert(y[m - 1] == n);
            }
            if y.contains(n) {
                let k = choose|k: int| 0 <= k < y.len() && y[k] == n;
                assert(b[k + 1] == n);
                assert(b.contains(n));
                assert(a.contains(n));
                let m = choose|m: int| 0 <= m < a.len() && a[m] == n;
                assert(m > 0);
                assert(x[m - 1] == n);
            }
        }
        assert forall|k: int, l: int| 0 <= k < l < x.len() implies #[trigger] x[k]
            > #[trigger] x[l] by {
            assert(a[k + 1] > a[l + 1]);
        }
        assert forall|k: int, l: int| 0 <= k < l < y.len() implies #[trigger] y[k]
            > #[trigger] y[l] by {
            assert(b[k + 1] > b[l + 1]);
        }
        lemma_falling_unique(x, y);
        assert(a =~= seq![a[0]] + x);
        assert(b =~= seq![b[0]] + y);
    }
}

/// The lengths of a shard are tried from the longest to the shortest, none
/// twice: there is one such list.
pub proof fn law_candidates_are_determined(list: Seq<usize>, data: Seq<u8>, cx: DecodeContext)
    requires
        lists_candidates(list, data, cx),
    ensures
        list == candidates_of(data, cx),
{
    lemma_falling_unique(list, candidates_of(data, cx));
}

impl DecodeView {
    pub open spec fn start(cx: DecodeContext) -> DecodeView {
        DecodeView {
            stage: DecodeStage::First,
            row: candidate_row(cx.data@, candidates_of(cx.data@, cx), 0),
            at: 0,
            first_error: FirstError::NoError,
            outcome: ShardOutcome::Undecided,
            alternative: Seq::empty(),
        }.settled(cx)
    }

    /// The shard whose lengths are tried: the one recovered without its own
    /// copy while its row is tried, otherwise the one at hand.
    pub open spec fn source(self, cx: DecodeContext) -> Seq<u8> {
        if self.stage == DecodeStage::Alternative {
            self.alternative
        } else {
            cx.data@
        }
    }

    pub open spec fn done(self, outcome: ShardOutcome) -> DecodeView {
        DecodeView { stage: DecodeStage::Done, outcome, ..self }
    }

    pub open spec fn recoded(self) -> bool {
        self.stage == DecodeStage::Alternative
    }

    /// On to what follows a row that was tried to its end.
    pub open spec fn settled(self, cx: DecodeContext) -> DecodeView {
        if self.at < self.row.tries.len() {
            self
        } else if self.row.end == RowEnd::EmptyBlock {
            self.done(ShardOutcome::Empty { recoded: self.recoded() })
        } else {
            match self.stage {
                DecodeStage::First => if cx.parity_shards > 0 {
                    DecodeView { stage: DecodeStage::AwaitAlternative, ..self }
                } else {
                    self.probing(cx)
                },
                DecodeStage::Alternative => self.probing(cx),
                DecodeStage::Probe => self.probed(),
                _ => self,
            }
        }
    }

    /// The probing of lengths between the trimmed and the padded one, where
    /// the length is not known and there is any padding.
    pub open spec fn probing(self, cx: DecodeContext) -> DecodeView {
        let trimmed = trimmed_len(cx.data@) as int;
        if cx.own is None && trimmed < cx.shard_size {
            let row = probe_row(
                cx.data@,
                candidates_of(cx.data@, cx),
                trimmed,
                probe_step(trimmed, cx.shard_size as int),
                cx.shard_size as int,
                0,
            );
            let m = DecodeView { stage: DecodeStage::Probe, row, at: 0, ..self };
            if row.tries.len() > 0 {
                m
            } else if row.end == RowEnd::EmptyBlock {
                m.done(ShardOutcome::Empty { recoded: false })
            } else {
                m.probed()
            }
        } else {
            self.done(ShardOutcome::Failed)
        }
    }

    /// Probing found nothing.
    pub open spec fn probed(self) -> DecodeView {
        DecodeView {
            first_error: match self.first_error {
                FirstError::NoError => if self.row.end == RowEnd::ProbeLimit {
                    FirstError::ProbeLimit
                } else {
                    FirstError::NoError
                },
                e => e,
            },
            ..self
        }.done(ShardOutcome::Failed)
    }

    /// A reply to a try: the first success decides, the first error is kept.
    pub open spec fn after_try(
        self,
        cx: DecodeContext,
        reply: Result<Vec<DecodedChunk>, EraError>,
    ) -> DecodeView {
        match reply {
            Ok(chunks) => self.done(ShardOutcome::Decoded { chunks, recoded: self.recoded() }),
            Err(e) => DecodeView {
                at: self.at + 1,
                first_error: match self.first_error {
                    FirstError::NoError => FirstError::Given(e),
                    f => f,
                },
                ..self
            }.settled(cx),
        }
    }

    /// A reply with the shard recovered without its own copy.
    pub open spec fn after_alternative(self, cx: DecodeContext, data: Option<Seq<u8>>) -> DecodeView {
        match data {
            Some(d) => DecodeView {
                stage: DecodeStage::Alternative,
                row: candidate_row(d, candidates_of(d, cx), 0),
                at: 0,
                alternative: d,
                ..self
            }.settled(cx),
            None => self.probing(cx),
        }
    }
}

/// The decoding of one shard.
#[derive(Debug)]
pub struct ShardDecode {
    pub cx: DecodeContext,
    pub stage: DecodeStage,
    pub row: Row,
    pub at: usize,
    pub first_error: FirstError,
    pub outcome: ShardOutcome,
    /// The shard recovered without its own copy; empty before it came.
    pub alternative: Vec<u8>,
}

impl View for ShardDecode {
    type V = DecodeView;

    open spec fn view(&self) -> DecodeView {
        DecodeView {
            stage: self.stage,
            row: self.row@,
            at: self.at as int,
            first_error: self.first_error,
            outcome: self.outcome,
            alternative: self.alternative@,
        }
    }
}

impl ShardDecode {
    pub open spec fn wf(&self) -> bool {
        &&& self.at <= self.row.tries@.len()
        &&& self.trying() ==> row_fits(self.row@, self@.source(self.cx).len())
        &&& match self.stage {
            DecodeStage::First => self.at < self.row.tries@.len(),
            DecodeStage::Alternative => self.at < self.row.tries@.len(),
            DecodeStage::Probe => self.at < self.row.tries@.len(),
            DecodeStage::AwaitAlternative => true,
            DecodeStage::Done => self.outcome !is Undecided,
        }
    }

    /// A length is to be tried.
    pub open spec fn trying(&self) -> bool {
        self.stage == DecodeStage::First || self.stage == DecodeStage::Alternative || self.stage
            == DecodeStage::Probe
    }

    /// Starts decoding a shard.
    pub fn new(cx: DecodeContext) -> (s: Self)
        ensures
            s.wf(),
            s.cx == cx,
            s@ == DecodeView::start(cx),
    {
        let list = candidate_lengths(&cx.data, cx.own, &cx.stripe, cx.shard_size);
        proof {
            law_candidates_are_determined(list@, cx.data@, cx);
            law_candidates_fit(cx.data@, list@, 0);
        }
        let row = candidate_tries(&cx.data, &list);
        let mut s = ShardDecode {
            cx,
            stage: DecodeStage::First,
            row,
            at: 0,
            first_error: FirstError::NoError,
            outcome: ShardOutcome::Undecided,
            alternative: Vec::new(),
        };
        s.settle();
        s
    }

    fn settle(&mut self)
        requires
            old(self).at <= old(self).row.tries@.len(),
            old(self).stage != DecodeStage::Done,
            old(self).stage != DecodeStage::AwaitAlternative,
            row_fits(old(self).row@, old(self)@.source(old(self).cx).len()),
        ensures
            final(self).wf(),
            final(self).cx == old(self).cx,
            final(self)@ == old(self)@.settled(old(self).cx),
    {
        if self.at < self.row.tries.len() {
            return ;
        }
        let recoded = match self.stage {
            DecodeStage::Alternative => true,
            _ => false,
        };
        let empty = match self.row.end {
            RowEnd::EmptyBlock => true,
            _ => false,
        };
        if empty {
            self.stage = DecodeStage::Done;
            self.outcome = ShardOutcome::Empty { recoded };
            return ;
        }
        match self.stage {
            DecodeStage::First => {
                if self.cx.parity_shards > 0 {
                    self.stage = DecodeStage::AwaitAlternative;
                } else {
                    self.start_probing();
                }
            },
            DecodeStage::Alternative => {
                self.start_probing();
            },
            DecodeStage::Probe => {
                self.end_probing();
            },
            _ => {},
        }
    }

    fn end_probing(&mut self)
        requires
            old(self).at <= old(self).row.tries@.len(),
        ensures
            final(self).wf(),
            final(self).cx == old(self).cx,
            final(self)@ == old(self)@.probed(),
    {
        let limit = match self.row.end {
            RowEnd::ProbeLimit => true,
            _ => false,
        };
        let none = match self.first_error {
            FirstError::NoError => true,
            _ => false,
        };
        if limit && none {
            self.first_error = FirstError::ProbeLimit;
        }
        self.stage = DecodeStage::Done;
        self.outcome = ShardOutcome::Failed;
    }

    fn start_probing(&mut self)
        requires
            old(self).at <= old(self).row.tries@.len(),
        ensures
            final(self).wf(),
            final(self).cx == old(self).cx,
            final(self)@ == old(self)@.probing(old(self).cx),
    {
        let trimmed: usize = trim(&self.cx.data);
        if self.cx.own.is_none() && trimmed < self.cx.shard_size {
            let list = candidate_lengths(
                &self.cx.data,
                self.cx.own,
                &self.cx.stripe,
                self.cx.shard_size,
            );
            proof {
                law_candidates_are_determined(list@, self.cx.data@, self.cx);
                law_probes_fit(
                    self.cx.data@,
                    list@,
                    trimmed as int,
                    probe_step(trimmed as int, self.cx.shard_size as int),
                    self.cx.shard_size as int,
                    0,
                );
            }
            self.row = probe_tries(&self.cx.data, &list, trimmed, self.cx.shard_size);
            self.stage = DecodeStage::Probe;
            self.at = 0;
            if self.row.tries.len() > 0 {
                return ;
            }
            let empty = match self.row.end {
                RowEnd::EmptyBlock => true,
                _ => false,
            };
            if empty {
                self.stage = DecodeStage::Done;
                self.outcome = ShardOutcome::Empty { recoded: false };
                return ;
            }
            self.end_probing();
        } else {
            self.stage = DecodeStage::Done;
            self.outcome = ShardOutcome::Failed;
        }
    }

    /// What is needed next.
    pub fn next(&self) -> (a: DecodeAction)
        requires
            self.wf(),
        ensures
            a == (match self.stage {
                DecodeStage::AwaitAlternative => DecodeAction::RecoverWithout,
                DecodeStage::Done => DecodeAction::Finished,
                _ => DecodeAction::Try { length: self.row.tries@[self.at as int] },
            }),
    {
        match self.stage {
            DecodeStage::AwaitAlternative => DecodeAction::RecoverWithout,
            DecodeStage::Done => DecodeAction::Finished,
            _ => DecodeAction::Try { length: self.row.tries[self.at] },
        }
    }

    /// The bytes to be decoded for a try: as many of the shard that is tried as
    /// [`Self::next`] says.
    pub fn attempt(&self) -> (bytes: Vec<u8>)
        requires
            self.wf(),
            self.trying(),
        ensures
            bytes@ == self@.source(self.cx).take(self.row.tries@[self.at as int] as int),
    {
        let length: usize = self.row.tries[self.at];
        assert(self.row@.tries[self.at as int] == length);
        let bytes = match self.stage {
            DecodeStage::Alternative => sub_bytes(self.alternative.as_slice(), 0, length),
            _ => sub_bytes(self.cx.data.as_slice(), 0, length),
        };
        assert(bytes@ =~= self@.source(self.cx).take(length as int));
        bytes
    }

    /// Takes what came of a try.
    pub fn on_try(&mut self, reply: Result<Vec<DecodedChunk>, EraError>)
        requires
            old(self).wf(),
            old(self).trying(),
        ensures
            final(self).wf(),
            final(self).cx == old(self).cx,
            final(self)@ == old(self)@.after_try(old(self).cx, reply),
    {
        match reply {
            Ok(chunks) => {
                let recoded = match self.stage {
                    DecodeStage::Alternative => true,
                    _ => false,
                };
                self.stage = DecodeStage::Done;
                self.outcome = ShardOutcome::Decoded { chunks, recoded };
            },
            Err(e) => {
                let count: usize = self.row.tries.len();
                assert(self.at < count);
                self.at = self.at + 1;
                let none = match self.first_error {
                    FirstError::NoError => true,
                    _ => false,
                };
                if none {
                    self.first_error = FirstError::Given(e);
                }
                self.settle();
            },
        }
    }

    /// Takes the shard recovered without its own copy, where that succeeded: its
    /// lengths are tried next, and those of the shard at hand only after it.
    pub fn on_alternative(&mut self, data: Option<Vec<u8>>)
        requires
            old(self).wf(),
            old(self).stage == DecodeStage::AwaitAlternative,
        ensures
            final(self).wf(),
            final(self).cx == old(self).cx,
            final(self)@ == old(self)@.after_alternative(
                old(self).cx,
                match data {
                    Some(d) => Some(d@),
                    None => None,
                },
            ),
    {
        match data {
            Some(d) => {
                let list = candidate_lengths(
                    &d,
                    self.cx.own,
                    &self.cx.stripe,
                    self.cx.shard_size,
                );
                proof {
                    law_candidates_are_determined(list@, d@, self.cx);
                    law_candidates_fit(d@, list@, 0);
                }
                self.row = candidate_tries(&d, &list);
                self.alternative = d;
                self.stage = DecodeStage::Alternative;
                self.at = 0;
                self.settle();
            },
            None => {
                self.start_probing();
            },
        }
    }
}

/// The error that a failed shard is reported with.
pub open spec fn reported(e: EraError, first: FirstError, block: u32) -> bool {
    match first {
        FirstError::Given(g) => e == g,
        FirstError::ProbeLimit => e matches EraError::ErasureError(m) && m@
            == "Virtual striping probe limit exceeded for block "@ + text::decimal(block as nat)
            + " ("@ + text::decimal((MAX_PROBE_ATTEMPTS + 1) as nat) + " > 256)"@,
        FirstError::NoError => e matches EraError::ErasureError(m) && m@
            == "Missing data shard length"@,
    }
}

pub fn report_first(first: FirstError, block: u32) -> (e: EraError)
    ensures
        reported(e, first, block),
{
    match first {
        FirstError::Given(g) => g,
        FirstError::ProbeLimit => EraError::ErasureError(
            text::with_numbers(
                "Virtual striping probe limit exceeded for block ",
                block as u64,
                " (",
                MAX_PROBE_ATTEMPTS as u64 + 1,
                " > 256)",
            ),
        ),
        FirstError::NoError => EraError::ErasureError(
            String::from_str("Missing data shard length"),
        ),
    }
}

/// A shard filled up with zeros to `size` bytes.
pub open spec fn padded(d: Seq<u8>, size: nat) -> Seq<u8> {
    Seq::new(
        size,
        |x: int|
            if x < d.len() {
                d[x]
            } else {
                0u8
            },
    )
}

/// What decoding the first bytes of a shard gives.
pub type Opener = spec_fn(Seq<u8>) -> Result<Vec<DecodedChunk>, EraError>;

impl DecodeView {
    /// The view after one step: a try, or the shard recovered without its own
    /// copy, which is `again`.
    pub open spec fn stepped(
        self,
        cx: DecodeContext,
        opener: Opener,
        again: Option<Seq<u8>>,
    ) -> DecodeView {
        match self.stage {
            DecodeStage::Done => self,
            DecodeStage::AwaitAlternative => self.after_alternative(cx, again),
            _ => self.after_try(
                cx,
                opener(self.source(cx).take(self.row.tries[self.at] as int)),
            ),
        }
    }

    /// The view after `n` steps.
    pub open spec fn after_steps(
        self,
        cx: DecodeContext,
        opener: Opener,
        again: Option<Seq<u8>>,
        n: nat,
    ) -> DecodeView
        decreases n,
    {
        if n == 0 {
            self
        } else {
            self.after_steps(cx, opener, again, (n - 1) as nat).stepped(cx, opener, again)
        }
    }

    /// Step by step, the decoding ends with `outcome`.
    pub open spec fn comes_to(
        self,
        cx: DecodeContext,
        opener: Opener,
        again: Option<Seq<u8>>,
        outcome: ShardOutcome,
    ) -> bool {
        exists|n: nat|
            (#[trigger] self.after_steps(cx, opener, again, n)).stage == DecodeStage::Done
                && self.after_steps(cx, opener, again, n).outcome == outcome
    }
}

/// Decoding a shard ends with `outcome`.
pub open spec fn decodes_to(
    cx: DecodeContext,
    opener: Opener,
    again: Option<Seq<u8>>,
    outcome: ShardOutcome,
) -> bool {
    DecodeView::start(cx).comes_to(cx, opener, again, outcome)
}

proof fn lemma_done_stays(
    v: DecodeView,
    cx: DecodeContext,
    opener: Opener,
    again: Option<Seq<u8>>,
    n: nat,
    m: nat,
)
    requires
        n <= m,
        v.after_steps(cx, opener, again, n).stage == DecodeStage::Done,
    ensures
        v.after_steps(cx, opener, again, m) == v.after_steps(cx, opener, again, n),
    decreases m,
{
    if n < m {
        lemma_done_stays(v, cx, opener, again, n, (m - 1) as nat);
    }
}

/// Decoding a shard ends in one way.
pub proof fn law_one_outcome(
    cx: DecodeContext,
    opener: Opener,
    again: Option<Seq<u8>>,
    a: ShardOutcome,
    b: ShardOutcome,
)
    requires
        decodes_to(cx, opener, again, a),
        decodes_to(cx, opener, again, b),
    ensures
        a == b,
{
    let v = DecodeView::start(cx);
    let n = choose|n: nat|
        (#[trigger] v.after_steps(cx, opener, again, n)).stage == DecodeStage::Done
            && v.after_steps(cx, opener, again, n).outcome == a;
    let m = choose|m: nat|
        (#[trigger] v.after_steps(cx, opener, again, m)).stage == DecodeStage::Done
            && v.after_steps(cx, opener, again, m).outcome == b;
    if n <= m {
        lemma_done_stays(v, cx, opener, again, n, m);
    } else {
        lemma_done_stays(v, cx, opener, again, m, n);
    }
}

/// Steps can be put together.
proof fn lemma_steps_add(
    v: DecodeView,
    cx: DecodeContext,
    opener: Opener,
    again: Option<Seq<u8>>,
    n: nat,
    m: nat,
)
    ensures
        v.after_steps(cx, opener, again, n + m) == v.after_steps(
            cx,
            opener,
            again,
            n,
        ).after_steps(cx, opener, again, m),
    decreases m,
{
    if m > 0 {
        lemma_steps_add(v, cx, opener, again, n, (m - 1) as nat);
        assert((n + m - 1) as nat == n + (m - 1) as nat);
    }
}

/// What the next steps come to, the whole comes to.
proof fn lemma_comes_to(
    v: DecodeView,
    cx: DecodeContext,
    opener: Opener,
    again: Option<Seq<u8>>,
    n: nat,
    outcome: ShardOutcome,
)
    requires
        v.after_steps(cx, opener, again, n).comes_to(cx, opener, again, outcome),
    ensures
        v.comes_to(cx, opener, again, outcome),
{
    let u = v.after_steps(cx, opener, again, n);
    let m = choose|m: nat|
        (#[trigger] u.after_steps(cx, opener, again, m)).stage == DecodeStage::Done
            && u.after_steps(cx, opener, again, m).outcome == outcome;
    lemma_steps_add(v, cx, opener, again, n, m);
    assert(v.after_steps(cx, opener, again, n + m).stage == DecodeStage::Done);
}

/// The row that is tried, from length to length.
spec fn is_trying(v: DecodeView) -> bool {
    v.stage == DecodeStage::First || v.stage == DecodeStage::Alternative || v.stage
        == DecodeStage::Probe
}

/// The lengths before position `k` do not open.
spec fn fails_before(v: DecodeView, cx: DecodeContext, opener: Opener, k: int) -> bool {
    forall|j: int|
        v.at <= j < k ==> opener(v.source(cx).take(#[trigger] v.row.tries[j] as int)) is Err
}

/// Lengths that do not open are passed.
proof fn lemma_tries_pass(
    v: DecodeView,
    cx: DecodeContext,
    opener: Opener,
    again: Option<Seq<u8>>,
    k: int,
)
    requires
        is_trying(v),
        0 <= v.at <= k < v.row.tries.len(),
        fails_before(v, cx, opener, k),
    ensures
        ({
            let u = v.after_steps(cx, opener, again, (k - v.at) as nat);
            u.stage == v.stage && u.row == v.row && u.at == k && u.alternative == v.alternative
        }),
    decreases k - v.at,
{
    if k > v.at {
        lemma_tries_pass(v, cx, opener, again, k - 1);
        let u = v.after_steps(cx, opener, again, (k - 1 - v.at) as nat);
        assert(opener(v.source(cx).take(v.row.tries[k - 1] as int)) is Err);
        assert(u.source(cx) == v.source(cx));
        assert((k - v.at) as nat - 1 == (k - 1 - v.at) as nat);
    }
}

/// The first length that opens decides.
proof fn lemma_try_opens(
    v: DecodeView,
    cx: DecodeContext,
    opener: Opener,
    again: Option<Seq<u8>>,
    k: int,
    chunks: Vec<DecodedChunk>,
)
    requires
        is_trying(v),
        0 <= v.at <= k < v.row.tries.len(),
        fails_before(v, cx, opener, k),
        opener(v.source(cx).take(v.row.tries[k] as int)) == Ok::<Vec<DecodedChunk>, EraError>(
            chunks,
        ),
    ensures
        v.comes_to(
            cx,
            opener,
            again,
            ShardOutcome::Decoded { chunks, recoded: v.stage == DecodeStage::Alternative },
        ),
{
    lemma_tries_pass(v, cx, opener, again, k);
    let n = (k - v.at) as nat;
    let u = v.after_steps(cx, opener, again, n);
    assert(u.source(cx) == v.source(cx));
    assert(v.after_steps(cx, opener, again, n + 1) == u.stepped(cx, opener, again));
    assert(v.after_steps(cx, opener, again, n + 1).stage == DecodeStage::Done);
}

/// A row of which no length opens is tried to its end.
proof fn lemma_row_fails(
    v: DecodeView,
    cx: DecodeContext,
    opener: Opener,
    again: Option<Seq<u8>>,
) -> (f: FirstError)
    requires
        is_trying(v),
        0 <= v.at < v.row.tries.len(),
        fails_before(v, cx, opener, v.row.tries.len() as int),
    ensures
        v.after_steps(cx, opener, again, (v.row.tries.len() - v.at) as nat) == (DecodeView {
            at: v.row.tries.len() as int,
            first_error: f,
            outcome: v.after_steps(
                cx,
                opener,
                again,
                (v.row.tries.len() - 1 - v.at) as nat,
            ).outcome,
            ..v
        }).settled(cx),
{
    let k = v.row.tries.len() - 1;
    lemma_tries_pass(v, cx, opener, again, k);
    let u = v.after_steps(cx, opener, again, (k - v.at) as nat);
    assert(u.source(cx) == v.source(cx));
    assert(opener(v.source(cx).take(v.row.tries[k] as int)) is Err);
    let e = opener(v.source(cx).take(v.row.tries[k] as int))->Err_0;
    assert((v.row.tries.len() - v.at) as nat - 1 == (k - v.at) as nat);
    match u.first_error {
        FirstError::NoError => FirstError::Given(e),
        f => f,
    }
}

/// Filling up adds zeros only, and cutting back gives the shard.
pub proof fn law_padding_is_cut_off(d: Seq<u8>, size: nat)
    requires
        d.len() <= size,
    ensures
        padded(d, size).take(d.len() as int) == d,
        trimmed_len(padded(d, size)) == trimmed_len(d),
{
    let p = padded(d, size);
    assert(p.take(d.len() as int) =~= d);
    law_trimming_cuts_zeros(p);
    law_trimming_cuts_zeros(d);
    let t = trimmed_len(d) as int;
    let u = trimmed_len(p) as int;
    if t < u {
        assert(p[u - 1] == 0);
    }
    if u < t {
        assert(p[t - 1] == 0);
        assert(d[t - 1] != 0);
    }
}

/// A shard whose length is known is decoded at once: what is tried is the shard
/// as it was before it was filled up.
pub proof fn law_known_length_is_decoded(
    cx: DecodeContext,
    d: Seq<u8>,
    opener: Opener,
    again: Option<Seq<u8>>,
    chunks: Vec<DecodedChunk>,
)
    requires
        d.len() <= cx.shard_size,
        cx.data@ == padded(d, cx.shard_size as nat),
        cx.own matches Some(l) && l == d.len(),
        !all_zero(d),
        opener(d) == Ok::<Vec<DecodedChunk>, EraError>(chunks),
    ensures
        decodes_to(cx, opener, again, ShardOutcome::Decoded { chunks, recoded: false }),
{
    let l = d.len() as usize;
    let list = seq![l];
    assert(lists_candidates(list, cx.data@, cx)) by {
        assert forall|n: usize| #[trigger] list.contains(n) <==> is_candidate(
            n,
            cx.data@,
            cx.own,
            cx.stripe@,
            cx.shard_size,
        ) by {
            if n == l {
                assert(list[0] == n);
            }
        }
    }
    law_candidates_are_determined(list, cx.data@, cx);
    law_padding_is_cut_off(d, cx.shard_size as nat);
    let row = candidate_row(cx.data@, list, 0);
    assert(candidate_row(cx.data@, list, 1) == RowView::ends(RowEnd::Nothing));
    assert(row.tries =~= seq![l]);
    let v = DecodeView::start(cx);
    assert(v.row == row && v.at == 0 && v.stage == DecodeStage::First);
    lemma_try_opens(v, cx, opener, again, 0, chunks);
}

/// What is probed downwards from `probe`, one length after another.
proof fn lemma_probes(
    data: Seq<u8>,
    candidates: Seq<usize>,
    trimmed: int,
    probe: int,
    attempts: int,
    l: int,
)
    requires
        trimmed_len(data) == trimmed,
        0 < trimmed < l <= probe <= data.len(),
        probe <= usize::MAX,
        0 <= attempts,
        attempts + (probe - l) + 1 <= MAX_PROBE_ATTEMPTS,
        forall|n: int| l <= n <= probe ==> !candidates.contains(#[trigger] (n as usize)),
    ensures
        ({
            let row = probe_row(data, candidates, trimmed, 1, probe, attempts);
            &&& row.tries.len() > probe - l
            &&& forall|k: int| 0 <= k <= probe - l ==> #[trigger] row.tries[k] == probe - k
        }),
    decreases probe,
{
    law_trimming_cuts_zeros(data);
    assert(data.take(probe)[trimmed - 1] != 0);
    assert(!candidates.contains(probe as usize));
    let row = probe_row(data, candidates, trimmed, 1, probe, attempts);
    if probe > l {
        lemma_probes(data, candidates, trimmed, probe - 1, attempts + 1, l);
        let rest = probe_row(data, candidates, trimmed, 1, probe - 1, attempts + 1);
        assert(row == RowView::first(probe as usize, rest));
        assert forall|k: int| 0 <= k <= probe - l implies #[trigger] row.tries[k] == probe - k by {
            if k > 0 {
                assert(row.tries[k] == rest.tries[k - 1]);
            }
        }
    }
}

/// The length of a shard can be found by trying: it is the whole size, no zero
/// stands at the end, or every length in between is probed and it is among the
/// first.
pub open spec fn can_be_found(d: Seq<u8>, size: nat) -> bool {
    ||| d.len() == size
    ||| trimmed_len(d) == d.len()
    ||| size - trimmed_len(d) < 2 * MAX_PROBE_ATTEMPTS && size - d.len() <= MAX_PROBE_ATTEMPTS
}

/// The candidates of a shard of which nothing but its size is known.
proof fn lemma_lone_candidates(cx: DecodeContext)
    requires
        cx.own is None,
        forall|k: int| 0 <= k < cx.stripe@.len() ==> (#[trigger] cx.stripe@[k]) is None,
        cx.data@.len() == cx.shard_size,
        !all_zero(cx.data@),
    ensures
        ({
            let t = trimmed_len(cx.data@) as usize;
            let list = candidates_of(cx.data@, cx);
            &&& 0 < t <= cx.shard_size
            &&& list == if t < cx.shard_size {
                seq![cx.shard_size, t]
            } else {
                seq![cx.shard_size]
            }
            &&& candidate_row(cx.data@, list, 0) == (RowView { tries: list, end: RowEnd::Nothing })
        }),
{
    let data = cx.data@;
    let size = cx.shard_size;
    law_trimming_cuts_zeros(data);
    let t = trimmed_len(data) as usize;
    if t == 0 {
        assert(all_zero(data));
    }
    let list = if t < size {
        seq![size, t]
    } else {
        seq![size]
    };
    assert(lists_candidates(list, data, cx)) by {
        assert forall|n: usize| #[trigger] list.contains(n) <==> is_candidate(
            n,
            data,
            cx.own,
            cx.stripe@,
            size,
        ) by {
            if n == size {
                assert(list[0] == n);
            } else if n == t {
                assert(list[1] == n);
            }
        }
    }
    law_candidates_are_determined(list, data, cx);
    assert(data.take(size as int)[t - 1] != 0);
    assert(data.take(t as int)[t - 1] != 0);
    let n = list.len() as int;
    assert(candidate_row(data, list, n) == RowView::ends(RowEnd::Nothing));
    if n == 2 {
        let last = candidate_row(data, list, 1);
        assert(last.tries =~= seq![t]);
        assert(candidate_row(data, list, 0) == RowView::first(size, last));
        assert(candidate_row(data, list, 0).tries =~= list);
    } else {
        assert(candidate_row(data, list, 0).tries =~= list);
    }
}

/// A shard of which nothing but its size is known is decoded, where only its own
/// length opens and that length can be found.
pub proof fn law_unknown_length_is_found(
    cx: DecodeContext,
    d: Seq<u8>,
    opener: Opener,
    again: Option<Seq<u8>>,
    chunks: Vec<DecodedChunk>,
)
    requires
        d.len() <= cx.shard_size,
        cx.data@ == padded(d, cx.shard_size as nat),
        cx.own is None,
        forall|k: int| 0 <= k < cx.stripe@.len() ==> (#[trigger] cx.stripe@[k]) is None,
        !all_zero(d),
        opener(d) == Ok::<Vec<DecodedChunk>, EraError>(chunks),
        forall|n: int|
            0 < n <= cx.shard_size && n != d.len() ==> opener(#[trigger] cx.data@.take(n)) is Err,
        again matches Some(x) ==> x == cx.data@,
        can_be_found(d, cx.shard_size as nat),
    ensures
        decodes_to(cx, opener, again, ShardOutcome::Decoded { chunks, recoded: false }),
{
    let data = cx.data@;
    let size = cx.shard_size as int;
    let l = d.len() as int;
    let found = ShardOutcome::Decoded { chunks, recoded: false };
    law_padding_is_cut_off(d, cx.shard_size as nat);
    assert(!all_zero(data)) by {
        let k = choose|k: int| 0 <= k < d.len() && d[k] != 0;
        assert(data[k] == d[k]);
    }
    lemma_lone_candidates(cx);
    law_trimming_cuts_zeros(d);
    let t = trimmed_len(data) as int;
    let list = candidates_of(data, cx);
    let v = DecodeView::start(cx);
    assert(v.row.tries == list && v.at == 0 && v.stage == DecodeStage::First);
    assert(v.source(cx) == data);
    if l == size {
        lemma_try_opens(v, cx, opener, again, 0, chunks);
    } else if l == t {
        assert(opener(data.take(size)) is Err);
        assert(fails_before(v, cx, opener, 1));
        lemma_try_opens(v, cx, opener, again, 1, chunks);
    } else {
        assert(opener(data.take(size)) is Err);
        assert(opener(data.take(t)) is Err);
        let f = lemma_row_fails(v, cx, opener, again);
        let a = v.after_steps(cx, opener, again, 2);
        if a.stage == DecodeStage::AwaitAlternative {
            let b = a.stepped(cx, opener, again);
            assert(a.after_steps(cx, opener, again, 1) == b) by {
                assert(a.after_steps(cx, opener, again, 0) == a);
            }
            if again is Some {
                assert(b.row.tries == list && b.at == 0 && b.stage == DecodeStage::Alternative);
                assert(b.source(cx) == data);
                let g = lemma_row_fails(b, cx, opener, again);
                lemma_probing_finds(b, cx, d, opener, again, chunks, 2);
                lemma_comes_to(a, cx, opener, again, 1, found);
            } else {
                lemma_probing_finds(a, cx, d, opener, again, chunks, 1);
            }
        } else {
            lemma_probing_finds(v, cx, d, opener, again, chunks, 2);
        }
        if a.stage == DecodeStage::AwaitAlternative {
            lemma_comes_to(v, cx, opener, again, 2, found);
        }
    }
}

/// Once probing begins, the length is found.
proof fn lemma_probing_finds(
    v: DecodeView,
    cx: DecodeContext,
    d: Seq<u8>,
    opener: Opener,
    again: Option<Seq<u8>>,
    chunks: Vec<DecodedChunk>,
    n: nat,
)
    requires
        d.len() < cx.shard_size,
        cx.data@ == padded(d, cx.shard_size as nat),
        cx.own is None,
        forall|k: int| 0 <= k < cx.stripe@.len() ==> (#[trigger] cx.stripe@[k]) is None,
        !all_zero(cx.data@),
        opener(d) == Ok::<Vec<DecodedChunk>, EraError>(chunks),
        forall|n: int|
            0 < n <= cx.shard_size && n != d.len() ==> opener(#[trigger] cx.data@.take(n)) is Err,
        can_be_found(d, cx.shard_size as nat),
        trimmed_len(d) < d.len(),
        exists|u: DecodeView| v.after_steps(cx, opener, again, n) == #[trigger] u.probing(cx),
    ensures
        v.comes_to(cx, opener, again, ShardOutcome::Decoded { chunks, recoded: false }),
{
    let data = cx.data@;
    let size = cx.shard_size as int;
    let l = d.len() as int;
    let t = trimmed_len(data) as int;
    law_padding_is_cut_off(d, cx.shard_size as nat);
    lemma_lone_candidates(cx);
    let list = candidates_of(data, cx);
    let u = choose|u: DecodeView|
        v.after_steps(cx, opener, again, n) == #[trigger] u.probing(cx);
    let p = u.probing(cx);
    let padding = size - t;
    assert(probe_step(t, size) == 1) by {
        if padding > MAX_PROBE_ATTEMPTS {
            assert(padding / 256 == 1) by (nonlinear_arith)
                requires
                    256 < padding < 512,
            ;
        }
    }
    assert(list.contains(cx.shard_size)) by {
        assert(list[0] == cx.shard_size);
    }
    let row = probe_row(data, list, t, 1, size, 0);
    assert(row == probe_row(data, list, t, 1, size - 1, 0));
    assert forall|m: int| l <= m <= size - 1 implies !list.contains(#[trigger] (m as usize)) by {}
    lemma_probes(data, list, t, size - 1, 0, l);
    assert(p.row == row && p.stage == DecodeStage::Probe && p.at == 0);
    let k = size - 1 - l;
    assert(row.tries[k] == l);
    assert(p.source(cx) == data);
    assert forall|j: int| p.at <= j < k implies opener(
        p.source(cx).take(#[trigger] p.row.tries[j] as int),
    ) is Err by {
        assert(p.row.tries[j] == size - 1 - j);
    }
    assert(fails_before(p, cx, opener, k));
    lemma_try_opens(p, cx, opener, again, k, chunks);
    lemma_comes_to(
        v,
        cx,
        opener,
        again,
        n,
        ShardOutcome::Decoded { chunks, recoded: false },
    );
}

/// A shard of known length has no other candidate; of any other, every length that is known in
/// the stripe, the padded size and what is left without trailing zeros are candidates.
pub proof fn law_known_lengths_are_candidates(
    data: Seq<u8>,
    cx: DecodeContext,
    list: Seq<usize>,
    n: usize,
    k: int,
)
    requires
        lists_candidates(list, data, cx),
        0 <= k < cx.stripe@.len(),
    ensures
        cx.own matches Some(l) ==> (list.contains(n) <==> n == l),
        cx.own is None && cx.stripe@[k] == Some(n as u32) && n <= u32::MAX ==> list.contains(n),
        cx.own is None && 0 < cx.shard_size <= data.len() ==> list.contains(cx.shard_size),
        cx.own is None && 0 < trimmed_len(data) <= usize::MAX ==> list.contains(
            trimmed_len(data) as usize,
        ),
        list.no_duplicates(),
{
    assert(list.contains(n) <==> is_candidate(n, data, cx.own, cx.stripe@, cx.shard_size));
    if cx.own is None {
        assert(0 < cx.shard_size <= data.len() ==> is_candidate(
            cx.shard_size,
            data,
            cx.own,
            cx.stripe@,
            cx.shard_size,
        ));
        if 0 < trimmed_len(data) <= usize::MAX {
            assert(is_candidate(
                trimmed_len(data) as usize,
                data,
                cx.own,
                cx.stripe@,
                cx.shard_size,
            ));
        }
    }
}

/// Every length of padding is probed where there are few; where there are many the steps are as
/// wide as it takes to reach the trimmed length within the number of probes.
pub proof fn law_width_of_probes(trimmed: int, shard_size: int)
    requires
        0 <= trimmed <= shard_size,
    ensures
        probe_step(trimmed, shard_size) >= 1,
        shard_size - trimmed <= 256 ==> probe_step(trimmed, shard_size) == 1,
        shard_size - trimmed > 256 ==> probe_step(trimmed, shard_size) * 256 <= shard_size
            - trimmed < (probe_step(trimmed, shard_size) + 1) * 256,
{
}

/// The first error is the one that is kept, whatever comes later.
pub proof fn law_first_error_is_kept(
    v: DecodeView,
    cx: DecodeContext,
    first: EraError,
    later: EraError,
)
    ensures
        v.first_error == FirstError::Given(first) ==> v.after_try(cx, Err(later)).first_error
            == FirstError::Given(first),
        v.first_error is NoError ==> v.after_try(cx, Err(later)).first_error == FirstError::Given(
            later,
        ),
{
}

/// A try that succeeds ends the decoding, with what it gave.
pub proof fn law_success_ends_decoding(v: DecodeView, cx: DecodeContext, chunks: Vec<DecodedChunk>)
    ensures
        v.after_try(cx, Ok(chunks)).stage == DecodeStage::Done,
        v.after_try(cx, Ok(chunks)).outcome matches ShardOutcome::Decoded { chunks: c, recoded }
            && c == chunks && (recoded <==> v.stage == DecodeStage::Alternative),
{
}

/// Once a row was tried in vain, a stripe with parity recovers the shard without its own copy;
/// without parity, or once that was tried too, lengths are probed. A shard of zeros is empty.
pub proof fn law_what_follows_a_row(v: DecodeView, cx: DecodeContext)
    requires
        v.at >= v.row.tries.len(),
    ensures
        v.row.end == RowEnd::EmptyBlock ==> v.settled(cx).stage == DecodeStage::Done && (v.settled(
            cx,
        ).outcome matches ShardOutcome::Empty { recoded } && (recoded <==> v.stage
            == DecodeStage::Alternative)),
        v.row.end != RowEnd::EmptyBlock && v.stage == DecodeStage::First && cx.parity_shards >= 1
            ==> v.settled(cx).stage == DecodeStage::AwaitAlternative,
        v.row.end != RowEnd::EmptyBlock && v.stage == DecodeStage::First && cx.parity_shards == 0
            ==> v.settled(cx) == v.probing(cx),
        v.row.end != RowEnd::EmptyBlock && v.stage == DecodeStage::Alternative ==> v.settled(cx)
            == v.probing(cx),
{
}

/// Lengths are probed only where the shard's length is not known and there is padding to cut; a
/// shard that is known or without padding has failed.
pub proof fn law_when_lengths_are_probed(v: DecodeView, cx: DecodeContext)
    ensures
        cx.own is Some || trimmed_len(cx.data@) >= cx.shard_size ==> v.probing(cx).stage
            == DecodeStage::Done && v.probing(cx).outcome is Failed && v.probing(cx).first_error
            == v.first_error,
        v.probing(cx).stage == DecodeStage::Probe ==> cx.own is None && trimmed_len(cx.data@)
            < cx.shard_size && v.probing(cx).row.tries.len() > 0 && v.probing(cx).at == 0,
        v.probing(cx).stage == DecodeStage::Probe || v.probing(cx).stage == DecodeStage::Done,
{
}

/// Probing in vain fails the shard. The error that came first is told; where none came, that the
/// number of probes was used up, if it was.
pub proof fn law_probing_in_vain_is_told(v: DecodeView)
    ensures
        v.probed().stage == DecodeStage::Done,
        v.probed().outcome is Failed,
        v.first_error !is NoError ==> v.probed().first_error == v.first_error,
        v.first_error is NoError ==> (v.probed().first_error is ProbeLimit <==> v.row.end
            == RowEnd::ProbeLimit),
        v.first_error is NoError && v.row.end != RowEnd::ProbeLimit
            ==> v.probed().first_error is NoError,
{
}

/// The shard that was recovered without its own copy is tried at its own candidates; without it
/// lengths are probed.
pub proof fn law_recovered_shard_is_tried(v: DecodeView, cx: DecodeContext, d: Seq<u8>)
    ensures
        v.after_alternative(cx, None) == v.probing(cx),
        candidate_row(d, candidates_of(d, cx), 0).tries.len() > 0 ==> ({
            let t = v.after_alternative(cx, Some(d));
            &&& t.stage == DecodeStage::Alternative
            &&& t.alternative == d
            &&& t.at == 0
            &&& t.first_error == v.first_error
        }),
{
}

} // verus!

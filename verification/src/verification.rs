//! Whether an archive holds what its catalog says.
use vstd::prelude::*;

use crate::catalog::UniqueChunk;
use crate::chunk_processor;
use crate::hash_table::HashTable;
use crate::hashing;
use crate::hashing::content_hash;
use crate::text;
use crate::types::ChunkHash;

verus! {

/// A chunk that a file needs, and how long it has to be.
#[derive(Debug, Clone, Copy, PartialEq, Eq, Structural)]
pub struct ExpectedChunk {
    pub file: usize,
    pub chunk: usize,
    pub length: u64,
}

/// What a verification found.
#[derive(Debug)]
pub struct VerifyStats {
    pub blocks_verified: u64,
    pub blocks_failed: u64,
    pub files_verified: u64,
    pub files_incomplete: u64,
    pub bytes_verified: u64,
    pub errors: Vec<String>,
}

/// What a verification found, as a value.
#[verifier::ext_equal]
pub struct VerifyView {
    pub blocks_verified: u64,
    pub blocks_failed: u64,
    pub files_verified: u64,
    pub files_incomplete: u64,
    pub bytes_verified: u64,
    pub errors: Seq<Seq<char>>,
}

impl View for VerifyStats {
    type V = VerifyView;

    open spec fn view(&self) -> VerifyView {
        VerifyView {
            blocks_verified: self.blocks_verified,
            blocks_failed: self.blocks_failed,
            files_verified: self.files_verified,
            files_incomplete: self.files_incomplete,
            bytes_verified: self.bytes_verified,
            errors: self.errors@.map_values(|s: String| s@),
        }
    }
}

impl VerifyView {
    pub open spec fn with_error(self, e: Seq<char>) -> VerifyView {
        VerifyView { errors: self.errors.push(e), ..self }
    }
}

impl Default for VerifyStats {
    fn default() -> (s: Self)
        ensures
            s@ == (VerifyView {
                blocks_verified: 0,
                blocks_failed: 0,
                files_verified: 0,
                files_incomplete: 0,
                bytes_verified: 0,
                errors: Seq::empty(),
            }),
    {
        let s = VerifyStats {
            blocks_verified: 0,
            blocks_failed: 0,
            files_verified: 0,
            files_incomplete: 0,
            bytes_verified: 0,
            errors: Vec::new(),
        };
        assert(s@.errors =~= Seq::empty());
        s
    }
}

impl VerifyStats {
    /// No block failed, no file is incomplete, and nothing was reported.
    pub fn is_ok(&self) -> (r: bool)
        ensures
            r == (self.blocks_failed == 0 && self.files_incomplete == 0 && self.errors@.len() == 0),
    {
        self.blocks_failed == 0 && self.files_incomplete == 0 && self.errors.len() == 0
    }

    fn report(&mut self, e: String)
        ensures
            final(self)@ == old(self)@.with_error(e@),
    {
        let ghost before = self@;
        self.errors.push(e);
        assert(self@.errors =~= before.errors.push(e@));
    }

    /// Counts a block that was read, and reports it where shards of it were
    /// damaged.
    pub fn on_block(&mut self, block_index: u32, corrupted_shards: u64)
        requires
            old(self).blocks_verified < u64::MAX,
        ensures
            ({
                let counted = VerifyView {
                    blocks_verified: (old(self).blocks_verified + 1) as u64,
                    ..old(self)@
                };
                final(self)@ == if corrupted_shards > 0 {
                    counted.with_error(
                        "Block "@ + text::decimal(block_index as nat) + ": recovered from "@
                            + text::decimal(corrupted_shards as nat) + " corrupted shards"@,
                    )
                } else {
                    counted
                }
            }),
    {
        self.blocks_verified = self.blocks_verified + 1;
        if corrupted_shards > 0 {
            let m = text::with_numbers(
                "Block ",
                block_index as u64,
                ": recovered from ",
                corrupted_shards,
                " corrupted shards",
            );
            self.report(m);
        }
    }

    /// Counts a block that could not be read, and reports why.
    pub fn on_block_failure(&mut self, reason: &str)
        requires
            old(self).blocks_failed < u64::MAX,
        ensures
            final(self)@ == (VerifyView {
                blocks_failed: (old(self).blocks_failed + 1) as u64,
                ..old(self)@
            }).with_error("Block logic error: "@ + reason@ + ""@),
    {
        self.blocks_failed = self.blocks_failed + 1;
        let m = text::with_text("Block logic error: ", reason, "");
        self.report(m);
    }
}

/// The message about a chunk that is not what its hash says.
pub open spec fn hash_mismatch(block: u32, expected: Seq<u8>, got: Seq<u8>) -> Seq<char> {
    "Block "@ + text::decimal(block as nat) + ": chunk hash mismatch (expected "@ + text::hex(
        expected,
    ) + ", got "@ + text::hex(got) + ")"@
}

/// The message about a chunk that is not as long as a file needs it.
pub open spec fn length_mismatch(block: u32, e: ExpectedChunk, got: nat) -> Seq<char> {
    "Block "@ + text::decimal(block as nat) + ": chunk length mismatch for file "@ + text::decimal(
        e.file as nat,
    ) + " (expected "@ + text::decimal(e.length as nat) + ", got "@ + text::decimal(got) + ")"@
}

/// The messages about the first `n` files that need a chunk of `len` bytes.
pub open spec fn length_errors(block: u32, refs: Seq<ExpectedChunk>, len: nat, n: nat) -> Seq<
    Seq<char>,
>
    decreases n,
{
    if n == 0 {
        Seq::empty()
    } else {
        let before = length_errors(block, refs, len, (n - 1) as nat);
        if refs[n - 1].length == len {
            before
        } else {
            before.push(length_mismatch(block, refs[n - 1], len))
        }
    }
}

/// The chunks found for file `f` after the first `n` files that need a chunk
/// of `len` bytes were looked at.
pub open spec fn found_for(refs: Seq<ExpectedChunk>, len: nat, f: int, n: nat) -> nat
    decreases n,
{
    if n == 0 {
        0
    } else {
        found_for(refs, len, f, (n - 1) as nat) + if refs[n - 1].file == f && refs[n - 1].length
            == len {
            1nat
        } else {
            0nat
        }
    }
}

proof fn lemma_found_bound(refs: Seq<ExpectedChunk>, len: nat, f: int, n: nat)
    ensures
        found_for(refs, len, f, n) <= n,
    decreases n,
{
    if n > 0 {
        lemma_found_bound(refs, len, f, (n - 1) as nat);
    }
}

/// Which chunks are expected, and how many were found.
#[derive(Debug)]
pub struct VerificationContext {
    pub expected_chunks: HashTable<Vec<ExpectedChunk>>,
    /// For each file, how many chunks it needs.
    pub file_chunk_counts: Vec<usize>,
    /// For each file, how many of them were found.
    pub file_chunks_found: Vec<usize>,
}

impl VerificationContext {
    /// The files that need chunks are there.
    pub open spec fn wf(&self) -> bool {
        &&& self.expected_chunks.wf()
        &&& forall|h: Seq<u8>, k: int|
            #![trigger self.expected_chunks@[h][k]]
            self.expected_chunks@.contains_key(h) && 0 <= k < self.expected_chunks@[h].len()
                ==> self.expected_chunks@[h][k].file < self.file_chunks_found@.len()
    }

    pub fn new(file_count: usize) -> (c: Self)
        ensures
            c.wf(),
            c.expected_chunks@ == Map::<Seq<u8>, Seq<ExpectedChunk>>::empty(),
            c.file_chunk_counts@.len() == 0,
            c.file_chunks_found@ == Seq::new(file_count as nat, |i: int| 0usize),
    {
        let mut found: Vec<usize> = Vec::new();
        let mut i: usize = 0;
        while i < file_count
            invariant
                i <= file_count,
                found@ == Seq::new(i as nat, |k: int| 0usize),
            decreases file_count - i,
        {
            found.push(0);
            assert(found@ =~= Seq::new((i + 1) as nat, |k: int| 0usize));
            i = i + 1;
        }
        VerificationContext {
            expected_chunks: HashTable::new(),
            file_chunk_counts: Vec::new(),
            file_chunks_found: found,
        }
    }

    /// Expects a chunk.
    pub fn expect(&mut self, hash: ChunkHash, e: ExpectedChunk)
        requires
            old(self).wf(),
            e.file < old(self).file_chunks_found@.len(),
        ensures
            final(self).wf(),
            final(self).expected_chunks@ == chunk_processor::listed_under(
                old(self).expected_chunks@,
                hash@,
                e,
            ),
            final(self).file_chunk_counts == old(self).file_chunk_counts,
            final(self).file_chunks_found == old(self).file_chunks_found,
    {
        let ghost before = self.expected_chunks@;
        let mut list: Vec<ExpectedChunk> = match self.expected_chunks.take(&hash) {
            Some(l) => l,
            None => Vec::new(),
        };
        assert(list@ =~= chunk_processor::list_at(before, hash@));
        list.push(e);
        self.expected_chunks.insert(hash, list);
        proof {
            let after = self.expected_chunks@;
            assert(after =~= chunk_processor::listed_under(before, hash@, e));
            assert forall|h: Seq<u8>, k: int|
                #![trigger after[h][k]]
                after.contains_key(h) && 0 <= k < after[h].len() implies after[h][k].file
                < self.file_chunks_found@.len() by {
                if h == hash@ {
                    if k < chunk_processor::list_at(before, hash@).len() {
                        assert(before.contains_key(h));
                        assert(after[h][k] == before[h][k]);
                    }
                } else {
                    assert(after[h][k] == before[h][k]);
                }
            }
        }
    }

    /// There is room to count a chunk of `len` bytes.
    pub open spec fn room(&self, hash: Seq<u8>, len: nat, stats: VerifyStats) -> bool {
        &&& stats.bytes_verified + len <= u64::MAX
        &&& forall|f: int|
            0 <= f < self.file_chunks_found@.len() ==> #[trigger] self.file_chunks_found@[f]
                + chunk_processor::list_at(self.expected_chunks@, hash).len() <= usize::MAX
    }

    /// Whether there is room to count a chunk.
    pub fn has_room(&self, chunk: &UniqueChunk, stats: &VerifyStats) -> (r: bool)
        requires
            self.wf(),
        ensures
            r == self.room(chunk.hash@, chunk.data@.len(), *stats),
    {
        let len: u64 = chunk.data.len() as u64;
        if len > u64::MAX - stats.bytes_verified {
            return false;
        }
        let n: usize = match self.expected_chunks.get(&chunk.hash) {
            Some(l) => l.len(),
            None => 0,
        };
        assert(n == chunk_processor::list_at(self.expected_chunks@, chunk.hash@).len());
        let mut f: usize = 0;
        while f < self.file_chunks_found.len()
            invariant
                f <= self.file_chunks_found@.len(),
                n == chunk_processor::list_at(self.expected_chunks@, chunk.hash@).len(),
                forall|k: int| 0 <= k < f ==> #[trigger] self.file_chunks_found@[k] + n <= usize::MAX,
            decreases self.file_chunks_found@.len() - f,
        {
            if self.file_chunks_found[f] > usize::MAX - n {
                assert(self.file_chunks_found@[f as int] + n > usize::MAX);
                return false;
            }
            f = f + 1;
        }
        true
    }

    /// Checks a chunk of a block: its bytes against its hash, its length
    /// against what the files need that it belongs to.
    pub fn process_chunk(&mut self, chunk: &UniqueChunk, block_index: u32, stats: &mut VerifyStats)
        requires
            old(self).wf(),
            old(self).room(chunk.hash@, chunk.data@.len(), *old(stats)),
        ensures
            final(self).wf(),
            final(self).expected_chunks == old(self).expected_chunks,
            final(self).file_chunk_counts == old(self).file_chunk_counts,
            final(self).file_chunks_found@.len() == old(self).file_chunks_found@.len(),
            ({
                let refs = chunk_processor::list_at(old(self).expected_chunks@, chunk.hash@);
                let len = chunk.data@.len();
                let digest = hashing::blake3_digest(chunk.data@);
                &&& forall|f: int|
                    0 <= f < old(self).file_chunks_found@.len()
                        ==> #[trigger] final(self).file_chunks_found@[f] == old(
                        self,
                    ).file_chunks_found@[f] + found_for(refs, len, f, refs.len())
                &&& final(stats)@ == (VerifyView {
                    bytes_verified: (old(stats).bytes_verified + len) as u64,
                    errors: old(stats)@.errors + (if digest != chunk.hash@ {
                        seq![hash_mismatch(block_index, chunk.hash@, digest)]
                    } else {
                        Seq::empty()
                    }) + length_errors(block_index, refs, len, refs.len()),
                    ..old(stats)@
                })
            }),
    {
        let ghost refs = chunk_processor::list_at(self.expected_chunks@, chunk.hash@);
        let ghost len = chunk.data@.len();
        let ghost digest = hashing::blake3_digest(chunk.data@);
        let ghost before = stats@;
        let n: u64 = chunk.data.len() as u64;
        stats.bytes_verified = stats.bytes_verified + n;
        let computed = content_hash(chunk.data.as_slice());
        let ghost head = if digest != chunk.hash@ {
            seq![hash_mismatch(block_index, chunk.hash@, digest)]
        } else {
            Seq::empty()
        };
        if !computed.same(&chunk.hash) {
            let want = text::hex_text(chunk.hash.0.as_slice());
            let got = text::hex_text(computed.0.as_slice());
            let mut m = text::with_number(
                "Block ",
                block_index as u64,
                ": chunk hash mismatch (expected ",
            );
            m.append(want.as_str());
            m.append(", got ");
            m.append(got.as_str());
            m.append(")");
            stats.report(m);
        }
        assert(stats@.errors =~= before.errors + head);
        assert(before.errors + head + length_errors(block_index, refs, len, 0) =~= before.errors
            + head);
        match self.expected_chunks.get(&chunk.hash) {
            Some(list) => {
                let mut i: usize = 0;
                while i < list.len()
                    invariant
                        i <= list@.len(),
                        list@ == refs,
                        n == len,
                        self.expected_chunks == old(self).expected_chunks,
                        self.file_chunk_counts == old(self).file_chunk_counts,
                        self.file_chunks_found@.len() == old(self).file_chunks_found@.len(),
                        old(self).wf(),
                        refs == chunk_processor::list_at(
                            old(self).expected_chunks@,
                            chunk.hash@,
                        ),
                        forall|f: int|
                            0 <= f < old(self).file_chunks_found@.len() ==> #[trigger] old(
                                self,
                            ).file_chunks_found@[f] + refs.len() <= usize::MAX,
                        old(self).expected_chunks@.contains_key(chunk.hash@),
                        forall|f: int|
                            0 <= f < old(self).file_chunks_found@.len()
                                ==> #[trigger] self.file_chunks_found@[f] == old(
                                self,
                            ).file_chunks_found@[f] + found_for(refs, len, f, i as nat),
                        stats@ == (VerifyView {
                            bytes_verified: (before.bytes_verified + len) as u64,
                            errors: before.errors + head + length_errors(
                                block_index,
                                refs,
                                len,
                                i as nat,
                            ),
                            ..before
                        }),
                    decreases list@.len() - i,
                {
                    let e = list[i];
                    assert(old(self).expected_chunks@[chunk.hash@][i as int] == e);
                    assert(e.file < self.file_chunks_found@.len());
                    if n == e.length {
                        proof {
                            lemma_found_bound(refs, len, e.file as int, i as nat);
                            assert(old(self).file_chunks_found@[e.file as int] + refs.len()
                                <= usize::MAX);
                        }
                        let c: usize = self.file_chunks_found[e.file];
                        self.file_chunks_found.set(e.file, c + 1);
                    } else {
                        let mut m = text::with_numbers(
                            "Block ",
                            block_index as u64,
                            ": chunk length mismatch for file ",
                            e.file as u64,
                            " (expected ",
                        );
                        text::push_decimal(&mut m, e.length);
                        m.append(", got ");
                        text::push_decimal(&mut m, n);
                        m.append(")");
                        assert(m@ =~= length_mismatch(block_index, e, len));
                        let ghost held = stats@;
                        stats.report(m);
                        assert(stats@.errors =~= before.errors + head + length_errors(
                            block_index,
                            refs,
                            len,
                            (i + 1) as nat,
                        ));
                    }
                    i = i + 1;
                }
            },
            None => {},
        }
    }

    /// A file whose chunks were all found, or of which some are missing.
    pub open spec fn verdict(&self, f: int) -> Option<bool> {
        if self.file_chunk_counts@[f] == 0 {
            None
        } else {
            Some(self.file_chunks_found@[f] == self.file_chunk_counts@[f])
        }
    }

    /// The statistics after the first `n` files were looked at.
    pub open spec fn completeness(&self, stats: VerifyView, paths: Seq<String>, n: nat) -> VerifyView
        decreases n,
    {
        if n == 0 {
            stats
        } else {
            let before = self.completeness(stats, paths, (n - 1) as nat);
            let f = n - 1;
            match self.verdict(f) {
                None => before,
                Some(true) => VerifyView {
                    files_verified: (before.files_verified + 1) as u64,
                    ..before
                },
                Some(false) => (VerifyView {
                    files_incomplete: (before.files_incomplete + 1) as u64,
                    ..before
                }).with_error(
                    "File '"@ + path_at(paths, f) + "': missing "@ + text::decimal(
                        (self.file_chunk_counts@[f] - self.file_chunks_found@[f]) as nat,
                    ) + " of "@ + text::decimal(self.file_chunk_counts@[f] as nat) + " chunks"@,
                ),
            }
        }
    }

    /// No more chunks were found of a file than it has, as happens where a
    /// chunk lies in two blocks.
    pub open spec fn countable(&self) -> bool {
        &&& self.file_chunk_counts@.len() <= self.file_chunks_found@.len()
        &&& forall|f: int|
            0 <= f < self.file_chunk_counts@.len() && self.file_chunk_counts@[f] > 0
                ==> #[trigger] self.file_chunks_found@[f] <= self.file_chunk_counts@[f]
    }

    pub fn is_countable(&self) -> (r: bool)
        ensures
            r == self.countable(),
    {
        if self.file_chunk_counts.len() > self.file_chunks_found.len() {
            return false;
        }
        let mut f: usize = 0;
        while f < self.file_chunk_counts.len()
            invariant
                f <= self.file_chunk_counts@.len(),
                self.file_chunk_counts@.len() <= self.file_chunks_found@.len(),
                forall|k: int|
                    0 <= k < f && self.file_chunk_counts@[k] > 0
                        ==> #[trigger] self.file_chunks_found@[k] <= self.file_chunk_counts@[k],
            decreases self.file_chunk_counts@.len() - f,
        {
            if self.file_chunk_counts[f] > 0 && self.file_chunks_found[f]
                > self.file_chunk_counts[f] {
                assert(self.file_chunks_found@[f as int] > self.file_chunk_counts@[f as int]);
                return false;
            }
            f = f + 1;
        }
        true
    }

    /// Counts the files of which all chunks were found, and reports the others.
    /// Files without chunks are passed over.
    pub fn check_file_completeness(&self, stats: &mut VerifyStats, paths: &Vec<String>)
        requires
            self.countable(),
            old(stats).files_verified + self.file_chunk_counts@.len() <= u64::MAX,
            old(stats).files_incomplete + self.file_chunk_counts@.len() <= u64::MAX,
        ensures
            final(stats)@ == self.completeness(
                old(stats)@,
                paths@,
                self.file_chunk_counts@.len(),
            ),
    {
        let ghost start = stats@;
        let n: usize = self.file_chunk_counts.len();
        let mut f: usize = 0;
        while f < n
            invariant
                f <= n,
                n == self.file_chunk_counts@.len(),
                self.countable(),
                start.files_verified + n <= u64::MAX,
                start.files_incomplete + n <= u64::MAX,
                stats@ == self.completeness(start, paths@, f as nat),
                stats.files_verified <= start.files_verified + f,
                stats.files_incomplete <= start.files_incomplete + f,
            decreases n - f,
        {
            let expected: usize = self.file_chunk_counts[f];
            if expected > 0 {
                let found: usize = self.file_chunks_found[f];
                if found == expected {
                    stats.files_verified = stats.files_verified + 1;
                } else {
                    stats.files_incomplete = stats.files_incomplete + 1;
                    let mut m: String = String::from_str("File '");
                    if f < paths.len() {
                        m.append(paths[f].as_str());
                    } else {
                        proof {
                            reveal_strlit("");
                        }
                        m.append("");
                    }
                    assert(m@ =~= "File '"@ + path_at(paths@, f as int));
                    m.append("': missing ");
                    text::push_decimal(&mut m, (expected - found) as u64);
                    m.append(" of ");
                    text::push_decimal(&mut m, expected as u64);
                    m.append(" chunks");
                    stats.report(m);
                }
            }
            f = f + 1;
        }
    }
}

/// The path of file `f`, empty where it is not known.
pub open spec fn path_at(paths: Seq<String>, f: int) -> Seq<char> {
    if 0 <= f < paths.len() {
        paths[f]@
    } else {
        Seq::empty()
    }
}

/// Files are never reported in part: a verification reports no error on the
/// files exactly where every file that needs chunks has all of them.
pub proof fn law_completeness_is_exact(
    c: VerificationContext,
    stats: VerifyView,
    paths: Seq<String>,
    n: nat,
)
    requires
        n <= c.file_chunk_counts@.len(),
        c.countable(),
        stats.files_incomplete + n <= u64::MAX,
    ensures
        c.completeness(stats, paths, n).files_incomplete <= stats.files_incomplete + n,
        c.completeness(stats, paths, n).files_incomplete == stats.files_incomplete <==> (forall|
            f: int,
        |
            0 <= f < n && c.file_chunk_counts@[f] > 0 ==> #[trigger] c.file_chunks_found@[f]
                == c.file_chunk_counts@[f]),
        c.completeness(stats, paths, n).files_incomplete >= stats.files_incomplete,
    decreases n,
{
    if n > 0 {
        law_completeness_is_exact(c, stats, paths, (n - 1) as nat);
        if c.verdict(n - 1) == Some(false) {
            assert(c.file_chunks_found@[n - 1] != c.file_chunk_counts@[n - 1]);
        }
    }
}

/// Each incomplete file is reported by one message, and nothing is reported of
/// the others; each file that is complete is counted.
pub proof fn law_one_message_per_incomplete_file(
    c: VerificationContext,
    stats: VerifyView,
    paths: Seq<String>,
    n: nat,
)
    requires
        n <= c.file_chunk_counts@.len(),
        stats.files_incomplete + n <= u64::MAX,
    ensures
        ({
            let e = c.completeness(stats, paths, n);
            &&& e.errors.len() - stats.errors.len() == e.files_incomplete - stats.files_incomplete
            &&& 0 <= e.files_incomplete - stats.files_incomplete <= n
            &&& e.blocks_verified == stats.blocks_verified
            &&& e.blocks_failed == stats.blocks_failed
            &&& e.bytes_verified == stats.bytes_verified
        }),
    decreases n,
{
    if n > 0 {
        law_one_message_per_incomplete_file(c, stats, paths, (n - 1) as nat);
    }
}

/// Lengths are reported exactly where they differ: a chunk that is as long as
/// every file needs it is not reported, any other one is.
pub proof fn law_other_lengths_are_reported(
    block: u32,
    refs: Seq<ExpectedChunk>,
    len: nat,
    n: nat,
)
    requires
        n <= refs.len(),
    ensures
        length_errors(block, refs, len, n).len() <= n,
        length_errors(block, refs, len, n).len() == 0 <==> (forall|k: int|
            0 <= k < n ==> (#[trigger] refs[k]).length == len),
    decreases n,
{
    if n > 0 {
        law_other_lengths_are_reported(block, refs, len, (n - 1) as nat);
        if refs[n - 1].length != len {
            assert(length_errors(block, refs, len, n).len() > 0);
        }
    }
}

/// A chunk counts once for each file that needs it at its length, and for no
/// other file.
pub proof fn law_chunks_count_for_their_files(refs: Seq<ExpectedChunk>, len: nat, f: int, n: nat)
    requires
        n <= refs.len(),
    ensures
        found_for(refs, len, f, n) > 0 <==> (exists|k: int|
            0 <= k < n && (#[trigger] refs[k]).file == f && refs[k].length == len),
        found_for(refs, len, f, n) == n <==> (forall|k: int|
            0 <= k < n ==> (#[trigger] refs[k]).file == f && refs[k].length == len),
    decreases n,
{
    lemma_found_bound(refs, len, f, n);
    if n > 0 {
        let m = (n - 1) as nat;
        law_chunks_count_for_their_files(refs, len, f, m);
        lemma_found_bound(refs, len, f, m);
        if found_for(refs, len, f, m) > 0 {
            let k = choose|k: int|
                0 <= k < m && (#[trigger] refs[k]).file == f && refs[k].length == len;
            assert(0 <= k < n && refs[k].file == f);
        }
        if refs[n - 1].file == f && refs[n - 1].length == len {
            assert(0 <= n - 1 < n);
        }
    }
}

/// A file is named by its path, and by nothing where its path is not known.
pub proof fn law_files_are_named_by_path(paths: Seq<String>, f: int)
    ensures
        0 <= f < paths.len() ==> path_at(paths, f) == paths[f]@,
        f >= paths.len() ==> path_at(paths, f).len() == 0,
{
}

} // verus!

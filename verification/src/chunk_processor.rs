//! Handing chunks to the files that wait for them, as blocks come in.
use vstd::prelude::*;

use crate::catalog::ChunkRef;
use crate::hash_table::HashTable;
use crate::types::ChunkHash;

verus! {

/// A file that lies in a chunk together with others.
#[derive(Debug, Clone, Copy, PartialEq, Eq, Structural)]
pub struct PackedTarget {
    pub file: usize,
    /// Which of the files of the chunk it is.
    pub member: usize,
}

/// A piece of a file.
#[derive(Debug, Clone, Copy, PartialEq, Eq, Structural)]
pub struct PieceTarget {
    pub file: usize,
    pub chunk: usize,
    pub offset: u64,
}

/// What is done with a chunk that came in.
#[derive(Debug, Clone, Copy, PartialEq, Eq, Structural)]
pub enum WriteAction {
    /// The chunk is the whole file.
    Whole { file: usize },
    /// A member of the chunk is the whole file.
    Packed { file: usize, member: usize },
    /// The chunk is a piece of a file that was created before. The last piece
    /// finishes a file of the given size.
    Piece { file: usize, chunk: usize, offset: u64, finished: Option<u64> },
}

/// A file of several pieces of which not all came in.
#[derive(Debug)]
pub struct MultiChunkState {
    pub expected_size: u64,
    pub chunks_written: Vec<bool>,
    pub total_chunks: usize,
    pub written_count: usize,
}

/// The progress of a file, as a value.
#[verifier::ext_equal]
pub struct FileProgress {
    pub expected_size: u64,
    pub written: Seq<bool>,
    pub total: nat,
    pub count: nat,
}

impl View for MultiChunkState {
    type V = FileProgress;

    open spec fn view(&self) -> FileProgress {
        FileProgress {
            expected_size: self.expected_size,
            written: self.chunks_written@,
            total: self.total_chunks as nat,
            count: self.written_count as nat,
        }
    }
}

/// How many are true.
pub open spec fn trues(s: Seq<bool>) -> nat
    decreases s.len(),
{
    if s.len() == 0 {
        0
    } else {
        trues(s.drop_last()) + if s.last() {
            1nat
        } else {
            0nat
        }
    }
}

proof fn lemma_trues_bound(s: Seq<bool>)
    ensures
        trues(s) <= s.len(),
        trues(s) == s.len() ==> forall|i: int| 0 <= i < s.len() ==> #[trigger] s[i],
    decreases s.len(),
{
    if s.len() > 0 {
        lemma_trues_bound(s.drop_last());
        if trues(s) == s.len() {
            assert forall|i: int| 0 <= i < s.len() implies #[trigger] s[i] by {
                if i < s.len() - 1 {
                    assert(s.drop_last()[i]);
                }
            }
        }
    }
}

proof fn lemma_trues_update(s: Seq<bool>, i: int)
    requires
        0 <= i < s.len(),
        !s[i],
    ensures
        trues(s.update(i, true)) == trues(s) + 1,
    decreases s.len(),
{
    if i == s.len() - 1 {
        assert(s.update(i, true).drop_last() =~= s.drop_last());
    } else {
        lemma_trues_update(s.drop_last(), i);
        assert(s.update(i, true).drop_last() =~= s.drop_last().update(i, true));
    }
}

proof fn lemma_trues_none(s: Seq<bool>)
    requires
        forall|i: int| 0 <= i < s.len() ==> !#[trigger] s[i],
    ensures
        trues(s) == 0,
    decreases s.len(),
{
    if s.len() > 0 {
        assert(!s[s.len() - 1]);
        assert forall|i: int| 0 <= i < s.drop_last().len() implies !#[trigger] s.drop_last()[i] by {
            assert(!s[i]);
        }
        lemma_trues_none(s.drop_last());
    }
}

/// Which chunks are waited for, by their hash.
#[derive(Debug)]
pub struct ExtractionContext {
    /// Files that are one chunk.
    pub single_chunk_pending: HashTable<Vec<usize>>,
    /// Files that lie in a chunk together with others.
    pub packed_chunks: HashTable<Vec<PackedTarget>>,
    /// Files of several pieces; none at a place whose file is finished.
    pub multi_chunk_files: Vec<Option<MultiChunkState>>,
    /// How many of them are not finished.
    pub open_files: usize,
    /// The pieces of those files.
    pub chunk_to_files: HashTable<Vec<PieceTarget>>,
}

/// What is waited for, as a value.
#[verifier::ext_equal]
pub struct ExtractionView {
    pub whole: Map<Seq<u8>, Seq<usize>>,
    pub packed: Map<Seq<u8>, Seq<PackedTarget>>,
    pub files: Map<int, FileProgress>,
    pub pieces: Map<Seq<u8>, Seq<PieceTarget>>,
}

/// The files that are not finished.
pub open spec fn open_ones(files: Seq<Option<MultiChunkState>>) -> Map<int, FileProgress> {
    Map::new(|f: int| 0 <= f < files.len() && files[f] is Some, |f: int| files[f]->0@)
}

/// How many files are not finished.
pub open spec fn open_count(files: Seq<Option<MultiChunkState>>) -> nat
    decreases files.len(),
{
    if files.len() == 0 {
        0
    } else {
        open_count(files.drop_last()) + if files.last() is Some {
            1nat
        } else {
            0nat
        }
    }
}

proof fn lemma_open_count_update(
    files: Seq<Option<MultiChunkState>>,
    i: int,
    x: Option<MultiChunkState>,
)
    requires
        0 <= i < files.len(),
    ensures
        open_count(files.update(i, x)) + (if files[i] is Some {
            1nat
        } else {
            0nat
        }) == open_count(files) + (if x is Some {
            1nat
        } else {
            0nat
        }),
    decreases files.len(),
{
    if i == files.len() - 1 {
        assert(files.update(i, x).drop_last() =~= files.drop_last());
    } else {
        lemma_open_count_update(files.drop_last(), i, x);
        assert(files.update(i, x).drop_last() =~= files.drop_last().update(i, x));
    }
}

proof fn lemma_open_count_zero(files: Seq<Option<MultiChunkState>>)
    ensures
        open_count(files) == 0 <==> open_ones(files) == Map::<int, FileProgress>::empty(),
        open_count(files) <= files.len(),
    decreases files.len(),
{
    if files.len() == 0 {
        assert(open_ones(files) =~= Map::<int, FileProgress>::empty());
    } else {
        let rest = files.drop_last();
        lemma_open_count_zero(rest);
        if files.last() is Some {
            assert(open_ones(files).contains_key(files.len() - 1));
        } else {
            assert(open_ones(files) =~= open_ones(rest));
        }
    }
}

impl View for ExtractionContext {
    type V = ExtractionView;

    open spec fn view(&self) -> ExtractionView {
        ExtractionView {
            whole: self.single_chunk_pending@,
            packed: self.packed_chunks@,
            files: open_ones(self.multi_chunk_files@),
            pieces: self.chunk_to_files@,
        }
    }
}

/// What is listed under `h`, nothing where there is no list.
pub open spec fn list_at<T>(m: Map<Seq<u8>, Seq<T>>, h: Seq<u8>) -> Seq<T> {
    if m.contains_key(h) {
        m[h]
    } else {
        Seq::empty()
    }
}

impl ExtractionView {
    /// Something is waited for.
    pub open spec fn pending(self) -> bool {
        ||| self.whole != Map::<Seq<u8>, Seq<usize>>::empty()
        ||| self.packed != Map::<Seq<u8>, Seq<PackedTarget>>::empty()
        ||| self.files != Map::<int, FileProgress>::empty()
    }

    /// Piece `k` under hash `h` is waited for.
    pub open spec fn waits(self, h: Seq<u8>, k: int) -> bool {
        self.pieces.contains_key(h) && 0 <= k < self.pieces[h].len()
    }

    /// A piece that is waited for belongs to an open file and was not written.
    pub open spec fn piece_is_open(self, h: Seq<u8>, k: int) -> bool {
        let t = self.pieces[h][k];
        let s = self.files[t.file as int];
        &&& self.files.contains_key(t.file as int)
        &&& t.chunk < s.written.len()
        &&& !s.written[t.chunk as int]
    }

    /// Chunk `c` of file `f` is waited for.
    pub open spec fn awaited(self, f: int, c: int) -> bool {
        exists|h: Seq<u8>, k: int|
            #[trigger] self.waits(h, k) && self.pieces[h][k].file == f && self.pieces[h][k].chunk
                == c
    }

    /// The count of a file is right, and something is missing of it.
    pub open spec fn file_is_open(self, f: int) -> bool {
        let s = self.files[f];
        &&& s.total == s.written.len()
        &&& s.count == trues(s.written)
        &&& s.count < s.total
    }

    /// No piece is waited for twice.
    pub open spec fn pieces_are_apart(self) -> bool {
        forall|h: Seq<u8>, k: int, g: Seq<u8>, l: int|
            #![trigger self.waits(h, k), self.waits(g, l)]
            self.waits(h, k) && self.waits(g, l) && self.pieces[h][k].file
                == self.pieces[g][l].file && self.pieces[h][k].chunk == self.pieces[g][l].chunk
                ==> h == g && k == l
    }

    /// Every piece of an open file was written or is waited for, of a file
    /// that is being registered only the first `n` pieces.
    pub open spec fn covered(self, newest: Option<int>, n: int) -> bool {
        forall|f: int, c: int|
            #![trigger self.files[f].written[c]]
            self.files.contains_key(f) && 0 <= c < self.files[f].written.len() && (newest == Some(f) ==> c
                < n) ==> self.files[f].written[c] || self.awaited(f, c)
    }

    /// The pieces that are waited for are exactly those that are missing.
    pub open spec fn wf_up_to(self, newest: Option<int>, n: int) -> bool {
        &&& forall|h: Seq<u8>, k: int| #[trigger] self.waits(h, k) ==> self.piece_is_open(h, k)
        &&& self.pieces_are_apart()
        &&& forall|f: int| #[trigger] self.files.contains_key(f) ==> self.file_is_open(f)
        &&& self.covered(newest, n)
    }

    pub open spec fn wf(self) -> bool {
        self.wf_up_to(None, 0)
    }

    /// The file of the first piece under `h`, once that piece is written.
    pub open spec fn advanced(self, h: Seq<u8>) -> FileProgress {
        let t = self.pieces[h][0];
        let s = self.files[t.file as int];
        FileProgress {
            written: s.written.update(t.chunk as int, true),
            count: s.count + 1,
            ..s
        }
    }

    /// After the first piece under `h` was written.
    pub open spec fn take_piece(self, h: Seq<u8>) -> ExtractionView {
        let t = self.pieces[h][0];
        let s = self.advanced(h);
        ExtractionView {
            files: if s.count == s.total {
                self.files.remove(t.file as int)
            } else {
                self.files.insert(t.file as int, s)
            },
            pieces: self.pieces.insert(h, self.pieces[h].skip(1)),
            ..self
        }
    }

    /// What is done with the first piece under `h`.
    pub open spec fn piece_action(self, h: Seq<u8>) -> WriteAction {
        let t = self.pieces[h][0];
        let s = self.advanced(h);
        WriteAction::Piece {
            file: t.file,
            chunk: t.chunk,
            offset: t.offset,
            finished: if s.count == s.total {
                Some(s.expected_size)
            } else {
                None
            },
        }
    }

    /// After all pieces under `h` were written.
    pub open spec fn take_pieces(self, h: Seq<u8>, n: nat) -> ExtractionView
        decreases n,
    {
        if n == 0 {
            self
        } else {
            self.take_pieces(h, (n - 1) as nat).take_piece(h)
        }
    }

    /// What is done with the first `n` pieces under `h`.
    pub open spec fn piece_actions(self, h: Seq<u8>, n: nat) -> Seq<WriteAction>
        decreases n,
    {
        if n == 0 {
            Seq::empty()
        } else {
            self.piece_actions(h, (n - 1) as nat).push(
                self.take_pieces(h, (n - 1) as nat).piece_action(h),
            )
        }
    }

    /// After the chunk with hash `h` came in.
    pub open spec fn process(self, h: Seq<u8>) -> ExtractionView {
        let base = ExtractionView {
            whole: self.whole.remove(h),
            packed: self.packed.remove(h),
            ..self
        };
        let after = base.take_pieces(h, list_at(self.pieces, h).len());
        ExtractionView { pieces: after.pieces.remove(h), ..after }
    }

    /// What is done with the chunk with hash `h`: first the files that it is,
    /// then those that it holds, then those that it is a piece of.
    pub open spec fn actions(self, h: Seq<u8>) -> Seq<WriteAction> {
        list_at(self.whole, h).map_values(|f: usize| WriteAction::Whole { file: f })
            + list_at(self.packed, h).map_values(
            |t: PackedTarget| WriteAction::Packed { file: t.file, member: t.member },
        ) + self.piece_actions(h, list_at(self.pieces, h).len())
    }
}

proof fn lemma_take_piece(v: ExtractionView, h: Seq<u8>)
    requires
        v.wf(),
        v.waits(h, 0),
    ensures
        v.take_piece(h).wf(),
        ({
            let s = v.advanced(h);
            s.count == s.total ==> forall|c: int|
                0 <= c < s.written.len() ==> #[trigger] s.written[c]
        }),
{
    let w = v.take_piece(h);
    let t = v.pieces[h][0];
    let f = t.file as int;
    let c = t.chunk as int;
    let s = v.advanced(h);
    assert(v.piece_is_open(h, 0));
    assert(v.file_is_open(f));
    lemma_trues_update(v.files[f].written, c);
    lemma_trues_bound(s.written);
    // A waiting piece of `w` waited in `v` too.
    assert forall|g: Seq<u8>, k: int| #[trigger] w.waits(g, k) implies {
        let m = if g == h {
            k + 1
        } else {
            k
        };
        &&& v.waits(g, m)
        &&& w.pieces[g][k] == v.pieces[g][m]
        &&& !(g == h && m == 0)
    } by {}
    assert forall|g: Seq<u8>, k: int| #[trigger] w.waits(g, k) implies w.piece_is_open(g, k) by {
        let m = if g == h {
            k + 1
        } else {
            k
        };
        assert(v.waits(g, m));
        assert(v.piece_is_open(g, m));
        let u = v.pieces[g][m];
        if u.file == t.file {
            assert(u.chunk != t.chunk);
            assert(!s.written[u.chunk as int]);
        }
    }
    assert forall|g: Seq<u8>, k: int, g2: Seq<u8>, l: int|
        #![trigger w.waits(g, k), w.waits(g2, l)]
        w.waits(g, k) && w.waits(g2, l) && w.pieces[g][k].file == w.pieces[g2][l].file
            && w.pieces[g][k].chunk == w.pieces[g2][l].chunk implies g == g2 && k == l by {
        let m = if g == h {
            k + 1
        } else {
            k
        };
        let m2 = if g2 == h {
            l + 1
        } else {
            l
        };
        assert(v.waits(g, m) && v.waits(g2, m2));
    }
    assert forall|f2: int, c2: int|
        #![trigger w.files[f2].written[c2]]
        w.files.contains_key(f2) && 0 <= c2 < w.files[f2].written.len() implies
        w.files[f2].written[c2] || w.awaited(f2, c2) by {
        if !(f2 == f && c2 == c) {
            assert(v.files.contains_key(f2));
            if f2 == f {
                assert(w.files[f2].written[c2] == v.files[f2].written[c2]);
            }
            assert(v.files[f2].written[c2] || v.awaited(f2, c2));
            if v.awaited(f2, c2) {
                let (g, m) = choose|g: Seq<u8>, m: int|
                    #[trigger] v.waits(g, m) && v.pieces[g][m].file == f2 && v.pieces[g][m].chunk
                        == c2;
                let k = if g == h {
                    m - 1
                } else {
                    m
                };
                assert(w.waits(g, k));
                assert(w.pieces[g][k] == v.pieces[g][m]);
            }
        }
    }
}

/// A file is finished exactly when all its pieces were written, and no piece
/// is written twice.
pub proof fn law_files_finish_whole(v: ExtractionView, h: Seq<u8>)
    requires
        v.wf(),
        v.waits(h, 0),
    ensures
        ({
            let t = v.pieces[h][0];
            let s = v.advanced(h);
            &&& !v.files[t.file as int].written[t.chunk as int]
            &&& (v.piece_action(h)->finished is Some) <==> (forall|c: int|
                0 <= c < s.written.len() ==> #[trigger] s.written[c])
            &&& (v.piece_action(h)->finished is Some) <==> !v.take_piece(h).files.contains_key(
                t.file as int,
            )
        }),
{
    let t = v.pieces[h][0];
    let s = v.advanced(h);
    lemma_take_piece(v, h);
    assert(v.piece_is_open(h, 0));
    assert(v.file_is_open(t.file as int));
    lemma_trues_update(v.files[t.file as int].written, t.chunk as int);
    if forall|c: int| 0 <= c < s.written.len() ==> #[trigger] s.written[c] {
        lemma_all_true(s.written);
    }
}

pub(crate) proof fn lemma_all_true(s: Seq<bool>)
    requires
        forall|c: int| 0 <= c < s.len() ==> #[trigger] s[c],
    ensures
        trues(s) == s.len(),
    decreases s.len(),
{
    if s.len() > 0 {
        assert(s[s.len() - 1]);
        assert forall|c: int| 0 <= c < s.drop_last().len() implies #[trigger] s.drop_last()[c] by {
            assert(s[c]);
        }
        lemma_all_true(s.drop_last());
    }
}

/// Once no piece is waited for any more, no file of several pieces is open.
pub proof fn law_no_piece_no_open_file(v: ExtractionView)
    requires
        v.wf(),
        forall|h: Seq<u8>, k: int| !#[trigger] v.waits(h, k),
    ensures
        v.files == Map::<int, FileProgress>::empty(),
{
    assert forall|f: int| !#[trigger] v.files.contains_key(f) by {
        if v.files.contains_key(f) {
            let s = v.files[f];
            assert(v.file_is_open(f));
            assert forall|c: int| 0 <= c < s.written.len() implies #[trigger] s.written[c] by {
                assert(v.files[f].written[c] || v.awaited(f, c));
            }
            lemma_all_true(s.written);
        }
    }
    assert(v.files =~= Map::<int, FileProgress>::empty());
}

pub(crate) proof fn lemma_take_pieces(v: ExtractionView, h: Seq<u8>, n: nat)
    requires
        v.wf(),
        n <= list_at(v.pieces, h).len(),
    ensures
        v.take_pieces(h, n).wf(),
        list_at(v.take_pieces(h, n).pieces, h) == list_at(v.pieces, h).skip(n as int),
        v.take_pieces(h, n).whole == v.whole,
        v.take_pieces(h, n).packed == v.packed,
        v.take_pieces(h, n).pieces.remove(h) == v.pieces.remove(h),
    decreases n,
{
    if n == 0 {
        assert(list_at(v.pieces, h).skip(0) =~= list_at(v.pieces, h));
    } else {
        lemma_take_pieces(v, h, (n - 1) as nat);
        let u = v.take_pieces(h, (n - 1) as nat);
        assert(list_at(u.pieces, h).len() > 0);
        assert(u.waits(h, 0));
        lemma_take_piece(u, h);
        assert(u.pieces[h].skip(1) =~= list_at(v.pieces, h).skip(n as int));
        assert(u.take_piece(h).pieces.remove(h) =~= u.pieces.remove(h));
    }
}

/// What is waited for stays consistent, and a chunk is not waited for once it
/// came in.
pub proof fn law_process_keeps_order(v: ExtractionView, h: Seq<u8>)
    requires
        v.wf(),
    ensures
        v.process(h).wf(),
        !v.process(h).whole.contains_key(h),
        !v.process(h).packed.contains_key(h),
        v.process(h).pieces == v.pieces.remove(h),
{
    let base = ExtractionView { whole: v.whole.remove(h), packed: v.packed.remove(h), ..v };
    lemma_same_pieces(v, base);
    let n = list_at(v.pieces, h).len();
    lemma_take_pieces(base, h, n);
    let u = base.take_pieces(h, n);
    let w = v.process(h);
    assert(list_at(u.pieces, h).len() == 0);
    assert forall|g: Seq<u8>, k: int| #[trigger] w.waits(g, k) == u.waits(g, k) by {}
    assert forall|g: Seq<u8>, k: int| #[trigger] w.waits(g, k) implies w.piece_is_open(g, k) by {
        assert(u.waits(g, k));
        assert(u.piece_is_open(g, k));
    }
    assert(w.pieces_are_apart()) by {
        assert forall|g: Seq<u8>, k: int, g2: Seq<u8>, l: int|
            #![trigger w.waits(g, k), w.waits(g2, l)]
            w.waits(g, k) && w.waits(g2, l) && w.pieces[g][k].file == w.pieces[g2][l].file
                && w.pieces[g][k].chunk == w.pieces[g2][l].chunk implies g == g2 && k == l by {
            assert(u.waits(g, k) && u.waits(g2, l));
        }
    }
    assert forall|f: int| #[trigger] w.files.contains_key(f) implies w.file_is_open(f) by {
        assert(u.files.contains_key(f));
        assert(u.file_is_open(f));
    }
    assert forall|f: int, c: int|
        #![trigger w.files[f].written[c]]
        w.files.contains_key(f) && 0 <= c < w.files[f].written.len() implies
        w.files[f].written[c] || w.awaited(f, c) by {
        assert(u.files[f].written[c] || u.awaited(f, c));
        if u.awaited(f, c) {
            let (g, k) = choose|g: Seq<u8>, k: int|
                #[trigger] u.waits(g, k) && u.pieces[g][k].file == f && u.pieces[g][k].chunk == c;
            assert(w.waits(g, k));
        }
    }
}

pub(crate) proof fn lemma_same_pieces(v: ExtractionView, w: ExtractionView)
    requires
        v.wf(),
        w.files == v.files,
        w.pieces == v.pieces,
    ensures
        w.wf(),
{
    assert forall|g: Seq<u8>, k: int| #[trigger] w.waits(g, k) == v.waits(g, k) by {}
    assert forall|g: Seq<u8>, k: int| #[trigger] w.waits(g, k) implies w.piece_is_open(g, k) by {
        assert(v.waits(g, k));
        assert(v.piece_is_open(g, k));
    }
    assert forall|g: Seq<u8>, k: int, g2: Seq<u8>, l: int|
        #![trigger w.waits(g, k), w.waits(g2, l)]
        w.waits(g, k) && w.waits(g2, l) && w.pieces[g][k].file == w.pieces[g2][l].file
            && w.pieces[g][k].chunk == w.pieces[g2][l].chunk implies g == g2 && k == l by {
        assert(v.waits(g, k) && v.waits(g2, l));
    }
    assert forall|f: int| #[trigger] w.files.contains_key(f) implies w.file_is_open(f) by {
        assert(v.file_is_open(f));
    }
    assert forall|f: int, c: int|
        #![trigger w.files[f].written[c]]
        w.files.contains_key(f) && 0 <= c < w.files[f].written.len() implies
        w.files[f].written[c] || w.awaited(f, c) by {
        assert(v.files[f].written[c] || v.awaited(f, c));
        if v.awaited(f, c) {
            let (g, k) = choose|g: Seq<u8>, k: int|
                #[trigger] v.waits(g, k) && v.pieces[g][k].file == f && v.pieces[g][k].chunk == c;
            assert(w.waits(g, k));
        }
    }
}

impl ExtractionContext {
    pub open spec fn wf(&self) -> bool {
        &&& self.single_chunk_pending.wf()
        &&& self.packed_chunks.wf()
        &&& self.chunk_to_files.wf()
        &&& self.open_files == open_count(self.multi_chunk_files@)
        &&& self@.wf()
    }

    pub fn new() -> (c: Self)
        ensures
            c.wf(),
            c@.whole == Map::<Seq<u8>, Seq<usize>>::empty(),
            c@.packed == Map::<Seq<u8>, Seq<PackedTarget>>::empty(),
            c@.files == Map::<int, FileProgress>::empty(),
            c@.pieces == Map::<Seq<u8>, Seq<PieceTarget>>::empty(),
    {
        let c = ExtractionContext {
            single_chunk_pending: HashTable::new(),
            packed_chunks: HashTable::new(),
            multi_chunk_files: Vec::new(),
            open_files: 0,
            chunk_to_files: HashTable::new(),
        };
        assert(c@.files =~= Map::<int, FileProgress>::empty());
        c
    }

    /// Whether something is waited for.
    pub fn has_pending(&self) -> (r: bool)
        requires
            self.wf(),
        ensures
            r == self@.pending(),
    {
        proof {
            lemma_open_count_zero(self.multi_chunk_files@);
        }
        !self.single_chunk_pending.is_empty() || !self.packed_chunks.is_empty() || self.open_files
            > 0
    }

    fn write_piece(&mut self, target: PieceTarget, Ghost(rest): Ghost<Seq<PieceTarget>>, Ghost(
        h,
    ): Ghost<Seq<u8>>) -> (action: WriteAction)
        requires
            old(self).open_files == open_count(old(self).multi_chunk_files@),
            ({
                let v = ExtractionView {
                    pieces: old(self).chunk_to_files@.insert(h, seq![target] + rest),
                    ..old(self)@
                };
                v.wf()
            }),
        ensures
            final(self).open_files == open_count(final(self).multi_chunk_files@),
            final(self).single_chunk_pending == old(self).single_chunk_pending,
            final(self).packed_chunks == old(self).packed_chunks,
            final(self).chunk_to_files == old(self).chunk_to_files,
            ({
                let v = ExtractionView {
                    pieces: old(self).chunk_to_files@.insert(h, seq![target] + rest),
                    ..old(self)@
                };
                &&& final(self)@.files == v.take_piece(h).files
                &&& action == v.piece_action(h)
            }),
    {
        let ghost v = ExtractionView {
            pieces: self.chunk_to_files@.insert(h, seq![target] + rest),
            ..self@
        };
        let ghost before = self.multi_chunk_files@;
        proof {
            assert(v.waits(h, 0));
            assert(v.piece_is_open(h, 0));
            assert(v.pieces[h][0] == target);
            assert(v.file_is_open(target.file as int));
            lemma_take_piece(v, h);
            lemma_open_count_zero(before);
        }
        let mut finished: Option<u64> = None;
        let slot = self.multi_chunk_files[target.file].take();
        let ghost mid = self.multi_chunk_files@;
        assert(mid =~= before.update(target.file as int, None));
        match slot {
            Some(mut state) => {
                state.chunks_written.set(target.chunk, true);
                state.written_count = state.written_count + 1;
                assert(state@ =~= v.advanced(h));
                if state.written_count == state.total_chunks {
                    finished = Some(state.expected_size);
                    proof {
                        lemma_open_count_update(before, target.file as int, None);
                    }
                    self.open_files = self.open_files - 1;
                    assert(self@.files =~= v.take_piece(h).files);
                } else {
                    let ghost kept = state;
                    self.multi_chunk_files.set(target.file, Some(state));
                    proof {
                        assert(self.multi_chunk_files@ =~= before.update(
                            target.file as int,
                            Some(kept),
                        ));
                        lemma_open_count_update(before, target.file as int, Some(kept));
                    }
                    assert(self@.files =~= v.take_piece(h).files);
                }
            },
            None => {},
        }
        WriteAction::Piece {
            file: target.file,
            chunk: target.chunk,
            offset: target.offset,
            finished,
        }
    }

    /// Takes note of a chunk that came in: what is done with it, in order.
    pub fn process_chunk(&mut self, hash: &ChunkHash) -> (actions: Vec<WriteAction>)
        requires
            old(self).wf(),
        ensures
            final(self).wf(),
            final(self)@ == old(self)@.process(hash@),
            actions@ == old(self)@.actions(hash@),
    {
        let ghost v = self@;
        let ghost h = hash@;
        proof {
            law_process_keeps_order(v, h);
        }
        let mut actions: Vec<WriteAction> = Vec::new();
        let ghost wholes = list_at(v.whole, h).map_values(|f: usize| WriteAction::Whole { file: f });
        match self.single_chunk_pending.take(hash) {
            Some(files) => {
                let mut i: usize = 0;
                while i < files.len()
                    invariant
                        i <= files@.len(),
                        files@ == list_at(v.whole, h),
                        wholes == list_at(v.whole, h).map_values(
                            |f: usize| WriteAction::Whole { file: f },
                        ),
                        actions@ == wholes.take(i as int),
                    decreases files@.len() - i,
                {
                    actions.push(WriteAction::Whole { file: files[i] });
                    assert(wholes.take(i + 1) =~= wholes.take(i as int).push(wholes[i as int]));
                    i = i + 1;
                }
            },
            None => {},
        }
        assert(actions@ =~= wholes);
        let ghost members = list_at(v.packed, h).map_values(
            |t: PackedTarget| WriteAction::Packed { file: t.file, member: t.member },
        );
        assert(actions@ + members.take(0) =~= actions@);
        match self.packed_chunks.take(hash) {
            Some(targets) => {
                let mut i: usize = 0;
                while i < targets.len()
                    invariant
                        i <= targets@.len(),
                        targets@ == list_at(v.packed, h),
                        members == list_at(v.packed, h).map_values(
                            |t: PackedTarget|
                                WriteAction::Packed { file: t.file, member: t.member },
                        ),
                        actions@ == wholes + members.take(i as int),
                    decreases targets@.len() - i,
                {
                    actions.push(
                        WriteAction::Packed { file: targets[i].file, member: targets[i].member },
                    );
                    assert(members.take(i + 1) =~= members.take(i as int).push(members[i as int]));
                    assert(actions@ =~= wholes + members.take(i + 1));
                    i = i + 1;
                }
                assert(members.take(members.len() as int) =~= members);
            },
            None => {
                assert(members =~= Seq::empty());
            },
        }
        let ghost base = ExtractionView {
            whole: v.whole.remove(h),
            packed: v.packed.remove(h),
            ..v
        };
        let ghost all = list_at(v.pieces, h);
        assert(actions@ =~= wholes + members);
        proof {
            lemma_same_pieces(v, base);
            lemma_take_pieces(base, h, 0);
            assert(wholes + members + base.piece_actions(h, 0) =~= wholes + members);
        }
        match self.chunk_to_files.take(hash) {
            Some(targets) => {
                let mut i: usize = 0;
                while i < targets.len()
                    invariant
                        i <= targets@.len(),
                        targets@ == all,
                        all == list_at(base.pieces, h),
                        base.wf(),
                        base.pieces.contains_key(h),
                        self.single_chunk_pending.wf(),
                        self.packed_chunks.wf(),
                        self.chunk_to_files.wf(),
                        self.open_files == open_count(self.multi_chunk_files@),
                        self@.whole == base.whole,
                        self@.packed == base.packed,
                        self@.pieces == base.pieces.remove(h),
                        self@.files == base.take_pieces(h, i as nat).files,
                        actions@ == wholes + members + base.piece_actions(h, i as nat),
                    decreases targets@.len() - i,
                {
                    let ghost u = base.take_pieces(h, i as nat);
                    let ghost rest = all.skip(i + 1);
                    proof {
                        lemma_take_pieces(base, h, i as nat);
                        assert(all.skip(i as int) =~= seq![targets@[i as int]] + rest);
                        lemma_pieces_have(base, h, i as nat);
                        assert(u.pieces =~= u.pieces.remove(h).insert(h, all.skip(i as int)));
                        assert(u =~= ExtractionView {
                            pieces: self.chunk_to_files@.insert(h, seq![targets@[i as int]] + rest),
                            ..self@
                        });
                    }
                    let action = self.write_piece(targets[i], Ghost(rest), Ghost(h));
                    actions.push(action);
                    assert(base.take_pieces(h, (i + 1) as nat) == u.take_piece(h));
                    assert(actions@ =~= wholes + members + base.piece_actions(h, (i + 1) as nat));
                    i = i + 1;
                }
                proof {
                    lemma_take_pieces(base, h, all.len());
                }
            },
            None => {
                assert(base.pieces.remove(h) =~= base.pieces);
            },
        }
        assert(v.piece_actions(h, all.len()) == base.piece_actions(h, all.len())) by {
            lemma_actions_ignore_others(v, base, h, all.len());
        }
        assert(self@ =~= v.process(h));
        actions
    }
}

/// The list under `h` with `x` at its end.
pub open spec fn listed_under<T>(m: Map<Seq<u8>, Seq<T>>, h: Seq<u8>, x: T) -> Map<
    Seq<u8>,
    Seq<T>,
> {
    m.insert(h, list_at(m, h).push(x))
}

/// The piece of file `file` that chunk `c` of its list is.
pub open spec fn piece_of(file: usize, chunks: Seq<ChunkRef>, c: int) -> PieceTarget {
    PieceTarget { file, chunk: c as usize, offset: chunks[c].offset }
}

/// The lists of pieces with the first `n` pieces of file `file`.
pub open spec fn with_pieces(
    m: Map<Seq<u8>, Seq<PieceTarget>>,
    file: usize,
    chunks: Seq<ChunkRef>,
    n: nat,
) -> Map<Seq<u8>, Seq<PieceTarget>>
    decreases n,
{
    if n == 0 {
        m
    } else {
        listed_under(
            with_pieces(m, file, chunks, (n - 1) as nat),
            chunks[n - 1].hash@,
            piece_of(file, chunks, n - 1),
        )
    }
}

/// A file of which nothing was written.
pub open spec fn untouched(size: u64, n: nat) -> FileProgress {
    FileProgress { expected_size: size, written: Seq::new(n, |c: int| false), total: n, count: 0 }
}

pub(crate) proof fn lemma_add_file(v: ExtractionView, file: int, size: u64, n: nat)
    requires
        v.wf(),
        !v.files.contains_key(file),
        n > 0,
    ensures
        (ExtractionView { files: v.files.insert(file, untouched(size, n)), ..v }).wf_up_to(
            Some(file),
            0,
        ),
{
    let w = ExtractionView { files: v.files.insert(file, untouched(size, n)), ..v };
    lemma_trues_none(w.files[file].written);
    assert forall|h: Seq<u8>, k: int| #[trigger] w.waits(h, k) implies w.piece_is_open(h, k) by {
        assert(v.waits(h, k));
        assert(v.piece_is_open(h, k));
    }
    assert forall|g: Seq<u8>, k: int, g2: Seq<u8>, l: int|
        #![trigger w.waits(g, k), w.waits(g2, l)]
        w.waits(g, k) && w.waits(g2, l) && w.pieces[g][k].file == w.pieces[g2][l].file
            && w.pieces[g][k].chunk == w.pieces[g2][l].chunk implies g == g2 && k == l by {
        assert(v.waits(g, k) && v.waits(g2, l));
    }
    assert forall|f: int| #[trigger] w.files.contains_key(f) implies w.file_is_open(f) by {
        if f != file {
            assert(v.file_is_open(f));
        }
    }
    assert forall|f: int, c: int|
        #![trigger w.files[f].written[c]]
        w.files.contains_key(f) && 0 <= c < w.files[f].written.len() && (Some(file) == Some(f)
            ==> c < 0) implies w.files[f].written[c] || w.awaited(f, c) by {
        assert(v.files[f].written[c] || v.awaited(f, c));
        if v.awaited(f, c) {
            let (g, k) = choose|g: Seq<u8>, k: int|
                #[trigger] v.waits(g, k) && v.pieces[g][k].file == f && v.pieces[g][k].chunk == c;
            assert(w.waits(g, k));
        }
    }
}

pub(crate) proof fn lemma_add_piece(v: ExtractionView, h: Seq<u8>, t: PieceTarget)
    requires
        v.wf_up_to(Some(t.file as int), t.chunk as int),
        v.files.contains_key(t.file as int),
        t.chunk < v.files[t.file as int].written.len(),
        !v.files[t.file as int].written[t.chunk as int],
        forall|g: Seq<u8>, k: int|
            #[trigger] v.waits(g, k) && v.pieces[g][k].file == t.file ==> v.pieces[g][k].chunk
                < t.chunk,
    ensures
        (ExtractionView { pieces: listed_under(v.pieces, h, t), ..v }).wf_up_to(
            Some(t.file as int),
            t.chunk + 1,
        ),
{
    let w = ExtractionView { pieces: listed_under(v.pieces, h, t), ..v };
    let end = list_at(v.pieces, h).len() as int;
    assert forall|g: Seq<u8>, k: int| #[trigger] w.waits(g, k) implies (g == h && k == end) || (
    v.waits(g, k) && w.pieces[g][k] == v.pieces[g][k]) by {}
    assert(w.waits(h, end) && w.pieces[h][end] == t);
    assert forall|g: Seq<u8>, k: int| #[trigger] w.waits(g, k) implies w.piece_is_open(g, k) by {
        if !(g == h && k == end) {
            assert(v.waits(g, k));
            assert(v.piece_is_open(g, k));
        }
    }
    assert forall|g: Seq<u8>, k: int, g2: Seq<u8>, l: int|
        #![trigger w.waits(g, k), w.waits(g2, l)]
        w.waits(g, k) && w.waits(g2, l) && w.pieces[g][k].file == w.pieces[g2][l].file
            && w.pieces[g][k].chunk == w.pieces[g2][l].chunk implies g == g2 && k == l by {
        if !(g == h && k == end) {
            assert(v.waits(g, k));
        }
        if !(g2 == h && l == end) {
            assert(v.waits(g2, l));
        }
    }
    assert forall|f: int| #[trigger] w.files.contains_key(f) implies w.file_is_open(f) by {
        assert(v.file_is_open(f));
    }
    assert forall|f: int, c: int|
        #![trigger w.files[f].written[c]]
        w.files.contains_key(f) && 0 <= c < w.files[f].written.len() && (Some(t.file as int)
            == Some(f) ==> c < t.chunk + 1) implies w.files[f].written[c] || w.awaited(f, c) by {
        if !(f == t.file && c == t.chunk) {
            assert(v.files[f].written[c] || v.awaited(f, c));
            if v.awaited(f, c) {
                let (g, k) = choose|g: Seq<u8>, k: int|
                    #[trigger] v.waits(g, k) && v.pieces[g][k].file == f && v.pieces[g][k].chunk
                        == c;
                assert(w.waits(g, k));
                assert(w.pieces[g][k] == v.pieces[g][k]);
            }
        }
    }
}

impl ExtractionContext {
    /// Waits for a chunk that is a whole file.
    pub fn expect_whole(&mut self, hash: ChunkHash, file: usize)
        requires
            old(self).wf(),
        ensures
            final(self).wf(),
            final(self)@ == (ExtractionView {
                whole: listed_under(old(self)@.whole, hash@, file),
                ..old(self)@
            }),
    {
        let ghost v = self@;
        let mut files: Vec<usize> = match self.single_chunk_pending.take(&hash) {
            Some(l) => l,
            None => Vec::new(),
        };
        assert(files@ =~= list_at(v.whole, hash@));
        files.push(file);
        self.single_chunk_pending.insert(hash, files);
        assert(self@.whole =~= listed_under(v.whole, hash@, file));
        proof {
            lemma_same_pieces(v, self@);
        }
    }

    /// Waits for a chunk that holds a whole file.
    pub fn expect_packed(&mut self, hash: ChunkHash, file: usize, member: usize)
        requires
            old(self).wf(),
        ensures
            final(self).wf(),
            final(self)@ == (ExtractionView {
                packed: listed_under(old(self)@.packed, hash@, PackedTarget { file, member }),
                ..old(self)@
            }),
    {
        let ghost v = self@;
        let mut targets: Vec<PackedTarget> = match self.packed_chunks.take(&hash) {
            Some(l) => l,
            None => Vec::new(),
        };
        assert(targets@ =~= list_at(v.packed, hash@));
        targets.push(PackedTarget { file, member });
        self.packed_chunks.insert(hash, targets);
        assert(self@.packed =~= listed_under(v.packed, hash@, PackedTarget { file, member }));
        proof {
            lemma_same_pieces(v, self@);
        }
    }

    /// Waits for the pieces of a file.
    pub fn expect_pieces(&mut self, file: usize, size: u64, chunks: &Vec<ChunkRef>)
        requires
            old(self).wf(),
            !old(self)@.files.contains_key(file as int),
            file < usize::MAX,
            chunks@.len() > 0,
        ensures
            final(self).wf(),
            final(self)@ == (ExtractionView {
                files: old(self)@.files.insert(file as int, untouched(size, chunks@.len())),
                pieces: with_pieces(old(self)@.pieces, file, chunks@, chunks@.len()),
                ..old(self)@
            }),
    {
        let ghost v = self@;
        let n: usize = chunks.len();
        while self.multi_chunk_files.len() <= file
            invariant
                file < usize::MAX,
                self.open_files == open_count(self.multi_chunk_files@),
                self.single_chunk_pending == old(self).single_chunk_pending,
                self.packed_chunks == old(self).packed_chunks,
                self.chunk_to_files == old(self).chunk_to_files,
                self@.files == v.files,
            decreases file + 1 - self.multi_chunk_files@.len(),
        {
            let ghost before = self.multi_chunk_files@;
            self.multi_chunk_files.push(None);
            proof {
                assert(self.multi_chunk_files@.drop_last() =~= before);
                assert(self@.files =~= v.files);
            }
        }
        let mut flags: Vec<bool> = Vec::new();
        let mut j: usize = 0;
        while j < n
            invariant
                j <= n,
                flags@ == Seq::new(j as nat, |c: int| false),
            decreases n - j,
        {
            flags.push(false);
            assert(flags@ =~= Seq::new((j + 1) as nat, |c: int| false));
            j = j + 1;
        }
        let state = MultiChunkState {
            expected_size: size,
            chunks_written: flags,
            total_chunks: n,
            written_count: 0,
        };
        assert(state@ =~= untouched(size, n as nat));
        let ghost before = self.multi_chunk_files@;
        let ghost kept = state;
        proof {
            if before[file as int] is Some {
                assert(self@.files.contains_key(file as int));
            }
            lemma_open_count_zero(before);
            lemma_open_count_update(before, file as int, Some(kept));
            lemma_open_count_zero(before.update(file as int, Some(kept)));
        }
        let len: usize = self.multi_chunk_files.len();
        assert(open_count(before.update(file as int, Some(kept))) <= len);
        self.multi_chunk_files.set(file, Some(state));
        self.open_files = self.open_files + 1;
        let ghost files = v.files.insert(file as int, untouched(size, n as nat));
        proof {
            assert(self.multi_chunk_files@ =~= before.update(file as int, Some(kept)));
            assert(self@.files =~= files);
            lemma_add_file(v, file as int, size, n as nat);
            assert(self@ =~= ExtractionView { files, ..v });
            assert forall|g: Seq<u8>, k: int| #[trigger] v.waits(g, k) implies v.pieces[g][k].file
                != file by {
                assert(v.piece_is_open(g, k));
            }
            assert forall|g: Seq<u8>, k: int| #[trigger] self@.waits(g, k) implies
                self@.pieces[g][k].file != file by {
                assert(v.waits(g, k));
            }
        }
        let mut i: usize = 0;
        while i < n
            invariant
                i <= n,
                n == chunks@.len(),
                self.single_chunk_pending == old(self).single_chunk_pending,
                self.packed_chunks == old(self).packed_chunks,
                self.single_chunk_pending.wf(),
                self.packed_chunks.wf(),
                self.chunk_to_files.wf(),
                self.open_files == open_count(self.multi_chunk_files@),
                v == old(self)@,
                files == v.files.insert(file as int, untouched(size, n as nat)),
                self@.files == files,
                self@.pieces == with_pieces(v.pieces, file, chunks@, i as nat),
                self@.wf_up_to(Some(file as int), i as int),
                forall|g: Seq<u8>, k: int|
                    #[trigger] self@.waits(g, k) && self@.pieces[g][k].file == file
                        ==> self@.pieces[g][k].chunk < i,
            decreases n - i,
        {
            let ghost u = self@;
            let hash = chunks[i].hash;
            let target = PieceTarget { file, chunk: i, offset: chunks[i].offset };
            proof {
                lemma_add_piece(u, hash@, target);
            }
            let mut targets: Vec<PieceTarget> = match self.chunk_to_files.take(&hash) {
                Some(l) => l,
                None => Vec::new(),
            };
            assert(targets@ =~= list_at(u.pieces, hash@));
            targets.push(target);
            self.chunk_to_files.insert(hash, targets);
            proof {
                assert(target == piece_of(file, chunks@, i as int));
                assert(self@.pieces =~= listed_under(u.pieces, hash@, target));
                assert(self@ =~= ExtractionView {
                    pieces: listed_under(u.pieces, hash@, target),
                    ..u
                });
                assert forall|g: Seq<u8>, k: int|
                    #[trigger] self@.waits(g, k) && self@.pieces[g][k].file
                        == file implies self@.pieces[g][k].chunk < i + 1 by {
                    if !(g == hash@ && k == list_at(u.pieces, hash@).len()) {
                        assert(u.waits(g, k));
                    }
                }
            }
            i = i + 1;
        }
        proof {
            let w = self@;
            assert(w.covered(None, 0)) by {
                assert forall|f: int, c: int|
                    #![trigger w.files[f].written[c]]
                    w.files.contains_key(f) && 0 <= c < w.files[f].written.len() implies
                    w.files[f].written[c] || w.awaited(f, c) by {
                    if f == file {
                        assert(c < n);
                    }
                }
            }
        }
    }

    /// The files of several pieces that some, but not all pieces of came in.
    pub fn incomplete_files(&self) -> (list: Vec<IncompleteFile>)
        requires
            self.wf(),
        ensures
            list@ == incomplete(self.multi_chunk_files@, self.multi_chunk_files@.len()),
    {
        let mut list: Vec<IncompleteFile> = Vec::new();
        let n: usize = self.multi_chunk_files.len();
        let mut i: usize = 0;
        while i < n
            invariant
                n == self.multi_chunk_files@.len(),
                i <= n,
                list@ == incomplete(self.multi_chunk_files@, i as nat),
            decreases n - i,
        {
            match &self.multi_chunk_files[i] {
                Some(s) => {
                    if s.written_count > 0 {
                        list.push(
                            IncompleteFile {
                                file: i,
                                written: s.written_count,
                                total: s.total_chunks,
                            },
                        );
                    }
                },
                None => {},
            }
            i = i + 1;
        }
        list
    }
}

/// A file that was begun and not finished.
#[derive(Debug, Clone, Copy, PartialEq, Eq, Structural)]
pub struct IncompleteFile {
    pub file: usize,
    pub written: usize,
    pub total: usize,
}

/// Those among the first `n` files that were begun and not finished.
pub open spec fn incomplete(files: Seq<Option<MultiChunkState>>, n: nat) -> Seq<IncompleteFile>
    decreases n,
{
    if n == 0 {
        Seq::empty()
    } else {
        let before = incomplete(files, (n - 1) as nat);
        match files[n - 1] {
            Some(s) => if s.written_count > 0 {
                before.push(
                    IncompleteFile {
                        file: (n - 1) as usize,
                        written: s.written_count,
                        total: s.total_chunks,
                    },
                )
            } else {
                before
            },
            None => before,
        }
    }
}

/// What an extraction did.
#[derive(Debug, Clone, Copy, PartialEq, Eq, Structural)]
pub struct ExtractStats {
    pub extracted: u64,
    /// Files that were there already.
    pub skipped: u64,
    pub bytes_written: u64,
}

impl Default for ExtractStats {
    fn default() -> (s: Self)
        ensures
            s == (ExtractStats { extracted: 0, skipped: 0, bytes_written: 0 }),
    {
        ExtractStats { extracted: 0, skipped: 0, bytes_written: 0 }
    }
}

/// Files that an action finishes, and their bytes, where `len` bytes were
/// written.
pub open spec fn finished_by(action: WriteAction, len: u64) -> (u64, u64) {
    match action {
        WriteAction::Whole { .. } => (1, len),
        WriteAction::Packed { .. } => (1, len),
        WriteAction::Piece { finished, .. } => match finished {
            Some(size) => (1, size),
            None => (0, 0),
        },
    }
}

impl ExtractStats {
    /// Counts an action that was carried out. A file counts once it is
    /// finished.
    pub fn note(&mut self, action: &WriteAction, len: u64)
        requires
            old(self).extracted + finished_by(*action, len).0 <= u64::MAX,
            old(self).bytes_written + finished_by(*action, len).1 <= u64::MAX,
        ensures
            *final(self) == (ExtractStats {
                extracted: (old(self).extracted + finished_by(*action, len).0) as u64,
                bytes_written: (old(self).bytes_written + finished_by(*action, len).1) as u64,
                ..*old(self)
            }),
    {
        match action {
            WriteAction::Whole { .. } => {
                self.extracted = self.extracted + 1;
                self.bytes_written = self.bytes_written + len;
            },
            WriteAction::Packed { .. } => {
                self.extracted = self.extracted + 1;
                self.bytes_written = self.bytes_written + len;
            },
            WriteAction::Piece { finished, .. } => {
                if let Some(size) = *finished {
                    self.extracted = self.extracted + 1;
                    self.bytes_written = self.bytes_written + size;
                }
            },
        }
    }
}

proof fn lemma_pieces_have(v: ExtractionView, h: Seq<u8>, n: nat)
    requires
        v.pieces.contains_key(h),
    ensures
        v.take_pieces(h, n).pieces.contains_key(h),
    decreases n,
{
    if n > 0 {
        lemma_pieces_have(v, h, (n - 1) as nat);
    }
}

pub(crate) proof fn lemma_actions_ignore_others(v: ExtractionView, w: ExtractionView, h: Seq<u8>, n: nat)
    requires
        v.files == w.files,
        v.pieces == w.pieces,
    ensures
        v.piece_actions(h, n) == w.piece_actions(h, n),
        v.take_pieces(h, n).files == w.take_pieces(h, n).files,
        v.take_pieces(h, n).pieces == w.take_pieces(h, n).pieces,
    decreases n,
{
    if n > 0 {
        lemma_actions_ignore_others(v, w, h, (n - 1) as nat);
    }
}

/// A file counts once, when its last piece is written, and with all of its bytes.
pub proof fn law_files_count_when_they_are_finished(action: WriteAction, len: u64)
    ensures
        action is Whole || action is Packed ==> finished_by(action, len) == (1u64, len),
        action matches WriteAction::Piece { finished: Some(size), .. } ==> finished_by(action, len)
            == (1u64, size),
        action matches WriteAction::Piece { finished: None, .. } ==> finished_by(action, len) == (
            0u64,
            0u64,
        ),
{
}

/// Exactly the files that were begun and not finished are told, with how much of them was
/// written.
pub proof fn law_begun_files_are_told(files: Seq<Option<MultiChunkState>>, n: nat, f: int)
    requires
        0 <= f < n <= files.len() <= usize::MAX,
    ensures
        match files[f] {
            Some(s) => s.written_count > 0 ==> incomplete(files, n).contains(
                IncompleteFile {
                    file: f as usize,
                    written: s.written_count,
                    total: s.total_chunks,
                },
            ),
            None => true,
        },
        forall|k: int|
            0 <= k < incomplete(files, n).len() ==> ((#[trigger] incomplete(files, n)[k]).file < n
                && (files[incomplete(files, n)[k].file as int] matches Some(s)
                && s.written_count > 0)),
        forall|k: int, l: int|
            0 <= k < l < incomplete(files, n).len() ==> (#[trigger] incomplete(files, n)[k]).file < (
            #[trigger] incomplete(files, n)[l]).file,
    decreases n,
{
    let m = (n - 1) as nat;
    let before = incomplete(files, m);
    let after = incomplete(files, n);
    if m > 0 {
        law_begun_files_are_told(files, m, if f < m {
            f
        } else {
            0
        });
    } else {
        assert(incomplete(files, 0).len() == 0);
    }
    assert forall|k: int| 0 <= k < before.len() implies after[k] == #[trigger] before[k] by {}
    if f < m {
        if let Some(s) = files[f] {
            if s.written_count > 0 {
                let x = IncompleteFile {
                    file: f as usize,
                    written: s.written_count,
                    total: s.total_chunks,
                };
                let k = choose|k: int| 0 <= k < before.len() && before[k] == x;
                assert(after[k] == x);
            }
        }
    } else if let Some(s) = files[f] {
        if s.written_count > 0 {
            assert(after[before.len() as int].file == f);
        }
    }
}

/// As many are counted as are true: all of them exactly where none is false.
pub proof fn law_true_ones_are_counted(s: Seq<bool>, i: int)
    ensures
        trues(s) <= s.len(),
        0 <= i < s.len() && trues(s) == s.len() ==> s[i],
        0 <= i < s.len() && trues(s) == 0 ==> !s[i],
        0 <= i < s.len() && !s[i] ==> trues(s.update(i, true)) == trues(s) + 1,
    decreases s.len(),
{
    if s.len() > 0 {
        let front = s.drop_last();
        law_true_ones_are_counted(front, i);
        assert(s.last() == s[s.len() - 1]);
        if 0 <= i < front.len() {
            assert(front[i] == s[i]);
            assert(s.update(i, true).drop_last() =~= front.update(i, true));
        } else if i == s.len() - 1 {
            assert(s.update(i, true).drop_last() =~= front);
        }
    }
}

} // verus!

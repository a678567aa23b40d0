//! What is extracted is what was added.
//!
//! A file is cut into chunks when it is added; its catalog entry says where each
//! chunk stands in it. When it is extracted, the chunks come in in any order and
//! are written where the entry says. A small file is a member of a chunk that it
//! shares with others, and is taken out of it. Here the two ends are put
//! together.
use vstd::prelude::*;

use crate::catalog;
use crate::catalog::{ChunkRef, FileEntry, UniqueChunk};
use crate::chunk_processor;
use crate::chunk_processor::{ExtractionView, FileProgress, PackedTarget, PieceTarget, WriteAction};
use crate::reader;
use crate::reader::EntryPlan;
use crate::small_file_packer::SmallFileEntry;
use crate::writer_core;

verus! {

/// The file that an action writes to.
pub open spec fn file_of(a: WriteAction) -> int {
    match a {
        WriteAction::Whole { file } => file as int,
        WriteAction::Packed { file, .. } => file as int,
        WriteAction::Piece { file, .. } => file as int,
    }
}

/// A file after `d` was written at `offset`.
pub open spec fn put(content: Seq<u8>, offset: int, d: Seq<u8>) -> Seq<u8> {
    Seq::new(
        (if offset + d.len() > content.len() {
            offset + d.len()
        } else {
            content.len() as int
        }) as nat,
        |x: int|
            if offset <= x < offset + d.len() {
                d[x - offset]
            } else if x < content.len() {
                content[x]
            } else {
                0u8
            },
    )
}

/// The members of a chunk that packs several files.
pub type Members = spec_fn(Seq<u8>, int) -> Seq<u8>;

/// File `f` after an action on a chunk whose bytes are `d`.
pub open spec fn carried_out(
    content: Seq<u8>,
    a: WriteAction,
    d: Seq<u8>,
    members: Members,
    f: int,
) -> Seq<u8> {
    if file_of(a) != f {
        content
    } else {
        match a {
            WriteAction::Whole { .. } => d,
            WriteAction::Packed { member, .. } => members(d, member as int),
            WriteAction::Piece { offset, .. } => put(content, offset as int, d),
        }
    }
}

/// File `f` after a row of actions.
pub open spec fn all_carried_out(
    content: Seq<u8>,
    acts: Seq<WriteAction>,
    d: Seq<u8>,
    members: Members,
    f: int,
) -> Seq<u8>
    decreases acts.len(),
{
    if acts.len() == 0 {
        content
    } else {
        carried_out(
            all_carried_out(content, acts.drop_last(), d, members, f),
            acts.last(),
            d,
            members,
            f,
        )
    }
}

/// A chunk that came in.
pub struct Arrival {
    pub hash: Seq<u8>,
    pub data: Seq<u8>,
}

/// What is waited for after the first `n` arrivals.
pub open spec fn awaited_after(v: ExtractionView, arrivals: Seq<Arrival>, n: int) -> ExtractionView
    decreases n,
{
    if n <= 0 {
        v
    } else {
        awaited_after(v, arrivals, n - 1).process(arrivals[n - 1].hash)
    }
}

/// File `f` after the first `n` arrivals.
pub open spec fn content_after(
    v: ExtractionView,
    arrivals: Seq<Arrival>,
    members: Members,
    start: Seq<u8>,
    f: int,
    n: int,
) -> Seq<u8>
    decreases n,
{
    if n <= 0 {
        start
    } else {
        all_carried_out(
            content_after(v, arrivals, members, start, f, n - 1),
            awaited_after(v, arrivals, n - 1).actions(arrivals[n - 1].hash),
            arrivals[n - 1].data,
            members,
            f,
        )
    }
}

/// What is waited for once the first `n` files of a catalog were planned; those
/// marked in `kept` stay as they are.
pub open spec fn planned(entries: Seq<FileEntry>, kept: Seq<bool>, n: int) -> ExtractionView
    decreases n,
{
    if n <= 0 {
        ExtractionView {
            whole: Map::empty(),
            packed: Map::empty(),
            files: Map::empty(),
            pieces: Map::empty(),
        }
    } else {
        reader::entry_awaited(
            planned(entries, kept, n - 1),
            entries[n - 1],
            (n - 1) as usize,
            kept[n - 1],
        )
    }
}

/// A file as it is before any chunk came in: one that is filled piece by piece
/// was created with its size.
pub open spec fn before_chunks(plan: EntryPlan) -> Seq<u8> {
    match plan {
        EntryPlan::Create { size } => Seq::new(size as nat, |x: int| 0u8),
        _ => Seq::empty(),
    }
}

/// Chunk `c` stands in the file where it belongs.
spec fn stands(content: Seq<u8>, chunks: Seq<UniqueChunk>, c: int) -> bool {
    let at = catalog::offset_of(chunks, c) as int;
    let end = at + chunks[c].data@.len();
    end <= content.len() && content.subrange(at, end) == chunks[c].data@
}

proof fn lemma_offsets_ordered(chunks: Seq<UniqueChunk>, i: int, j: int)
    requires
        0 <= i <= j <= chunks.len(),
    ensures
        catalog::offset_of(chunks, i) <= catalog::offset_of(chunks, j),
    decreases j - i,
{
    if i < j {
        lemma_offsets_ordered(chunks, i, j - 1);
    }
}

/// Writing a chunk where it belongs leaves the others where they are.
proof fn lemma_put(content: Seq<u8>, chunks: Seq<UniqueChunk>, k: int, c: int)
    requires
        0 <= k < chunks.len(),
        0 <= c < chunks.len(),
        content.len() == catalog::offset_of(chunks, chunks.len() as int),
    ensures
        ({
            let next = put(content, catalog::offset_of(chunks, k) as int, chunks[k].data@);
            &&& next.len() == content.len()
            &&& (c == k || stands(content, chunks, c)) ==> stands(next, chunks, c)
        }),
{
    let next = put(content, catalog::offset_of(chunks, k) as int, chunks[k].data@);
    lemma_offsets_ordered(chunks, k + 1, chunks.len() as int);
    lemma_offsets_ordered(chunks, c + 1, chunks.len() as int);
    let at = catalog::offset_of(chunks, c) as int;
    let end = at + chunks[c].data@.len();
    if c < k {
        lemma_offsets_ordered(chunks, c + 1, k);
    } else if k < c {
        lemma_offsets_ordered(chunks, k + 1, c);
    }
    if c == k {
        assert(next.subrange(at, end) =~= chunks[c].data@);
    } else if stands(content, chunks, c) {
        assert(next.subrange(at, end) =~= content.subrange(at, end));
    }
}

/// An action that concerns file `f` writes a piece of it where it belongs.
spec fn writes_piece(a: WriteAction, d: Seq<u8>, chunks: Seq<UniqueChunk>) -> bool {
    a matches WriteAction::Piece { chunk, offset, .. } && chunk < chunks.len() && offset
        == catalog::offset_of(chunks, chunk as int) && d == chunks[chunk as int].data@
}

spec fn is_piece(a: WriteAction, f: int, c: int) -> bool {
    a matches WriteAction::Piece { file, chunk, .. } && file == f && chunk == c
}

proof fn lemma_pieces_written(
    content: Seq<u8>,
    acts: Seq<WriteAction>,
    d: Seq<u8>,
    members: Members,
    f: int,
    chunks: Seq<UniqueChunk>,
)
    requires
        content.len() == catalog::offset_of(chunks, chunks.len() as int),
        forall|i: int|
            0 <= i < acts.len() && file_of(#[trigger] acts[i]) == f ==> writes_piece(
                acts[i],
                d,
                chunks,
            ),
    ensures
        ({
            let next = all_carried_out(content, acts, d, members, f);
            &&& next.len() == content.len()
            &&& forall|c: int|
                0 <= c < chunks.len() && stands(content, chunks, c) ==> #[trigger] stands(
                    next,
                    chunks,
                    c,
                )
            &&& forall|c: int, i: int|
                0 <= c < chunks.len() && 0 <= i < acts.len() && #[trigger] is_piece(acts[i], f, c)
                    ==> stands(next, chunks, c)
        }),
    decreases acts.len(),
{
    if acts.len() > 0 {
        let rest = acts.drop_last();
        assert forall|i: int| 0 <= i < rest.len() && file_of(#[trigger] rest[i]) == f implies
            writes_piece(rest[i], d, chunks) by {
            assert(rest[i] == acts[i]);
        }
        lemma_pieces_written(content, rest, d, members, f, chunks);
        let mid = all_carried_out(content, rest, d, members, f);
        let next = all_carried_out(content, acts, d, members, f);
        let last = acts[acts.len() - 1];
        if file_of(last) == f {
            assert(writes_piece(last, d, chunks));
            let k = last->chunk as int;
            lemma_put(mid, chunks, k, k);
            assert forall|c: int| 0 <= c < chunks.len() && stands(mid, chunks, c) implies stands(
                next,
                chunks,
                c,
            ) by {
                lemma_put(mid, chunks, k, c);
            }
        }
        assert forall|c: int| 0 <= c < chunks.len() && stands(content, chunks, c) implies #[trigger]
        stands(next, chunks, c) by {
            assert(stands(mid, chunks, c));
        }
        assert forall|c: int, i: int|
            0 <= c < chunks.len() && 0 <= i < acts.len() && #[trigger] is_piece(
                acts[i],
                f,
                c,
            ) implies stands(next, chunks, c) by {
            if i < acts.len() - 1 {
                assert(rest[i] == acts[i]);
                assert(is_piece(rest[i], f, c));
                assert(stands(mid, chunks, c));
            }
        }
    }
}

proof fn lemma_others_write_elsewhere(
    content: Seq<u8>,
    acts: Seq<WriteAction>,
    d: Seq<u8>,
    members: Members,
    f: int,
)
    requires
        forall|i: int| 0 <= i < acts.len() ==> file_of(#[trigger] acts[i]) != f,
    ensures
        all_carried_out(content, acts, d, members, f) == content,
    decreases acts.len(),
{
    if acts.len() > 0 {
        assert forall|i: int| 0 <= i < acts.drop_last().len() implies file_of(
            #[trigger] acts.drop_last()[i],
        ) != f by {
            assert(acts.drop_last()[i] == acts[i]);
        }
        lemma_others_write_elsewhere(content, acts.drop_last(), d, members, f);
        assert(file_of(acts[acts.len() - 1]) != f);
    }
}

/// An action that makes its file `x`, whatever the file held before.
spec fn makes(a: WriteAction, d: Seq<u8>, members: Members, x: Seq<u8>) -> bool {
    match a {
        WriteAction::Whole { .. } => x == d,
        WriteAction::Packed { member, .. } => x == members(d, member as int),
        WriteAction::Piece { .. } => false,
    }
}

/// A file to which nothing but `x` is written is `x` once it was written to.
proof fn lemma_written_at_once(
    content: Seq<u8>,
    acts: Seq<WriteAction>,
    d: Seq<u8>,
    members: Members,
    f: int,
    x: Seq<u8>,
)
    requires
        forall|i: int|
            0 <= i < acts.len() && file_of(#[trigger] acts[i]) == f ==> makes(
                acts[i],
                d,
                members,
                x,
            ),
    ensures
        (exists|i: int| 0 <= i < acts.len() && file_of(#[trigger] acts[i]) == f)
            ==> all_carried_out(content, acts, d, members, f) == x,
        (forall|i: int| 0 <= i < acts.len() ==> file_of(#[trigger] acts[i]) != f)
            ==> all_carried_out(content, acts, d, members, f) == content,
    decreases acts.len(),
{
    if acts.len() > 0 {
        let rest = acts.drop_last();
        assert forall|i: int| 0 <= i < rest.len() && file_of(#[trigger] rest[i]) == f implies makes(
            rest[i],
            d,
            members,
            x,
        ) by {
            assert(rest[i] == acts[i]);
        }
        lemma_written_at_once(content, rest, d, members, f, x);
        let last = acts[acts.len() - 1];
        if file_of(last) != f {
            if exists|i: int| 0 <= i < acts.len() && file_of(#[trigger] acts[i]) == f {
                let i = choose|i: int| 0 <= i < acts.len() && file_of(#[trigger] acts[i]) == f;
                assert(file_of(rest[i]) == f);
            } else {
                assert forall|i: int| 0 <= i < rest.len() implies file_of(#[trigger] rest[i])
                    != f by {
                    assert(rest[i] == acts[i]);
                }
            }
        }
    }
}

/// The actions on pieces follow their list.
proof fn lemma_piece_actions(v: ExtractionView, h: Seq<u8>, n: nat)
    requires
        v.wf(),
        n <= chunk_processor::list_at(v.pieces, h).len(),
    ensures
        v.piece_actions(h, n).len() == n,
        forall|i: int|
            0 <= i < n ==> takes(
                #[trigger] v.piece_actions(h, n)[i],
                chunk_processor::list_at(v.pieces, h)[i],
            ),
    decreases n,
{
    if n > 0 {
        lemma_piece_actions(v, h, (n - 1) as nat);
        chunk_processor::lemma_take_pieces(v, h, (n - 1) as nat);
        let list = chunk_processor::list_at(v.pieces, h);
        let u = v.take_pieces(h, (n - 1) as nat);
        assert(chunk_processor::list_at(u.pieces, h)[0] == list[n - 1]);
        assert forall|i: int| 0 <= i < n implies takes(
            #[trigger] v.piece_actions(h, n)[i],
            list[i],
        ) by {
            if i < n - 1 {
                assert(v.piece_actions(h, (n - 1) as nat)[i] == v.piece_actions(h, n)[i]);
            }
        }
    }
}

/// The action on a piece.
spec fn takes(a: WriteAction, t: PieceTarget) -> bool {
    a matches WriteAction::Piece { file, chunk, offset, .. } && file == t.file && chunk == t.chunk
        && offset == t.offset
}

/// No chunk is waited for as a whole file `f` or for a member that is file `f`.
pub open spec fn free(v: ExtractionView, f: usize) -> bool {
    &&& forall|h: Seq<u8>, k: int|
        0 <= k < chunk_processor::list_at(v.whole, h).len() ==> #[trigger] chunk_processor::list_at(
            v.whole,
            h,
        )[k] != f
    &&& forall|h: Seq<u8>, k: int|
        0 <= k < chunk_processor::list_at(v.packed, h).len() ==> (
        #[trigger] chunk_processor::list_at(v.packed, h)[k]).file != f
}

/// The pieces of file `f` that are waited for are those of its list.
spec fn pieces_right(v: ExtractionView, f: usize, refs: Seq<ChunkRef>) -> bool {
    forall|h: Seq<u8>, k: int|
        #[trigger] v.waits(h, k) && v.pieces[h][k].file == f ==> {
            let t = v.pieces[h][k];
            &&& t.chunk < refs.len()
            &&& t == chunk_processor::piece_of(f, refs, t.chunk as int)
            &&& h == refs[t.chunk as int].hash@
        }
}

/// Chunk `c` of file `f` is waited for under its hash.
spec fn waiting(v: ExtractionView, f: usize, refs: Seq<ChunkRef>, c: int) -> bool {
    exists|k: int|
        #[trigger] v.waits(refs[c].hash@, k) && v.pieces[refs[c].hash@][k]
            == chunk_processor::piece_of(f, refs, c)
}

/// What the actions on a chunk are.
proof fn lemma_actions(v: ExtractionView, h: Seq<u8>)
    requires
        v.wf(),
    ensures
        ({
            let wholes = chunk_processor::list_at(v.whole, h);
            let packs = chunk_processor::list_at(v.packed, h);
            let list = chunk_processor::list_at(v.pieces, h);
            let acts = v.actions(h);
            let p = wholes.len() + packs.len();
            &&& acts.len() == p + list.len()
            &&& forall|i: int|
                0 <= i < wholes.len() ==> #[trigger] acts[i] == (WriteAction::Whole {
                    file: wholes[i],
                })
            &&& forall|i: int|
                wholes.len() <= i < p ==> #[trigger] acts[i] == (WriteAction::Packed {
                    file: packs[i - wholes.len()].file,
                    member: packs[i - wholes.len()].member,
                })
            &&& forall|i: int|
                p <= i < acts.len() ==> takes(#[trigger] acts[i], list[i - p])
        }),
{
    let wholes = chunk_processor::list_at(v.whole, h);
    let packs = chunk_processor::list_at(v.packed, h);
    let list = chunk_processor::list_at(v.pieces, h);
    let acts = v.actions(h);
    let p = (wholes.len() + packs.len()) as int;
    lemma_piece_actions(v, h, list.len());
    assert forall|i: int| p <= i < acts.len() implies takes(#[trigger] acts[i], list[i - p]) by {
        assert(acts[i] == v.piece_actions(h, list.len())[i - p]);
    }
}

proof fn lemma_process_frees(v: ExtractionView, h: Seq<u8>, f: usize)
    requires
        v.wf(),
        free(v, f),
    ensures
        v.process(h).wf(),
        free(v.process(h), f),
        v.process(h).pieces == v.pieces.remove(h),
{
    chunk_processor::law_process_keeps_order(v, h);
    let base = ExtractionView { whole: v.whole.remove(h), packed: v.packed.remove(h), ..v };
    chunk_processor::lemma_same_pieces(v, base);
    chunk_processor::lemma_take_pieces(base, h, chunk_processor::list_at(v.pieces, h).len());
    let w = v.process(h);
    assert forall|g: Seq<u8>, k: int|
        0 <= k < chunk_processor::list_at(w.whole, g).len() implies #[trigger] chunk_processor::list_at(
        w.whole,
        g,
    )[k] != f by {
        assert(chunk_processor::list_at(v.whole, g)[k] != f);
    }
    assert forall|g: Seq<u8>, k: int|
        0 <= k < chunk_processor::list_at(w.packed, g).len() implies (
    #[trigger] chunk_processor::list_at(w.packed, g)[k]).file != f by {
        assert(chunk_processor::list_at(v.packed, g)[k].file != f);
    }
}

/// One chunk comes in while file `f` is filled piece by piece.
proof fn lemma_piece_arrives(
    v: ExtractionView,
    content: Seq<u8>,
    a: Arrival,
    members: Members,
    f: usize,
    refs: Seq<ChunkRef>,
    chunks: Seq<UniqueChunk>,
)
    requires
        v.wf(),
        free(v, f),
        pieces_right(v, f, refs),
        catalog::refers_to(refs, chunks),
        chunks.len() <= usize::MAX,
        content.len() == catalog::offset_of(chunks, chunks.len() as int),
        forall|c: int|
            0 <= c < chunks.len() && (#[trigger] chunks[c]).hash@ == a.hash ==> chunks[c].data@
                == a.data,
        forall|c: int|
            0 <= c < chunks.len() ==> #[trigger] stands(content, chunks, c) || waiting(
                v,
                f,
                refs,
                c,
            ),
    ensures
        ({
            let w = v.process(a.hash);
            let next = all_carried_out(content, v.actions(a.hash), a.data, members, f as int);
            &&& w.wf()
            &&& free(w, f)
            &&& pieces_right(w, f, refs)
            &&& w.pieces == v.pieces.remove(a.hash)
            &&& next.len() == content.len()
            &&& forall|c: int|
                0 <= c < chunks.len() ==> #[trigger] stands(next, chunks, c) || waiting(
                    w,
                    f,
                    refs,
                    c,
                )
        }),
{
    let h = a.hash;
    let w = v.process(h);
    let acts = v.actions(h);
    let next = all_carried_out(content, acts, a.data, members, f as int);
    let wholes = chunk_processor::list_at(v.whole, h);
    let packs = chunk_processor::list_at(v.packed, h);
    let list = chunk_processor::list_at(v.pieces, h);
    let p = (wholes.len() + packs.len()) as int;
    lemma_process_frees(v, h, f);
    lemma_actions(v, h);
    assert forall|g: Seq<u8>, k: int| #[trigger] w.waits(g, k) implies v.waits(g, k) && g != h
        && w.pieces[g][k] == v.pieces[g][k] by {}
    assert(pieces_right(w, f, refs));
    assert forall|i: int| 0 <= i < acts.len() && file_of(#[trigger] acts[i]) == f implies
        writes_piece(acts[i], a.data, chunks) by {
        if i < wholes.len() {
            assert(acts[i] == (WriteAction::Whole { file: wholes[i] }));
            assert(chunk_processor::list_at(v.whole, h)[i] != f);
        } else if i < p {
            let k = i - wholes.len();
            assert(chunk_processor::list_at(v.packed, h)[k].file != f);
        } else {
            let k = i - p;
            assert(takes(acts[i], list[k]));
            assert(v.waits(h, k));
            let c = list[k].chunk as int;
            assert(refs[c].hash == chunks[c].hash);
            assert(chunks[c].hash@ == h);
        }
    }
    lemma_pieces_written(content, acts, a.data, members, f as int, chunks);
    assert forall|c: int| 0 <= c < chunks.len() implies #[trigger] stands(next, chunks, c)
        || waiting(w, f, refs, c) by {
        if !stands(content, chunks, c) {
            assert(waiting(v, f, refs, c));
            let g = refs[c].hash@;
            let k = choose|k: int|
                #[trigger] v.waits(g, k) && v.pieces[g][k] == chunk_processor::piece_of(f, refs, c);
            if g == h {
                assert(takes(acts[p + k], list[k]));
                assert(is_piece(acts[p + k], f as int, c));
            } else {
                assert(w.waits(g, k));
            }
        }
    }
}

/// A file in which every chunk stands where it belongs is the chunks one after
/// the other.
proof fn lemma_all_stand(content: Seq<u8>, chunks: Seq<UniqueChunk>)
    requires
        content.len() == catalog::offset_of(chunks, chunks.len() as int),
        forall|c: int| 0 <= c < chunks.len() ==> #[trigger] stands(content, chunks, c),
    ensures
        content == catalog::joined(chunks),
{
    catalog::law_size_is_sum_of_chunks(chunks);
    let all = catalog::joined(chunks);
    assert forall|x: int| 0 <= x < content.len() implies content[x] == all[x] by {
        let c = lemma_chunk_at(chunks, x, chunks.len() as int);
        let at = catalog::offset_of(chunks, c) as int;
        let end = at + chunks[c].data@.len();
        assert(stands(content, chunks, c));
        catalog::law_chunks_give_back_the_file(chunks, c);
        assert(content.subrange(at, end)[x - at] == content[x]);
        assert(all.subrange(at, end)[x - at] == all[x]);
    }
    assert(content =~= all);
}

/// The chunk that a byte lies in.
proof fn lemma_chunk_at(chunks: Seq<UniqueChunk>, x: int, n: int) -> (c: int)
    requires
        0 <= n <= chunks.len(),
        0 <= x < catalog::offset_of(chunks, n),
    ensures
        0 <= c < n,
        catalog::offset_of(chunks, c) <= x < catalog::offset_of(chunks, c) + chunks[c].data@.len(),
    decreases n,
{
    if x >= catalog::offset_of(chunks, n - 1) {
        n - 1
    } else {
        lemma_chunk_at(chunks, x, n - 1)
    }
}

/// Chunks come in while file `f` is filled piece by piece.
proof fn lemma_pieces_arrive(
    v: ExtractionView,
    arrivals: Seq<Arrival>,
    members: Members,
    start: Seq<u8>,
    f: usize,
    refs: Seq<ChunkRef>,
    chunks: Seq<UniqueChunk>,
    n: int,
)
    requires
        v.wf(),
        free(v, f),
        pieces_right(v, f, refs),
        catalog::refers_to(refs, chunks),
        chunks.len() <= usize::MAX,
        start.len() == catalog::offset_of(chunks, chunks.len() as int),
        forall|c: int| 0 <= c < chunks.len() ==> waiting(v, f, refs, c),
        holds_chunks(arrivals, chunks),
        0 <= n <= arrivals.len(),
    ensures
        ({
            let w = awaited_after(v, arrivals, n);
            let now = content_after(v, arrivals, members, start, f as int, n);
            &&& w.wf()
            &&& free(w, f)
            &&& pieces_right(w, f, refs)
            &&& now.len() == start.len()
            &&& forall|c: int|
                0 <= c < chunks.len() ==> #[trigger] stands(now, chunks, c) || waiting(
                    w,
                    f,
                    refs,
                    c,
                )
            &&& forall|i: int|
                0 <= i < n ==> !w.pieces.contains_key((#[trigger] arrivals[i]).hash)
        }),
    decreases n,
{
    if n > 0 {
        lemma_pieces_arrive(v, arrivals, members, start, f, refs, chunks, n - 1);
        lemma_piece_arrives(
            awaited_after(v, arrivals, n - 1),
            content_after(v, arrivals, members, start, f as int, n - 1),
            arrivals[n - 1],
            members,
            f,
            refs,
            chunks,
        );
    }
}

/// What comes in under the hash of a chunk is that chunk.
pub open spec fn holds_chunks(arrivals: Seq<Arrival>, chunks: Seq<UniqueChunk>) -> bool {
    forall|i: int, c: int|
        0 <= i < arrivals.len() && 0 <= c < chunks.len() && (#[trigger] arrivals[i]).hash == (
        #[trigger] chunks[c]).hash@ ==> arrivals[i].data == chunks[c].data@
}

/// A chunk with this hash came in.
pub open spec fn came(arrivals: Seq<Arrival>, h: Seq<u8>) -> bool {
    exists|i: int| 0 <= i < arrivals.len() && (#[trigger] arrivals[i]).hash == h
}

/// Every chunk came in.
pub open spec fn all_came(arrivals: Seq<Arrival>, chunks: Seq<UniqueChunk>) -> bool {
    forall|c: int| 0 <= c < chunks.len() ==> came(arrivals, (#[trigger] chunks[c]).hash@)
}

/// File `f` is not waited for at all.
spec fn idle(v: ExtractionView, f: usize) -> bool {
    &&& v.wf()
    &&& free(v, f)
    &&& !v.files.contains_key(f as int)
}

proof fn lemma_files_shrink(v: ExtractionView, h: Seq<u8>, n: nat, f: int)
    requires
        v.wf(),
        n <= chunk_processor::list_at(v.pieces, h).len(),
        !v.files.contains_key(f),
    ensures
        !v.take_pieces(h, n).files.contains_key(f),
    decreases n,
{
    if n > 0 {
        lemma_files_shrink(v, h, (n - 1) as nat, f);
        chunk_processor::lemma_take_pieces(v, h, (n - 1) as nat);
        let u = v.take_pieces(h, (n - 1) as nat);
        assert(u.waits(h, 0));
        assert(u.piece_is_open(h, 0));
    }
}

/// While file `f` is not waited for, nothing is written to it.
proof fn lemma_idle(
    v: ExtractionView,
    content: Seq<u8>,
    a: Arrival,
    members: Members,
    f: usize,
)
    requires
        idle(v, f),
    ensures
        idle(v.process(a.hash), f),
        all_carried_out(content, v.actions(a.hash), a.data, members, f as int) == content,
{
    let h = a.hash;
    let acts = v.actions(h);
    let wholes = chunk_processor::list_at(v.whole, h);
    let packs = chunk_processor::list_at(v.packed, h);
    let list = chunk_processor::list_at(v.pieces, h);
    let p = (wholes.len() + packs.len()) as int;
    lemma_process_frees(v, h, f);
    lemma_actions(v, h);
    let base = ExtractionView { whole: v.whole.remove(h), packed: v.packed.remove(h), ..v };
    chunk_processor::lemma_same_pieces(v, base);
    lemma_files_shrink(base, h, list.len(), f as int);
    assert forall|i: int| 0 <= i < acts.len() implies file_of(#[trigger] acts[i]) != f by {
        if i < wholes.len() {
            assert(chunk_processor::list_at(v.whole, h)[i] != f);
        } else if i < p {
            assert(chunk_processor::list_at(v.packed, h)[i - wholes.len()].file != f);
        } else {
            assert(takes(acts[i], list[i - p]));
            assert(v.waits(h, i - p));
            assert(v.piece_is_open(h, i - p));
        }
    }
    lemma_others_write_elsewhere(content, acts, a.data, members, f as int);
}

/// File `f` is waited for as the whole chunk with hash `h`.
spec fn expects_whole(v: ExtractionView, f: usize, h: Seq<u8>) -> bool {
    &&& v.wf()
    &&& !v.files.contains_key(f as int)
    &&& chunk_processor::list_at(v.whole, h).contains(f)
    &&& forall|g: Seq<u8>, k: int|
        g != h && 0 <= k < chunk_processor::list_at(v.whole, g).len()
            ==> #[trigger] chunk_processor::list_at(v.whole, g)[k] != f
    &&& forall|g: Seq<u8>, k: int|
        0 <= k < chunk_processor::list_at(v.packed, g).len() ==> (
        #[trigger] chunk_processor::list_at(v.packed, g)[k]).file != f
}

/// A chunk comes in while file `f` is waited for as a whole chunk.
proof fn lemma_whole_arrives(
    v: ExtractionView,
    content: Seq<u8>,
    a: Arrival,
    members: Members,
    f: usize,
    h: Seq<u8>,
)
    requires
        expects_whole(v, f, h),
    ensures
        ({
            let next = all_carried_out(content, v.actions(a.hash), a.data, members, f as int);
            if a.hash == h {
                next == a.data && idle(v.process(a.hash), f)
            } else {
                next == content && expects_whole(v.process(a.hash), f, h)
            }
        }),
{
    let acts = v.actions(a.hash);
    let wholes = chunk_processor::list_at(v.whole, a.hash);
    let packs = chunk_processor::list_at(v.packed, a.hash);
    let list = chunk_processor::list_at(v.pieces, a.hash);
    let p = (wholes.len() + packs.len()) as int;
    let w = v.process(a.hash);
    lemma_actions(v, a.hash);
    chunk_processor::law_process_keeps_order(v, a.hash);
    let base = ExtractionView {
        whole: v.whole.remove(a.hash),
        packed: v.packed.remove(a.hash),
        ..v
    };
    chunk_processor::lemma_same_pieces(v, base);
    chunk_processor::lemma_take_pieces(base, a.hash, list.len());
    lemma_files_shrink(base, a.hash, list.len(), f as int);
    assert forall|g: Seq<u8>, k: int|
        (g != h || a.hash == h) && 0 <= k < chunk_processor::list_at(
            w.whole,
            g,
        ).len() implies #[trigger] chunk_processor::list_at(w.whole, g)[k] != f by {
        assert(g != h);
        assert(chunk_processor::list_at(v.whole, g)[k] != f);
    }
    assert forall|g: Seq<u8>, k: int|
        0 <= k < chunk_processor::list_at(w.packed, g).len() implies (
    #[trigger] chunk_processor::list_at(w.packed, g)[k]).file != f by {
        assert(chunk_processor::list_at(v.packed, g)[k].file != f);
    }
    assert forall|i: int| 0 <= i < acts.len() && file_of(#[trigger] acts[i]) == f implies acts[i]
        is Whole && a.hash == h by {
        if i < wholes.len() {
            assert(acts[i] == (WriteAction::Whole { file: wholes[i] }));
            if a.hash != h {
                assert(chunk_processor::list_at(v.whole, a.hash)[i] != f);
            }
        } else if i < p {
            assert(chunk_processor::list_at(v.packed, a.hash)[i - wholes.len()].file != f);
        } else {
            assert(takes(acts[i], list[i - p]));
            assert(v.waits(a.hash, i - p));
            assert(v.piece_is_open(a.hash, i - p));
        }
    }
    lemma_written_at_once(content, acts, a.data, members, f as int, a.data);
    if a.hash == h {
        let i = choose|i: int| 0 <= i < wholes.len() && wholes[i] == f;
        assert(acts[i] == (WriteAction::Whole { file: wholes[i] }));
        assert(file_of(acts[i]) == f);
    } else {
        assert(chunk_processor::list_at(w.whole, h) == chunk_processor::list_at(v.whole, h));
    }
}

proof fn lemma_whole_file_arrives(
    v: ExtractionView,
    arrivals: Seq<Arrival>,
    members: Members,
    start: Seq<u8>,
    f: usize,
    chunks: Seq<UniqueChunk>,
    n: int,
)
    requires
        chunks.len() == 1,
        expects_whole(v, f, chunks[0].hash@),
        holds_chunks(arrivals, chunks),
        0 <= n <= arrivals.len(),
    ensures
        ({
            let w = awaited_after(v, arrivals, n);
            let now = content_after(v, arrivals, members, start, f as int, n);
            if exists|i: int| 0 <= i < n && (#[trigger] arrivals[i]).hash == chunks[0].hash@ {
                idle(w, f) && now == chunks[0].data@
            } else {
                expects_whole(w, f, chunks[0].hash@)
            }
        }),
    decreases n,
{
    if n > 0 {
        lemma_whole_file_arrives(v, arrivals, members, start, f, chunks, n - 1);
        let u = awaited_after(v, arrivals, n - 1);
        let before = content_after(v, arrivals, members, start, f as int, n - 1);
        let h = chunks[0].hash@;
        if exists|i: int| 0 <= i < n - 1 && (#[trigger] arrivals[i]).hash == h {
            let i = choose|i: int| 0 <= i < n - 1 && (#[trigger] arrivals[i]).hash == h;
            lemma_idle(u, before, arrivals[n - 1], members, f);
            assert(0 <= i < n && arrivals[i].hash == h);
        } else {
            lemma_whole_arrives(u, before, arrivals[n - 1], members, f, h);
            if arrivals[n - 1].hash == h {
                assert(arrivals[n - 1].data == chunks[0].data@);
            }
        }
    }
}

/// File `f` is waited for as member `m` of the chunk with hash `h`.
spec fn expects_member(v: ExtractionView, f: usize, h: Seq<u8>, m: usize) -> bool {
    &&& v.wf()
    &&& !v.files.contains_key(f as int)
    &&& chunk_processor::list_at(v.packed, h).contains(PackedTarget { file: f, member: m })
    &&& forall|g: Seq<u8>, k: int|
        0 <= k < chunk_processor::list_at(v.packed, g).len() && (
        #[trigger] chunk_processor::list_at(v.packed, g)[k]).file == f ==> g == h
            && chunk_processor::list_at(v.packed, g)[k].member == m
    &&& forall|g: Seq<u8>, k: int|
        0 <= k < chunk_processor::list_at(v.whole, g).len() ==> #[trigger] chunk_processor::list_at(
            v.whole,
            g,
        )[k] != f
}

/// A chunk comes in while file `f` is waited for as a member of a chunk.
proof fn lemma_member_arrives(
    v: ExtractionView,
    content: Seq<u8>,
    a: Arrival,
    members: Members,
    f: usize,
    h: Seq<u8>,
    m: usize,
)
    requires
        expects_member(v, f, h, m),
    ensures
        ({
            let next = all_carried_out(content, v.actions(a.hash), a.data, members, f as int);
            if a.hash == h {
                next == members(a.data, m as int) && idle(v.process(a.hash), f)
            } else {
                next == content && expects_member(v.process(a.hash), f, h, m)
            }
        }),
{
    let acts = v.actions(a.hash);
    let wholes = chunk_processor::list_at(v.whole, a.hash);
    let packs = chunk_processor::list_at(v.packed, a.hash);
    let list = chunk_processor::list_at(v.pieces, a.hash);
    let p = (wholes.len() + packs.len()) as int;
    let w = v.process(a.hash);
    let x = members(a.data, m as int);
    lemma_actions(v, a.hash);
    chunk_processor::law_process_keeps_order(v, a.hash);
    let base = ExtractionView {
        whole: v.whole.remove(a.hash),
        packed: v.packed.remove(a.hash),
        ..v
    };
    chunk_processor::lemma_same_pieces(v, base);
    chunk_processor::lemma_take_pieces(base, a.hash, list.len());
    lemma_files_shrink(base, a.hash, list.len(), f as int);
    assert forall|g: Seq<u8>, k: int|
        0 <= k < chunk_processor::list_at(w.whole, g).len() implies #[trigger] chunk_processor::list_at(
        w.whole,
        g,
    )[k] != f by {
        assert(chunk_processor::list_at(v.whole, g)[k] != f);
    }
    assert forall|g: Seq<u8>, k: int|
        0 <= k < chunk_processor::list_at(w.packed, g).len() && (
        #[trigger] chunk_processor::list_at(w.packed, g)[k]).file == f implies g == h && a.hash != h
        && chunk_processor::list_at(w.packed, g)[k].member == m by {
        assert(chunk_processor::list_at(v.packed, g)[k].file == f);
    }
    assert forall|i: int| 0 <= i < acts.len() && file_of(#[trigger] acts[i]) == f implies makes(
        acts[i],
        a.data,
        members,
        x,
    ) && a.hash == h by {
        if i < wholes.len() {
            assert(chunk_processor::list_at(v.whole, a.hash)[i] != f);
        } else if i < p {
            let k = i - wholes.len();
            assert(acts[i] == (WriteAction::Packed {
                file: packs[k].file,
                member: packs[k].member,
            }));
            assert(chunk_processor::list_at(v.packed, a.hash)[k].file == f);
        } else {
            assert(takes(acts[i], list[i - p]));
            assert(v.waits(a.hash, i - p));
            assert(v.piece_is_open(a.hash, i - p));
        }
    }
    lemma_written_at_once(content, acts, a.data, members, f as int, x);
    if a.hash == h {
        let k = choose|k: int|
            0 <= k < packs.len() && packs[k] == (PackedTarget { file: f, member: m });
        let i = wholes.len() + k;
        assert(acts[i] == (WriteAction::Packed {
            file: packs[i - wholes.len()].file,
            member: packs[i - wholes.len()].member,
        }));
        assert(file_of(acts[i]) == f);
    } else {
        assert(chunk_processor::list_at(w.packed, h) == chunk_processor::list_at(v.packed, h));
    }
}

proof fn lemma_packed_file_arrives(
    v: ExtractionView,
    arrivals: Seq<Arrival>,
    members: Members,
    start: Seq<u8>,
    f: usize,
    m: usize,
    chunks: Seq<UniqueChunk>,
    n: int,
)
    requires
        chunks.len() == 1,
        expects_member(v, f, chunks[0].hash@, m),
        holds_chunks(arrivals, chunks),
        0 <= n <= arrivals.len(),
    ensures
        ({
            let w = awaited_after(v, arrivals, n);
            let now = content_after(v, arrivals, members, start, f as int, n);
            if exists|i: int| 0 <= i < n && (#[trigger] arrivals[i]).hash == chunks[0].hash@ {
                idle(w, f) && now == members(chunks[0].data@, m as int)
            } else {
                expects_member(w, f, chunks[0].hash@, m)
            }
        }),
    decreases n,
{
    if n > 0 {
        lemma_packed_file_arrives(v, arrivals, members, start, f, m, chunks, n - 1);
        let u = awaited_after(v, arrivals, n - 1);
        let before = content_after(v, arrivals, members, start, f as int, n - 1);
        let h = chunks[0].hash@;
        if exists|i: int| 0 <= i < n - 1 && (#[trigger] arrivals[i]).hash == h {
            let i = choose|i: int| 0 <= i < n - 1 && (#[trigger] arrivals[i]).hash == h;
            lemma_idle(u, before, arrivals[n - 1], members, f);
            assert(0 <= i < n && arrivals[i].hash == h);
        } else {
            lemma_member_arrives(u, before, arrivals[n - 1], members, f, h, m);
            if arrivals[n - 1].hash == h {
                assert(arrivals[n - 1].data == chunks[0].data@);
            }
        }
    }
}

proof fn lemma_idle_throughout(
    v: ExtractionView,
    arrivals: Seq<Arrival>,
    members: Members,
    start: Seq<u8>,
    f: usize,
    n: int,
)
    requires
        idle(v, f),
        0 <= n <= arrivals.len(),
    ensures
        idle(awaited_after(v, arrivals, n), f),
        content_after(v, arrivals, members, start, f as int, n) == start,
    decreases n,
{
    if n > 0 {
        lemma_idle_throughout(v, arrivals, members, start, f, n - 1);
        lemma_idle(
            awaited_after(v, arrivals, n - 1),
            content_after(v, arrivals, members, start, f as int, n - 1),
            arrivals[n - 1],
            members,
            f,
        );
    }
}

/// What the first `n` pieces of a new file add to what is waited for.
proof fn lemma_with_pieces(
    v: ExtractionView,
    g: usize,
    size: u64,
    refs: Seq<ChunkRef>,
    n: nat,
)
    requires
        v.wf(),
        !v.files.contains_key(g as int),
        n <= refs.len() <= usize::MAX,
        refs.len() > 0,
    ensures
        ({
            let w = ExtractionView {
                files: v.files.insert(g as int, chunk_processor::untouched(size, refs.len())),
                pieces: chunk_processor::with_pieces(v.pieces, g, refs, n),
                ..v
            };
            &&& w.wf_up_to(Some(g as int), n as int)
            &&& pieces_right(w, g, refs)
            &&& forall|h: Seq<u8>, k: int|
                #[trigger] w.waits(h, k) && w.pieces[h][k].file == g ==> w.pieces[h][k].chunk < n
            &&& forall|c: int| 0 <= c < n ==> #[trigger] waiting(w, g, refs, c)
            &&& forall|h: Seq<u8>, k: int|
                #[trigger] v.waits(h, k) ==> w.waits(h, k) && w.pieces[h][k] == v.pieces[h][k]
            &&& forall|h: Seq<u8>, k: int|
                #[trigger] w.waits(h, k) && w.pieces[h][k].file != g ==> v.waits(h, k)
                    && w.pieces[h][k] == v.pieces[h][k]
        }),
    decreases n,
{
    let all = v.files.insert(g as int, chunk_processor::untouched(size, refs.len()));
    if n == 0 {
        chunk_processor::lemma_add_file(v, g as int, size, refs.len());
        let w = ExtractionView {
            files: all,
            pieces: chunk_processor::with_pieces(v.pieces, g, refs, n),
            ..v
        };
        assert forall|h: Seq<u8>, k: int| #[trigger] w.waits(h, k) implies w.pieces[h][k].file
            != g by {
            assert(v.waits(h, k));
            assert(v.piece_is_open(h, k));
        }
    } else {
        let m = (n - 1) as nat;
        lemma_with_pieces(v, g, size, refs, m);
        let u = ExtractionView {
            files: all,
            pieces: chunk_processor::with_pieces(v.pieces, g, refs, m),
            ..v
        };
        let t = chunk_processor::piece_of(g, refs, m as int);
        let at = refs[m as int].hash@;
        chunk_processor::lemma_add_piece(u, at, t);
        let w = ExtractionView {
            files: all,
            pieces: chunk_processor::with_pieces(v.pieces, g, refs, n),
            ..v
        };
        assert(w.pieces == chunk_processor::listed_under(u.pieces, at, t));
        let end = chunk_processor::list_at(u.pieces, at).len() as int;
        assert forall|h: Seq<u8>, k: int| #[trigger] w.waits(h, k) implies (h == at && k == end
            && w.pieces[h][k] == t) || (u.waits(h, k) && w.pieces[h][k] == u.pieces[h][k]) by {}
        assert forall|h: Seq<u8>, k: int| #[trigger] u.waits(h, k) implies w.waits(h, k)
            && w.pieces[h][k] == u.pieces[h][k] by {}
        assert(w.waits(at, end) && w.pieces[at][end] == t);
        assert forall|c: int| 0 <= c < n implies #[trigger] waiting(w, g, refs, c) by {
            if c < m {
                assert(waiting(u, g, refs, c));
                let h = refs[c].hash@;
                let k = choose|k: int|
                    #[trigger] u.waits(h, k) && u.pieces[h][k] == chunk_processor::piece_of(
                        g,
                        refs,
                        c,
                    );
                assert(w.waits(h, k));
            }
        }
        assert forall|h: Seq<u8>, k: int| #[trigger] v.waits(h, k) implies w.waits(h, k)
            && w.pieces[h][k] == v.pieces[h][k] by {
            assert(u.waits(h, k));
        }
        assert forall|h: Seq<u8>, k: int|
            #[trigger] w.waits(h, k) && w.pieces[h][k].file != g implies v.waits(h, k)
            && w.pieces[h][k] == v.pieces[h][k] by {
            assert(u.waits(h, k));
        }
        assert(pieces_right(w, g, refs)) by {
            assert forall|h: Seq<u8>, k: int|
                #[trigger] w.waits(h, k) && w.pieces[h][k].file == g implies {
                let s = w.pieces[h][k];
                &&& s.chunk < refs.len()
                &&& s == chunk_processor::piece_of(g, refs, s.chunk as int)
                &&& h == refs[s.chunk as int].hash@
            } by {
                if !(h == at && k == end) {
                    assert(u.waits(h, k));
                }
            }
        }
        assert forall|h: Seq<u8>, k: int|
            #[trigger] w.waits(h, k) && w.pieces[h][k].file == g implies w.pieces[h][k].chunk
            < n by {
            if !(h == at && k == end) {
                assert(u.waits(h, k));
            }
        }
    }
}

/// What is waited for of file `f` once it was planned by its entry.
spec fn is_awaited(v: ExtractionView, f: usize, e: FileEntry, kept: bool) -> bool {
    match reader::entry_plan(e, kept) {
        EntryPlan::Create { .. } => {
            &&& v.wf()
            &&& free(v, f)
            &&& pieces_right(v, f, e.chunks@)
            &&& forall|c: int| 0 <= c < e.chunks@.len() ==> #[trigger] waiting(v, f, e.chunks@, c)
        },
        EntryPlan::Awaited => if reader::is_packed(e) {
            expects_member(v, f, e.chunks@[0].hash@, e.chunks@[0].packed->0.file_index)
        } else {
            expects_whole(v, f, e.hash->0@)
        },
        _ => idle(v, f),
    }
}

/// The lists under which a file is waited for as a whole, one file more.
proof fn lemma_listed<T>(m: Map<Seq<u8>, Seq<T>>, h: Seq<u8>, x: T)
    ensures
        forall|g: Seq<u8>, k: int|
            0 <= k < chunk_processor::list_at(chunk_processor::listed_under(m, h, x), g).len() ==> (
            #[trigger] chunk_processor::list_at(chunk_processor::listed_under(m, h, x), g)[k] == x)
                || (k < chunk_processor::list_at(m, g).len() && chunk_processor::list_at(
                chunk_processor::listed_under(m, h, x),
                g,
            )[k] == chunk_processor::list_at(m, g)[k]),
        forall|g: Seq<u8>|
            g != h ==> #[trigger] chunk_processor::list_at(
                chunk_processor::listed_under(m, h, x),
                g,
            ) == chunk_processor::list_at(m, g),
        chunk_processor::list_at(chunk_processor::listed_under(m, h, x), h)
            == chunk_processor::list_at(m, h).push(x),
{
}

/// Planning a file leaves what is waited for consistent and makes the file
/// waited for.
proof fn lemma_planned_itself(v: ExtractionView, e: FileEntry, g: usize, kept: bool)
    requires
        idle(v, g),
    ensures
        reader::entry_awaited(v, e, g, kept).wf(),
        is_awaited(reader::entry_awaited(v, e, g, kept), g, e, kept),
{
    let w = reader::entry_awaited(v, e, g, kept);
    match reader::entry_plan(e, kept) {
        EntryPlan::Create { size } => {
            assert(e.chunks.len() == e.chunks@.len());
            let n = e.chunks@.len();
            lemma_with_pieces(v, g, size, e.chunks@, n);
            assert(w.covered(Some(g as int), n as int));
            assert(w.covered(None, 0)) by {
                assert forall|f: int, c: int|
                    #![trigger w.files[f].written[c]]
                    w.files.contains_key(f) && 0 <= c < w.files[f].written.len() implies
                    w.files[f].written[c] || w.awaited(f, c) by {
                    assert(w.files[g as int].written.len() == n);
                }
            }
            assert(w.wf());
            assert(w.whole == v.whole && w.packed == v.packed);
            assert(free(w, g));
        },
        EntryPlan::Awaited => {
            chunk_processor::lemma_same_pieces(v, w);
            if reader::is_packed(e) {
                let h = e.chunks@[0].hash@;
                let t = PackedTarget { file: g, member: e.chunks@[0].packed->0.file_index };
                lemma_listed(v.packed, h, t);
                let l = chunk_processor::list_at(v.packed, h);
                assert(l.push(t)[l.len() as int] == t);
                assert(chunk_processor::list_at(w.packed, h).contains(t));
            } else {
                let h = e.hash->0@;
                lemma_listed(v.whole, h, g);
                let l = chunk_processor::list_at(v.whole, h);
                assert(l.push(g)[l.len() as int] == g);
                assert(chunk_processor::list_at(w.whole, h).contains(g));
            }
        },
        _ => {},
    }
}

/// Planning a file leaves alone what is waited for of the others.
proof fn lemma_planned_others(
    v: ExtractionView,
    e: FileEntry,
    g: usize,
    kept: bool,
    f: usize,
    x: FileEntry,
    kx: bool,
)
    requires
        idle(v, g),
        f != g,
    ensures
        idle(v, f) ==> idle(reader::entry_awaited(v, e, g, kept), f),
        is_awaited(v, f, x, kx) ==> is_awaited(reader::entry_awaited(v, e, g, kept), f, x, kx),
{
    let w = reader::entry_awaited(v, e, g, kept);
    lemma_planned_itself(v, e, g, kept);
    match reader::entry_plan(e, kept) {
        EntryPlan::Create { size } => {
            assert(e.chunks.len() == e.chunks@.len());
            lemma_with_pieces(v, g, size, e.chunks@, e.chunks@.len());
        },
        EntryPlan::Awaited => {
            if reader::is_packed(e) {
                lemma_listed(
                    v.packed,
                    e.chunks@[0].hash@,
                    PackedTarget { file: g, member: e.chunks@[0].packed->0.file_index },
                );
            } else {
                lemma_listed(v.whole, e.hash->0@, g);
            }
            assert forall|h: Seq<u8>, k: int| #[trigger] w.waits(h, k) == v.waits(h, k) by {}
        },
        _ => {},
    }
    assert forall|h: Seq<u8>, k: int|
        #[trigger] w.waits(h, k) && w.pieces[h][k].file == f implies v.waits(h, k)
        && w.pieces[h][k] == v.pieces[h][k] by {}
    assert forall|h: Seq<u8>, k: int| #[trigger] v.waits(h, k) implies w.waits(h, k)
        && w.pieces[h][k] == v.pieces[h][k] by {}
    if free(v, f) {
        assert(free(w, f));
    }
    if reader::entry_plan(x, kx) is Create && is_awaited(v, f, x, kx) {
        assert(pieces_right(w, f, x.chunks@)) by {
            assert forall|h: Seq<u8>, k: int|
                #[trigger] w.waits(h, k) && w.pieces[h][k].file == f implies {
                let t = w.pieces[h][k];
                &&& t.chunk < x.chunks@.len()
                &&& t == chunk_processor::piece_of(f, x.chunks@, t.chunk as int)
                &&& h == x.chunks@[t.chunk as int].hash@
            } by {
                assert(v.waits(h, k));
            }
        }
        assert forall|c: int| 0 <= c < x.chunks@.len() implies #[trigger] waiting(
            w,
            f,
            x.chunks@,
            c,
        ) by {
            assert(waiting(v, f, x.chunks@, c));
            let h = x.chunks@[c].hash@;
            let k = choose|k: int|
                #[trigger] v.waits(h, k) && v.pieces[h][k] == chunk_processor::piece_of(
                    f,
                    x.chunks@,
                    c,
                );
            assert(w.waits(h, k));
        }
    }
    if reader::entry_plan(x, kx) == EntryPlan::Awaited && reader::is_packed(x) && is_awaited(
        v,
        f,
        x,
        kx,
    ) {
        let h = x.chunks@[0].hash@;
        let t = PackedTarget { file: f, member: x.chunks@[0].packed->0.file_index };
        let l = chunk_processor::list_at(v.packed, h);
        let i = choose|i: int| 0 <= i < l.len() && l[i] == t;
        assert(chunk_processor::list_at(w.packed, h)[i] == t);
        assert(chunk_processor::list_at(w.packed, h).contains(t));
    }
    if reader::entry_plan(x, kx) == EntryPlan::Awaited && !reader::is_packed(x) && is_awaited(
        v,
        f,
        x,
        kx,
    ) {
        let h = x.hash->0@;
        let l = chunk_processor::list_at(v.whole, h);
        let i = choose|i: int| 0 <= i < l.len() && l[i] == f;
        assert(chunk_processor::list_at(w.whole, h)[i] == f);
        assert(chunk_processor::list_at(w.whole, h).contains(f));
    }
}

proof fn lemma_planned(entries: Seq<FileEntry>, kept: Seq<bool>, n: int)
    requires
        0 <= n <= entries.len() <= usize::MAX,
        kept.len() == entries.len(),
    ensures
        planned(entries, kept, n).wf(),
        forall|f: usize| n <= f ==> #[trigger] idle(planned(entries, kept, n), f),
        forall|f: usize|
            f < n ==> #[trigger] is_awaited(
                planned(entries, kept, n),
                f,
                entries[f as int],
                kept[f as int],
            ),
    decreases n,
{
    let w = planned(entries, kept, n);
    if n > 0 {
        lemma_planned(entries, kept, n - 1);
        let v = planned(entries, kept, n - 1);
        let g = (n - 1) as usize;
        assert(idle(v, g));
        lemma_planned_itself(v, entries[n - 1], g, kept[n - 1]);
        assert forall|f: usize| n <= f implies #[trigger] idle(w, f) by {
            assert(idle(v, f));
            lemma_planned_others(
                v,
                entries[n - 1],
                g,
                kept[n - 1],
                f,
                entries[n - 1],
                kept[n - 1],
            );
        }
        assert forall|f: usize| f < n implies #[trigger] is_awaited(
            w,
            f,
            entries[f as int],
            kept[f as int],
        ) by {
            if f < n - 1 {
                assert(is_awaited(v, f, entries[f as int], kept[f as int]));
                lemma_planned_others(
                    v,
                    entries[n - 1],
                    g,
                    kept[n - 1],
                    f,
                    entries[f as int],
                    kept[f as int],
                );
            }
        }
    } else {
        assert(w.wf());
    }
}

/// What is extracted is what was added, for a file that has chunks of its own.
/// All files of a catalog are planned; file `f`, which is not kept and not the archive's own, has an entry for `chunks`.
/// Once all its chunks came in, in any order and among any others, the writes
/// that were ordered for it have made it the bytes of its chunks, and it is no
/// longer waited for.
pub proof fn law_extracted_is_what_was_added(
    entries: Seq<FileEntry>,
    kept: Seq<bool>,
    f: usize,
    chunks: Seq<UniqueChunk>,
    arrivals: Seq<Arrival>,
    members: Members,
)
    requires
        entries.len() <= usize::MAX,
        kept.len() == entries.len(),
        f < entries.len(),
        !kept[f as int],
        !catalog::is_internal(entries[f as int].path@),
        catalog::entry_of(entries[f as int], chunks),
        holds_chunks(arrivals, chunks),
        all_came(arrivals, chunks),
    ensures
        ({
            let v = planned(entries, kept, entries.len() as int);
            let start = before_chunks(reader::entry_plan(entries[f as int], false));
            let n = arrivals.len() as int;
            &&& content_after(v, arrivals, members, start, f as int, n) == catalog::joined(chunks)
            &&& !awaited_after(v, arrivals, n).files.contains_key(f as int)
            &&& free(awaited_after(v, arrivals, n), f)
        }),
{
    let e = entries[f as int];
    let v = planned(entries, kept, entries.len() as int);
    let plan = reader::entry_plan(e, false);
    let start = before_chunks(plan);
    let n = arrivals.len() as int;
    let w = awaited_after(v, arrivals, n);
    let now = content_after(v, arrivals, members, start, f as int, n);
    lemma_planned(entries, kept, entries.len() as int);
    assert(is_awaited(v, f, e, false));
    catalog::law_size_is_sum_of_chunks(chunks);
    assert(e.chunks.len() == e.chunks@.len());
    if e.chunks@.len() > 0 {
        let refs = e.chunks@;
        assert(refs[0].packed is None);
        assert(!reader::is_packed(e));
        assert(start.len() == catalog::offset_of(chunks, chunks.len() as int));
        assert forall|c: int| 0 <= c < chunks.len() implies waiting(v, f, refs, c) by {}
        lemma_pieces_arrive(v, arrivals, members, start, f, refs, chunks, n);
        assert forall|c: int| 0 <= c < chunks.len() implies #[trigger] stands(now, chunks, c) by {
            assert(chunks[c].hash == refs[c].hash);
            let i = choose|i: int|
                0 <= i < arrivals.len() && (#[trigger] arrivals[i]).hash == chunks[c].hash@;
            assert(!w.pieces.contains_key(arrivals[i].hash));
            assert(!waiting(w, f, refs, c));
        }
        lemma_all_stand(now, chunks);
        if w.files.contains_key(f as int) {
            let s = w.files[f as int];
            assert(w.file_is_open(f as int));
            assert forall|c: int| 0 <= c < s.written.len() implies #[trigger] s.written[c] by {
                assert(w.files[f as int].written[c] || w.awaited(f as int, c));
                if w.awaited(f as int, c) {
                    let (h, k) = choose|h: Seq<u8>, k: int|
                        #[trigger] w.waits(h, k) && w.pieces[h][k].file == f as int
                            && w.pieces[h][k].chunk == c;
                    assert(h == refs[c].hash@);
                    assert(chunks[c].hash == refs[c].hash);
                    let i = choose|i: int|
                        0 <= i < arrivals.len() && (#[trigger] arrivals[i]).hash
                            == chunks[c].hash@;
                    assert(!w.pieces.contains_key(arrivals[i].hash));
                }
            }
            chunk_processor::lemma_all_true(s.written);
        }
    } else if e.hash is Some {
        lemma_whole_file_arrives(v, arrivals, members, start, f, chunks, n);
        let i = choose|i: int|
            0 <= i < arrivals.len() && (#[trigger] arrivals[i]).hash == chunks[0].hash@;
        assert(0 <= i < n && arrivals[i].hash == chunks[0].hash@);
        assert(catalog::joined(chunks.drop_last()) =~= Seq::<u8>::empty());
        assert(catalog::joined(chunks) =~= chunks[0].data@);
    } else {
        lemma_idle_throughout(v, arrivals, members, start, f, n);
        assert(catalog::joined(chunks) =~= Seq::<u8>::empty());
    }
}

/// The members of a shared chunk are the files that were put into it.
pub open spec fn unpacks_to(
    members: Members,
    chunk: UniqueChunk,
    files: Seq<SmallFileEntry>,
    unique: Seq<usize>,
) -> bool {
    forall|k: int|
        0 <= k < unique.len() ==> #[trigger] members(chunk.data@, k)
            == files[unique[k] as int].data@
}

/// Small files with the same hash hold the same bytes.
pub open spec fn hashes_tell_apart(files: Seq<SmallFileEntry>) -> bool {
    forall|i: int, j: int|
        0 <= i < files.len() && 0 <= j < files.len() && (#[trigger] files[i]).hash@ == (
        #[trigger] files[j]).hash@ ==> files[i].data@ == files[j].data@
}

/// What is extracted is what was added, for a small file that shares a chunk.
/// All files of a catalog are planned; file `f`, which is not kept and not the
/// archive's own, has the entry of `files[i]` in the plan that these were packed
/// by. Once the shared chunk came in, among any others, the write that was
/// ordered has made the file the bytes that were packed under its hash: its own,
/// where files with the same hash hold the same bytes. It is no longer waited
/// for.
pub proof fn law_packed_is_what_was_added(
    entries: Seq<FileEntry>,
    kept: Seq<bool>,
    f: usize,
    files: Seq<SmallFileEntry>,
    unique: Seq<usize>,
    member: Seq<usize>,
    i: int,
    chunk: UniqueChunk,
    arrivals: Seq<Arrival>,
    members: Members,
)
    requires
        entries.len() <= usize::MAX,
        kept.len() == entries.len(),
        f < entries.len(),
        !kept[f as int],
        !catalog::is_internal(entries[f as int].path@),
        writer_core::is_pack_plan(files, unique, member),
        0 <= i < files.len(),
        writer_core::is_packed_entry(
            entries[f as int],
            files[i],
            chunk,
            member[i],
            unique.len(),
        ),
        unpacks_to(members, chunk, files, unique),
        holds_chunks(arrivals, seq![chunk]),
        all_came(arrivals, seq![chunk]),
    ensures
        ({
            let v = planned(entries, kept, entries.len() as int);
            let start = before_chunks(reader::entry_plan(entries[f as int], false));
            let n = arrivals.len() as int;
            let now = content_after(v, arrivals, members, start, f as int, n);
            let from = unique[member[i] as int] as int;
            &&& now == files[from].data@
            &&& files[from].hash@ == files[i].hash@
            &&& hashes_tell_apart(files) ==> now == files[i].data@
            &&& !awaited_after(v, arrivals, n).files.contains_key(f as int)
            &&& free(awaited_after(v, arrivals, n), f)
        }),
{
    let e = entries[f as int];
    let v = planned(entries, kept, entries.len() as int);
    let start = before_chunks(reader::entry_plan(e, false));
    let n = arrivals.len() as int;
    let chunks = seq![chunk];
    lemma_planned(entries, kept, entries.len() as int);
    assert(is_awaited(v, f, e, false));
    writer_core::law_packed_files_are_found(files, unique, member, i);
    lemma_packed_file_arrives(v, arrivals, members, start, f, member[i], chunks, n);
    assert(chunks[0].hash@ == chunk.hash@);
    let a = choose|a: int|
        0 <= a < arrivals.len() && (#[trigger] arrivals[a]).hash == chunks[0].hash@;
    assert(0 <= a < n && arrivals[a].hash == chunks[0].hash@);
    assert(members(chunk.data@, member[i] as int) == files[unique[member[i] as int] as int].data@);
}

/// What came in is no longer waited for, and nothing else was added.
proof fn lemma_awaited_shrinks(v: ExtractionView, arrivals: Seq<Arrival>, n: int)
    requires
        v.wf(),
        0 <= n <= arrivals.len(),
    ensures
        ({
            let w = awaited_after(v, arrivals, n);
            &&& w.wf()
            &&& w.whole.dom().subset_of(v.whole.dom())
            &&& w.packed.dom().subset_of(v.packed.dom())
            &&& w.pieces.dom().subset_of(v.pieces.dom())
            &&& forall|i: int|
                0 <= i < n ==> !w.whole.contains_key((#[trigger] arrivals[i]).hash)
                    && !w.packed.contains_key(arrivals[i].hash) && !w.pieces.contains_key(
                    arrivals[i].hash,
                )
        }),
    decreases n,
{
    if n > 0 {
        lemma_awaited_shrinks(v, arrivals, n - 1);
        let u = awaited_after(v, arrivals, n - 1);
        let h = arrivals[n - 1].hash;
        chunk_processor::law_process_keeps_order(u, h);
        let base = ExtractionView { whole: u.whole.remove(h), packed: u.packed.remove(h), ..u };
        chunk_processor::lemma_same_pieces(u, base);
        chunk_processor::lemma_take_pieces(base, h, chunk_processor::list_at(u.pieces, h).len());
        assert(u.process(h).pieces == u.pieces.remove(h));
    }
}

/// An extraction is complete once every chunk that is waited for came in, in any
/// order and among any others.
pub proof fn law_extraction_completes(
    entries: Seq<FileEntry>,
    kept: Seq<bool>,
    arrivals: Seq<Arrival>,
)
    requires
        entries.len() <= usize::MAX,
        kept.len() == entries.len(),
        ({
            let v = planned(entries, kept, entries.len() as int);
            forall|h: Seq<u8>|
                v.whole.contains_key(h) || v.packed.contains_key(h) || v.pieces.contains_key(h)
                    ==> #[trigger] came(arrivals, h)
        }),
    ensures
        !awaited_after(
            planned(entries, kept, entries.len() as int),
            arrivals,
            arrivals.len() as int,
        ).pending(),
{
    let v = planned(entries, kept, entries.len() as int);
    let n = arrivals.len() as int;
    let w = awaited_after(v, arrivals, n);
    lemma_planned(entries, kept, entries.len() as int);
    lemma_awaited_shrinks(v, arrivals, n);
    assert forall|h: Seq<u8>| !w.whole.contains_key(h) && !w.packed.contains_key(h)
        && !w.pieces.contains_key(h) by {
        if w.whole.contains_key(h) || w.packed.contains_key(h) || w.pieces.contains_key(h) {
            assert(w.whole.dom().contains(h) ==> v.whole.dom().contains(h));
            assert(w.packed.dom().contains(h) ==> v.packed.dom().contains(h));
            assert(w.pieces.dom().contains(h) ==> v.pieces.dom().contains(h));
            assert(came(arrivals, h));
            let i = choose|i: int| 0 <= i < arrivals.len() && (#[trigger] arrivals[i]).hash == h;
            assert(!w.whole.contains_key(arrivals[i].hash));
        }
    }
    assert(w.whole =~= Map::empty());
    assert(w.packed =~= Map::empty());
    assert(w.pieces =~= Map::empty());
    chunk_processor::law_no_piece_no_open_file(w);
}

/// A file that stays, and one that the archive keeps for itself, is not written
/// to, whatever its entry says of its content and whatever comes in: no action
/// on any chunk names it.
pub proof fn law_kept_files_are_not_written(
    entries: Seq<FileEntry>,
    kept: Seq<bool>,
    f: usize,
    arrivals: Seq<Arrival>,
    members: Members,
    start: Seq<u8>,
    n: int,
    a: int,
)
    requires
        entries.len() <= usize::MAX,
        kept.len() == entries.len(),
        f < entries.len(),
        kept[f as int] || catalog::is_internal(entries[f as int].path@),
        0 <= n < arrivals.len(),
        0 <= a,
    ensures
        ({
            let v = planned(entries, kept, entries.len() as int);
            let acts = awaited_after(v, arrivals, n).actions(arrivals[n].hash);
            &&& a < acts.len() ==> file_of(acts[a]) != f
            &&& content_after(v, arrivals, members, start, f as int, n + 1) == start
        }),
{
    let v = planned(entries, kept, entries.len() as int);
    lemma_planned(entries, kept, entries.len() as int);
    assert(is_awaited(v, f, entries[f as int], kept[f as int]));
    reader::law_files_that_stay_are_left_alone(v, entries[f as int], f, kept[f as int]);
    lemma_idle_throughout(v, arrivals, members, start, f, n);
    lemma_idle_throughout(v, arrivals, members, start, f, n + 1);
    let w = awaited_after(v, arrivals, n);
    if a < w.actions(arrivals[n].hash).len() {
        lemma_idle_names_nothing(w, arrivals[n].hash, f, a);
    }
}

proof fn lemma_idle_names_nothing(v: ExtractionView, h: Seq<u8>, f: usize, i: int)
    requires
        idle(v, f),
        0 <= i < v.actions(h).len(),
    ensures
        file_of(v.actions(h)[i]) != f,
{
    let acts = v.actions(h);
    let wholes = chunk_processor::list_at(v.whole, h);
    let packs = chunk_processor::list_at(v.packed, h);
    let list = chunk_processor::list_at(v.pieces, h);
    let p = (wholes.len() + packs.len()) as int;
    lemma_actions(v, h);
    if i < wholes.len() {
        assert(chunk_processor::list_at(v.whole, h)[i] != f);
    } else if i < p {
        assert(chunk_processor::list_at(v.packed, h)[i - wholes.len()].file != f);
    } else {
        assert(takes(acts[i], list[i - p]));
        assert(v.waits(h, i - p));
        assert(v.piece_is_open(h, i - p));
    }
}

} // verus!

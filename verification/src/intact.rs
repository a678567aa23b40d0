//! Verifying an archive: what is found of each file is what came in of it.
//!
//! A verification is planned by the catalog and then takes chunk after chunk.
//! Here the two ends are put together: an archive that holds all chunks of its
//! catalog passes, and one that lacks a chunk does not.
use vstd::prelude::*;

use crate::catalog;
use crate::catalog::FileEntry;
use crate::chunk_processor;
use crate::reader;
use crate::round_trip::Arrival;
use crate::verification;
use crate::verification::{ExpectedChunk, VerificationContext, VerifyView};

verus! {

/// The chunks found for file `f` once the first `n` chunks came in.
pub open spec fn found_after(
    m: Map<Seq<u8>, Seq<ExpectedChunk>>,
    arrivals: Seq<Arrival>,
    f: int,
    n: int,
) -> nat
    decreases n,
{
    if n <= 0 {
        0
    } else {
        let refs = chunk_processor::list_at(m, arrivals[n - 1].hash);
        found_after(m, arrivals, f, n - 1) + verification::found_for(
            refs,
            arrivals[n - 1].data.len(),
            f,
            refs.len(),
        )
    }
}

/// No chunk comes in twice.
pub open spec fn come_once(arrivals: Seq<Arrival>) -> bool {
    forall|a: int, b: int|
        0 <= a < b < arrivals.len() ==> (#[trigger] arrivals[a]).hash != (
        #[trigger] arrivals[b]).hash
}

/// A chunk with this hash and of this length is among the first `n`.
pub open spec fn came_with(arrivals: Seq<Arrival>, h: Seq<u8>, len: int, n: int) -> bool {
    exists|a: int|
        0 <= a < n && (#[trigger] arrivals[a]).hash == h && arrivals[a].data.len() == len
}

/// How many of the first `k` chunks that a file's entry lists came in, each with
/// its length.
pub open spec fn listed_that_came(e: FileEntry, arrivals: Seq<Arrival>, k: int) -> nat
    decreases k,
{
    if k <= 0 {
        0
    } else {
        listed_that_came(e, arrivals, k - 1) + if came_with(
            arrivals,
            e.chunks@[k - 1].hash@,
            e.chunks@[k - 1].length as int,
            arrivals.len() as int,
        ) {
            1nat
        } else {
            0nat
        }
    }
}

/// How many chunks of a file came in: of those that it lists, or the one chunk
/// that it is. Of the archive's own files none is asked for.
pub open spec fn chunks_that_came(e: FileEntry, arrivals: Seq<Arrival>) -> nat {
    if catalog::is_internal(e.path@) {
        0
    } else if e.chunks@.len() > 0 {
        listed_that_came(e, arrivals, e.chunks@.len() as int)
    } else if e.hash is Some && came_with(
        arrivals,
        e.hash->0@,
        e.size as int,
        arrivals.len() as int,
    ) {
        1
    } else {
        0
    }
}

/// A file with chunks of its own needs a chunk with this hash.
pub open spec fn needs_alone(e: FileEntry, h: Seq<u8>) -> bool {
    &&& !catalog::is_internal(e.path@)
    &&& !reader::is_packed(e)
    &&& (exists|c: int| 0 <= c < e.chunks@.len() && (#[trigger] e.chunks@[c]).hash@ == h) || (
    e.chunks@.len() == 0 && e.hash is Some && e.hash->0@ == h)
}

/// Where file `f` is the first that is packed into its chunk, no file listed
/// before it is that chunk or has it as a piece.
pub open spec fn pack_is_told_apart(entries: Seq<FileEntry>, f: int) -> bool {
    let h = entries[f].chunks@[0].hash@;
    reader::packs(entries, f, h) && !reader::packed_before(entries, f, h) ==> forall|g: int|
        0 <= g < f ==> !needs_alone(#[trigger] entries[g], h)
}

/// What one record adds for a file.
spec fn adds(x: ExpectedChunk, arrivals: Seq<Arrival>, h: Seq<u8>, f: int, n: int) -> nat {
    if x.file == f && came_with(arrivals, h, x.length as int, n) {
        1
    } else {
        0
    }
}

proof fn lemma_found_push(refs: Seq<ExpectedChunk>, x: ExpectedChunk, len: nat, f: int, n: nat)
    requires
        n <= refs.len(),
    ensures
        verification::found_for(refs.push(x), len, f, n) == verification::found_for(
            refs,
            len,
            f,
            n,
        ),
    decreases n,
{
    if n > 0 {
        lemma_found_push(refs, x, len, f, (n - 1) as nat);
    }
}

proof fn lemma_record_added(
    m: Map<Seq<u8>, Seq<ExpectedChunk>>,
    h: Seq<u8>,
    x: ExpectedChunk,
    arrivals: Seq<Arrival>,
    f: int,
    n: int,
)
    requires
        come_once(arrivals),
        0 <= n <= arrivals.len(),
    ensures
        found_after(chunk_processor::listed_under(m, h, x), arrivals, f, n) == found_after(
            m,
            arrivals,
            f,
            n,
        ) + adds(x, arrivals, h, f, n),
    decreases n,
{
    if n > 0 {
        lemma_record_added(m, h, x, arrivals, f, n - 1);
        let l = chunk_processor::listed_under(m, h, x);
        let a = arrivals[n - 1];
        let refs = chunk_processor::list_at(m, a.hash);
        if a.hash == h {
            assert(chunk_processor::list_at(l, h) == refs.push(x));
            lemma_found_push(refs, x, a.data.len(), f, refs.len());
            assert(!came_with(arrivals, h, x.length as int, n - 1));
            if a.data.len() == x.length {
                assert(came_with(arrivals, h, x.length as int, n));
            }
        } else {
            assert(chunk_processor::list_at(l, a.hash) == refs);
            if came_with(arrivals, h, x.length as int, n) {
                let b = choose|b: int|
                    0 <= b < n && (#[trigger] arrivals[b]).hash == h && arrivals[b].data.len()
                        == x.length;
                assert(b < n - 1);
                assert(came_with(arrivals, h, x.length as int, n - 1));
            }
            if came_with(arrivals, h, x.length as int, n - 1) {
                let b = choose|b: int|
                    0 <= b < n - 1 && (#[trigger] arrivals[b]).hash == h
                        && arrivals[b].data.len() == x.length;
                assert(0 <= b < n && arrivals[b].hash == h);
            }
        }
    }
}

proof fn lemma_nothing_expected(arrivals: Seq<Arrival>, f: int, n: int)
    ensures
        found_after(Map::empty(), arrivals, f, n) == 0,
    decreases n,
{
    if n > 0 {
        lemma_nothing_expected(arrivals, f, n - 1);
    }
}

proof fn lemma_pieces_added(
    m: Map<Seq<u8>, Seq<ExpectedChunk>>,
    e: FileEntry,
    file: usize,
    k: nat,
    arrivals: Seq<Arrival>,
    f: int,
)
    requires
        come_once(arrivals),
        k <= e.chunks@.len(),
    ensures
        found_after(
            reader::with_expected(m, e, file, k),
            arrivals,
            f,
            arrivals.len() as int,
        ) == found_after(m, arrivals, f, arrivals.len() as int) + if file == f {
            listed_that_came(e, arrivals, k as int)
        } else {
            0
        },
        forall|h: Seq<u8>| #[trigger]
            reader::with_expected(m, e, file, k).contains_key(h) <==> m.contains_key(h) || (exists|
                c: int,
            |
                0 <= c < k && (#[trigger] e.chunks@[c]).hash@ == h),
    decreases k,
{
    if k > 0 {
        let j = (k - 1) as nat;
        lemma_pieces_added(m, e, file, j, arrivals, f);
        let before = reader::with_expected(m, e, file, j);
        let x = ExpectedChunk { file, chunk: j as usize, length: e.chunks@[j as int].length as u64 };
        lemma_record_added(
            before,
            e.chunks@[j as int].hash@,
            x,
            arrivals,
            f,
            arrivals.len() as int,
        );
        let after = reader::with_expected(m, e, file, k);
        assert forall|h: Seq<u8>| #[trigger] after.contains_key(h) <==> m.contains_key(h) || (exists|
            c: int,
        |
            0 <= c < k && (#[trigger] e.chunks@[c]).hash@ == h) by {
            assert(after.contains_key(h) <==> before.contains_key(h) || h
                == e.chunks@[j as int].hash@);
            if h == e.chunks@[j as int].hash@ {
                assert(0 <= j < k && e.chunks@[j as int].hash@ == h);
            }
            if before.contains_key(h) && !m.contains_key(h) {
                let c = choose|c: int| 0 <= c < j && (#[trigger] e.chunks@[c]).hash@ == h;
                assert(0 <= c < k && e.chunks@[c].hash@ == h);
            }
            if exists|c: int| 0 <= c < k && (#[trigger] e.chunks@[c]).hash@ == h {
                let c = choose|c: int| 0 <= c < k && (#[trigger] e.chunks@[c]).hash@ == h;
                if c < j {
                    assert(0 <= c < j && e.chunks@[c].hash@ == h);
                }
            }
        }
    }
}

/// A file before file `n` needs a chunk with hash `h`.
spec fn asked_before(entries: Seq<FileEntry>, n: int, h: Seq<u8>) -> bool {
    exists|g: int|
        0 <= g < n && g < entries.len() && (needs_alone(#[trigger] entries[g], h) || reader::packs(
            entries,
            g,
            h,
        ))
}

/// What the first pass finds of file `f`: of a file that is packed, its chunk
/// only where none before asked for it.
spec fn first_found(entries: Seq<FileEntry>, arrivals: Seq<Arrival>, f: int) -> nat {
    let h = entries[f].chunks@[0].hash@;
    if reader::packs(entries, f, h) && asked_before(entries, f, h) {
        0
    } else {
        chunks_that_came(entries[f], arrivals)
    }
}

proof fn lemma_first_pass(entries: Seq<FileEntry>, arrivals: Seq<Arrival>, n: nat, f: int)
    requires
        come_once(arrivals),
        n <= entries.len() <= usize::MAX,
        0 <= f < entries.len(),
    ensures
        forall|h: Seq<u8>| #[trigger]
            reader::all_first_needs(entries, n).contains_key(h) <==> asked_before(
                entries,
                n as int,
                h,
            ),
        found_after(
            reader::all_first_needs(entries, n),
            arrivals,
            f,
            arrivals.len() as int,
        ) == if f < n {
            first_found(entries, arrivals, f)
        } else {
            0
        },
    decreases n,
{
    let after = reader::all_first_needs(entries, n);
    let end = arrivals.len() as int;
    if n == 0 {
        lemma_nothing_expected(arrivals, f, end);
    } else {
        let g = n - 1;
        let file = g as usize;
        let e = entries[g];
        lemma_first_pass(entries, arrivals, g as nat, f);
        let before = reader::all_first_needs(entries, g as nat);
        let h0 = e.chunks@[0].hash@;
        if catalog::is_internal(e.path@) {
        } else if reader::is_packed(e) {
            assert(reader::packs(entries, g, h0));
            if !before.contains_key(h0) {
                lemma_record_added(before, h0, reader::packed_need(e, file), arrivals, f, end);
                assert(listed_that_came(e, arrivals, 0) == 0);
                assert(listed_that_came(e, arrivals, 1) == adds(
                    reader::packed_need(e, file),
                    arrivals,
                    h0,
                    g,
                    end,
                ));
            }
        } else if e.chunks@.len() > 0 {
            lemma_pieces_added(before, e, file, e.chunks@.len(), arrivals, f);
        } else if e.hash is Some {
            lemma_record_added(
                before,
                e.hash->0@,
                ExpectedChunk { file, chunk: 0, length: e.size },
                arrivals,
                f,
                end,
            );
        }
        assert forall|h: Seq<u8>| #[trigger] after.contains_key(h) <==> asked_before(
            entries,
            n as int,
            h,
        ) by {
            assert(before.contains_key(h) <==> asked_before(entries, g, h));
            if asked_before(entries, n as int, h) {
                let k = choose|k: int|
                    0 <= k < n && k < entries.len() && (needs_alone(#[trigger] entries[k], h)
                        || reader::packs(entries, k, h));
                if k < g {
                    assert(needs_alone(entries[k], h) || reader::packs(entries, k, h));
                    assert(asked_before(entries, g, h));
                } else {
                    assert(needs_alone(e, h) || reader::packs(entries, g, h));
                }
            }
            if asked_before(entries, g, h) {
                let k = choose|k: int|
                    0 <= k < g && k < entries.len() && (needs_alone(#[trigger] entries[k], h)
                        || reader::packs(entries, k, h));
                assert(0 <= k < n && (needs_alone(entries[k], h) || reader::packs(entries, k, h)));
            }
            if after.contains_key(h) && !before.contains_key(h) {
                assert(needs_alone(entries[g], h) || reader::packs(entries, g, h));
            }
        }
    }
}

proof fn lemma_second_pass(entries: Seq<FileEntry>, arrivals: Seq<Arrival>, n: nat, f: int)
    requires
        come_once(arrivals),
        n <= entries.len() <= usize::MAX,
        0 <= f < entries.len(),
    ensures
        found_after(
            reader::all_needs(entries, n),
            arrivals,
            f,
            arrivals.len() as int,
        ) == first_found(entries, arrivals, f) + if f < n && reader::packs(
            entries,
            f,
            entries[f].chunks@[0].hash@,
        ) && reader::packed_before(entries, f, entries[f].chunks@[0].hash@) {
            chunks_that_came(entries[f], arrivals)
        } else {
            0
        },
    decreases n,
{
    let end = arrivals.len() as int;
    if n == 0 {
        lemma_first_pass(entries, arrivals, entries.len(), f);
    } else {
        let g = n - 1;
        lemma_second_pass(entries, arrivals, g as nat, f);
        let e = entries[g];
        let h0 = e.chunks@[0].hash@;
        if reader::packs(entries, g, h0) && reader::packed_before(entries, g, h0) {
            let x = reader::packed_need(e, g as usize);
            lemma_record_added(reader::all_needs(entries, g as nat), h0, x, arrivals, f, end);
            assert(listed_that_came(e, arrivals, 0) == 0);
            assert(listed_that_came(e, arrivals, 1) == adds(x, arrivals, h0, g, end));
        }
    }
}

/// What a verification finds of a file is what came in of it: each chunk that
/// its entry refers to, listed, shared with other files or the file itself,
/// counts once where it came in with its length.
pub proof fn law_found_is_what_came(entries: Seq<FileEntry>, arrivals: Seq<Arrival>, f: int)
    requires
        entries.len() <= usize::MAX,
        0 <= f < entries.len(),
        come_once(arrivals),
        pack_is_told_apart(entries, f),
    ensures
        found_after(
            reader::all_needs(entries, entries.len()),
            arrivals,
            f,
            arrivals.len() as int,
        ) == chunks_that_came(entries[f], arrivals),
{
    lemma_second_pass(entries, arrivals, entries.len(), f);
    let h = entries[f].chunks@[0].hash@;
    if reader::packs(entries, f, h) {
        if reader::packed_before(entries, f, h) {
            let g = choose|g: int| g < f && #[trigger] reader::packs(entries, g, h);
            assert(0 <= g < f && (needs_alone(entries[g], h) || reader::packs(entries, g, h)));
            assert(asked_before(entries, f, h));
        } else if asked_before(entries, f, h) {
            let g = choose|g: int|
                0 <= g < f && g < entries.len() && (needs_alone(#[trigger] entries[g], h)
                    || reader::packs(entries, g, h));
            assert(!needs_alone(entries[g], h));
            assert(reader::packs(entries, g, h));
        }
    }
}

/// A file needs as many chunks as its entry lists, or the one that it is; the
/// archive's own files need none.
pub proof fn law_every_chunk_is_needed(e: FileEntry)
    ensures
        catalog::is_internal(e.path@) ==> reader::chunk_count(e) == 0,
        !catalog::is_internal(e.path@) && e.chunks@.len() > 0 ==> reader::chunk_count(e)
            == e.chunks@.len(),
        !catalog::is_internal(e.path@) && e.chunks@.len() == 0 && e.hash is Some
            ==> reader::chunk_count(e) == 1,
        e.chunks@.len() == 0 && e.hash is None ==> reader::chunk_count(e) == 0,
{
}

/// All chunks that a file's entry refers to came in, each with its length.
pub open spec fn is_whole(e: FileEntry, arrivals: Seq<Arrival>) -> bool {
    let n = arrivals.len() as int;
    &&& forall|c: int|
        0 <= c < e.chunks@.len() ==> came_with(
            arrivals,
            (#[trigger] e.chunks@[c]).hash@,
            e.chunks@[c].length as int,
            n,
        )
    &&& e.chunks@.len() == 0 && e.hash is Some ==> came_with(
        arrivals,
        e.hash->0@,
        e.size as int,
        n,
    )
}

proof fn lemma_listed(e: FileEntry, arrivals: Seq<Arrival>, k: int)
    requires
        0 <= k <= e.chunks@.len(),
    ensures
        listed_that_came(e, arrivals, k) <= k,
        listed_that_came(e, arrivals, k) == k <==> (forall|c: int|
            0 <= c < k ==> came_with(
                arrivals,
                (#[trigger] e.chunks@[c]).hash@,
                e.chunks@[c].length as int,
                arrivals.len() as int,
            )),
    decreases k,
{
    if k > 0 {
        lemma_listed(e, arrivals, k - 1);
        let last = came_with(
            arrivals,
            e.chunks@[k - 1].hash@,
            e.chunks@[k - 1].length as int,
            arrivals.len() as int,
        );
        if !last {
            assert(listed_that_came(e, arrivals, k) < k);
        }
    }
}

/// All chunks of a file are found exactly where all came in; where one is
/// missing or has another length, fewer are found than the file needs.
pub proof fn law_complete_exactly_where_all_came(
    entries: Seq<FileEntry>,
    arrivals: Seq<Arrival>,
    f: int,
)
    requires
        entries.len() <= usize::MAX,
        0 <= f < entries.len(),
        come_once(arrivals),
        pack_is_told_apart(entries, f),
        !catalog::is_internal(entries[f].path@),
    ensures
        ({
            let found = found_after(
                reader::all_needs(entries, entries.len()),
                arrivals,
                f,
                arrivals.len() as int,
            );
            &&& found <= reader::chunk_count(entries[f])
            &&& found == reader::chunk_count(entries[f]) <==> is_whole(entries[f], arrivals)
        }),
{
    law_found_is_what_came(entries, arrivals, f);
    lemma_listed(entries[f], arrivals, entries[f].chunks@.len() as int);
}

/// How many of the first `n` files have content.
pub open spec fn files_with_content(entries: Seq<FileEntry>, n: int) -> nat
    decreases n,
{
    if n <= 0 {
        0
    } else {
        let e = entries[n - 1];
        files_with_content(entries, n - 1) + if !catalog::is_internal(e.path@) && (
        e.chunks@.len() > 0 || e.hash is Some) {
            1nat
        } else {
            0nat
        }
    }
}

/// A verification was planned by a catalog and has taken these chunks.
pub open spec fn has_taken(
    c: VerificationContext,
    entries: Seq<FileEntry>,
    arrivals: Seq<Arrival>,
) -> bool {
    &&& c.file_chunk_counts@ == entries.map_values(
        |e: FileEntry| reader::chunk_count(e) as usize,
    )
    &&& c.file_chunks_found@.len() == entries.len()
    &&& forall|f: int|
        0 <= f < entries.len() ==> #[trigger] c.file_chunks_found@[f] == found_after(
            reader::all_needs(entries, entries.len()),
            arrivals,
            f,
            arrivals.len() as int,
        )
}

/// An intact archive passes: where every chunk of the catalog came in once, with
/// its length, every file that has content is counted as verified, none as
/// incomplete, and nothing is reported. Files that share a chunk are no
/// exception.
pub proof fn law_intact_archive_passes(
    c: VerificationContext,
    entries: Seq<FileEntry>,
    arrivals: Seq<Arrival>,
    stats: VerifyView,
    paths: Seq<String>,
    n: nat,
)
    requires
        entries.len() <= usize::MAX,
        n <= entries.len(),
        stats.files_verified + entries.len() <= u64::MAX,
        come_once(arrivals),
        has_taken(c, entries, arrivals),
        forall|f: int|
            0 <= f < entries.len() ==> #[trigger] pack_is_told_apart(entries, f),
        forall|f: int|
            0 <= f < entries.len() && !catalog::is_internal((#[trigger] entries[f]).path@)
                ==> is_whole(entries[f], arrivals),
    ensures
        c.completeness(stats, paths, n) == (VerifyView {
            files_verified: (stats.files_verified + files_with_content(entries, n as int)) as u64,
            ..stats
        }),
        files_with_content(entries, n as int) <= n,
    decreases n,
{
    if n > 0 {
        let f = n - 1;
        law_intact_archive_passes(c, entries, arrivals, stats, paths, f as nat);
        let e = entries[f];
        assert(e.chunks.len() == e.chunks@.len());
        assert(c.file_chunk_counts@[f] == reader::chunk_count(e) as usize);
        law_every_chunk_is_needed(e);
        assert(pack_is_told_apart(entries, f));
        if !catalog::is_internal(e.path@) {
            law_complete_exactly_where_all_came(entries, arrivals, f);
            assert(c.file_chunks_found@[f] == reader::chunk_count(e));
        }
    }
}

/// An archive that lacks a chunk does not pass: a file of which a chunk did not
/// come in, or came in with another length, is counted as incomplete.
pub proof fn law_missing_chunk_is_noticed(
    c: VerificationContext,
    entries: Seq<FileEntry>,
    arrivals: Seq<Arrival>,
    stats: VerifyView,
    paths: Seq<String>,
    f: int,
)
    requires
        entries.len() <= usize::MAX,
        stats.files_incomplete + entries.len() <= u64::MAX,
        come_once(arrivals),
        has_taken(c, entries, arrivals),
        forall|g: int|
            0 <= g < entries.len() ==> #[trigger] pack_is_told_apart(entries, g),
        0 <= f < entries.len(),
        !catalog::is_internal(entries[f].path@),
        !is_whole(entries[f], arrivals),
    ensures
        c.countable(),
        c.completeness(stats, paths, entries.len()).files_incomplete > stats.files_incomplete,
        c.completeness(stats, paths, entries.len()).errors.len() > stats.errors.len(),
{
    assert forall|g: int|
        0 <= g < c.file_chunk_counts@.len() && c.file_chunk_counts@[g]
            > 0 implies #[trigger] c.file_chunks_found@[g] <= c.file_chunk_counts@[g] by {
        let e = entries[g];
        assert(e.chunks.len() == e.chunks@.len());
        law_every_chunk_is_needed(e);
        assert(pack_is_told_apart(entries, g));
        if !catalog::is_internal(e.path@) {
            law_complete_exactly_where_all_came(entries, arrivals, g);
        }
    }
    let e = entries[f];
    assert(e.chunks.len() == e.chunks@.len());
    law_every_chunk_is_needed(e);
    assert(pack_is_told_apart(entries, f));
    law_complete_exactly_where_all_came(entries, arrivals, f);
    assert(c.file_chunk_counts@[f] == reader::chunk_count(e) as usize);
    assert(c.file_chunk_counts@[f] > 0);
    assert(c.file_chunks_found@[f] != c.file_chunk_counts@[f]);
    verification::law_completeness_is_exact(c, stats, paths, entries.len());
    verification::law_one_message_per_incomplete_file(c, stats, paths, entries.len());
}

} // verus!

//! Tables from chunk hashes to values.
use vstd::prelude::*;

use crate::ordering;
use crate::ordering::bytes_less;
use crate::types::ChunkHash;

verus! {

/// A hash and what is noted under it.
#[derive(Debug)]
pub struct HashEntry<T> {
    pub hash: ChunkHash,
    pub value: T,
}

/// The map that a list of entries stands for; a later entry overrides.
pub open spec fn map_of<T: View>(entries: Seq<HashEntry<T>>) -> Map<Seq<u8>, T::V>
    decreases entries.len(),
{
    if entries.len() == 0 {
        Map::empty()
    } else {
        map_of(entries.drop_last()).insert(entries.last().hash@, entries.last().value@)
    }
}

/// The hashes rise from entry to entry.
pub open spec fn hashes_rise<T>(entries: Seq<HashEntry<T>>) -> bool {
    forall|i: int, j: int|
        0 <= i < j < entries.len() ==> ordering::lex_less(
            (#[trigger] entries[i]).hash@,
            (#[trigger] entries[j]).hash@,
        )
}

proof fn lemma_map_of<T: View>(entries: Seq<HashEntry<T>>)
    requires
        hashes_rise(entries),
    ensures
        forall|h: Seq<u8>| #[trigger]
            map_of(entries).contains_key(h) <==> exists|i: int|
                0 <= i < entries.len() && (#[trigger] entries[i]).hash@ == h,
        forall|i: int|
            0 <= i < entries.len() ==> map_of(entries)[(#[trigger] entries[i]).hash@]
                == entries[i].value@,
        map_of(entries).dom().finite(),
        map_of(entries).dom().len() == entries.len(),
    decreases entries.len(),
{
    if entries.len() > 0 {
        let rest = entries.drop_last();
        let last = entries.last();
        assert forall|i: int, j: int| 0 <= i < j < rest.len() implies ordering::lex_less(
            (#[trigger] rest[i]).hash@,
            (#[trigger] rest[j]).hash@,
        ) by {
            assert(ordering::lex_less(entries[i].hash@, entries[j].hash@));
        }
        lemma_map_of(rest);
        assert forall|i: int| 0 <= i < rest.len() implies (#[trigger] rest[i]).hash@
            != last.hash@ by {
            assert(ordering::lex_less(entries[i].hash@, entries[entries.len() - 1].hash@));
            ordering::lemma_lex_irreflexive(last.hash@);
        }
        assert forall|h: Seq<u8>| #[trigger]
            map_of(entries).contains_key(h) <==> exists|i: int|
                0 <= i < entries.len() && (#[trigger] entries[i]).hash@ == h by {
            if map_of(rest).contains_key(h) {
                let i = choose|i: int| 0 <= i < rest.len() && (#[trigger] rest[i]).hash@ == h;
                assert(entries[i].hash@ == h);
            }
            if h == last.hash@ {
                assert(entries[entries.len() - 1].hash@ == h);
            }
            if exists|i: int| 0 <= i < entries.len() && (#[trigger] entries[i]).hash@ == h {
                let i = choose|i: int|
                    0 <= i < entries.len() && (#[trigger] entries[i]).hash@ == h;
                if i < rest.len() {
                    assert(rest[i].hash@ == h);
                }
            }
        }
        assert forall|i: int| 0 <= i < entries.len() implies map_of(entries)[(
        #[trigger] entries[i]).hash@] == entries[i].value@ by {
            if i < rest.len() {
                assert(rest[i].hash@ != last.hash@);
                assert(map_of(rest)[rest[i].hash@] == rest[i].value@);
            }
        }
        assert(!map_of(rest).contains_key(last.hash@));
        assert(map_of(entries).dom() =~= map_of(rest).dom().insert(last.hash@));
    }
}

/// A table from hashes to values.
#[derive(Debug)]
pub struct HashTable<T> {
    /// The entries, by rising hash.
    pub entries: Vec<HashEntry<T>>,
}

impl<T: View> View for HashTable<T> {
    type V = Map<Seq<u8>, T::V>;

    open spec fn view(&self) -> Map<Seq<u8>, T::V> {
        map_of(self.entries@)
    }
}

impl<T: View> HashTable<T> {
    pub open spec fn wf(&self) -> bool {
        hashes_rise(self.entries@)
    }

    pub fn new() -> (m: Self)
        ensures
            m.wf(),
            m@ == Map::<Seq<u8>, T::V>::empty(),
    {
        HashTable { entries: Vec::new() }
    }

    /// The position of the first entry whose hash is not smaller.
    fn position(&self, hash: &ChunkHash) -> (p: usize)
        requires
            self.wf(),
        ensures
            p <= self.entries@.len(),
            forall|i: int|
                0 <= i < p ==> ordering::lex_less((#[trigger] self.entries@[i]).hash@, hash@),
            forall|i: int|
                p <= i < self.entries@.len() ==> !ordering::lex_less(
                    (#[trigger] self.entries@[i]).hash@,
                    hash@,
                ),
    {
        let mut lo: usize = 0;
        let mut hi: usize = self.entries.len();
        while lo < hi
            invariant
                self.wf(),
                lo <= hi <= self.entries@.len(),
                forall|i: int|
                    0 <= i < lo ==> ordering::lex_less((#[trigger] self.entries@[i]).hash@, hash@),
                forall|i: int|
                    hi <= i < self.entries@.len() ==> !ordering::lex_less(
                        (#[trigger] self.entries@[i]).hash@,
                        hash@,
                    ),
            decreases hi - lo,
        {
            let mid: usize = lo + (hi - lo) / 2;
            if bytes_less(self.entries[mid].hash.0.as_slice(), hash.0.as_slice()) {
                proof {
                    assert forall|i: int| 0 <= i < mid + 1 implies ordering::lex_less(
                        (#[trigger] self.entries@[i]).hash@,
                        hash@,
                    ) by {
                        if i < mid {
                            ordering::lemma_lex_transitive(
                                self.entries@[i].hash@,
                                self.entries@[mid as int].hash@,
                                hash@,
                            );
                        }
                    }
                }
                lo = mid + 1;
            } else {
                proof {
                    assert forall|i: int| mid <= i < self.entries@.len() implies !ordering::lex_less(
                        (#[trigger] self.entries@[i]).hash@,
                        hash@,
                    ) by {
                        if i > mid && ordering::lex_less(self.entries@[i].hash@, hash@) {
                            ordering::lemma_lex_transitive(
                                self.entries@[mid as int].hash@,
                                self.entries@[i].hash@,
                                hash@,
                            );
                        }
                    }
                }
                hi = mid;
            }
        }
        lo
    }

    /// The entry of a hash, if there is one.
    fn find(&self, hash: &ChunkHash) -> (r: Option<usize>)
        requires
            self.wf(),
        ensures
            match r {
                Some(i) => i < self.entries@.len() && self.entries@[i as int].hash@ == hash@
                    && self@.contains_key(hash@) && self@[hash@]
                    == self.entries@[i as int].value@,
                None => !self@.contains_key(hash@),
            },
    {
        let p: usize = self.position(hash);
        proof {
            lemma_map_of(self.entries@);
        }
        if p < self.entries.len() && self.entries[p].hash.same(hash) {
            assert(self.entries@[p as int].hash@ == hash@);
            return Some(p);
        }
        proof {
            assert forall|i: int| 0 <= i < self.entries@.len() implies (
            #[trigger] self.entries@[i]).hash@ != hash@ by {
                if i < p {
                    ordering::lemma_lex_irreflexive(hash@);
                } else if i > p {
                    if self.entries@[i].hash@ == hash@ {
                        assert(ordering::lex_less(
                            self.entries@[p as int].hash@,
                            self.entries@[i].hash@,
                        ));
                    }
                }
            }
        }
        None
    }

    pub fn contains(&self, hash: &ChunkHash) -> (r: bool)
        requires
            self.wf(),
        ensures
            r == self@.contains_key(hash@),
    {
        match self.find(hash) {
            Some(_) => true,
            None => false,
        }
    }

    pub fn get(&self, hash: &ChunkHash) -> (r: Option<&T>)
        requires
            self.wf(),
        ensures
            r is Some <==> self@.contains_key(hash@),
            r matches Some(l) ==> l@ == self@[hash@],
    {
        match self.find(hash) {
            Some(i) => Some(&self.entries[i].value),
            None => None,
        }
    }

    pub fn len(&self) -> (n: usize)
        requires
            self.wf(),
        ensures
            n == self@.dom().len(),
    {
        proof {
            lemma_map_of(self.entries@);
        }
        self.entries.len()
    }

    /// Notes a value, in place of what was noted before.
    pub fn insert(&mut self, hash: ChunkHash, value: T)
        requires
            old(self).wf(),
        ensures
            final(self).wf(),
            final(self)@ == old(self)@.insert(hash@, value@),
    {
        let p: usize = self.position(&hash);
        let found = p < self.entries.len() && self.entries[p].hash.same(&hash);
        let ghost before = self.entries@;
        proof {
            lemma_map_of(before);
        }
        if found {
            let entry = HashEntry { hash, value };
            self.entries.set(p, entry);
            proof {
                let after = self.entries@;
                assert(after == before.update(p as int, entry));
                assert forall|i: int, j: int| 0 <= i < j < after.len() implies ordering::lex_less(
                    (#[trigger] after[i]).hash@,
                    (#[trigger] after[j]).hash@,
                ) by {
                    assert(after[i].hash@ == before[i].hash@);
                    assert(after[j].hash@ == before[j].hash@);
                    assert(ordering::lex_less(before[i].hash@, before[j].hash@));
                }
                lemma_map_of(after);
                lemma_same_map(before, after, p as int, entry);
            }
        } else {
            let entry = HashEntry { hash, value };
            self.entries.insert(p, entry);
            proof {
                let after = self.entries@;
                assert(after == before.insert(p as int, entry));
                assert forall|i: int| p <= i < before.len() implies ordering::lex_less(
                    hash@,
                    (#[trigger] before[i]).hash@,
                ) by {
                    if !ordering::lex_less(hash@, before[i].hash@) {
                        ordering::lemma_lex_total(hash@, before[i].hash@);
                        if i > p {
                            assert(ordering::lex_less(
                                before[p as int].hash@,
                                before[i].hash@,
                            ));
                        }
                    }
                }
                assert forall|i: int, j: int| 0 <= i < j < after.len() implies ordering::lex_less(
                    (#[trigger] after[i]).hash@,
                    (#[trigger] after[j]).hash@,
                ) by {
                    if i == p {
                        assert(after[j] == before[j - 1]);
                    } else if j == p {
                        assert(after[i] == before[i]);
                    } else {
                        let a = if i < p {
                            i
                        } else {
                            i - 1
                        };
                        let b = if j < p {
                            j
                        } else {
                            j - 1
                        };
                        assert(after[i] == before[a] && after[j] == before[b]);
                        assert(ordering::lex_less(before[a].hash@, before[b].hash@));
                    }
                }
                lemma_map_of(after);
                lemma_inserted_map(before, after, p as int, entry);
            }
        }
    }

    /// Takes out what is noted under a hash.
    pub fn take(&mut self, hash: &ChunkHash) -> (r: Option<T>)
        requires
            old(self).wf(),
        ensures
            final(self).wf(),
            final(self)@ == old(self)@.remove(hash@),
            r is Some <==> old(self)@.contains_key(hash@),
            r matches Some(v) ==> v@ == old(self)@[hash@],
    {
        let found = self.find(hash);
        let ghost before = self.entries@;
        match found {
            Some(p) => {
                let gone = self.entries.remove(p);
                proof {
                    let after = self.entries@;
                    assert(after == before.remove(p as int));
                    assert forall|i: int, j: int|
                        0 <= i < j < after.len() implies ordering::lex_less(
                        (#[trigger] after[i]).hash@,
                        (#[trigger] after[j]).hash@,
                    ) by {
                        let a = if i < p {
                            i
                        } else {
                            i + 1
                        };
                        let b = if j < p {
                            j
                        } else {
                            j + 1
                        };
                        assert(after[i] == before[a] && after[j] == before[b]);
                        assert(ordering::lex_less(before[a].hash@, before[b].hash@));
                    }
                    lemma_removed_map(before, after, p as int);
                }
                Some(gone.value)
            },
            None => {
                assert(map_of(before).remove(hash@) =~= map_of(before));
                None
            },
        }
    }

    /// Forgets a hash.
    pub fn remove(&mut self, hash: &ChunkHash)
        requires
            old(self).wf(),
        ensures
            final(self).wf(),
            final(self)@ == old(self)@.remove(hash@),
    {
        let _ = self.take(hash);
    }

    pub fn is_empty(&self) -> (r: bool)
        requires
            self.wf(),
        ensures
            r <==> self@ == Map::<Seq<u8>, T::V>::empty(),
    {
        proof {
            lemma_map_of(self.entries@);
            if self.entries@.len() > 0 {
                assert(self@.contains_key(self.entries@[0].hash@));
            } else {
                assert(self@ =~= Map::<Seq<u8>, T::V>::empty());
            }
        }
        self.entries.len() == 0
    }
}

proof fn lemma_same_map<T: View>(
    before: Seq<HashEntry<T>>,
    after: Seq<HashEntry<T>>,
    p: int,
    entry: HashEntry<T>,
)
    requires
        hashes_rise(before),
        hashes_rise(after),
        0 <= p < before.len(),
        before[p].hash@ == entry.hash@,
        after == before.update(p, entry),
    ensures
        map_of(after) == map_of(before).insert(entry.hash@, entry.value@),
{
    lemma_map_of(before);
    lemma_map_of(after);
    let want = map_of(before).insert(entry.hash@, entry.value@);
    assert forall|h: Seq<u8>| #[trigger] map_of(after).contains_key(h) <==> want.contains_key(h) by {
        if map_of(after).contains_key(h) {
            let i = choose|i: int| 0 <= i < after.len() && (#[trigger] after[i]).hash@ == h;
            assert(before[i].hash@ == h);
        }
        if map_of(before).contains_key(h) {
            let i = choose|i: int| 0 <= i < before.len() && (#[trigger] before[i]).hash@ == h;
            assert(after[i].hash@ == h);
        }
        if h == entry.hash@ {
            assert(after[p].hash@ == h);
        }
    }
    assert forall|h: Seq<u8>| #[trigger] map_of(after).contains_key(h) implies map_of(after)[h]
        == want[h] by {
        let i = choose|i: int| 0 <= i < after.len() && (#[trigger] after[i]).hash@ == h;
        if i != p {
            assert(before[i].hash@ == h);
            if h == entry.hash@ {
                ordering::lemma_lex_irreflexive(h);
                if i < p {
                    assert(ordering::lex_less(before[i].hash@, before[p].hash@));
                } else {
                    assert(ordering::lex_less(before[p].hash@, before[i].hash@));
                }
            }
        }
    }
    assert(map_of(after) =~= want);
}

proof fn lemma_inserted_map<T: View>(
    before: Seq<HashEntry<T>>,
    after: Seq<HashEntry<T>>,
    p: int,
    entry: HashEntry<T>,
)
    requires
        hashes_rise(before),
        hashes_rise(after),
        0 <= p <= before.len(),
        after == before.insert(p, entry),
    ensures
        map_of(after) == map_of(before).insert(entry.hash@, entry.value@),
{
    lemma_map_of(before);
    lemma_map_of(after);
    let want = map_of(before).insert(entry.hash@, entry.value@);
    assert(after[p] == entry);
    assert forall|h: Seq<u8>| #[trigger] map_of(after).contains_key(h) <==> want.contains_key(h) by {
        if map_of(after).contains_key(h) {
            let i = choose|i: int| 0 <= i < after.len() && (#[trigger] after[i]).hash@ == h;
            if i < p {
                assert(before[i].hash@ == h);
            } else if i > p {
                assert(before[i - 1].hash@ == h);
            }
        }
        if map_of(before).contains_key(h) {
            let i = choose|i: int| 0 <= i < before.len() && (#[trigger] before[i]).hash@ == h;
            if i < p {
                assert(after[i].hash@ == h);
            } else {
                assert(after[i + 1].hash@ == h);
            }
        }
    }
    assert forall|h: Seq<u8>| #[trigger] map_of(after).contains_key(h) implies map_of(after)[h]
        == want[h] by {
        let i = choose|i: int| 0 <= i < after.len() && (#[trigger] after[i]).hash@ == h;
        ordering::lemma_lex_irreflexive(h);
        if i != p && h == entry.hash@ {
            if i < p {
                assert(ordering::lex_less(after[i].hash@, after[p].hash@));
            } else {
                assert(ordering::lex_less(after[p].hash@, after[i].hash@));
            }
        }
        if i < p {
            assert(before[i].hash@ == h);
        } else if i > p {
            assert(before[i - 1].hash@ == h);
        }
    }
    assert(map_of(after) =~= want);
}

proof fn lemma_removed_map<T: View>(before: Seq<HashEntry<T>>, after: Seq<HashEntry<T>>, p: int)
    requires
        hashes_rise(before),
        hashes_rise(after),
        0 <= p < before.len(),
        after == before.remove(p),
    ensures
        map_of(after) == map_of(before).remove(before[p].hash@),
{
    lemma_map_of(before);
    lemma_map_of(after);
    let gone = before[p].hash@;
    let want = map_of(before).remove(gone);
    assert forall|h: Seq<u8>| #[trigger] map_of(after).contains_key(h) <==> want.contains_key(h) by {
        if map_of(after).contains_key(h) {
            let i = choose|i: int| 0 <= i < after.len() && (#[trigger] after[i]).hash@ == h;
            let a = if i < p {
                i
            } else {
                i + 1
            };
            assert(before[a].hash@ == h);
            ordering::lemma_lex_irreflexive(h);
            if a < p {
                assert(ordering::lex_less(before[a].hash@, before[p].hash@));
            } else {
                assert(ordering::lex_less(before[p].hash@, before[a].hash@));
            }
        }
        if want.contains_key(h) {
            let i = choose|i: int| 0 <= i < before.len() && (#[trigger] before[i]).hash@ == h;
            if i < p {
                assert(after[i].hash@ == h);
            } else {
                assert(after[i - 1].hash@ == h);
            }
        }
    }
    assert forall|h: Seq<u8>| #[trigger] map_of(after).contains_key(h) implies map_of(after)[h]
        == want[h] by {
        let i = choose|i: int| 0 <= i < after.len() && (#[trigger] after[i]).hash@ == h;
        let a = if i < p {
            i
        } else {
            i + 1
        };
        assert(before[a].hash@ == h && after[i] == before[a]);
    }
    assert(map_of(after) =~= want);
}

} // verus!

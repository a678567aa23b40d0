//! The volumes of an archive: their file names, and the search for them.
use vstd::prelude::*;

use crate::ordering;
use crate::ordering::{stable_order, NumberKeys};
use crate::text;
use crate::text::chars_of;
use crate::types::EraError;

verus! {

/// Whether `mark` stands in `s` at position `i`.
pub open spec fn stands_at(s: Seq<char>, mark: Seq<char>, i: int) -> bool {
    0 <= i && i + mark.len() <= s.len() && s.subrange(i, i + mark.len()) == mark
}

/// The last position below `n` at which `mark` stands in `s`.
pub open spec fn last_position(s: Seq<char>, mark: Seq<char>, n: int) -> Option<int>
    decreases n,
{
    if n <= 0 {
        None
    } else if stands_at(s, mark, n - 1) {
        Some(n - 1)
    } else {
        last_position(s, mark, n - 1)
    }
}

/// The name of an archive's volume 0, by the name of any of its volumes: a name
/// that ends in `.era` is that name itself, otherwise what follows the last
/// `.era` before a dot is cut off.
pub open spec fn base_name_of(name: Seq<char>) -> Seq<char> {
    if stands_at(name, ".era"@, name.len() - 4) {
        name
    } else {
        match last_position(name, ".era."@, name.len() as int) {
            Some(i) => name.take(i + 4),
            None => name,
        }
    }
}

fn chars_stand_at(s: &Vec<char>, mark: &Vec<char>, i: usize) -> (r: bool)
    ensures
        r == stands_at(s@, mark@, i as int),
{
    if mark.len() > s.len() || i > s.len() - mark.len() {
        return false;
    }
    let mut k: usize = 0;
    while k < mark.len()
        invariant
            k <= mark.len(),
            i + mark.len() <= s.len(),
            forall|j: int| 0 <= j < k ==> s@[i + j] == mark@[j],
        decreases mark.len() - k,
    {
        if s[i + k] != mark[k] {
            assert(s@.subrange(i as int, i + mark.len())[k as int] != mark@[k as int]);
            return false;
        }
        k = k + 1;
    }
    assert(s@.subrange(i as int, i + mark@.len()) =~= mark@);
    true
}

/// The name of volume 0 of the archive that `name` is a volume of.
pub fn base_name(name: &str) -> (r: String)
    ensures
        r@ == base_name_of(name@),
{
    let chars = chars_of(name);
    let plain = chars_of(".era");
    let dotted = chars_of(".era.");
    proof {
        reveal_strlit(".era");
        reveal_strlit(".era.");
    }
    if chars.len() >= 4 && chars_stand_at(&chars, &plain, chars.len() - 4) {
        return String::from_str(name);
    }
    let mut n: usize = chars.len();
    while n > 0
        invariant
            n <= chars@.len(),
            chars@ == name@,
            dotted@ == ".era."@,
            dotted@.len() == 5,
            !stands_at(name@, ".era"@, name@.len() - 4),
            last_position(name@, ".era."@, name@.len() as int) == last_position(
                name@,
                ".era."@,
                n as int,
            ),
        decreases n,
    {
        if chars_stand_at(&chars, &dotted, n - 1) {
            assert(n - 1 + 5 <= chars@.len());
            let size: usize = chars.len();
            assert(n + 4 <= size);
            let end: usize = n + 3;
            return String::from_str(name.substring_char(0, end));
        }
        n = n - 1;
    }
    String::from_str(name)
}

/// `n` with at least three digits.
pub open spec fn three_digits(n: nat) -> Seq<char> {
    if n < 10 {
        "00"@ + text::decimal(n)
    } else if n < 100 {
        "0"@ + text::decimal(n)
    } else {
        text::decimal(n)
    }
}

/// The name of volume `i`: the base name itself for volume 0, otherwise with
/// the number behind it.
pub open spec fn volume_name(base: Seq<char>, i: nat) -> Seq<char> {
    if i == 0 {
        base
    } else {
        base + "."@ + three_digits(i)
    }
}

pub fn volume_file_name(base: &str, i: usize) -> (r: String)
    ensures
        r@ == volume_name(base@, i as nat),
{
    let mut r: String = String::from_str(base);
    if i == 0 {
        return r;
    }
    r.append(".");
    if i < 10 {
        r.append("00");
    } else if i < 100 {
        r.append("0");
    }
    text::push_decimal(&mut r, i as u64);
    assert(r@ =~= volume_name(base@, i as nat));
    r
}

/// The name of any numbered volume leads back to the base name.
pub proof fn law_volume_name_leads_to_base(stem: Seq<char>, i: nat)
    requires
        i > 0,
    ensures
        base_name_of(volume_name(stem + ".era"@, i)) == stem + ".era"@,
{
    reveal_strlit(".era");
    reveal_strlit(".era.");
    reveal_strlit(".");
    reveal_strlit("0");
    reveal_strlit("00");
    let base = stem + ".era"@;
    let digits = three_digits(i);
    let name = volume_name(base, i);
    assert(name =~= stem + ".era."@ + digits);
    lemma_decimal_digits(i);
    assert(digits.len() >= 3);
    assert forall|k: int| 0 <= k < digits.len() implies '0' <= #[trigger] digits[k] <= '9' by {}
    // The name ends in a digit, so it does not end in ".era".
    let e = name.len() - 4;
    if stands_at(name, ".era"@, e) {
        assert(name.subrange(e, e + 4)[3] == name[name.len() - 1]);
        assert(name[name.len() - 1] == digits[digits.len() - 1]);
        assert(".era"@[3] == 'a');
    }
    // The last ".era." stands right behind the stem: what follows are digits.
    let p = stem.len() as int;
    assert(name.subrange(p, p + 5) =~= ".era."@);
    assert(stands_at(name, ".era."@, p));
    assert forall|j: int| p < j < name.len() implies !stands_at(name, ".era."@, j) by {
        if stands_at(name, ".era."@, j) {
            let w = name.subrange(j, j + 5);
            assert(w[4] == name[j + 4]);
            assert(".era."@[4] == '.');
            assert(name[j + 4] == digits[j + 4 - (p + 5)]);
        }
    }
    lemma_last_position(name, ".era."@, p, name.len() as int);
    assert(name.take(p + 4) =~= base);
}

proof fn lemma_last_position(s: Seq<char>, mark: Seq<char>, p: int, n: int)
    requires
        0 <= p < n,
        stands_at(s, mark, p),
        forall|j: int| p < j < n ==> !stands_at(s, mark, j),
    ensures
        last_position(s, mark, n) == Some(p),
    decreases n,
{
    if n - 1 > p {
        lemma_last_position(s, mark, p, n - 1);
    }
}

proof fn lemma_decimal_digits(n: nat)
    ensures
        text::decimal(n).len() >= 1,
        n >= 10 ==> text::decimal(n).len() >= 2,
        n >= 100 ==> text::decimal(n).len() >= 3,
        forall|k: int|
            0 <= k < text::decimal(n).len() ==> '0' <= #[trigger] text::decimal(n)[k] <= '9',
    decreases n,
{
    if n >= 10 {
        lemma_decimal_digits(n / 10);
    }
}

/// A volume that was found: its number in the archive, and the position of its
/// reader among those opened.
#[derive(Debug, Clone, Copy, PartialEq, Eq, Structural)]
pub struct FoundVolume {
    pub sequence: usize,
    pub reader: usize,
}

/// What trying one file name came to.
#[derive(Debug, Clone, Copy, PartialEq, Eq, Structural)]
pub enum VolumeProbe {
    /// No such file.
    Absent,
    /// The file cannot be opened as a volume, or is of another archive.
    Unusable,
    /// A volume of this archive, with its number.
    Found(usize),
}

/// Names beyond this are not tried where the number of volumes is not known.
pub const MAX_SCAN: usize = 32;

/// How many names in a row may be missing before the search is given up: one
/// more than a stripe has parity shards, two at least.
pub fn scan_tolerance(parity_shards: Option<u8>) -> (r: usize)
    ensures
        r == (match parity_shards {
            Some(p) => if p >= 1 {
                p + 1
            } else {
                2
            },
            None => 2,
        }),
{
    match parity_shards {
        Some(p) => {
            if p >= 1 {
                p as usize + 1
            } else {
                2
            }
        },
        None => 2,
    }
}

/// The search for the volumes of an archive that is to be read. It starts from
/// one open volume, whose reader has position 0, and tries the names of the
/// others in order.
#[derive(Debug)]
pub struct VolumeSearch {
    /// Volumes that the archive has, 0 where it is not known.
    pub total: u16,
    /// The number of the volume that is open already.
    pub first: u16,
    pub tolerance: usize,
    /// The name to be tried next.
    pub next: usize,
    /// Names missing in a row.
    pub missing: usize,
    /// Readers opened.
    pub readers: usize,
    pub found: Vec<FoundVolume>,
    pub stopped: bool,
}

/// How many names are tried.
pub open spec fn scan_limit(total: u16) -> usize {
    if total > 0 {
        total as usize
    } else {
        MAX_SCAN
    }
}

impl VolumeSearch {
    pub open spec fn limit(&self) -> usize {
        scan_limit(self.total)
    }

    /// The first volume stands among those found once its number was passed.
    pub open spec fn wf(&self) -> bool {
        &&& self.next <= self.limit()
        &&& self.missing <= self.next
        &&& 1 <= self.readers <= self.next + 1
        &&& self.found@.len() == self.readers - if self.first < self.next {
            0int
        } else {
            1
        }
        &&& forall|k: int|
            0 <= k < self.found@.len() ==> (#[trigger] self.found@[k]).reader < self.readers
        &&& (self.first < self.next) == exists|k: int|
            0 <= k < self.found@.len() && (#[trigger] self.found@[k]).reader == 0
        &&& forall|k: int|
            0 <= k < self.found@.len() && (#[trigger] self.found@[k]).reader == 0
                ==> self.found@[k].sequence == self.first
        &&& forall|k: int, l: int|
            0 <= k < l < self.found@.len() ==> (#[trigger] self.found@[k]).reader != (
            #[trigger] self.found@[l]).reader
        &&& !self.stopped && self.next < self.limit() ==> self.next != self.first
    }

    /// The search with the open volume noted, if its number is due.
    pub open spec fn is_passed(self, from: VolumeSearch) -> bool {
        if !from.stopped && from.next == from.first && from.next < from.limit() {
            &&& self.next == from.next + 1
            &&& self.missing == 0
            &&& self.found@ == from.found@.push(FoundVolume { sequence: from.first as usize, reader: 0 })
        } else {
            &&& self.next == from.next
            &&& self.missing == from.missing
            &&& self.found@ == from.found@
        }
    }

    pub fn new(total: u16, first: u16, parity_shards: Option<u8>) -> (s: Self)
        ensures
            s.wf(),
            s.total == total,
            s.first == first,
            s.readers == 1,
            !s.stopped,
            s.missing == 0,
            first == 0 ==> s.next == 1 && s.found@ == seq![
                FoundVolume { sequence: 0, reader: 0 },
            ],
            first != 0 ==> s.next == 0 && s.found@.len() == 0,
            s.tolerance == (match parity_shards {
                Some(p) => if p >= 1 {
                    p + 1
                } else {
                    2
                },
                None => 2,
            }),
    {
        let mut found: Vec<FoundVolume> = Vec::new();
        let mut next: usize = 0;
        if first == 0 {
            found.push(FoundVolume { sequence: 0, reader: 0 });
            next = 1;
            assert(found@[0].reader == 0);
        }
        let s = VolumeSearch {
            total,
            first,
            tolerance: scan_tolerance(parity_shards),
            next,
            missing: 0,
            readers: 1,
            found,
            stopped: false,
        };
        proof {
            if first == 0 {
                assert(s.found@[0].reader == 0);
            }
        }
        s
    }

    /// The number of the name to be tried next, if one is left.
    pub fn candidate(&self) -> (r: Option<usize>)
        ensures
            r == if self.stopped || self.next >= self.limit() {
                None
            } else {
                Some(self.next)
            },
    {
        let limit: usize = if self.total > 0 {
            self.total as usize
        } else {
            MAX_SCAN
        };
        if self.stopped || self.next >= limit {
            None
        } else {
            Some(self.next)
        }
    }

    /// Takes what trying the candidate came to. A missing name ends the search
    /// only where the number of volumes is not known and too many in a row are
    /// missing.
    pub fn on_probe(&mut self, probe: VolumeProbe)
        requires
            old(self).wf(),
            !old(self).stopped,
            old(self).next < old(self).limit(),
        ensures
            final(self).wf(),
            final(self).total == old(self).total,
            final(self).first == old(self).first,
            final(self).tolerance == old(self).tolerance,
            final(self).stopped == (probe is Absent && old(self).total == 0 && old(self).missing + 1
                >= old(self).tolerance),
            final(self).readers == old(self).readers + if probe is Found {
                1int
            } else {
                0
            },
            exists|mid: VolumeSearch| #[trigger]
                final(self).is_passed(mid) && mid.is_tried(*old(self), probe),
    {
        let limit: usize = if self.total > 0 {
            self.total as usize
        } else {
            MAX_SCAN
        };
        let ghost start = *self;
        match probe {
            VolumeProbe::Absent => {
                self.missing = self.missing + 1;
                if self.total == 0 && self.missing >= self.tolerance {
                    self.stopped = true;
                }
            },
            VolumeProbe::Unusable => {
                self.missing = 0;
            },
            VolumeProbe::Found(sequence) => {
                self.missing = 0;
                let v = FoundVolume { sequence, reader: self.readers };
                self.found.push(v);
                self.readers = self.readers + 1;
                proof {
                    let f = self.found@;
                    if exists|k: int| 0 <= k < start.found@.len() && start.found@[k].reader == 0 {
                        let k = choose|k: int|
                            0 <= k < start.found@.len() && start.found@[k].reader == 0;
                        assert(f[k].reader == 0);
                    }
                }
            },
        }
        self.next = self.next + 1;
        let ghost mid = *self;
        assert(mid.is_tried(start, probe));
        if !self.stopped && self.next == self.first as usize && self.next < limit {
            let ghost before = self.found@;
            self.found.push(FoundVolume { sequence: self.first as usize, reader: 0 });
            self.next = self.next + 1;
            self.missing = 0;
            assert(self.found@[before.len() as int].reader == 0);
        } else if self.stopped {
            assert(self.is_passed(mid));
        }
        assert(self.is_passed(mid));
    }

    /// The volumes that the search comes to: those found, and the one that was
    /// open at first, last where its number was never due.
    pub open spec fn opened(&self) -> Seq<FoundVolume> {
        if self.first < self.next {
            self.found@
        } else {
            self.found@.push(FoundVolume { sequence: self.first as usize, reader: 0 })
        }
    }

    /// Ends the search: every volume that was opened, by its number.
    pub fn finish(self) -> (r: Vec<FoundVolume>)
        requires
            self.wf(),
        ensures
            is_sorted_list(r@, self.opened()),
            r@.len() == self.readers,
    {
        let passed = (self.first as usize) < self.next;
        let ghost all = self.opened();
        let ghost readers = self.readers;
        let mut list = self.found;
        if !passed {
            list.push(FoundVolume { sequence: self.first as usize, reader: 0 });
        }
        assert(list@ == all);
        sort_volumes(&list)
    }

    /// Every reader that was opened is handed out, the first one included: with
    /// its own number, and once.
    pub proof fn law_every_reader_is_kept(&self)
        requires
            self.wf(),
        ensures
            exists|k: int|
                0 <= k < self.opened().len() && (#[trigger] self.opened()[k]).reader == 0
                    && self.opened()[k].sequence == self.first,
            forall|k: int|
                0 <= k < self.opened().len() ==> (#[trigger] self.opened()[k]).reader
                    < self.readers,
            forall|k: int, l: int|
                0 <= k < l < self.opened().len() ==> (#[trigger] self.opened()[k]).reader != (
                #[trigger] self.opened()[l]).reader,
            self.opened().len() == self.readers,
    {
        if self.first < self.next {
            let k = choose|k: int|
                0 <= k < self.found@.len() && (#[trigger] self.found@[k]).reader == 0;
            assert(self.opened()[k].reader == 0);
        } else {
            let n = self.found@.len() as int;
            assert(self.opened()[n].reader == 0);
        }
    }

    /// The search after trying one name, before the open volume is passed.
    pub open spec fn is_tried(self, from: VolumeSearch, probe: VolumeProbe) -> bool {
        &&& self.total == from.total
        &&& self.first == from.first
        &&& self.next == from.next + 1
        &&& self.missing == if probe is Absent {
            from.missing + 1
        } else {
            0
        }
        &&& self.stopped == (probe is Absent && from.total == 0 && from.missing + 1
            >= from.tolerance)
        &&& self.found@ == match probe {
            VolumeProbe::Found(sequence) => from.found@.push(
                FoundVolume { sequence, reader: from.readers },
            ),
            _ => from.found@,
        }
    }
}

/// The numbers of the volumes, as keys.
pub open spec fn sequences_of(list: Seq<FoundVolume>) -> Seq<u64> {
    list.map_values(|v: FoundVolume| v.sequence as u64)
}

/// `r` is `list` by the volumes' numbers; of equal numbers the one found first
/// comes first.
pub open spec fn is_sorted_list(r: Seq<FoundVolume>, list: Seq<FoundVolume>) -> bool {
    &&& r.len() == list.len()
    &&& exists|keys: NumberKeys, order: Seq<usize>| #[trigger]
        ordering::is_stable_order(&keys, order) && keys.keys@ == sequences_of(list) && forall|k: int|
            0 <= k < r.len() ==> #[trigger] r[k] == list[order[k] as int]
}

/// Sorts volumes by their number; of equal numbers the one found first comes
/// first.
pub fn sort_volumes(list: &Vec<FoundVolume>) -> (r: Vec<FoundVolume>)
    ensures
        is_sorted_list(r@, list@),
        forall|k: int, l: int|
            0 <= k < l < r@.len() ==> (#[trigger] r@[k]).sequence <= (#[trigger] r@[l]).sequence,
{
    let mut numbers: Vec<u64> = Vec::new();
    let mut i: usize = 0;
    while i < list.len()
        invariant
            i <= list.len(),
            numbers@ == sequences_of(list@.take(i as int)),
        decreases list.len() - i,
    {
        numbers.push(list[i].sequence as u64);
        assert(list@.take(i + 1) =~= list@.take(i as int).push(list@[i as int]));
        assert(numbers@ =~= sequences_of(list@.take(i + 1)));
        i = i + 1;
    }
    assert(list@.take(list.len() as int) =~= list@);
    let keys = NumberKeys { keys: numbers };
    let order: Vec<usize> = stable_order(&keys);
    let mut r: Vec<FoundVolume> = Vec::new();
    let mut k: usize = 0;
    while k < order.len()
        invariant
            k <= order.len(),
            r@.len() == k,
            order@.len() == list@.len(),
            forall|j: int| 0 <= j < order@.len() ==> #[trigger] order@[j] < list@.len(),
            forall|j: int| 0 <= j < k ==> #[trigger] r@[j] == list@[order@[j] as int],
        decreases order.len() - k,
    {
        r.push(list[order[k]]);
        k = k + 1;
    }
    proof {
        assert forall|k: int, l: int| 0 <= k < l < r@.len() implies (#[trigger] r@[k]).sequence <= (
        #[trigger] r@[l]).sequence by {
            assert(ordering::comes_before(&keys, order@[k] as int, order@[l] as int));
        }
    }
    r
}

/// The volumes of an archive that were not found, in order.
pub fn missing_volumes(expected: usize, found: &Vec<u16>) -> (r: Vec<usize>)
    ensures
        forall|k: int, l: int| 0 <= k < l < r@.len() ==> #[trigger] r@[k] < #[trigger] r@[l],
        forall|i: usize|
            #[trigger] r@.contains(i) <==> i < expected && !(i <= u16::MAX && found@.contains(
                i as u16,
            )),
{
    let mut r: Vec<usize> = Vec::new();
    let mut i: usize = 0;
    while i < expected
        invariant
            i <= expected,
            forall|k: int| 0 <= k < r@.len() ==> #[trigger] r@[k] < i,
            forall|k: int, l: int| 0 <= k < l < r@.len() ==> #[trigger] r@[k] < #[trigger] r@[l],
            forall|j: usize|
                #[trigger] r@.contains(j) <==> j < i && !(j <= u16::MAX && found@.contains(
                    j as u16,
                )),
        decreases expected - i,
    {
        let ghost before = r@;
        if !has_sequence(found, i) {
            r.push(i);
            assert forall|j: usize| #[trigger] r@.contains(j) <==> before.contains(j) || j == i by {
                if before.contains(j) {
                    let k = choose|k: int| 0 <= k < before.len() && before[k] == j;
                    assert(r@[k] == j);
                }
                if j == i {
                    assert(r@[before.len() as int] == i);
                }
            }
        }
        i = i + 1;
    }
    r
}

fn has_sequence(found: &Vec<u16>, i: usize) -> (r: bool)
    ensures
        r == (i <= u16::MAX && found@.contains(i as u16)),
{
    let mut k: usize = 0;
    while k < found.len()
        invariant
            k <= found.len(),
            forall|j: int| 0 <= j < k ==> found@[j] as usize != i,
        decreases found.len() - k,
    {
        if found[k] as usize == i {
            assert(found@[k as int] == i as u16);
            return true;
        }
        k = k + 1;
    }
    false
}

/// `r` is the last position of `v` among the first `n` numbers.
pub open spec fn last_reader(found: Seq<u16>, v: int, n: int) -> Option<usize>
    decreases n,
{
    if n <= 0 {
        None
    } else if found[n - 1] == v {
        Some((n - 1) as usize)
    } else {
        last_reader(found, v, n - 1)
    }
}

/// For each of `total` volumes, the position of its number in `found`; the last
/// one, where a number occurs twice.
pub fn reader_map(found: &Vec<u16>, total: usize) -> (r: Vec<Option<usize>>)
    ensures
        r@.len() == (if total == 0 {
            1
        } else {
            total as int
        }),
        forall|v: int|
            0 <= v < r@.len() ==> #[trigger] r@[v] == last_reader(found@, v, found@.len() as int),
{
    let n: usize = if total == 0 {
        1
    } else {
        total
    };
    let mut r: Vec<Option<usize>> = Vec::new();
    let mut i: usize = 0;
    while i < n
        invariant
            i <= n,
            r@.len() == i,
            forall|v: int| 0 <= v < r@.len() ==> (#[trigger] r@[v]) is None,
        decreases n - i,
    {
        r.push(None);
        i = i + 1;
    }
    let mut k: usize = 0;
    while k < found.len()
        invariant
            k <= found.len(),
            r@.len() == n,
            forall|v: int| 0 <= v < n ==> #[trigger] r@[v] == last_reader(found@, v, k as int),
        decreases found.len() - k,
    {
        let s: usize = found[k] as usize;
        if s < n {
            r.set(s, Some(k));
        }
        k = k + 1;
    }
    r
}

/// A reader is found for a volume exactly where its number was found, and it is
/// a reader of that volume.
pub proof fn law_reader_map(found: Seq<u16>, v: int, n: int)
    requires
        0 <= n <= found.len() <= usize::MAX,
    ensures
        last_reader(found, v, n) is Some <==> exists|k: int| 0 <= k < n && found[k] == v,
        last_reader(found, v, n) matches Some(r) ==> r < n && found[r as int] == v,
    decreases n,
{
    if n > 0 {
        law_reader_map(found, v, n - 1);
    }
}

/// The search for the volumes of an archive that is to be repaired: up to five
/// missing names in a row are passed over, and all names up to the number of
/// volumes that the archive has.
#[derive(Debug)]
pub struct RepairVolumeSearch {
    pub total_volumes: u16,
    /// The number of the volume that is open already.
    pub first: u16,
    pub next: usize,
    pub missing: usize,
    /// The numbers of the volumes found, in the order of their readers.
    pub sequences: Vec<u16>,
    pub stopped: bool,
}

/// What trying one file name of an archive under repair came to.
#[derive(Debug, Clone, Copy, PartialEq, Eq, Structural)]
pub enum RepairProbe {
    /// The file is not there or cannot be opened as a volume.
    Failed,
    /// A volume of another archive.
    Foreign,
    /// A volume of this archive, with its number.
    Found(u16),
}

/// Missing names in a row that a repair passes over.
pub const MAX_GAP: usize = 5;

/// Names tried where the archive has fewer volumes.
pub const MIN_REPAIR_SCAN: u16 = 100;

impl RepairVolumeSearch {
    pub open spec fn limit(&self) -> int {
        if self.total_volumes > MIN_REPAIR_SCAN {
            self.total_volumes as int
        } else {
            MIN_REPAIR_SCAN as int
        }
    }

    pub open spec fn wf(&self) -> bool {
        &&& self.next <= self.limit()
        &&& self.missing <= self.next
        &&& self.sequences@.len() >= 1
        &&& self.sequences@[0] == self.first
        &&& self.next != self.first || self.next == self.limit()
    }

    /// The position behind `i`, the open volume passed over.
    pub open spec fn after(&self, i: int) -> int {
        if i == self.first && i < self.limit() {
            i + 1
        } else {
            i
        }
    }

    pub fn new(total_volumes: u16, first: u16) -> (s: Self)
        ensures
            s.wf(),
            s.total_volumes == total_volumes,
            s.first == first,
            s.next == s.after(0),
            s.missing == 0,
            s.sequences@ == seq![first],
            !s.stopped,
    {
        let mut sequences: Vec<u16> = Vec::new();
        sequences.push(first);
        assert(sequences@ =~= seq![first]);
        RepairVolumeSearch {
            total_volumes,
            first,
            next: if first == 0 {
                1
            } else {
                0
            },
            missing: 0,
            sequences,
            stopped: false,
        }
    }

    /// The number of the name to be tried next, if one is left.
    pub fn candidate(&self) -> (r: Option<usize>)
        ensures
            r == if self.stopped || self.next >= self.limit() {
                None
            } else {
                Some(self.next)
            },
    {
        let limit: u16 = if self.total_volumes > MIN_REPAIR_SCAN {
            self.total_volumes
        } else {
            MIN_REPAIR_SCAN
        };
        if self.stopped || self.next >= limit as usize {
            None
        } else {
            Some(self.next)
        }
    }

    /// Takes what trying the candidate came to.
    pub fn on_probe(&mut self, probe: RepairProbe)
        requires
            old(self).wf(),
            !old(self).stopped,
            old(self).next < old(self).limit(),
        ensures
            final(self).wf(),
            final(self).total_volumes == old(self).total_volumes,
            final(self).first == old(self).first,
            final(self).next == old(self).after(old(self).next + 1),
            final(self).missing == (match probe {
                RepairProbe::Failed => old(self).missing + 1,
                RepairProbe::Found(_) => 0,
                RepairProbe::Foreign => old(self).missing as int,
            }),
            final(self).sequences@ == (match probe {
                RepairProbe::Found(s) => old(self).sequences@.push(s),
                _ => old(self).sequences@,
            }),
            final(self).stopped == (match probe {
                RepairProbe::Failed => old(self).missing + 1 > MAX_GAP && old(self).next
                    >= old(self).total_volumes,
                RepairProbe::Foreign => true,
                RepairProbe::Found(_) => false,
            }),
    {
        let limit: u16 = if self.total_volumes > MIN_REPAIR_SCAN {
            self.total_volumes
        } else {
            MIN_REPAIR_SCAN
        };
        match probe {
            RepairProbe::Failed => {
                self.missing = self.missing + 1;
                if self.missing > MAX_GAP && self.next >= self.total_volumes as usize {
                    self.stopped = true;
                }
            },
            RepairProbe::Foreign => {
                self.stopped = true;
            },
            RepairProbe::Found(s) => {
                self.sequences.push(s);
                self.missing = 0;
            },
        }
        self.next = self.next + 1;
        if self.next == self.first as usize && self.next < limit as usize {
            self.next = self.next + 1;
        }
    }
}

/// The least number of volumes that a repair over several volumes needs.
pub fn check_enough_volumes(found: usize) -> (r: Result<(), EraError>)
    ensures
        r is Ok <==> found >= 2,
        r matches Err(e) ==> (e matches EraError::ErasureError(m) && m@
            == "Matrix-distributed archive has insufficient surviving volumes for repair"@),
{
    if found < 2 {
        return Err(
            EraError::ErasureError(
                String::from_str(
                    "Matrix-distributed archive has insufficient surviving volumes for repair",
                ),
            ),
        );
    }
    Ok(())
}

proof fn lemma_leading_zeros(zeros: Seq<char>, s: Seq<char>)
    requires
        forall|k: int| 0 <= k < zeros.len() ==> #[trigger] zeros[k] == '0',
    ensures
        text::decimal_value(zeros + s) == text::decimal_value(s),
    decreases zeros.len() + s.len(),
{
    if s.len() > 0 {
        assert((zeros + s).drop_last() =~= zeros + s.drop_last());
        lemma_leading_zeros(zeros, s.drop_last());
    } else {
        assert(zeros + s =~= zeros);
        if zeros.len() > 0 {
            let front = zeros.drop_last();
            assert forall|k: int| 0 <= k < front.len() implies #[trigger] front[k] == '0' by {
                assert(front[k] == zeros[k]);
            }
            lemma_leading_zeros(front, s);
            assert(front + s =~= front);
            assert(zeros.last() == zeros[zeros.len() - 1]);
        }
    }
}

/// A number with leading zeros has at least three digits and reads back as the
/// number; from one hundred on there are no leading zeros.
pub proof fn law_three_digits_are_read_back(n: nat)
    ensures
        text::decimal_value(three_digits(n)) == n,
        three_digits(n).len() >= 3,
        n < 1000 ==> three_digits(n).len() == 3,
        n >= 100 ==> three_digits(n)[0] != '0',
{
    reveal_strlit("0");
    reveal_strlit("00");
    text::law_decimal_is_read_back(n);
    lemma_decimal_digits(n);
    if n < 10 {
        lemma_leading_zeros("00"@, text::decimal(n));
    } else if n < 100 {
        lemma_leading_zeros("0"@, text::decimal(n));
    }
    if n < 1000 {
        reveal_with_fuel(text::decimal, 4);
    }
}

/// Two volumes of an archive never share a name, and the name of each starts with
/// that of the archive.
pub proof fn law_volume_names_differ(base: Seq<char>, i: nat, j: nat)
    ensures
        volume_name(base, 0) == base,
        base.is_prefix_of(volume_name(base, i)),
        i != j ==> volume_name(base, i) != volume_name(base, j),
{
    reveal_strlit(".");
    law_three_digits_are_read_back(i);
    law_three_digits_are_read_back(j);
    assert(base.is_prefix_of(volume_name(base, i)));
    if i != j && volume_name(base, i) == volume_name(base, j) {
        let a = volume_name(base, i);
        let b = volume_name(base, j);
        if i == 0 || j == 0 {
            assert(a.len() == b.len());
        } else {
            let n = base.len() as int + 1;
            assert(a.skip(n) =~= three_digits(i));
            assert(b.skip(n) =~= three_digits(j));
        }
        assert(false);
    }
}

proof fn lemma_found_position(s: Seq<char>, mark: Seq<char>, n: int)
    ensures
        last_position(s, mark, n) matches Some(i) ==> 0 <= i < n && stands_at(s, mark, i),
    decreases n,
{
    if n > 0 && !stands_at(s, mark, n - 1) {
        lemma_found_position(s, mark, n - 1);
    }
}

/// The base name is a start of the name, the whole of it or one that ends in
/// `.era`, and is its own base name. A name that ends in `.era` is one already.
pub proof fn law_base_name_is_settled(name: Seq<char>)
    ensures
        base_name_of(name).is_prefix_of(name),
        base_name_of(base_name_of(name)) == base_name_of(name),
        base_name_of(name) != name ==> ".era"@.is_suffix_of(base_name_of(name)),
        ".era"@.is_suffix_of(name) ==> base_name_of(name) == name,
{
    reveal_strlit(".era");
    reveal_strlit(".era.");
    lemma_found_position(name, ".era."@, name.len() as int);
    if ".era"@.is_suffix_of(name) {
        assert(name.subrange(name.len() - 4, name.len() as int) =~= ".era"@);
        assert(stands_at(name, ".era"@, name.len() - 4));
    }
    if !stands_at(name, ".era"@, name.len() - 4) {
        if let Some(i) = last_position(name, ".era."@, name.len() as int) {
            let base = name.take(i + 4);
            assert(name.subrange(i, i + 5) == ".era."@);
            let w = base.subrange(i, i + 4);
            assert forall|k: int| 0 <= k < 4 implies #[trigger] w[k] == ".era"@[k] by {
                assert(w[k] == name[i + k]);
                assert(name.subrange(i, i + 5)[k] == name[i + k]);
                assert(".era."@[k] == ".era"@[k]);
            }
            assert(w =~= ".era"@);
            assert(base.subrange(base.len() - 4, base.len() as int) =~= ".era"@);
            assert(stands_at(base, ".era"@, base.len() - 4));
        }
    }
}

/// A step of the search keeps all that was found and adds what the name led to; it
/// leaves out no name but that of the volume that is open already.
pub proof fn law_search_keeps_what_it_finds(
    from: VolumeSearch,
    mid: VolumeSearch,
    to: VolumeSearch,
    probe: VolumeProbe,
)
    requires
        mid.is_tried(from, probe),
        to.is_passed(mid),
    ensures
        from.found@.is_prefix_of(to.found@),
        probe matches VolumeProbe::Found(n) ==> to.found@.contains(
            FoundVolume { sequence: n, reader: from.readers },
        ),
        forall|k: int|
            from.found@.len() <= k < to.found@.len() ==> (#[trigger] to.found@[k] == FoundVolume {
                sequence: from.first as usize,
                reader: 0,
            } || probe == VolumeProbe::Found(to.found@[k].sequence)),
        to.next == from.next + 1 || (to.next == from.next + 2 && from.next + 1 == from.first),
        mid.stopped ==> probe is Absent && from.total == 0,
        from.total == 0 && from.tolerance <= 1 && probe is Absent ==> mid.stopped,
        probe is Absent && !mid.stopped && to.next == from.next + 1 ==> to.missing == from.missing
            + 1,
        probe !is Absent ==> to.missing == 0,
{
    if let VolumeProbe::Found(n) = probe {
        assert(mid.found@[from.found@.len() as int] == FoundVolume {
            sequence: n,
            reader: from.readers,
        });
        assert(to.found@[from.found@.len() as int] == mid.found@[from.found@.len() as int]);
    }
}

/// Where the number of volumes is known each of their names is tried; where it is not
/// known, the first thirty-two. A missing name ends the search only in the latter, as
/// soon as the last so many in a row were missing.
pub proof fn law_how_far_is_searched(from: VolumeSearch, mid: VolumeSearch, probe: VolumeProbe)
    requires
        mid.is_tried(from, probe),
    ensures
        from.total > 0 ==> from.limit() == from.total && !mid.stopped,
        from.total == 0 ==> from.limit() == 32,
        from.total == 0 ==> (mid.stopped <==> mid.missing >= from.tolerance && probe is Absent),
{
}

/// Sorting volumes loses none and adds none, and their numbers rise.
pub proof fn law_sorted_volumes_are_the_same(r: Seq<FoundVolume>, list: Seq<FoundVolume>)
    requires
        is_sorted_list(r, list),
    ensures
        r.len() == list.len(),
        forall|i: int| 0 <= i < list.len() ==> r.contains(#[trigger] list[i]),
        forall|k: int| 0 <= k < r.len() ==> list.contains(#[trigger] r[k]),
        forall|k: int, l: int|
            0 <= k < l < r.len() ==> (#[trigger] r[k]).sequence <= (#[trigger] r[l]).sequence,
{
    let (keys, order) = choose|keys: NumberKeys, order: Seq<usize>| #[trigger]
        ordering::is_stable_order(&keys, order) && keys.keys@ == sequences_of(list) && forall|k: int|
            0 <= k < r.len() ==> #[trigger] r[k] == list[order[k] as int];
    assert(keys.keys.len() == list.len());
    assert forall|i: int| 0 <= i < list.len() implies r.contains(#[trigger] list[i]) by {
        assert(order.contains(i as usize));
        let k = choose|k: int| 0 <= k < order.len() && order[k] == i as usize;
        assert(r[k] == list[order[k] as int]);
    }
    assert forall|k: int, l: int| 0 <= k < l < r.len() implies (#[trigger] r[k]).sequence <= (
    #[trigger] r[l]).sequence by {
        assert(ordering::comes_before(&keys, order[k] as int, order[l] as int));
        assert(keys.keys@[order[k] as int] == list[order[k] as int].sequence as u64);
        assert(keys.keys@[order[l] as int] == list[order[l] as int].sequence as u64);
    }
}

/// A repair tries the names of all volumes and at least a hundred, and of these leaves
/// out that of the open volume alone.
pub proof fn law_repair_tries_every_name(s: RepairVolumeSearch, i: int)
    requires
        0 <= i,
    ensures
        s.limit() >= s.total_volumes,
        s.limit() >= 100,
        s.limit() == s.total_volumes || s.limit() == 100,
        i != s.first ==> s.after(i) == i,
        i == s.first && i < s.limit() ==> s.after(i) == i + 1,
        s.after(s.limit()) == s.limit(),
{
}

/// More names in a row may be missing than a stripe can lose shards, and at least one.
pub proof fn law_tolerance_covers_the_parity(parity_shards: Option<u8>, r: usize)
    requires
        call_ensures(scan_tolerance, (parity_shards,), r),
    ensures
        r >= 2,
        parity_shards matches Some(p) ==> r > p,
        parity_shards matches Some(p) && p > 0 ==> r == parity_shards->0 + 1,
        parity_shards is None ==> r == 2,
{
}

/// Every volume is either found or missing, and none is both.
pub proof fn law_volumes_are_found_or_missing(
    expected: usize,
    found: Vec<u16>,
    r: Vec<usize>,
    i: usize,
)
    requires
        call_ensures(missing_volumes, (expected, &found), r),
        i < expected,
        i <= u16::MAX,
    ensures
        r@.contains(i) <==> !found@.contains(i as u16),
        r@.no_duplicates(),
{
    assert(r@.contains(i) <==> i < expected && !(i <= u16::MAX && found@.contains(i as u16)));
    assert forall|k: int, l: int| 0 <= k < r@.len() && 0 <= l < r@.len() && k != l implies r@[k]
        != r@[l] by {
        if k < l {
            assert(r@[k] < r@[l]);
        } else {
            assert(r@[l] < r@[k]);
        }
    }
}

} // verus!

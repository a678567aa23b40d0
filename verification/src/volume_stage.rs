//! Writing catalogs, manifests and index roots to every volume.
//!
//! What every volume needs to be readable by itself is written to each of
//! them. What comes back is, for each volume, where its copy lies.
use vstd::prelude::*;

use crate::text;
use crate::types::EraError;

verus! {

/// Offset, size and block number of a volume's copy.
#[derive(Debug, Clone, Copy)]
pub struct CopyPlace {
    pub offset: u64,
    pub size: u32,
    pub block_id: u32,
}

/// What is written to the volumes.
#[derive(Debug, Clone, Copy, PartialEq, Eq, Structural)]
pub enum FanoutKind {
    /// One catalog for all volumes.
    Catalog,
    /// A catalog of its own for each volume.
    CatalogSets,
    /// A manifest block of its own for each volume.
    Manifest,
    /// The index root, which the first volume holds already.
    Index,
}

/// What is done next.
#[derive(Debug, Clone, Copy, PartialEq, Eq, Structural)]
pub enum FanoutRequest {
    /// See whether the volume in `slot` can be written.
    Open { slot: usize },
    /// Write block `index` of what is meant for `slot`.
    Write { slot: usize, index: usize },
    /// Write block `index` of the backup that is meant for `slot`.
    WriteBackup { slot: usize, index: usize },
    /// All volumes have their copy.
    Done,
}

/// The message about a volume that cannot be written.
pub open spec fn missing_writer_text(kind: FanoutKind, slot: usize) -> Seq<char> {
    match kind {
        FanoutKind::Manifest => "Missing manifest writer slot "@ + text::decimal(slot as nat)
            + " while writing manifest fanout"@,
        FanoutKind::Index => "Missing index writer slot "@ + text::decimal(slot as nat)
            + " while writing index fanout"@,
        _ => "Missing catalog writer slot "@ + text::decimal(slot as nat)
            + " while writing catalog fanout"@,
    }
}

fn missing_writer(kind: FanoutKind, slot: usize) -> (e: EraError)
    ensures
        e matches EraError::Other(m) && m@ == missing_writer_text(kind, slot),
{
    let m: String = match kind {
        FanoutKind::Manifest => text::with_number(
            "Missing manifest writer slot ",
            slot as u64,
            " while writing manifest fanout",
        ),
        FanoutKind::Index => text::with_number(
            "Missing index writer slot ",
            slot as u64,
            " while writing index fanout",
        ),
        _ => text::with_number(
            "Missing catalog writer slot ",
            slot as u64,
            " while writing catalog fanout",
        ),
    };
    EraError::Other(m)
}

/// A block number that a volume's records can hold.
pub open spec fn fits(id: u64) -> bool {
    id <= u32::MAX
}

fn check_id(id: u64) -> (r: Result<u32, EraError>)
    ensures
        fits(id) ==> r == Ok::<u32, EraError>(id as u32),
        !fits(id) ==> (r matches Err(EraError::Other(m)) && m@
            == "Block sequence ID exceeds u32::MAX"@),
{
    if id > u32::MAX as u64 {
        return Err(EraError::Other(String::from_str("Block sequence ID exceeds u32::MAX")));
    }
    Ok(id as u32)
}

fn other(text: &str) -> (e: EraError)
    ensures
        e matches EraError::Other(m) && m@ == text@,
{
    EraError::Other(String::from_str(text))
}

/// The sequences of numbers held by vectors.
pub open spec fn number_sets(v: Seq<Vec<u64>>) -> Seq<Seq<u64>> {
    v.map_values(|x: Vec<u64>| x@)
}

/// A fanout in progress. `ids` gives for each slot the numbers of the blocks
/// that are written to it, `backup_ids` those of the backup.
#[derive(Debug)]
pub struct Fanout {
    pub kind: FanoutKind,
    pub ids: Vec<Vec<u64>>,
    pub backup_ids: Vec<Vec<u64>>,
    pub slot: usize,
    pub opened: bool,
    /// Blocks written to the slot, backup and all.
    pub written: usize,
    pub first: Option<CopyPlace>,
    pub places: Vec<CopyPlace>,
}

/// A fanout as a value.
#[verifier::ext_equal]
pub struct FanoutView {
    pub kind: FanoutKind,
    pub ids: Seq<Seq<u64>>,
    pub backup_ids: Seq<Seq<u64>>,
    pub slot: int,
    pub opened: bool,
    pub written: int,
    pub first: Option<CopyPlace>,
    pub places: Seq<CopyPlace>,
}

impl View for Fanout {
    type V = FanoutView;

    open spec fn view(&self) -> FanoutView {
        FanoutView {
            kind: self.kind,
            ids: number_sets(self.ids@),
            backup_ids: number_sets(self.backup_ids@),
            slot: self.slot as int,
            opened: self.opened,
            written: self.written as int,
            first: self.first,
            places: self.places@,
        }
    }
}

impl FanoutView {
    /// A fanout of which nothing was written.
    pub open spec fn start(
        kind: FanoutKind,
        ids: Seq<Seq<u64>>,
        backup_ids: Seq<Seq<u64>>,
        slot: int,
    ) -> FanoutView {
        FanoutView {
            kind,
            ids,
            backup_ids,
            slot,
            opened: false,
            written: 0,
            first: None,
            places: Seq::empty(),
        }
    }

    /// The first slot: the index is in the first volume already.
    pub open spec fn base(self) -> int {
        if self.kind == FanoutKind::Index {
            1
        } else {
            0
        }
    }

    pub open spec fn done(self) -> bool {
        self.slot >= self.ids.len()
    }

    /// Blocks that the current slot gets.
    pub open spec fn slot_total(self) -> int {
        (self.ids[self.slot].len() + self.backup_ids[self.slot].len()) as int
    }

    /// Copy `k` is noted under the number of its slot's first block.
    pub open spec fn noted(self, k: int) -> bool {
        &&& self.ids[k + self.base()].len() > 0
        &&& self.places[k].block_id == self.ids[k + self.base()][0]
    }

    /// The copies noted so far are those of the slots before the current one,
    /// each under the number of its slot's first block.
    pub open spec fn wf(self) -> bool {
        &&& self.backup_ids.len() == self.ids.len()
        &&& self.ids.len() <= usize::MAX
        &&& self.base() <= self.slot
        &&& self.slot <= self.ids.len() || self.slot == self.base()
        &&& self.places.len() == self.slot - self.base()
        &&& forall|k: int| 0 <= k < self.places.len() ==> #[trigger] self.noted(k)
        &&& self.opened ==> {
            &&& !self.done()
            &&& self.ids[self.slot].len() > 0
            &&& fits(self.ids[self.slot][0])
            &&& 0 <= self.written < self.slot_total()
            &&& self.slot_total() <= usize::MAX
            &&& self.first is Some <==> self.written > 0
            &&& self.first matches Some(p) ==> p.block_id == self.ids[self.slot][0]
        }
        &&& !self.opened ==> self.written == 0 && self.first is None
    }

    pub open spec fn request(self) -> FanoutRequest {
        if self.done() {
            FanoutRequest::Done
        } else if !self.opened {
            FanoutRequest::Open { slot: self.slot as usize }
        } else if self.written < self.ids[self.slot].len() {
            FanoutRequest::Write { slot: self.slot as usize, index: self.written as usize }
        } else {
            FanoutRequest::WriteBackup {
                slot: self.slot as usize,
                index: (self.written - self.ids[self.slot].len()) as usize,
            }
        }
    }

    /// What stops the current slot from being written, in the order in which
    /// it is looked at.
    pub open spec fn open_fault(self, writable: bool) -> Option<Seq<char>> {
        let ids = self.ids[self.slot];
        let missing = missing_writer_text(self.kind, self.slot as usize);
        if ids.len() == 0 {
            Some(
                "No catalog blocks to write for volume slot "@ + text::decimal(self.slot as nat)
                    + ""@,
            )
        } else if self.kind == FanoutKind::Manifest {
            if !fits(ids[0]) {
                Some("Block sequence ID exceeds u32::MAX"@)
            } else if !writable {
                Some(missing)
            } else {
                None
            }
        } else if !writable {
            Some(missing)
        } else if !fits(ids[0]) {
            Some("Block sequence ID exceeds u32::MAX"@)
        } else {
            None
        }
    }

    /// The number of the block that was just written does not fit. Backups
    /// are only looked at where each volume has its own.
    pub open spec fn write_fault(self) -> bool {
        if self.written < self.ids[self.slot].len() {
            !fits(self.ids[self.slot][self.written])
        } else {
            self.kind == FanoutKind::CatalogSets && !fits(
                self.backup_ids[self.slot][self.written - self.ids[self.slot].len()],
            )
        }
    }

    /// After a block was written at `offset`.
    pub open spec fn step(self, offset: u64, size: u32) -> FanoutView {
        let first = if self.written == 0 {
            CopyPlace { offset, size, block_id: self.ids[self.slot][0] as u32 }
        } else {
            self.first->0
        };
        if self.written + 1 < self.slot_total() {
            FanoutView { written: self.written + 1, first: Some(first), ..self }
        } else {
            FanoutView {
                slot: self.slot + 1,
                opened: false,
                written: 0,
                first: None,
                places: self.places.push(first),
                ..self
            }
        }
    }
}

/// `n` times the same.
pub open spec fn repeated<T>(x: T, n: nat) -> Seq<T> {
    Seq::new(n, |i: int| x)
}

fn copy_numbers(v: &[u64]) -> (r: Vec<u64>)
    ensures
        r@ == v@,
{
    let mut r: Vec<u64> = Vec::new();
    let mut i: usize = 0;
    while i < v.len()
        invariant
            i <= v.len(),
            r@ == v@.take(i as int),
        decreases v.len() - i,
    {
        r.push(v[i]);
        assert(v@.take(i + 1) =~= v@.take(i as int).push(v@[i as int]));
        i = i + 1;
    }
    assert(v@.take(v.len() as int) =~= v@);
    r
}

fn repeat_numbers(v: &[u64], n: usize) -> (r: Vec<Vec<u64>>)
    ensures
        number_sets(r@) == repeated(v@, n as nat),
{
    let mut r: Vec<Vec<u64>> = Vec::new();
    let mut i: usize = 0;
    while i < n
        invariant
            i <= n,
            r@.len() == i,
            forall|k: int| 0 <= k < i ==> (#[trigger] r@[k])@ == v@,
        decreases n - i,
    {
        r.push(copy_numbers(v));
        i = i + 1;
    }
    assert(number_sets(r@) =~= repeated(v@, n as nat));
    r
}

proof fn lemma_noted_stay(f: FanoutView, g: FanoutView)
    requires
        f.wf(),
        g.ids == f.ids,
        g.kind == f.kind,
        g.places.len() >= f.places.len(),
        g.places.take(f.places.len() as int) == f.places,
    ensures
        forall|k: int| 0 <= k < f.places.len() ==> #[trigger] g.noted(k),
{
    assert forall|k: int| 0 <= k < f.places.len() implies #[trigger] g.noted(k) by {
        assert(f.noted(k));
        assert(g.places.take(f.places.len() as int)[k] == g.places[k]);
    }
}

impl Fanout {
    /// The same catalog for all volumes, with the numbers of its blocks. Fails
    /// where there is no volume or no block, or the first number does not fit.
    pub fn catalog(ids: &[u64], backup_ids: &[u64], volume_count: usize) -> (r: Result<
        Self,
        EraError,
    >)
        ensures
            if volume_count == 0 {
                r matches Err(EraError::Other(m)) && m@
                    == "No writable volumes available for catalog fanout"@
            } else if ids@.len() == 0 {
                r matches Err(EraError::Other(m)) && m@ == "No catalog blocks to write"@
            } else if !fits(ids@[0]) {
                r matches Err(EraError::Other(m)) && m@ == "Block sequence ID exceeds u32::MAX"@
            } else {
                &&& r matches Ok(f)
                &&& f@ == FanoutView::start(
                    FanoutKind::Catalog,
                    repeated(ids@, volume_count as nat),
                    repeated(backup_ids@, volume_count as nat),
                    0,
                )
                &&& f@.wf()
            },
    {
        if volume_count == 0 {
            return Err(other("No writable volumes available for catalog fanout"));
        }
        if ids.len() == 0 {
            return Err(other("No catalog blocks to write"));
        }
        match check_id(ids[0]) {
            Ok(_) => {},
            Err(e) => return Err(e),
        }
        Ok(
            Self::begin(
                FanoutKind::Catalog,
                repeat_numbers(ids, volume_count),
                repeat_numbers(backup_ids, volume_count),
                0,
            ),
        )
    }

    fn begin(kind: FanoutKind, ids: Vec<Vec<u64>>, backup_ids: Vec<Vec<u64>>, slot: usize) -> (f:
        Self)
        ensures
            f@ == FanoutView::start(
                kind,
                number_sets(ids@),
                number_sets(backup_ids@),
                slot as int,
            ),
            f@.ids.len() == ids@.len(),
            ids@.len() <= usize::MAX,
    {
        let n: usize = ids.len();
        let f = Fanout {
            kind,
            ids,
            backup_ids,
            slot,
            opened: false,
            written: 0,
            first: None,
            places: Vec::new(),
        };
        assert(n == f.ids@.len());
        f
    }

    /// A catalog of its own for each volume, with or without a backup.
    pub fn catalog_sets(
        ids: Vec<Vec<u64>>,
        backup_ids: Option<Vec<Vec<u64>>>,
        volume_count: usize,
    ) -> (r: Result<Self, EraError>)
        ensures
            if volume_count == 0 {
                r matches Err(EraError::Other(m)) && m@
                    == "No writable volumes available for catalog fanout"@
            } else if ids@.len() != volume_count {
                r matches Err(EraError::InvalidConfig(m)) && m@ == "catalog block-set count "@
                    + text::decimal(ids@.len()) + " does not match volume count "@ + text::decimal(
                    volume_count as nat,
                ) + ""@
            } else if backup_ids is Some && backup_ids->0@.len() != volume_count {
                r matches Err(EraError::InvalidConfig(m)) && m@
                    == "catalog backup block-set count "@ + text::decimal(backup_ids->0@.len())
                    + " does not match volume count "@ + text::decimal(volume_count as nat) + ""@
            } else {
                &&& r matches Ok(f)
                &&& f@ == FanoutView::start(
                    FanoutKind::CatalogSets,
                    number_sets(ids@),
                    match backup_ids {
                        Some(b) => number_sets(b@),
                        None => repeated(Seq::<u64>::empty(), volume_count as nat),
                    },
                    0,
                )
                &&& f@.wf()
            },
    {
        if volume_count == 0 {
            return Err(other("No writable volumes available for catalog fanout"));
        }
        if ids.len() != volume_count {
            return Err(
                EraError::InvalidConfig(
                    text::with_numbers(
                        "catalog block-set count ",
                        ids.len() as u64,
                        " does not match volume count ",
                        volume_count as u64,
                        "",
                    ),
                ),
            );
        }
        let backups: Vec<Vec<u64>> = match backup_ids {
            Some(b) => {
                if b.len() != volume_count {
                    return Err(
                        EraError::InvalidConfig(
                            text::with_numbers(
                                "catalog backup block-set count ",
                                b.len() as u64,
                                " does not match volume count ",
                                volume_count as u64,
                                "",
                            ),
                        ),
                    );
                }
                b
            },
            None => {
                let none: Vec<u64> = Vec::new();
                assert(none@ =~= Seq::<u64>::empty());
                repeat_numbers(none.as_slice(), volume_count)
            },
        };
        Ok(Self::begin(FanoutKind::CatalogSets, ids, backups, 0))
    }

    /// A manifest block of its own for each volume.
    pub fn manifest(ids: &[u64], volume_count: usize) -> (r: Result<Self, EraError>)
        ensures
            if volume_count == 0 {
                r matches Err(EraError::Other(m)) && m@
                    == "No writable volumes available for manifest fanout"@
            } else if ids@.len() != volume_count {
                r matches Err(EraError::InvalidConfig(m)) && m@ == "manifest block count "@
                    + text::decimal(ids@.len()) + " does not match volume count "@ + text::decimal(
                    volume_count as nat,
                ) + ""@
            } else {
                &&& r matches Ok(f)
                &&& f@ == FanoutView::start(
                    FanoutKind::Manifest,
                    ids@.map_values(|i: u64| seq![i]),
                    repeated(Seq::<u64>::empty(), volume_count as nat),
                    0,
                )
                &&& f@.wf()
            },
    {
        if volume_count == 0 {
            return Err(other("No writable volumes available for manifest fanout"));
        }
        if ids.len() != volume_count {
            return Err(
                EraError::InvalidConfig(
                    text::with_numbers(
                        "manifest block count ",
                        ids.len() as u64,
                        " does not match volume count ",
                        volume_count as u64,
                        "",
                    ),
                ),
            );
        }
        let mut sets: Vec<Vec<u64>> = Vec::new();
        let mut i: usize = 0;
        while i < ids.len()
            invariant
                i <= ids@.len(),
                sets@.len() == i,
                forall|k: int| 0 <= k < i ==> (#[trigger] sets@[k])@ == seq![ids@[k]],
            decreases ids@.len() - i,
        {
            let mut one: Vec<u64> = Vec::new();
            one.push(ids[i]);
            assert(one@ =~= seq![ids@[i as int]]);
            sets.push(one);
            i = i + 1;
        }
        assert(number_sets(sets@) =~= ids@.map_values(|i: u64| seq![i]));
        let none: Vec<u64> = Vec::new();
        assert(none@ =~= Seq::<u64>::empty());
        Ok(Self::begin(FanoutKind::Manifest, sets, repeat_numbers(none.as_slice(), volume_count), 0))
    }

    /// The index root for all volumes but the first. A single volume needs
    /// nothing more.
    pub fn index(plaintext_len: u64, block_id: u32, volume_count: usize) -> (r: Result<
        Option<Self>,
        EraError,
    >)
        ensures
            if volume_count <= 1 {
                r matches Ok(None)
            } else if plaintext_len > u32::MAX {
                r matches Err(EraError::Other(m)) && m@ == "MetaIndex size exceeds u32::MAX"@
            } else {
                &&& r matches Ok(Some(f))
                &&& f@ == FanoutView::start(
                    FanoutKind::Index,
                    repeated(seq![block_id as u64], volume_count as nat),
                    repeated(Seq::<u64>::empty(), volume_count as nat),
                    1,
                )
                &&& f@.wf()
            },
    {
        if volume_count <= 1 {
            return Ok(None);
        }
        if plaintext_len > u32::MAX as u64 {
            return Err(other("MetaIndex size exceeds u32::MAX"));
        }
        let mut one: Vec<u64> = Vec::new();
        one.push(block_id as u64);
        assert(one@ =~= seq![block_id as u64]);
        let none: Vec<u64> = Vec::new();
        assert(none@ =~= Seq::<u64>::empty());
        Ok(
            Some(
                Self::begin(
                    FanoutKind::Index,
                    repeat_numbers(one.as_slice(), volume_count),
                    repeat_numbers(none.as_slice(), volume_count),
                    1,
                ),
            ),
        )
    }

    pub fn request(&self) -> (r: FanoutRequest)
        requires
            self@.wf(),
        ensures
            r == self@.request(),
    {
        if self.slot >= self.ids.len() {
            return FanoutRequest::Done;
        }
        if !self.opened {
            return FanoutRequest::Open { slot: self.slot };
        }
        assert(self@.ids[self.slot as int] == self.ids@[self.slot as int]@);
        let own: usize = self.ids[self.slot].len();
        if self.written < own {
            FanoutRequest::Write { slot: self.slot, index: self.written }
        } else {
            FanoutRequest::WriteBackup { slot: self.slot, index: self.written - own }
        }
    }

    /// Whether the volume can be written.
    pub fn on_open(&mut self, writable: bool) -> (r: Result<(), EraError>)
        requires
            old(self)@.wf(),
            old(self)@.request() is Open,
            old(self)@.slot_total() <= usize::MAX,
        ensures
            final(self)@.wf(),
            match old(self)@.open_fault(writable) {
                Some(t) => (r matches Err(EraError::Other(m)) && m@ == t) && final(self)@ == old(
                    self,
                )@,
                None => r is Ok && final(self)@ == (FanoutView { opened: true, ..old(self)@ }),
            },
    {
        let ghost before = self@;
        assert(self@.ids[self.slot as int] == self.ids@[self.slot as int]@);
        let own: usize = self.ids[self.slot].len();
        if own == 0 {
            return Err(
                EraError::Other(
                    text::with_number(
                        "No catalog blocks to write for volume slot ",
                        self.slot as u64,
                        "",
                    ),
                ),
            );
        }
        let id: u64 = self.ids[self.slot][0];
        if self.kind == FanoutKind::Manifest {
            match check_id(id) {
                Ok(_) => {},
                Err(e) => return Err(e),
            }
        }
        if !writable {
            return Err(missing_writer(self.kind, self.slot));
        }
        match check_id(id) {
            Ok(_) => {},
            Err(e) => return Err(e),
        }
        self.opened = true;
        proof {
            assert(self@.places.take(before.places.len() as int) =~= before.places);
            lemma_noted_stay(before, self@);
        }
        Ok(())
    }

    /// Where the requested block was written.
    pub fn on_written(&mut self, offset: u64, size: u32) -> (r: Result<(), EraError>)
        requires
            old(self)@.wf(),
            old(self)@.request() is Write || old(self)@.request() is WriteBackup,
        ensures
            final(self)@.wf(),
            if old(self)@.write_fault() {
                (r matches Err(EraError::Other(m)) && m@ == "Block sequence ID exceeds u32::MAX"@)
                    && final(self)@ == old(self)@
            } else {
                r is Ok && final(self)@ == old(self)@.step(offset, size)
            },
    {
        let ghost before = self@;
        assert(self@.ids[self.slot as int] == self.ids@[self.slot as int]@);
        assert(self@.backup_ids[self.slot as int] == self.backup_ids@[self.slot as int]@);
        let own: usize = self.ids[self.slot].len();
        let backup: usize = self.backup_ids[self.slot].len();
        if self.written < own {
            match check_id(self.ids[self.slot][self.written]) {
                Ok(_) => {},
                Err(e) => return Err(e),
            }
        } else if self.kind == FanoutKind::CatalogSets {
            match check_id(self.backup_ids[self.slot][self.written - own]) {
                Ok(_) => {},
                Err(e) => return Err(e),
            }
        }
        let first: CopyPlace = match self.first {
            Some(p) => p,
            None => CopyPlace { offset, size, block_id: self.ids[self.slot][0] as u32 },
        };
        if self.written + 1 < own + backup {
            self.written = self.written + 1;
            self.first = Some(first);
        } else {
            self.slot = self.slot + 1;
            self.opened = false;
            self.written = 0;
            self.first = None;
            self.places.push(first);
            assert(self.places@ =~= before.places.push(first));
        }
        assert(self@ =~= before.step(offset, size));
        proof {
            assert(self@.places.take(before.places.len() as int) =~= before.places);
            lemma_noted_stay(before, self@);
            if self@.slot > before.slot {
                assert(self@.noted(before.places.len() as int));
            }
        }
        Ok(())
    }

    /// The copies, once all are written: one for each volume that was to get
    /// one, under the number of its first block.
    pub fn finish(self) -> (places: Vec<CopyPlace>)
        requires
            self@.wf(),
            self@.done(),
        ensures
            places@ == self@.places,
            places@.len() == if self@.ids.len() >= self@.base() {
                self@.ids.len() - self@.base()
            } else {
                0
            },
            forall|k: int| 0 <= k < places@.len() ==> #[trigger] self@.noted(k),
    {
        self.places
    }
}

/// Every write brings a fanout on: slots and blocks are written in order, and
/// none is written twice.
pub proof fn law_fanout_advances(f: FanoutView, offset: u64, size: u32)
    requires
        f.wf(),
        f.request() is Write || f.request() is WriteBackup,
    ensures
        ({
            let g = f.step(offset, size);
            ||| g.slot == f.slot + 1 && g.written == 0
            ||| g.slot == f.slot && g.written == f.written + 1
        }),
        f.step(offset, size).places.len() >= f.places.len(),
        forall|k: int|
            0 <= k < f.places.len() ==> #[trigger] f.step(offset, size).places[k] == f.places[k],
{
}

/// Where a fanout stands after blocks were written at these places.
pub open spec fn after_writes(f: FanoutView, places: Seq<(u64, u32)>) -> FanoutView
    decreases places.len(),
{
    if places.len() == 0 {
        f
    } else {
        after_writes(f, places.drop_last()).step(places.last().0, places.last().1)
    }
}

/// Of an open slot every block is asked for, one after the other, first those of the
/// copy and then those of its backup. The copy is noted once all are written, at the
/// place of the first, and the next slot comes.
pub proof fn law_slot_is_written_whole(f: FanoutView, places: Seq<(u64, u32)>)
    requires
        f.wf(),
        f.opened,
        f.written == 0,
        f.ids.len() <= usize::MAX,
        places.len() <= f.ids[f.slot].len() + f.backup_ids[f.slot].len(),
    ensures
        ({
            let g = after_writes(f, places);
            let own = f.ids[f.slot].len() as int;
            if places.len() < own + f.backup_ids[f.slot].len() {
                &&& g.slot == f.slot
                &&& g.opened
                &&& g.written == places.len()
                &&& g.places == f.places
                &&& g.ids == f.ids
                &&& g.backup_ids == f.backup_ids
                &&& places.len() > 0 ==> g.first == Some(
                    CopyPlace {
                        offset: places[0].0,
                        size: places[0].1,
                        block_id: f.ids[f.slot][0] as u32,
                    },
                )
                &&& places.len() < own ==> g.request() == (FanoutRequest::Write {
                    slot: f.slot as usize,
                    index: places.len() as usize,
                })
                &&& places.len() >= own ==> g.request() == (FanoutRequest::WriteBackup {
                    slot: f.slot as usize,
                    index: (places.len() - own) as usize,
                })
            } else {
                &&& g.slot == f.slot + 1
                &&& !g.opened
                &&& g.ids == f.ids
                &&& g.places == f.places.push(
                    CopyPlace {
                        offset: places[0].0,
                        size: places[0].1,
                        block_id: f.ids[f.slot][0] as u32,
                    },
                )
                &&& f.slot + 1 < f.ids.len() ==> g.request() == (FanoutRequest::Open {
                    slot: (f.slot + 1) as usize,
                })
                &&& f.slot + 1 >= f.ids.len() ==> g.request() is Done
            }
        }),
    decreases places.len(),
{
    if places.len() > 0 {
        law_slot_is_written_whole(f, places.drop_last());
        assert(places.last() == places[places.len() - 1]);
        if places.len() > 1 {
            assert(places.drop_last()[0] == places[0]);
        }
    }
}

/// A slot is opened exactly where it has a block, its volume can be written and the
/// number of its first block fits into 32 bits.
pub proof fn law_when_a_slot_is_opened(f: FanoutView, writable: bool)
    requires
        f.wf(),
        !f.done(),
    ensures
        f.open_fault(writable) is None <==> f.ids[f.slot].len() > 0 && writable
            && f.ids[f.slot][0] <= 0xffff_ffff,
{
}

/// No number of a copy's blocks may be beyond 32 bits; of the backups only where each
/// volume has its own.
pub proof fn law_when_a_number_is_refused(f: FanoutView)
    requires
        f.wf(),
        f.opened,
    ensures
        ({
            let own = f.ids[f.slot].len() as int;
            &&& f.written < own ==> (f.write_fault() <==> f.ids[f.slot][f.written] > 0xffff_ffff)
            &&& f.written >= own && f.kind != FanoutKind::CatalogSets ==> !f.write_fault()
            &&& f.written >= own && f.kind == FanoutKind::CatalogSets ==> (f.write_fault()
                <==> f.backup_ids[f.slot][f.written - own] > 0xffff_ffff)
        }),
{
}

} // verus!

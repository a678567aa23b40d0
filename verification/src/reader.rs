//! Opening an archive and taking files out of it.
use vstd::prelude::*;

use crate::auth::AccessPolicy;
use crate::block_iter_erasure::ErasureBlockInfo;
use crate::catalog;
use crate::catalog::{is_internal_path, Catalog, ChunkRef, FileEntry, FileType};
use crate::chunk_processor;
use crate::chunk_processor::{
    ExtractStats, ExtractionContext, ExtractionView, PackedTarget, PieceTarget,
};
use crate::hash_table::HashTable;
use crate::locations::{BlockLocation, LocationView, VolumeId};
use crate::paths;
use crate::paths::{find_path_fault, PathFault};
use crate::secrets::{key_from, wipe_bytes};
use crate::text;
use crate::types::{sub_bytes, ErasureCodeConfig, EraError, ShardHeader};
use crate::verification::{ExpectedChunk, VerificationContext};
use crate::write_pipeline;
use crate::write_pipeline::ShardEntry;

verus! {

/// The largest file that a catalog may announce: 100 gibibytes.
pub const MAX_DECLARED_FILE_SIZE: u64 = 107374182400;

/// Blocks in a row that may fail before an extraction is given up.
pub const MAX_CONSECUTIVE_FAILURES: u32 = 16;

/// How files are taken out.
#[derive(Debug)]
pub struct ExtractOptions {
    pub output_dir: String,
    /// Files that are there already are replaced.
    pub overwrite: bool,
}

impl ExtractOptions {
    pub fn new(output_dir: &str) -> (o: Self)
        ensures
            o.output_dir@ == output_dir@,
            !o.overwrite,
    {
        ExtractOptions { output_dir: String::from_str(output_dir), overwrite: false }
    }

    pub fn overwrite(self, overwrite: bool) -> (o: Self)
        ensures
            o == (ExtractOptions { overwrite, ..self }),
    {
        ExtractOptions { output_dir: self.output_dir, overwrite }
    }
}

/// Trying credentials on the slots of an archive, slot by slot, on each slot
/// one credential after the other.
#[derive(Debug)]
pub struct UnlockSearch {
    pub policy: AccessPolicy,
    pub slots: usize,
    pub providers: usize,
    pub slot: usize,
    pub provider: usize,
    /// What opened slots hold.
    pub found: Vec<Vec<u8>>,
}

/// A search as a value.
#[verifier::ext_equal]
pub struct UnlockView {
    pub policy: AccessPolicy,
    pub slots: nat,
    pub providers: nat,
    pub slot: nat,
    pub provider: nat,
    pub found: Seq<Seq<u8>>,
}

impl View for UnlockSearch {
    type V = UnlockView;

    open spec fn view(&self) -> UnlockView {
        UnlockView {
            policy: self.policy,
            slots: self.slots as nat,
            providers: self.providers as nat,
            slot: self.slot as nat,
            provider: self.provider as nat,
            found: self.found@.map_values(|v: Vec<u8>| v@),
        }
    }
}

/// What credential `p` makes of slot `s`.
pub type Answers = spec_fn(nat, nat) -> Option<Seq<u8>>;

/// What the first of the credentials from number `p` on that opens slot `s`
/// finds there.
pub open spec fn first_opening(answers: Answers, s: nat, p: nat, providers: nat) -> Option<Seq<u8>>
    decreases providers - p,
{
    if p >= providers {
        None
    } else if answers(s, p) is Some {
        answers(s, p)
    } else {
        first_opening(answers, s, p + 1, providers)
    }
}

/// What is found in the slots from number `s` on, one find for each slot.
pub open spec fn openings(answers: Answers, s: nat, slots: nat, providers: nat) -> Seq<Seq<u8>>
    decreases slots - s,
{
    if s >= slots {
        Seq::empty()
    } else {
        let more = openings(answers, s + 1, slots, providers);
        match first_opening(answers, s, 0, providers) {
            Some(x) => seq![x] + more,
            None => more,
        }
    }
}

impl UnlockView {
    pub open spec fn wf(self) -> bool {
        &&& self.slot <= self.slots
        &&& self.provider <= self.providers
        &&& self.slot < self.slots ==> self.provider < self.providers
        &&& self.found.len() <= self.slot
        &&& self.policy is AnyOfN && self.found.len() > 0 ==> self.slot == self.slots
            && self.found.len() == 1
    }

    pub open spec fn done(self) -> bool {
        self.slot >= self.slots
    }

    /// After an answer: one find ends the search of a slot, and where any slot
    /// will do, the whole search.
    pub open spec fn step(self, answer: Option<Seq<u8>>) -> UnlockView {
        match answer {
            Some(x) => UnlockView {
                found: self.found.push(x),
                slot: if self.policy is AnyOfN {
                    self.slots
                } else {
                    self.slot + 1
                },
                provider: 0,
                ..self
            },
            None => if self.provider + 1 < self.providers {
                UnlockView { provider: self.provider + 1, ..self }
            } else {
                UnlockView { slot: self.slot + 1, provider: 0, ..self }
            },
        }
    }

    /// What the search has found and will find, if asked `answers`.
    pub open spec fn prospect(self, answers: Answers) -> Seq<Seq<u8>> {
        if self.done() {
            self.found
        } else {
            let more = openings(answers, self.slot + 1, self.slots, self.providers);
            let all = self.found + (match first_opening(
                answers,
                self.slot,
                self.provider,
                self.providers,
            ) {
                Some(x) => seq![x] + more,
                None => more,
            });
            if self.policy is AnyOfN && all.len() > 0 {
                all.take(1)
            } else {
                all
            }
        }
    }
}

/// What a search finds does not depend on where it stands: the first opening of
/// each slot, and only the first of them where any slot will do.
pub proof fn law_search_finds_first_openings(v: UnlockView, answers: Answers)
    requires
        v.wf(),
        !v.done(),
    ensures
        v.step(answers(v.slot, v.provider)).wf(),
        v.step(answers(v.slot, v.provider)).prospect(answers) == v.prospect(answers),
{
    let a = answers(v.slot, v.provider);
    let w = v.step(a);
    let more = openings(answers, v.slot + 1, v.slots, v.providers);
    match a {
        Some(x) => {
            if v.policy is AnyOfN {
                assert(v.found =~= Seq::empty());
                assert((v.found + (seq![x] + more)).take(1) =~= seq![x]);
                assert(w.found =~= seq![x]);
            } else {
                lemma_prospect_of_fresh_slot(w, answers);
                assert(w.found + more =~= v.found + (seq![x] + more));
            }
        },
        None => {
            if v.provider + 1 < v.providers {
                assert(first_opening(answers, v.slot, v.provider, v.providers) == first_opening(
                    answers,
                    v.slot,
                    v.provider + 1,
                    v.providers,
                ));
            } else {
                assert(first_opening(answers, v.slot, v.provider + 1, v.providers) is None);
                if v.policy is AnyOfN {
                    assert(v.found =~= Seq::empty());
                    assert(v.found + more =~= more);
                }
                lemma_prospect_of_fresh_slot(w, answers);
            }
        },
    }
}

proof fn lemma_prospect_of_fresh_slot(w: UnlockView, answers: Answers)
    requires
        w.provider == 0,
        w.slot <= w.slots,
    ensures
        ({
            let all = w.found + openings(answers, w.slot, w.slots, w.providers);
            &&& !w.done() && w.policy is AnyOfN && all.len() > 0 ==> w.prospect(answers)
                == all.take(1)
            &&& !(w.policy is AnyOfN && all.len() > 0) ==> w.prospect(answers) == all
            &&& w.done() ==> w.prospect(answers) == w.found && all == w.found
        }),
{
    if w.done() {
        assert(w.found + openings(answers, w.slot, w.slots, w.providers) =~= w.found);
    }
}

/// What opening an archive comes to.
#[derive(Debug)]
pub enum Unlocked {
    /// The master key.
    Key([u8; 32]),
    /// Shares that the master key is put together from.
    Shares(Vec<Vec<u8>>, u32),
}

impl UnlockSearch {
    /// A policy that needs fewer than two shares is refused.
    pub fn new(policy: AccessPolicy, slots: usize, providers: usize) -> (r: Result<Self, EraError>)
        ensures
            if policy matches AccessPolicy::Threshold(t) && t < 2 {
                r matches Err(EraError::InvalidConfig(m)) && m@ == "Threshold must be >= 2"@
            } else {
                &&& r matches Ok(s)
                &&& s@.wf()
                &&& s@ == (UnlockView {
                    policy,
                    slots: slots as nat,
                    providers: providers as nat,
                    slot: if providers == 0 {
                        slots as nat
                    } else {
                        0
                    },
                    provider: 0,
                    found: Seq::empty(),
                })
            },
    {
        if let AccessPolicy::Threshold(t) = policy {
            if t < 2 {
                return Err(EraError::InvalidConfig(String::from_str("Threshold must be >= 2")));
            }
        }
        let slot: usize = if providers == 0 {
            slots
        } else {
            0
        };
        let s = UnlockSearch { policy, slots, providers, slot, provider: 0, found: Vec::new() };
        assert(s@.found =~= Seq::empty());
        Ok(s)
    }

    /// The slot and the credential to try next.
    pub fn next_try(&self) -> (r: Option<(usize, usize)>)
        ensures
            r == if self@.done() {
                None
            } else {
                Some((self.slot, self.provider))
            },
    {
        if self.slot >= self.slots {
            None
        } else {
            Some((self.slot, self.provider))
        }
    }

    /// What the credential made of the slot; a failure counts as nothing.
    pub fn on_answer(&mut self, answer: Option<Vec<u8>>)
        requires
            old(self)@.wf(),
            !old(self)@.done(),
        ensures
            final(self)@.wf(),
            final(self)@ == old(self)@.step(
                match answer {
                    Some(v) => Some(v@),
                    None => None,
                },
            ),
    {
        let ghost before = self@;
        match answer {
            Some(x) => {
                let ghost bytes = x@;
                self.found.push(x);
                assert(self@.found =~= before.found.push(bytes));
                self.provider = 0;
                match self.policy {
                    AccessPolicy::AnyOfN => {
                        self.slot = self.slots;
                    },
                    AccessPolicy::Threshold(_) => {
                        self.slot = self.slot + 1;
                    },
                }
            },
            None => {
                if self.provider + 1 < self.providers {
                    self.provider = self.provider + 1;
                } else {
                    self.slot = self.slot + 1;
                    self.provider = 0;
                }
            },
        }
    }

    /// The master key, or the shares of it. What is not handed out is wiped.
    pub fn finish(self) -> (r: Result<Unlocked, EraError>)
        requires
            self@.wf(),
            self@.done(),
            self.slots <= u32::MAX,
        ensures
            match self.policy {
                AccessPolicy::AnyOfN => if self@.found.len() == 0 {
                    r matches Err(EraError::InvalidKey(m)) && m@ == "No valid credentials found"@
                } else if self@.found[0].len() != 32 {
                    r matches Err(EraError::InvalidKey(m)) && m@ == "Invalid master key length"@
                } else {
                    r matches Ok(Unlocked::Key(k)) && k@ == self@.found[0]
                },
                AccessPolicy::Threshold(t) => if self@.found.len() < t {
                    r == Err::<Unlocked, EraError>(
                        EraError::ThresholdNotMet {
                            required: t,
                            provided: self@.found.len() as u32,
                        },
                    )
                } else {
                    r matches Ok(Unlocked::Shares(s, n)) && n == t && s == self.found
                },
            },
    {
        match self.policy {
            AccessPolicy::AnyOfN => {
                let mut found = self.found;
                if found.len() == 0 {
                    return Err(
                        EraError::InvalidKey(String::from_str("No valid credentials found")),
                    );
                }
                assert(self@.found[0] == self.found@[0]@);
                let mut bytes = found.remove(0);
                let key = key_from(bytes.as_slice());
                wipe_bytes(&mut bytes);
                match key {
                    Some(k) => Ok(Unlocked::Key(k)),
                    None => Err(
                        EraError::InvalidKey(String::from_str("Invalid master key length")),
                    ),
                }
            },
            AccessPolicy::Threshold(t) => {
                let n: usize = self.found.len();
                if (n as u64) < t as u64 {
                    return Err(
                        EraError::ThresholdNotMet { required: t, provided: n as u32 },
                    );
                }
                Ok(Unlocked::Shares(self.found, t))
            },
        }
    }
}

/// Wipes shares once the master key was put together.
pub fn wipe_shares(shares: &mut Vec<Vec<u8>>)
    ensures
        final(shares)@.len() == old(shares)@.len(),
        forall|i: int| 0 <= i < final(shares)@.len() ==> (#[trigger] final(shares)@[i])@.len() == 0,
{
    let n: usize = shares.len();
    let mut i: usize = 0;
    while i < n
        invariant
            i <= n,
            n == shares@.len(),
            n == old(shares)@.len(),
            forall|k: int| 0 <= k < i ==> (#[trigger] shares@[k])@.len() == 0,
        decreases n - i,
    {
        let mut share: Vec<u8> = Vec::new();
        shares.set_and_swap(i, &mut share);
        wipe_bytes(&mut share);
        i = i + 1;
    }
}

/// A session that was opened before only fits an archive that one credential
/// opens.
pub fn check_session_policy(policy: AccessPolicy) -> (r: Result<(), EraError>)
    ensures
        match policy {
            AccessPolicy::AnyOfN => r is Ok,
            AccessPolicy::Threshold(t) => r matches Err(EraError::InvalidConfig(m)) && m@
                == "Cannot open Threshold("@ + text::decimal(t as nat)
                + ") archive with session — requires multi-party authentication"@,
        },
{
    match policy {
        AccessPolicy::AnyOfN => Ok(()),
        AccessPolicy::Threshold(t) => Err(
            EraError::InvalidConfig(
                text::with_number(
                    "Cannot open Threshold(",
                    t as u64,
                    ") archive with session — requires multi-party authentication",
                ),
            ),
        ),
    }
}

/// What a volume's footer says of its metadata.
#[derive(Debug, Clone, Copy, PartialEq, Eq, Structural)]
pub struct MetadataProbe {
    pub has_footer: bool,
    pub has_index: bool,
    pub has_catalog_location: bool,
    pub block_count: u64,
}

/// The volume has an index.
pub open spec fn offers_index(p: MetadataProbe) -> bool {
    p.has_footer && p.has_index
}

/// The volume has a catalog.
pub open spec fn offers_catalog(p: MetadataProbe) -> bool {
    p.has_footer && p.has_catalog_location && p.block_count > 0
}

/// The volume whose index is tried, the first that has one. Where that one
/// cannot be read, no other is tried.
pub fn index_volume(volumes: &[MetadataProbe]) -> (r: Option<usize>)
    ensures
        match r {
            Some(i) => i < volumes@.len() && offers_index(volumes@[i as int]) && forall|k: int|
                0 <= k < i ==> !offers_index(#[trigger] volumes@[k]),
            None => forall|k: int| 0 <= k < volumes@.len() ==> !offers_index(#[trigger] volumes@[k]),
        },
{
    let mut i: usize = 0;
    while i < volumes.len()
        invariant
            i <= volumes@.len(),
            forall|k: int| 0 <= k < i ==> !offers_index(#[trigger] volumes@[k]),
        decreases volumes@.len() - i,
    {
        if volumes[i].has_footer && volumes[i].has_index {
            return Some(i);
        }
        i = i + 1;
    }
    None
}

/// The volume that the catalog is read from, the first that has one.
pub fn catalog_volume(volumes: &[MetadataProbe]) -> (r: Result<usize, EraError>)
    ensures
        match r {
            Ok(i) => i < volumes@.len() && offers_catalog(volumes@[i as int]) && forall|k: int|
                0 <= k < i ==> !offers_catalog(#[trigger] volumes@[k]),
            Err(e) => e is EmptyArchive && forall|k: int|
                0 <= k < volumes@.len() ==> !offers_catalog(#[trigger] volumes@[k]),
        },
{
    let mut i: usize = 0;
    while i < volumes.len()
        invariant
            i <= volumes@.len(),
            forall|k: int| 0 <= k < i ==> !offers_catalog(#[trigger] volumes@[k]),
        decreases volumes@.len() - i,
    {
        if volumes[i].has_footer && volumes[i].has_catalog_location && volumes[i].block_count > 0 {
            return Ok(i);
        }
        i = i + 1;
    }
    Err(EraError::EmptyArchive)
}

/// The bytes of the catalog in its block: those of the block's first chunk.
pub fn catalog_bytes(chunks: &[(u32, u32)], data: &[u8]) -> (r: Result<Vec<u8>, EraError>)
    ensures
        if chunks@.len() == 0 {
            r matches Err(EraError::EmptyCatalog)
        } else if chunks@[0].0 + chunks@[0].1 > data@.len() {
            r matches Err(EraError::Decompression(m)) && m@
                == "Catalog chunk offset exceeds data size"@
        } else {
            r matches Ok(b) && b@ == data@.subrange(
                chunks@[0].0 as int,
                chunks@[0].0 + chunks@[0].1,
            )
        },
{
    if chunks.len() == 0 {
        return Err(EraError::EmptyCatalog);
    }
    let start: u64 = chunks[0].0 as u64;
    let end: u64 = start + chunks[0].1 as u64;
    if end > data.len() as u64 {
        return Err(
            EraError::Decompression(String::from_str("Catalog chunk offset exceeds data size")),
        );
    }
    Ok(sub_bytes(data, start as usize, end as usize))
}

/// The identity of an open volume.
#[derive(Debug, Clone, Copy, PartialEq, Eq, Structural)]
pub struct VolumeTag {
    pub volume_id: VolumeId,
    pub sequence: u16,
}

/// A shard to read.
#[derive(Debug, Clone, Copy, PartialEq, Eq, Structural)]
pub struct ShardRead {
    pub shard: usize,
    /// Which of the open volumes.
    pub volume: usize,
    pub offset: u64,
}

/// How a block is read.
#[derive(Debug)]
pub enum BlockReadPlan {
    /// By itself, from the first volume.
    Plain,
    /// Out of the shards of its stripe. `own` is the shard that the block is.
    Shards { own: usize, reads: Vec<ShardRead> },
}

/// The first open volume with an identity, from number `i` on.
pub open spec fn volume_by_id(volumes: Seq<VolumeTag>, id: VolumeId, i: nat) -> Option<nat>
    decreases volumes.len() - i,
{
    if i >= volumes.len() {
        None
    } else if volumes[i as int].volume_id == id {
        Some(i)
    } else {
        volume_by_id(volumes, id, i + 1)
    }
}

/// The first open volume with a sequence number, from number `i` on.
pub open spec fn volume_by_sequence(volumes: Seq<VolumeTag>, sequence: u16, i: nat) -> Option<nat>
    decreases volumes.len() - i,
{
    if i >= volumes.len() {
        None
    } else if volumes[i as int].sequence == sequence {
        Some(i)
    } else {
        volume_by_sequence(volumes, sequence, i + 1)
    }
}

fn find_by_id(volumes: &[VolumeTag], id: VolumeId) -> (r: Option<usize>)
    ensures
        match r {
            Some(i) => volume_by_id(volumes@, id, 0) == Some(i as nat) && i < volumes@.len(),
            None => volume_by_id(volumes@, id, 0) is None,
        },
{
    let mut i: usize = 0;
    while i < volumes.len()
        invariant
            i <= volumes@.len(),
            volume_by_id(volumes@, id, 0) == volume_by_id(volumes@, id, i as nat),
        decreases volumes@.len() - i,
    {
        if volumes[i].volume_id == id {
            return Some(i);
        }
        i = i + 1;
    }
    None
}

fn find_by_sequence(volumes: &[VolumeTag], sequence: u16) -> (r: Option<usize>)
    ensures
        match r {
            Some(i) => volume_by_sequence(volumes@, sequence, 0) == Some(i as nat) && i
                < volumes@.len(),
            None => volume_by_sequence(volumes@, sequence, 0) is None,
        },
{
    let mut i: usize = 0;
    while i < volumes.len()
        invariant
            i <= volumes@.len(),
            volume_by_sequence(volumes@, sequence, 0) == volume_by_sequence(
                volumes@,
                sequence,
                i as nat,
            ),
        decreases volumes@.len() - i,
    {
        if volumes[i].sequence == sequence {
            return Some(i);
        }
        i = i + 1;
    }
    None
}

/// The shard of its stripe that a block is.
pub open spec fn own_shard(slot_index: u32, info: ErasureBlockInfo) -> int {
    slot_index as int % info.data_shards as int
}

/// Where a shard is read, if its volume is open and its place is known.
pub open spec fn shard_read(
    l: LocationView,
    info: ErasureBlockInfo,
    volumes: Seq<VolumeTag>,
    shard: int,
) -> Option<ShardRead> {
    let own = own_shard(l.slot_index, info);
    let at = write_pipeline::sibling_slot(own, shard);
    if shard == own {
        match volume_by_id(volumes, l.volume_id, 0) {
            Some(v) => Some(
                ShardRead {
                    shard: shard as usize,
                    volume: v as usize,
                    offset: l.physical_offset,
                },
            ),
            None => None,
        }
    } else if at >= l.shard_volumes->0.len() || at >= l.shard_offsets->0.len() {
        None
    } else {
        match volume_by_sequence(volumes, l.shard_volumes->0[at], 0) {
            Some(v) => Some(
                ShardRead {
                    shard: shard as usize,
                    volume: v as usize,
                    offset: l.shard_offsets->0[at],
                },
            ),
            None => None,
        }
    }
}

/// The reads for the first `n` shards.
pub open spec fn shard_reads(
    l: LocationView,
    info: ErasureBlockInfo,
    volumes: Seq<VolumeTag>,
    n: nat,
) -> Seq<ShardRead>
    decreases n,
{
    if n == 0 {
        Seq::empty()
    } else {
        let before = shard_reads(l, info, volumes, (n - 1) as nat);
        match shard_read(l, info, volumes, n - 1) {
            Some(r) => before.push(r),
            None => before,
        }
    }
}

/// A list that is not there or empty.
pub open spec fn is_missing<T>(list: Option<Seq<T>>) -> bool {
    list is None || list->0.len() == 0
}

/// How a block is read. A block of a stripe needs the places of the other
/// shards.
pub fn plan_block_read(location: &BlockLocation, volumes: &[VolumeTag]) -> (r: Result<
    BlockReadPlan,
    EraError,
>)
    requires
        location.erasure_info matches Some(i) ==> i.data_shards > 0,
    ensures
        match location.erasure_info {
            None => r matches Ok(BlockReadPlan::Plain),
            Some(info) => if is_missing(location@.shard_offsets) {
                r matches Err(EraError::IntegrityError(m)) && m@
                    == "Missing shard offsets for erasure block"@
            } else if is_missing(location@.shard_volumes) {
                r matches Err(EraError::IntegrityError(m)) && m@
                    == "Missing shard volumes for erasure block"@
            } else {
                &&& r matches Ok(BlockReadPlan::Shards { own, reads })
                &&& own == own_shard(location.slot_index, info)
                &&& reads@ == shard_reads(
                    location@,
                    info,
                    volumes@,
                    (info.data_shards + info.parity_shards) as nat,
                )
            },
        },
{
    let info = match location.erasure_info {
        Some(i) => i,
        None => return Ok(BlockReadPlan::Plain),
    };
    let no_offsets = EraError::IntegrityError(
        String::from_str("Missing shard offsets for erasure block"),
    );
    let no_volumes = EraError::IntegrityError(
        String::from_str("Missing shard volumes for erasure block"),
    );
    let offsets: &Vec<u64> = match &location.shard_offsets {
        Some(o) => o,
        None => return Err(no_offsets),
    };
    if offsets.len() == 0 {
        return Err(no_offsets);
    }
    let sequences: &Vec<u16> = match &location.shard_volumes {
        Some(v) => v,
        None => return Err(no_volumes),
    };
    if sequences.len() == 0 {
        return Err(no_volumes);
    }
    let own: usize = (location.slot_index % (info.data_shards as u32)) as usize;
    let total: usize = info.data_shards as usize + info.parity_shards as usize;
    let mut reads: Vec<ShardRead> = Vec::new();
    let mut shard: usize = 0;
    while shard < total
        invariant
            shard <= total,
            total == info.data_shards + info.parity_shards,
            location.erasure_info == Some(info),
            own == own_shard(location.slot_index, info),
            location@.shard_offsets == Some(offsets@),
            location@.shard_volumes == Some(sequences@),
            reads@ == shard_reads(location@, info, volumes@, shard as nat),
        decreases total - shard,
    {
        if shard == own {
            match find_by_id(volumes, location.volume_id) {
                Some(volume) => {
                    reads.push(ShardRead { shard, volume, offset: location.physical_offset });
                },
                None => {},
            }
        } else {
            let at: usize = if shard < own {
                shard
            } else {
                shard - 1
            };
            if at < sequences.len() && at < offsets.len() {
                match find_by_sequence(volumes, sequences[at]) {
                    Some(volume) => {
                        reads.push(ShardRead { shard, volume, offset: offsets[at] });
                    },
                    None => {},
                }
            }
        }
        shard = shard + 1;
    }
    Ok(BlockReadPlan::Shards { own, reads })
}

/// Open volume `v`, and no other, is the one that a shard was written to.
pub open spec fn is_volume_of(volumes: Seq<VolumeTag>, v: int, e: ShardEntry) -> bool {
    &&& 0 <= v < volumes.len()
    &&& volumes[v].volume_id == e.volume_id
    &&& volumes[v].sequence == e.volume_sequence
    &&& forall|w: int|
        0 <= w < volumes.len() && w != v ==> (#[trigger] volumes[w]).volume_id != e.volume_id
            && volumes[w].sequence != e.volume_sequence
}

proof fn lemma_volume_found(volumes: Seq<VolumeTag>, v: int, e: ShardEntry, i: nat)
    requires
        is_volume_of(volumes, v, e),
        i <= v,
    ensures
        volume_by_id(volumes, e.volume_id, i) == Some(v as nat),
        volume_by_sequence(volumes, e.volume_sequence, i) == Some(v as nat),
    decreases v - i,
{
    if i < v {
        assert(volumes[i as int].volume_id != e.volume_id);
        lemma_volume_found(volumes, v, e, i + 1);
    }
}

/// A block of a stripe is read from where the stripe was written: every shard
/// from its volume and at its offset.
pub proof fn law_reads_follow_writes(
    config: ErasureCodeConfig,
    shard_size: u32,
    block_id: u64,
    size: u32,
    entries: Seq<ShardEntry>,
    volumes: Seq<VolumeTag>,
    own: int,
    shard: int,
    v: int,
)
    requires
        config.data_shards > 0,
        entries.len() == config.total(),
        block_id <= u32::MAX,
        own == block_id as int % config.data_shards as int,
        0 <= shard < entries.len(),
        is_volume_of(volumes, v, entries[shard]),
        volumes.len() <= usize::MAX,
    ensures
        ({
            let l = write_pipeline::shard_location(
                config,
                shard_size,
                block_id,
                size,
                entries,
                own,
            );
            &&& own_shard(l.slot_index, l.erasure_info->0) == own
            &&& shard_read(l, l.erasure_info->0, volumes, shard) == Some(
                ShardRead {
                    shard: shard as usize,
                    volume: v as usize,
                    offset: entries[shard].physical_offset,
                },
            )
        }),
{
    let l = write_pipeline::shard_location(config, shard_size, block_id, size, entries, own);
    lemma_volume_found(volumes, v, entries[shard], 0);
    assert(0 <= own < config.data_shards);
    if shard != own {
        write_pipeline::law_siblings_are_found(
            config,
            shard_size,
            block_id,
            size,
            entries,
            own,
            shard,
        );
    }
}

/// A shard counts where its header could be read and its bytes fit the
/// checksum.
pub fn accept_shard(header: Option<ShardHeader>, data: Vec<u8>, crc_fits: bool) -> (r: Result<
    Vec<u8>,
    EraError,
>)
    ensures
        if header is Some && crc_fits {
            r == Ok::<Vec<u8>, EraError>(data)
        } else {
            r matches Err(EraError::IntegrityError(m)) && m@ == "Shard verification failed"@
        },
{
    if header.is_some() && crc_fits {
        return Ok(data);
    }
    Err(EraError::IntegrityError(String::from_str("Shard verification failed")))
}

/// The files among the first `n` that are not the archive's own.
pub open spec fn listed_files(entries: Seq<FileEntry>, n: nat) -> Seq<usize>
    decreases n,
{
    if n == 0 {
        Seq::empty()
    } else {
        let before = listed_files(entries, (n - 1) as nat);
        if catalog::is_internal(entries[n - 1].path@) {
            before
        } else {
            before.push((n - 1) as usize)
        }
    }
}

/// The files of the catalog that are not the archive's own, by their number.
pub fn list_files(catalog: &Catalog) -> (list: Vec<usize>)
    ensures
        list@ == listed_files(catalog.entries@, catalog.entries@.len()),
{
    let mut list: Vec<usize> = Vec::new();
    let mut i: usize = 0;
    while i < catalog.entries.len()
        invariant
            i <= catalog.entries@.len(),
            list@ == listed_files(catalog.entries@, i as nat),
        decreases catalog.entries@.len() - i,
    {
        if !is_internal_path(catalog.entries[i].path.as_str()) {
            list.push(i);
        }
        i = i + 1;
    }
    list
}

/// The file is one of those that a chunk holds together.
pub open spec fn is_packed(e: FileEntry) -> bool {
    e.chunks@.len() == 1 && e.chunks@[0].packed is Some
}

/// What becomes of a file of the catalog.
#[derive(Debug, Clone, Copy, PartialEq, Eq, Structural)]
pub enum EntryPlan {
    /// It is the archive's own.
    Internal,
    /// It is there already and stays.
    Kept,
    /// It has no content.
    Nothing,
    /// Its chunk is waited for.
    Awaited,
    /// It is created with this size and filled piece by piece.
    Create { size: u64 },
}

/// What stops an extraction at a file.
pub open spec fn entry_error(e: FileEntry, kept: bool, r: EraError) -> bool {
    match paths::path_fault(e.path@) {
        Some(PathFault::Climbs) => r matches EraError::Security(m) && m@
            == "Path traversal detected: "@ + e.path@ + ""@,
        Some(PathFault::Absolute) => r matches EraError::Security(m) && m@
            == "Absolute path in archive entry: "@ + e.path@ + ""@,
        None => if e.file_type == FileType::Symlink {
            r matches EraError::Security(m) && m@ == "Symbolic link in archive entry: "@ + e.path@
                + ""@
        } else {
            r matches EraError::CorruptedHeader(m) && m@ == "File '"@ + e.path@
                + "' declares unreasonable size: "@ + text::decimal(e.size as nat) + " bytes"@
        },
    }
}

/// The file stops the extraction: it leads out of the directory, is a link, or
/// announces an impossible size.
pub open spec fn entry_stops(e: FileEntry, kept: bool) -> bool {
    !catalog::is_internal(e.path@) && (paths::path_fault(e.path@) is Some || e.file_type
        == FileType::Symlink || (!kept && e.size > MAX_DECLARED_FILE_SIZE))
}

/// What becomes of a file that does not stop the extraction.
pub open spec fn entry_plan(e: FileEntry, kept: bool) -> EntryPlan {
    if catalog::is_internal(e.path@) {
        EntryPlan::Internal
    } else if kept {
        EntryPlan::Kept
    } else if is_packed(e) {
        EntryPlan::Awaited
    } else if e.chunks@.len() > 0 {
        EntryPlan::Create { size: e.size }
    } else if e.hash is Some {
        EntryPlan::Awaited
    } else {
        EntryPlan::Nothing
    }
}

/// What is waited for once a file was planned.
pub open spec fn entry_awaited(v: ExtractionView, e: FileEntry, file: usize, kept: bool) -> ExtractionView {
    match entry_plan(e, kept) {
        EntryPlan::Awaited => if is_packed(e) {
            ExtractionView {
                packed: chunk_processor::listed_under(
                    v.packed,
                    e.chunks@[0].hash@,
                    PackedTarget { file, member: e.chunks@[0].packed->0.file_index },
                ),
                ..v
            }
        } else {
            ExtractionView {
                whole: chunk_processor::listed_under(v.whole, e.hash->0@, file),
                ..v
            }
        },
        EntryPlan::Create { size } => ExtractionView {
            files: v.files.insert(
                file as int,
                chunk_processor::untouched(size, e.chunks@.len()),
            ),
            pieces: chunk_processor::with_pieces(v.pieces, file, e.chunks@, e.chunks@.len()),
            ..v
        },
        _ => v,
    }
}

/// A file that stays is left alone, whatever its entry says of its content: it is
/// planned as one that stays, and nothing more is waited for than before. So is
/// what the archive keeps for itself. Only what stays is planned as such.
pub proof fn law_files_that_stay_are_left_alone(
    v: ExtractionView,
    e: FileEntry,
    file: usize,
    kept: bool,
)
    ensures
        kept || catalog::is_internal(e.path@) ==> entry_awaited(v, e, file, kept) == v,
        kept && !catalog::is_internal(e.path@) ==> entry_plan(e, kept) == EntryPlan::Kept,
        entry_plan(e, kept) == EntryPlan::Kept ==> kept,
        entry_plan(e, kept) == EntryPlan::Internal <==> catalog::is_internal(e.path@),
{
}

/// A file that is written has its content waited for: every chunk that its entry
/// refers to, under the hash by which it comes in, and nothing else is added.
pub proof fn law_content_is_waited_for(v: ExtractionView, e: FileEntry, file: usize, c: int)
    requires
        !catalog::is_internal(e.path@),
        0 <= c < e.chunks@.len() || e.chunks@.len() == 0 && e.hash is Some,
    ensures
        ({
            let w = entry_awaited(v, e, file, false);
            let h = if e.chunks@.len() > 0 {
                e.chunks@[c].hash@
            } else {
                e.hash->0@
            };
            &&& w.whole.contains_key(h) || w.packed.contains_key(h) || w.pieces.contains_key(h)
            &&& w.pending()
        }),
{
    let w = entry_awaited(v, e, file, false);
    if is_packed(e) {
        assert(w.packed.contains_key(e.chunks@[0].hash@));
        assert(w.packed != Map::<Seq<u8>, Seq<PackedTarget>>::empty());
    } else if e.chunks@.len() > 0 {
        lemma_pieces_listed(v.pieces, file, e.chunks@, e.chunks@.len(), c);
        assert(w.files.contains_key(file as int));
        assert(w.files != Map::<int, chunk_processor::FileProgress>::empty());
    } else {
        assert(w.whole.contains_key(e.hash->0@));
        assert(w.whole != Map::<Seq<u8>, Seq<usize>>::empty());
    }
}

proof fn lemma_pieces_listed(
    m: Map<Seq<u8>, Seq<PieceTarget>>,
    file: usize,
    refs: Seq<ChunkRef>,
    n: nat,
    c: int,
)
    requires
        0 <= c < n <= refs.len(),
    ensures
        chunk_processor::with_pieces(m, file, refs, n).contains_key(refs[c].hash@),
    decreases n,
{
    if c < n - 1 {
        lemma_pieces_listed(m, file, refs, (n - 1) as nat, c);
    }
}

/// What stops an extraction: a path that leads out of the directory or a link,
/// also where the file would stay, and a size beyond a hundred gibibytes where
/// the file would be written. Nothing else does, and what is the archive's own
/// never does.
pub proof fn law_what_stops_an_extraction(e: FileEntry, kept: bool)
    ensures
        entry_stops(e, kept) ==> !catalog::is_internal(e.path@),
        !catalog::is_internal(e.path@) && paths::path_fault(e.path@) is Some ==> entry_stops(
            e,
            kept,
        ),
        !catalog::is_internal(e.path@) && e.file_type == FileType::Symlink ==> entry_stops(
            e,
            kept,
        ),
        !catalog::is_internal(e.path@) && !kept && e.size > 100 * 1024 * 1024 * 1024
            ==> entry_stops(e, kept),
        paths::path_fault(e.path@) is None && e.file_type != FileType::Symlink && (kept || e.size
            <= 100 * 1024 * 1024 * 1024) ==> !entry_stops(e, kept),
{
}

/// Plans a file of the catalog. `exists` says whether something stands where
/// the file would go.
pub fn plan_entry(
    entry: &FileEntry,
    file: usize,
    exists: bool,
    options: &ExtractOptions,
    context: &mut ExtractionContext,
    stats: &mut ExtractStats,
) -> (r: Result<EntryPlan, EraError>)
    requires
        old(context).wf(),
        !old(context)@.files.contains_key(file as int),
        file < usize::MAX,
        old(stats).skipped < u64::MAX,
    ensures
        final(context).wf(),
        ({
            let kept = exists && !options.overwrite;
            if entry_stops(*entry, kept) {
                &&& r matches Err(e)
                &&& entry_error(*entry, kept, e)
                &&& final(context)@ == old(context)@
                &&& *final(stats) == *old(stats)
            } else {
                &&& r == Ok::<EntryPlan, EraError>(entry_plan(*entry, kept))
                &&& final(context)@ == entry_awaited(old(context)@, *entry, file, kept)
                &&& *final(stats) == if entry_plan(*entry, kept) is Kept {
                    ExtractStats { skipped: (old(stats).skipped + 1) as u64, ..*old(stats) }
                } else {
                    *old(stats)
                }
            }
        }),
        exists && !options.overwrite && r is Ok ==> final(context)@ == old(context)@,
        exists && !options.overwrite && r is Ok && !catalog::is_internal(entry.path@) ==> r == Ok::<
            EntryPlan,
            EraError,
        >(EntryPlan::Kept) && final(stats).skipped == old(stats).skipped + 1,
        r matches Ok(EntryPlan::Kept) ==> exists && !options.overwrite,
{
    if is_internal_path(entry.path.as_str()) {
        return Ok(EntryPlan::Internal);
    }
    match find_path_fault(entry.path.as_str()) {
        Some(PathFault::Climbs) => {
            return Err(
                EraError::Security(
                    text::with_text("Path traversal detected: ", entry.path.as_str(), ""),
                ),
            );
        },
        Some(PathFault::Absolute) => {
            return Err(
                EraError::Security(
                    text::with_text("Absolute path in archive entry: ", entry.path.as_str(), ""),
                ),
            );
        },
        None => {},
    }
    if entry.file_type == FileType::Symlink {
        return Err(
            EraError::Security(
                text::with_text("Symbolic link in archive entry: ", entry.path.as_str(), ""),
            ),
        );
    }
    if exists && !options.overwrite {
        stats.skipped = stats.skipped + 1;
        return Ok(EntryPlan::Kept);
    }
    if entry.size > MAX_DECLARED_FILE_SIZE {
        let mut m = text::with_text(
            "File '",
            entry.path.as_str(),
            "' declares unreasonable size: ",
        );
        text::push_decimal(&mut m, entry.size);
        m.append(" bytes");
        return Err(EraError::CorruptedHeader(m));
    }
    if entry.chunks.len() > 0 {
        if entry.chunks.len() == 1 {
            if let Some(packed) = entry.chunks[0].packed {
                context.expect_packed(entry.chunks[0].hash, file, packed.file_index);
                return Ok(EntryPlan::Awaited);
            }
        }
        context.expect_pieces(file, entry.size, &entry.chunks);
        return Ok(EntryPlan::Create { size: entry.size });
    }
    if let Some(hash) = entry.hash {
        context.expect_whole(hash, file);
        return Ok(EntryPlan::Awaited);
    }
    Ok(EntryPlan::Nothing)
}

/// Blocks that failed in a row.
#[derive(Debug, Clone, Copy, PartialEq, Eq, Structural)]
pub struct FailureRun {
    pub failures: u32,
}

impl FailureRun {
    pub fn new() -> (f: Self)
        ensures
            f.failures == 0,
    {
        FailureRun { failures: 0 }
    }

    pub fn on_success(&mut self)
        ensures
            final(self).failures == 0,
    {
        self.failures = 0;
    }

    /// Too many failures in a row end an extraction.
    pub fn on_failure(&mut self, reason: &str) -> (r: Result<(), EraError>)
        requires
            old(self).failures < MAX_CONSECUTIVE_FAILURES,
        ensures
            final(self).failures == old(self).failures + 1,
            r is Ok <==> final(self).failures < MAX_CONSECUTIVE_FAILURES,
            r matches Err(e) ==> (e matches EraError::Security(m) && m@ == "Aborting: "@
                + text::decimal(final(self).failures as nat) + " consecutive block failures: "@
                + reason@),
    {
        self.failures = self.failures + 1;
        if self.failures >= MAX_CONSECUTIVE_FAILURES {
            let mut m = text::with_number(
                "Aborting: ",
                self.failures as u64,
                " consecutive block failures: ",
            );
            m.append(reason);
            return Err(EraError::Security(m));
        }
        Ok(())
    }
}

/// An extraction is complete once nothing is waited for.
pub fn conclude_extraction(context: &ExtractionContext) -> (r: Result<(), EraError>)
    requires
        context.wf(),
    ensures
        r is Ok <==> !context@.pending(),
        r matches Err(e) ==> (e matches EraError::ErasureError(m) && m@
            == "Not enough shards for recovery: extraction incomplete due to too many missing or corrupted volumes."@),
{
    if context.has_pending() {
        return Err(
            EraError::ErasureError(
                String::from_str(
                    "Not enough shards for recovery: extraction incomplete due to too many missing or corrupted volumes.",
                ),
            ),
        );
    }
    Ok(())
}

/// The chunks that the first `n` pieces of a file need.
pub open spec fn with_expected(
    m: Map<Seq<u8>, Seq<ExpectedChunk>>,
    e: FileEntry,
    file: usize,
    n: nat,
) -> Map<Seq<u8>, Seq<ExpectedChunk>>
    decreases n,
{
    if n == 0 {
        m
    } else {
        chunk_processor::listed_under(
            with_expected(m, e, file, (n - 1) as nat),
            e.chunks@[n - 1].hash@,
            ExpectedChunk {
                file,
                chunk: (n - 1) as usize,
                length: e.chunks@[n - 1].length as u64,
            },
        )
    }
}

/// What a packed file needs of its chunk.
pub open spec fn packed_need(e: FileEntry, file: usize) -> ExpectedChunk {
    ExpectedChunk { file, chunk: 0, length: e.chunks@[0].length as u64 }
}

/// How many chunks a file needs.
pub open spec fn chunk_count(e: FileEntry) -> nat {
    if catalog::is_internal(e.path@) {
        0
    } else if e.chunks@.len() > 0 {
        e.chunks@.len()
    } else if e.hash is Some {
        1
    } else {
        0
    }
}

/// The chunks that a file needs, of a packed chunk only the first file.
pub open spec fn first_needs(
    m: Map<Seq<u8>, Seq<ExpectedChunk>>,
    e: FileEntry,
    file: usize,
) -> Map<Seq<u8>, Seq<ExpectedChunk>> {
    if catalog::is_internal(e.path@) {
        m
    } else if is_packed(e) {
        if m.contains_key(e.chunks@[0].hash@) {
            m
        } else {
            chunk_processor::listed_under(m, e.chunks@[0].hash@, packed_need(e, file))
        }
    } else if e.chunks@.len() > 0 {
        with_expected(m, e, file, e.chunks@.len())
    } else if e.hash is Some {
        chunk_processor::listed_under(
            m,
            e.hash->0@,
            ExpectedChunk { file, chunk: 0, length: e.size },
        )
    } else {
        m
    }
}

/// The chunks that the first `n` files need, of a packed chunk only its first
/// file.
pub open spec fn all_first_needs(entries: Seq<FileEntry>, n: nat) -> Map<
    Seq<u8>,
    Seq<ExpectedChunk>,
>
    decreases n,
{
    if n == 0 {
        Map::empty()
    } else {
        first_needs(
            all_first_needs(entries, (n - 1) as nat),
            entries[n - 1],
            (n - 1) as usize,
        )
    }
}

/// File `f` is packed into the chunk with hash `h`.
pub open spec fn packs(entries: Seq<FileEntry>, f: int, h: Seq<u8>) -> bool {
    &&& 0 <= f < entries.len()
    &&& !catalog::is_internal(entries[f].path@)
    &&& is_packed(entries[f])
    &&& entries[f].chunks@[0].hash@ == h
}

/// A file before file `n` is packed into the chunk with hash `h`.
pub open spec fn packed_before(entries: Seq<FileEntry>, n: int, h: Seq<u8>) -> bool {
    exists|f: int| f < n && #[trigger] packs(entries, f, h)
}

/// The chunks that all files need, once the other files of packed chunks were
/// added for the first `n` files.
pub open spec fn all_needs(entries: Seq<FileEntry>, n: nat) -> Map<Seq<u8>, Seq<ExpectedChunk>>
    decreases n,
{
    if n == 0 {
        all_first_needs(entries, entries.len())
    } else {
        let m = all_needs(entries, (n - 1) as nat);
        let e = entries[n - 1];
        if packs(entries, n - 1, e.chunks@[0].hash@) && packed_before(
            entries,
            n - 1,
            e.chunks@[0].hash@,
        ) {
            chunk_processor::listed_under(m, e.chunks@[0].hash@, packed_need(e, (n - 1) as usize))
        } else {
            m
        }
    }
}

fn expect_first(entry: &FileEntry, file: usize, context: &mut VerificationContext)
    requires
        old(context).wf(),
        file < old(context).file_chunks_found@.len(),
    ensures
        final(context).wf(),
        final(context).file_chunks_found == old(context).file_chunks_found,
        final(context).file_chunk_counts@ == old(context).file_chunk_counts@.push(
            chunk_count(*entry) as usize,
        ),
        final(context).expected_chunks@ == first_needs(
            old(context).expected_chunks@,
            *entry,
            file,
        ),
{
    if is_internal_path(entry.path.as_str()) {
        context.file_chunk_counts.push(0);
        return;
    }
    let n: usize = entry.chunks.len();
    if n == 1 && entry.chunks[0].packed.is_some() {
        let hash = entry.chunks[0].hash;
        if !context.expected_chunks.contains(&hash) {
            context.expect(
                hash,
                ExpectedChunk { file, chunk: 0, length: entry.chunks[0].length as u64 },
            );
        }
        context.file_chunk_counts.push(1);
        return;
    }
    if n > 0 {
        let ghost start = context.expected_chunks@;
        context.file_chunk_counts.push(n);
        let ghost counts = context.file_chunk_counts@;
        let mut c: usize = 0;
        while c < n
            invariant
                c <= n,
                n == entry.chunks@.len(),
                context.wf(),
                file < context.file_chunks_found@.len(),
                context.file_chunks_found == old(context).file_chunks_found,
                context.file_chunk_counts@ == counts,
                context.expected_chunks@ == with_expected(start, *entry, file, c as nat),
            decreases n - c,
        {
            context.expect(
                entry.chunks[c].hash,
                ExpectedChunk { file, chunk: c, length: entry.chunks[c].length as u64 },
            );
            c = c + 1;
        }
        return;
    }
    if let Some(hash) = entry.hash {
        context.expect(hash, ExpectedChunk { file, chunk: 0, length: entry.size });
        context.file_chunk_counts.push(1);
        return;
    }
    context.file_chunk_counts.push(0);
}

/// What a verification of the catalog's files expects: for each file the
/// chunks it needs. Files that share a packed chunk all need it.
pub fn plan_verification(catalog: &Catalog) -> (context: VerificationContext)
    ensures
        context.wf(),
        context.file_chunk_counts@ == catalog.entries@.map_values(
            |e: FileEntry| chunk_count(e) as usize,
        ),
        context.file_chunks_found@ == Seq::new(catalog.entries@.len(), |i: int| 0usize),
        context.expected_chunks@ == all_needs(catalog.entries@, catalog.entries@.len()),
{
    let n: usize = catalog.entries.len();
    let mut context = VerificationContext::new(n);
    let ghost entries = catalog.entries@;
    let mut i: usize = 0;
    while i < n
        invariant
            i <= n,
            n == entries.len(),
            entries == catalog.entries@,
            context.wf(),
            context.file_chunks_found@ == Seq::new(entries.len(), |i: int| 0usize),
            context.file_chunk_counts@ == entries.take(i as int).map_values(
                |e: FileEntry| chunk_count(e) as usize,
            ),
            context.expected_chunks@ == all_first_needs(entries, i as nat),
        decreases n - i,
    {
        let ghost counts = context.file_chunk_counts@;
        expect_first(&catalog.entries[i], i, &mut context);
        assert(context.file_chunk_counts@ =~= entries.take(i + 1).map_values(
            |e: FileEntry| chunk_count(e) as usize,
        ));
        i = i + 1;
    }
    assert(entries.take(n as int) =~= entries);
    let ghost counts = context.file_chunk_counts@;
    let mut seen: HashTable<bool> = HashTable::new();
    let mut j: usize = 0;
    while j < n
        invariant
            j <= n,
            n == entries.len(),
            entries == catalog.entries@,
            seen.wf(),
            forall|h: Seq<u8>| #[trigger] seen@.contains_key(h) <==> packed_before(
                entries,
                j as int,
                h,
            ),
            context.wf(),
            context.file_chunks_found@ == Seq::new(entries.len(), |i: int| 0usize),
            context.file_chunk_counts@ == counts,
            context.expected_chunks@ == all_needs(entries, j as nat),
        decreases n - j,
    {
        let e = &catalog.entries[j];
        let ghost known = seen@;
        if !is_internal_path(e.path.as_str()) && e.chunks.len() == 1
            && e.chunks[0].packed.is_some() {
            let hash = e.chunks[0].hash;
            assert(packs(entries, j as int, hash@));
            if seen.contains(&hash) {
                context.expect(
                    hash,
                    ExpectedChunk { file: j, chunk: 0, length: e.chunks[0].length as u64 },
                );
            } else {
                seen.insert(hash, true);
            }
        }
        proof {
            assert forall|h: Seq<u8>| #[trigger] seen@.contains_key(h) <==> packed_before(
                entries,
                j + 1,
                h,
            ) by {
                if packed_before(entries, j + 1, h) {
                    let f = choose|f: int| f < j + 1 && #[trigger] packs(entries, f, h);
                    if f < j {
                        assert(packed_before(entries, j as int, h));
                        assert(known.contains_key(h));
                    }
                }
                if known.contains_key(h) {
                    assert(packed_before(entries, j as int, h));
                }
            }
        }
        j = j + 1;
    }
    context
}

/// Some credential opens slot `s`.
pub open spec fn opens_slot(answers: Answers, s: nat, providers: nat) -> bool {
    exists|p: nat| p < providers && (#[trigger] answers(s, p)) is Some
}

/// What is found in a slot is what the first credential finds that opens it, and
/// nothing exactly where none opens it.
pub proof fn law_slot_gives_its_first_opening(answers: Answers, s: nat, p: nat, providers: nat)
    ensures
        match first_opening(answers, s, p, providers) {
            Some(x) => exists|q: nat|
                p <= q < providers && (#[trigger] answers(s, q)) == Some(x) && forall|r: nat|
                    p <= r < q ==> (#[trigger] answers(s, r)) is None,
            None => forall|q: nat| p <= q < providers ==> (#[trigger] answers(s, q)) is None,
        },
    decreases providers - p,
{
    if p < providers && answers(s, p) is None {
        law_slot_gives_its_first_opening(answers, s, p + 1, providers);
        match first_opening(answers, s, p, providers) {
            Some(x) => {
                let q = choose|q: nat|
                    p + 1 <= q < providers && (#[trigger] answers(s, q)) == Some(x) && forall|
                        r: nat,
                    |
                        p + 1 <= r < q ==> (#[trigger] answers(s, r)) is None;
                assert forall|r: nat| p <= r < q implies (#[trigger] answers(s, r)) is None by {
                    if r > p {
                        assert(p + 1 <= r < q);
                    }
                }
                assert(p <= q < providers && answers(s, q) == Some(x));
            },
            None => {
                assert forall|q: nat| p <= q < providers implies (#[trigger] answers(s, q))
                    is None by {
                    if q > p {
                        assert(p + 1 <= q < providers);
                    }
                }
            },
        }
    }
}

/// How many slots from number `s` on some credential opens.
pub open spec fn slots_opened(answers: Answers, s: nat, slots: nat, providers: nat) -> nat
    decreases slots - s,
{
    if s >= slots {
        0
    } else {
        slots_opened(answers, s + 1, slots, providers) + if opens_slot(answers, s, providers) {
            1nat
        } else {
            0nat
        }
    }
}

/// One find comes of every slot that some credential opens, and none of the
/// others.
pub proof fn law_one_find_for_each_open_slot(
    answers: Answers,
    s: nat,
    slots: nat,
    providers: nat,
)
    ensures
        openings(answers, s, slots, providers).len() == slots_opened(answers, s, slots, providers),
        forall|k: int|
            0 <= k < openings(answers, s, slots, providers).len() ==> exists|t: nat, q: nat|
                s <= t < slots && q < providers && #[trigger] answers(t, q) == Some(
                    #[trigger] openings(answers, s, slots, providers)[k],
                ),
    decreases slots - s,
{
    if s < slots {
        law_one_find_for_each_open_slot(answers, s + 1, slots, providers);
        law_slot_gives_its_first_opening(answers, s, 0, providers);
        let more = openings(answers, s + 1, slots, providers);
        let all = openings(answers, s, slots, providers);
        match first_opening(answers, s, 0, providers) {
            Some(x) => {
                let q = choose|q: nat| q < providers && #[trigger] answers(s, q) == Some(x);
                assert(opens_slot(answers, s, providers));
                assert forall|k: int| 0 <= k < all.len() implies exists|t: nat, q: nat|
                    s <= t < slots && q < providers && #[trigger] answers(t, q) == Some(
                        #[trigger] all[k],
                    ) by {
                    if k == 0 {
                        assert(answers(s, q) == Some(all[0]));
                    } else {
                        assert(all[k] == more[k - 1]);
                        let (t, r) = choose|t: nat, r: nat|
                            s + 1 <= t < slots && r < providers && #[trigger] answers(t, r) == Some(
                                more[k - 1],
                            );
                        assert(answers(t, r) == Some(all[k]));
                    }
                }
            },
            None => {
                assert(!opens_slot(answers, s, providers));
                assert forall|k: int| 0 <= k < all.len() implies exists|t: nat, q: nat|
                    s <= t < slots && q < providers && #[trigger] answers(t, q) == Some(
                        #[trigger] all[k],
                    ) by {
                    let (t, r) = choose|t: nat, r: nat|
                        s + 1 <= t < slots && r < providers && #[trigger] answers(t, r) == Some(
                            more[k],
                        );
                    assert(answers(t, r) == Some(all[k]));
                }
            },
        }
    }
}

/// A search after `n` answers.
pub open spec fn searched(v: UnlockView, answers: Answers, n: nat) -> UnlockView
    decreases n,
{
    if n == 0 {
        v
    } else {
        let u = searched(v, answers, (n - 1) as nat);
        if u.done() {
            u
        } else {
            u.step(answers(u.slot, u.provider))
        }
    }
}

proof fn lemma_searched(v: UnlockView, answers: Answers, n: nat)
    requires
        v.wf(),
    ensures
        searched(v, answers, n).wf(),
        searched(v, answers, n).prospect(answers) == v.prospect(answers),
        searched(v, answers, n).policy == v.policy,
    decreases n,
{
    if n > 0 {
        lemma_searched(v, answers, (n - 1) as nat);
        let u = searched(v, answers, (n - 1) as nat);
        if !u.done() {
            law_search_finds_first_openings(u, answers);
        }
    }
}

/// An archive that one credential opens is opened exactly where some credential
/// opens some slot, by what one of them finds. One that needs several shares gets
/// one from every slot that can be opened. This is so at the end of every search
/// from the start.
pub proof fn law_search_opens_what_can_be_opened(
    policy: AccessPolicy,
    slots: nat,
    providers: nat,
    answers: Answers,
    n: nat,
)
    requires
        providers > 0,
    ensures
        ({
            let v = UnlockView {
                policy,
                slots,
                providers,
                slot: 0,
                provider: 0,
                found: Seq::empty(),
            };
            let e = searched(v, answers, n);
            e.done() ==> {
                &&& policy is AnyOfN ==> (e.found.len() > 0 <==> exists|s: nat|
                    s < slots && #[trigger] opens_slot(answers, s, providers))
                &&& policy is AnyOfN ==> e.found.len() <= 1
                &&& !(policy is AnyOfN) ==> e.found.len() == slots_opened(
                    answers,
                    0,
                    slots,
                    providers,
                )
                &&& forall|k: int|
                    0 <= k < e.found.len() ==> exists|s: nat, p: nat|
                        s < slots && p < providers && #[trigger] answers(s, p) == Some(
                            #[trigger] e.found[k],
                        )
            }
        }),
{
    let v = UnlockView { policy, slots, providers, slot: 0, provider: 0, found: Seq::empty() };
    let e = searched(v, answers, n);
    lemma_searched(v, answers, n);
    lemma_prospect_of_fresh_slot(v, answers);
    let all = openings(answers, 0, slots, providers);
    assert(v.found + all =~= all);
    law_one_find_for_each_open_slot(answers, 0, slots, providers);
    lemma_slots_opened(answers, 0, slots, providers);
    if e.done() {
        assert(e.found == v.prospect(answers));
        if policy is AnyOfN && all.len() > 0 && slots > 0 {
            assert(e.found =~= all.take(1));
        }
        assert forall|k: int| 0 <= k < e.found.len() implies exists|s: nat, p: nat|
            s < slots && p < providers && #[trigger] answers(s, p) == Some(
                #[trigger] e.found[k],
            ) by {
            assert(e.found[k] == all[k]);
            let (s, p) = choose|s: nat, p: nat|
                0 <= s < slots && p < providers && #[trigger] answers(s, p) == Some(all[k]);
            assert(answers(s, p) == Some(e.found[k]));
        }
    }
}

proof fn lemma_slots_opened(answers: Answers, s: nat, slots: nat, providers: nat)
    ensures
        slots_opened(answers, s, slots, providers) > 0 <==> exists|t: nat|
            s <= t < slots && #[trigger] opens_slot(answers, t, providers),
    decreases slots - s,
{
    if s < slots {
        lemma_slots_opened(answers, s + 1, slots, providers);
        if opens_slot(answers, s, providers) {
            assert(s <= s < slots);
        }
        if slots_opened(answers, s + 1, slots, providers) > 0 {
            let t = choose|t: nat|
                s + 1 <= t < slots && #[trigger] opens_slot(answers, t, providers);
            assert(s <= t < slots && opens_slot(answers, t, providers));
        }
        if exists|t: nat| s <= t < slots && #[trigger] opens_slot(answers, t, providers) {
            let t = choose|t: nat| s <= t < slots && #[trigger] opens_slot(answers, t, providers);
            if t > s {
                assert(s + 1 <= t < slots && opens_slot(answers, t, providers));
            }
        }
    }
}

/// Metadata is offered by a volume only with a footer that names it; a catalog
/// needs a block besides.
pub proof fn law_metadata_needs_a_footer(p: MetadataProbe)
    ensures
        offers_index(p) ==> p.has_footer && p.has_index,
        p.has_footer && p.has_index ==> offers_index(p),
        offers_catalog(p) ==> p.has_footer && p.has_catalog_location && p.block_count > 0,
        p.has_footer && p.has_catalog_location && p.block_count > 0 ==> offers_catalog(p),
{
}

/// A volume is found by what it is: the first with the identity or number, and
/// none exactly where no open volume has it.
pub proof fn law_volumes_are_found(
    volumes: Seq<VolumeTag>,
    id: VolumeId,
    sequence: u16,
    i: nat,
)
    ensures
        match volume_by_id(volumes, id, i) {
            Some(v) => i <= v < volumes.len() && volumes[v as int].volume_id == id && forall|
                k: int,
            |
                i <= k < v ==> (#[trigger] volumes[k]).volume_id != id,
            None => forall|k: int|
                i <= k < volumes.len() ==> (#[trigger] volumes[k]).volume_id != id,
        },
        match volume_by_sequence(volumes, sequence, i) {
            Some(v) => i <= v < volumes.len() && volumes[v as int].sequence == sequence && forall|
                k: int,
            |
                i <= k < v ==> (#[trigger] volumes[k]).sequence != sequence,
            None => forall|k: int|
                i <= k < volumes.len() ==> (#[trigger] volumes[k]).sequence != sequence,
        },
    decreases volumes.len() - i,
{
    if i < volumes.len() {
        law_volumes_are_found(volumes, id, sequence, i + 1);
    }
}

/// The reads for a block are those of its shards, each shard at most once and in
/// order: every shard whose place is known and whose volume is open is read, and
/// nothing else is.
pub proof fn law_every_known_shard_is_read(
    l: LocationView,
    info: ErasureBlockInfo,
    volumes: Seq<VolumeTag>,
    n: nat,
)
    requires
        n <= usize::MAX,
    ensures
        ({
            let reads = shard_reads(l, info, volumes, n);
            &&& forall|k: int|
                0 <= k < reads.len() ==> (#[trigger] reads[k]).shard < n && shard_read(
                    l,
                    info,
                    volumes,
                    reads[k].shard as int,
                ) == Some(reads[k])
            &&& forall|k: int, j: int|
                0 <= k < j < reads.len() ==> (#[trigger] reads[k]).shard < (
                #[trigger] reads[j]).shard
            &&& forall|s: int|
                0 <= s < n && (#[trigger] shard_read(l, info, volumes, s)) is Some
                    ==> reads.contains(shard_read(l, info, volumes, s)->0)
        }),
    decreases n,
{
    if n > 0 {
        let m = (n - 1) as nat;
        law_every_known_shard_is_read(l, info, volumes, m);
        let before = shard_reads(l, info, volumes, m);
        let reads = shard_reads(l, info, volumes, n);
        assert forall|s: int|
            0 <= s < n && (#[trigger] shard_read(l, info, volumes, s)) is Some implies reads.contains(
            shard_read(l, info, volumes, s)->0,
        ) by {
            if s < m {
                let x = shard_read(l, info, volumes, s)->0;
                let k = choose|k: int| 0 <= k < before.len() && before[k] == x;
                assert(reads[k] == x);
            } else {
                assert(reads[before.len() as int] == shard_read(l, info, volumes, s)->0);
            }
        }
    }
}

/// Every file is listed but the archive's own, each once and in the order of the
/// catalog.
pub proof fn law_own_files_are_not_listed(entries: Seq<FileEntry>, n: nat)
    requires
        n <= entries.len() <= usize::MAX,
    ensures
        ({
            let list = listed_files(entries, n);
            &&& forall|f: usize| #[trigger]
                list.contains(f) <==> f < n && !catalog::is_internal(entries[f as int].path@)
            &&& forall|k: int, j: int|
                0 <= k < j < list.len() ==> #[trigger] list[k] < #[trigger] list[j]
            &&& forall|k: int| 0 <= k < list.len() ==> #[trigger] list[k] < n
        }),
    decreases n,
{
    if n > 0 {
        let m = (n - 1) as nat;
        law_own_files_are_not_listed(entries, m);
        let before = listed_files(entries, m);
        let list = listed_files(entries, n);
        assert forall|f: usize| #[trigger] list.contains(f) <==> f < n && !catalog::is_internal(
            entries[f as int].path@,
        ) by {
            if before.contains(f) {
                let k = choose|k: int| 0 <= k < before.len() && before[k] == f;
                assert(list[k] == f);
            }
            if list.contains(f) {
                let k = choose|k: int| 0 <= k < list.len() && list[k] == f;
                if k < before.len() {
                    assert(before[k] == f);
                    assert(before.contains(f));
                }
            }
            if f == m && !catalog::is_internal(entries[f as int].path@) {
                assert(list[before.len() as int] == f);
            }
        }
    }
}

/// Of a volume's probes the first with a catalog is read, and one is read wherever there is one;
/// the same goes for the index.
pub proof fn law_first_volume_with_metadata(
    volumes: &[MetadataProbe],
    catalog: Result<usize, EraError>,
    index: Option<usize>,
    k: int,
)
    requires
        call_ensures(catalog_volume, (volumes,), catalog),
        call_ensures(index_volume, (volumes,), index),
        0 <= k < volumes@.len(),
    ensures
        volumes@[k].has_footer && volumes@[k].has_catalog_location && volumes@[k].block_count > 0
            ==> (catalog matches Ok(i) && i <= k),
        volumes@[k].has_footer && volumes@[k].has_index ==> (index matches Some(i) && i <= k),
        catalog matches Ok(i) ==> volumes@[i as int].has_footer && volumes@[i as int].block_count
            > 0,
        index matches Some(i) ==> volumes@[i as int].has_footer && volumes@[i as int].has_index,
{
    assert(offers_catalog(volumes@[k]) || !offers_catalog(volumes@[k]));
    assert(offers_index(volumes@[k]) || !offers_index(volumes@[k]));
}

/// The catalog is the first chunk of its block, whole, or an error is told.
pub proof fn law_catalog_is_the_first_chunk(
    chunks: &[(u32, u32)],
    data: &[u8],
    before: Seq<u8>,
    catalog: Seq<u8>,
    after: Seq<u8>,
    r: Result<Vec<u8>, EraError>,
)
    requires
        call_ensures(catalog_bytes, (chunks, data), r),
        data@ == before + catalog + after,
    ensures
        chunks@.len() > 0 && chunks@[0].0 == before.len() && chunks@[0].1 == catalog.len() ==> (
        r matches Ok(b) && b@ == catalog),
        chunks@.len() == 0 ==> r is Err,
        chunks@.len() > 0 && chunks@[0].0 + chunks@[0].1 > data@.len() ==> r is Err,
{
    if chunks@.len() > 0 && chunks@[0].0 == before.len() && chunks@[0].1 == catalog.len() {
        assert(data@.subrange(before.len() as int, before.len() as int + catalog.len()) =~= catalog);
    }
}

/// A shard counts exactly where its header was read and its checksum fits, and with its bytes as
/// they were read.
pub proof fn law_only_checked_shards_count(
    header: Option<ShardHeader>,
    data: Vec<u8>,
    fits: bool,
    r: Result<Vec<u8>, EraError>,
)
    requires
        call_ensures(accept_shard, (header, data, fits), r),
    ensures
        r is Ok <==> header is Some && fits,
        r matches Ok(d) ==> d == data,
{
}

/// A block without erasure coding is read as it lies. One of a stripe is read shard by shard,
/// provided that the places of the other shards are known.
pub proof fn law_how_a_block_is_read(
    location: BlockLocation,
    volumes: &[VolumeTag],
    r: Result<BlockReadPlan, EraError>,
)
    requires
        location.erasure_info matches Some(i) ==> i.data_shards > 0,
        call_ensures(plan_block_read, (&location, volumes), r),
    ensures
        location.erasure_info is None ==> r matches Ok(BlockReadPlan::Plain),
        r matches Ok(BlockReadPlan::Plain) ==> location.erasure_info is None,
        location.erasure_info matches Some(info) ==> (r is Ok <==> (location@.shard_offsets matches Some(
            o,
        ) && o.len() > 0) && (location@.shard_volumes matches Some(v) && v.len() > 0)),
        r matches Ok(BlockReadPlan::Shards { own, reads }) ==> (location.erasure_info matches Some(
            info,
        ) && own < info.data_shards && own == location.slot_index as int
            % info.data_shards as int),
{
}

/// Of another shard only what the lists of the block tell is read: from the volume and at the
/// place that they give it, and not at all where they are too short.
pub proof fn law_other_shards_are_read_where_noted(
    l: LocationView,
    info: ErasureBlockInfo,
    volumes: Seq<VolumeTag>,
    shard: int,
)
    requires
        info.data_shards > 0,
        0 <= shard < info.data_shards + info.parity_shards,
        shard != l.slot_index as int % info.data_shards as int,
        l.shard_volumes is Some,
        l.shard_offsets is Some,
    ensures
        ({
            let own = l.slot_index as int % info.data_shards as int;
            let at = if shard < own {
                shard
            } else {
                shard - 1
            };
            &&& at >= l.shard_volumes->0.len() || at >= l.shard_offsets->0.len() ==> shard_read(
                l,
                info,
                volumes,
                shard,
            ) is None
            &&& shard_read(l, info, volumes, shard) matches Some(r) ==> r.shard == shard as usize
                && r.offset == l.shard_offsets->0[at] && volume_by_sequence(
                volumes,
                l.shard_volumes->0[at],
                0,
            ) is Some
            &&& at < l.shard_volumes->0.len() && at < l.shard_offsets->0.len()
                && volume_by_sequence(volumes, l.shard_volumes->0[at], 0) is Some ==> shard_read(
                l,
                info,
                volumes,
                shard,
            ) is Some
        }),
{
}

/// A file that leads out of the directory, or is a link, is told as a breach of safety; one of an
/// impossible size as damage.
pub proof fn law_what_is_told_of_a_refused_file(e: FileEntry, kept: bool, r: EraError)
    requires
        entry_error(e, kept, r),
    ensures
        paths::path_fault(e.path@) is Some || e.file_type == FileType::Symlink
            ==> r is Security,
        paths::path_fault(e.path@) is None && e.file_type != FileType::Symlink
            ==> r is CorruptedHeader,
{
}

} // verus!

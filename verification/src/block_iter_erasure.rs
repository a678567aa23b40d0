//! Walking erasure-coded blocks, one stripe to a block.
//!
//! Shard `i` of every block lies on volume `i` modulo the number of volumes;
//! on each volume a block starts with four bytes that give its length.
use vstd::prelude::*;

use crate::block_iter::{BlockIterStats, DecodedBlock, DecodedChunk};
use crate::erasure_scan;
use crate::repair;
use crate::repair::{shard_is_intact, ShardRead};
use crate::text;
use crate::types::{EraError, ErasureCodeConfig, Shard, ShardHeader, SHARD_HEADER_SIZE};

verus! {

/// No shard is longer than this.
pub const MAX_SHARD_SIZE: u32 = 268435456;

/// A shard whose checksum was tested.
#[derive(Debug)]
pub struct VerifiedShard {
    pub index: usize,
    pub data: Vec<u8>,
    pub expected_crc: u32,
    pub crc_valid: bool,
}

/// How a block was coded.
#[derive(Debug, Clone, Copy, PartialEq, Eq, Structural)]
pub struct ErasureBlockInfo {
    pub data_shards: u8,
    pub parity_shards: u8,
    pub shard_size: u32,
    pub original_len: u32,
}

/// What reading the length of a block came to.
#[derive(Debug)]
pub enum LengthReply {
    Failed(EraError),
    Bytes(Vec<u8>),
}

/// What a block is to be decoded from.
#[derive(Debug)]
pub struct DecodeRequest {
    pub info: ErasureBlockInfo,
    pub block_id: u64,
    /// The intact shards, in order.
    pub shards: Vec<Shard>,
}

/// What comes after the length of a block.
#[derive(Debug)]
pub enum LengthStep {
    /// No block is left.
    End,
    /// The shards of the block follow.
    Shards,
    Fail(EraError),
}

/// Where an iterator stands in a block.
#[derive(Debug, Clone, Copy, PartialEq, Eq, Structural)]
pub enum BlockPhase {
    /// Between two blocks.
    Between,
    /// At a shard.
    AtShard,
    /// At the header of a shard whose volume is open.
    AtHeader,
    /// At the bytes of a shard.
    AtData,
    /// The block is being decoded.
    Decoding,
}

/// The number in four bytes, least significant first.
pub open spec fn number_of(b: Seq<u8>) -> u32 {
    erasure_scan::le32(b, 0) as u32
}

/// How many of the volumes have fewer than `need` bytes left.
pub open spec fn exhausted(offsets: Seq<u64>, ends: Seq<u64>, need: int) -> nat
    decreases offsets.len(),
{
    if offsets.len() == 0 {
        0
    } else {
        exhausted(offsets.drop_last(), ends, need) + if offsets.last() + need > ends[offsets.len()
            - 1] {
            1nat
        } else {
            0nat
        }
    }
}

/// The more bytes are needed, the more volumes have too few left.
proof fn lemma_exhausted_grows(offsets: Seq<u64>, ends: Seq<u64>, need: int, more: int)
    requires
        need <= more,
    ensures
        exhausted(offsets, ends, need) <= exhausted(offsets, ends, more),
    decreases offsets.len(),
{
    if offsets.len() > 0 {
        lemma_exhausted_grows(offsets.drop_last(), ends, need, more);
    }
}

/// The intact ones among shards.
pub open spec fn valid_shards(shards: Seq<VerifiedShard>) -> Seq<VerifiedShard>
    decreases shards.len(),
{
    if shards.len() == 0 {
        Seq::empty()
    } else {
        let rest = valid_shards(shards.drop_last());
        if shards.last().crc_valid {
            rest.push(shards.last())
        } else {
            rest
        }
    }
}

/// The erasure-coded blocks of an archive, in order.
#[derive(Debug)]
pub struct ErasureBlockIterator {
    pub layout: ErasureCodeConfig,
    /// For each volume of the archive, the open volume that it is.
    pub vol_index_map: Vec<Option<usize>>,
    /// Volumes that the archive has.
    pub original_volume_count: usize,
    pub offsets: Vec<u64>,
    pub ends: Vec<u64>,
    pub block_index: u32,
    pub stats: BlockIterStats,
    pub phase: BlockPhase,
    pub shard: usize,
    pub original_len: u32,
    /// Open volumes whose copy of the block's length was passed.
    pub length_passed: Vec<bool>,
    pub shards: Vec<VerifiedShard>,
    pub corrupted: usize,
    pub first_shard_size: u32,
    pub pending: Option<ShardHeader>,
}

/// `x` occurs in `s` before position `n`.
pub open spec fn occurs_before(s: Seq<usize>, n: int, x: usize) -> bool {
    exists|k: int| 0 <= k < n && s[k] == x
}

/// The first number that occurs a second time.
pub open spec fn is_first_repeat(s: Seq<usize>, n: int) -> bool {
    &&& 0 <= n < s.len()
    &&& occurs_before(s, n, s[n])
    &&& forall|m: int| 0 <= m < n ==> !occurs_before(s, m, #[trigger] s[m])
}

/// The largest number, plus one.
pub open spec fn count_from(s: Seq<usize>) -> int
    decreases s.len(),
{
    if s.len() == 0 {
        1
    } else if s.last() + 1 > count_from(s.drop_last()) {
        s.last() + 1
    } else {
        count_from(s.drop_last())
    }
}

/// The position of `v` in `s`, the last one where it occurs twice.
pub open spec fn position_of(s: Seq<usize>, v: int, n: int) -> Option<usize>
    decreases n,
{
    if n <= 0 {
        None
    } else if s[n - 1] == v {
        Some((n - 1) as usize)
    } else {
        position_of(s, v, n - 1)
    }
}

pub(crate) proof fn lemma_count_from(s: Seq<usize>)
    ensures
        count_from(s) >= 1,
        forall|k: int| 0 <= k < s.len() ==> #[trigger] s[k] < count_from(s),
        (forall|k: int| 0 <= k < s.len() ==> #[trigger] s[k] < usize::MAX) ==> count_from(s)
            <= usize::MAX,
    decreases s.len(),
{
    if s.len() > 0 {
        lemma_count_from(s.drop_last());
        assert forall|k: int| 0 <= k < s.len() implies #[trigger] s[k] < count_from(s) by {
            if k < s.len() - 1 {
                assert(s.drop_last()[k] == s[k]);
            }
        }
        if forall|k: int| 0 <= k < s.len() ==> #[trigger] s[k] < usize::MAX {
            assert forall|k: int| 0 <= k < s.drop_last().len() implies #[trigger] s.drop_last()[k]
                < usize::MAX by {
                assert(s[k] < usize::MAX);
            }
        }
    }
}

/// The number of volumes that the given numbers imply.
pub(crate) fn implied_volume_count(indices: &Vec<usize>) -> (n: usize)
    requires
        forall|k: int| 0 <= k < indices@.len() ==> #[trigger] indices@[k] < usize::MAX,
    ensures
        n == count_from(indices@),
{
    let mut n: usize = 1;
    let mut i: usize = 0;
    while i < indices.len()
        invariant
            i <= indices.len(),
            n == count_from(indices@.take(i as int)),
            forall|k: int| 0 <= k < indices@.len() ==> #[trigger] indices@[k] < usize::MAX,
        decreases indices.len() - i,
    {
        assert(indices@.take(i + 1).drop_last() =~= indices@.take(i as int));
        if indices[i] + 1 > n {
            n = indices[i] + 1;
        }
        i = i + 1;
    }
    assert(indices@.take(indices.len() as int) =~= indices@);
    n
}

/// For each of `count` volumes its position in `indices`.
pub(crate) fn index_map(indices: &Vec<usize>, count: usize) -> (map: Vec<Option<usize>>)
    ensures
        map@.len() == count,
        forall|v: int|
            0 <= v < count ==> #[trigger] map@[v] == position_of(
                indices@,
                v,
                indices@.len() as int,
            ),
        forall|v: int| 0 <= v < count ==> ((#[trigger] map@[v]) matches Some(r) ==> r < indices@.len()),
{
    let mut map: Vec<Option<usize>> = Vec::new();
    let mut i: usize = 0;
    while i < count
        invariant
            i <= count,
            map@.len() == i,
            forall|v: int| 0 <= v < i ==> (#[trigger] map@[v]) is None,
        decreases count - i,
    {
        map.push(None);
        i = i + 1;
    }
    let mut k: usize = 0;
    while k < indices.len()
        invariant
            k <= indices.len(),
            map@.len() == count,
            forall|v: int|
                0 <= v < count ==> #[trigger] map@[v] == position_of(indices@, v, k as int),
            forall|v: int| 0 <= v < count ==> ((#[trigger] map@[v]) matches Some(r) ==> r < k),
        decreases indices.len() - k,
    {
        let at: usize = indices[k];
        if at < count {
            map.set(at, Some(k));
        }
        k = k + 1;
    }
    map
}

fn repeats_before(indices: &Vec<usize>, n: usize) -> (r: bool)
    requires
        n < indices@.len(),
    ensures
        r == occurs_before(indices@, n as int, indices@[n as int]),
{
    let mut k: usize = 0;
    while k < n
        invariant
            k <= n < indices@.len(),
            forall|j: int| 0 <= j < k ==> indices@[j] != indices@[n as int],
        decreases n - k,
    {
        if indices[k] == indices[n] {
            return true;
        }
        k = k + 1;
    }
    false
}

impl ErasureBlockIterator {
    pub open spec fn wf(&self) -> bool {
        let n = self.offsets@.len();
        &&& n > 0
        &&& self.ends@.len() == n
        &&& self.original_volume_count > 0
        &&& self.vol_index_map@.len() == self.original_volume_count
        &&& forall|v: int|
            0 <= v < self.vol_index_map@.len() ==> ((#[trigger] self.vol_index_map@[v]) matches Some(
                r,
            ) ==> r < n)
        &&& self.phase != BlockPhase::Between ==> self.length_passed@.len() == n
        &&& self.shard <= self.layout.total()
        &&& self.shards@.len() <= self.shard
        &&& self.corrupted <= self.shard
        &&& (self.phase == BlockPhase::AtHeader || self.phase == BlockPhase::AtData) ==> {
            &&& self.shard < self.layout.total()
            &&& self.reader() is Some
        }
        &&& self.phase == BlockPhase::AtData ==> (self.pending matches Some(h) && h.length
            <= MAX_SHARD_SIZE)
    }

    /// Positions in a volume are file positions, which leaves room to move on.
    pub open spec fn positions_fit(&self) -> bool {
        forall|i: int| 0 <= i < self.offsets@.len() ==> #[trigger] self.offsets@[i] <= i64::MAX
    }

    /// Whether all positions are file positions.
    pub fn check_positions(&self) -> (r: bool)
        ensures
            r == self.positions_fit(),
    {
        let mut i: usize = 0;
        while i < self.offsets.len()
            invariant
                i <= self.offsets@.len(),
                forall|k: int| 0 <= k < i ==> #[trigger] self.offsets@[k] <= i64::MAX,
            decreases self.offsets@.len() - i,
        {
            if self.offsets[i] > i64::MAX as u64 {
                assert(self.offsets@[i as int] > i64::MAX);
                return false;
            }
            i = i + 1;
        }
        true
    }

    /// The open volume that holds the shard at hand.
    pub open spec fn reader(&self) -> Option<usize> {
        self.vol_index_map@[(self.shard as int) % (self.original_volume_count as int)]
    }

    /// An iterator over open volumes whose numbers in the archive are
    /// `volume_indices`: at least one, one number for each, none twice.
    pub fn new(
        offsets: Vec<u64>,
        ends: Vec<u64>,
        volume_indices: &Vec<usize>,
        data_shards: u8,
        parity_shards: u8,
    ) -> (r: Result<Self, EraError>)
        requires
            offsets@.len() == ends@.len(),
            forall|k: int|
                0 <= k < volume_indices@.len() ==> #[trigger] volume_indices@[k] < usize::MAX,
        ensures
            offsets@.len() == 0 ==> (r matches Err(EraError::InvalidFormat(m)) && m@
                == "No volume readers provided"@),
            offsets@.len() > 0 && offsets@.len() != volume_indices@.len() ==> (r matches Err(
                EraError::InvalidFormat(m),
            ) && m@ == "volume_readers and volume_indices length mismatch"@),
            offsets@.len() > 0 && offsets@.len() == volume_indices@.len() ==> (match r {
                Err(e) => exists|n: int| #[trigger]
                    is_first_repeat(volume_indices@, n) && (e matches EraError::InvalidFormat(m)
                        && m@ == "volume_indices contains duplicate index "@ + text::decimal(
                        volume_indices@[n] as nat,
                    ) + ""@),
                Ok(it) => {
                    &&& forall|n: int| !(#[trigger] is_first_repeat(volume_indices@, n))
                    &&& it.wf()
                    &&& it.phase == BlockPhase::Between
                    &&& it.layout == (ErasureCodeConfig { data_shards, parity_shards })
                    &&& it.offsets == offsets
                    &&& it.ends == ends
                    &&& it.block_index == 0
                    &&& it.stats == (BlockIterStats {
                        blocks_read: 0,
                        blocks_failed: 0,
                        corrupted_shards: 0,
                    })
                    &&& it.original_volume_count == count_from(volume_indices@)
                    &&& forall|v: int|
                        0 <= v < it.original_volume_count ==> #[trigger] it.vol_index_map@[v]
                            == position_of(volume_indices@, v, volume_indices@.len() as int)
                },
            }),
    {
        if offsets.len() == 0 {
            return Err(EraError::InvalidFormat(String::from_str("No volume readers provided")));
        }
        if offsets.len() != volume_indices.len() {
            return Err(
                EraError::InvalidFormat(
                    String::from_str("volume_readers and volume_indices length mismatch"),
                ),
            );
        }
        let mut i: usize = 0;
        while i < volume_indices.len()
            invariant
                i <= volume_indices@.len(),
                offsets@.len() > 0,
                offsets@.len() == volume_indices@.len(),
                forall|m: int|
                    0 <= m < i ==> !occurs_before(
                        volume_indices@,
                        m,
                        #[trigger] volume_indices@[m],
                    ),
            decreases volume_indices@.len() - i,
        {
            if repeats_before(volume_indices, i) {
                assert(is_first_repeat(volume_indices@, i as int));
                return Err(
                    EraError::InvalidFormat(
                        text::with_number(
                            "volume_indices contains duplicate index ",
                            volume_indices[i] as u64,
                            "",
                        ),
                    ),
                );
            }
            i = i + 1;
        }
        let original_volume_count: usize = implied_volume_count(volume_indices);
        proof {
            lemma_count_from(volume_indices@);
        }
        let vol_index_map = index_map(volume_indices, original_volume_count);
        Ok(
            ErasureBlockIterator {
                layout: ErasureCodeConfig { data_shards, parity_shards },
                vol_index_map,
                original_volume_count,
                offsets,
                ends,
                block_index: 0,
                stats: BlockIterStats::default(),
                phase: BlockPhase::Between,
                shard: 0,
                original_len: 0,
                length_passed: Vec::new(),
                shards: Vec::new(),
                corrupted: 0,
                first_shard_size: 0,
                pending: None,
            },
        )
    }

    /// No more volumes than a block can lose have fewer than `need` bytes left.
    pub open spec fn goes_on(&self, need: int) -> bool {
        exhausted(self.offsets@, self.ends@, need) <= self.layout.parity_shards
    }

    fn check_goes_on(&self, need: u64) -> (r: bool)
        requires
            self.wf(),
        ensures
            r == self.goes_on(need as int),
    {
        let mut n: usize = 0;
        let mut i: usize = 0;
        while i < self.offsets.len()
            invariant
                self.wf(),
                i <= self.offsets@.len(),
                n <= i,
                n == exhausted(self.offsets@.take(i as int), self.ends@, need as int),
            decreases self.offsets@.len() - i,
        {
            assert(self.offsets@.take(i + 1).drop_last() =~= self.offsets@.take(i as int));
            if self.ends[i] < need || self.offsets[i] > self.ends[i] - need {
                n = n + 1;
            }
            i = i + 1;
        }
        assert(self.offsets@.take(i as int) =~= self.offsets@);
        n <= self.layout.parity_shards as usize
    }

    /// Where the length of the next block is to be read, on the first open
    /// volume. `None` where there is no further block.
    pub fn next_length(&self) -> (r: Option<u64>)
        requires
            self.wf(),
        ensures
            r == if self.goes_on(1) {
                Some(self.offsets@[0])
            } else {
                None
            },
    {
        if self.check_goes_on(1) {
            Some(self.offsets[0])
        } else {
            None
        }
    }

    /// Takes the length of the next block.
    pub fn on_length(&mut self, reply: LengthReply) -> (step: LengthStep)
        requires
            old(self).wf(),
            old(self).positions_fit(),
            old(self).phase == BlockPhase::Between,
        ensures
            final(self).wf(),
            final(self).same_archive(*old(self)),
            final(self).block_index == old(self).block_index,
            final(self).stats == old(self).stats,
            match reply {
                LengthReply::Failed(e) => step == LengthStep::Fail(e) && final(self).offsets
                    == old(self).offsets && final(self).phase == BlockPhase::Between,
                LengthReply::Bytes(b) => if b@.len() == 4 {
                    &&& step is Shards
                    &&& final(self).phase == BlockPhase::AtShard
                    &&& final(self).original_len == number_of(b@)
                    &&& final(self).offsets@ == old(self).offsets@.update(
                        0,
                        (old(self).offsets@[0] + 4) as u64,
                    )
                    &&& final(self).shard == 0
                    &&& final(self).shards@.len() == 0
                    &&& final(self).corrupted == 0
                    &&& final(self).first_shard_size == 0
                    &&& forall|i: int|
                        0 <= i < final(self).length_passed@.len()
                            ==> #[trigger] final(self).length_passed@[i] == (i == 0)
                } else {
                    &&& final(self).offsets == old(self).offsets
                    &&& final(self).phase == BlockPhase::Between
                    &&& if b@.len() == 0 {
                        step is End
                    } else {
                        step matches LengthStep::Fail(EraError::IntegrityError(m)) && m@
                            == "Unexpected partial read: expected "@ + text::decimal(4)
                            + " bytes, got "@ + text::decimal(b@.len()) + ""@
                    }
                },
            },
    {
        let b = match reply {
            LengthReply::Failed(e) => return LengthStep::Fail(e),
            LengthReply::Bytes(b) => b,
        };
        if b.len() == 0 {
            return LengthStep::End;
        }
        if b.len() != 4 {
            return LengthStep::Fail(
                EraError::IntegrityError(
                    text::with_numbers(
                        "Unexpected partial read: expected ",
                        4,
                        " bytes, got ",
                        b.len() as u64,
                        "",
                    ),
                ),
            );
        }
        self.original_len = b[0] as u32 + 256 * (b[1] as u32) + 65536 * (b[2] as u32) + 16777216 * (
        b[3] as u32);
        assert(self.offsets@[0] <= i64::MAX);
        let to: u64 = self.offsets[0] + 4;
        self.offsets.set(0, to);
        let mut passed: Vec<bool> = Vec::new();
        passed.push(true);
        while passed.len() < self.offsets.len()
            invariant
                1 <= passed@.len() <= self.offsets@.len(),
                forall|i: int| 0 <= i < passed@.len() ==> #[trigger] passed@[i] == (i == 0),
            decreases self.offsets@.len() - passed@.len(),
        {
            passed.push(false);
        }
        self.length_passed = passed;
        self.shard = 0;
        self.shards = Vec::new();
        self.corrupted = 0;
        self.first_shard_size = 0;
        self.pending = None;
        self.phase = BlockPhase::AtShard;
        LengthStep::Shards
    }

    /// What an iteration never changes.
    pub open spec fn same_archive(&self, from: ErasureBlockIterator) -> bool {
        &&& self.layout == from.layout
        &&& self.vol_index_map == from.vol_index_map
        &&& self.original_volume_count == from.original_volume_count
        &&& self.ends == from.ends
    }

    /// What the steps within a block leave alone.
    pub open spec fn same_block(&self, from: ErasureBlockIterator) -> bool {
        &&& self.same_archive(from)
        &&& self.block_index == from.block_index
        &&& self.original_len == from.original_len
    }

    /// Whether shards of the block are left.
    pub fn in_shards(&self) -> (r: bool)
        ensures
            r == (self.phase == BlockPhase::AtShard && self.shard < self.layout.total()),
    {
        let at = match self.phase {
            BlockPhase::AtShard => true,
            _ => false,
        };
        at && self.shard < self.layout.total_shards()
    }

    /// Where the header of the next shard is to be read. A shard whose volume
    /// is missing is counted as damaged and passed.
    pub fn open_shard(&mut self) -> (r: Option<(usize, u64)>)
        requires
            old(self).wf(),
            old(self).positions_fit(),
            old(self).phase == BlockPhase::AtShard,
            old(self).shard < old(self).layout.total(),
        ensures
            final(self).wf(),
            final(self).same_block(*old(self)),
            final(self).stats == old(self).stats,
            final(self).shards == old(self).shards,
            final(self).first_shard_size == old(self).first_shard_size,
            match old(self).reader() {
                None => {
                    &&& r is None
                    &&& final(self).phase == BlockPhase::AtShard
                    &&& final(self).corrupted == old(self).corrupted + 1
                    &&& final(self).shard == old(self).shard + 1
                    &&& final(self).offsets == old(self).offsets
                    &&& final(self).length_passed == old(self).length_passed
                },
                Some(v) => {
                    let passed = old(self).length_passed@[v as int];
                    let at = old(self).offsets@[v as int] + if passed {
                        0int
                    } else {
                        4
                    };
                    &&& r == Some((v, at as u64))
                    &&& final(self).phase == BlockPhase::AtHeader
                    &&& final(self).corrupted == old(self).corrupted
                    &&& final(self).shard == old(self).shard
                    &&& final(self).offsets@ == old(self).offsets@.update(v as int, at as u64)
                    &&& final(self).length_passed@ == old(self).length_passed@.update(
                        v as int,
                        true,
                    )
                },
            },
    {
        let at: usize = self.shard % self.original_volume_count;
        match self.vol_index_map[at] {
            None => {
                self.corrupted = self.corrupted + 1;
                self.shard = self.shard + 1;
                None
            },
            Some(v) => {
                assert(self.vol_index_map@[at as int] matches Some(r) ==> r < self.offsets@.len());
                assert(self.offsets@[v as int] <= i64::MAX);
                if !self.length_passed[v] {
                    let to: u64 = self.offsets[v] + 4;
                    self.offsets.set(v, to);
                    self.length_passed.set(v, true);
                }
                self.phase = BlockPhase::AtHeader;
                assert(self.length_passed@ =~= old(self).length_passed@.update(v as int, true));
                assert(self.offsets@ =~= old(self).offsets@.update(
                    v as int,
                    self.offsets@[v as int],
                ));
                Some((v, self.offsets[v]))
            },
        }
    }

    /// Takes the header of the shard at hand; `None` where it cannot be read or
    /// does not parse, and the shard is damaged. On success the bytes to be
    /// read: volume, offset and length. A header that announces an impossible
    /// length fails the block.
    pub fn on_shard_header(&mut self, header: Option<ShardHeader>) -> (r: Result<
        Option<(usize, u64, u32)>,
        EraError,
    >)
        requires
            old(self).wf(),
            old(self).phase == BlockPhase::AtHeader,
            old(self).stats.room(1),
            old(self).reader() matches Some(v) && old(self).offsets@[v as int] <= u64::MAX
                - 8,
        ensures
            final(self).wf(),
            final(self).same_block(*old(self)),
            final(self).shards == old(self).shards,
            final(self).length_passed == old(self).length_passed,
            match header {
                None => {
                    &&& r matches Ok(None)
                    &&& final(self).phase == BlockPhase::AtShard
                    &&& final(self).corrupted == old(self).corrupted + 1
                    &&& final(self).shard == old(self).shard + 1
                    &&& final(self).offsets == old(self).offsets
                    &&& final(self).stats == old(self).stats
                    &&& final(self).first_shard_size == old(self).first_shard_size
                },
                Some(h) => {
                    let v = old(self).reader()->0;
                    let at = old(self).offsets@[v as int] + SHARD_HEADER_SIZE;
                    &&& final(self).offsets@ == old(self).offsets@.update(v as int, at as u64)
                    &&& final(self).corrupted == old(self).corrupted
                    &&& final(self).shard == old(self).shard
                    &&& if h.length > MAX_SHARD_SIZE {
                        &&& r matches Err(EraError::InvalidFormat(m))
                        &&& m@ == "Shard size exceeds maximum"@
                        &&& final(self).phase == BlockPhase::Between
                        &&& final(self).stats == old(self).stats.one_failed()
                    } else {
                        &&& r == Ok::<Option<(usize, u64, u32)>, EraError>(
                            Some((v, at as u64, h.length)),
                        )
                        &&& final(self).phase == BlockPhase::AtData
                        &&& final(self).pending == Some(h)
                        &&& final(self).stats == old(self).stats
                        &&& final(self).first_shard_size == if old(self).first_shard_size == 0 {
                            h.length
                        } else {
                            old(self).first_shard_size
                        }
                    }
                },
            },
    {
        let at: usize = self.shard % self.original_volume_count;
        let v: usize = match self.vol_index_map[at] {
            Some(v) => v,
            None => 0,
        };
        assert(self.vol_index_map@[at as int] matches Some(r) ==> r < self.offsets@.len());
        match header {
            None => {
                self.corrupted = self.corrupted + 1;
                self.shard = self.shard + 1;
                self.phase = BlockPhase::AtShard;
                Ok(None)
            },
            Some(h) => {
                let to: u64 = self.offsets[v] + SHARD_HEADER_SIZE;
                self.offsets.set(v, to);
                if h.length > MAX_SHARD_SIZE {
                    self.stats.blocks_failed = self.stats.blocks_failed + 1;
                    self.phase = BlockPhase::Between;
                    return Err(
                        EraError::InvalidFormat(String::from_str("Shard size exceeds maximum")),
                    );
                }
                if self.first_shard_size == 0 {
                    self.first_shard_size = h.length;
                }
                self.pending = Some(h);
                self.phase = BlockPhase::AtData;
                Ok(Some((v, to, h.length)))
            },
        }
    }

    /// Takes the bytes of the shard at hand with their checksum; `None` where
    /// they cannot be read. The shard is passed either way.
    pub fn on_shard_data(&mut self, read: Option<ShardRead>)
        requires
            old(self).wf(),
            old(self).phase == BlockPhase::AtData,
            old(self).reader() matches Some(v) && old(self).offsets@[v as int] <= u64::MAX
                - MAX_SHARD_SIZE,
        ensures
            final(self).wf(),
            final(self).same_block(*old(self)),
            final(self).length_passed == old(self).length_passed,
            final(self).stats == old(self).stats,
            final(self).first_shard_size == old(self).first_shard_size,
            final(self).phase == BlockPhase::AtShard,
            final(self).shard == old(self).shard + 1,
            ({
                let v = old(self).reader()->0;
                let h = old(self).pending->0;
                &&& final(self).offsets@ == old(self).offsets@.update(
                    v as int,
                    (old(self).offsets@[v as int] + h.length) as u64,
                )
                &&& match read {
                    Some(d) => {
                        let good = repair::intact(h, false, d);
                        &&& final(self).corrupted == old(self).corrupted + if good {
                            0int
                        } else {
                            1
                        }
                        &&& final(self).shards@ == old(self).shards@.push(
                            VerifiedShard {
                                index: old(self).shard,
                                data: d.data,
                                expected_crc: h.crc,
                                crc_valid: good,
                            },
                        )
                    },
                    None => final(self).corrupted == old(self).corrupted + 1 && final(self).shards
                        == old(self).shards,
                }
            }),
    {
        let at: usize = self.shard % self.original_volume_count;
        let v: usize = match self.vol_index_map[at] {
            Some(v) => v,
            None => 0,
        };
        assert(self.vol_index_map@[at as int] matches Some(r) ==> r < self.offsets@.len());
        let h = match self.pending {
            Some(h) => h,
            None => ShardHeader { length: 0, crc: 0 },
        };
        match read {
            Some(d) => {
                let good = shard_is_intact(&h, false, &d);
                if !good {
                    self.corrupted = self.corrupted + 1;
                }
                self.shards.push(
                    VerifiedShard {
                        index: self.shard,
                        data: d.data,
                        expected_crc: h.crc,
                        crc_valid: good,
                    },
                );
            },
            None => {
                self.corrupted = self.corrupted + 1;
            },
        }
        let to: u64 = self.offsets[v] + h.length as u64;
        self.offsets.set(v, to);
        self.shard = self.shard + 1;
        self.pending = None;
        self.phase = BlockPhase::AtShard;
    }

    /// After the last shard: the intact shards to decode the block from. Fails
    /// where no shard was read, or only empty ones.
    pub fn conclude(&mut self) -> (r: Result<DecodeRequest, EraError>)
        requires
            old(self).wf(),
            old(self).phase == BlockPhase::AtShard,
            old(self).shard == old(self).layout.total(),
            old(self).stats.room(1024),
        ensures
            final(self).wf(),
            final(self).same_block(*old(self)),
            final(self).offsets == old(self).offsets,
            final(self).corrupted == old(self).corrupted,
            ({
                let counted = BlockIterStats {
                    corrupted_shards: (old(self).stats.corrupted_shards
                        + old(self).corrupted) as u32,
                    ..old(self).stats
                };
                if old(self).shards@.len() == 0 {
                    &&& r matches Err(EraError::ErasureError(m))
                    &&& m@ == "No valid shards for block "@ + text::decimal(
                        old(self).block_index as nat,
                    ) + ""@
                    &&& final(self).stats == counted.one_failed()
                    &&& final(self).phase == BlockPhase::Between
                } else if old(self).first_shard_size == 0 {
                    &&& r matches Err(EraError::InvalidFormat(m))
                    &&& m@ == "first_shard_size is 0 — cannot proceed with RS decode"@
                    &&& final(self).stats == counted.one_failed()
                    &&& final(self).phase == BlockPhase::Between
                } else {
                    &&& r matches Ok(q)
                    &&& q.info == (ErasureBlockInfo {
                        data_shards: old(self).layout.data_shards,
                        parity_shards: old(self).layout.parity_shards,
                        shard_size: old(self).first_shard_size,
                        original_len: old(self).original_len,
                    })
                    &&& q.block_id == old(self).block_index
                    &&& q.shards@ == valid_shards(old(self).shards@).map_values(
                        |s: VerifiedShard| Shard { index: s.index, data: s.data },
                    )
                    &&& final(self).stats == counted
                    &&& final(self).phase == BlockPhase::Decoding
                }
            }),
    {
        self.stats.corrupted_shards = self.stats.corrupted_shards + self.corrupted as u32;
        if self.shards.len() == 0 {
            self.stats.blocks_failed = self.stats.blocks_failed + 1;
            self.phase = BlockPhase::Between;
            return Err(
                EraError::ErasureError(
                    text::with_number("No valid shards for block ", self.block_index as u64, ""),
                ),
            );
        }
        if self.first_shard_size == 0 {
            self.stats.blocks_failed = self.stats.blocks_failed + 1;
            self.phase = BlockPhase::Between;
            return Err(
                EraError::InvalidFormat(
                    String::from_str("first_shard_size is 0 — cannot proceed with RS decode"),
                ),
            );
        }
        let mut all: Vec<VerifiedShard> = Vec::new();
        std::mem::swap(&mut all, &mut self.shards);
        let shards = take_valid(all);
        self.phase = BlockPhase::Decoding;
        Ok(
            DecodeRequest {
                info: ErasureBlockInfo {
                    data_shards: self.layout.data_shards,
                    parity_shards: self.layout.parity_shards,
                    shard_size: self.first_shard_size,
                    original_len: self.original_len,
                },
                block_id: self.block_index as u64,
                shards,
            },
        )
    }

    /// Takes what came of decoding the block.
    pub fn on_decoded(&mut self, chunks: Result<Vec<DecodedChunk>, EraError>) -> (r: Result<
        DecodedBlock,
        EraError,
    >)
        requires
            old(self).wf(),
            old(self).phase == BlockPhase::Decoding,
            old(self).stats.room(1),
            old(self).block_index < u32::MAX,
        ensures
            final(self).wf(),
            final(self).same_archive(*old(self)),
            final(self).offsets == old(self).offsets,
            final(self).phase == BlockPhase::Between,
            final(self).block_index == old(self).block_index + 1,
            final(self).stats == if chunks is Ok {
                old(self).stats.one_read()
            } else {
                old(self).stats.one_failed()
            },
            match chunks {
                Ok(c) => r == Ok::<DecodedBlock, EraError>(
                    (DecodedBlock {
                        block_index: old(self).block_index,
                        chunks: c,
                        corrupted_shards: old(self).corrupted,
                    }),
                ),
                Err(e) => r == Err::<DecodedBlock, EraError>(e),
            },
    {
        self.phase = BlockPhase::Between;
        let r = match chunks {
            Ok(c) => {
                self.stats.blocks_read = self.stats.blocks_read + 1;
                Ok(
                    DecodedBlock {
                        block_index: self.block_index,
                        chunks: c,
                        corrupted_shards: self.corrupted,
                    },
                )
            },
            Err(e) => {
                self.stats.blocks_failed = self.stats.blocks_failed + 1;
                Err(e)
            },
        };
        self.block_index = self.block_index + 1;
        r
    }

    /// Whether there are more blocks to read: enough volumes have room for the
    /// length of another.
    pub fn has_more(&self) -> (r: bool)
        requires
            self.wf(),
        ensures
            r == self.goes_on(4),
    {
        self.check_goes_on(4)
    }

    /// While there are more blocks, the next one is read.
    pub proof fn law_more_blocks_are_read(&self)
        ensures
            self.goes_on(4) ==> self.goes_on(1),
    {
        lemma_exhausted_grows(self.offsets@, self.ends@, 1, 4);
    }

    pub fn stats(&self) -> (r: &BlockIterStats)
        ensures
            *r == self.stats,
    {
        &self.stats
    }
}

/// The intact ones among shards, without their checksums.
fn take_valid(all: Vec<VerifiedShard>) -> (shards: Vec<Shard>)
    ensures
        shards@ == valid_shards(all@).map_values(
            |s: VerifiedShard| Shard { index: s.index, data: s.data },
        ),
{
    let ghost list = all@;
    let mut rest: Vec<VerifiedShard> = all;
    let mut backwards: Vec<Shard> = Vec::new();
    let ghost good = valid_shards(list).map_values(
        |s: VerifiedShard| Shard { index: s.index, data: s.data },
    );
    assert(good =~= valid_shards(rest@).map_values(
        |s: VerifiedShard| Shard { index: s.index, data: s.data },
    ) + backwards@.reverse());
    while rest.len() > 0
        invariant
            good == valid_shards(rest@).map_values(
                |s: VerifiedShard| Shard { index: s.index, data: s.data },
            ) + backwards@.reverse(),
        decreases rest.len(),
    {
        let ghost before = rest@;
        let ghost back = backwards@;
        let last = rest.pop();
        if let Some(s) = last {
            assert(before.drop_last() =~= rest@);
            if s.crc_valid {
                backwards.push(Shard { index: s.index, data: s.data });
            }
            assert(good =~= valid_shards(rest@).map_values(
                |s: VerifiedShard| Shard { index: s.index, data: s.data },
            ) + backwards@.reverse());
        }
    }
    let ghost back = backwards@;
    let mut shards: Vec<Shard> = Vec::new();
    assert(good =~= backwards@.reverse());
    assert(good =~= shards@ + backwards@.reverse());
    while backwards.len() > 0
        invariant
            good == shards@ + backwards@.reverse(),
        decreases backwards.len(),
    {
        let ghost b = backwards@;
        let ghost sh = shards@;
        if let Some(s) = backwards.pop() {
            shards.push(s);
            assert(good =~= shards@ + backwards@.reverse());
        }
    }
    assert(good =~= shards@);
    shards
}

/// No volume counts as exhausted exactly where each has the bytes left that are needed;
/// all do exactly where none has.
pub proof fn law_exhausted_volumes(offsets: Seq<u64>, ends: Seq<u64>, need: int)
    requires
        offsets.len() <= ends.len(),
    ensures
        exhausted(offsets, ends, need) <= offsets.len(),
        exhausted(offsets, ends, need) == 0 <==> forall|i: int|
            0 <= i < offsets.len() ==> (#[trigger] offsets[i]) + need <= ends[i],
        exhausted(offsets, ends, need) == offsets.len() <==> forall|i: int|
            0 <= i < offsets.len() ==> (#[trigger] offsets[i]) + need > ends[i],
    decreases offsets.len(),
{
    if offsets.len() > 0 {
        let front = offsets.drop_last();
        let n = front.len() as int;
        law_exhausted_volumes(front, ends, need);
        assert(offsets.last() == offsets[n]);
        assert forall|i: int| 0 <= i < n implies #[trigger] front[i] == offsets[i] by {}
        if exhausted(offsets, ends, need) == 0 {
            assert forall|i: int| 0 <= i < offsets.len() implies (#[trigger] offsets[i]) + need
                <= ends[i] by {
                if i < n {
                    assert(front[i] + need <= ends[i]);
                }
            }
        }
        if exhausted(offsets, ends, need) == offsets.len() {
            assert forall|i: int| 0 <= i < offsets.len() implies (#[trigger] offsets[i]) + need
                > ends[i] by {
                if i < n {
                    assert(front[i] + need > ends[i]);
                }
            }
        }
    }
}

/// Exactly the intact shards are kept, in their order.
pub proof fn law_intact_shards_are_kept(
    a: Seq<VerifiedShard>,
    b: Seq<VerifiedShard>,
    s: VerifiedShard,
)
    ensures
        valid_shards(seq![s]) == if s.crc_valid {
            seq![s]
        } else {
            Seq::empty()
        },
        valid_shards(a + b) == valid_shards(a) + valid_shards(b),
    decreases b.len(),
{
    assert(seq![s].drop_last() =~= Seq::<VerifiedShard>::empty());
    assert(valid_shards(Seq::<VerifiedShard>::empty()) =~= Seq::<VerifiedShard>::empty());
    assert(valid_shards(seq![s]) =~= if s.crc_valid {
        seq![s]
    } else {
        Seq::empty()
    });
    if b.len() == 0 {
        assert(a + b =~= a);
        assert(valid_shards(b) =~= Seq::<VerifiedShard>::empty());
        assert(valid_shards(a) + valid_shards(b) =~= valid_shards(a));
    } else {
        assert((a + b).drop_last() =~= a + b.drop_last());
        law_intact_shards_are_kept(a, b.drop_last(), s);
        assert(valid_shards(a + b) =~= valid_shards(a) + valid_shards(b));
    }
}

/// As many volumes are counted as the largest number asks for, at least one.
pub proof fn law_volumes_are_counted(s: Seq<usize>, i: int)
    ensures
        0 <= i < s.len() ==> s[i] < count_from(s),
        s.len() == 0 ==> count_from(s) == 1,
        s.len() > 0 ==> exists|k: int| 0 <= k < s.len() && #[trigger] s[k] + 1 == count_from(s),
    decreases s.len(),
{
    lemma_count_from(s);
    if s.len() > 0 {
        let front = s.drop_last();
        law_volumes_are_counted(front, 0);
        assert(s.last() == s[s.len() - 1]);
        if s.last() + 1 > count_from(front) {
            assert(s[s.len() - 1] + 1 == count_from(s));
        } else if front.len() > 0 {
            let k = choose|k: int| 0 <= k < front.len() && #[trigger] front[k] + 1 == count_from(front);
            assert(s[k] == front[k]);
        } else {
            assert(s[s.len() - 1] + 1 == count_from(s));
        }
    }
}

/// The position of a number holds it, and no later one does; without a position it does
/// not occur.
pub proof fn law_position_is_the_last(s: Seq<usize>, v: int, n: int, k: int)
    requires
        0 <= k < n <= s.len() <= usize::MAX,
    ensures
        match position_of(s, v, n) {
            Some(p) => p < n && s[p as int] == v && (k > p ==> s[k] != v),
            None => s[k] != v,
        },
    decreases n,
{
    assert(position_of(s, v, 0) is None);
    if s[n - 1] != v && n > 1 {
        law_position_is_the_last(s, v, n - 1, if k < n - 1 {
            k
        } else {
            0
        });
    }
}

/// A number is found to be repeated exactly where one occurs twice.
pub proof fn law_repeats_are_noticed(s: Seq<usize>)
    ensures
        s.no_duplicates() <==> !(exists|n: int| #[trigger] is_first_repeat(s, n)),
{
    if exists|n: int| #[trigger] is_first_repeat(s, n) {
        let n = choose|n: int| #[trigger] is_first_repeat(s, n);
        let k = choose|k: int| 0 <= k < n && s[k] == s[n];
        assert(s[k] == s[n]);
    }
    if !s.no_duplicates() {
        let (k, n) = choose|k: int, n: int| 0 <= k < n < s.len() && s[k] == s[n];
        assert(occurs_before(s, n, s[n]));
        lemma_first_repeat(s, n);
    }
}

proof fn lemma_first_repeat(s: Seq<usize>, n: int)
    requires
        0 <= n < s.len(),
        occurs_before(s, n, s[n]),
    ensures
        exists|m: int| #[trigger] is_first_repeat(s, m),
    decreases n,
{
    if exists|m: int| 0 <= m < n && occurs_before(s, m, #[trigger] s[m]) {
        let m = choose|m: int| 0 <= m < n && occurs_before(s, m, #[trigger] s[m]);
        lemma_first_repeat(s, m);
    } else {
        assert(is_first_repeat(s, n));
    }
}

/// An iteration reads one archive throughout, and one block until that is done.
pub proof fn law_iteration_stays_with_its_archive(
    a: ErasureBlockIterator,
    b: ErasureBlockIterator,
)
    ensures
        a.same_archive(b) ==> a.layout == b.layout && a.vol_index_map == b.vol_index_map
            && a.original_volume_count == b.original_volume_count && a.ends == b.ends,
        a.same_block(b) ==> a.same_archive(b) && a.block_index == b.block_index && a.original_len
            == b.original_len,
{
}

} // verus!

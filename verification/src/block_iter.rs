//! Walking the blocks of a volume.
//!
//! The iterators keep the position and the counters; reading, decryption and
//! unpacking happen outside. One step of an iterator is: ask where the next
//! header is, hand in what was read there, read the block it names, hand in
//! what came of it.
use vstd::prelude::*;

use crate::text;
use crate::types::{ChunkHash, EraError};

verus! {

/// No block is longer than this.
pub const MAX_BLOCK_SIZE: u32 = 67108864;

/// Bytes that a block header takes on disk.
pub const BLOCK_HEADER_SIZE: u64 = 16;

/// What a block holds.
#[derive(Debug, Clone, Copy, PartialEq, Eq, Structural)]
pub enum BlockType {
    Data,
    Catalog,
    IndexPage,
    IndexManifest,
    Checkpoint,
    Manifest,
    Other,
}

/// A parsed block header.
#[derive(Debug, Clone, Copy, PartialEq, Eq, Structural)]
pub struct BlockHeader {
    pub length: u32,
    pub block_type: BlockType,
}

/// A chunk taken out of a block.
#[derive(Debug)]
pub struct DecodedChunk {
    pub hash: ChunkHash,
    pub data: Vec<u8>,
}

/// A block that was read and decoded.
#[derive(Debug)]
pub struct DecodedBlock {
    /// Number of the block, for error reports.
    pub block_index: u32,
    pub chunks: Vec<DecodedChunk>,
    /// Damaged shards of the block's stripe.
    pub corrupted_shards: usize,
}

/// What an iteration met.
#[derive(Debug, Clone, Copy, PartialEq, Eq, Structural)]
pub struct BlockIterStats {
    /// Blocks read and decoded.
    pub blocks_read: u32,
    /// Blocks that could not be read or decoded.
    pub blocks_failed: u32,
    /// Damaged shards.
    pub corrupted_shards: u32,
}

impl Default for BlockIterStats {
    fn default() -> (s: Self)
        ensures
            s == (BlockIterStats { blocks_read: 0, blocks_failed: 0, corrupted_shards: 0 }),
    {
        BlockIterStats { blocks_read: 0, blocks_failed: 0, corrupted_shards: 0 }
    }
}

impl BlockIterStats {
    /// Every counter can grow by `n` without overflowing.
    pub open spec fn room(&self, n: int) -> bool {
        &&& self.blocks_read + n <= u32::MAX
        &&& self.blocks_failed + n <= u32::MAX
        &&& self.corrupted_shards + n <= u32::MAX
    }

    /// Whether every counter can still grow by 1024.
    pub fn has_room(&self) -> (r: bool)
        ensures
            r == self.room(1024),
    {
        let limit: u32 = u32::MAX - 1024;
        self.blocks_read <= limit && self.blocks_failed <= limit && self.corrupted_shards <= limit
    }

    pub open spec fn one_failed(self) -> BlockIterStats {
        BlockIterStats { blocks_failed: (self.blocks_failed + 1) as u32, ..self }
    }

    pub open spec fn one_read(self) -> BlockIterStats {
        BlockIterStats { blocks_read: (self.blocks_read + 1) as u32, ..self }
    }
}

/// What reading a block header came to.
#[derive(Debug)]
pub enum HeaderReply {
    /// The read failed.
    Failed(EraError),
    /// So many bytes came; where all came, the header that they hold.
    Bytes { count: usize, header: Option<BlockHeader> },
}

/// What a header means for the iteration.
#[derive(Debug, Clone, Copy, PartialEq, Eq, Structural)]
pub enum HeaderVerdict {
    ReadFailed,
    /// Nothing is left in the volume.
    End,
    Partial(usize),
    Invalid,
    /// A block that is not part of the data stream, with its length.
    Skip(u32),
    Empty,
    TooLarge(u32),
    /// A block of this length follows.
    Block(u32),
}

/// `data_only`: blocks other than data and catalog are passed over.
pub open spec fn header_verdict(data_only: bool, reply: HeaderReply) -> HeaderVerdict {
    match reply {
        HeaderReply::Failed(_) => HeaderVerdict::ReadFailed,
        HeaderReply::Bytes { count, header } => if count == 0 {
            HeaderVerdict::End
        } else if count != BLOCK_HEADER_SIZE {
            HeaderVerdict::Partial(count)
        } else {
            match header {
                None => HeaderVerdict::Invalid,
                Some(h) => if data_only && h.block_type != BlockType::Data && h.block_type
                    != BlockType::Catalog {
                    HeaderVerdict::Skip(h.length)
                } else if h.length == 0 {
                    HeaderVerdict::Empty
                } else if h.length > MAX_BLOCK_SIZE {
                    HeaderVerdict::TooLarge(h.length)
                } else {
                    HeaderVerdict::Block(h.length)
                },
            }
        },
    }
}

pub fn judge_header(data_only: bool, reply: &HeaderReply) -> (v: HeaderVerdict)
    ensures
        v == header_verdict(data_only, *reply),
{
    match reply {
        HeaderReply::Failed(_) => HeaderVerdict::ReadFailed,
        HeaderReply::Bytes { count, header } => {
            if *count == 0 {
                return HeaderVerdict::End;
            }
            if *count as u64 != BLOCK_HEADER_SIZE {
                return HeaderVerdict::Partial(*count);
            }
            match header {
                None => HeaderVerdict::Invalid,
                Some(h) => {
                    if data_only && h.block_type != BlockType::Data && h.block_type
                        != BlockType::Catalog {
                        HeaderVerdict::Skip(h.length)
                    } else if h.length == 0 {
                        HeaderVerdict::Empty
                    } else if h.length > MAX_BLOCK_SIZE {
                        HeaderVerdict::TooLarge(h.length)
                    } else {
                        HeaderVerdict::Block(h.length)
                    }
                },
            }
        },
    }
}

/// Where an iteration stands behind a header, by what was made of it: behind the
/// header where the block cannot be used, behind the block where it is passed
/// over, at the end where its length is impossible. A block that is to be read
/// is passed once it was.
pub open spec fn offset_after(v: HeaderVerdict, offset: u64, end: u64) -> int {
    match v {
        HeaderVerdict::Invalid => offset + BLOCK_HEADER_SIZE,
        HeaderVerdict::Empty => offset + BLOCK_HEADER_SIZE,
        HeaderVerdict::Skip(n) => offset + BLOCK_HEADER_SIZE + n,
        HeaderVerdict::TooLarge(_) => end as int,
        _ => offset as int,
    }
}

/// Whether a header of this verdict counts as a failed block.
pub open spec fn counts_as_failed(v: HeaderVerdict) -> bool {
    v is Invalid || v is Empty || v is TooLarge
}

/// What the caller of an iterator has to do next.
#[derive(Debug)]
pub enum NextStep {
    /// No block is left.
    End,
    /// The block was passed over: ask again.
    Again,
    /// The block of this number, `length` bytes behind the header at `offset`,
    /// is to be read.
    ReadBlock { block_index: u32, offset: u64, length: u32 },
    /// The block is reported as failed.
    Fail(EraError),
}

/// The report for a header that stands at `offset`; `place` names the place.
pub open spec fn reports(
    step: NextStep,
    v: HeaderVerdict,
    reply: HeaderReply,
    block_index: u32,
    offset: u64,
    place: Seq<char>,
) -> bool {
    match v {
        HeaderVerdict::ReadFailed => step matches NextStep::Fail(e) && HeaderReply::Failed(e)
            == reply,
        HeaderVerdict::End => step is End,
        HeaderVerdict::Skip(_) => step is Again,
        HeaderVerdict::Partial(n) => step matches NextStep::Fail(EraError::IntegrityError(m)) && m@
            == "Unexpected partial read: expected "@ + text::decimal(BLOCK_HEADER_SIZE as nat)
            + " bytes, got "@ + text::decimal(n as nat) + ""@,
        HeaderVerdict::Invalid => step matches NextStep::Fail(EraError::CorruptedHeader(m)) && m@
            == "Invalid BlockHeader at offset "@ + place,
        HeaderVerdict::Empty => step matches NextStep::Fail(EraError::CorruptedHeader(m)) && m@
            == "Zero-length block at offset "@ + place,
        HeaderVerdict::TooLarge(n) => step matches NextStep::Fail(
            EraError::BlockTooLarge { size, max_size },
        ) && size == n && max_size == MAX_BLOCK_SIZE,
        HeaderVerdict::Block(n) => step matches NextStep::ReadBlock {
            block_index: b,
            offset: o,
            length,
        } && b == block_index && o == offset && length == n,
    }
}

fn report(
    v: HeaderVerdict,
    reply: HeaderReply,
    data_only: bool,
    block_index: u32,
    offset: u64,
    place: &str,
) -> (step: NextStep)
    requires
        v == header_verdict(data_only, reply),
    ensures
        reports(step, v, reply, block_index, offset, place@),
{
    match v {
        HeaderVerdict::ReadFailed => match reply {
            HeaderReply::Failed(e) => NextStep::Fail(e),
            HeaderReply::Bytes { .. } => NextStep::End,
        },
        HeaderVerdict::End => NextStep::End,
        HeaderVerdict::Skip(_) => NextStep::Again,
        HeaderVerdict::Partial(n) => NextStep::Fail(
            EraError::IntegrityError(
                text::with_numbers(
                    "Unexpected partial read: expected ",
                    BLOCK_HEADER_SIZE,
                    " bytes, got ",
                    n as u64,
                    "",
                ),
            ),
        ),
        HeaderVerdict::Invalid => {
            let mut m: String = String::from_str("Invalid BlockHeader at offset ");
            m.append(place);
            NextStep::Fail(EraError::CorruptedHeader(m))
        },
        HeaderVerdict::Empty => {
            let mut m: String = String::from_str("Zero-length block at offset ");
            m.append(place);
            NextStep::Fail(EraError::CorruptedHeader(m))
        },
        HeaderVerdict::TooLarge(n) => NextStep::Fail(
            EraError::BlockTooLarge { size: n as usize, max_size: MAX_BLOCK_SIZE as usize },
        ),
        HeaderVerdict::Block(n) => NextStep::ReadBlock { block_index, offset, length: n },
    }
}

/// The position in one volume.
#[derive(Debug)]
pub struct BlockCursor {
    pub offset: u64,
    pub end: u64,
    pub block_index: u32,
    pub stats: BlockIterStats,
    /// Blocks other than data and catalog are passed over.
    pub data_only: bool,
    /// The length of the block that is being read.
    pub pending: Option<u32>,
}

impl BlockCursor {
    pub open spec fn wf(&self) -> bool {
        &&& self.end <= i64::MAX
        &&& self.pending matches Some(n) ==> self.offset < self.end && 0 < n <= MAX_BLOCK_SIZE
    }

    pub fn new(start: u64, end: u64, data_only: bool) -> (c: Self)
        requires
            end <= i64::MAX,
        ensures
            c.wf(),
            c.offset == start,
            c.end == end,
            c.block_index == 0,
            c.stats == (BlockIterStats { blocks_read: 0, blocks_failed: 0, corrupted_shards: 0 }),
            c.data_only == data_only,
            c.pending is None,
    {
        BlockCursor {
            offset: start,
            end,
            block_index: 0,
            stats: BlockIterStats::default(),
            data_only,
            pending: None,
        }
    }

    pub fn has_more(&self) -> (r: bool)
        ensures
            r == (self.offset < self.end),
    {
        self.offset < self.end
    }

    pub fn stats(&self) -> (r: &BlockIterStats)
        ensures
            *r == self.stats,
    {
        &self.stats
    }

    /// Where the next header is to be read; none where the volume is done.
    pub fn next_header(&self) -> (r: Option<u64>)
        ensures
            r == if self.offset < self.end {
                Some(self.offset)
            } else {
                None
            },
    {
        if self.offset < self.end {
            Some(self.offset)
        } else {
            None
        }
    }

    /// Takes the header at the current position.
    pub fn on_header(&mut self, reply: HeaderReply) -> (step: NextStep)
        requires
            old(self).wf(),
            old(self).offset < old(self).end,
            old(self).pending is None,
            old(self).stats.room(1),
        ensures
            final(self).wf(),
            final(self).end == old(self).end,
            final(self).data_only == old(self).data_only,
            final(self).block_index == old(self).block_index,
            ({
                let v = header_verdict(old(self).data_only, reply);
                &&& reports(
                    step,
                    v,
                    reply,
                    old(self).block_index,
                    old(self).offset,
                    text::decimal(old(self).offset as nat),
                )
                &&& final(self).offset == offset_after(v, old(self).offset, old(self).end)
                &&& final(self).stats == if counts_as_failed(v) {
                    old(self).stats.one_failed()
                } else {
                    old(self).stats
                }
                &&& final(self).pending == match v {
                    HeaderVerdict::Block(n) => Some(n),
                    _ => None,
                }
            }),
            *final(self) == old(self).after_header(reply),
            step matches NextStep::ReadBlock { block_index, offset, length } ==> block_index
                == old(self).block_index && offset == old(self).offset && final(self).pending
                == Some(length),
            step is ReadBlock <==> final(self).pending is Some,
    {
        let v = judge_header(self.data_only, &reply);
        let mut place: String = String::new();
        text::push_decimal(&mut place, self.offset);
        assert(place@ =~= text::decimal(self.offset as nat));
        let step = report(
            v,
            reply,
            self.data_only,
            self.block_index,
            self.offset,
            place.as_str(),
        );
        match v {
            HeaderVerdict::Invalid => {
                self.stats.blocks_failed = self.stats.blocks_failed + 1;
                self.offset = self.offset + BLOCK_HEADER_SIZE;
            },
            HeaderVerdict::Empty => {
                self.stats.blocks_failed = self.stats.blocks_failed + 1;
                self.offset = self.offset + BLOCK_HEADER_SIZE;
            },
            HeaderVerdict::Skip(n) => {
                self.offset = self.offset + BLOCK_HEADER_SIZE + n as u64;
            },
            HeaderVerdict::TooLarge(_) => {
                self.stats.blocks_failed = self.stats.blocks_failed + 1;
                self.offset = self.end;
            },
            HeaderVerdict::Block(n) => {
                self.pending = Some(n);
            },
            _ => {},
        }
        step
    }

    /// Takes what came of the block: its chunks, or why it failed. Either way
    /// the block is passed.
    pub fn on_block(&mut self, chunks: Result<Vec<DecodedChunk>, EraError>) -> (r: Result<
        DecodedBlock,
        EraError,
    >)
        requires
            old(self).wf(),
            old(self).pending is Some,
            old(self).stats.room(1),
            old(self).block_index < u32::MAX,
        ensures
            final(self).wf(),
            final(self).end == old(self).end,
            final(self).data_only == old(self).data_only,
            final(self).pending is None,
            final(self).offset == old(self).offset + BLOCK_HEADER_SIZE + (old(self).pending->0),
            *final(self) == old(self).after_block(chunks is Ok),
            final(self).block_index == old(self).block_index + 1,
            final(self).stats == if chunks is Ok {
                old(self).stats.one_read()
            } else {
                old(self).stats.one_failed()
            },
            match chunks {
                Ok(c) => r == Ok::<DecodedBlock, EraError>(
                    (DecodedBlock {
                        block_index: old(self).block_index,
                        chunks: c,
                        corrupted_shards: 0,
                    }),
                ),
                Err(e) => r == Err::<DecodedBlock, EraError>(e),
            },
    {
        let n: u32 = match self.pending {
            Some(n) => n,
            None => 0,
        };
        let r = match chunks {
            Ok(c) => {
                self.stats.blocks_read = self.stats.blocks_read + 1;
                Ok(DecodedBlock { block_index: self.block_index, chunks: c, corrupted_shards: 0 })
            },
            Err(e) => {
                self.stats.blocks_failed = self.stats.blocks_failed + 1;
                Err(e)
            },
        };
        self.offset = self.offset + BLOCK_HEADER_SIZE + n as u64;
        self.block_index = self.block_index + 1;
        self.pending = None;
        r
    }
}

impl BlockCursor {
    /// The cursor after a reply with a header.
    pub open spec fn after_header(self, reply: HeaderReply) -> BlockCursor {
        let v = header_verdict(self.data_only, reply);
        BlockCursor {
            offset: offset_after(v, self.offset, self.end) as u64,
            stats: if counts_as_failed(v) {
                self.stats.one_failed()
            } else {
                self.stats
            },
            pending: match v {
                HeaderVerdict::Block(n) => Some(n),
                _ => None,
            },
            ..self
        }
    }

    /// The cursor after the block that was asked for.
    pub open spec fn after_block(self, ok: bool) -> BlockCursor {
        BlockCursor {
            offset: (self.offset + BLOCK_HEADER_SIZE + (self.pending->0)) as u64,
            block_index: (self.block_index + 1) as u32,
            stats: if ok {
                self.stats.one_read()
            } else {
                self.stats.one_failed()
            },
            pending: None,
            ..self
        }
    }
}

/// A header that was read whole.
pub open spec fn whole_header(h: BlockHeader) -> HeaderReply {
    HeaderReply::Bytes { count: 16, header: Some(h) }
}

/// A block of this type is part of what an iteration gives.
pub open spec fn is_given(data_only: bool, t: BlockType) -> bool {
    !data_only || t == BlockType::Data || t == BlockType::Catalog
}

/// Of all headers that can be read, exactly those of blocks that hold something,
/// at most 64 mebibytes, and are part of what the iteration gives make it ask for
/// a block, and for that block. A longer one is refused by its length, an empty
/// one as empty; a block of another type is passed over, whatever its length.
pub proof fn law_blocks_are_asked_for(data_only: bool, h: BlockHeader)
    ensures
        ({
            let v = header_verdict(data_only, whole_header(h));
            &&& is_given(data_only, h.block_type) && 0 < h.length <= 64 * 1024 * 1024 ==> v
                == HeaderVerdict::Block(h.length)
            &&& v matches HeaderVerdict::Block(n) ==> n == h.length && 0 < n <= 64 * 1024 * 1024
                && is_given(data_only, h.block_type)
            &&& is_given(data_only, h.block_type) && h.length > 64 * 1024 * 1024 ==> v
                == HeaderVerdict::TooLarge(h.length)
            &&& is_given(data_only, h.block_type) && h.length == 0 ==> v == HeaderVerdict::Empty
            &&& !is_given(data_only, h.block_type) ==> v == HeaderVerdict::Skip(h.length)
        }),
{
}

/// A header that cannot be read asks for no block: nothing is left where no byte
/// came, and anything else is reported.
pub proof fn law_unread_headers_ask_for_nothing(data_only: bool, reply: HeaderReply)
    requires
        !(reply matches HeaderReply::Bytes { count, header } && count == 16 && header is Some),
    ensures
        ({
            let v = header_verdict(data_only, reply);
            &&& !(v is Block) && !(v is Skip)
            &&& v is End <==> (reply matches HeaderReply::Bytes { count, .. } && count == 0)
            &&& v is ReadFailed <==> reply is Failed
            &&& v is Invalid <==> (reply matches HeaderReply::Bytes { count, .. } && count == 16)
            &&& v matches HeaderVerdict::Partial(n) ==> (reply matches HeaderReply::Bytes {
                count,
                ..
            } && count == n)
        }),
{
}

/// The bytes of the first `n` blocks of a row, headers included.
pub open spec fn row_bytes(row: Seq<BlockHeader>, n: int) -> int
    decreases n,
{
    if n <= 0 {
        0
    } else {
        row_bytes(row, n - 1) + 16 + row[n - 1].length
    }
}

/// How many of the first `n` blocks of a row an iteration gives.
pub open spec fn given_blocks(row: Seq<BlockHeader>, data_only: bool, n: int) -> nat
    decreases n,
{
    if n <= 0 {
        0
    } else {
        given_blocks(row, data_only, n - 1) + if is_given(data_only, row[n - 1].block_type) {
            1nat
        } else {
            0nat
        }
    }
}

/// The cursor after the first `n` blocks of a row, each of which can be read.
pub open spec fn walked(c: BlockCursor, row: Seq<BlockHeader>, n: int) -> BlockCursor
    decreases n,
{
    if n <= 0 {
        c
    } else {
        let m = walked(c, row, n - 1).after_header(whole_header(row[n - 1]));
        if m.pending is Some {
            m.after_block(true)
        } else {
            m
        }
    }
}

/// Walking a volume that was written as a row of blocks reads all of them that
/// the iteration gives: after any number of blocks it stands right behind them,
/// has read those and no others, and none failed; the next one is asked for under
/// the next number, at its place and at its length.
pub proof fn law_row_of_blocks_is_read(c: BlockCursor, row: Seq<BlockHeader>, n: int)
    requires
        0 <= n <= row.len() < u32::MAX,
        c.pending is None,
        c.block_index == 0,
        c.stats == (BlockIterStats { blocks_read: 0, blocks_failed: 0, corrupted_shards: 0 }),
        c.offset + row_bytes(row, row.len() as int) <= c.end <= i64::MAX,
        forall|k: int|
            0 <= k < row.len() ==> 0 < (#[trigger] row[k]).length <= 64 * 1024 * 1024,
    ensures
        ({
            let w = walked(c, row, n);
            let given = given_blocks(row, c.data_only, n);
            &&& w.offset == c.offset + row_bytes(row, n)
            &&& w.end == c.end
            &&& w.data_only == c.data_only
            &&& w.pending is None
            &&& w.block_index == given
            &&& w.stats == (BlockIterStats {
                blocks_read: given as u32,
                blocks_failed: 0,
                corrupted_shards: 0,
            })
            &&& given <= n
            &&& n < row.len() && is_given(c.data_only, row[n].block_type) ==> forall|
                step: NextStep,
                place: Seq<char>,
            |
                #[trigger] reports(
                    step,
                    header_verdict(w.data_only, whole_header(row[n])),
                    whole_header(row[n]),
                    w.block_index,
                    w.offset,
                    place,
                ) ==> step == (NextStep::ReadBlock {
                    block_index: given as u32,
                    offset: (c.offset + row_bytes(row, n)) as u64,
                    length: row[n].length,
                })
        }),
    decreases n,
{
    lemma_row_bytes_grow(row, n, row.len() as int);
    if n > 0 {
        law_row_of_blocks_is_read(c, row, n - 1);
        law_blocks_are_asked_for(c.data_only, row[n - 1]);
    }
    if n < row.len() {
        law_blocks_are_asked_for(c.data_only, row[n]);
    }
}

proof fn lemma_row_bytes_grow(row: Seq<BlockHeader>, i: int, j: int)
    requires
        i <= j,
    ensures
        row_bytes(row, i) <= row_bytes(row, j),
    decreases j - i,
{
    if i < j {
        lemma_row_bytes_grow(row, i, j - 1);
    }
}

/// What counts as failed is what neither is read nor passed over nor the end of
/// the volume, as far as it says so itself; where a block cannot be told apart
/// from its header any more, the rest of the volume is given up, and otherwise
/// nothing behind the header is.
pub proof fn law_failed_headers(v: HeaderVerdict, offset: u64, end: u64)
    ensures
        counts_as_failed(v) <==> v is Invalid || v is Empty || v is TooLarge,
        v is TooLarge ==> offset_after(v, offset, end) == end,
        v is Invalid || v is Empty ==> offset_after(v, offset, end) == offset + 16,
        v matches HeaderVerdict::Skip(n) ==> offset_after(v, offset, end) == offset + 16 + n,
        v is ReadFailed || v is End || v is Partial || v is Block ==> offset_after(v, offset, end)
            == offset,
{
}

/// Every header that is passed moves the position forward, so an iteration over
/// a volume comes to its end.
pub proof fn law_headers_move_forward(v: HeaderVerdict, offset: u64, end: u64)
    requires
        offset < end,
        v is Invalid || v is Empty || v is Skip || v is TooLarge,
    ensures
        offset_after(v, offset, end) > offset,
{
}

/// All blocks of a volume, in order.
#[derive(Debug)]
pub struct StandardBlockIterator {
    pub cursor: BlockCursor,
}

impl StandardBlockIterator {
    /// Walks the data region of a volume.
    pub fn new(data_start: u64, data_end: u64) -> (s: Self)
        requires
            data_end <= i64::MAX,
        ensures
            s.cursor.wf(),
            s.cursor.offset == data_start,
            s.cursor.end == data_end,
            s.cursor.block_index == 0,
            !s.cursor.data_only,
            s.cursor.pending is None,
            s.cursor.stats == (BlockIterStats {
                blocks_read: 0,
                blocks_failed: 0,
                corrupted_shards: 0,
            }),
    {
        StandardBlockIterator { cursor: BlockCursor::new(data_start, data_end, false) }
    }

    /// Walks up to `end_offset`, for example up to the catalog.
    pub fn with_end_offset(data_start: u64, end_offset: u64) -> (s: Self)
        requires
            end_offset <= i64::MAX,
        ensures
            s.cursor.wf(),
            s.cursor.offset == data_start,
            s.cursor.end == end_offset,
            s.cursor.block_index == 0,
            !s.cursor.data_only,
            s.cursor.pending is None,
            s.cursor.stats == (BlockIterStats {
                blocks_read: 0,
                blocks_failed: 0,
                corrupted_shards: 0,
            }),
    {
        StandardBlockIterator { cursor: BlockCursor::new(data_start, end_offset, false) }
    }

    pub fn has_more(&self) -> (r: bool)
        ensures
            r == (self.cursor.offset < self.cursor.end),
    {
        self.cursor.has_more()
    }

    pub fn stats(&self) -> (r: &BlockIterStats)
        ensures
            *r == self.cursor.stats,
    {
        self.cursor.stats()
    }
}

/// The data and catalog blocks of a volume, in order; blocks of the embedded
/// index are passed over and not numbered.
#[derive(Debug)]
pub struct SessionBlockIterator {
    pub cursor: BlockCursor,
}

impl SessionBlockIterator {
    /// Walks the data region of a volume.
    pub fn new(data_start: u64, data_end: u64) -> (s: Self)
        requires
            data_end <= i64::MAX,
        ensures
            s.cursor.wf(),
            s.cursor.offset == data_start,
            s.cursor.end == data_end,
            s.cursor.block_index == 0,
            s.cursor.data_only,
            s.cursor.pending is None,
            s.cursor.stats == (BlockIterStats {
                blocks_read: 0,
                blocks_failed: 0,
                corrupted_shards: 0,
            }),
    {
        SessionBlockIterator { cursor: BlockCursor::new(data_start, data_end, true) }
    }

    /// Walks up to `end_offset`, for example up to the catalog.
    pub fn with_end_offset(data_start: u64, end_offset: u64) -> (s: Self)
        requires
            end_offset <= i64::MAX,
        ensures
            s.cursor.wf(),
            s.cursor.offset == data_start,
            s.cursor.end == end_offset,
            s.cursor.block_index == 0,
            s.cursor.data_only,
            s.cursor.pending is None,
            s.cursor.stats == (BlockIterStats {
                blocks_read: 0,
                blocks_failed: 0,
                corrupted_shards: 0,
            }),
    {
        SessionBlockIterator { cursor: BlockCursor::new(data_start, end_offset, true) }
    }

    pub fn has_more(&self) -> (r: bool)
        ensures
            r == (self.cursor.offset < self.cursor.end),
    {
        self.cursor.has_more()
    }

    pub fn stats(&self) -> (r: &BlockIterStats)
        ensures
            *r == self.cursor.stats,
    {
        self.cursor.stats()
    }
}

/// The data and catalog blocks of several volumes, one volume after the other.
#[derive(Debug)]
pub struct MultiVolumeSessionBlockIterator {
    pub current_volume: usize,
    pub offsets: Vec<u64>,
    pub ends: Vec<u64>,
    pub block_index: u32,
    pub stats: BlockIterStats,
    /// The length of the block that is being read.
    pub pending: Option<u32>,
}

/// The first volume at or behind `from` that is not done.
pub open spec fn first_open(offsets: Seq<u64>, ends: Seq<u64>, from: int) -> int
    decreases offsets.len() - from,
{
    if from >= offsets.len() {
        offsets.len() as int
    } else if offsets[from] < ends[from] {
        from
    } else {
        first_open(offsets, ends, from + 1)
    }
}

impl MultiVolumeSessionBlockIterator {
    pub open spec fn wf(&self) -> bool {
        &&& self.offsets@.len() == self.ends@.len()
        &&& self.current_volume <= self.offsets@.len()
        &&& forall|i: int| 0 <= i < self.ends@.len() ==> #[trigger] self.ends@[i] <= i64::MAX
        &&& self.pending matches Some(n) ==> {
            &&& self.current_volume < self.offsets@.len()
            &&& self.offsets@[self.current_volume as int] < self.ends@[self.current_volume as int]
            &&& 0 < n <= MAX_BLOCK_SIZE
        }
    }

    pub fn new(offsets: Vec<u64>, ends: Vec<u64>) -> (s: Self)
        requires
            offsets@.len() == ends@.len(),
            forall|i: int| 0 <= i < ends@.len() ==> #[trigger] ends@[i] <= i64::MAX,
        ensures
            s.wf(),
            s.current_volume == 0,
            s.offsets == offsets,
            s.ends == ends,
            s.block_index == 0,
            s.pending is None,
            s.stats == (BlockIterStats { blocks_read: 0, blocks_failed: 0, corrupted_shards: 0 }),
    {
        MultiVolumeSessionBlockIterator {
            current_volume: 0,
            offsets,
            ends,
            block_index: 0,
            stats: BlockIterStats::default(),
            pending: None,
        }
    }

    /// The volume and offset of the next header; volumes that are done are left
    /// behind. `None` where all are done.
    pub fn next_header(&mut self) -> (r: Option<(usize, u64)>)
        requires
            old(self).wf(),
            old(self).pending is None,
        ensures
            final(self).wf(),
            final(self).offsets == old(self).offsets,
            final(self).ends == old(self).ends,
            final(self).block_index == old(self).block_index,
            final(self).stats == old(self).stats,
            final(self).pending is None,
            final(self).current_volume == first_open(
                old(self).offsets@,
                old(self).ends@,
                old(self).current_volume as int,
            ),
            r == if final(self).current_volume < old(self).offsets@.len() {
                Some(
                    (
                        final(self).current_volume,
                        old(self).offsets@[final(self).current_volume as int],
                    ),
                )
            } else {
                None
            },
    {
        while self.current_volume < self.offsets.len() && self.offsets[self.current_volume]
            >= self.ends[self.current_volume]
            invariant
                self.wf(),
                self.pending is None,
                self.offsets == old(self).offsets,
                self.ends == old(self).ends,
                self.block_index == old(self).block_index,
                self.stats == old(self).stats,
                first_open(self.offsets@, self.ends@, self.current_volume as int) == first_open(
                    old(self).offsets@,
                    old(self).ends@,
                    old(self).current_volume as int,
                ),
            decreases self.offsets@.len() - self.current_volume,
        {
            self.current_volume = self.current_volume + 1;
        }
        if self.current_volume < self.offsets.len() {
            Some((self.current_volume, self.offsets[self.current_volume]))
        } else {
            None
        }
    }

    /// Takes the header that was asked for. An empty read leaves the volume
    /// behind.
    pub fn on_header(&mut self, reply: HeaderReply) -> (step: NextStep)
        requires
            old(self).wf(),
            old(self).pending is None,
            old(self).current_volume < old(self).offsets@.len(),
            old(self).offsets@[old(self).current_volume as int]
                < old(self).ends@[old(self).current_volume as int],
            old(self).stats.room(1),
        ensures
            final(self).wf(),
            final(self).ends == old(self).ends,
            final(self).block_index == old(self).block_index,
            ({
                let v = header_verdict(true, reply);
                let i = old(self).current_volume as int;
                let at = old(self).offsets@[i];
                &&& if v is End {
                    step is Again
                } else {
                    reports(
                        step,
                        v,
                        reply,
                        old(self).block_index,
                        at,
                        text::decimal(at as nat) + " on volume "@ + text::decimal(
                            old(self).current_volume as nat,
                        ),
                    )
                }
                &&& final(self).offsets@ == old(self).offsets@.update(
                    i,
                    offset_after(v, at, old(self).ends@[i]) as u64,
                )
                &&& final(self).current_volume == if v is End {
                    old(self).current_volume + 1
                } else {
                    old(self).current_volume as int
                }
                &&& final(self).stats == if counts_as_failed(v) {
                    old(self).stats.one_failed()
                } else {
                    old(self).stats
                }
                &&& final(self).pending == match v {
                    HeaderVerdict::Block(n) => Some(n),
                    _ => None,
                }
            }),
    {
        let i: usize = self.current_volume;
        let at: u64 = self.offsets[i];
        let end: u64 = self.ends[i];
        assert(self.ends@[i as int] <= i64::MAX);
        let v = judge_header(true, &reply);
        let mut place: String = text::with_number("", at, " on volume ");
        text::push_decimal(&mut place, i as u64);
        proof {
            reveal_strlit("");
            assert(place@ =~= text::decimal(at as nat) + " on volume "@ + text::decimal(i as nat));
        }
        let step = report(v, reply, true, self.block_index, at, place.as_str());
        let mut to: u64 = at;
        let mut again = false;
        match v {
            HeaderVerdict::Invalid => {
                self.stats.blocks_failed = self.stats.blocks_failed + 1;
                to = at + BLOCK_HEADER_SIZE;
            },
            HeaderVerdict::Empty => {
                self.stats.blocks_failed = self.stats.blocks_failed + 1;
                to = at + BLOCK_HEADER_SIZE;
            },
            HeaderVerdict::Skip(n) => {
                to = at + BLOCK_HEADER_SIZE + n as u64;
            },
            HeaderVerdict::TooLarge(_) => {
                self.stats.blocks_failed = self.stats.blocks_failed + 1;
                to = end;
            },
            HeaderVerdict::Block(n) => {
                self.pending = Some(n);
            },
            HeaderVerdict::End => {
                let volumes: usize = self.offsets.len();
                assert(i < volumes);
                self.current_volume = i + 1;
                again = true;
            },
            _ => {},
        }
        self.offsets.set(i, to);
        if again {
            return NextStep::Again;
        }
        step
    }

    /// Takes what came of the block: its chunks, or why it failed.
    pub fn on_block(&mut self, chunks: Result<Vec<DecodedChunk>, EraError>) -> (r: Result<
        DecodedBlock,
        EraError,
    >)
        requires
            old(self).wf(),
            old(self).pending is Some,
            old(self).stats.room(1),
            old(self).block_index < u32::MAX,
        ensures
            final(self).wf(),
            final(self).ends == old(self).ends,
            final(self).current_volume == old(self).current_volume,
            final(self).pending is None,
            final(self).offsets@ == old(self).offsets@.update(
                old(self).current_volume as int,
                (old(self).offsets@[old(self).current_volume as int] + BLOCK_HEADER_SIZE + (
                old(self).pending->0)) as u64,
            ),
            final(self).block_index == old(self).block_index + 1,
            final(self).stats == if chunks is Ok {
                old(self).stats.one_read()
            } else {
                old(self).stats.one_failed()
            },
            match chunks {
                Ok(c) => r == Ok::<DecodedBlock, EraError>(
                    (DecodedBlock {
                        block_index: old(self).block_index,
                        chunks: c,
                        corrupted_shards: 0,
                    }),
                ),
                Err(e) => r == Err::<DecodedBlock, EraError>(e),
            },
    {
        let n: u32 = match self.pending {
            Some(n) => n,
            None => 0,
        };
        let i: usize = self.current_volume;
        let r = match chunks {
            Ok(c) => {
                self.stats.blocks_read = self.stats.blocks_read + 1;
                Ok(DecodedBlock { block_index: self.block_index, chunks: c, corrupted_shards: 0 })
            },
            Err(e) => {
                self.stats.blocks_failed = self.stats.blocks_failed + 1;
                Err(e)
            },
        };
        assert(self.ends@[i as int] <= i64::MAX);
        let to: u64 = self.offsets[i] + BLOCK_HEADER_SIZE + n as u64;
        self.offsets.set(i, to);
        self.block_index = self.block_index + 1;
        self.pending = None;
        r
    }

    /// Whether a volume is left that is not done.
    pub fn has_more(&self) -> (r: bool)
        requires
            self.wf(),
        ensures
            r == exists|i: int|
                self.current_volume <= i < self.offsets@.len() && #[trigger] self.offsets@[i]
                    < self.ends@[i],
    {
        let mut i: usize = self.current_volume;
        while i < self.offsets.len()
            invariant
                self.wf(),
                self.current_volume <= i <= self.offsets@.len(),
                forall|k: int|
                    self.current_volume <= k < i ==> #[trigger] self.offsets@[k] >= self.ends@[k],
            decreases self.offsets@.len() - i,
        {
            if self.offsets[i] < self.ends[i] {
                return true;
            }
            i = i + 1;
        }
        false
    }

    pub fn stats(&self) -> (r: &BlockIterStats)
        ensures
            *r == self.stats,
    {
        &self.stats
    }
}

/// The volume that is read next is the first one with something left: nothing is
/// left of those before it, and where it is not there, of none.
pub proof fn law_first_open_volume(offsets: Seq<u64>, ends: Seq<u64>, from: int)
    requires
        0 <= from <= offsets.len(),
    ensures
        ({
            let i = first_open(offsets, ends, from);
            &&& from <= i <= offsets.len()
            &&& i < offsets.len() ==> offsets[i] < ends[i]
            &&& forall|k: int| from <= k < i ==> (#[trigger] offsets[k]) >= ends[k]
        }),
    decreases offsets.len() - from,
{
    if from < offsets.len() && offsets[from] >= ends[from] {
        law_first_open_volume(offsets, ends, from + 1);
    }
}

/// A block is counted once, as read or as failed, and no other counter moves.
pub proof fn law_blocks_are_counted_once(s: BlockIterStats)
    requires
        s.blocks_read < u32::MAX,
        s.blocks_failed < u32::MAX,
    ensures
        s.one_read().blocks_read == s.blocks_read + 1,
        s.one_read().blocks_failed == s.blocks_failed,
        s.one_failed().blocks_failed == s.blocks_failed + 1,
        s.one_failed().blocks_read == s.blocks_read,
        s.one_read().corrupted_shards == s.corrupted_shards,
        s.one_failed().corrupted_shards == s.corrupted_shards,
{
}

} // verus!

//! Holding small files back until there are enough of them to share a block.
use vstd::prelude::*;

use crate::types::ChunkHash;

verus! {

/// A small file that waits.
#[derive(Debug)]
pub struct SmallFileEntry {
    pub path: String,
    pub data: Vec<u8>,
    pub hash: ChunkHash,
    pub permissions: u32,
    /// In seconds since 1970.
    pub mtime: Option<u64>,
    /// Names and values.
    pub xattrs: Vec<(String, Vec<u8>)>,
}

/// The bytes of the files that are small enough to wait.
pub open spec fn waiting_bytes(entries: Seq<SmallFileEntry>) -> nat
    decreases entries.len(),
{
    if entries.len() == 0 {
        0
    } else {
        waiting_bytes(entries.drop_last()) + entries.last().data@.len()
    }
}

/// Files smaller than `threshold` wait until they hold `pack_size_threshold`
/// bytes together or `max_buffered_files` of them wait.
#[derive(Debug)]
pub struct SmallFilePacker {
    pub buffer: Vec<SmallFileEntry>,
    pub total_size: u64,
    pub threshold: u64,
    pub pack_size_threshold: u64,
    pub max_buffered_files: usize,
}

impl SmallFilePacker {
    /// The size is that of the files that wait, and nothing waits that should
    /// have been handed out.
    pub open spec fn wf(&self) -> bool {
        &&& self.total_size == waiting_bytes(self.buffer@)
        &&& forall|i: int|
            0 <= i < self.buffer@.len() ==> self.waits((#[trigger] self.buffer@[i]).data@.len())
        &&& self.buffer@.len() > 0 ==> !self.full(self.total_size as nat, self.buffer@.len())
    }

    /// A file of this size waits.
    pub open spec fn waits(&self, size: nat) -> bool {
        self.threshold > 0 && 0 < size < self.threshold
    }

    /// This much does not wait any longer.
    pub open spec fn full(&self, bytes: nat, files: nat) -> bool {
        bytes >= self.pack_size_threshold || files >= self.max_buffered_files
    }

    /// The settings stay.
    pub open spec fn same_limits(&self, other: SmallFilePacker) -> bool {
        &&& self.threshold == other.threshold
        &&& self.pack_size_threshold == other.pack_size_threshold
        &&& self.max_buffered_files == other.max_buffered_files
    }

    /// A threshold of 0 lets no file wait.
    pub fn new(threshold: u64, pack_size: u64, max_files: usize) -> (p: Self)
        ensures
            p.wf(),
            p.buffer@.len() == 0,
            p.threshold == threshold,
            p.pack_size_threshold == pack_size,
            p.max_buffered_files == max_files,
    {
        SmallFilePacker {
            buffer: Vec::new(),
            total_size: 0,
            threshold,
            pack_size_threshold: pack_size,
            max_buffered_files: max_files,
        }
    }

    /// A packer that lets no file wait.
    pub fn disabled() -> (p: Self)
        ensures
            p.wf(),
            p.buffer@.len() == 0,
            p.threshold == 0,
            p.pack_size_threshold == 0,
            p.max_buffered_files == 0,
    {
        Self::new(0, 0, 0)
    }

    pub fn should_buffer(&self, size: u64) -> (r: bool)
        ensures
            r == self.waits(size as nat),
    {
        self.threshold > 0 && size > 0 && size < self.threshold
    }

    /// Takes a file. What comes back is written now: everything that waited and
    /// the file, where the file is not one that waits or enough has come
    /// together.
    pub fn push(&mut self, entry: SmallFileEntry) -> (r: Option<Vec<SmallFileEntry>>)
        requires
            old(self).wf(),
        ensures
            final(self).wf(),
            final(self).same_limits(*old(self)),
            ({
                let all = old(self).buffer@.push(entry);
                let goes = !old(self).waits(entry.data@.len()) || old(self).full(
                    waiting_bytes(all),
                    all.len(),
                );
                &&& r is Some <==> goes
                &&& goes ==> r->0@ == all && final(self).buffer@.len() == 0
                &&& !goes ==> final(self).buffer@ == all
            }),
    {
        let ghost all = self.buffer@.push(entry);
        let file_size: u64 = entry.data.len() as u64;
        proof {
            assert(all.drop_last() =~= self.buffer@);
        }
        if !self.should_buffer(file_size) {
            self.buffer.push(entry);
            return Some(self.take_all());
        }
        if self.total_size > u64::MAX - file_size {
            // More bytes than can be counted are more than any limit.
            self.buffer.push(entry);
            return Some(self.take_all());
        }
        self.total_size = self.total_size + file_size;
        self.buffer.push(entry);
        let n: usize = self.buffer.len();
        if self.total_size >= self.pack_size_threshold || n >= self.max_buffered_files {
            Some(self.take_all())
        } else {
            None
        }
    }

    fn take_all(&mut self) -> (v: Vec<SmallFileEntry>)
        ensures
            final(self).wf(),
            final(self).same_limits(*old(self)),
            final(self).buffer@.len() == 0,
            v@ == old(self).buffer@,
    {
        self.total_size = 0;
        let mut v: Vec<SmallFileEntry> = Vec::new();
        std::mem::swap(&mut v, &mut self.buffer);
        v
    }

    /// Takes out what waits.
    pub fn take(&mut self) -> (v: Vec<SmallFileEntry>)
        requires
            old(self).wf(),
        ensures
            final(self).wf(),
            final(self).same_limits(*old(self)),
            final(self).buffer@.len() == 0,
            v@ == old(self).buffer@,
    {
        self.take_all()
    }

    pub fn is_empty(&self) -> (r: bool)
        ensures
            r == (self.buffer@.len() == 0),
    {
        self.buffer.len() == 0
    }

    pub fn len(&self) -> (n: usize)
        ensures
            n == self.buffer@.len(),
    {
        self.buffer.len()
    }

    pub fn total_size(&self) -> (n: u64)
        requires
            self.wf(),
        ensures
            n == waiting_bytes(self.buffer@),
    {
        self.total_size
    }
}

impl SmallFilePacker {
    /// What waits is little: fewer bytes and fewer files than are written
    /// together, and only files that hold something and are below the threshold.
    pub proof fn law_only_little_waits(&self, i: int)
        requires
            self.wf(),
            0 <= i < self.buffer@.len(),
        ensures
            waiting_bytes(self.buffer@) < self.pack_size_threshold,
            self.buffer@.len() < self.max_buffered_files,
            0 < self.buffer@[i].data@.len() < self.threshold,
            self.buffer@[i].data@.len() <= waiting_bytes(self.buffer@),
    {
        lemma_part_of_waiting(self.buffer@, i);
    }

    /// A file waits exactly where it holds something and is below the threshold;
    /// what waits goes out only once there are bytes or files enough.
    pub proof fn law_small_files_wait(&self, size: nat, bytes: nat, files: nat)
        ensures
            self.waits(size) <==> 0 < size && size < self.threshold,
            bytes < self.pack_size_threshold && files < self.max_buffered_files ==> !self.full(
                bytes,
                files,
            ),
            bytes >= self.pack_size_threshold ==> self.full(bytes, files),
            files >= self.max_buffered_files ==> self.full(bytes, files),
    {
    }
}

proof fn lemma_part_of_waiting(entries: Seq<SmallFileEntry>, i: int)
    requires
        0 <= i < entries.len(),
    ensures
        entries[i].data@.len() <= waiting_bytes(entries),
    decreases entries.len(),
{
    if i < entries.len() - 1 {
        lemma_part_of_waiting(entries.drop_last(), i);
    }
}

/// The bytes that wait are those of each file, added up.
pub proof fn law_waiting_bytes_add_up(a: Seq<SmallFileEntry>, b: Seq<SmallFileEntry>, e: SmallFileEntry)
    ensures
        waiting_bytes(Seq::empty()) == 0,
        waiting_bytes(seq![e]) == e.data@.len(),
        waiting_bytes(a + b) == waiting_bytes(a) + waiting_bytes(b),
    decreases b.len(),
{
    assert(seq![e].drop_last() =~= Seq::<SmallFileEntry>::empty());
    if b.len() == 0 {
        assert(a + b =~= a);
    } else {
        assert((a + b).drop_last() =~= a + b.drop_last());
        law_waiting_bytes_add_up(a, b.drop_last(), e);
    }
}

/// Packers with the same limits let the same files wait, and as many.
pub proof fn law_same_limits_wait_alike(
    a: SmallFilePacker,
    b: SmallFilePacker,
    size: nat,
    files: nat,
)
    requires
        a.same_limits(b),
    ensures
        a.waits(size) == b.waits(size),
        a.full(size, files) == b.full(size, files),
        a.threshold == b.threshold,
        a.pack_size_threshold == b.pack_size_threshold,
        a.max_buffered_files == b.max_buffered_files,
{
}

} // verus!

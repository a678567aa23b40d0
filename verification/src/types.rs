//! Plain values shared by the modules: errors, shard headers, layouts.
use vstd::prelude::*;

verus! {

/// What an operation of the engine can fail with.
#[derive(Debug)]
pub enum EraError {
    /// A background task failed.
    AsyncError(String),
    /// A block announces more bytes than a block may have.
    BlockTooLarge { size: usize, max_size: usize },
    /// The other end of a channel is gone.
    ChannelClosed(String),
    /// A checkpoint is missing or cannot be used.
    CheckpointError(String),
    /// A header or a table of a volume does not hold together.
    CorruptedHeader(String),
    /// Data could not be decrypted.
    Decryption(String),
    /// Data could not be decompressed.
    Decompression(String),
    /// Bytes could not be turned into a value.
    Deserialization(String),
    /// The archive has no volume.
    EmptyArchive,
    /// The catalog holds no chunk.
    EmptyCatalog,
    /// Erasure coding failed or does not apply.
    ErasureError(String),
    /// Stored data contradicts its checksums or its index.
    IntegrityError(String),
    /// The configuration cannot be used.
    InvalidConfig(String),
    /// The file is not laid out as an archive is.
    InvalidFormat(String),
    /// No key, or a key of the wrong shape.
    InvalidKey(String),
    /// Reading or writing failed.
    Io(String),
    /// Anything else.
    Other(String),
    /// The request is refused for safety.
    Security(String),
    /// A value could not be turned into bytes.
    Serialization(String),
    /// Too few shares of a split key.
    ThresholdNotMet { required: u32, provided: u32 },
}

/// How many data and parity shards a stripe has.
#[derive(Debug, Clone, Copy, PartialEq, Eq, Structural)]
pub struct ErasureCodeConfig {
    pub data_shards: u8,
    pub parity_shards: u8,
}

impl ErasureCodeConfig {
    pub fn new(data_shards: u8, parity_shards: u8) -> (c: Self)
        ensures
            c.data_shards == data_shards,
            c.parity_shards == parity_shards,
    {
        ErasureCodeConfig { data_shards, parity_shards }
    }

    pub open spec fn total(self) -> nat {
        (self.data_shards + self.parity_shards) as nat
    }

    /// Bytes of the length table in front of each shard.
    pub open spec fn prefix_len(self) -> nat {
        (self.data_shards * 4) as nat
    }

    pub fn total_shards(&self) -> (n: usize)
        ensures
            n == self.total(),
    {
        self.data_shards as usize + self.parity_shards as usize
    }

    pub fn prefix_bytes(&self) -> (n: usize)
        ensures
            n == self.prefix_len(),
    {
        self.data_shards as usize * 4
    }
}

/// The header in front of a shard's bytes.
#[derive(Debug, Clone, Copy, PartialEq, Eq, Structural)]
pub struct ShardHeader {
    pub length: u32,
    pub crc: u32,
}

/// Bytes that a shard header takes on disk.
pub const SHARD_HEADER_SIZE: u64 = 8;

/// A shard of a stripe, by its position in the stripe.
#[derive(Debug)]
pub struct Shard {
    pub index: usize,
    pub data: Vec<u8>,
}

/// How the shards of consecutive stripes go round the volumes.
#[derive(Debug, Clone, Copy, PartialEq, Eq, Structural)]
pub enum MatrixDistributionStrategy {
    /// Shard `i` always goes to volume `i` (modulo the number of volumes).
    Striped,
    /// Each stripe starts one volume further than the one before.
    RotatingOffset,
}

impl MatrixDistributionStrategy {
    /// The volume that holds shard `shard` of stripe `sequence`.
    pub open spec fn volume_of(self, shard: nat, sequence: nat, volumes: nat) -> nat {
        match self {
            MatrixDistributionStrategy::Striped => shard % volumes,
            MatrixDistributionStrategy::RotatingOffset => (shard + sequence) % volumes,
        }
    }

    pub fn calculate_volume(self, shard: usize, sequence: u64, volumes: usize) -> (v: usize)
        requires
            volumes > 0,
        ensures
            v == self.volume_of(shard as nat, sequence as nat, volumes as nat),
            v < volumes,
    {
        match self {
            MatrixDistributionStrategy::Striped => shard % volumes,
            MatrixDistributionStrategy::RotatingOffset => {
                let a: u128 = shard as u128 + sequence as u128;
                (a % (volumes as u128)) as usize
            },
        }
    }
}

/// With at least as many volumes as a stripe has shards, no two shards of one
/// stripe share a volume: losing a volume costs each stripe at most one shard.
pub proof fn law_shards_of_a_stripe_are_apart(
    strategy: MatrixDistributionStrategy,
    i: nat,
    j: nat,
    sequence: nat,
    volumes: nat,
)
    requires
        i < j < volumes,
    ensures
        strategy.volume_of(i, sequence, volumes) != strategy.volume_of(j, sequence, volumes),
{
    let a = i + sequence;
    let b = j + sequence;
    let v = volumes as int;
    vstd::arithmetic::div_mod::lemma_small_mod(i, volumes);
    vstd::arithmetic::div_mod::lemma_small_mod(j, volumes);
    if (a as int) % v == (b as int) % v {
        vstd::arithmetic::div_mod::lemma_fundamental_div_mod(a as int, v);
        vstd::arithmetic::div_mod::lemma_fundamental_div_mod(b as int, v);
        let qa = (a as int) / v;
        let qb = (b as int) / v;
        assert(b - a == v * (qb - qa)) by (nonlinear_arith)
            requires
                a as int == v * qa + (a as int) % v,
                b as int == v * qb + (b as int) % v,
                (a as int) % v == (b as int) % v,
        ;
        assert(false) by (nonlinear_arith)
            requires
                b - a == v * (qb - qa),
                0 < b - a < v,
        ;
    }
}

/// The rotating layout moves every shard one volume on from stripe to stripe.
pub proof fn law_rotation_moves_one_volume(shard: nat, sequence: nat, volumes: nat)
    requires
        volumes > 0,
    ensures
        MatrixDistributionStrategy::RotatingOffset.volume_of(shard, sequence + 1, volumes)
            == (MatrixDistributionStrategy::RotatingOffset.volume_of(shard, sequence, volumes) + 1)
            % volumes,
{
    vstd::arithmetic::div_mod::lemma_add_mod_noop((shard + sequence) as int, 1, volumes as int);
    if volumes == 1 {
        assert(1int % 1int == 0);
    } else {
        vstd::arithmetic::div_mod::lemma_small_mod(1, volumes);
    }
}

/// The content hash of a chunk.
#[derive(Debug, Clone, Copy, PartialEq, Eq, PartialOrd, Ord, Hash)]
pub struct ChunkHash(pub [u8; 32]);

impl View for ChunkHash {
    type V = Seq<u8>;

    open spec fn view(&self) -> Seq<u8> {
        self.0@
    }
}

impl ChunkHash {
    pub fn from_bytes(bytes: [u8; 32]) -> (h: Self)
        ensures
            h.0 == bytes,
    {
        ChunkHash(bytes)
    }

    pub fn as_bytes(&self) -> (b: &[u8; 32])
        ensures
            *b == self.0,
    {
        &self.0
    }

    /// Whether two hashes are the same.
    pub fn same(&self, other: &ChunkHash) -> (r: bool)
        ensures
            r == (self@ == other@),
    {
        bytes_equal(self.0.as_slice(), other.0.as_slice())
    }
}

/// Whether two byte strings are the same.
pub fn bytes_equal(a: &[u8], b: &[u8]) -> (r: bool)
    ensures
        r == (a@ == b@),
{
    if a.len() != b.len() {
        return false;
    }
    let mut i: usize = 0;
    while i < a.len()
        invariant
            i <= a.len(),
            a.len() == b.len(),
            forall|k: int| 0 <= k < i ==> a@[k] == b@[k],
        decreases a.len() - i,
    {
        if a[i] != b[i] {
            assert(a@[i as int] != b@[i as int]);
            return false;
        }
        i = i + 1;
    }
    assert(a@ =~= b@);
    true
}

/// A copy of a byte string.
pub fn copy_bytes(a: &[u8]) -> (r: Vec<u8>)
    ensures
        r@ == a@,
{
    let mut r: Vec<u8> = Vec::with_capacity(a.len());
    let mut i: usize = 0;
    while i < a.len()
        invariant
            i <= a.len(),
            r@ == a@.take(i as int),
        decreases a.len() - i,
    {
        r.push(a[i]);
        assert(a@.take(i + 1) =~= a@.take(i as int).push(a@[i as int]));
        i = i + 1;
    }
    assert(a@.take(a.len() as int) =~= a@);
    r
}

/// The bytes `from..to` of a byte string.
pub fn sub_bytes(a: &[u8], from: usize, to: usize) -> (r: Vec<u8>)
    requires
        from <= to <= a.len(),
    ensures
        r@ == a@.subrange(from as int, to as int),
{
    let mut r: Vec<u8> = Vec::with_capacity(to - from);
    let mut i: usize = from;
    while i < to
        invariant
            from <= i <= to <= a.len(),
            r@ == a@.subrange(from as int, i as int),
        decreases to - i,
    {
        r.push(a[i]);
        assert(a@.subrange(from as int, i + 1) =~= a@.subrange(from as int, i as int).push(
            a@[i as int],
        ));
        i = i + 1;
    }
    r
}

/// A shard lies on one of the volumes. Stripes that do not move begin on the
/// first volume, and so does the first stripe of those that do.
pub proof fn law_shards_lie_on_volumes(
    strategy: MatrixDistributionStrategy,
    shard: nat,
    sequence: nat,
    volumes: nat,
)
    requires
        volumes > 0,
    ensures
        strategy.volume_of(shard, sequence, volumes) < volumes,
        MatrixDistributionStrategy::Striped.volume_of(shard, sequence, volumes)
            == MatrixDistributionStrategy::Striped.volume_of(shard, 0, volumes),
        shard < volumes ==> strategy.volume_of(shard, 0, volumes) == shard,
{
    vstd::arithmetic::div_mod::lemma_mod_bound(shard as int, volumes as int);
    vstd::arithmetic::div_mod::lemma_mod_bound((shard + sequence) as int, volumes as int);
    if shard < volumes {
        vstd::arithmetic::div_mod::lemma_small_mod(shard, volumes);
    }
}

/// A stripe has its data shards and its parity shards, and its table four bytes
/// for each data shard.
pub proof fn law_shards_of_a_layout(c: ErasureCodeConfig, d: ErasureCodeConfig)
    ensures
        c.total() - c.parity_shards == c.data_shards,
        c.prefix_len() - d.prefix_len() == 4 * (c.data_shards - d.data_shards),
        c.data_shards == 1 ==> c.prefix_len() == 4,
{
}

} // verus!

//! Content hashes.
use vstd::prelude::*;

use crate::types::ChunkHash;

verus! {

/// What `blake3::hash` returns for `data`, as bytes.
pub uninterp spec fn blake3_digest(data: Seq<u8>) -> Seq<u8>;

/// `blake3::hash`: the digest of the bytes, which depends on the bytes alone.
#[verifier::external_body]
fn blake3_hash(data: &[u8]) -> (h: ChunkHash)
    ensures
        h@ == blake3_digest(data@),
{
    ChunkHash(*blake3::hash(data).as_bytes())
}

/// The hash by which a chunk with these bytes is known.
pub fn content_hash(data: &[u8]) -> (h: ChunkHash)
    ensures
        h@ == blake3_digest(data@),
{
    blake3_hash(data)
}

} // verus!

//! What a chunk is turned into before it is encrypted.
use vstd::prelude::*;

use crate::hashing;
use crate::hashing::content_hash;
use crate::types::{copy_bytes, ChunkHash};

verus! {

/// Limits of the pipeline.
#[derive(Debug, Clone, Copy, PartialEq, Eq, Structural)]
pub struct PipelineConfig {
    /// Chunks that are worked on at the same time.
    pub max_concurrent_chunks: usize,
    /// Chunks that wait to be taken.
    pub channel_buffer: usize,
}

impl Default for PipelineConfig {
    fn default() -> (c: Self)
        ensures
            c == (PipelineConfig { max_concurrent_chunks: 64, channel_buffer: 128 }),
    {
        PipelineConfig { max_concurrent_chunks: 64, channel_buffer: 128 }
    }
}

/// A chunk that was hashed and perhaps compressed.
#[derive(Debug)]
pub struct ProcessedChunk {
    /// The hash of `data`.
    pub hash: ChunkHash,
    pub data: Vec<u8>,
    pub original_size: usize,
    pub compressed_size: usize,
}

/// The zstd frame that a byte string is compressed to at a level.
pub uninterp spec fn zstd_frame(data: Seq<u8>, level: i32) -> Seq<u8>;

/// Compresses bytes by `zstd::stream::encode_all`. What comes back on success
/// is the frame for these bytes and this level. When it fails is not said: that
/// depends on the memory that the compressor gets.
#[verifier::external_body]
fn zstd_encode(data: &[u8], level: i32) -> (r: Option<Vec<u8>>)
    ensures
        r matches Some(v) ==> v@ == zstd_frame(data@, level),
{
    zstd::stream::encode_all(data, level).ok()
}

/// The compressed bytes, or the bytes as they are where compressing failed.
pub fn or_plain(data: &[u8], compressed: Option<Vec<u8>>) -> (v: Vec<u8>)
    ensures
        v@ == (match compressed {
            Some(c) => c@,
            None => data@,
        }),
{
    match compressed {
        Some(c) => c,
        None => copy_bytes(data),
    }
}

/// Compresses bytes; they stay as they are where compressing fails.
pub fn compress_zstd(data: &[u8], level: i32) -> (v: Vec<u8>)
    ensures
        v@ == zstd_frame(data@, level) || v@ == data@,
{
    or_plain(data, zstd_encode(data, level))
}

/// A chunk that is passed on as it is.
pub fn process_plain(data: Vec<u8>) -> (p: ProcessedChunk)
    ensures
        p.hash@ == hashing::blake3_digest(data@),
        p.data == data,
        p.original_size == data@.len(),
        p.compressed_size == data@.len(),
{
    let n: usize = data.len();
    let hash = content_hash(data.as_slice());
    ProcessedChunk { hash, data, original_size: n, compressed_size: n }
}

/// A chunk with the result of compressing it. It is compressed before it is
/// hashed: its hash is that of the bytes that are passed on.
pub fn process_with(data: &[u8], compressed: Option<Vec<u8>>) -> (p: ProcessedChunk)
    ensures
        p.data@ == (match compressed {
            Some(c) => c@,
            None => data@,
        }),
        p.hash@ == hashing::blake3_digest(p.data@),
        p.original_size == data@.len(),
        p.compressed_size == p.data@.len(),
{
    let out = or_plain(data, compressed);
    let hash = content_hash(out.as_slice());
    let compressed_size: usize = out.len();
    ProcessedChunk { hash, data: out, original_size: data.len(), compressed_size }
}

/// A chunk that is compressed before it is hashed and passed on.
pub fn process_compressed(data: &[u8], level: i32) -> (p: ProcessedChunk)
    ensures
        p.data@ == zstd_frame(data@, level) || p.data@ == data@,
        p.hash@ == hashing::blake3_digest(p.data@),
        p.original_size == data@.len(),
        p.compressed_size == p.data@.len(),
{
    process_with(data, zstd_encode(data, level))
}

} // verus!

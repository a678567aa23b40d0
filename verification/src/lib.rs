//! The decision core of an encrypted, erasure-coded archive engine.
//!
//! Every function here works on plain values: bytes that were read, headers
//! that were parsed, offsets, counters. Reading volumes, ciphers, Reed-Solomon
//! coding and the async runtime live outside and hand their results in.
pub mod async_pipeline;
pub mod auth;
pub mod block_iter;
pub mod block_iter_erasure;
pub mod block_iter_session;
pub mod catalog;
pub mod checkpoint;
pub mod chunk_index;
pub mod chunk_processor;
pub mod compact_compactor;
pub mod compact_reader;
pub mod compact_writer;
pub mod encryption_context;
pub mod erasure_scan;
pub mod erasure_stage;
pub mod hash_table;
pub mod hashing;
pub mod index_stage;
pub mod intact;
pub mod locations;
pub mod lost_volumes;
pub mod lsm_manifest;
pub mod metrics_collector;
pub mod ordering;
pub mod packing_stage;
pub mod paths;
pub mod reader;
pub mod recovery;
pub mod repack;
pub mod repair;
pub mod repair_matrix;
pub mod repair_scan;
pub mod repaired;
pub mod repaired_matrix;
pub mod round_trip;
pub mod secrets;
pub mod sequence;
pub mod shard_decode;
pub mod small_file_packer;
pub mod source_block_snapshot;
pub mod text;
pub mod types;
pub mod verification;
pub mod volume_stage;
pub mod volumes;
pub mod write_pipeline;
pub mod writer;
pub mod writer_core;

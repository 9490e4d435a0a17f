//! A verifiable erasure-coded storage core: blobs are split into fixed-size
//! chunksets, each chunkset is coded into proof-carrying chunks committed to
//! by a two-level Merkle scheme, and any sufficient subset of chunks rebuilds
//! the original bytes.

pub mod errors;
pub mod hashing;
pub mod merkle_tree;
pub mod wire;
pub mod blob;
pub mod bytefmt;
pub mod decimal;
pub mod chunk;
pub mod chunkset;
pub mod coding;

use vstd::prelude::*;

verus! {

/// Size in bytes of one original (pre-coding) chunk within a chunkset: 1 MiB.
pub const CHUNK_BYTE_LENGTH: u64 = 1048576;

/// Number of original pieces each chunkset is split into before coding.
pub const NUM_ORIGINAL_CHUNKS: u64 = 10;

/// Number of erasure-coded chunks (and of shares of the whole blob): 16.
pub const DECDS_NUM_ERASURE_CODED_SHARES: u64 = 16;

/// Size in bytes of one chunkset: 10 MiB.
pub const CHUNKSET_BYTE_LENGTH: u64 = 10485760;

/// Length of a chunkset-level Merkle inclusion proof: log2 of the chunk count.
pub const CHUNKSET_PROOF_SIZE: u64 = 4;

/// Byte length of one padded piece handed to the coder: the chunkset plus a
/// one-byte boundary marker, split evenly over the original chunks.
pub const PADDED_CHUNK_BYTE_LEN: u64 = 1048577;

} // verus!

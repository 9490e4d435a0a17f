use vstd::prelude::*;
use vstd::string::StringExecFns;

use crate::decimal::u64_to_dec;

verus! {

/// Every failure the library reports, as one sum type. Variants carry the
/// offending identifier or length, and — for codec and decoder failures —
/// a human-readable message.
#[derive(Debug)]
pub enum DecdsError {
    /// Building a blob from zero bytes of input.
    EmptyDataForBlob,
    /// A byte-range query whose start bound is not supported.
    InvalidStartBound,
    /// A byte-range query whose end bound is not supported; carries the bound.
    InvalidEndBound(u64),
    /// Serializing a `BlobHeader` failed; carries the reason.
    BlobHeaderSerializationFailed(String),
    /// Deserializing a `BlobHeader` failed; carries the reason.
    BlobHeaderDeserializationFailed(String),
    /// Serializing a `ProofCarryingChunk` failed; carries the reason.
    ProofCarryingChunkSerializationFailed(String),
    /// Deserializing a `ProofCarryingChunk` failed; carries the reason.
    ProofCarryingChunkDeserializationFailed(String),
    /// A chunk was offered to a chunkset that already holds a full-rank system.
    ChunksetReadyToRepair(u64),
    /// Extraction was attempted before the chunkset reached a full-rank system.
    ChunksetNotYetReadyToRepair(u64),
    /// A chunk was offered to, or extraction re-attempted on, a chunkset that
    /// was already repaired and consumed.
    ChunksetAlreadyRepaired(u64),
    /// The decoder failed during final extraction; carries the chunkset id and reason.
    ChunksetRepairingFailed(u64, String),
    /// A share id at or beyond the number of erasure-coded shares.
    InvalidErasureCodedShareId(usize),
    /// A chunkset id at or beyond the number of chunksets; carries id and total.
    InvalidChunksetId(u64, u64),
    /// A chunkset was fed data whose length is not the fixed chunkset size.
    InvalidChunksetSize(usize),
    /// A chunk was routed to a repairer for a different chunkset id.
    InvalidChunkMetadata(u64),
    /// A chunk whose Merkle proof does not anchor to the expected commitment.
    InvalidProofInChunk(u64),
    /// The decoder rejected a coded fragment (for instance, one linearly
    /// dependent on what it already holds); carries the chunkset id and reason.
    ChunkDecodingFailed(u64, String),
    /// A Merkle tree was requested over zero leaves.
    NoLeafNodesToBuildMerkleTreeOn,
    /// Proof generation for a leaf index at or beyond the leaf count.
    InvalidLeafNodeIndex(usize, usize),
}

impl DecdsError {
    /// A human-readable description of the error.
    pub fn message(&self) -> String {
        match self {
            DecdsError::EmptyDataForBlob => String::from_str("empty data for blob"),
            DecdsError::InvalidStartBound => String::from_str("invalid start bound"),
            DecdsError::InvalidEndBound(end) => String::from_str("invalid end bound: ").concat(
                u64_to_dec(*end).as_str(),
            ),
            DecdsError::BlobHeaderSerializationFailed(err) => String::from_str(
                "failed to serialize blob header: ",
            ).concat(err.as_str()),
            DecdsError::BlobHeaderDeserializationFailed(err) => String::from_str(
                "failed to deserialize blob header: ",
            ).concat(err.as_str()),
            DecdsError::ProofCarryingChunkSerializationFailed(err) => String::from_str(
                "failed to serialize proof carrying chunk: ",
            ).concat(err.as_str()),
            DecdsError::ProofCarryingChunkDeserializationFailed(err) => String::from_str(
                "failed to deserialize proof carrying chunk: ",
            ).concat(err.as_str()),
            DecdsError::ChunksetReadyToRepair(id) => String::from_str("chunkset ").concat(
                u64_to_dec(*id).as_str(),
            ).concat(" is ready to repair"),
            DecdsError::ChunksetNotYetReadyToRepair(id) => String::from_str("chunkset ").concat(
                u64_to_dec(*id).as_str(),
            ).concat(" is not ready to repair"),
            DecdsError::ChunksetAlreadyRepaired(id) => String::from_str("chunkset ").concat(
                u64_to_dec(*id).as_str(),
            ).concat(" is already repaired"),
            DecdsError::ChunksetRepairingFailed(id, err) => String::from_str("chunkset ").concat(
                u64_to_dec(*id).as_str(),
            ).concat(" repairing failed: ").concat(err.as_str()),
            DecdsError::InvalidErasureCodedShareId(id) => String::from_str(
                "invalid erasure coded share id: ",
            ).concat(u64_to_dec(*id as u64).as_str()).concat(" (num_shares: 16)"),
            DecdsError::InvalidChunksetId(id, total) => String::from_str(
                "invalid chunkset id: ",
            ).concat(u64_to_dec(*id).as_str()).concat(" (num_chunksets: ").concat(
                u64_to_dec(*total).as_str(),
            ).concat(")"),
            DecdsError::InvalidChunksetSize(size) => String::from_str(
                "invalid chunkset size: ",
            ).concat(u64_to_dec(*size as u64).as_str()).concat("B, expected: 10485760B"),
            DecdsError::InvalidChunkMetadata(id) => String::from_str(
                "invalid chunk for chunkset ",
            ).concat(u64_to_dec(*id).as_str()),
            DecdsError::InvalidProofInChunk(id) => String::from_str(
                "invalid proof carrying chunk for chunkset ",
            ).concat(u64_to_dec(*id).as_str()),
            DecdsError::ChunkDecodingFailed(id, err) => String::from_str(
                "decoding chunk for chunkset ",
            ).concat(u64_to_dec(*id).as_str()).concat(" failed: ").concat(err.as_str()),
            DecdsError::NoLeafNodesToBuildMerkleTreeOn => String::from_str(
                "no leaf nodes to build merkle tree on",
            ),
            DecdsError::InvalidLeafNodeIndex(leaf_index, num_leaves) => String::from_str(
                "invalid leaf node index: ",
            ).concat(u64_to_dec(*leaf_index as u64).as_str()).concat(" (num_leaves: ").concat(
                u64_to_dec(*num_leaves as u64).as_str(),
            ).concat(")"),
        }
    }
}

impl PartialEq for DecdsError {
    fn eq(&self, other: &Self) -> (r: bool) {
        match (self, other) {
            (DecdsError::EmptyDataForBlob, DecdsError::EmptyDataForBlob) => true,
            (DecdsError::InvalidStartBound, DecdsError::InvalidStartBound) => true,
            (DecdsError::InvalidEndBound(a), DecdsError::InvalidEndBound(b)) => *a == *b,
            (
                DecdsError::BlobHeaderSerializationFailed(a),
                DecdsError::BlobHeaderSerializationFailed(b),
            ) => *a == *b,
            (
                DecdsError::BlobHeaderDeserializationFailed(a),
                DecdsError::BlobHeaderDeserializationFailed(b),
            ) => *a == *b,
            (
                DecdsError::ProofCarryingChunkSerializationFailed(a),
                DecdsError::ProofCarryingChunkSerializationFailed(b),
            ) => *a == *b,
            (
                DecdsError::ProofCarryingChunkDeserializationFailed(a),
                DecdsError::ProofCarryingChunkDeserializationFailed(b),
            ) => *a == *b,
            (DecdsError::ChunksetReadyToRepair(a), DecdsError::ChunksetReadyToRepair(b)) => *a
                == *b,
            (
                DecdsError::ChunksetNotYetReadyToRepair(a),
                DecdsError::ChunksetNotYetReadyToRepair(b),
            ) => *a == *b,
            (DecdsError::ChunksetAlreadyRepaired(a), DecdsError::ChunksetAlreadyRepaired(b)) => *a
                == *b,
            (
                DecdsError::ChunksetRepairingFailed(a, x),
                DecdsError::ChunksetRepairingFailed(b, y),
            ) => *a == *b && *x == *y,
            (
                DecdsError::InvalidErasureCodedShareId(a),
                DecdsError::InvalidErasureCodedShareId(b),
            ) => *a == *b,
            (DecdsError::InvalidChunksetId(a, x), DecdsError::InvalidChunksetId(b, y)) => *a == *b
                && *x == *y,
            (DecdsError::InvalidChunksetSize(a), DecdsError::InvalidChunksetSize(b)) => *a == *b,
            (DecdsError::InvalidChunkMetadata(a), DecdsError::InvalidChunkMetadata(b)) => *a == *b,
            (DecdsError::InvalidProofInChunk(a), DecdsError::InvalidProofInChunk(b)) => *a == *b,
            (DecdsError::ChunkDecodingFailed(a, x), DecdsError::ChunkDecodingFailed(b, y)) => *a
                == *b && *x == *y,
            (
                DecdsError::NoLeafNodesToBuildMerkleTreeOn,
                DecdsError::NoLeafNodesToBuildMerkleTreeOn,
            ) => true,
            (DecdsError::InvalidLeafNodeIndex(a, x), DecdsError::InvalidLeafNodeIndex(b, y)) => *a
                == *b && *x == *y,
            _ => false,
        }
    }
}

impl vstd::std_specs::cmp::PartialEqSpecImpl for DecdsError {
    open spec fn obeys_eq_spec() -> bool {
        true
    }

    open spec fn eq_spec(&self, other: &Self) -> bool {
        match (self, other) {
            (DecdsError::EmptyDataForBlob, DecdsError::EmptyDataForBlob) => true,
            (DecdsError::InvalidStartBound, DecdsError::InvalidStartBound) => true,
            (DecdsError::InvalidEndBound(a), DecdsError::InvalidEndBound(b)) => a == b,
            (
                DecdsError::BlobHeaderSerializationFailed(a),
                DecdsError::BlobHeaderSerializationFailed(b),
            ) => a@ == b@,
            (
                DecdsError::BlobHeaderDeserializationFailed(a),
                DecdsError::BlobHeaderDeserializationFailed(b),
            ) => a@ == b@,
            (
                DecdsError::ProofCarryingChunkSerializationFailed(a),
                DecdsError::ProofCarryingChunkSerializationFailed(b),
            ) => a@ == b@,
            (
                DecdsError::ProofCarryingChunkDeserializationFailed(a),
                DecdsError::ProofCarryingChunkDeserializationFailed(b),
            ) => a@ == b@,
            (DecdsError::ChunksetReadyToRepair(a), DecdsError::ChunksetReadyToRepair(b)) => a == b,
            (
                DecdsError::ChunksetNotYetReadyToRepair(a),
                DecdsError::ChunksetNotYetReadyToRepair(b),
            ) => a == b,
            (DecdsError::ChunksetAlreadyRepaired(a), DecdsError::ChunksetAlreadyRepaired(b)) => a
                == b,
            (
                DecdsError::ChunksetRepairingFailed(a, x),
                DecdsError::ChunksetRepairingFailed(b, y),
            ) => a == b && x@ == y@,
            (
                DecdsError::InvalidErasureCodedShareId(a),
                DecdsError::InvalidErasureCodedShareId(b),
            ) => a == b,
            (DecdsError::InvalidChunksetId(a, x), DecdsError::InvalidChunksetId(b, y)) => a == b
                && x == y,
            (DecdsError::InvalidChunksetSize(a), DecdsError::InvalidChunksetSize(b)) => a == b,
            (DecdsError::InvalidChunkMetadata(a), DecdsError::InvalidChunkMetadata(b)) => a == b,
            (DecdsError::InvalidProofInChunk(a), DecdsError::InvalidProofInChunk(b)) => a == b,
            (DecdsError::ChunkDecodingFailed(a, x), DecdsError::ChunkDecodingFailed(b, y)) => a
                == b && x@ == y@,
            (
                DecdsError::NoLeafNodesToBuildMerkleTreeOn,
                DecdsError::NoLeafNodesToBuildMerkleTreeOn,
            ) => true,
            (DecdsError::InvalidLeafNodeIndex(a, x), DecdsError::InvalidLeafNodeIndex(b, y)) => a
                == b && x == y,
            _ => false,
        }
    }
}

} // verus!

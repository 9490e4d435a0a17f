use vstd::prelude::*;

use crate::chunk::{Chunk, ProofCarryingChunk, chunk_digest, pcc_validates_in_chunkset};
use crate::coding::{
    decoder_absorbs, decoder_decode, decoder_decoded, decoder_into_data, decoder_is_ready,
    decoder_new, decoder_piece_len, decoder_rank, decoder_required, encoder_code, encoder_new,
    encoder_piece_count, encoder_piece_len,
};
use crate::errors::DecdsError;
use crate::hashing::clone_digest;
use crate::merkle_tree::{
    MerkleTree, merkle_proof_from, merkle_root, proof_len_for, views_of, zero_digest0,
};

verus! {

/// The byte length of one full coded piece a chunkset emits: ten
/// coefficients followed by the padded piece.
pub const CODED_CHUNK_BYTE_LEN: u64 = 1048587;

/// The proof over 16 leaves has exactly four levels.
pub proof fn lemma_proof_len_16()
    ensures
        proof_len_for(16) == 4,
{
    assert(proof_len_for(1) == 0);
    assert(proof_len_for(2) == 1);
    assert(proof_len_for(4) == 2);
    assert(proof_len_for(8) == 3);
    assert(proof_len_for(16) == 4);
}

/// A fixed set of 16 erasure-coded, proof-carrying chunks over one 10 MiB
/// region of the blob, with the Merkle root of their digests as its
/// commitment.
#[derive(Debug)]
pub struct ChunkSet {
    pub commitment: Vec<u8>,
    pub chunks: Vec<ProofCarryingChunk>,
}

impl ChunkSet {
    /// The digests of this chunkset's chunks, in chunk-id order.
    pub open spec fn chunk_digests(self) -> Seq<Seq<u8>> {
        Seq::new(self.chunks@.len(), |i: int| chunk_digest(self.chunks[i]@.chunk))
    }

    /// A well-formed chunkset for id `cs_id` whose chunk proofs have been
    /// extended with `ext` (empty until the blob-level paths are appended):
    /// 16 chunks with contiguous global ids, each carrying its four-entry
    /// inclusion proof followed by `ext`, under the Merkle root of the chunk
    /// digests as commitment.
    pub open spec fn wf_ext(self, cs_id: u64, ext: Seq<Seq<u8>>) -> bool {
        &&& self.commitment@.len() == 32
        &&& self.chunks.len() == 16
        &&& self.commitment@ == merkle_root(self.chunk_digests())
        &&& forall|i: int|
            0 <= i < 16 ==> (#[trigger] self.chunks[i]@).chunk.chunkset_id == cs_id
        &&& forall|i: int|
            0 <= i < 16 ==> (#[trigger] self.chunks[i]@).chunk.chunk_id == cs_id * 16 + i
        &&& forall|i: int|
            0 <= i < 16 ==> (#[trigger] self.chunks[i]@).proof == merkle_proof_from(
                self.chunk_digests(),
                i,
                zero_digest0(),
            ) + ext
        &&& forall|i: int| 0 <= i < 16 ==> (#[trigger] self.chunks[i]).wf()
        &&& forall|i: int|
            0 <= i < 16 ==> (#[trigger] self.chunks[i]@).chunk.erasure_coded_data.len()
                == CODED_CHUNK_BYTE_LEN
    }

    /// Codes a 10 MiB region into a fresh chunkset: ten source pieces, 16
    /// coded chunks, one Merkle tree over their digests. Fails exactly when
    /// the region has the wrong size.
    pub fn new(chunkset_id: u64, data: Vec<u8>) -> (r: Result<ChunkSet, DecdsError>)
        requires
            chunkset_id * 16 + 15 <= u64::MAX,
        ensures
            match r {
                Ok(cs) => {
                    &&& data@.len() == crate::CHUNKSET_BYTE_LENGTH
                    &&& cs.wf_ext(chunkset_id, Seq::<Seq<u8>>::empty())
                },
                Err(e) => {
                    &&& data@.len() != crate::CHUNKSET_BYTE_LENGTH
                    &&& e == DecdsError::InvalidChunksetSize(data@.len() as usize)
                },
            },
    {
        if data.len() as u64 != crate::CHUNKSET_BYTE_LENGTH {
            return Err(DecdsError::InvalidChunksetSize(data.len()));
        }
        let encoder = encoder_new(data, 10);
        proof {
            assert(encoder_piece_len(encoder) == 1048577);
        }
        let mut chunks: Vec<Chunk> = Vec::new();
        let mut digests: Vec<Vec<u8>> = Vec::new();
        let mut i: usize = 0;
        while i < 16
            invariant
                i <= 16,
                chunkset_id * 16 + 15 <= u64::MAX,
                encoder_piece_count(encoder) == 10,
                encoder_piece_len(encoder) == 1048577,
                chunks.len() == i,
                digests.len() == i,
                forall|j: int| 0 <= j < i ==> (#[trigger] chunks[j]@).chunkset_id == chunkset_id,
                forall|j: int| 0 <= j < i ==> (#[trigger] chunks[j]@).chunk_id == chunkset_id * 16
                    + j,
                forall|j: int| 0 <= j < i ==> (#[trigger] chunks[j]@).erasure_coded_data.len()
                    == CODED_CHUNK_BYTE_LEN,
                forall|j: int| 0 <= j < i ==> (#[trigger] digests[j]@) == chunk_digest(chunks[j]@),
                forall|j: int| 0 <= j < i ==> (#[trigger] digests[j]@).len() == 32,
            decreases 16 - i,
        {
            let coded = encoder_code(&encoder);
            let chunk = Chunk::new(chunkset_id, chunkset_id * 16 + i as u64, coded);
            let digest = chunk.digest();
            chunks.push(chunk);
            digests.push(digest);
            i = i + 1;
        }
        let ghost all_chunks = chunks@;
        let tree = match MerkleTree::new(digests) {
            Ok(t) => t,
            Err(e) => {
                return Err(e);
            },
        };
        let commitment = tree.get_root_commitment();
        let mut pccs: Vec<ProofCarryingChunk> = Vec::new();
        let mut k: usize = 0;
        while k < 16
            invariant
                k <= 16,
                chunks@ == all_chunks.skip(k as int),
                all_chunks.len() == 16,
                tree.wf(),
                tree.leaves.len() == 16,
                commitment@ == merkle_root(views_of(tree.leaves@)),
                commitment@.len() == 32,
                forall|j: int| 0 <= j < 16 ==> (#[trigger] all_chunks[j]@).chunkset_id
                    == chunkset_id,
                forall|j: int| 0 <= j < 16 ==> (#[trigger] all_chunks[j]@).chunk_id == chunkset_id
                    * 16 + j,
                forall|j: int| 0 <= j < 16 ==> (#[trigger] all_chunks[j]@).erasure_coded_data.len()
                    == CODED_CHUNK_BYTE_LEN,
                forall|j: int| 0 <= j < 16 ==> views_of(tree.leaves@)[j] == chunk_digest(
                    #[trigger] all_chunks[j]@,
                ),
                pccs.len() == k,
                forall|j: int| 0 <= j < k ==> (#[trigger] pccs[j]@).chunk == all_chunks[j]@,
                forall|j: int| 0 <= j < k ==> (#[trigger] pccs[j]@).proof == merkle_proof_from(
                    views_of(tree.leaves@),
                    j,
                    zero_digest0(),
                ),
                forall|j: int| 0 <= j < k ==> (#[trigger] pccs[j]).wf(),
            decreases 16 - k,
        {
            let chunk = chunks.remove(0);
            let proof_nodes = match tree.generate_proof(k) {
                Ok(p) => p,
                Err(e) => {
                    return Err(e);
                },
            };
            let pcc = ProofCarryingChunk::new(chunk, proof_nodes);
            pccs.push(pcc);
            proof {
                assert(chunks@ =~= all_chunks.skip(k as int + 1));
            }
            k = k + 1;
        }
        let cs = ChunkSet { commitment, chunks: pccs };
        proof {
            assert(cs.chunk_digests() =~= views_of(tree.leaves@));
            assert forall|i2: int| 0 <= i2 < 16 implies (#[trigger] cs.chunks[i2]@).proof
                == merkle_proof_from(cs.chunk_digests(), i2, zero_digest0())
                + Seq::<Seq<u8>>::empty() by {
                assert(cs.chunks[i2]@.proof == merkle_proof_from(
                    views_of(tree.leaves@),
                    i2,
                    zero_digest0(),
                ));
                assert(merkle_proof_from(cs.chunk_digests(), i2, zero_digest0())
                    + Seq::<Seq<u8>>::empty() =~= merkle_proof_from(
                    cs.chunk_digests(),
                    i2,
                    zero_digest0(),
                ));
            }
        }
        Ok(cs)
    }

    /// This chunkset's Merkle root commitment.
    pub fn get_root_commitment(&self) -> (r: Vec<u8>)
        ensures
            r@ == self.commitment@,
    {
        clone_digest(&self.commitment)
    }

    /// The chunk at local id `chunk_id`. Fails exactly on an id at or
    /// beyond the chunk count.
    pub fn get_chunk(&self, chunk_id: usize) -> (r: Result<&ProofCarryingChunk, DecdsError>)
        ensures
            match r {
                Ok(c) => chunk_id < self.chunks.len() && c == &self.chunks[chunk_id as int],
                Err(e) => chunk_id >= self.chunks.len() && e
                    == DecdsError::InvalidErasureCodedShareId(chunk_id),
            },
    {
        if chunk_id < self.chunks.len() {
            Ok(&self.chunks[chunk_id])
        } else {
            Err(DecdsError::InvalidErasureCodedShareId(chunk_id))
        }
    }

    /// Appends the blob-level Merkle path to every chunk's proof. With an
    /// empty path nothing changes.
    pub fn append_blob_inclusion_proof(&mut self, blob_proof: &Vec<Vec<u8>>)
        ensures
            final(self).commitment == old(self).commitment,
            final(self).chunks.len() == old(self).chunks.len(),
            forall|i: int| 0 <= i < old(self).chunks.len() ==> (#[trigger] final(self).chunks[i]@).chunk == old(self).chunks[i]@.chunk,
            forall|i: int| 0 <= i < old(self).chunks.len() ==> (#[trigger] final(self).chunks[i]@).proof == old(self).chunks[i]@.proof + views_of(blob_proof@),
            (forall|i: int| 0 <= i < blob_proof.len() ==> (#[trigger] blob_proof[i]@).len() == 32)
                ==> (forall|i: int|
                0 <= i < old(self).chunks.len() ==> (#[trigger] old(self).chunks[i]).wf() ==> final(self).chunks[i].wf()),
    {
        if blob_proof.len() == 0 {
            proof {
                assert forall|i: int| 0 <= i < self.chunks.len() implies (#[trigger]
                self.chunks[i]@).proof == self.chunks[i]@.proof + views_of(blob_proof@) by {
                    assert(self.chunks[i]@.proof + views_of(blob_proof@) =~= self.chunks[i]@.proof);
                }
            }
            return ;
        }
        let ghost orig = self.chunks@;
        let mut updated: Vec<ProofCarryingChunk> = Vec::new();
        let mut i: usize = 0;
        let n = self.chunks.len();
        while i < n
            invariant
                i <= n,
                n == orig.len(),
                self.commitment == old(self).commitment,
                self.chunks@ == orig.skip(i as int),
                updated.len() == i,
                forall|j: int| 0 <= j < i ==> (#[trigger] updated[j]@).chunk == orig[j]@.chunk,
                forall|j: int| 0 <= j < i ==> (#[trigger] updated[j]@).proof == orig[j]@.proof
                    + views_of(blob_proof@),
                (forall|j: int| 0 <= j < blob_proof.len() ==> (#[trigger] blob_proof[j]@).len()
                    == 32) ==> (forall|j: int|
                    0 <= j < i ==> (#[trigger] orig[j]).wf() ==> updated[j].wf()),
            decreases n - i,
        {
            let mut c = self.chunks.remove(0);
            c.append_proof_to_blob_root(blob_proof);
            updated.push(c);
            proof {
                assert(self.chunks@ =~= orig.skip(i as int + 1));
            }
            i = i + 1;
        }
        self.chunks = updated;
    }
}

impl PartialEq for ChunkSet {
    fn eq(&self, other: &Self) -> (r: bool) {
        if !crate::merkle_tree::eq_digest(&self.commitment, &other.commitment) {
            return false;
        }
        if self.chunks.len() != other.chunks.len() {
            return false;
        }
        let mut i: usize = 0;
        while i < self.chunks.len()
            invariant
                i <= self.chunks@.len(),
                self.chunks@.len() == other.chunks@.len(),
                forall|j: int| 0 <= j < i ==> self.chunks@[j]@ == other.chunks@[j]@,
            decreases self.chunks@.len() - i,
        {
            if !(&self.chunks[i] == &other.chunks[i]) {
                return false;
            }
            i = i + 1;
        }
        true
    }
}

impl vstd::std_specs::cmp::PartialEqSpecImpl for ChunkSet {
    open spec fn obeys_eq_spec() -> bool {
        true
    }

    open spec fn eq_spec(&self, other: &Self) -> bool {
        &&& self.commitment@ == other.commitment@
        &&& self.chunks@.len() == other.chunks@.len()
        &&& forall|i: int| 0 <= i < self.chunks@.len() ==> self.chunks@[i]@ == other.chunks@[i]@
    }
}

/// The incremental repairer of one chunkset: it knows the expected
/// commitment, and absorbs coded chunks into a decoder until the system has
/// full rank.
pub struct RepairingChunkSet {
    pub chunkset_id: u64,
    pub commitment: Vec<u8>,
    pub decoder: rlnc::full::Decoder,
}

impl RepairingChunkSet {
    /// How many linearly independent chunks the decoder holds.
    pub open spec fn rank(self) -> nat {
        decoder_rank(self.decoder)
    }

    /// A well-formed repairer: a 32-byte expected commitment and a decoder
    /// configured for ten pieces of the padded piece length.
    pub open spec fn wf(self) -> bool {
        &&& self.commitment@.len() == 32
        &&& decoder_required(self.decoder) == 10
        &&& decoder_piece_len(self.decoder) == 1048577
        &&& decoder_rank(self.decoder) <= 10
    }

    /// A fresh repairer for chunkset `chunkset_id` with the given expected
    /// commitment and an empty decoder.
    pub fn new(chunkset_id: u64, commitment: Vec<u8>) -> (r: RepairingChunkSet)
        requires
            commitment@.len() == 32,
        ensures
            r.wf(),
            r.chunkset_id == chunkset_id,
            r.commitment@ == commitment@,
            r.rank() == 0,
    {
        let decoder = decoder_new(1048577, 10);
        RepairingChunkSet { chunkset_id, commitment, decoder }
    }

    /// Offers a chunk after checking its chunkset-level inclusion proof
    /// against the expected commitment; a chunk whose proof does not anchor
    /// there is rejected untouched.
    pub fn add_chunk(&mut self, chunk: &ProofCarryingChunk) -> (r: Result<(), DecdsError>)
        requires
            old(self).wf(),
        ensures
            final(self).wf(),
            final(self).chunkset_id == old(self).chunkset_id,
            final(self).commitment == old(self).commitment,
            !pcc_validates_in_chunkset(chunk@, old(self).commitment@) ==> r == Err::<
                (),
                DecdsError,
            >(DecdsError::InvalidProofInChunk(chunk@.chunk.chunkset_id)) && *final(self) == *old(
                self,
            ),
            pcc_validates_in_chunkset(chunk@, old(self).commitment@) ==> add_outcome(
                *old(self),
                *final(self),
                chunk@.chunk.chunkset_id,
                chunk@.chunk.erasure_coded_data,
                r,
            ),
    {
        if chunk.validate_inclusion_in_chunkset(&self.commitment) {
            self.add_chunk_unvalidated(chunk)
        } else {
            Err(DecdsError::InvalidProofInChunk(chunk.get_chunkset_id()))
        }
    }

    /// Offers a chunk without re-checking its proof; for callers that have
    /// already validated it against the blob header.
    pub fn add_chunk_unvalidated(&mut self, chunk: &ProofCarryingChunk) -> (r: Result<
        (),
        DecdsError,
    >)
        requires
            old(self).wf(),
        ensures
            final(self).wf(),
            final(self).chunkset_id == old(self).chunkset_id,
            final(self).commitment == old(self).commitment,
            add_outcome(
                *old(self),
                *final(self),
                chunk@.chunk.chunkset_id,
                chunk@.chunk.erasure_coded_data,
                r,
            ),
    {
        if self.chunkset_id != chunk.get_chunkset_id() {
            return Err(DecdsError::InvalidChunkMetadata(chunk.get_chunkset_id()));
        }
        if self.is_ready_to_repair() {
            return Err(DecdsError::ChunksetReadyToRepair(self.chunkset_id));
        }
        match decoder_decode(&mut self.decoder, chunk.get_erasure_coded_data()) {
            Ok(()) => Ok(()),
            Err(msg) => Err(DecdsError::ChunkDecodingFailed(chunk.get_chunkset_id(), msg)),
        }
    }

    /// Whether the decoder holds a full-rank system, so that the region can
    /// be repaired.
    pub fn is_ready_to_repair(&self) -> (r: bool)
        requires
            self.wf(),
        ensures
            r == (self.rank() == 10),
    {
        decoder_is_ready(&self.decoder)
    }

    /// Consumes the repairer and extracts the decoded region. Fails with
    /// the not-yet-ready error exactly while the system lacks full rank;
    /// once full, it either returns the decoded bytes or reports the
    /// decoder's failure.
    pub fn repair(self) -> (r: Result<Vec<u8>, DecdsError>)
        requires
            self.wf(),
        ensures
            self.rank() < 10 ==> r == Err::<Vec<u8>, DecdsError>(
                DecdsError::ChunksetNotYetReadyToRepair(self.chunkset_id),
            ),
            r matches Ok(v) ==> self.rank() == 10 && v@ == decoder_decoded(self.decoder) && 1
                <= v@.len() <= 10485770,
            r is Err ==> (r matches Err(e) && (e == DecdsError::ChunksetNotYetReadyToRepair(
                self.chunkset_id,
            ) || e is ChunksetRepairingFailed)),
            self.rank() == 10 ==> (r is Ok || (r matches Err(e) && e is ChunksetRepairingFailed)),
    {
        let ready = decoder_is_ready(&self.decoder);
        if !ready {
            return Err(DecdsError::ChunksetNotYetReadyToRepair(self.chunkset_id));
        }
        match decoder_into_data(self.decoder) {
            Ok(v) => Ok(v),
            Err(msg) => Err(DecdsError::ChunksetRepairingFailed(self.chunkset_id, msg)),
        }
    }
}

/// What one offer of a chunk does to a repairer, given the chunk's chunkset
/// id and coded payload: a chunk for another chunkset is rejected
/// untouched; a full repairer rejects everything untouched; otherwise the
/// payload is fed to the decoder, which accepts it exactly when it has the
/// configured length and is linearly independent of what was absorbed so
/// far — success raises the rank by one, rejection is reported as
/// undecodable and leaves the rank unchanged.
pub open spec fn add_outcome(
    pre: RepairingChunkSet,
    post: RepairingChunkSet,
    chunk_cs_id: u64,
    payload: Seq<u8>,
    r: Result<(), DecdsError>,
) -> bool {
    &&& chunk_cs_id != pre.chunkset_id ==> r == Err::<(), DecdsError>(
        DecdsError::InvalidChunkMetadata(chunk_cs_id),
    ) && post == pre
    &&& (chunk_cs_id == pre.chunkset_id && pre.rank() == 10) ==> r == Err::<(), DecdsError>(
        DecdsError::ChunksetReadyToRepair(pre.chunkset_id),
    ) && post == pre
    &&& (chunk_cs_id == pre.chunkset_id && pre.rank() < 10) ==> {
        &&& r is Ok <==> (payload.len() == 1048587 && decoder_absorbs(pre.decoder, payload))
        &&& r is Ok ==> post.rank() == pre.rank() + 1
        &&& r is Err ==> post.rank() == pre.rank() && (r matches Err(e)
            && e is ChunkDecodingFailed)
    }
}

} // verus!

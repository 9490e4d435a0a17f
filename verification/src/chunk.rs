use vstd::prelude::*;
use vstd::string::StringExecFns;

use crate::errors::DecdsError;
use crate::hashing::{blake3_of, blake3_digest, clone_digest};
use crate::merkle_tree::{MerkleTree, proof_verifies, views_of};
use crate::wire::{
    concat_all, lemma_contains_at, lemma_parse_hashes_of_encode, lemma_parse_varint_of_encode,
    parse_hashes, parse_varint, read_bytes, read_hashes, read_varint, u64_le, varint, write_bytes,
    write_hashes, write_u64_le, write_varint,
};

verus! {

/// The mathematical value of a coded chunk: its chunkset, its global id, and
/// its coded payload bytes.
pub struct ChunkV {
    pub chunkset_id: u64,
    pub chunk_id: u64,
    pub erasure_coded_data: Seq<u8>,
}

/// One erasure-coded fragment of a chunkset. The global `chunk_id` is
/// `chunkset_id * 16 + local_id`.
#[derive(Debug)]
pub struct Chunk {
    pub chunkset_id: u64,
    pub chunk_id: u64,
    pub erasure_coded_data: Vec<u8>,
}

impl View for Chunk {
    type V = ChunkV;

    open spec fn view(&self) -> ChunkV {
        ChunkV {
            chunkset_id: self.chunkset_id,
            chunk_id: self.chunk_id,
            erasure_coded_data: self.erasure_coded_data@,
        }
    }
}

/// The digest that commits to a chunk: the hash of its two ids as
/// little-endian 64-bit values followed by its coded payload.
pub open spec fn chunk_digest(c: ChunkV) -> Seq<u8> {
    blake3_of(u64_le(c.chunkset_id) + u64_le(c.chunk_id) + c.erasure_coded_data)
}

impl Chunk {
    /// Bundles the given ids and coded payload into a chunk.
    pub fn new(chunkset_id: u64, chunk_id: u64, erasure_coded_data: Vec<u8>) -> (r: Chunk)
        ensures
            r.chunkset_id == chunkset_id,
            r.chunk_id == chunk_id,
            r.erasure_coded_data@ == erasure_coded_data@,
    {
        Chunk { chunkset_id, chunk_id, erasure_coded_data }
    }

    /// The 32-byte digest of this chunk.
    pub fn digest(&self) -> (r: Vec<u8>)
        ensures
            r@ == chunk_digest(self@),
            r@.len() == 32,
    {
        let mut buf: Vec<u8> = Vec::new();
        write_u64_le(&mut buf, self.chunkset_id);
        write_u64_le(&mut buf, self.chunk_id);
        write_bytes(&mut buf, &self.erasure_coded_data);
        proof {
            assert(buf@ =~= u64_le(self.chunkset_id) + u64_le(self.chunk_id)
                + self.erasure_coded_data@);
        }
        blake3_digest(&buf)
    }
}

/// The mathematical value of a proof-carrying chunk.
pub struct ProofCarryingChunkV {
    pub chunk: ChunkV,
    pub proof: Seq<Seq<u8>>,
}

/// A chunk bundled with its Merkle inclusion proof: first the four sibling
/// digests up to the chunkset root, then — once extended — the path from the
/// chunkset root to the blob root.
#[derive(Debug)]
pub struct ProofCarryingChunk {
    pub chunk: Chunk,
    pub proof: Vec<Vec<u8>>,
}

impl View for ProofCarryingChunk {
    type V = ProofCarryingChunkV;

    open spec fn view(&self) -> ProofCarryingChunkV {
        ProofCarryingChunkV { chunk: self.chunk@, proof: views_of(self.proof@) }
    }
}

/// Whether `proof` proves inclusion of the chunk, at its global id, under
/// the blob root `root`.
pub open spec fn pcc_validates_in_blob(p: ProofCarryingChunkV, root: Seq<u8>) -> bool {
    proof_verifies(p.chunk.chunk_id as int, chunk_digest(p.chunk), p.proof, root)
}

/// Whether the first four proof entries prove inclusion of the chunk, at its
/// local id, under the chunkset root `root`. A proof shorter than the
/// chunkset level never validates.
pub open spec fn pcc_validates_in_chunkset(p: ProofCarryingChunkV, root: Seq<u8>) -> bool {
    &&& p.proof.len() >= 4
    &&& proof_verifies(
        (p.chunk.chunk_id % 16) as int,
        chunk_digest(p.chunk),
        p.proof.subrange(0, 4),
        root,
    )
}

impl ProofCarryingChunk {
    /// Every proof entry is a 32-byte digest.
    pub open spec fn wf(self) -> bool {
        forall|i: int| 0 <= i < self.proof.len() ==> (#[trigger] self.proof[i]@).len() == 32
    }

    /// Bundles a chunk with its chunkset-level inclusion proof.
    pub fn new(chunk: Chunk, proof: Vec<Vec<u8>>) -> (r: ProofCarryingChunk)
        ensures
            r.chunk == chunk,
            r.proof == proof,
    {
        ProofCarryingChunk { chunk, proof }
    }

    /// Verifies this chunk's full proof against a blob root commitment.
    /// Meaningful once the proof has been extended to the blob level.
    pub fn validate_inclusion_in_blob(&self, blob_commitment: &Vec<u8>) -> (r: bool)
        ensures
            r == pcc_validates_in_blob(self@, blob_commitment@),
    {
        let leaf = self.chunk.digest();
        MerkleTree::verify_proof(self.chunk.chunk_id, &leaf, &self.proof, blob_commitment)
    }

    /// Verifies the chunkset-level part of this chunk's proof — its first
    /// four entries — against a chunkset root commitment. Returns false for
    /// a proof shorter than the chunkset level.
    pub fn validate_inclusion_in_chunkset(&self, chunkset_commitment: &Vec<u8>) -> (r: bool)
        ensures
            r == pcc_validates_in_chunkset(self@, chunkset_commitment@),
    {
        if self.proof.len() < 4 {
            return false;
        }
        let mut sub: Vec<Vec<u8>> = Vec::new();
        let mut i: usize = 0;
        while i < 4
            invariant
                i <= 4,
                self.proof.len() >= 4,
                sub.len() == i,
                forall|j: int| 0 <= j < i ==> (#[trigger] sub[j]@) == self.proof[j]@,
            decreases 4 - i,
        {
            sub.push(clone_digest(&self.proof[i]));
            i = i + 1;
        }
        proof {
            assert(views_of(sub@) =~= views_of(self.proof@).subrange(0, 4));
        }
        let leaf = self.chunk.digest();
        MerkleTree::verify_proof(self.chunk.chunk_id % 16, &leaf, &sub, chunkset_commitment)
    }

    /// The id of the chunkset this chunk belongs to.
    pub fn get_chunkset_id(&self) -> (r: u64)
        ensures
            r == self.chunk.chunkset_id,
    {
        self.chunk.chunkset_id
    }

    /// The global id of this chunk across the whole blob.
    pub fn get_global_chunk_id(&self) -> (r: u64)
        ensures
            r == self.chunk.chunk_id,
    {
        self.chunk.chunk_id
    }

    /// The local id of this chunk within its chunkset.
    pub fn get_local_chunk_id(&self) -> (r: u64)
        ensures
            r == self.chunk.chunk_id % 16,
    {
        self.chunk.chunk_id % 16
    }

    /// The coded payload carried by this chunk.
    pub fn get_erasure_coded_data(&self) -> (r: &Vec<u8>)
        ensures
            r@ == self@.chunk.erasure_coded_data,
    {
        &self.chunk.erasure_coded_data
    }

    /// Extends this chunk's proof with the path from its chunkset root to
    /// the blob root.
    pub fn append_proof_to_blob_root(&mut self, blob_proof: &Vec<Vec<u8>>)
        ensures
            final(self).chunk == old(self).chunk,
            views_of(final(self).proof@) == views_of(old(self).proof@) + views_of(blob_proof@),
            final(self).proof.len() == old(self).proof.len() + blob_proof.len(),
            (old(self).wf() && (forall|i: int|
                0 <= i < blob_proof.len() ==> (#[trigger] blob_proof[i]@).len() == 32))
                ==> final(self).wf(),
    {
        let mut i: usize = 0;
        while i < blob_proof.len()
            invariant
                i <= blob_proof.len(),
                self.chunk == old(self).chunk,
                self.proof.len() == old(self).proof.len() + i,
                forall|j: int| 0 <= j < old(self).proof.len() ==> (#[trigger] self.proof[j]@)
                    == old(self).proof[j]@,
                forall|j: int| 0 <= j < i ==> (#[trigger] self.proof[old(self).proof.len() + j]@)
                    == blob_proof[j]@,
            decreases blob_proof.len() - i,
        {
            self.proof.push(clone_digest(&blob_proof[i]));
            i = i + 1;
        }
        proof {
            let lhs = views_of(self.proof@);
            let rhs = views_of(old(self).proof@) + views_of(blob_proof@);
            assert forall|k: int| 0 <= k < lhs.len() implies lhs[k] == rhs[k] by {
                let base = old(self).proof.len() as int;
                if k < base {
                    assert(self.proof[k]@ == old(self).proof[k]@);
                } else {
                    let j = k - base;
                    assert(self.proof[old(self).proof.len() + j]@ == blob_proof[j]@);
                }
            }
            assert(lhs =~= rhs);
            if old(self).wf() && (forall|i: int|
                0 <= i < blob_proof.len() ==> (#[trigger] blob_proof[i]@).len() == 32) {
                assert forall|i: int|
                    0 <= i < self.proof.len() implies (#[trigger] self.proof[i]@).len() == 32 by {
                    let base = old(self).proof.len() as int;
                    if i < base {
                        assert(self.proof[i]@ == old(self).proof[i]@);
                        assert(old(self).proof[i]@.len() == 32);
                    } else {
                        assert(self.proof[old(self).proof.len() + (i - base)]@ == blob_proof[i
                            - base]@);
                        assert(blob_proof[i - base]@.len() == 32);
                    }
                }
            }
        }
    }
}

// --- the canonical wire form of a proof-carrying chunk ---

/// The canonical bytes of a chunk: its two ids, then its payload behind a
/// length prefix, integers in the variable-length encoding.
pub open spec fn chunk_bytes(c: ChunkV) -> Seq<u8> {
    varint(c.chunkset_id) + varint(c.chunk_id) + varint(c.erasure_coded_data.len() as u64)
        + c.erasure_coded_data
}

/// The canonical bytes of a proof-carrying chunk: the chunk, then the proof
/// digests behind a count prefix.
pub open spec fn pcc_bytes(p: ProofCarryingChunkV) -> Seq<u8> {
    chunk_bytes(p.chunk) + varint(p.proof.len() as u64) + concat_all(p.proof)
}

/// Reads one chunk at `pos`, or nothing when the input ends early or an
/// integer is malformed.
pub open spec fn parse_chunk(s: Seq<u8>, pos: int) -> Option<(ChunkV, int)> {
    match parse_varint(s, pos) {
        Some((chunkset_id, p1)) => match parse_varint(s, p1) {
            Some((chunk_id, p2)) => match parse_varint(s, p2) {
                Some((dlen, p3)) => if p3 + dlen <= s.len() {
                    Some(
                        (
                            ChunkV {
                                chunkset_id,
                                chunk_id,
                                erasure_coded_data: s.subrange(p3, p3 + dlen as int),
                            },
                            p3 + dlen as int,
                        ),
                    )
                } else {
                    None
                },
                None => None,
            },
            None => None,
        },
        None => None,
    }
}

/// Reads one proof-carrying chunk at `pos`.
pub open spec fn parse_pcc(s: Seq<u8>, pos: int) -> Option<(ProofCarryingChunkV, int)> {
    match parse_chunk(s, pos) {
        Some((chunk, p1)) => match parse_varint(s, p1) {
            Some((plen, p2)) => match parse_hashes(s, p2, plen as nat) {
                Some((proof, p3)) => Some((ProofCarryingChunkV { chunk, proof }, p3)),
                None => None,
            },
            None => None,
        },
        None => None,
    }
}

/// Wherever the canonical bytes of a chunk sit whole inside `s`, parsing at
/// their start returns the chunk and consumes exactly its bytes.
pub proof fn lemma_parse_chunk_of_encode(s: Seq<u8>, pos: int, c: ChunkV)
    requires
        c.erasure_coded_data.len() <= u64::MAX,
        0 <= pos,
        pos + chunk_bytes(c).len() <= s.len(),
        s.subrange(pos, pos + chunk_bytes(c).len() as int) == chunk_bytes(c),
    ensures
        parse_chunk(s, pos) == Some((c, pos + chunk_bytes(c).len())),
{
    let v1 = varint(c.chunkset_id);
    let v2 = varint(c.chunk_id);
    let dlen = c.erasure_coded_data.len() as u64;
    let v3 = varint(dlen);
    let d = c.erasure_coded_data;
    let cb = chunk_bytes(c);
    assert(cb == v1 + v2 + v3 + d);
    assert(cb.subrange(0, v1.len() as int) =~= v1);
    assert(cb.subrange(v1.len() as int, (v1.len() + v2.len()) as int) =~= v2);
    assert(cb.subrange((v1.len() + v2.len()) as int, (v1.len() + v2.len() + v3.len()) as int)
        =~= v3);
    assert(cb.subrange((v1.len() + v2.len() + v3.len()) as int, cb.len() as int) =~= d);
    lemma_contains_at(s, pos, cb, 0, v1);
    lemma_parse_varint_of_encode(s, pos, c.chunkset_id);
    let p1 = pos + v1.len() as int;
    lemma_contains_at(s, pos, cb, v1.len() as int, v2);
    lemma_parse_varint_of_encode(s, p1, c.chunk_id);
    let p2 = p1 + v2.len() as int;
    lemma_contains_at(s, pos, cb, (v1.len() + v2.len()) as int, v3);
    lemma_parse_varint_of_encode(s, p2, dlen);
    let p3 = p2 + v3.len() as int;
    lemma_contains_at(s, pos, cb, (v1.len() + v2.len() + v3.len()) as int, d);
    assert(s.subrange(p3, p3 + dlen as int) == d);
}

/// Wherever the canonical bytes of a proof-carrying chunk sit whole inside
/// `s`, parsing at their start returns it and consumes exactly its bytes.
pub proof fn lemma_parse_pcc_of_encode(s: Seq<u8>, pos: int, p: ProofCarryingChunkV)
    requires
        p.chunk.erasure_coded_data.len() <= u64::MAX,
        p.proof.len() <= u64::MAX,
        forall|i: int| 0 <= i < p.proof.len() ==> (#[trigger] p.proof[i]).len() == 32,
        0 <= pos,
        pos + pcc_bytes(p).len() <= s.len(),
        s.subrange(pos, pos + pcc_bytes(p).len() as int) == pcc_bytes(p),
    ensures
        parse_pcc(s, pos) == Some((p, pos + pcc_bytes(p).len())),
{
    let cb = chunk_bytes(p.chunk);
    let plen = p.proof.len() as u64;
    let vp = varint(plen);
    let ch = concat_all(p.proof);
    let pb = pcc_bytes(p);
    assert(pb == cb + vp + ch);
    assert(pb.subrange(0, cb.len() as int) =~= cb);
    assert(pb.subrange(cb.len() as int, (cb.len() + vp.len()) as int) =~= vp);
    assert(pb.subrange((cb.len() + vp.len()) as int, pb.len() as int) =~= ch);
    lemma_contains_at(s, pos, pb, 0, cb);
    lemma_parse_chunk_of_encode(s, pos, p.chunk);
    let p1 = pos + cb.len() as int;
    lemma_contains_at(s, pos, pb, cb.len() as int, vp);
    lemma_parse_varint_of_encode(s, p1, plen);
    let p2 = p1 + vp.len() as int;
    lemma_contains_at(s, pos, pb, (cb.len() + vp.len()) as int, ch);
    lemma_parse_hashes_of_encode(s, p2, p.proof);
}

/// Fragment codec round-trip law: parsing the canonical bytes of any
/// fragment returns that fragment, having consumed the whole encoding.
pub proof fn lemma_pcc_codec_roundtrip(p: ProofCarryingChunkV)
    requires
        p.chunk.erasure_coded_data.len() <= u64::MAX,
        p.proof.len() <= u64::MAX,
        forall|i: int| 0 <= i < p.proof.len() ==> (#[trigger] p.proof[i]).len() == 32,
    ensures
        parse_pcc(pcc_bytes(p), 0) == Some((p, pcc_bytes(p).len() as int)),
{
    let s = pcc_bytes(p);
    assert(s.subrange(0, s.len() as int) =~= s);
    lemma_parse_pcc_of_encode(s, 0, p);
}

impl ProofCarryingChunk {
    /// Serializes this chunk into its canonical bytes. Always succeeds.
    pub fn to_bytes(&self) -> (r: Result<Vec<u8>, DecdsError>)
        requires
            self.wf(),
        ensures
            r is Ok,
            r matches Ok(v) && v@ == pcc_bytes(self@),
    {
        let mut out: Vec<u8> = Vec::new();
        write_varint(&mut out, self.chunk.chunkset_id);
        write_varint(&mut out, self.chunk.chunk_id);
        write_varint(&mut out, self.chunk.erasure_coded_data.len() as u64);
        write_bytes(&mut out, &self.chunk.erasure_coded_data);
        write_varint(&mut out, self.proof.len() as u64);
        write_hashes(&mut out, &self.proof);
        proof {
            assert(out@ =~= pcc_bytes(self@));
        }
        Ok(out)
    }

    /// Deserializes a chunk from its canonical bytes, reporting how many
    /// bytes were consumed. Fails exactly when no chunk parses at the start
    /// of the input.
    pub fn from_bytes(bytes: &Vec<u8>) -> (r: Result<(ProofCarryingChunk, usize), DecdsError>)
        ensures
            match r {
                Ok(p) => {
                    &&& parse_pcc(bytes@, 0) == Some((p.0@, p.1 as int))
                    &&& p.0.wf()
                    &&& p.1 <= bytes.len()
                },
                Err(e) => {
                    &&& parse_pcc(bytes@, 0) is None
                    &&& e is ProofCarryingChunkDeserializationFailed
                },
            },
    {
        let (chunkset_id, p1) = match read_varint(bytes, 0) {
            Some(x) => x,
            None => {
                return Err(pcc_deser_error());
            },
        };
        let (chunk_id, p2) = match read_varint(bytes, p1) {
            Some(x) => x,
            None => {
                return Err(pcc_deser_error());
            },
        };
        let (dlen, p3) = match read_varint(bytes, p2) {
            Some(x) => x,
            None => {
                return Err(pcc_deser_error());
            },
        };
        if dlen > (bytes.len() - p3) as u64 {
            return Err(pcc_deser_error());
        }
        let data = match read_bytes(bytes, p3, dlen as usize) {
            Some(v) => v,
            None => {
                return Err(pcc_deser_error());
            },
        };
        let p4 = p3 + dlen as usize;
        let ghost chunk_v = ChunkV {
            chunkset_id,
            chunk_id,
            erasure_coded_data: bytes@.subrange(p3 as int, p3 as int + dlen as int),
        };
        proof {
            assert(parse_chunk(bytes@, 0) == Some((chunk_v, p4 as int)));
        }
        let (plen, p5) = match read_varint(bytes, p4) {
            Some(x) => x,
            None => {
                return Err(pcc_deser_error());
            },
        };
        let (proof, p6) = match read_hashes(bytes, p5, plen) {
            Some(x) => x,
            None => {
                return Err(pcc_deser_error());
            },
        };
        let chunk = Chunk { chunkset_id, chunk_id, erasure_coded_data: data };
        let pcc = ProofCarryingChunk { chunk, proof };
        proof {
            assert(chunk@ == chunk_v);
            assert(p6 <= bytes.len()) by {
                if plen == 0 {
                    assert(p6 == p5 <= bytes.len());
                }
            }
            assert(parse_pcc(bytes@, 0) == Some((pcc@, p6 as int)));
        }
        Ok((pcc, p6))
    }
}

impl PartialEq for Chunk {
    fn eq(&self, other: &Self) -> (r: bool) {
        self.chunkset_id == other.chunkset_id && self.chunk_id == other.chunk_id
            && crate::merkle_tree::eq_digest(&self.erasure_coded_data, &other.erasure_coded_data)
    }
}

impl vstd::std_specs::cmp::PartialEqSpecImpl for Chunk {
    open spec fn obeys_eq_spec() -> bool {
        true
    }

    open spec fn eq_spec(&self, other: &Self) -> bool {
        self@ == other@
    }
}

impl PartialEq for ProofCarryingChunk {
    fn eq(&self, other: &Self) -> (r: bool) {
        self.chunk == other.chunk && crate::merkle_tree::eq_digest_list(
            &self.proof,
            &other.proof,
        )
    }
}

impl vstd::std_specs::cmp::PartialEqSpecImpl for ProofCarryingChunk {
    open spec fn obeys_eq_spec() -> bool {
        true
    }

    open spec fn eq_spec(&self, other: &Self) -> bool {
        self@ == other@
    }
}

impl Clone for ProofCarryingChunk {
    /// Copies the chunk and its proof, preserving the value they denote.
    fn clone(&self) -> (res: Self)
        ensures
            res@ == self@,
    {
        clone_pcc(self)
    }
}

/// Copies a proof-carrying chunk, preserving its value.
pub(crate) fn clone_pcc(p: &ProofCarryingChunk) -> (r: ProofCarryingChunk)
    ensures
        r@ == p@,
        r.proof.len() == p.proof.len(),
        forall|i: int| 0 <= i < p.proof.len() ==> (#[trigger] r.proof[i]@) == p.proof[i]@,
{
    let chunk = Chunk {
        chunkset_id: p.chunk.chunkset_id,
        chunk_id: p.chunk.chunk_id,
        erasure_coded_data: clone_digest(&p.chunk.erasure_coded_data),
    };
    let proof = crate::merkle_tree::clone_digests(&p.proof);
    let r = ProofCarryingChunk { chunk, proof };
    proof {
        assert(views_of(r.proof@) =~= views_of(p.proof@));
    }
    r
}

/// The error reported whenever no proof-carrying chunk parses at the start
/// of the input.
fn pcc_deser_error() -> (e: DecdsError)
    ensures
        e is ProofCarryingChunkDeserializationFailed,
{
    DecdsError::ProofCarryingChunkDeserializationFailed(
        String::from_str("invalid or truncated encoding"),
    )
}

} // verus!

use vstd::prelude::*;
use vstd::string::StringExecFns;
use vstd::pervasive::VecAdditionalExecFns;

use crate::chunk::{ProofCarryingChunk, ProofCarryingChunkV, pcc_validates_in_blob,
    pcc_validates_in_chunkset};
use crate::chunkset::{ChunkSet, RepairingChunkSet, lemma_proof_len_16};
use crate::coding::{decoder_absorbs, decoder_decoded};
use crate::errors::DecdsError;
use crate::hashing::{blake3_of, blake3_digest, clone_digest};
use crate::merkle_tree::{
    MerkleTree, clone_digests, lemma_fold_of_generated, lemma_merkle_proof_len,
    lemma_proof_fold_append, lemma_proof_fold_high_bits, lemma_shift_down_high_bits,
    merkle_proof_from, merkle_root, proof_fold, shift_down, views_of, zero_digest0,
};
use crate::wire::{
    concat_all, lemma_parse_hashes_of_encode, lemma_parse_varint_of_encode, parse_hashes,
    parse_varint, read_bytes, read_hashes, read_varint, varint, write_bytes, write_hashes,
    write_varint,
};

verus! {

/// How many chunksets a blob of `byte_length` bytes is striped over: one
/// per started 10 MiB.
pub open spec fn chunksets_needed(byte_length: u64) -> int {
    byte_length as int / 10485760 + if byte_length as int % 10485760 == 0 {
        0int
    } else {
        1int
    }
}

/// The effective byte count of chunkset `id` of a blob of `byte_length`
/// bytes: a full stride, except that the last chunkset holds only what
/// remains.
pub open spec fn chunkset_effective_size(byte_length: u64, id: u64) -> int {
    if byte_length - id * 10485760 < 10485760 {
        byte_length - id * 10485760
    } else {
        10485760int
    }
}

/// Bounds tying a blob length to its chunkset count: every in-range
/// chunkset starts strictly inside the blob, and the padded whole covers
/// it.
pub proof fn lemma_chunkset_bounds(byte_length: u64, id: u64)
    requires
        byte_length >= 1,
        id < chunksets_needed(byte_length),
    ensures
        id * 10485760 < byte_length,
        chunksets_needed(byte_length) * 10485760 >= byte_length,
        chunksets_needed(byte_length) * 10485760 < byte_length + 10485760,
        1 <= chunksets_needed(byte_length) <= 1759218604442,
{
    let cs = 10485760int;
    let l = byte_length as int;
    let q = l / cs;
    let r = l % cs;
    vstd::arithmetic::div_mod::lemma_fundamental_div_mod(l, cs);
    assert(l == cs * q + r);
    vstd::arithmetic::div_mod::lemma_div_is_ordered(l, u64::MAX as int, cs);
    assert(u64::MAX as int / cs == 1759218604441);
    let nc = chunksets_needed(byte_length);
    if r == 0 {
        assert(nc == q);
        assert(nc * cs == cs * q);
        vstd::arithmetic::mul::lemma_mul_inequality(id as int, nc - 1, cs);
        assert((nc - 1) * cs == nc * cs - cs) by {
            vstd::arithmetic::mul::lemma_mul_is_distributive_sub(cs, nc, 1);
            vstd::arithmetic::mul::lemma_mul_is_commutative(nc - 1, cs);
            vstd::arithmetic::mul::lemma_mul_is_commutative(nc, cs);
        }
        assert(id * cs <= (nc - 1) * cs);
    } else {
        assert(nc == q + 1);
        assert(nc * cs == cs * q + cs) by {
            vstd::arithmetic::mul::lemma_mul_is_distributive_add(cs, q, 1);
            vstd::arithmetic::mul::lemma_mul_is_commutative(q + 1, cs);
        }
        vstd::arithmetic::mul::lemma_mul_inequality(id as int, nc - 1, cs);
        assert((nc - 1) * cs == cs * q) by {
            vstd::arithmetic::mul::lemma_mul_is_distributive_sub(cs, nc, 1);
            vstd::arithmetic::mul::lemma_mul_is_commutative(nc - 1, cs);
            vstd::arithmetic::mul::lemma_mul_is_commutative(nc, cs);
        }
        assert(id * cs <= cs * q);
        assert(cs * q == l - r < l);
    }
}

/// The mathematical value of a blob header.
pub struct BlobHeaderV {
    pub byte_length: u64,
    pub num_chunksets: u64,
    pub digest: Seq<u8>,
    pub root_commitment: Seq<u8>,
    pub chunkset_root_commitments: Seq<Seq<u8>>,
}

/// The compact commitment to a blob: its length and digest, the blob-level
/// Merkle root, and one commitment per chunkset. A header is immutable
/// once produced; repairers validate every fragment against it.
#[derive(Debug)]
pub struct BlobHeader {
    pub byte_length: u64,
    pub num_chunksets: u64,
    pub digest: Vec<u8>,
    pub root_commitment: Vec<u8>,
    pub chunkset_root_commitments: Vec<Vec<u8>>,
}

impl View for BlobHeader {
    type V = BlobHeaderV;

    open spec fn view(&self) -> BlobHeaderV {
        BlobHeaderV {
            byte_length: self.byte_length,
            num_chunksets: self.num_chunksets,
            digest: self.digest@,
            root_commitment: self.root_commitment@,
            chunkset_root_commitments: views_of(self.chunkset_root_commitments@),
        }
    }
}

/// Whether `chunk` is authentic under header `h`: its full proof anchors to
/// the blob root, its chunkset id is in range, and its chunkset-level proof
/// anchors to that chunkset's commitment.
pub open spec fn validate_chunk_spec(h: BlobHeaderV, chunk: ProofCarryingChunkV) -> bool {
    &&& pcc_validates_in_blob(chunk, h.root_commitment)
    &&& chunk.chunk.chunkset_id < h.num_chunksets
    &&& pcc_validates_in_chunkset(
        chunk,
        h.chunkset_root_commitments[chunk.chunk.chunkset_id as int],
    )
}

/// The canonical bytes of a header: length, chunkset count, digest, root,
/// then the chunkset commitments behind a count prefix.
pub open spec fn header_bytes(h: BlobHeaderV) -> Seq<u8> {
    varint(h.byte_length) + varint(h.num_chunksets) + h.digest + h.root_commitment + varint(
        h.chunkset_root_commitments.len() as u64,
    ) + concat_all(h.chunkset_root_commitments)
}

/// Reads one header at the start of `s`, or nothing when the input ends
/// early or an integer is malformed.
pub open spec fn parse_header(s: Seq<u8>) -> Option<(BlobHeaderV, int)> {
    match parse_varint(s, 0) {
        Some((byte_length, p1)) => match parse_varint(s, p1) {
            Some((num_chunksets, p2)) => if p2 + 64 <= s.len() {
                match parse_varint(s, p2 + 64) {
                    Some((count, p3)) => match parse_hashes(s, p3, count as nat) {
                        Some((hs, p4)) => Some(
                            (
                                BlobHeaderV {
                                    byte_length,
                                    num_chunksets,
                                    digest: s.subrange(p2, p2 + 32),
                                    root_commitment: s.subrange(p2 + 32, p2 + 64),
                                    chunkset_root_commitments: hs,
                                },
                                p4,
                            ),
                        ),
                        None => None,
                    },
                    None => None,
                }
            } else {
                None
            },
            None => None,
        },
        None => None,
    }
}

/// Header codec round-trip law: parsing the canonical bytes of any header
/// returns that header, having consumed the whole encoding.
pub proof fn lemma_header_codec_roundtrip(h: BlobHeaderV)
    requires
        h.digest.len() == 32,
        h.root_commitment.len() == 32,
        h.chunkset_root_commitments.len() <= u64::MAX,
        forall|i: int| 0 <= i < h.chunkset_root_commitments.len() ==> (#[trigger]
        h.chunkset_root_commitments[i]).len() == 32,
    ensures
        parse_header(header_bytes(h)) == Some((h, header_bytes(h).len() as int)),
{
    let s = header_bytes(h);
    let v1 = varint(h.byte_length);
    let v2 = varint(h.num_chunksets);
    let cnt = h.chunkset_root_commitments.len() as u64;
    let v3 = varint(cnt);
    let ch = concat_all(h.chunkset_root_commitments);
    assert(s == v1 + v2 + h.digest + h.root_commitment + v3 + ch);
    assert(s.subrange(0, s.len() as int) =~= s);
    let o1 = v1.len() as int;
    let o2 = o1 + v2.len() as int;
    let o3 = o2 + 32;
    let o4 = o3 + 32;
    let o5 = o4 + v3.len() as int;
    assert(s.subrange(0, o1) =~= v1);
    assert(s.subrange(o1, o2) =~= v2);
    assert(s.subrange(o2, o3) =~= h.digest);
    assert(s.subrange(o3, o4) =~= h.root_commitment);
    assert(s.subrange(o4, o5) =~= v3);
    assert(s.subrange(o5, s.len() as int) =~= ch);
    lemma_parse_varint_of_encode(s, 0, h.byte_length);
    lemma_parse_varint_of_encode(s, o1, h.num_chunksets);
    lemma_parse_varint_of_encode(s, o4, cnt);
    lemma_parse_hashes_of_encode(s, o5, h.chunkset_root_commitments);
    assert(parse_header(s) == Some((h, s.len() as int)));
}

impl BlobHeader {
    /// The digests it carries are 32 bytes each, and the chunkset count
    /// equals the commitment list's length.
    pub open spec fn wf_lens(self) -> bool {
        &&& self.digest@.len() == 32
        &&& self.root_commitment@.len() == 32
        &&& self.num_chunksets == self.chunkset_root_commitments@.len()
        &&& forall|i: int| 0 <= i < self.chunkset_root_commitments@.len() ==> (#[trigger]
        self.chunkset_root_commitments@[i]@).len() == 32
    }

    /// The chunkset count matches the blob length: one chunkset per
    /// started 10 MiB of a non-empty blob.
    pub open spec fn wf_counts(self) -> bool {
        &&& self.byte_length >= 1
        &&& self.num_chunksets == chunksets_needed(self.byte_length)
    }

    /// The root commitment is the Merkle root of the chunkset commitments.
    pub open spec fn wf_root(self) -> bool {
        self.root_commitment@ == merkle_root(views_of(self.chunkset_root_commitments@))
    }

    /// A header as the builder produces it.
    pub open spec fn wf(self) -> bool {
        self.wf_lens() && self.wf_counts() && self.wf_root()
    }

    /// The original byte length of the blob, before padding.
    pub fn get_blob_size(&self) -> (r: u64)
        ensures
            r == self.byte_length,
    {
        self.byte_length
    }

    /// The number of chunksets the blob is striped over.
    pub fn get_num_chunksets(&self) -> (r: u64)
        ensures
            r == self.num_chunksets,
    {
        self.num_chunksets
    }

    /// The total number of erasure-coded chunks across all chunksets.
    pub fn get_num_chunks(&self) -> (r: u64)
        requires
            self.wf_counts(),
        ensures
            r == self.num_chunksets * 16,
    {
        proof {
            lemma_chunkset_bounds(self.byte_length, 0);
        }
        self.num_chunksets * 16
    }

    /// The digest of the original, unpadded blob bytes.
    pub fn get_blob_digest(&self) -> (r: Vec<u8>)
        ensures
            r@ == self.digest@,
    {
        clone_digest(&self.digest)
    }

    /// The blob-level Merkle root commitment.
    pub fn get_root_commitment(&self) -> (r: Vec<u8>)
        ensures
            r@ == self.root_commitment@,
    {
        clone_digest(&self.root_commitment)
    }

    /// The Merkle root commitment of one chunkset. Fails exactly on an id
    /// at or beyond the chunkset count.
    pub fn get_chunkset_commitment(&self, chunkset_id: u64) -> (r: Result<Vec<u8>, DecdsError>)
        requires
            self.num_chunksets == self.chunkset_root_commitments@.len(),
        ensures
            match r {
                Ok(c) => chunkset_id < self.num_chunksets && c@
                    == self@.chunkset_root_commitments[chunkset_id as int],
                Err(e) => chunkset_id >= self.num_chunksets && e == DecdsError::InvalidChunksetId(
                    chunkset_id,
                    self.num_chunksets,
                ),
            },
    {
        if chunkset_id < self.num_chunksets {
            let n = self.chunkset_root_commitments.len();
            proof {
                assert(chunkset_id < n);
            }
            let c = clone_digest(&self.chunkset_root_commitments[chunkset_id as usize]);
            proof {
                assert(self@.chunkset_root_commitments[chunkset_id as int]
                    == self.chunkset_root_commitments@[chunkset_id as int]@);
            }
            Ok(c)
        } else {
            Err(DecdsError::InvalidChunksetId(chunkset_id, self.num_chunksets))
        }
    }

    /// The effective byte count of one chunkset: a full 10 MiB stride,
    /// except what remains of the blob in the last one. Fails exactly on an
    /// id at or beyond the chunkset count.
    pub fn get_chunkset_size(&self, chunkset_id: u64) -> (r: Result<u64, DecdsError>)
        requires
            self.wf_counts(),
        ensures
            match r {
                Ok(sz) => chunkset_id < self.num_chunksets && sz == chunkset_effective_size(
                    self.byte_length,
                    chunkset_id,
                ) && 1 <= sz <= 10485760,
                Err(e) => chunkset_id >= self.num_chunksets && e == DecdsError::InvalidChunksetId(
                    chunkset_id,
                    self.num_chunksets,
                ),
            },
    {
        if chunkset_id < self.num_chunksets {
            proof {
                lemma_chunkset_bounds(self.byte_length, chunkset_id);
            }
            let from = chunkset_id * 10485760;
            let remaining = self.byte_length - from;
            if remaining < 10485760 {
                Ok(remaining)
            } else {
                Ok(10485760)
            }
        } else {
            Err(DecdsError::InvalidChunksetId(chunkset_id, self.num_chunksets))
        }
    }

    /// The byte range `[start, end)` a chunkset covers in the unpadded
    /// blob. Fails exactly on an id at or beyond the chunkset count.
    pub fn get_byte_range_for_chunkset(&self, chunkset_id: u64) -> (r: Result<
        (u64, u64),
        DecdsError,
    >)
        requires
            self.wf_counts(),
        ensures
            match r {
                Ok(range) => {
                    &&& chunkset_id < self.num_chunksets
                    &&& range.0 == chunkset_id * 10485760
                    &&& range.1 == range.0 + chunkset_effective_size(self.byte_length, chunkset_id)
                },
                Err(e) => chunkset_id >= self.num_chunksets && e == DecdsError::InvalidChunksetId(
                    chunkset_id,
                    self.num_chunksets,
                ),
            },
    {
        if chunkset_id < self.num_chunksets {
            proof {
                lemma_chunkset_bounds(self.byte_length, chunkset_id);
            }
            let from = chunkset_id * 10485760;
            let remaining = self.byte_length - from;
            let eff = if remaining < 10485760 {
                remaining
            } else {
                10485760
            };
            Ok((from, from + eff))
        } else {
            Err(DecdsError::InvalidChunksetId(chunkset_id, self.num_chunksets))
        }
    }

    /// The ids of the chunksets that overlap the byte range `[start, end)`.
    /// An empty range is rejected; a range whose last byte lies past the
    /// final chunkset's full stride is rejected with the id it would need.
    pub fn get_chunkset_ids_for_byte_range(&self, start: u64, end: u64) -> (r: Result<
        Vec<u64>,
        DecdsError,
    >)
        ensures
            match r {
                Ok(ids) => {
                    &&& end >= 1
                    &&& (end - 1) as u64 / 10485760 < self.num_chunksets
                    &&& ids@.len() == (if start / 10485760 <= (end - 1) as u64 / 10485760 {
                        (end - 1) as u64 / 10485760 - start / 10485760 + 1
                    } else {
                        0int
                    })
                    &&& forall|k: int| 0 <= k < ids@.len() ==> ids@[k] == start / 10485760 + k
                },
                Err(e) => {
                    &&& (end == 0 ==> e == DecdsError::InvalidEndBound(0))
                    &&& (end >= 1 ==> e == DecdsError::InvalidChunksetId(
                        (end - 1) as u64 / 10485760,
                        self.num_chunksets,
                    ) && (end - 1) as u64 / 10485760 >= self.num_chunksets)
                },
            },
    {
        if end == 0 {
            return Err(DecdsError::InvalidEndBound(0));
        }
        let start_chunkset_id = start / 10485760;
        let end_chunkset_id = (end - 1) / 10485760;
        if end_chunkset_id >= self.num_chunksets {
            return Err(DecdsError::InvalidChunksetId(end_chunkset_id, self.num_chunksets));
        }
        proof {
            assert(end_chunkset_id < u64::MAX);
        }
        let mut ids: Vec<u64> = Vec::new();
        if start_chunkset_id <= end_chunkset_id {
            let mut id: u64 = start_chunkset_id;
            while id <= end_chunkset_id
                invariant
                    start_chunkset_id <= id <= end_chunkset_id + 1,
                    end_chunkset_id < u64::MAX,
                    ids@.len() == id - start_chunkset_id,
                    forall|k: int| 0 <= k < ids@.len() ==> ids@[k] == start_chunkset_id + k,
                decreases end_chunkset_id + 1 - id,
            {
                ids.push(id);
                id = id + 1;
            }
        }
        Ok(ids)
    }

    /// Serializes the header into its canonical bytes. Always succeeds.
    pub fn to_bytes(&self) -> (r: Result<Vec<u8>, DecdsError>)
        requires
            self.wf_lens(),
        ensures
            r is Ok,
            r matches Ok(v) && v@ == header_bytes(self@),
    {
        let mut out: Vec<u8> = Vec::new();
        write_varint(&mut out, self.byte_length);
        write_varint(&mut out, self.num_chunksets);
        write_bytes(&mut out, &self.digest);
        write_bytes(&mut out, &self.root_commitment);
        write_varint(&mut out, self.chunkset_root_commitments.len() as u64);
        write_hashes(&mut out, &self.chunkset_root_commitments);
        proof {
            assert(out@ =~= header_bytes(self@));
        }
        Ok(out)
    }

    /// Deserializes a header from its canonical bytes, reporting how many
    /// bytes were consumed. Fails exactly when no header parses at the
    /// start of the input or the parsed chunkset count does not match the
    /// commitment list.
    pub fn from_bytes(bytes: &Vec<u8>) -> (r: Result<(BlobHeader, usize), DecdsError>)
        ensures
            match r {
                Ok(p) => {
                    &&& parse_header(bytes@) == Some((p.0@, p.1 as int))
                    &&& p.0.wf_lens()
                    &&& p.1 <= bytes.len()
                },
                Err(e) => {
                    &&& (match parse_header(bytes@) {
                        Some(q) => q.0.num_chunksets != q.0.chunkset_root_commitments.len(),
                        None => true,
                    })
                    &&& e is BlobHeaderDeserializationFailed
                },
            },
    {
        let (byte_length, p1) = match read_varint(bytes, 0) {
            Some(x) => x,
            None => {
                return Err(header_deser_error());
            },
        };
        let (num_chunksets, p2) = match read_varint(bytes, p1) {
            Some(x) => x,
            None => {
                return Err(header_deser_error());
            },
        };
        if bytes.len() - p2 < 64 {
            return Err(header_deser_error());
        }
        let digest = match read_bytes(bytes, p2, 32) {
            Some(v) => v,
            None => {
                return Err(header_deser_error());
            },
        };
        let root_commitment = match read_bytes(bytes, p2 + 32, 32) {
            Some(v) => v,
            None => {
                return Err(header_deser_error());
            },
        };
        let (count, p3) = match read_varint(bytes, p2 + 64) {
            Some(x) => x,
            None => {
                return Err(header_deser_error());
            },
        };
        let (commitments, p4) = match read_hashes(bytes, p3, count) {
            Some(x) => x,
            None => {
                return Err(header_deser_error());
            },
        };
        if num_chunksets != commitments.len() as u64 {
            return Err(header_deser_error());
        }
        let header = BlobHeader {
            byte_length,
            num_chunksets,
            digest,
            root_commitment,
            chunkset_root_commitments: commitments,
        };
        proof {
            assert(p4 <= bytes.len()) by {
                if count == 0 {
                }
            }
            assert(parse_header(bytes@) == Some((header@, p4 as int)));
        }
        Ok((header, p4))
    }

    /// Validates a proof-carrying chunk against this header: blob-level
    /// proof, chunkset id in range, and chunkset-level proof.
    pub fn validate_chunk(&self, chunk: &ProofCarryingChunk) -> (r: bool)
        requires
            self.num_chunksets == self.chunkset_root_commitments@.len(),
        ensures
            r == validate_chunk_spec(self@, chunk@),
    {
        if !chunk.validate_inclusion_in_blob(&self.root_commitment) {
            return false;
        }
        let cs_id = chunk.get_chunkset_id();
        if cs_id >= self.num_chunksets {
            return false;
        }
        let n = self.chunkset_root_commitments.len();
        proof {
            assert(cs_id < n);
        }
        let r = chunk.validate_inclusion_in_chunkset(
            &self.chunkset_root_commitments[cs_id as usize],
        );
        proof {
            assert(self@.chunkset_root_commitments[cs_id as int]
                == self.chunkset_root_commitments@[cs_id as int]@);
        }
        r
    }
}

impl PartialEq for BlobHeader {
    fn eq(&self, other: &Self) -> (r: bool) {
        self.byte_length == other.byte_length && self.num_chunksets == other.num_chunksets
            && crate::merkle_tree::eq_digest(&self.digest, &other.digest)
            && crate::merkle_tree::eq_digest(&self.root_commitment, &other.root_commitment)
            && crate::merkle_tree::eq_digest_list(
            &self.chunkset_root_commitments,
            &other.chunkset_root_commitments,
        )
    }
}

impl vstd::std_specs::cmp::PartialEqSpecImpl for BlobHeader {
    open spec fn obeys_eq_spec() -> bool {
        true
    }

    open spec fn eq_spec(&self, other: &Self) -> bool {
        self@ == other@
    }
}

impl Clone for BlobHeader {
    /// Copies the header, preserving the value it denotes.
    fn clone(&self) -> (res: Self)
        ensures
            res@ == self@,
    {
        let res = BlobHeader {
            byte_length: self.byte_length,
            num_chunksets: self.num_chunksets,
            digest: clone_digest(&self.digest),
            root_commitment: clone_digest(&self.root_commitment),
            chunkset_root_commitments: clone_digests(&self.chunkset_root_commitments),
        };
        proof {
            assert(views_of(res.chunkset_root_commitments@) =~= views_of(
                self.chunkset_root_commitments@,
            ));
        }
        res
    }
}

/// The error reported whenever no header parses at the start of the input.
fn header_deser_error() -> (e: DecdsError)
    ensures
        e is BlobHeaderDeserializationFailed,
{
    DecdsError::BlobHeaderDeserializationFailed(
        String::from_str("invalid or truncated encoding"),
    )
}

/// Copies `n` bytes of `data` starting at `start`.
fn subvec(data: &Vec<u8>, start: usize, n: usize) -> (r: Vec<u8>)
    requires
        start + n <= data.len(),
    ensures
        r@ == data@.subrange(start as int, start as int + n as int),
{
    match read_bytes(data, start, n) {
        Some(v) => v,
        None => {
            proof {
                assert(false);
            }
            Vec::new()
        },
    }
}

/// A complete erasure-coded blob: its header, and one chunkset of sixteen
/// proof-carrying chunks per 10 MiB stride of the (padded) input.
pub struct Blob {
    pub header: BlobHeader,
    pub body: Vec<ChunkSet>,
}

/// Every chunk of every chunkset of a well-formed blob is authentic under
/// the blob's own header.
pub proof fn lemma_blob_chunk_validates(h: BlobHeader, cs: ChunkSet, k: int, j: int)
    requires
        h.wf(),
        0 <= k < h.num_chunksets,
        0 <= j < 16,
        cs.wf_ext(
            k as u64,
            merkle_proof_from(views_of(h.chunkset_root_commitments@), k, zero_digest0()),
        ),
        cs.commitment@ == views_of(h.chunkset_root_commitments@)[k],
        k * 16 + 15 <= u64::MAX,
    ensures
        validate_chunk_spec(h@, cs.chunks[j]@),
{
    let comms = views_of(h.chunkset_root_commitments@);
    let c = cs.chunks[j]@;
    let digests = cs.chunk_digests();
    let csproof = merkle_proof_from(digests, j, zero_digest0());
    let path = merkle_proof_from(comms, k, zero_digest0());
    assert(c.proof == csproof + path);
    lemma_merkle_proof_len(digests, j, zero_digest0());
    lemma_proof_len_16();
    assert(csproof.len() == 4);
    assert(c.chunk.chunk_id == k * 16 + j);
    assert(vstd::arithmetic::power2::pow2(4) == 16) by {
        vstd::arithmetic::power2::lemma2_to64();
    }
    // The local id is the low four bits of the global id.
    assert((16 * k + j) % 16 == j % 16) by {
        vstd::arithmetic::div_mod::lemma_mod_multiples_vanish(k, j, 16);
    }
    assert(k * 16 + j == 16 * k + j) by {
        vstd::arithmetic::mul::lemma_mul_is_commutative(k, 16);
    }
    assert((c.chunk.chunk_id % 16) as int == j);
    // The chunkset level: the first four proof entries fold to the
    // chunkset commitment from the local id.
    lemma_fold_of_generated(digests, j, zero_digest0());
    assert(digests[j] == chunk_digest_of(c));
    assert(c.proof.subrange(0, 4) =~= csproof);
    assert(proof_fold(j, chunk_digest_of(c), csproof) == cs.commitment@);
    assert(pcc_validates_in_chunkset(c, comms[k]));
    // The blob level: the whole proof folds to the blob root from the
    // global id.
    lemma_proof_fold_append(c.chunk.chunk_id as int, chunk_digest_of(c), csproof, path);
    lemma_proof_fold_high_bits(k, j, chunk_digest_of(c), csproof);
    assert(proof_fold(c.chunk.chunk_id as int, chunk_digest_of(c), csproof) == proof_fold(
        j,
        chunk_digest_of(c),
        csproof,
    ));
    lemma_shift_down_high_bits(k, j, 4);
    assert(shift_down(c.chunk.chunk_id as int, 4) == k);
    lemma_fold_of_generated(comms, k, zero_digest0());
    assert(proof_fold(k, cs.commitment@, path) == merkle_root(comms));
    assert(proof_fold(c.chunk.chunk_id as int, chunk_digest_of(c), c.proof)
        == h.root_commitment@);
    assert(pcc_validates_in_blob(c, h.root_commitment@));
}

/// The digest of the chunk a proof-carrying chunk carries.
pub open spec fn chunk_digest_of(c: ProofCarryingChunkV) -> Seq<u8> {
    crate::chunk::chunk_digest(c.chunk)
}

impl Blob {
    /// The blob-level Merkle path of chunkset `k` under this blob's header.
    pub open spec fn blob_path(self, k: int) -> Seq<Seq<u8>> {
        merkle_proof_from(views_of(self.header.chunkset_root_commitments@), k, zero_digest0())
    }

    /// A blob as the builder produces it: a well-formed header, one
    /// chunkset per stride, each carrying its blob-level path and matching
    /// its commitment in the header.
    pub open spec fn wf(self) -> bool {
        &&& self.header.wf()
        &&& self.body@.len() == self.header.num_chunksets
        &&& forall|k: int| 0 <= k < self.body@.len() ==> (#[trigger] self.body[k]).wf_ext(
            k as u64,
            self.blob_path(k),
        )
        &&& forall|k: int| 0 <= k < self.body@.len() ==> (#[trigger] self.body[k]).commitment@
            == self.header@.chunkset_root_commitments[k]
    }

    /// Builds a blob: records length and digest, zero-pads to whole 10 MiB
    /// strides, codes each stride into a chunkset, commits to the chunkset
    /// roots with the blob-level tree, and extends every chunk's proof with
    /// its blob-level path. Fails exactly on empty input.
    pub fn new(data: Vec<u8>) -> (r: Result<Blob, DecdsError>)
        requires
            data@.len() + 10485760 <= usize::MAX,
        ensures
            match r {
                Ok(b) => {
                    &&& data@.len() >= 1
                    &&& b.wf()
                    &&& b.header.byte_length == data@.len()
                    &&& b.header.digest@ == blake3_of(data@)
                    &&& b.header.num_chunksets == chunksets_needed(b.header.byte_length)
                },
                Err(e) => data@.len() == 0 && e is EmptyDataForBlob,
            },
    {
        if data.len() == 0 {
            return Err(DecdsError::EmptyDataForBlob);
        }
        let digest = blake3_digest(&data);
        let byte_length = data.len() as u64;
        let nc_u64: u64 = byte_length / 10485760 + (if byte_length % 10485760 == 0 {
            0u64
        } else {
            1u64
        });
        proof {
            assert(nc_u64 == chunksets_needed(byte_length));
            lemma_chunkset_bounds(byte_length, 0);
        }
        let padded: u64 = nc_u64 * 10485760;
        proof {
            assert(padded <= byte_length + 10485760 <= usize::MAX);
        }
        let nc = padded as usize / 10485760;
        proof {
            assert(nc == nc_u64) by {
                vstd::arithmetic::div_mod::lemma_div_by_multiple(nc_u64 as int, 10485760);
                vstd::arithmetic::mul::lemma_mul_is_commutative(nc_u64 as int, 10485760);
            }
        }
        let mut padded_data = data;
        padded_data.resize(padded as usize, 0u8);
        let mut body: Vec<ChunkSet> = Vec::new();
        let mut cs_i: usize = 0;
        while cs_i < nc
            invariant
                cs_i <= nc,
                nc == nc_u64,
                byte_length >= 1,
                nc_u64 == chunksets_needed(byte_length),
                nc_u64 <= 1759218604442,
                nc_u64 * 10485760 <= usize::MAX,
                padded_data@.len() == nc_u64 * 10485760,
                body@.len() == cs_i,
                forall|j: int| 0 <= j < cs_i ==> (#[trigger] body[j]).wf_ext(
                    j as u64,
                    Seq::<Seq<u8>>::empty(),
                ),
            decreases nc - cs_i,
        {
            proof {
                vstd::arithmetic::mul::lemma_mul_inequality(cs_i as int + 1, nc as int, 10485760);
                vstd::arithmetic::mul::lemma_mul_is_distributive_add_other_way(
                    10485760,
                    cs_i as int,
                    1,
                );
                assert((cs_i + 1) * 10485760 == cs_i * 10485760 + 10485760);
                assert(cs_i * 10485760 + 10485760 <= nc_u64 * 10485760);
            }
            let off = cs_i * 10485760;
            let slice = subvec(&padded_data, off, 10485760);
            let cs = match ChunkSet::new(cs_i as u64, slice) {
                Ok(c) => c,
                Err(_) => {
                    proof {
                        assert(false);
                    }
                    return Err(DecdsError::EmptyDataForBlob);
                },
            };
            body.push(cs);
            cs_i = cs_i + 1;
        }
        let mut comms: Vec<Vec<u8>> = Vec::new();
        let mut j: usize = 0;
        while j < nc
            invariant
                j <= nc,
                body@.len() == nc,
                forall|i: int| 0 <= i < nc ==> (#[trigger] body[i]).wf_ext(
                    i as u64,
                    Seq::<Seq<u8>>::empty(),
                ),
                comms@.len() == j,
                forall|i: int| 0 <= i < j ==> (#[trigger] comms[i]@) == body[i].commitment@,
                forall|i: int| 0 <= i < j ==> (#[trigger] comms[i]@).len() == 32,
            decreases nc - j,
        {
            comms.push(body[j].get_root_commitment());
            j = j + 1;
        }
        let tree = match MerkleTree::new(comms) {
            Ok(t) => t,
            Err(e) => {
                proof {
                    assert(false);
                }
                return Err(e);
            },
        };
        let root = tree.get_root_commitment();
        let ghost orig_body = body@;
        let mut new_body: Vec<ChunkSet> = Vec::new();
        let mut k: usize = 0;
        while k < nc
            invariant
                k <= nc,
                nc >= 1,
                body@ == orig_body.skip(k as int),
                orig_body.len() == nc,
                tree.wf(),
                tree.leaves@.len() == nc,
                forall|i: int| 0 <= i < nc ==> (#[trigger] orig_body[i]).wf_ext(
                    i as u64,
                    Seq::<Seq<u8>>::empty(),
                ),
                forall|i: int| 0 <= i < nc ==> (#[trigger] orig_body[i]).commitment@ == views_of(
                    tree.leaves@,
                )[i],
                new_body@.len() == k,
                forall|i: int| 0 <= i < k ==> (#[trigger] new_body[i]).wf_ext(
                    i as u64,
                    merkle_proof_from(views_of(tree.leaves@), i, zero_digest0()),
                ),
                forall|i: int| 0 <= i < k ==> (#[trigger] new_body[i]).commitment@ == views_of(
                    tree.leaves@,
                )[i],
            decreases nc - k,
        {
            let mut cs = body.remove(0);
            let ghost cs0 = cs;
            let path = match tree.generate_proof(k) {
                Ok(p) => p,
                Err(e) => {
                    proof {
                        assert(false);
                    }
                    return Err(e);
                },
            };
            cs.append_blob_inclusion_proof(&path);
            proof {
                let ghost pathv = merkle_proof_from(views_of(tree.leaves@), k as int, zero_digest0());
                assert(cs.chunk_digests() =~= cs0.chunk_digests());
                assert forall|i: int| 0 <= i < 16 implies (#[trigger] cs.chunks[i]@).proof
                    == merkle_proof_from(cs.chunk_digests(), i, zero_digest0()) + pathv by {
                    assert(cs.chunks[i]@.proof == cs0.chunks[i]@.proof + views_of(path@));
                    assert(cs0.chunks[i]@.proof == merkle_proof_from(
                        cs0.chunk_digests(),
                        i,
                        zero_digest0(),
                    ) + Seq::<Seq<u8>>::empty());
                    assert((merkle_proof_from(cs0.chunk_digests(), i, zero_digest0())
                        + Seq::<Seq<u8>>::empty()) + pathv =~= merkle_proof_from(
                        cs0.chunk_digests(),
                        i,
                        zero_digest0(),
                    ) + pathv);
                }
                assert forall|i: int| 0 <= i < 16 implies (#[trigger] cs.chunks[i]).wf() by {
                    assert(cs0.chunks[i].wf());
                }
                assert(cs.wf_ext(k as u64, pathv));
            }
            new_body.push(cs);
            proof {
                assert(body@ =~= orig_body.skip(k as int + 1));
            }
            k = k + 1;
        }
        let commitments = tree.leaves;
        let header = BlobHeader {
            byte_length,
            num_chunksets: nc_u64,
            digest,
            root_commitment: root,
            chunkset_root_commitments: commitments,
        };
        let b = Blob { header, body: new_body };
        proof {
            assert(b.header.wf_lens());
            assert(b.header.wf_counts());
            assert(b.header.wf_root());
        }
        Ok(b)
    }

    /// The header committing to this blob.
    pub fn get_blob_header(&self) -> (r: &BlobHeader)
        ensures
            r == &self.header,
    {
        &self.header
    }

    /// One share: the chunk with local id `share_id` from every chunkset,
    /// in chunkset order. Every returned chunk is authentic under this
    /// blob's header. Fails exactly on a share id at or beyond 16.
    pub fn get_share(&self, share_id: usize) -> (r: Result<Vec<ProofCarryingChunk>, DecdsError>)
        requires
            self.wf(),
        ensures
            match r {
                Ok(v) => {
                    &&& share_id < 16
                    &&& v@.len() == self.header.num_chunksets
                    &&& forall|k: int| 0 <= k < v@.len() ==> (#[trigger] v[k]@)
                        == self.body[k].chunks[share_id as int]@
                    &&& forall|k: int| 0 <= k < v@.len() ==> validate_chunk_spec(
                        self.header@,
                        (#[trigger] v[k])@,
                    )
                },
                Err(e) => share_id >= 16 && e == DecdsError::InvalidErasureCodedShareId(share_id),
            },
    {
        if share_id >= 16 {
            return Err(DecdsError::InvalidErasureCodedShareId(share_id));
        }
        let n = self.body.len();
        let mut out: Vec<ProofCarryingChunk> = Vec::new();
        let mut k: usize = 0;
        while k < n
            invariant
                k <= n,
                share_id < 16,
                self.wf(),
                n == self.body@.len(),
                out@.len() == k,
                forall|i: int| 0 <= i < k ==> (#[trigger] out[i]@)
                    == self.body[i].chunks[share_id as int]@,
                forall|i: int| 0 <= i < k ==> validate_chunk_spec(
                    self.header@,
                    (#[trigger] out[i])@,
                ),
            decreases n - k,
        {
            let cs = &self.body[k];
            let c = crate::chunk::clone_pcc(&cs.chunks[share_id]);
            proof {
                lemma_chunkset_bounds(self.header.byte_length, k as u64);
                vstd::arithmetic::mul::lemma_mul_inequality(
                    k as int,
                    1759218604442,
                    16,
                );
                lemma_blob_chunk_validates(self.header, self.body[k as int], k as int, share_id as int);
            }
            out.push(c);
            k = k + 1;
        }
        Ok(out)
    }
}

/// The incremental repairer of a whole blob: one slot per chunkset, active
/// while chunks are being absorbed, and a tombstone once that chunkset has
/// been repaired and extracted.
pub struct RepairingBlob {
    pub header: BlobHeader,
    pub body: Vec<Option<RepairingChunkSet>>,
}

impl RepairingBlob {
    /// A well-formed repairer: a header with consistent counts and lengths,
    /// one slot per chunkset, and every active slot configured for its own
    /// chunkset's commitment.
    pub open spec fn wf(self) -> bool {
        &&& self.header.wf_lens()
        &&& self.header.wf_counts()
        &&& self.body@.len() == self.header.num_chunksets
        &&& forall|k: int| 0 <= k < self.body@.len() ==> ((#[trigger] self.body@[k]) matches Some(
            rcs,
        ) ==> rcs.wf() && rcs.chunkset_id == k && rcs.commitment@
            == self.header@.chunkset_root_commitments[k])
    }

    /// A fresh repairer from a header: every chunkset gets an empty,
    /// still-active slot.
    pub fn new(header: BlobHeader) -> (r: RepairingBlob)
        requires
            header.wf_lens(),
            header.wf_counts(),
        ensures
            r.wf(),
            r.header == header,
            forall|k: int| 0 <= k < r.body@.len() ==> ((#[trigger] r.body@[k]) matches Some(rcs)
                && rcs.rank() == 0),
    {
        let n = header.chunkset_root_commitments.len();
        let mut body: Vec<Option<RepairingChunkSet>> = Vec::new();
        let mut k: usize = 0;
        while k < n
            invariant
                k <= n,
                header.wf_lens(),
                n == header.num_chunksets,
                body@.len() == k,
                forall|i: int| 0 <= i < k ==> ((#[trigger] body@[i]) matches Some(rcs) && rcs.wf()
                    && rcs.chunkset_id == i && rcs.commitment@
                    == header@.chunkset_root_commitments[i] && rcs.rank() == 0),
            decreases n - k,
        {
            let commitment = match header.get_chunkset_commitment(k as u64) {
                Ok(c) => c,
                Err(_) => {
                    proof {
                        assert(false);
                    }
                    clone_digest(&header.root_commitment)
                },
            };
            let rcs = RepairingChunkSet::new(k as u64, commitment);
            body.push(Some(rcs));
            k = k + 1;
        }
        RepairingBlob { header, body }
    }

    /// Routes a chunk to its chunkset's slot: unknown ids and tombstoned
    /// slots are rejected; an inauthentic chunk is rejected with the
    /// invalid-proof error and every slot left exactly as it was —
    /// validation precedes the readiness check, so an inauthentic chunk is
    /// never answered with the ready-to-repair error; a full slot rejects
    /// everything untouched; otherwise the slot's decoder absorbs the chunk
    /// exactly when its payload has the coded length and is linearly
    /// independent of what that slot holds, and reports it undecodable
    /// otherwise.
    pub fn add_chunk(&mut self, chunk: &ProofCarryingChunk) -> (r: Result<(), DecdsError>)
        requires
            old(self).wf(),
        ensures
            final(self).wf(),
            final(self).header == old(self).header,
            final(self).body@.len() == old(self).body@.len(),
            forall|k: int| 0 <= k < old(self).body@.len() && k != chunk@.chunk.chunkset_id
                ==> final(self).body@[k] == old(self).body@[k],
            ({
                let id = chunk@.chunk.chunkset_id;
                let nc = old(self).header.num_chunksets;
                &&& id >= nc ==> r == Err::<(), DecdsError>(DecdsError::InvalidChunksetId(id, nc))
                    && final(self).body@ == old(self).body@
                &&& id < nc && old(self).body@[id as int] is None ==> r == Err::<(), DecdsError>(
                    DecdsError::ChunksetAlreadyRepaired(id),
                ) && final(self).body@ == old(self).body@
                &&& id < nc ==> (old(self).body@[id as int] matches Some(rcs) ==> {
                    &&& !validate_chunk_spec(old(self).header@, chunk@) ==> r == Err::<
                        (),
                        DecdsError,
                    >(DecdsError::InvalidProofInChunk(id)) && final(self).body@ == old(
                        self,
                    ).body@
                    &&& (validate_chunk_spec(old(self).header@, chunk@) && rcs.rank() == 10)
                        ==> r == Err::<(), DecdsError>(DecdsError::ChunksetReadyToRepair(id))
                        && final(self).body@ == old(self).body@
                    &&& (validate_chunk_spec(old(self).header@, chunk@) && rcs.rank() < 10) ==> {
                        &&& r is Ok <==> (chunk@.chunk.erasure_coded_data.len() == 1048587
                            && decoder_absorbs(rcs.decoder, chunk@.chunk.erasure_coded_data))
                        &&& (final(self).body@[id as int] matches Some(rcs2) && (r is Ok
                            ==> rcs2.rank() == rcs.rank() + 1) && (r is Err ==> rcs2.rank()
                            == rcs.rank()))
                        &&& r is Err ==> (r matches Err(e) && e is ChunkDecodingFailed)
                    }
                })
            }),
    {
        let id = chunk.get_chunkset_id();
        if id >= self.header.get_num_chunksets() {
            return Err(DecdsError::InvalidChunksetId(id, self.header.num_chunksets));
        }
        let n = self.body.len();
        proof {
            assert(id < n);
        }
        let idx = id as usize;
        let mut slot: Option<RepairingChunkSet> = None;
        self.body.set_and_swap(idx, &mut slot);
        match slot {
            None => {
                proof {
                    assert(self.body@ =~= old(self).body@);
                }
                Err(DecdsError::ChunksetAlreadyRepaired(id))
            },
            Some(mut rcs) => {
                if !self.header.validate_chunk(chunk) {
                    self.body.set(idx, Some(rcs));
                    proof {
                        assert(self.body@ =~= old(self).body@);
                    }
                    Err(DecdsError::InvalidProofInChunk(id))
                } else if rcs.is_ready_to_repair() {
                    self.body.set(idx, Some(rcs));
                    proof {
                        assert(self.body@ =~= old(self).body@);
                    }
                    Err(DecdsError::ChunksetReadyToRepair(id))
                } else {
                    let res = rcs.add_chunk_unvalidated(chunk);
                    self.body.set(idx, Some(rcs));
                    res
                }
            },
        }
    }

    /// Whether a chunkset's slot is still active and holds a full-rank
    /// system. A tombstoned slot answers false. Fails exactly on an id at
    /// or beyond the chunkset count.
    pub fn is_chunkset_ready_to_repair(&self, chunkset_id: u64) -> (r: Result<bool, DecdsError>)
        requires
            self.wf(),
        ensures
            match r {
                Ok(b) => chunkset_id < self.header.num_chunksets && b == (
                self.body@[chunkset_id as int] matches Some(rcs) && rcs.rank() == 10),
                Err(e) => chunkset_id >= self.header.num_chunksets && e
                    == DecdsError::InvalidChunksetId(chunkset_id, self.header.num_chunksets),
            },
    {
        if chunkset_id >= self.header.get_num_chunksets() {
            return Err(DecdsError::InvalidChunksetId(chunkset_id, self.header.num_chunksets));
        }
        let n = self.body.len();
        proof {
            assert(chunkset_id < n);
        }
        match &self.body[chunkset_id as usize] {
            Some(rcs) => Ok(rcs.is_ready_to_repair()),
            None => Ok(false),
        }
    }

    /// Whether a chunkset has already been repaired and extracted. Fails
    /// exactly on an id at or beyond the chunkset count.
    pub fn is_chunkset_already_repaired(&self, chunkset_id: u64) -> (r: Result<bool, DecdsError>)
        requires
            self.wf(),
        ensures
            match r {
                Ok(b) => chunkset_id < self.header.num_chunksets && b == (
                self.body@[chunkset_id as int] is None),
                Err(e) => chunkset_id >= self.header.num_chunksets && e
                    == DecdsError::InvalidChunksetId(chunkset_id, self.header.num_chunksets),
            },
    {
        if chunkset_id >= self.header.get_num_chunksets() {
            return Err(DecdsError::InvalidChunksetId(chunkset_id, self.header.num_chunksets));
        }
        let n = self.body.len();
        proof {
            assert(chunkset_id < n);
        }
        Ok(self.body[chunkset_id as usize].is_none())
    }

    /// Extracts a repaired chunkset: the slot is consumed for good, the
    /// decoder is driven, and the result is cut down to the chunkset's
    /// effective size to drop the padding. A consumed slot reports that the
    /// chunkset was already repaired — extraction is one-shot.
    pub fn get_repaired_chunkset(&mut self, chunkset_id: u64) -> (r: Result<Vec<u8>, DecdsError>)
        requires
            old(self).wf(),
        ensures
            final(self).wf(),
            final(self).header == old(self).header,
            final(self).body@.len() == old(self).body@.len(),
            forall|k: int| 0 <= k < old(self).body@.len() && k != chunkset_id ==> final(self).body@[k] == old(self).body@[k],
            ({
                let nc = old(self).header.num_chunksets;
                &&& chunkset_id >= nc ==> r == Err::<Vec<u8>, DecdsError>(
                    DecdsError::InvalidChunksetId(chunkset_id, nc),
                ) && final(self).body@ == old(self).body@
                &&& chunkset_id < nc && old(self).body@[chunkset_id as int] is None ==> r
                    == Err::<Vec<u8>, DecdsError>(DecdsError::ChunksetAlreadyRepaired(chunkset_id))
                    && final(self).body@ == old(self).body@
                &&& chunkset_id < nc ==> (old(self).body@[chunkset_id as int] matches Some(rcs)
                    ==> {
                    &&& rcs.rank() < 10 ==> r == Err::<Vec<u8>, DecdsError>(
                        DecdsError::ChunksetNotYetReadyToRepair(chunkset_id),
                    ) && final(self).body@ == old(self).body@
                    &&& rcs.rank() == 10 ==> {
                        &&& final(self).body@[chunkset_id as int] is None
                        &&& (r matches Ok(v) ==> v@ == ({
                            let decoded = decoder_decoded(rcs.decoder);
                            let size = chunkset_effective_size(
                                old(self).header.byte_length,
                                chunkset_id,
                            );
                            if size <= decoded.len() {
                                decoded.subrange(0, size)
                            } else {
                                decoded
                            }
                        }))
                        &&& (r matches Ok(v) ==> v@.len() <= chunkset_effective_size(
                            old(self).header.byte_length,
                            chunkset_id,
                        ))
                        &&& (r is Err ==> (r matches Err(e) && e is ChunksetRepairingFailed))
                    }
                })
            }),
    {
        if chunkset_id >= self.header.get_num_chunksets() {
            return Err(DecdsError::InvalidChunksetId(chunkset_id, self.header.num_chunksets));
        }
        let n = self.body.len();
        proof {
            assert(chunkset_id < n);
        }
        let idx = chunkset_id as usize;
        let mut slot: Option<RepairingChunkSet> = None;
        self.body.set_and_swap(idx, &mut slot);
        match slot {
            None => {
                proof {
                    assert(self.body@ =~= old(self).body@);
                }
                Err(DecdsError::ChunksetAlreadyRepaired(chunkset_id))
            },
            Some(rcs) => {
                if !rcs.is_ready_to_repair() {
                    self.body.set(idx, Some(rcs));
                    proof {
                        assert(self.body@ =~= old(self).body@);
                    }
                    return Err(DecdsError::ChunksetNotYetReadyToRepair(chunkset_id));
                }
                let size = match self.header.get_chunkset_size(chunkset_id) {
                    Ok(sz) => sz,
                    Err(_) => {
                        proof {
                            assert(false);
                        }
                        0
                    },
                };
                match rcs.repair() {
                    Ok(mut v) => {
                        v.truncate(size as usize);
                        Ok(v)
                    },
                    Err(e) => Err(e),
                }
            },
        }
    }
}

} // verus!

use vstd::prelude::*;

use crate::errors::DecdsError;
use crate::hashing::{blake3_of, blake3_digest, clone_digest, concat_bytes};

verus! {

/// The byte strings held by a list of byte vectors, in order.
pub open spec fn views_of(v: Seq<Vec<u8>>) -> Seq<Seq<u8>> {
    Seq::new(v.len(), |i: int| v[i]@)
}

/// The level-zero padding digest: 32 zero bytes.
pub open spec fn zero_digest0() -> Seq<u8> {
    Seq::new(32, |i: int| 0u8)
}

/// The digest of an interior node: the hash of the two children's raw bytes,
/// concatenated without any prefix.
pub open spec fn node_hash(l: Seq<u8>, r: Seq<u8>) -> Seq<u8> {
    blake3_of(l + r)
}

/// One level up from `level`: adjacent pairs are hashed together, a lone
/// right-most node is paired with this level's padding digest `zero`.
pub open spec fn level_up(level: Seq<Seq<u8>>, zero: Seq<u8>) -> Seq<Seq<u8>> {
    Seq::new((level.len() + 1) / 2, |i: int| node_hash(
        level[2 * i],
        if 2 * i + 1 < level.len() {
            level[2 * i + 1]
        } else {
            zero
        },
    ))
}

/// The root of the tree over `level`, with `zero` as this level's padding
/// digest. A one-node level is its own root, unhashed.
pub open spec fn merkle_root_from(level: Seq<Seq<u8>>, zero: Seq<u8>) -> Seq<u8>
    decreases level.len(),
{
    if level.len() <= 1 {
        if level.len() == 1 {
            level[0]
        } else {
            zero
        }
    } else {
        merkle_root_from(level_up(level, zero), node_hash(zero, zero))
    }
}

/// The root of the tree whose leaves are `leaves`.
pub open spec fn merkle_root(leaves: Seq<Seq<u8>>) -> Seq<u8> {
    merkle_root_from(leaves, zero_digest0())
}

/// The sibling recorded in a proof for the node at index `i` of `level`:
/// the opposite child of the pair, or the padding digest for a lone
/// right-most node.
pub open spec fn sibling_at(level: Seq<Seq<u8>>, i: int, zero: Seq<u8>) -> Seq<u8> {
    if i % 2 == 0 {
        if i + 1 < level.len() {
            level[i + 1]
        } else {
            zero
        }
    } else {
        level[i - 1]
    }
}

/// The inclusion proof for leaf `i`, bottom-up: at each level the sibling of
/// the running node, until the level is a single node.
pub open spec fn merkle_proof_from(level: Seq<Seq<u8>>, i: int, zero: Seq<u8>) -> Seq<Seq<u8>>
    decreases level.len(),
{
    if level.len() <= 1 {
        Seq::<Seq<u8>>::empty()
    } else {
        seq![sibling_at(level, i, zero)] + merkle_proof_from(
            level_up(level, zero),
            i / 2,
            node_hash(zero, zero),
        )
    }
}

/// Folds a proof bottom-up from a leaf: at each step the running digest is
/// combined with the next sibling, placed left or right by the parity of the
/// running index, which is then halved.
pub open spec fn proof_fold(i: int, leaf: Seq<u8>, proof: Seq<Seq<u8>>) -> Seq<u8>
    decreases proof.len(),
{
    if proof.len() == 0 {
        leaf
    } else {
        let combined = if i % 2 == 0 {
            node_hash(leaf, proof[0])
        } else {
            node_hash(proof[0], leaf)
        };
        proof_fold(i / 2, combined, proof.subrange(1, proof.len() as int))
    }
}

/// What it means for `proof` to prove inclusion of `leaf` at index `i` under
/// `root`: folding the proof from the leaf reproduces the root.
pub open spec fn proof_verifies(i: int, leaf: Seq<u8>, proof: Seq<Seq<u8>>, root: Seq<u8>) -> bool {
    proof_fold(i, leaf, proof) == root
}

/// The index `i` halved `k` times.
pub open spec fn shift_down(i: int, k: nat) -> int
    decreases k,
{
    if k == 0 {
        i
    } else {
        shift_down(i / 2, (k - 1) as nat)
    }
}

/// The length of an inclusion proof over `n` leaves: the number of halvings
/// down to a single node.
pub open spec fn proof_len_for(n: nat) -> nat
    decreases n,
{
    if n <= 1 {
        0
    } else {
        1 + proof_len_for((n + 1) / 2)
    }
}

/// Every generated proof has the level count of its tree as its length.
pub proof fn lemma_merkle_proof_len(level: Seq<Seq<u8>>, i: int, zero: Seq<u8>)
    ensures
        merkle_proof_from(level, i, zero).len() == proof_len_for(level.len()),
    decreases level.len(),
{
    if level.len() > 1 {
        lemma_merkle_proof_len(level_up(level, zero), i / 2, node_hash(zero, zero));
    }
}

/// The law behind proof verification: for any level of digests, any in-range
/// index, and any padding digest, the generated proof folds back to the root.
pub proof fn lemma_fold_of_generated(level: Seq<Seq<u8>>, i: int, zero: Seq<u8>)
    requires
        0 <= i < level.len(),
    ensures
        proof_fold(i, level[i], merkle_proof_from(level, i, zero)) == merkle_root_from(level, zero),
    decreases level.len(),
{
    if level.len() <= 1 {
        assert(merkle_proof_from(level, i, zero) =~= Seq::<Seq<u8>>::empty());
    } else {
        let up = level_up(level, zero);
        let sib = sibling_at(level, i, zero);
        let nz = node_hash(zero, zero);
        let rest = merkle_proof_from(up, i / 2, nz);
        let full = merkle_proof_from(level, i, zero);
        assert(full[0] == sib);
        assert(full.subrange(1, full.len() as int) =~= rest);
        let combined = if i % 2 == 0 {
            node_hash(level[i], sib)
        } else {
            node_hash(sib, level[i])
        };
        assert(0 <= i / 2 < up.len());
        if i % 2 == 0 {
            assert(2 * (i / 2) == i);
            assert(up[i / 2] == combined);
        } else {
            assert(2 * (i / 2) == i - 1);
            assert(2 * (i / 2) + 1 == i < level.len());
            assert(up[i / 2] == node_hash(level[i - 1], level[i]));
            assert(up[i / 2] == combined);
        }
        lemma_fold_of_generated(up, i / 2, nz);
        assert(proof_fold(i, level[i], full) == proof_fold(i / 2, combined, rest));
    }
}

/// Merkle verification law: for any leaf digests and any in-range index, the
/// proof generated for that index verifies against the tree's root.
pub proof fn lemma_merkle_generate_verify(leaves: Seq<Seq<u8>>, i: int)
    requires
        0 <= i < leaves.len(),
    ensures
        proof_verifies(
            i,
            leaves[i],
            merkle_proof_from(leaves, i, zero_digest0()),
            merkle_root(leaves),
        ),
{
    lemma_fold_of_generated(leaves, i, zero_digest0());
}

/// Folding a concatenated proof is folding the first part, then folding the
/// second from the index shifted past the first part's levels.
pub proof fn lemma_proof_fold_append(i: int, leaf: Seq<u8>, p1: Seq<Seq<u8>>, p2: Seq<Seq<u8>>)
    ensures
        proof_fold(i, leaf, p1 + p2) == proof_fold(
            shift_down(i, p1.len()),
            proof_fold(i, leaf, p1),
            p2,
        ),
    decreases p1.len(),
{
    if p1.len() == 0 {
        assert(p1 + p2 =~= p2);
    } else {
        let combined = if i % 2 == 0 {
            node_hash(leaf, p1[0])
        } else {
            node_hash(p1[0], leaf)
        };
        let whole = p1 + p2;
        assert(whole[0] == p1[0]);
        assert(whole.subrange(1, whole.len() as int) =~= p1.subrange(1, p1.len() as int) + p2);
        lemma_proof_fold_append(i / 2, combined, p1.subrange(1, p1.len() as int), p2);
    }
}

/// Folding a proof only reads the low bits of the index, one per level:
/// adding any multiple of two to the power of the proof length leaves the
/// fold unchanged.
pub proof fn lemma_proof_fold_high_bits(c: int, l: int, leaf: Seq<u8>, proof: Seq<Seq<u8>>)
    requires
        0 <= c,
        0 <= l < vstd::arithmetic::power2::pow2(proof.len()),
    ensures
        proof_fold(vstd::arithmetic::power2::pow2(proof.len()) * c + l, leaf, proof) == proof_fold(
            l,
            leaf,
            proof,
        ),
    decreases proof.len(),
{
    lemma_halving_step(c, l, proof.len());
    if proof.len() == 0 {
        assert(vstd::arithmetic::power2::pow2(0) == 1) by {
            vstd::arithmetic::power2::lemma2_to64();
        }
    } else {
        let k = proof.len();
        let p1 = vstd::arithmetic::power2::pow2((k - 1) as nat);
        let i = vstd::arithmetic::power2::pow2(k) * c + l;
        let combined = if l % 2 == 0 {
            node_hash(leaf, proof[0])
        } else {
            node_hash(proof[0], leaf)
        };
        assert(i % 2 == l % 2 && i / 2 == p1 * c + l / 2 && l / 2 < p1);
        lemma_proof_fold_high_bits(c, l / 2, combined, proof.subrange(1, proof.len() as int));
    }
}

/// Halving the index `pow2(k) * c + l` exactly `k` times leaves `c`.
pub proof fn lemma_shift_down_high_bits(c: int, l: int, k: nat)
    requires
        0 <= c,
        0 <= l < vstd::arithmetic::power2::pow2(k),
    ensures
        shift_down(vstd::arithmetic::power2::pow2(k) * c + l, k) == c,
    decreases k,
{
    lemma_halving_step(c, l, k);
    if k == 0 {
        assert(vstd::arithmetic::power2::pow2(0) == 1) by {
            vstd::arithmetic::power2::lemma2_to64();
        }
    } else {
        let p1 = vstd::arithmetic::power2::pow2((k - 1) as nat);
        let i = vstd::arithmetic::power2::pow2(k) * c + l;
        assert(i / 2 == p1 * c + l / 2 && l / 2 < p1);
        lemma_shift_down_high_bits(c, l / 2, (k - 1) as nat);
        assert(shift_down(i, k) == shift_down(i / 2, (k - 1) as nat));
    }
}

/// One halving of the index `pow2(k) * c + l`: the parity is that of `l`,
/// and the quotient is `pow2(k - 1) * c + l / 2`.
proof fn lemma_halving_step(c: int, l: int, k: nat)
    requires
        0 <= c,
        0 <= l < vstd::arithmetic::power2::pow2(k),
    ensures
        k == 0 ==> l == 0,
        k > 0 ==> {
            let i = vstd::arithmetic::power2::pow2(k) * c + l;
            &&& i % 2 == l % 2
            &&& i / 2 == vstd::arithmetic::power2::pow2((k - 1) as nat) * c + l / 2
            &&& l / 2 < vstd::arithmetic::power2::pow2((k - 1) as nat)
        },
{
    if k == 0 {
        assert(vstd::arithmetic::power2::pow2(0) == 1) by {
            vstd::arithmetic::power2::lemma2_to64();
        }
    } else {
        let p1 = vstd::arithmetic::power2::pow2((k - 1) as nat);
        assert(vstd::arithmetic::power2::pow2(k) == 2 * p1) by {
            vstd::arithmetic::power2::lemma_pow2_adds(1, (k - 1) as nat);
            vstd::arithmetic::power2::lemma2_to64();
        }
        let i = vstd::arithmetic::power2::pow2(k) * c + l;
        let x = p1 * c + l / 2;
        assert((2 * p1) * c == 2 * (p1 * c)) by {
            vstd::arithmetic::mul::lemma_mul_is_associative(2, p1 as int, c);
        }
        assert(l == 2 * (l / 2) + l % 2) by {
            vstd::arithmetic::div_mod::lemma_fundamental_div_mod(l, 2);
        }
        assert(i == 2 * x + l % 2);
        assert(i / 2 == x) by {
            vstd::arithmetic::div_mod::lemma_div_multiples_vanish_fancy(x, l % 2, 2);
        }
        assert(i % 2 == (l % 2) % 2) by {
            vstd::arithmetic::div_mod::lemma_mod_multiples_vanish(x, l % 2, 2);
        }
        assert(l / 2 < p1) by {
            assert(l <= 2 * p1 - 1);
            vstd::arithmetic::div_mod::lemma_div_is_ordered(l, 2 * p1 - 1, 2);
            assert((2 * (p1 - 1) + 1) / 2 == p1 - 1) by {
                vstd::arithmetic::div_mod::lemma_div_multiples_vanish_fancy(p1 - 1, 1, 2);
            }
            assert(2 * p1 - 1 == 2 * (p1 - 1) + 1);
        }
    }
}

/// A binary hash tree over a non-empty list of 32-byte leaf digests. The tree
/// keeps its leaves, so proofs can be generated for any of them, and caches
/// the root.
pub struct MerkleTree {
    pub root: Vec<u8>,
    pub leaves: Vec<Vec<u8>>,
}

impl MerkleTree {
    /// A well-formed tree: at least one 32-byte leaf, and the cached root is
    /// the root of the tree over the leaves.
    pub open spec fn wf(self) -> bool {
        &&& self.leaves.len() >= 1
        &&& forall|i: int| 0 <= i < self.leaves.len() ==> (#[trigger] self.leaves[i]@).len() == 32
        &&& self.root@.len() == 32
        &&& self.root@ == merkle_root(views_of(self.leaves@))
    }

    /// Builds the tree over the given leaf digests. Fails exactly on an empty
    /// leaf list.
    pub fn new(leaf_nodes: Vec<Vec<u8>>) -> (r: Result<MerkleTree, DecdsError>)
        requires
            forall|i: int| 0 <= i < leaf_nodes.len() ==> (#[trigger] leaf_nodes[i]@).len() == 32,
        ensures
            match r {
                Ok(t) => {
                    &&& leaf_nodes.len() >= 1
                    &&& t.wf()
                    &&& views_of(t.leaves@) == views_of(leaf_nodes@)
                    &&& t.leaves.len() == leaf_nodes.len()
                },
                Err(e) => leaf_nodes.len() == 0 && e is NoLeafNodesToBuildMerkleTreeOn,
            },
    {
        if leaf_nodes.len() == 0 {
            return Err(DecdsError::NoLeafNodesToBuildMerkleTreeOn);
        }
        let mut zero_hash: Vec<u8> = zero_digest();
        let mut current: Vec<Vec<u8>> = clone_digests(&leaf_nodes);
        proof {
            assert(views_of(current@) =~= views_of(leaf_nodes@));
        }
        while current.len() > 1
            invariant
                current.len() >= 1,
                forall|i: int| 0 <= i < current.len() ==> (#[trigger] current[i]@).len() == 32,
                zero_hash@.len() == 32,
                merkle_root_from(views_of(current@), zero_hash@) == merkle_root(
                    views_of(leaf_nodes@),
                ),
            decreases current.len(),
        {
            let parent_level = build_parent_level(&current, &zero_hash);
            zero_hash = parent_digest(&zero_hash, &zero_hash);
            current = parent_level;
        }
        let root = clone_digest(&current[0]);
        proof {
            assert(views_of(current@)[0] == root@);
        }
        Ok(MerkleTree { root, leaves: leaf_nodes })
    }

    /// The cached root commitment.
    pub fn get_root_commitment(&self) -> (r: Vec<u8>)
        requires
            self.wf(),
        ensures
            r@ == merkle_root(views_of(self.leaves@)),
            r@.len() == 32,
    {
        clone_digest(&self.root)
    }

    /// Generates the inclusion proof for the leaf at `leaf_index`, bottom-up.
    /// Fails exactly on an out-of-range index.
    pub fn generate_proof(&self, leaf_index: usize) -> (r: Result<Vec<Vec<u8>>, DecdsError>)
        requires
            self.wf(),
        ensures
            match r {
                Ok(proof) => {
                    &&& leaf_index < self.leaves.len()
                    &&& views_of(proof@) == merkle_proof_from(
                        views_of(self.leaves@),
                        leaf_index as int,
                        zero_digest0(),
                    )
                    &&& forall|k: int| 0 <= k < proof.len() ==> (#[trigger] proof[k]@).len() == 32
                },
                Err(e) => {
                    &&& leaf_index >= self.leaves.len()
                    &&& e == DecdsError::InvalidLeafNodeIndex(leaf_index, self.leaves.len())
                },
            },
    {
        if leaf_index >= self.leaves.len() {
            return Err(DecdsError::InvalidLeafNodeIndex(leaf_index, self.leaves.len()));
        }
        let mut proof: Vec<Vec<u8>> = Vec::new();
        let mut zero_hash: Vec<u8> = zero_digest();
        let mut current: Vec<Vec<u8>> = clone_digests(&self.leaves);
        let mut idx: usize = leaf_index;
        proof {
            assert(views_of(current@) =~= views_of(self.leaves@));
            assert(views_of(proof@) =~= Seq::<Seq<u8>>::empty());
        }
        while current.len() > 1
            invariant
                current.len() >= 1,
                idx < current.len(),
                forall|i: int| 0 <= i < current.len() ==> (#[trigger] current[i]@).len() == 32,
                forall|k: int| 0 <= k < proof.len() ==> (#[trigger] proof[k]@).len() == 32,
                zero_hash@.len() == 32,
                views_of(proof@) + merkle_proof_from(views_of(current@), idx as int, zero_hash@)
                    =~= merkle_proof_from(
                    views_of(self.leaves@),
                    leaf_index as int,
                    zero_digest0(),
                ),
            decreases current.len(),
        {
            let ghost prev = views_of(current@);
            let ghost pzero = zero_hash@;
            let ghost oidx = idx as int;
            let ghost oproof = views_of(proof@);
            let sibling: Vec<u8> = if idx % 2 == 0 {
                if idx + 1 < current.len() {
                    clone_digest(&current[idx + 1])
                } else {
                    clone_digest(&zero_hash)
                }
            } else {
                clone_digest(&current[idx - 1])
            };
            proof {
                assert(sibling@ == sibling_at(prev, oidx, pzero));
            }
            proof.push(sibling);
            let parent_level = build_parent_level(&current, &zero_hash);
            zero_hash = parent_digest(&zero_hash, &zero_hash);
            current = parent_level;
            idx = idx / 2;
            proof {
                assert(views_of(proof@) =~= oproof.push(sibling_at(prev, oidx, pzero)));
                assert(merkle_proof_from(prev, oidx, pzero) == seq![
                    sibling_at(prev, oidx, pzero),
                ] + merkle_proof_from(views_of(current@), oidx / 2, zero_hash@));
                assert(idx as int == oidx / 2);
                assert(idx < current.len());
                assert(views_of(proof@) + merkle_proof_from(views_of(current@), idx as int, zero_hash@)
                    =~= oproof + merkle_proof_from(prev, oidx, pzero));
            }
        }
        proof {
            assert(merkle_proof_from(views_of(current@), idx as int, zero_hash@)
                =~= Seq::<Seq<u8>>::empty());
            assert(views_of(proof@) =~= merkle_proof_from(
                views_of(self.leaves@),
                leaf_index as int,
                zero_digest0(),
            ));
        }
        Ok(proof)
    }

    /// Verifies an inclusion proof: folds it bottom-up from the leaf and
    /// compares the result with `root_hash`. Never fails; returns false on
    /// any mismatch.
    pub fn verify_proof(
        leaf_index: u64,
        leaf_node: &Vec<u8>,
        proof: &Vec<Vec<u8>>,
        root_hash: &Vec<u8>,
    ) -> (r: bool)
        ensures
            r == proof_verifies(leaf_index as int, leaf_node@, views_of(proof@), root_hash@),
    {
        let mut cur: Vec<u8> = clone_digest(leaf_node);
        let mut idx: u64 = leaf_index;
        let mut k: usize = 0;
        proof {
            assert(views_of(proof@).skip(0) =~= views_of(proof@));
        }
        while k < proof.len()
            invariant
                k <= proof.len(),
                proof_fold(leaf_index as int, leaf_node@, views_of(proof@)) == proof_fold(
                    idx as int,
                    cur@,
                    views_of(proof@).skip(k as int),
                ),
            decreases proof.len() - k,
        {
            let ghost before = views_of(proof@).skip(k as int);
            let sib = &proof[k];
            proof {
                assert(before[0] == sib@);
                assert(before.subrange(1, before.len() as int) =~= views_of(proof@).skip(
                    k as int + 1,
                ));
            }
            cur = if idx % 2 == 0 {
                parent_digest(&cur, sib)
            } else {
                parent_digest(sib, &cur)
            };
            idx = idx / 2;
            k = k + 1;
        }
        proof {
            assert(views_of(proof@).skip(proof.len() as int) =~= Seq::<Seq<u8>>::empty());
        }
        eq_digest(&cur, root_hash)
    }
}

/// A fresh 32-byte zero digest.
pub(crate) fn zero_digest() -> (r: Vec<u8>)
    ensures
        r@ == zero_digest0(),
{
    let mut r: Vec<u8> = Vec::new();
    let mut i: usize = 0;
    while i < 32
        invariant
            i <= 32,
            r@.len() == i,
            forall|j: int| 0 <= j < i ==> r@[j] == 0u8,
        decreases 32 - i,
    {
        r.push(0u8);
        i = i + 1;
    }
    proof {
        assert(r@ =~= zero_digest0());
    }
    r
}

/// The digest of a parent node, from its two children.
pub(crate) fn parent_digest(l: &Vec<u8>, r: &Vec<u8>) -> (res: Vec<u8>)
    ensures
        res@ == node_hash(l@, r@),
        res@.len() == 32,
{
    let buf = concat_bytes(l, r);
    blake3_digest(&buf)
}

/// Copies a list of digests, preserving each byte string.
pub(crate) fn clone_digests(v: &Vec<Vec<u8>>) -> (r: Vec<Vec<u8>>)
    ensures
        r.len() == v.len(),
        forall|i: int| 0 <= i < v.len() ==> (#[trigger] r[i]@) == v[i]@,
{
    let mut r: Vec<Vec<u8>> = Vec::new();
    let mut i: usize = 0;
    while i < v.len()
        invariant
            i <= v.len(),
            r.len() == i,
            forall|j: int| 0 <= j < i ==> (#[trigger] r[j]@) == v[j]@,
        decreases v.len() - i,
    {
        r.push(clone_digest(&v[i]));
        i = i + 1;
    }
    r
}

/// Byte-for-byte comparison of two digests.
pub(crate) fn eq_digest(a: &Vec<u8>, b: &Vec<u8>) -> (r: bool)
    ensures
        r == (a@ == b@),
{
    if a.len() != b.len() {
        proof {
            assert(a@ != b@);
        }
        return false;
    }
    let mut i: usize = 0;
    while i < a.len()
        invariant
            i <= a.len(),
            a@.len() == b@.len(),
            forall|j: int| 0 <= j < i ==> a@[j] == b@[j],
        decreases a.len() - i,
    {
        if a[i] != b[i] {
            proof {
                assert(a@ != b@);
            }
            return false;
        }
        i = i + 1;
    }
    proof {
        assert(a@ =~= b@);
    }
    true
}

/// Byte-for-byte comparison of two lists of digests.
pub(crate) fn eq_digest_list(a: &Vec<Vec<u8>>, b: &Vec<Vec<u8>>) -> (r: bool)
    ensures
        r == (views_of(a@) == views_of(b@)),
{
    if a.len() != b.len() {
        proof {
            assert(views_of(a@).len() != views_of(b@).len());
        }
        return false;
    }
    let mut i: usize = 0;
    while i < a.len()
        invariant
            i <= a.len(),
            a@.len() == b@.len(),
            forall|j: int| 0 <= j < i ==> views_of(a@)[j] == views_of(b@)[j],
        decreases a.len() - i,
    {
        if !eq_digest(&a[i], &b[i]) {
            proof {
                assert(views_of(a@)[i as int] != views_of(b@)[i as int]);
            }
            return false;
        }
        i = i + 1;
    }
    proof {
        assert(views_of(a@) =~= views_of(b@));
    }
    true
}

/// Builds the next level up from `current`, pairing a lone right-most node
/// with `zero`.
pub(crate) fn build_parent_level(current: &Vec<Vec<u8>>, zero: &Vec<u8>) -> (p: Vec<Vec<u8>>)
    requires
        forall|i: int| 0 <= i < current.len() ==> (#[trigger] current[i]@).len() == 32,
        zero@.len() == 32,
    ensures
        views_of(p@) == level_up(views_of(current@), zero@),
        p.len() == (current.len() + 1) / 2,
        forall|i: int| 0 <= i < p.len() ==> (#[trigger] p[i]@).len() == 32,
{
    let n = current.len();
    let m = n / 2 + n % 2;
    let mut p: Vec<Vec<u8>> = Vec::new();
    let mut j: usize = 0;
    while j < m
        invariant
            j <= m,
            n == current.len(),
            m == n / 2 + n % 2,
            forall|i: int| 0 <= i < current.len() ==> (#[trigger] current[i]@).len() == 32,
            zero@.len() == 32,
            p.len() == j,
            forall|i: int| 0 <= i < j ==> (#[trigger] p[i]@) == level_up(
                views_of(current@),
                zero@,
            )[i],
            forall|i: int| 0 <= i < j ==> (#[trigger] p[i]@).len() == 32,
        decreases m - j,
    {
        proof {
            assert(2 * j < n);
        }
        let left = &current[2 * j];
        let node: Vec<u8> = if 2 * j + 1 < n {
            parent_digest(left, &current[2 * j + 1])
        } else {
            parent_digest(left, zero)
        };
        proof {
            assert(node@ == level_up(views_of(current@), zero@)[j as int]);
        }
        p.push(node);
        j = j + 1;
    }
    proof {
        assert(views_of(p@) =~= level_up(views_of(current@), zero@));
    }
    p
}

} // verus!

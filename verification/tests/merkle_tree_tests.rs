use decds::errors::DecdsError;
use decds::merkle_tree::MerkleTree;
use rand::Rng;

fn generate_random_leaf_hashes<R: Rng + ?Sized>(leaf_count: usize, rng: &mut R) -> Vec<Vec<u8>> {
    let mut leaf_nodes = Vec::with_capacity(leaf_count);

    (0..leaf_count).for_each(|_| {
        let random_input = (0..32).map(|_| rng.random()).collect::<Vec<u8>>();
        leaf_nodes.push(blake3::hash(&random_input).as_bytes().to_vec());
    });

    leaf_nodes
}

/// Flips bit at index `bit_idx`, returning resulting byte.
/// Caller must ensure that `bit_idx <= 7`.
pub fn flip_a_bit(byte: u8, bit_idx: usize) -> u8 {
    byte ^ (1u8 << bit_idx)
}

fn flip_a_single_bit_in_merkle_proof<R: Rng + ?Sized>(
    mut proof: Vec<Vec<u8>>,
    rng: &mut R,
) -> Vec<Vec<u8>> {
    if proof.is_empty() {
        return proof;
    }

    let random_node_index = rng.random_range(0..proof.len());
    let random_byte_index = rng.random_range(0..32);
    let random_bit_index = rng.random_range(0..u8::BITS) as usize;

    proof[random_node_index][random_byte_index] =
        flip_a_bit(proof[random_node_index][random_byte_index], random_bit_index);
    proof
}

#[test]
fn prop_test_merkle_tree_operations() {
    const NUM_TEST_ITERAATIONS: usize = 10;

    const MIN_LEAF_NODE_COUNT: usize = 1;
    const MAX_LEAF_NODE_COUNT: usize = 1_000;

    let mut rng = rand::rng();

    (0..NUM_TEST_ITERAATIONS).for_each(|_| {
        let leaf_count = rng.random_range(MIN_LEAF_NODE_COUNT..=MAX_LEAF_NODE_COUNT);
        let leaf_nodes = generate_random_leaf_hashes(leaf_count, &mut rng);

        let merkle_tree = MerkleTree::new(leaf_nodes.clone()).expect("Must be able to build Merkle Tree");
        let root_hash = merkle_tree.get_root_commitment();

        leaf_nodes.iter().enumerate().for_each(|(leaf_index, leaf_node)| {
            let mut merkle_proof = merkle_tree
                .generate_proof(leaf_index)
                .expect("Must be able to generate Merkle Proof");

            let is_valid =
                MerkleTree::verify_proof(leaf_index as u64, leaf_node, &merkle_proof, &root_hash);
            assert!(is_valid);

            merkle_proof = flip_a_single_bit_in_merkle_proof(merkle_proof, &mut rng);

            let is_valid =
                MerkleTree::verify_proof(leaf_index as u64, leaf_node, &merkle_proof, &root_hash);
            assert!(!is_valid);
        });
    });
}

#[test]
fn test_new_with_empty_leaf_nodes() {
    let leaf_nodes: Vec<Vec<u8>> = Vec::new();
    assert!(MerkleTree::new(leaf_nodes).is_err());
}

#[test]
fn test_new_with_single_leaf_node() {
    let leaf_nodes = vec![blake3::hash(b"hello").as_bytes().to_vec()];
    let merkle_tree = MerkleTree::new(leaf_nodes.clone()).expect("Must be able to build Merkle Tree");
    assert_eq!(merkle_tree.get_root_commitment(), leaf_nodes[0]);
}

#[test]
fn test_new_with_two_leaf_nodes() {
    let leaf1 = blake3::hash(b"hello").as_bytes().to_vec();
    let leaf2 = blake3::hash(b"world").as_bytes().to_vec();
    let leaf_nodes = vec![leaf1.clone(), leaf2.clone()];

    let merkle_tree = MerkleTree::new(leaf_nodes).expect("Must be able to build Merkle Tree");
    let expected_root = blake3::Hasher::new()
        .update(&leaf1)
        .update(&leaf2)
        .finalize()
        .as_bytes()
        .to_vec();

    assert_eq!(merkle_tree.get_root_commitment(), expected_root);
}

#[test]
fn test_generate_proof_out_of_bounds() {
    let num_leaves = 5;
    let leaf_nodes = generate_random_leaf_hashes(num_leaves, &mut rand::rng());
    let merkle_tree = MerkleTree::new(leaf_nodes).expect("Must be able to build Merkle Tree");

    assert_eq!(
        merkle_tree.generate_proof(5),
        Err(DecdsError::InvalidLeafNodeIndex(5, num_leaves))
    );
    assert_eq!(
        merkle_tree.generate_proof(100),
        Err(DecdsError::InvalidLeafNodeIndex(100, num_leaves))
    );
}

#[test]
fn test_generate_proof_single_leaf_node() {
    let leaf_node = blake3::hash(b"single").as_bytes().to_vec();
    let leaf_nodes = vec![leaf_node];
    let merkle_tree = MerkleTree::new(leaf_nodes).expect("Must be able to build Merkle Tree");

    let proof = merkle_tree.generate_proof(0).expect("Proof generation failed");
    assert!(proof.is_empty());
}

#[test]
fn test_verify_proof_single_leaf_node() {
    let leaf_node = blake3::hash(b"single_leaf").as_bytes().to_vec();
    let leaf_nodes = vec![leaf_node.clone()];
    let merkle_tree = MerkleTree::new(leaf_nodes).expect("Must be able to build Merkle Tree");
    let root_hash = merkle_tree.get_root_commitment();

    let proof = merkle_tree.generate_proof(0).expect("Proof generation failed");
    assert!(proof.is_empty());

    let is_valid = MerkleTree::verify_proof(0, &leaf_node, &proof, &root_hash);
    assert!(is_valid);

    // Tamper with the leaf node
    let tampered_leaf = blake3::hash(b"tampered").as_bytes().to_vec();
    let is_valid_tampered = MerkleTree::verify_proof(0, &tampered_leaf, &proof, &root_hash);
    assert!(!is_valid_tampered);
}

#[test]
fn test_generate_and_verify_proof_for_two_leaf_nodes() {
    let leaf1 = blake3::hash(b"first").as_bytes().to_vec();
    let leaf2 = blake3::hash(b"second").as_bytes().to_vec();
    let leaf_nodes = vec![leaf1.clone(), leaf2.clone()];
    let merkle_tree = MerkleTree::new(leaf_nodes).expect("Must be able to build Merkle Tree");
    let root_hash = merkle_tree.get_root_commitment();

    // Test leaf1
    let proof1 = merkle_tree.generate_proof(0).expect("Proof for leaf1 failed");
    assert_eq!(proof1.len(), 1);
    assert_eq!(proof1[0], leaf2); // Sibling for leaf1 should be leaf2
    assert!(MerkleTree::verify_proof(0, &leaf1, &proof1, &root_hash));

    // Test leaf2
    let proof2 = merkle_tree.generate_proof(1).expect("Proof for leaf2 failed");
    assert_eq!(proof2.len(), 1);
    assert_eq!(proof2[0], leaf1); // Sibling for leaf2 should be leaf1
    assert!(MerkleTree::verify_proof(1, &leaf2, &proof2, &root_hash));

    // Negative test: Tamper proof1 and verify
    let tampered_proof1 = vec![blake3::hash(b"fake_sibling").as_bytes().to_vec()];
    assert!(!MerkleTree::verify_proof(0, &leaf1, &tampered_proof1, &root_hash));

    // Negative test: Tamper leaf1 and verify with correct proof
    let tampered_leaf1 = blake3::hash(b"tampered_first").as_bytes().to_vec();
    assert!(!MerkleTree::verify_proof(0, &tampered_leaf1, &proof1, &root_hash));
}

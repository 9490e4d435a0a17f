use decds::CHUNKSET_BYTE_LENGTH;
use decds::chunk::ProofCarryingChunk;
use decds::chunkset::{ChunkSet, RepairingChunkSet};
use decds::errors::DecdsError;
use decds::merkle_tree::MerkleTree;
use rand::Rng;
use rand::seq::SliceRandom;

const CHUNKSET_LEN: usize = CHUNKSET_BYTE_LENGTH as usize;

fn flip_a_bit(byte: u8, bit_idx: usize) -> u8 {
    byte ^ (1u8 << bit_idx)
}

fn flip_a_single_bit_in_proof_carrying_chunk<R: Rng + ?Sized>(
    mut chunk_bytes: Vec<u8>,
    rng: &mut R,
) -> Vec<u8> {
    if chunk_bytes.is_empty() {
        return chunk_bytes;
    }

    let random_byte_index = rng.random_range(0..chunk_bytes.len());
    let random_bit_index = rng.random_range(0..u8::BITS) as usize;

    chunk_bytes[random_byte_index] = flip_a_bit(chunk_bytes[random_byte_index], random_bit_index);
    chunk_bytes
}

#[test]
fn prop_test_erasure_coding_chunks_and_validating_proofs_work() {
    const NUM_TEST_ITERATIONS: usize = 4;
    let mut rng = rand::rng();

    (0..NUM_TEST_ITERATIONS).for_each(|_| {
        let data = (0..CHUNKSET_LEN).map(|_| rng.random()).collect::<Vec<u8>>();
        let chunkset = ChunkSet::new(0, data).expect("Must be able to build erasure-coded ChunkSet");

        for i in 0..16 {
            let chunk = chunkset.get_chunk(i).expect("Must be able to lookup chunk by id");
            assert!(chunk.validate_inclusion_in_chunkset(&chunkset.get_root_commitment()));

            let chunk_bytes = chunk.to_bytes().expect("Must be able to serialize proof-carrying chunk as bytes");
            let bit_flipped_chunk_bytes = flip_a_single_bit_in_proof_carrying_chunk(chunk_bytes, &mut rng);

            match ProofCarryingChunk::from_bytes(&bit_flipped_chunk_bytes) {
                Ok((bit_flipped_chunk, _)) => assert!(
                    !bit_flipped_chunk.validate_inclusion_in_chunkset(&chunkset.get_root_commitment())
                ),
                Err(e) => assert!(e.message().starts_with("failed to deserialize proof carrying chunk: ")),
            }
        }
    });
}

#[test]
fn prop_test_repairing_erasure_coded_chunks_work() {
    const NUM_TEST_ITERATIONS: usize = 3;
    let mut rng = rand::rng();

    (0..NUM_TEST_ITERATIONS).for_each(|_| {
        let data = (0..CHUNKSET_LEN).map(|_| rng.random()).collect::<Vec<u8>>();
        let data_copy = data.clone();

        let chunkset = ChunkSet::new(0, data).expect("Must be able to build erasure-coded ChunkSet");
        let mut repairing_chunkset = RepairingChunkSet::new(0, chunkset.get_root_commitment());

        let mut chunks = (0..16)
            .map(|i| chunkset.get_chunk(i).expect("Must be able to lookup chunk by id"))
            .collect::<Vec<&ProofCarryingChunk>>();
        chunks.shuffle(&mut rng);

        let mut chunk_idx = 0;
        while !repairing_chunkset.is_ready_to_repair() {
            match repairing_chunkset.add_chunk(chunks[chunk_idx]) {
                Ok(()) => {}
                // a linearly dependent coded piece may legally be skipped
                Err(DecdsError::ChunkDecodingFailed(_, _)) => {}
                Err(e) => panic!("unexpected error: {:?}", e),
            }
            chunk_idx += 1;
        }

        let repaired_data = repairing_chunkset.repair().expect("Data must be reconstructed by this point!");
        assert_eq!(data_copy, repaired_data);
    });
}

#[test]
fn test_chunkset_new_invalid_size() {
    let data_too_small = vec![0u8; CHUNKSET_LEN - 1];
    let data_too_large = vec![0u8; CHUNKSET_LEN + 1];

    assert_eq!(
        ChunkSet::new(0, data_too_small),
        Err(DecdsError::InvalidChunksetSize(CHUNKSET_LEN - 1))
    );
    assert_eq!(
        ChunkSet::new(0, data_too_large),
        Err(DecdsError::InvalidChunksetSize(CHUNKSET_LEN + 1))
    );
}

#[test]
fn test_chunkset_get_chunk_out_of_bounds() {
    let mut rng = rand::rng();

    let data = (0..CHUNKSET_LEN).map(|_| rng.random()).collect::<Vec<u8>>();
    let chunkset = ChunkSet::new(0, data).expect("Must be able to build erasure-coded ChunkSet");

    assert_eq!(
        chunkset.get_chunk(16).unwrap_err(),
        DecdsError::InvalidErasureCodedShareId(16)
    );
    assert_eq!(
        chunkset.get_chunk(16 + 100).unwrap_err(),
        DecdsError::InvalidErasureCodedShareId(16 + 100)
    );
}

#[test]
fn test_chunkset_append_blob_inclusion_proof_unit() {
    let mut rng = rand::rng();

    // 1. Create a base ChunkSet
    let data_for_chunkset = (0..CHUNKSET_LEN).map(|_| rng.random()).collect::<Vec<u8>>();
    let mut chunkset_1 =
        ChunkSet::new(1, data_for_chunkset.clone()).expect("Must be able to build erasure-coded ChunkSet");
    let chunkset_1_commitment = chunkset_1.get_root_commitment();

    // 2. Create mock blob-level Merkle tree leaves (chunkset roots)
    // This mock tree will have chunkset_1_commitment at index 1
    let mock_blob_leaves = vec![
        blake3::hash(b"dummy_chunkset_root_0").as_bytes().to_vec(), // Leaf 0
        chunkset_1_commitment,                                      // Leaf 1 (our chunkset_1's commitment)
        blake3::hash(b"dummy_chunkset_root_2").as_bytes().to_vec(), // Leaf 2
        blake3::hash(b"dummy_chunkset_root_3").as_bytes().to_vec(), // Leaf 3
    ];

    // 3. Build a mock blob MerkleTree
    let mock_blob_merkle_tree =
        MerkleTree::new(mock_blob_leaves).expect("Must be able to build mock blob Merkle Tree");
    let mock_blob_root_commitment = mock_blob_merkle_tree.get_root_commitment();

    // 4. Generate the blob_proof for chunkset_1_commitment at its index (1)
    let blob_proof_for_chunkset_1 =
        mock_blob_merkle_tree.generate_proof(1).expect("Must be able to generate blob proof");

    // Take a chunk for validation BEFORE appending the blob proof
    let chunk_before_append = chunkset_1.get_chunk(0).unwrap().clone();
    // It should NOT validate against the blob root commitment yet because it doesn't have the blob proof
    assert!(!chunk_before_append.validate_inclusion_in_blob(&mock_blob_root_commitment));

    // 5. Call the method under test: append_blob_inclusion_proof
    chunkset_1.append_blob_inclusion_proof(&blob_proof_for_chunkset_1);

    // 6. Verify the outcome using a chunk from the modified chunkset
    let chunk_after_append = chunkset_1.get_chunk(0).unwrap();

    // 7. Assert that validate_inclusion_in_blob now returns true
    assert!(chunk_after_append.validate_inclusion_in_blob(&mock_blob_root_commitment));

    // Test with an empty blob_proof (should not change anything, i.e., validation still works)
    chunkset_1.append_blob_inclusion_proof(&Vec::new());
    let chunk_after_empty_append = chunkset_1.get_chunk(0).unwrap();
    assert!(chunk_after_empty_append.validate_inclusion_in_blob(&mock_blob_root_commitment));

    // Negative test: Tamper the proof and verify it fails
    let mut tampered_blob_proof = blob_proof_for_chunkset_1.clone();
    if !tampered_blob_proof.is_empty() {
        // Flip a bit in the first hash of the proof to tamper it
        let random_byte_index = rng.random_range(0..32);
        let random_bit_index = rng.random_range(0..u8::BITS) as usize;

        tampered_blob_proof[0][random_byte_index] =
            flip_a_bit(tampered_blob_proof[0][random_byte_index], random_bit_index);
    }

    let mut chunkset_1 =
        ChunkSet::new(1, data_for_chunkset).expect("Must be able to build erasure-coded ChunkSet");
    chunkset_1.append_blob_inclusion_proof(&tampered_blob_proof);

    let tampered_chunk = chunkset_1.get_chunk(0).unwrap();
    assert!(!tampered_chunk.validate_inclusion_in_blob(&mock_blob_root_commitment));
}

#[test]
fn test_repairing_chunkset_new() {
    let mut rng = rand::rng();

    let data = (0..CHUNKSET_LEN).map(|_| rng.random()).collect::<Vec<u8>>();
    let chunkset = ChunkSet::new(0, data).expect("Must be able to build erasure-coded ChunkSet");
    let commitment = chunkset.get_root_commitment();
    let chunkset_id = 0;

    let repairing_chunkset = RepairingChunkSet::new(chunkset_id, commitment.clone());

    assert_eq!(repairing_chunkset.chunkset_id, chunkset_id);
    assert_eq!(repairing_chunkset.commitment, commitment);
    assert!(!repairing_chunkset.is_ready_to_repair());
}

#[test]
fn test_repairing_chunkset_add_chunk_invalid_proof_in_chunk() {
    let mut rng = rand::rng();

    let data = (0..CHUNKSET_LEN).map(|_| rng.random()).collect::<Vec<u8>>();
    let chunkset = ChunkSet::new(0, data).expect("Must be able to build erasure-coded ChunkSet");

    // Create a repairing chunkset with a *different* commitment
    let tampered_commitment = blake3::hash(b"tampered_commitment").as_bytes().to_vec();
    let mut repairing_chunkset = RepairingChunkSet::new(0, tampered_commitment);

    // Get a valid chunk from the original chunkset
    let valid_chunk = chunkset.get_chunk(0).unwrap();

    // Adding this valid chunk to a repairing_chunkset with a tampered commitment should fail
    assert_eq!(
        repairing_chunkset.add_chunk(valid_chunk).unwrap_err(),
        DecdsError::InvalidProofInChunk(valid_chunk.get_chunkset_id())
    );
}

#[test]
fn test_repairing_chunkset_add_chunk_unvalidated_invalid_chunk_metadata() {
    let mut rng = rand::rng();

    let data = (0..CHUNKSET_LEN).map(|_| rng.random()).collect::<Vec<u8>>();
    let chunkset = ChunkSet::new(0, data).expect("Must be able to build erasure-coded ChunkSet");

    let chunk_from_chunkset_0 = chunkset.get_chunk(0).unwrap();

    // Create a repairing chunkset for a different ID (e.g., ID 1 instead of 0)
    let mut repairing_chunkset = RepairingChunkSet::new(1, chunkset.get_root_commitment());

    // Attempt to add a chunk that belongs to chunkset_id 0 to a repairing_chunkset for chunkset_id 1
    assert_eq!(
        repairing_chunkset.add_chunk_unvalidated(chunk_from_chunkset_0).unwrap_err(),
        DecdsError::InvalidChunkMetadata(chunk_from_chunkset_0.get_chunkset_id())
    );
}

#[test]
fn test_repairing_chunkset_repair_when_not_ready() {
    let mut rng = rand::rng();

    let data = (0..CHUNKSET_LEN).map(|_| rng.random()).collect::<Vec<u8>>();
    let chunkset = ChunkSet::new(0, data).expect("Must be able to build erasure-coded ChunkSet");
    let mut repairing_chunkset = RepairingChunkSet::new(0, chunkset.get_root_commitment());

    // Add fewer than the ten required chunks
    for i in 0..9 {
        repairing_chunkset.add_chunk(chunkset.get_chunk(i).unwrap()).unwrap();
    }

    assert!(!repairing_chunkset.is_ready_to_repair());
    assert_eq!(
        repairing_chunkset.repair().unwrap_err(),
        DecdsError::ChunksetNotYetReadyToRepair(0)
    );
}

#[test]
fn test_repairing_chunkset_add_chunk_after_ready_to_repair() {
    let mut rng = rand::rng();

    let data = (0..CHUNKSET_LEN).map(|_| rng.random()).collect::<Vec<u8>>();
    let chunkset = ChunkSet::new(0, data.clone()).expect("Must be able to build erasure-coded ChunkSet");
    let mut repairing_chunkset = RepairingChunkSet::new(0, chunkset.get_root_commitment());

    let mut chunk_idx = 0;
    while !repairing_chunkset.is_ready_to_repair() {
        let chunk = chunkset.get_chunk(chunk_idx).expect("Must be able to lookup chunk by id");
        match repairing_chunkset.add_chunk(chunk) {
            Ok(()) => {}
            // a linearly dependent coded piece may legally be skipped
            Err(DecdsError::ChunkDecodingFailed(_, _)) => {}
            Err(e) => panic!("unexpected error: {:?}", e),
        }

        chunk_idx += 1;
    }

    while chunk_idx < 16 {
        let chunk = chunkset.get_chunk(chunk_idx).expect("Must be able to lookup chunk by id");
        assert_eq!(
            repairing_chunkset.add_chunk(chunk).unwrap_err(),
            DecdsError::ChunksetReadyToRepair(0)
        );

        chunk_idx += 1;
    }

    let repaired_chunkset = repairing_chunkset.repair().expect("Must be able to repair chunkset");
    assert_eq!(repaired_chunkset, data);
}

use decds::chunk::{Chunk, ProofCarryingChunk};
use rand::Rng;

#[test]
fn test_chunk_digest() {
    let chunkset_id: u64 = 1;
    let chunk_id: u64 = 5;
    let erasure_coded_data = vec![1, 2, 3, 4, 5];

    let chunk = Chunk::new(chunkset_id, chunk_id, erasure_coded_data.clone());
    let computed_digest = chunk.digest();

    // Manually compute the expected digest
    let expected_digest = blake3::Hasher::new()
        .update(&chunkset_id.to_le_bytes())
        .update(&chunk_id.to_le_bytes())
        .update(&erasure_coded_data)
        .finalize()
        .as_bytes()
        .to_vec();

    assert_eq!(computed_digest, expected_digest);

    // Test with different data to ensure digest changes
    let chunk2 = Chunk::new(chunkset_id, chunk_id, vec![6, 7, 8]);
    assert_ne!(chunk2.digest(), expected_digest);
}

#[test]
fn test_proof_carrying_chunk_serialization_deserialization() {
    let mut rng = rand::rng();

    let chunkset_id: u64 = 0;
    let chunk_id: u64 = 5;
    let erasure_coded_data: Vec<u8> = (0..(1usize << 20)).map(|_| rng.random()).collect();

    // Generate a proof with a length consistent with the chunkset proof size
    let proof_data = (0..4)
        .map(|_| {
            let random_bytes: [u8; 32] = rng.random();
            random_bytes.to_vec()
        })
        .collect::<Vec<Vec<u8>>>();

    let original_chunk = Chunk::new(chunkset_id, chunk_id, erasure_coded_data);
    let original_pcc = ProofCarryingChunk::new(original_chunk, proof_data);

    // Test serialization
    let serialized_pcc_bytes = original_pcc.to_bytes().expect("Serialization failed");

    // Test deserialization
    let (deserialized_pcc, bytes_read) =
        ProofCarryingChunk::from_bytes(&serialized_pcc_bytes).expect("Deserialization failed");

    assert_eq!(original_pcc, deserialized_pcc);
    assert_eq!(serialized_pcc_bytes.len(), bytes_read);

    // Test deserialization with lesser bytes
    let half = serialized_pcc_bytes[..(serialized_pcc_bytes.len() / 2)].to_vec();
    assert!(ProofCarryingChunk::from_bytes(&half).is_err());
}

#[test]
fn test_proof_carrying_chunk_wire_format_matches_reference_codec() {
    // The canonical encoding must be byte-identical to the reference
    // serializer's standard configuration applied to the same fields.
    let mut rng = rand::rng();
    let data: Vec<u8> = (0..3000).map(|_| rng.random()).collect();
    let proof: Vec<Vec<u8>> = (0..5)
        .map(|_| {
            let b: [u8; 32] = rng.random();
            b.to_vec()
        })
        .collect();

    for ids in [
        (0u64, 0u64),
        (5, 250),
        (251, 255),
        (256, 65535),
        (65536, 4294967295),
        (4294967296, u64::MAX),
    ] {
        let chunk = Chunk::new(ids.0, ids.1, data.clone());
        let pcc = ProofCarryingChunk::new(chunk, proof.clone());
        let ours = pcc.to_bytes().expect("Serialization failed");

        let proof_arrays: Vec<[u8; 32]> = proof
            .iter()
            .map(|h| {
                let a: [u8; 32] = h.as_slice().try_into().unwrap();
                a
            })
            .collect();
        let mirror = ((ids.0, ids.1, data.clone()), proof_arrays);
        let reference = bincode::serde::encode_to_vec(&mirror, bincode::config::standard())
            .expect("reference encoding failed");

        assert_eq!(ours, reference);

        // And the parse consumes exactly what the encoder produced.
        let (back, used) = ProofCarryingChunk::from_bytes(&ours).expect("Deserialization failed");
        assert_eq!(used, ours.len());
        assert_eq!(back, pcc);
    }
}

#[test]
fn test_chunk_ids_and_payload_accessors() {
    let chunk = Chunk::new(3, 3 * 16 + 7, vec![9, 9, 9]);
    let pcc = ProofCarryingChunk::new(chunk, vec![vec![0u8; 32]; 4]);
    assert_eq!(pcc.get_chunkset_id(), 3);
    assert_eq!(pcc.get_global_chunk_id(), 55);
    assert_eq!(pcc.get_local_chunk_id(), 7);
    assert_eq!(pcc.get_erasure_coded_data().as_slice(), &[9, 9, 9]);
}

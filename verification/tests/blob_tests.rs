use decds::blob::{Blob, RepairingBlob};
use decds::chunk::ProofCarryingChunk;
use decds::errors::DecdsError;
use rand::Rng;
use rand::seq::SliceRandom;

#[test]
fn prop_test_blob_preparation_and_commitment_works() {
    const NUM_TEST_ITERATIONS: usize = 4;

    const MIN_BLOB_DATA_BYTE_LEN: usize = 1usize;
    const MAX_BLOB_DATA_BYTE_LEN: usize = 1usize << 22;

    let mut rng = rand::rng();

    (0..NUM_TEST_ITERATIONS).for_each(|_| {
        let blob_byte_len = rng.random_range(MIN_BLOB_DATA_BYTE_LEN..=MAX_BLOB_DATA_BYTE_LEN);
        let mut blob_data = vec![0u8; blob_byte_len];
        rng.fill(blob_data.as_mut_slice());

        let blob = Blob::new(blob_data).expect("Must be able to prepare blob");
        let blob_header = blob.get_blob_header();

        assert!(
            (0..16usize)
                .flat_map(|share_id| blob.get_share(share_id).expect("Must be able to get erasure coded shares"))
                .all(|share| blob_header.validate_chunk(&share))
        );
    });
}

#[test]
fn prop_test_blob_building_and_repairing_works() {
    const NUM_TEST_ITERATIONS: usize = 3;

    const MIN_BLOB_DATA_BYTE_LEN: usize = 1usize;
    const MAX_BLOB_DATA_BYTE_LEN: usize = 1usize << 22;

    let mut rng = rand::rng();

    (0..NUM_TEST_ITERATIONS).for_each(|_| {
        let blob_byte_len = rng.random_range(MIN_BLOB_DATA_BYTE_LEN..=MAX_BLOB_DATA_BYTE_LEN);
        let mut blob_data = vec![0u8; blob_byte_len];
        rng.fill(blob_data.as_mut_slice());

        let blob = Blob::new(blob_data.clone()).expect("Must be able to prepare blob");

        let blob_header = blob.get_blob_header().clone();
        let mut chunk_shares = (0..16usize)
            .flat_map(|share_id| blob.get_share(share_id).unwrap())
            .collect::<Vec<ProofCarryingChunk>>();
        chunk_shares.shuffle(&mut rng);

        let mut repairer = RepairingBlob::new(blob_header.clone());

        for share in chunk_shares.iter() {
            match repairer.add_chunk(share) {
                Ok(()) => { /* Found a useful chunk */ }
                Err(e) => match e {
                    DecdsError::ChunkDecodingFailed(id, _) => {
                        assert!(!repairer.is_chunkset_ready_to_repair(id).unwrap());
                        assert!(!repairer.is_chunkset_already_repaired(id).unwrap());
                    }
                    DecdsError::ChunksetReadyToRepair(id) => {
                        assert!(repairer.is_chunkset_ready_to_repair(id).unwrap());
                        assert!(!repairer.is_chunkset_already_repaired(id).unwrap());
                    }
                    _ => {
                        panic!("Didn't expect to encounter: {}", e.message())
                    }
                },
            }
        }

        let repaired_blob_data = (0..blob_header.get_num_chunksets())
            .flat_map(|chunkset_id| repairer.get_repaired_chunkset(chunkset_id).unwrap())
            .collect::<Vec<u8>>();

        assert_eq!(repaired_blob_data, blob_data);
    });
}

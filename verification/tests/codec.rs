//! The codec that the cache hands out.

use constellation_encoder::codec::ReedSolomon;
use constellation_encoder::fec::ReedSolomonCache;
use reed_solomon_erasure::Error;

fn codec() -> ReedSolomon {
    ReedSolomon::new(2, 2).expect("shape should be accepted")
}

fn encoded() -> Vec<Vec<u8>> {
    let mut shards = vec![vec![1, 2, 3], vec![9, 8, 7], vec![0; 3], vec![0xff; 3]];
    codec().encode(&mut shards).expect("encode should succeed");
    shards
}

#[test]
fn codec_knows_its_shape() {
    let codec = ReedSolomonCache::new().get(64, 192).expect("shape should be accepted");
    assert_eq!(codec.data_shard_count(), 64);
    assert_eq!(codec.parity_shard_count(), 192);
    assert_eq!(codec.total_shard_count(), 256);
}

#[test]
fn impossible_codecs_are_not_built() {
    assert_eq!(ReedSolomon::new(0, 1).err(), Some(Error::TooFewDataShards));
    assert_eq!(ReedSolomon::new(1, 0).err(), Some(Error::TooFewParityShards));
    assert_eq!(ReedSolomon::new(1, 256).err(), Some(Error::TooManyShards));
}

#[test]
fn encoding_leaves_data_and_overwrites_parity() {
    let shards = encoded();
    assert_eq!(shards[..2], [vec![1, 2, 3], vec![9, 8, 7]]);
    let outside = reed_solomon_erasure::galois_8::ReedSolomon::new(2, 2).expect("shape");
    assert!(outside.verify(&shards).expect("verify should run"));
    assert_ne!(shards[2], vec![0; 3]);
}

#[test]
fn encoding_refuses_misshapen_shards() {
    let cases: [(Vec<Vec<u8>>, Error); 5] = [
        (vec![vec![1]; 3], Error::TooFewShards),
        (vec![vec![1]; 5], Error::TooManyShards),
        (vec![vec![]; 4], Error::EmptyShard),
        (vec![vec![1], vec![1], vec![], vec![1]], Error::IncorrectShardSize),
        (vec![vec![], vec![1], vec![1], vec![1]], Error::EmptyShard),
    ];
    for (shards, error) in cases {
        let mut touched = shards.clone();
        assert_eq!(codec().encode(&mut touched), Err(error));
        assert_eq!(touched, shards);
    }
}

#[test]
fn reconstruction_fills_missing_data_only() {
    let shards = encoded();
    let mut buffers = vec![
        (vec![0; 3], false),
        (shards[1].clone(), true),
        (vec![5; 3], false),
        (shards[3].clone(), true),
    ];
    codec().reconstruct_data(&mut buffers).expect("reconstruction should succeed");
    assert_eq!(buffers[0], (shards[0].clone(), false));
    assert_eq!(buffers[1], (shards[1].clone(), true));
    assert_eq!(buffers[2], (vec![5; 3], false));
    assert_eq!(buffers[3], (shards[3].clone(), true));
}

#[test]
fn reconstruction_needs_no_room_for_missing_parity() {
    let shards = encoded();
    let mut buffers = vec![
        (vec![0; 3], false),
        (shards[1].clone(), true),
        (vec![], false),
        (shards[3].clone(), true),
    ];
    codec().reconstruct_data(&mut buffers).expect("reconstruction should succeed");
    assert_eq!(buffers[0].0, shards[0]);
}

#[test]
fn reconstruction_of_complete_buffers_changes_nothing() {
    let buffers: Vec<(Vec<u8>, bool)> =
        vec![(vec![1], true), (vec![2], true), (vec![3], true), (vec![4], true)];
    let mut touched = buffers.clone();
    assert_eq!(codec().reconstruct_data(&mut touched), Ok(()));
    assert_eq!(touched, buffers);
}

#[test]
fn reconstruction_refuses_misshapen_buffers() {
    let on = |len: usize| (vec![1u8; len], true);
    let off = |len: usize| (vec![1u8; len], false);
    let cases: [(Vec<(Vec<u8>, bool)>, Error); 8] = [
        (vec![on(1), on(1), on(1)], Error::TooFewShards),
        (vec![on(1), on(1), on(1), on(1), on(1)], Error::TooManyShards),
        (vec![on(0), on(1), on(1), off(1)], Error::EmptyShard),
        (vec![on(1), on(2), on(0), off(1)], Error::IncorrectShardSize),
        (vec![on(1), on(0), on(2), off(1)], Error::EmptyShard),
        (vec![on(1), on(1), on(1), on(2)], Error::IncorrectShardSize),
        (vec![on(1), off(2), off(1), off(1)], Error::TooFewShardsPresent),
        (vec![on(1), off(2), on(1), off(1)], Error::IncorrectShardSize),
    ];
    for (buffers, error) in cases {
        let mut touched = buffers.clone();
        assert_eq!(codec().reconstruct_data(&mut touched), Err(error));
        assert_eq!(touched, buffers);
    }
}

//! The codec cache.

use constellation_encoder::fec::ReedSolomonCache;
use reed_solomon_erasure::Error;
use std::sync::Arc;

#[test]
fn a_shape_is_built_once_and_shared() {
    let cache = ReedSolomonCache::new();
    let first = cache.get(64, 192).expect("shape should be accepted");
    let second = cache.get(64, 192).expect("shape should be accepted");
    assert!(Arc::ptr_eq(&first, &second));
}

#[test]
fn shapes_have_codecs_of_their_own() {
    let cache = ReedSolomonCache::default();
    let a = cache.get(3, 2).expect("shape should be accepted");
    let b = cache.get(2, 3).expect("shape should be accepted");
    assert!(!Arc::ptr_eq(&a, &b));
    let again = cache.get(3, 2).expect("shape should be accepted");
    assert!(Arc::ptr_eq(&a, &again));
}

#[test]
fn impossible_shapes_are_refused() {
    let cache = ReedSolomonCache::new();
    assert_eq!(cache.get(0, 192).err().map(|e| *e), Some(Error::TooFewDataShards));
    assert_eq!(cache.get(0, 0).err().map(|e| *e), Some(Error::TooFewDataShards));
    assert_eq!(cache.get(64, 0).err().map(|e| *e), Some(Error::TooFewParityShards));
    assert_eq!(cache.get(64, 193).err().map(|e| *e), Some(Error::TooManyShards));
    assert!(cache.get(1, 255).is_ok());
}

#[test]
fn a_refusal_is_cached_too() {
    let cache = ReedSolomonCache::new();
    let first = cache.get(200, 200).expect_err("shape should be refused");
    let second = cache.get(200, 200).expect_err("shape should be refused");
    assert!(Arc::ptr_eq(&first, &second));
}

#[test]
fn all_caches_answer_alike() {
    let caches = [ReedSolomonCache::new(), ReedSolomonCache::default()];
    for (data, parity) in [(64, 192), (2, 3), (0, 1), (1, 0), (255, 2)] {
        let answers: Vec<Result<(usize, usize), Error>> = caches
            .iter()
            .map(|cache| match cache.get(data, parity) {
                Ok(codec) => Ok((codec.data_shard_count(), codec.parity_shard_count())),
                Err(e) => Err(*e),
            })
            .collect();
        assert_eq!(answers[0], answers[1]);
    }
}

#[test]
fn other_shapes_do_not_displace_a_codec() {
    let cache = ReedSolomonCache::new();
    let first = cache.get(4, 4).expect("shape should be accepted");
    for parity in 1..50 {
        assert!(cache.get(3, parity).is_ok());
    }
    let again = cache.get(4, 4).expect("shape should be accepted");
    assert!(Arc::ptr_eq(&first, &again));
}

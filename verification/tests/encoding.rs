//! The layout of pshreds, and the decoder's answers to input that no encoder made.

use constellation_encoder::fec::count_present;
use constellation_encoder::framing::{
    join_data_shards, length_header, split_payload, HEADER_LEN,
};
use constellation_encoder::{
    ConstellationEncoder, DecodeError, EncodeError, DATA_PSHREDS, PARITY_PSHREDS, TOTAL_PSHREDS,
};
use reed_solomon_erasure::galois_8::ReedSolomon;
use reed_solomon_erasure::Error;
use std::sync::Arc;

fn all_present(shreds: Vec<Vec<u8>>) -> Vec<Option<Vec<u8>>> {
    shreds.into_iter().map(Some).collect()
}

#[test]
fn parameters_add_up() {
    assert_eq!(DATA_PSHREDS, 64);
    assert_eq!(PARITY_PSHREDS, 192);
    assert_eq!(DATA_PSHREDS + PARITY_PSHREDS, TOTAL_PSHREDS);
}

#[test]
fn data_shards_are_framed_and_padded() {
    // 130 bytes: chunks of 3, of which the 44th holds one byte and the rest none.
    let payload: Vec<u8> = (1..=130).collect();
    let shards = split_payload(&payload).expect("split should succeed");
    assert_eq!(shards.len(), DATA_PSHREDS);
    assert_eq!(shards[0], vec![0, 0, 0, 0, 0, 0, 0, 130, 1, 2, 3]);
    assert_eq!(shards[42], vec![0, 0, 0, 42, 0, 0, 0, 130, 127, 128, 129]);
    assert_eq!(shards[43], vec![0, 0, 0, 43, 0, 0, 0, 130, 130, 0, 0]);
    assert_eq!(shards[63], vec![0, 0, 0, 63, 0, 0, 0, 130, 0, 0, 0]);
    assert_eq!(join_data_shards(&shards).expect("join should succeed"), payload);
}

#[test]
fn length_header_is_big_endian() {
    let payload = vec![7u8; 0x0001_0203];
    let shards = split_payload(&payload).expect("split should succeed");
    assert_eq!(shards[5][..HEADER_LEN], [0, 0, 0, 5, 0, 1, 2, 3]);
    assert_eq!(shards[5].len(), HEADER_LEN + 1033);
}

#[test]
fn empty_payload_gives_bare_headers() {
    let pshreds = ConstellationEncoder::new().encode(&[]).expect("encode should succeed");
    assert_eq!(pshreds.len(), TOTAL_PSHREDS);
    assert!(pshreds.iter().all(|s| s.len() == HEADER_LEN));
    assert_eq!(pshreds[9], vec![0, 0, 0, 9, 0, 0, 0, 0]);
}

#[test]
fn encoding_starts_with_the_data_shards() {
    let payload: Vec<u8> = (0..1000).map(|i| (i * 7 % 256) as u8).collect();
    let shards = split_payload(&payload).expect("split should succeed");
    let pshreds = ConstellationEncoder::new().encode(&payload).expect("encode should succeed");
    assert_eq!(pshreds[..DATA_PSHREDS], shards[..]);
    assert!(pshreds.iter().all(|s| s.len() == HEADER_LEN + 16));
}

#[test]
fn parity_is_that_of_the_outside_codec() {
    let payload: Vec<u8> = (0..5000).map(|i| (i * i % 253) as u8).collect();
    let pshreds = ConstellationEncoder::new().encode(&payload).expect("encode should succeed");
    let mut shards = split_payload(&payload).expect("split should succeed");
    let len = shards[0].len();
    shards.resize(TOTAL_PSHREDS, vec![0xffu8; len]);
    let codec = ReedSolomon::new(DATA_PSHREDS, PARITY_PSHREDS).expect("codec should be built");
    codec.encode(&mut shards).expect("outside encode should succeed");
    assert_eq!(pshreds, shards);
    assert!(codec.verify(&pshreds).expect("verify should run"));
}

#[test]
fn parity_of_low_degree_columns_is_known() {
    // A column of data bytes is a polynomial given by its values at 0..64, and its
    // parity bytes are the values at 64..256. Constant columns stay constant, and
    // the column of the indices is the identity.
    let pshreds =
        ConstellationEncoder::new().encode(&[0x42u8; 128]).expect("encode should succeed");
    for (i, pshred) in pshreds.iter().enumerate() {
        assert_eq!(*pshred, vec![0, 0, 0, i as u8, 0, 0, 0, 128, 0x42, 0x42]);
    }
}

#[test]
fn different_payloads_encode_differently() {
    let encoder = ConstellationEncoder::new();
    let short = encoder.encode(&[0u8; 1]).expect("encode should succeed");
    let long = encoder.encode(&[0u8; 2]).expect("encode should succeed");
    assert_ne!(short, long);
}

#[test]
fn decoding_twice_gives_the_same_payload() {
    let encoder = ConstellationEncoder::default();
    let payload: Vec<u8> = (0..300).map(|i| (i % 256) as u8).collect();
    let mut shreds = all_present(encoder.encode(&payload).expect("encode should succeed"));
    for i in 0..PARITY_PSHREDS {
        shreds[i] = None;
    }
    assert_eq!(encoder.decode(&shreds).expect("decode should succeed"), payload);
    assert_eq!(encoder.decode(&shreds).expect("decode should succeed"), payload);
}

#[test]
fn wrong_shred_count_is_a_size_mismatch() {
    let encoder = ConstellationEncoder::new();
    let mut shreds = all_present(encoder.encode(b"abc").expect("encode should succeed"));
    shreds.pop();
    assert!(matches!(encoder.decode(&shreds), Err(DecodeError::ShardSizeMismatch)));
    assert!(matches!(encoder.decode(&[]), Err(DecodeError::ShardSizeMismatch)));
}

#[test]
fn missing_shreds_are_reported_before_their_sizes() {
    let mut shreds: Vec<Option<Vec<u8>>> = vec![None; TOTAL_PSHREDS];
    shreds[3] = Some(vec![1]);
    shreds[200] = Some(vec![1, 2]);
    assert_eq!(count_present(&shreds), 2);
    match ConstellationEncoder::new().decode(&shreds) {
        Err(DecodeError::InsufficientShreds { have: 2, need: 64 }) => {}
        other => panic!("expected InsufficientShreds, got {other:?}"),
    }
}

#[test]
fn unequal_shred_lengths_are_a_size_mismatch() {
    let encoder = ConstellationEncoder::new();
    let mut shreds = all_present(encoder.encode(b"abc").expect("encode should succeed"));
    shreds[255] = Some(vec![0; 10]);
    assert!(matches!(encoder.decode(&shreds), Err(DecodeError::ShardSizeMismatch)));
}

#[test]
fn shreds_shorter_than_a_header_are_a_size_mismatch() {
    for len in [0, 1, HEADER_LEN - 1] {
        let shreds: Vec<Option<Vec<u8>>> = vec![Some(vec![0; len]); TOTAL_PSHREDS];
        let decoded = ConstellationEncoder::new().decode(&shreds);
        assert!(matches!(decoded, Err(DecodeError::ShardSizeMismatch)));
    }
}

#[test]
fn disagreeing_length_headers_are_corrupt() {
    let encoder = ConstellationEncoder::new();
    let mut shreds = all_present(encoder.encode(b"abc").expect("encode should succeed"));
    if let Some(shred) = &mut shreds[17] {
        shred[7] = 4;
    }
    assert!(matches!(encoder.decode(&shreds), Err(DecodeError::Corrupt)));
}

#[test]
fn surplus_shreds_are_not_looked_into() {
    let encoder = ConstellationEncoder::new();
    let mut shreds = all_present(encoder.encode(b"abc").expect("encode should succeed"));
    shreds[64] = Some(vec![0xee; HEADER_LEN + 1]);
    assert_eq!(encoder.decode(&shreds).expect("decode should succeed"), b"abc");
    shreds[70] = None;
    assert_eq!(encoder.decode(&shreds).expect("decode should succeed"), b"abc");
}

#[test]
fn length_header_beyond_the_bodies_cuts_nothing() {
    let shards = vec![vec![0, 0, 0, 0, 0, 0, 1, 0, 10, 11], vec![0, 0, 0, 1, 0, 0, 1, 0, 12, 13]];
    assert_eq!(join_data_shards(&shards).expect("join should succeed"), vec![10, 11, 12, 13]);
}

#[test]
fn joining_nothing_is_corrupt() {
    assert!(matches!(join_data_shards(&[]), Err(DecodeError::Corrupt)));
    let shards = vec![vec![0, 0, 0, 0, 0, 0, 0, 1], vec![0, 0, 0, 0, 0, 0, 0, 2]];
    assert!(matches!(join_data_shards(&shards), Err(DecodeError::Corrupt)));
}

#[test]
fn length_beyond_the_header_is_too_large() {
    assert!(matches!(length_header(0), Ok(0)));
    assert!(matches!(length_header(u32::MAX as usize), Ok(u32::MAX)));
    assert!(matches!(length_header(u32::MAX as usize + 1), Err(EncodeError::PayloadTooLarge)));
}

#[test]
fn encoder_is_shareable_between_threads() {
    fn shareable<T: Send + Sync>(_: &T) {}
    shareable(&ConstellationEncoder::new());
}

#[test]
fn error_messages() {
    assert_eq!(
        EncodeError::PayloadTooLarge.message(),
        "payload exceeds maximum encodable size"
    );
    let e = Arc::new(Error::EmptyShard);
    assert_eq!(
        EncodeError::RsError(e.clone()).message(),
        "reed-solomon encode error: EmptyShard"
    );
    assert_eq!(
        DecodeError::RsError(e.clone()).message(),
        "reed-solomon decode error: EmptyShard"
    );
    assert_eq!(
        DecodeError::InsufficientShreds { have: 63, need: 64 }.message(),
        "insufficient shreds to reconstruct: have 63, need 64"
    );
    assert_eq!(
        DecodeError::InsufficientShreds { have: 0, need: usize::MAX }.message(),
        format!("insufficient shreds to reconstruct: have 0, need {}", usize::MAX)
    );
    assert_eq!(DecodeError::ShardSizeMismatch.message(), "shred size mismatch");
    assert_eq!(DecodeError::Corrupt.message(), "reconstructed data is internally inconsistent");
}

#[test]
fn codec_errors_are_named_as_debug_names_them() {
    for e in [
        Error::TooFewShards,
        Error::TooManyShards,
        Error::TooFewDataShards,
        Error::TooManyDataShards,
        Error::TooFewParityShards,
        Error::TooManyParityShards,
        Error::TooFewBufferShards,
        Error::TooManyBufferShards,
        Error::IncorrectShardSize,
        Error::TooFewShardsPresent,
        Error::EmptyShard,
        Error::InvalidShardFlags,
        Error::InvalidIndex,
    ] {
        let message = DecodeError::RsError(Arc::new(e)).message();
        assert_eq!(message, format!("reed-solomon decode error: {e:?}"));
    }
}

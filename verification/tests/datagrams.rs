//! Framing of pshreds as datagrams, and their collection.

use constellation_encoder::fec::count_present;
use constellation_encoder::transport::{
    accept_datagram, deterministic_payload, frame_pshred, judge, new_collection, Verdict,
};
use constellation_encoder::{ConstellationEncoder, DecodeError, DATA_PSHREDS, TOTAL_PSHREDS};

#[test]
fn payload_pattern_repeats_after_256_bytes() {
    assert_eq!(deterministic_payload(0), Vec::<u8>::new());
    let payload = deterministic_payload(515);
    assert_eq!(payload.len(), 515);
    assert_eq!(payload[0], 0);
    assert_eq!(payload[255], 255);
    assert_eq!(payload[256], 0);
    assert_eq!(payload[514], 2);
}

#[test]
fn datagram_is_index_then_pshred() {
    assert_eq!(frame_pshred(0x0102_0304, &[9, 8]), vec![1, 2, 3, 4, 9, 8]);
    assert_eq!(frame_pshred(255, &[]), vec![0, 0, 0, 255]);
}

#[test]
fn framed_pshred_lands_in_its_slot() {
    let mut pshreds = new_collection();
    assert_eq!(pshreds, vec![None; TOTAL_PSHREDS]);
    accept_datagram(&mut pshreds, &frame_pshred(200, &[1, 2, 3]));
    assert_eq!(pshreds[200], Some(vec![1, 2, 3]));
    assert_eq!(count_present(&pshreds), 1);
    accept_datagram(&mut pshreds, &frame_pshred(200, &[4]));
    assert_eq!(pshreds[200], Some(vec![4]));
    assert_eq!(count_present(&pshreds), 1);
}

#[test]
fn stray_datagrams_are_ignored() {
    let mut pshreds = new_collection();
    accept_datagram(&mut pshreds, &[]);
    accept_datagram(&mut pshreds, &[0, 0, 0]);
    accept_datagram(&mut pshreds, &frame_pshred(256, &[1]));
    accept_datagram(&mut pshreds, &frame_pshred(u32::MAX, &[1]));
    assert_eq!(count_present(&pshreds), 0);
    accept_datagram(&mut pshreds, &[0, 0, 0, 5]);
    assert_eq!(pshreds[5], Some(vec![]));
}

#[test]
fn reordered_and_repeated_datagrams_recover_the_payload() {
    let encoder = ConstellationEncoder::new();
    let payload = deterministic_payload(4096);
    let sent = encoder.encode(&payload).expect("encode should succeed");
    let mut pshreds = new_collection();
    for i in (0..TOTAL_PSHREDS).rev().step_by(4) {
        let datagram = frame_pshred(i as u32, &sent[i]);
        accept_datagram(&mut pshreds, &datagram);
        accept_datagram(&mut pshreds, &datagram);
    }
    assert_eq!(count_present(&pshreds), DATA_PSHREDS);
    let decoded = encoder.decode(&pshreds);
    assert_eq!(judge(&decoded, &payload), Verdict::Recovered);
}

#[test]
fn verdicts() {
    assert_eq!(judge(&Ok(vec![1, 2]), &[1, 2]), Verdict::Recovered);
    assert_eq!(judge(&Ok(vec![1, 2]), &[1, 3]), Verdict::Mismatch);
    assert_eq!(judge(&Ok(vec![1, 2]), &[1, 2, 3]), Verdict::Mismatch);
    assert_eq!(judge(&Err(DecodeError::Corrupt), &[]), Verdict::Failed);
}

//! Encoding of a payload into pshreds, and recovery of it from enough of them.
//!
//! The code has the parameters of a pslice: 64 data shards and 192 parity shards,
//! so that any 64 of the 256 pshreds give the payload back.

use crate::bytes::{option_views, option_views_hold_contents, views};
pub use crate::cache::ReedSolomonCache;
use crate::codec::{
    code_word_is_data_then_parity, code_word_shard, flagged, is_recovery, leading, one_length,
    parity_of, present_count, present_count_is_number_of_present_shards,
    recovery_agrees_with_first_present_shards,
};
pub use crate::error::{DecodeError, EncodeError};
use crate::framing::{
    agreeing_shards_are_joined, data_shard_is_framed, data_shards, data_shards_lay_payload_out,
    disagreeing_lengths_are_corrupt, join_data_shards, join_outcome, joining_inverts_splitting,
    layout_determines_data_shard, shard_len, split_payload, splitting_is_injective, HEADER_LEN,
};
use std::sync::Arc;
use vstd::prelude::*;

verus! {

/// Pshreds required to reconstruct a pslice.
pub const DATA_PSHREDS: usize = 64;

/// Redundant pshreds.
pub const PARITY_PSHREDS: usize = 192;

/// Total pshreds sent, one per attester.
pub const TOTAL_PSHREDS: usize = DATA_PSHREDS + PARITY_PSHREDS;

/// Whether `pshreds` is the encoding of `payload`: the code word of its data
/// shards, all shards of the length that the payload calls for.
pub open spec fn is_encoding(pshreds: Seq<Seq<u8>>, payload: Seq<u8>) -> bool {
    &&& pshreds.len() == TOTAL_PSHREDS
    &&& forall|i: int|
        0 <= i < TOTAL_PSHREDS ==> (#[trigger] pshreds[i]).len() == shard_len(payload.len())
            && pshreds[i] == code_word_shard(data_shards(payload), PARITY_PSHREDS as nat, i)
}

/// Whether `received` is `sent` with some of it lost.
pub open spec fn is_lossy_copy(received: Seq<Option<Seq<u8>>>, sent: Seq<Seq<u8>>) -> bool {
    &&& received.len() == sent.len()
    &&& forall|i: int|
        0 <= i < sent.len() && (#[trigger] received[i]) is Some ==> received[i]->0 == sent[i]
}

/// Whether the present shreds have one length, which leaves room for the header.
pub open spec fn well_sized(shreds: Seq<Option<Seq<u8>>>) -> bool {
    &&& one_length(shreds)
    &&& forall|i: int|
        0 <= i < shreds.len() && (#[trigger] shreds[i]) is Some ==> shreds[i]->0.len()
            >= HEADER_LEN
}

/// Whether `data` are data shards that the shreds determine.
pub open spec fn is_recovered(data: Seq<Seq<u8>>, shreds: Seq<Option<Seq<u8>>>) -> bool {
    is_recovery(data, DATA_PSHREDS as nat, PARITY_PSHREDS as nat, shreds)
}

/// Whether `r` is what `shreds` decode to.
pub open spec fn decode_outcome(
    shreds: Seq<Option<Seq<u8>>>,
    r: Result<Vec<u8>, DecodeError>,
) -> bool {
    if shreds.len() != TOTAL_PSHREDS {
        r is Err && r->Err_0 is ShardSizeMismatch
    } else if present_count(shreds) < DATA_PSHREDS {
        r is Err && r->Err_0 is InsufficientShreds && r->Err_0->have == present_count(shreds)
            && r->Err_0->need == DATA_PSHREDS
    } else if !well_sized(shreds) {
        r is Err && r->Err_0 is ShardSizeMismatch
    } else {
        &&& exists|data: Seq<Seq<u8>>| #[trigger] is_recovered(data, shreds)
        &&& forall|data: Seq<Seq<u8>>| #[trigger]
            is_recovered(data, shreds) ==> join_outcome(data, r)
    }
}

/// Whether shred `i` is one of the first `DATA_PSHREDS` present ones.
pub open spec fn is_leading(shreds: Seq<Option<Seq<u8>>>, i: int) -> bool {
    shreds[i] is Some && present_count(shreds.take(i)) < DATA_PSHREDS
}

/// Where some shards are present, there is a first one, which no present one
/// precedes.
proof fn first_present(shards: Seq<Option<Seq<u8>>>) -> (first: int)
    requires
        present_count(shards) > 0,
    ensures
        0 <= first < shards.len(),
        shards[first] is Some,
        present_count(shards.take(first)) == 0,
    decreases shards.len(),
{
    let earlier = shards.drop_last();
    if present_count(earlier) == 0 {
        assert(shards.take(shards.len() - 1) =~= earlier);
        shards.len() - 1
    } else {
        let first = first_present(earlier);
        assert(shards.take(first) =~= earlier.take(first));
        first
    }
}

/// Any `DATA_PSHREDS` of the pshreds of a payload give the payload back: whatever
/// else of an encoding is lost, decoding the rest succeeds and gives the payload.
pub proof fn any_quorum_recovers_payload(
    payload: Seq<u8>,
    sent: Seq<Seq<u8>>,
    received: Seq<Option<Seq<u8>>>,
    decoded: Result<Vec<u8>, DecodeError>,
)
    requires
        payload.len() <= u32::MAX,
        is_encoding(sent, payload),
        is_lossy_copy(received, sent),
        present_count(received) >= DATA_PSHREDS,
        decode_outcome(received, decoded),
    ensures
        decoded is Ok,
        decoded->Ok_0@ == payload,
{
    let data = data_shards(payload);
    assert forall|j: int| 0 <= j < data.len() implies (#[trigger] data[j]).len() == shard_len(
        payload.len(),
    ) by {
        data_shard_is_framed(payload, j);
    }
    assert(is_recovered(data, received));
    joining_inverts_splitting(payload);
}

/// The first `DATA_PSHREDS` pshreds of a payload are its data shards.
pub proof fn encoding_starts_with_data_shards(payload: Seq<u8>, sent: Seq<Seq<u8>>)
    requires
        is_encoding(sent, payload),
    ensures
        sent.take(DATA_PSHREDS as int) == data_shards(payload),
{
    assert(sent.take(DATA_PSHREDS as int) =~= data_shards(payload));
}

/// Different payloads have different encodings.
pub proof fn encoding_determines_payload(a: Seq<u8>, b: Seq<u8>, sent: Seq<Seq<u8>>)
    requires
        a.len() <= u32::MAX,
        b.len() <= u32::MAX,
        is_encoding(sent, a),
        is_encoding(sent, b),
    ensures
        a == b,
{
    encoding_starts_with_data_shards(a, sent);
    encoding_starts_with_data_shards(b, sent);
    splitting_is_injective(a, b);
}

/// The same shreds always decode to the same payload, or fail with the same error.
pub proof fn decoding_is_deterministic(
    shreds: Seq<Option<Seq<u8>>>,
    a: Result<Vec<u8>, DecodeError>,
    b: Result<Vec<u8>, DecodeError>,
)
    requires
        decode_outcome(shreds, a),
        decode_outcome(shreds, b),
    ensures
        a is Ok <==> b is Ok,
        a is Ok ==> a->Ok_0@ == b->Ok_0@,
        a is Err ==> a->Err_0 == b->Err_0,
{
    if shreds.len() == TOTAL_PSHREDS && present_count(shreds) >= DATA_PSHREDS && well_sized(
        shreds,
    ) {
        let data = choose|data: Seq<Seq<u8>>| #[trigger] is_recovered(data, shreds);
        assert(join_outcome(data, a));
        assert(join_outcome(data, b));
    }
}

/// Only the first `DATA_PSHREDS` present shreds matter: whatever shreds of the same
/// length come behind them, the outcome is the same.
pub proof fn surplus_shreds_do_not_matter(
    a: Seq<Option<Seq<u8>>>,
    b: Seq<Option<Seq<u8>>>,
    from_a: Result<Vec<u8>, DecodeError>,
    from_b: Result<Vec<u8>, DecodeError>,
)
    requires
        a.len() == TOTAL_PSHREDS,
        b.len() == TOTAL_PSHREDS,
        present_count(a) >= DATA_PSHREDS,
        present_count(b) >= DATA_PSHREDS,
        well_sized(a),
        well_sized(b),
        forall|i: int|
            0 <= i < TOTAL_PSHREDS ==> (#[trigger] is_leading(a, i) <==> is_leading(b, i)),
        forall|i: int| 0 <= i < TOTAL_PSHREDS && #[trigger] is_leading(a, i) ==> a[i] == b[i],
        decode_outcome(a, from_a),
        decode_outcome(b, from_b),
    ensures
        from_a is Ok <==> from_b is Ok,
        from_a is Ok ==> from_a->Ok_0@ == from_b->Ok_0@,
        from_a is Err ==> from_a->Err_0 == from_b->Err_0,
{
    let data = choose|data: Seq<Seq<u8>>| #[trigger] is_recovered(data, a);
    let first = first_present(a);
    assert(is_leading(a, first));
    assert forall|i: int, j: int|
        0 <= i < b.len() && (#[trigger] b[i]) is Some && 0 <= j < data.len() implies (
    #[trigger] data[j]).len() == b[i]->0.len() by {
        assert(b[first] is Some);
        assert(a[first] is Some);
    }
    assert forall|i: int|
        0 <= i < b.len() && (#[trigger] b[i]) is Some && present_count(b.take(i))
            < DATA_PSHREDS implies b[i]->0 == code_word_shard(
        data,
        PARITY_PSHREDS as nat,
        i,
    ) by {
        assert(is_leading(b, i));
        assert(is_leading(a, i));
    }
    assert(is_recovered(data, b));
    assert(join_outcome(data, from_a));
    assert(join_outcome(data, from_b));
}

/// Pshreds are the data shards of the payload, followed by the parity shards that
/// the codec computes from them, and all of them have the length of a data shard.
pub proof fn encoding_is_data_then_parity(payload: Seq<u8>, sent: Seq<Seq<u8>>)
    requires
        is_encoding(sent, payload),
    ensures
        sent.len() == DATA_PSHREDS + PARITY_PSHREDS,
        forall|i: int| 0 <= i < DATA_PSHREDS ==> #[trigger] sent[i] == data_shards(payload)[i],
        forall|j: int|
            0 <= j < PARITY_PSHREDS ==> #[trigger] sent[DATA_PSHREDS + j] == parity_of(
                data_shards(payload),
                PARITY_PSHREDS as nat,
            )[j],
        forall|i: int|
            0 <= i < sent.len() ==> (#[trigger] sent[i]).len() == 8 + (payload.len() + 63) / 64,
{
    code_word_is_data_then_parity(data_shards(payload), PARITY_PSHREDS as nat);
}

/// A payload has one encoding.
pub proof fn encoding_is_unique(payload: Seq<u8>, a: Seq<Seq<u8>>, b: Seq<Seq<u8>>)
    requires
        is_encoding(a, payload),
        is_encoding(b, payload),
    ensures
        a == b,
{
    assert(a =~= b);
}

/// Decoding fails closed. Unless there are `TOTAL_PSHREDS` places and at least
/// `DATA_PSHREDS` of them hold a shred, all of one length that leaves room for the
/// header, no payload is returned, and the error says which of these did not hold;
/// with too few shreds it says how many there were. The codec never refuses.
pub proof fn decoding_fails_closed(
    shreds: Seq<Option<Seq<u8>>>,
    r: Result<Vec<u8>, DecodeError>,
)
    requires
        decode_outcome(shreds, r),
    ensures
        shreds.len() != TOTAL_PSHREDS ==> r is Err && r->Err_0 is ShardSizeMismatch,
        shreds.len() == TOTAL_PSHREDS && Set::new(|i: int| 0 <= i < shreds.len()
            && shreds[i] is Some).len() < DATA_PSHREDS ==> r is Err
            && r->Err_0 is InsufficientShreds && r->Err_0->have
            == Set::new(|i: int| 0 <= i < shreds.len() && shreds[i] is Some).len()
            && r->Err_0->need == DATA_PSHREDS,
        r is Err && r->Err_0 is InsufficientShreds ==> shreds.len() == TOTAL_PSHREDS
            && Set::new(|i: int| 0 <= i < shreds.len() && shreds[i] is Some).len() < DATA_PSHREDS,
        forall|i: int, j: int|
            shreds.len() == TOTAL_PSHREDS && Set::new(|i: int| 0 <= i < shreds.len()
                && shreds[i] is Some).len() >= DATA_PSHREDS && 0 <= i < shreds.len()
                && 0 <= j < shreds.len() && (
            #[trigger] shreds[i]) is Some && (#[trigger] shreds[j]) is Some
                && shreds[i]->0.len() != shreds[j]->0.len() ==> r is Err
                && r->Err_0 is ShardSizeMismatch,
        forall|i: int|
            shreds.len() == TOTAL_PSHREDS && Set::new(|i: int| 0 <= i < shreds.len()
                && shreds[i] is Some).len() >= DATA_PSHREDS && 0 <= i < shreds.len() && (
            #[trigger] shreds[i]) is Some && shreds[i]->0.len() < 8 ==> r is Err
                && r->Err_0 is ShardSizeMismatch,
        shreds.len() == TOTAL_PSHREDS && Set::new(|i: int| 0 <= i < shreds.len()
            && shreds[i] is Some).len() >= DATA_PSHREDS && (forall|i: int|
            0 <= i < shreds.len() && (#[trigger] shreds[i]) is Some ==> shreds[i]->0.len() >= 8)
            && (forall|i: int, j: int|
            0 <= i < shreds.len() && 0 <= j < shreds.len() && (#[trigger] shreds[i]) is Some && (
            #[trigger] shreds[j]) is Some ==> shreds[i]->0.len() == shreds[j]->0.len()) ==> r is Ok
            || r->Err_0 is Corrupt,
{
    present_count_is_number_of_present_shards(shreds);
    if shreds.len() == TOTAL_PSHREDS && present_count(shreds) >= DATA_PSHREDS && well_sized(
        shreds,
    ) {
        let data = choose|data: Seq<Seq<u8>>| #[trigger] is_recovered(data, shreds);
        assert(join_outcome(data, r));
    }
}

/// Decoding joins data shards that agree with the first `DATA_PSHREDS` shreds that
/// are present, where there are any: if those shards give different payload lengths,
/// decoding fails as corrupt, and otherwise it gives what stands behind their headers,
/// up to that length.
#[verifier::rlimit(50)]
pub proof fn decoding_joins_recovered_shards(
    shreds: Seq<Option<Seq<u8>>>,
    data: Seq<Seq<u8>>,
    r: Result<Vec<u8>, DecodeError>,
)
    requires
        decode_outcome(shreds, r),
        shreds.len() == TOTAL_PSHREDS,
        Set::new(|i: int| 0 <= i < shreds.len() && shreds[i] is Some).len() >= DATA_PSHREDS,
        forall|i: int|
            0 <= i < shreds.len() && (#[trigger] shreds[i]) is Some ==> shreds[i]->0.len() >= 8,
        data.len() == DATA_PSHREDS,
        forall|i: int, j: int|
            0 <= i < shreds.len() && (#[trigger] shreds[i]) is Some && 0 <= j < data.len() ==> (
            #[trigger] data[j]).len() == shreds[i]->0.len(),
        forall|i: int|
            0 <= i < DATA_PSHREDS && (#[trigger] shreds[i]) is Some ==> shreds[i]->0 == data[i],
        forall|i: int|
            DATA_PSHREDS <= i < shreds.len() && (#[trigger] shreds[i]) is Some && Set::new(
                |k: int| 0 <= k < i && shreds[k] is Some,
            ).len() < DATA_PSHREDS ==> shreds[i]->0 == parity_of(data, PARITY_PSHREDS as nat)[i
                - DATA_PSHREDS],
    ensures
        forall|i: int, j: int, k: int|
            0 <= i < DATA_PSHREDS && 0 <= j < DATA_PSHREDS && 4 <= k < 8 && #[trigger] data[i][k]
                != #[trigger] data[j][k] ==> r is Err && r->Err_0 is Corrupt,
        (forall|i: int, k: int|
            0 <= i < DATA_PSHREDS && 4 <= k < 8 ==> #[trigger] data[i][k] == data[0][k]) ==> r is Ok
            && r->Ok_0@.is_prefix_of(
            Seq::new(DATA_PSHREDS as nat, |i: int| data[i].skip(8)).flatten(),
        ) && (r->Ok_0@.len() == data[0][4] * 16777216 + data[0][5] * 65536 + data[0][6] * 256
            + data[0][7] || r->Ok_0@.len() < data[0][4] * 16777216 + data[0][5] * 65536 + data[0][6]
            * 256 + data[0][7] && r->Ok_0@ == Seq::new(
            DATA_PSHREDS as nat,
            |i: int| data[i].skip(8),
        ).flatten()),
{
    present_count_is_number_of_present_shards(shreds);
    recovery_agrees_with_first_present_shards(
        data,
        DATA_PSHREDS as nat,
        PARITY_PSHREDS as nat,
        shreds,
    );
    assert(is_recovered(data, shreds));
    let first = first_present(shreds);
    assert(shreds[first] is Some);
    assert forall|i: int| 0 <= i < data.len() implies (#[trigger] data[i]).len() >= 8 by {
        assert(data[i].len() == shreds[first]->0.len());
    }
    assert(well_sized(shreds)) by {
        assert forall|i: int, j: int|
            0 <= i < shreds.len() && 0 <= j < shreds.len() && (#[trigger] shreds[i]) is Some && (
            #[trigger] shreds[j]) is Some implies shreds[i]->0.len() == shreds[j]->0.len() by {
            assert(data[0].len() == shreds[i]->0.len());
            assert(data[0].len() == shreds[j]->0.len());
        }
    }
    assert(join_outcome(data, r));
    assert forall|i: int, j: int, k: int|
        0 <= i < DATA_PSHREDS && 0 <= j < DATA_PSHREDS && 4 <= k < 8 && #[trigger] data[i][k]
            != #[trigger] data[j][k] implies r is Err && r->Err_0 is Corrupt by {
        assert(data[i].subrange(4, 8)[k - 4] != data[j].subrange(4, 8)[k - 4]);
        disagreeing_lengths_are_corrupt(data, r, i, j);
    }
    if forall|i: int, k: int|
        0 <= i < DATA_PSHREDS && 4 <= k < 8 ==> #[trigger] data[i][k] == data[0][k] {
        assert forall|i: int| 0 <= i < data.len() implies (#[trigger] data[i]).subrange(4, 8)
            == data[0].subrange(4, 8) by {
            assert forall|k: int| 0 <= k < 4 implies data[i].subrange(4, 8)[k] == data[0].subrange(
                4,
                8,
            )[k] by {
                assert(data[i][4 + k] == data[0][4 + k]);
            }
            assert(data[i].subrange(4, 8) =~= data[0].subrange(4, 8));
        }
        agreeing_shards_are_joined(data, r);
        assert(Seq::new(data.len(), |i: int| data[i].skip(8)) =~= Seq::new(
            DATA_PSHREDS as nat,
            |i: int| data[i].skip(8),
        ));
    }
}

/// Data shards that agree with the first `DATA_PSHREDS` shreds that are present can
/// always be found, where the shreds are enough and of one length.
pub proof fn enough_shreds_are_recoverable(
    shreds: Seq<Option<Seq<u8>>>,
    r: Result<Vec<u8>, DecodeError>,
) -> (data: Seq<Seq<u8>>)
    requires
        decode_outcome(shreds, r),
        shreds.len() == TOTAL_PSHREDS,
        Set::new(|i: int| 0 <= i < shreds.len() && shreds[i] is Some).len() >= DATA_PSHREDS,
        forall|i: int|
            0 <= i < shreds.len() && (#[trigger] shreds[i]) is Some ==> shreds[i]->0.len() >= 8,
        forall|i: int, j: int|
            0 <= i < shreds.len() && 0 <= j < shreds.len() && (#[trigger] shreds[i]) is Some && (
            #[trigger] shreds[j]) is Some ==> shreds[i]->0.len() == shreds[j]->0.len(),
    ensures
        data.len() == DATA_PSHREDS,
        forall|i: int, j: int|
            0 <= i < shreds.len() && (#[trigger] shreds[i]) is Some && 0 <= j < data.len() ==> (
            #[trigger] data[j]).len() == shreds[i]->0.len(),
        forall|i: int|
            0 <= i < DATA_PSHREDS && (#[trigger] shreds[i]) is Some ==> shreds[i]->0 == data[i],
        forall|i: int|
            DATA_PSHREDS <= i < shreds.len() && (#[trigger] shreds[i]) is Some && Set::new(
                |k: int| 0 <= k < i && shreds[k] is Some,
            ).len() < DATA_PSHREDS ==> shreds[i]->0 == parity_of(data, PARITY_PSHREDS as nat)[i
                - DATA_PSHREDS],
{
    present_count_is_number_of_present_shards(shreds);
    let data = choose|data: Seq<Seq<u8>>| #[trigger] is_recovered(data, shreds);
    recovery_agrees_with_first_present_shards(
        data,
        DATA_PSHREDS as nat,
        PARITY_PSHREDS as nat,
        shreds,
    );
    data
}

/// Data shreds that arrived and give different payload lengths, bytes 4 to 7 of each,
/// are never decoded.
pub proof fn disagreeing_shreds_are_not_decoded(
    shreds: Seq<Option<Seq<u8>>>,
    r: Result<Vec<u8>, DecodeError>,
    i: int,
    j: int,
)
    requires
        decode_outcome(shreds, r),
        0 <= i < DATA_PSHREDS,
        0 <= j < DATA_PSHREDS,
        shreds.len() == TOTAL_PSHREDS,
        shreds[i] is Some,
        shreds[j] is Some,
        shreds[i]->0.len() >= 8,
        shreds[j]->0.len() >= 8,
        shreds[i]->0.subrange(4, 8) != shreds[j]->0.subrange(4, 8),
    ensures
        r is Err,
{
    if r is Ok {
        present_count_is_number_of_present_shards(shreds);
        let data = enough_shreds_are_recoverable(shreds, r);
        recovery_agrees_with_first_present_shards(
            data,
            DATA_PSHREDS as nat,
            PARITY_PSHREDS as nat,
            shreds,
        );
        assert(is_recovered(data, shreds));
        disagreeing_lengths_are_corrupt(data, r, i, j);
    }
}

/// Any `DATA_PSHREDS` pshreds give the payload back, told by the bytes. Let `sent` be
/// data shards that hold the payload, each behind a header of its own position and
/// the payload's length, and the parity that the codec computes from them. Then
/// whichever of `sent` are received, if they are at least `DATA_PSHREDS`, decoding
/// them gives the payload.
#[verifier::rlimit(50)]
pub proof fn any_received_quorum_recovers_payload(
    payload: Seq<u8>,
    sent: Seq<Seq<u8>>,
    shreds: Seq<Option<Seq<u8>>>,
    r: Result<Vec<u8>, DecodeError>,
)
    requires
        payload.len() <= u32::MAX,
        sent.len() == TOTAL_PSHREDS,
        forall|i: int|
            0 <= i < TOTAL_PSHREDS ==> (#[trigger] sent[i]).len() == 8 + (payload.len() + 63) / 64,
        forall|i: int|
            0 <= i < DATA_PSHREDS ==> (#[trigger] sent[i])[0] == 0 && sent[i][1] == 0 && sent[i][2]
                == 0 && sent[i][3] == i,
        forall|i: int|
            0 <= i < DATA_PSHREDS ==> (#[trigger] sent[i])[4] * 16777216 + sent[i][5] * 65536
                + sent[i][6] * 256 + sent[i][7] == payload.len(),
        forall|i: int, k: int|
            0 <= i < DATA_PSHREDS && 0 <= k < (payload.len() + 63) / 64 ==> #[trigger] sent[i][8
                + k] == if i * ((payload.len() + 63) / 64) + k < payload.len() {
                payload[i * ((payload.len() + 63) / 64) + k]
            } else {
                0
            },
        forall|j: int|
            0 <= j < PARITY_PSHREDS ==> #[trigger] sent[DATA_PSHREDS + j] == parity_of(
                sent.take(DATA_PSHREDS as int),
                PARITY_PSHREDS as nat,
            )[j],
        shreds.len() == TOTAL_PSHREDS,
        forall|i: int|
            0 <= i < TOTAL_PSHREDS && (#[trigger] shreds[i]) is Some ==> shreds[i]->0 == sent[i],
        Set::new(|i: int| 0 <= i < shreds.len() && shreds[i] is Some).len() >= DATA_PSHREDS,
        decode_outcome(shreds, r),
    ensures
        r is Ok,
        r->Ok_0@ == payload,
{
    let data = data_shards(payload);
    assert forall|i: int| 0 <= i < DATA_PSHREDS implies #[trigger] sent[i] == data[i] by {
        layout_determines_data_shard(payload, i, sent[i]);
    }
    assert(sent.take(DATA_PSHREDS as int) =~= data);
    code_word_is_data_then_parity(data, PARITY_PSHREDS as nat);
    assert forall|i: int| 0 <= i < TOTAL_PSHREDS implies #[trigger] sent[i] == code_word_shard(
        data,
        PARITY_PSHREDS as nat,
        i,
    ) by {
        if i >= DATA_PSHREDS {
            assert(sent[DATA_PSHREDS + (i - DATA_PSHREDS)] == sent[i]);
        }
    }
    assert(is_encoding(sent, payload));
    present_count_is_number_of_present_shards(shreds);
    any_quorum_recovers_payload(payload, sent, shreds, r);
}

/// Any `DATA_PSHREDS` pshreds belong to one payload: encodings of two payloads that
/// have so many pshreds in common are encodings of the same payload.
pub proof fn quorum_determines_payload(
    a: Seq<u8>,
    b: Seq<u8>,
    sent_a: Seq<Seq<u8>>,
    sent_b: Seq<Seq<u8>>,
    shreds: Seq<Option<Seq<u8>>>,
    r: Result<Vec<u8>, DecodeError>,
)
    requires
        a.len() <= u32::MAX,
        b.len() <= u32::MAX,
        is_encoding(sent_a, a),
        is_encoding(sent_b, b),
        shreds.len() == TOTAL_PSHREDS,
        forall|i: int|
            0 <= i < TOTAL_PSHREDS && (#[trigger] shreds[i]) is Some ==> shreds[i]->0 == sent_a[i]
                && shreds[i]->0 == sent_b[i],
        Set::new(|i: int| 0 <= i < shreds.len() && shreds[i] is Some).len() >= DATA_PSHREDS,
        decode_outcome(shreds, r),
    ensures
        a == b,
        sent_a == sent_b,
{
    present_count_is_number_of_present_shards(shreds);
    any_quorum_recovers_payload(a, sent_a, shreds, r);
    any_quorum_recovers_payload(b, sent_b, shreds, r);
    encoding_is_unique(a, sent_a, sent_b);
}

/// The views of shreds are as many as the shreds that are there.
proof fn views_are_counted(shreds: Seq<Option<Vec<u8>>>)
    ensures
        present_count(option_views(shreds)) == Set::new(
            |i: int| 0 <= i < shreds.len() && shreds[i] is Some,
        ).len(),
        Set::new(|i: int| 0 <= i < option_views(shreds).len() && option_views(shreds)[i] is Some)
            == Set::new(|i: int| 0 <= i < shreds.len() && shreds[i] is Some),
{
    let all = option_views(shreds);
    option_views_hold_contents(shreds);
    present_count_is_number_of_present_shards(all);
    assert(Set::new(|i: int| 0 <= i < all.len() && all[i] is Some) =~= Set::new(
        |i: int| 0 <= i < shreds.len() && shreds[i] is Some,
    ));
}

/// Encodes/decodes payloads into the fixed 64-data/192-parity pshred layout.
pub struct ConstellationEncoder {
    rs_cache: ReedSolomonCache,
}

/// Counts the shreds that are present.
pub fn count_present(shreds: &[Option<Vec<u8>>]) -> (n: usize)
    ensures
        n == present_count(option_views(shreds@)),
        n == Set::new(|i: int| 0 <= i < shreds@.len() && shreds@[i] is Some).len(),
{
    let ghost all = option_views(shreds@);
    let mut n: usize = 0;
    let mut i: usize = 0;
    while i < shreds.len()
        invariant
            all == option_views(shreds@),
            n <= i <= shreds@.len(),
            n == present_count(all.take(i as int)),
        decreases shreds@.len() - i,
    {
        if shreds[i].is_some() {
            n = n + 1;
        }
        i = i + 1;
        assert(all.take(i as int).drop_last() =~= all.take(i - 1));
    }
    assert(all.take(i as int) =~= all);
    proof {
        views_are_counted(shreds@);
    }
    n
}

/// The length that all present shreds have, if there are any and they have one.
fn common_len(shreds: &[Option<Vec<u8>>]) -> (len: Option<usize>)
    ensures
        len is Some <==> one_length(option_views(shreds@)) && exists|i: int|
            0 <= i < shreds@.len() && (#[trigger] shreds@[i]) is Some,
        len is Some ==> forall|i: int|
            0 <= i < shreds@.len() && (#[trigger] shreds@[i]) is Some ==> shreds@[i]->0@.len()
                == len->0,
{
    let ghost all = option_views(shreds@);
    let mut len: Option<usize> = None;
    let mut i: usize = 0;
    while i < shreds.len()
        invariant
            all == option_views(shreds@),
            i <= shreds@.len(),
            len is Some ==> exists|j: int| 0 <= j < i && (#[trigger] shreds@[j]) is Some,
            forall|j: int|
                0 <= j < i && (#[trigger] shreds@[j]) is Some ==> len is Some
                    && shreds@[j]->0@.len() == len->0,
        decreases shreds@.len() - i,
    {
        if let Some(shred) = &shreds[i] {
            match len {
                None => {
                    len = Some(shred.len());
                },
                Some(l) => {
                    if shred.len() != l {
                        proof {
                            let j = choose|j: int|
                                0 <= j < i && (#[trigger] shreds@[j]) is Some;
                            assert(all[j] is Some && all[i as int] is Some);
                        }
                        return None;
                    }
                },
            }
            assert(shreds@[i as int] is Some);
        }
        i = i + 1;
    }
    len
}

/// Copies the shreds into buffers of length `len`, flagged as present or missing;
/// the missing ones are filled with zeros.
fn to_buffers(shreds: &[Option<Vec<u8>>], len: usize) -> (buffers: Vec<(Vec<u8>, bool)>)
    requires
        forall|i: int|
            0 <= i < shreds@.len() && (#[trigger] shreds@[i]) is Some ==> shreds@[i]->0@.len()
                == len,
    ensures
        flagged(buffers@) == option_views(shreds@),
        forall|i: int| 0 <= i < buffers@.len() ==> (#[trigger] buffers@[i]).0@.len() == len,
{
    let ghost all = option_views(shreds@);
    let mut buffers: Vec<(Vec<u8>, bool)> = Vec::with_capacity(shreds.len());
    let mut i: usize = 0;
    while i < shreds.len()
        invariant
            all == option_views(shreds@),
            i <= shreds@.len(),
            forall|i: int|
                0 <= i < shreds@.len() && (#[trigger] shreds@[i]) is Some ==> shreds@[i]->0@.len()
                    == len,
            flagged(buffers@) == all.take(i as int),
            buffers@.len() == i,
            forall|j: int| 0 <= j < i ==> (#[trigger] buffers@[j]).0@.len() == len,
        decreases shreds@.len() - i,
    {
        let ghost before = buffers@;
        let buffer: (Vec<u8>, bool) = match &shreds[i] {
            Some(shred) => {
                let copy: Vec<u8> = shred.clone();
                assert(copy@ =~= shred@);
                (copy, true)
            },
            None => (vec![0u8; len], false),
        };
        buffers.push(buffer);
        i = i + 1;
        assert(flagged(buffers@) =~= flagged(before).push(all[i - 1]));
        assert(flagged(buffers@) =~= all.take(i as int));
    }
    assert(all.take(i as int) =~= all);
    buffers
}

/// Takes the contents of the first `n` buffers out.
fn take_leading(buffers: Vec<(Vec<u8>, bool)>, n: usize) -> (shards: Vec<Vec<u8>>)
    requires
        n <= buffers@.len(),
    ensures
        views(shards@) == leading(buffers@, n as nat),
{
    let ghost all = buffers@;
    let mut buffers = buffers;
    let mut shards: Vec<Vec<u8>> = Vec::with_capacity(n);
    let mut i: usize = 0;
    while i < n
        invariant
            i <= n <= all.len(),
            buffers@ == all.skip(i as int),
            views(shards@) == leading(all, i as nat),
        decreases n - i,
    {
        let ghost before = shards@;
        let (shard, _) = buffers.remove(0);
        shards.push(shard);
        i = i + 1;
        assert(buffers@ =~= all.skip(i as int));
        assert(views(shards@) =~= views(before).push(shard@));
        assert(views(shards@) =~= leading(all, i as nat));
    }
    shards
}

impl ConstellationEncoder {
    /// Whether the encoder was made with an empty codec cache.
    pub closed spec fn starts_empty(&self) -> bool {
        self.rs_cache.starts_empty()
    }

    /// An encoder, with an empty codec cache.
    pub fn new() -> (encoder: Self)
        ensures
            encoder.starts_empty(),
    {
        ConstellationEncoder { rs_cache: ReedSolomonCache::new() }
    }

    /// Splits `payload` into `DATA_PSHREDS` equal, header-prefixed chunks and
    /// erasure-codes them into `TOTAL_PSHREDS` pshreds, any `DATA_PSHREDS` of
    /// which suffice to reconstruct `payload` via [`Self::decode`].
    #[verifier::rlimit(50)]
    pub fn encode(&self, payload: &[u8]) -> (r: Result<Vec<Vec<u8>>, EncodeError>)
        ensures
            payload@.len() <= u32::MAX ==> r is Ok && is_encoding(views(r->Ok_0@), payload@),
            payload@.len() > u32::MAX ==> r is Err && r->Err_0 is PayloadTooLarge,
            r is Ok ==> r->Ok_0@.len() == TOTAL_PSHREDS,
            r is Ok ==> forall|i: int|
                0 <= i < TOTAL_PSHREDS ==> (#[trigger] r->Ok_0@[i])@.len() == 8 + (payload@.len()
                    + 63) / 64,
            r is Ok ==> forall|i: int|
                0 <= i < DATA_PSHREDS ==> {
                    &&& (#[trigger] r->Ok_0@[i])@[0] == 0 && r->Ok_0@[i]@[1] == 0
                        && r->Ok_0@[i]@[2] == 0 && r->Ok_0@[i]@[3] == i
                    &&& r->Ok_0@[i]@[4] * 16777216 + r->Ok_0@[i]@[5] * 65536 + r->Ok_0@[i]@[6] * 256
                        + r->Ok_0@[i]@[7] == payload@.len()
                    &&& forall|k: int|
                        0 <= k < (payload@.len() + 63) / 64 ==> #[trigger] r->Ok_0@[i]@[8 + k]
                            == if i * ((payload@.len() + 63) / 64) + k < payload@.len() {
                            payload@[i * ((payload@.len() + 63) / 64) + k]
                        } else {
                            0
                        }
                },
            r is Ok ==> forall|j: int|
                0 <= j < PARITY_PSHREDS ==> (#[trigger] r->Ok_0@[DATA_PSHREDS + j])@ == parity_of(
                    Seq::new(DATA_PSHREDS as nat, |i: int| r->Ok_0@[i]@),
                    PARITY_PSHREDS as nat,
                )[j],
    {
        let mut shards: Vec<Vec<u8>> = match split_payload(payload) {
            Ok(shards) => shards,
            Err(e) => {
                return Err(e);
            },
        };
        let ghost data = data_shards(payload@);
        assert(views(shards@) == data);
        let len: usize = shards[0].len();
        proof {
            assert forall|i: int| 0 <= i < DATA_PSHREDS implies (#[trigger] shards@[i])@.len()
                == shard_len(payload@.len()) by {
                assert(views(shards@)[i] == data[i]);
                data_shard_is_framed(payload@, i);
            }
        }
        let mut i: usize = 0;
        while i < PARITY_PSHREDS
            invariant
                i <= PARITY_PSHREDS,
                len == shard_len(payload@.len()),
                shards@.len() == DATA_PSHREDS + i,
                forall|j: int| 0 <= j < shards@.len() ==> (#[trigger] shards@[j])@.len() == len,
                views(shards@).take(DATA_PSHREDS as int) == data,
            decreases PARITY_PSHREDS - i,
        {
            let ghost before = shards@;
            shards.push(vec![0u8; len]);
            i = i + 1;
            assert(views(shards@).take(DATA_PSHREDS as int) =~= views(before).take(
                DATA_PSHREDS as int,
            ));
        }
        let codec = match self.rs_cache.get(DATA_PSHREDS, PARITY_PSHREDS) {
            Ok(codec) => codec,
            Err(e) => {
                return Err(EncodeError::RsError(e));
            },
        };
        match codec.encode(&mut shards) {
            Ok(()) => {
                proof {
                    data_shards_lay_payload_out(payload@);
                    assert forall|i: int| 0 <= i < DATA_PSHREDS implies (#[trigger] shards@[i])@
                        == data[i] by {
                        assert(views(shards@)[i] == shards@[i]@);
                    }
                    assert(data =~= Seq::new(DATA_PSHREDS as nat, |i: int| shards@[i]@));
                    encoding_is_data_then_parity(payload@, views(shards@));
                    assert forall|j: int| 0 <= j < PARITY_PSHREDS implies (
                    #[trigger] shards@[DATA_PSHREDS + j])@ == parity_of(
                        data,
                        PARITY_PSHREDS as nat,
                    )[j] by {
                        assert(views(shards@)[DATA_PSHREDS + j] == shards@[DATA_PSHREDS + j]@);
                    }
                }
                Ok(shards)
            },
            Err(e) => Err(EncodeError::RsError(Arc::new(e))),
        }
    }

    /// Reconstructs the original payload from up to `TOTAL_PSHREDS` pshreds,
    /// where `shreds[i] == None` means pshred `i` was not received. Requires
    /// at least `DATA_PSHREDS` present shreds; fails closed otherwise.
    #[verifier::rlimit(50)]
    pub fn decode(&self, shreds: &[Option<Vec<u8>>]) -> (r: Result<Vec<u8>, DecodeError>)
        ensures
            decode_outcome(option_views(shreds@), r),
            forall|payload: Seq<u8>, sent: Seq<Seq<u8>>|
                payload.len() <= u32::MAX && #[trigger] is_encoding(sent, payload)
                    && #[trigger] is_lossy_copy(option_views(shreds@), sent) && present_count(
                    option_views(shreds@),
                ) >= DATA_PSHREDS ==> r is Ok && r->Ok_0@ == payload,
            shreds@.len() != TOTAL_PSHREDS ==> r is Err && r->Err_0 is ShardSizeMismatch,
            shreds@.len() == TOTAL_PSHREDS && Set::new(|i: int| 0 <= i < shreds@.len()
                && shreds@[i] is Some).len()
                < DATA_PSHREDS ==> r is Err && r->Err_0 is InsufficientShreds && r->Err_0->have
                == Set::new(|i: int| 0 <= i < shreds@.len() && shreds@[i] is Some).len()
                    && r->Err_0->need
                == DATA_PSHREDS,
            r is Ok || r->Err_0 is Corrupt ==> shreds@.len() == TOTAL_PSHREDS
                && Set::new(|i: int| 0 <= i < shreds@.len() && shreds@[i] is Some).len()
                >= DATA_PSHREDS,
            forall|i: int, j: int|
                shreds@.len() == TOTAL_PSHREDS && Set::new(|i: int| 0 <= i < shreds@.len()
                    && shreds@[i] is Some).len()
                    >= DATA_PSHREDS && 0 <= i < shreds@.len() && 0 <= j < shreds@.len() && (
                #[trigger] shreds@[i]) is Some && (#[trigger] shreds@[j]) is Some && (
                shreds@[i]->0@.len() != shreds@[j]->0@.len() || shreds@[i]->0@.len() < 8)
                    ==> r is Err && r->Err_0 is ShardSizeMismatch,
            forall|i: int, j: int, k: int|
                0 <= i < DATA_PSHREDS && 0 <= j < DATA_PSHREDS && 4 <= k < 8 && shreds@.len()
                    == TOTAL_PSHREDS && shreds@[i] is Some && shreds@[j] is Some
                    && shreds@[i]->0@.len() >= 8 && shreds@[j]->0@.len() >= 8
                    && #[trigger] shreds@[i]->0@[k] != #[trigger] shreds@[j]->0@[k] ==> r is Err,
            forall|payload: Seq<u8>, sent: Seq<Seq<u8>>|
                #![trigger payload.len(), sent.len()]
                {
                    &&& payload.len() <= u32::MAX
                    &&& sent.len() == TOTAL_PSHREDS
                    &&& forall|i: int|
                        0 <= i < TOTAL_PSHREDS ==> (#[trigger] sent[i]).len() == 8 + (payload.len()
                            + 63) / 64
                    &&& forall|i: int|
                        0 <= i < DATA_PSHREDS ==> (#[trigger] sent[i])[0] == 0 && sent[i][1] == 0
                            && sent[i][2] == 0 && sent[i][3] == i
                    &&& forall|i: int|
                        0 <= i < DATA_PSHREDS ==> (#[trigger] sent[i])[4] * 16777216 + sent[i][5]
                            * 65536 + sent[i][6] * 256 + sent[i][7] == payload.len()
                    &&& forall|i: int, k: int|
                        0 <= i < DATA_PSHREDS && 0 <= k < (payload.len() + 63) / 64
                            ==> #[trigger] sent[i][8 + k] == if i * ((payload.len() + 63) / 64) + k
                            < payload.len() {
                            payload[i * ((payload.len() + 63) / 64) + k]
                        } else {
                            0
                        }
                    &&& forall|j: int|
                        0 <= j < PARITY_PSHREDS ==> #[trigger] sent[DATA_PSHREDS + j] == parity_of(
                            sent.take(DATA_PSHREDS as int),
                            PARITY_PSHREDS as nat,
                        )[j]
                    &&& shreds@.len() == TOTAL_PSHREDS
                    &&& forall|i: int|
                        0 <= i < TOTAL_PSHREDS && (#[trigger] shreds@[i]) is Some
                            ==> shreds@[i]->0@ == sent[i]
                    &&& Set::new(|i: int| 0 <= i < shreds@.len() && shreds@[i] is Some).len()
                        >= DATA_PSHREDS
                } ==> r is Ok && r->Ok_0@ == payload,
    {
        let r = self.recover(shreds);
        proof {
            let received = option_views(shreds@);
            option_views_hold_contents(shreds@);
            views_are_counted(shreds@);
            decoding_fails_closed(received, r);
            assert(forall|i: int|
                0 <= i < shreds@.len() ==> ((#[trigger] shreds@[i]) is Some
                    <==> received[i] is Some));
            assert(forall|i: int|
                0 <= i < shreds@.len() && (#[trigger] shreds@[i]) is Some ==> received[i]->0
                    == shreds@[i]->0@);
            assert forall|i: int, j: int, k: int|
                0 <= i < DATA_PSHREDS && 0 <= j < DATA_PSHREDS && 4 <= k < 8 && shreds@.len()
                    == TOTAL_PSHREDS && shreds@[i] is Some && shreds@[j] is Some
                    && shreds@[i]->0@.len() >= 8 && shreds@[j]->0@.len() >= 8
                    && #[trigger] shreds@[i]->0@[k] != #[trigger] shreds@[j]->0@[k]
                        implies r is Err by {
                assert(received[i]->0.subrange(4, 8)[k - 4] != received[j]->0.subrange(4, 8)[k
                    - 4]);
                disagreeing_shreds_are_not_decoded(received, r, i, j);
            }
            assert forall|payload: Seq<u8>, sent: Seq<Seq<u8>>|
                #![trigger payload.len(), sent.len()]
                {
                    &&& payload.len() <= u32::MAX
                    &&& sent.len() == TOTAL_PSHREDS
                    &&& forall|i: int|
                        0 <= i < TOTAL_PSHREDS ==> (#[trigger] sent[i]).len() == 8 + (payload.len()
                            + 63) / 64
                    &&& forall|i: int|
                        0 <= i < DATA_PSHREDS ==> (#[trigger] sent[i])[0] == 0 && sent[i][1] == 0
                            && sent[i][2] == 0 && sent[i][3] == i
                    &&& forall|i: int|
                        0 <= i < DATA_PSHREDS ==> (#[trigger] sent[i])[4] * 16777216 + sent[i][5]
                            * 65536 + sent[i][6] * 256 + sent[i][7] == payload.len()
                    &&& forall|i: int, k: int|
                        0 <= i < DATA_PSHREDS && 0 <= k < (payload.len() + 63) / 64
                            ==> #[trigger] sent[i][8 + k] == if i * ((payload.len() + 63) / 64) + k
                            < payload.len() {
                            payload[i * ((payload.len() + 63) / 64) + k]
                        } else {
                            0
                        }
                    &&& forall|j: int|
                        0 <= j < PARITY_PSHREDS ==> #[trigger] sent[DATA_PSHREDS + j] == parity_of(
                            sent.take(DATA_PSHREDS as int),
                            PARITY_PSHREDS as nat,
                        )[j]
                    &&& shreds@.len() == TOTAL_PSHREDS
                    &&& forall|i: int|
                        0 <= i < TOTAL_PSHREDS && (#[trigger] shreds@[i]) is Some
                            ==> shreds@[i]->0@ == sent[i]
                    &&& Set::new(|i: int| 0 <= i < shreds@.len() && shreds@[i] is Some).len()
                        >= DATA_PSHREDS
                } implies r is Ok && r->Ok_0@ == payload by {
                assert forall|i: int|
                    0 <= i < TOTAL_PSHREDS && (#[trigger] received[i]) is Some implies
                    received[i]->0 == sent[i] by {
                    assert(shreds@[i] is Some);
                }
                any_received_quorum_recovers_payload(payload, sent, received, r);
            }
            assert forall|payload: Seq<u8>, sent: Seq<Seq<u8>>|
                payload.len() <= u32::MAX && #[trigger] is_encoding(sent, payload)
                    && #[trigger] is_lossy_copy(received, sent) && present_count(received)
                    >= DATA_PSHREDS implies r is Ok && r->Ok_0@ == payload by {
                any_quorum_recovers_payload(payload, sent, received, r);
            }
        }
        r
    }

    /// Checks the shreds, reconstructs the data shards and joins them.
    fn recover(&self, shreds: &[Option<Vec<u8>>]) -> (r: Result<Vec<u8>, DecodeError>)
        ensures
            decode_outcome(option_views(shreds@), r),
    {
        if shreds.len() != TOTAL_PSHREDS {
            return Err(DecodeError::ShardSizeMismatch);
        }
        let present: usize = count_present(shreds);
        if present < DATA_PSHREDS {
            return Err(DecodeError::InsufficientShreds { have: present, need: DATA_PSHREDS });
        }
        let ghost received = option_views(shreds@);
        let ghost first = first_present(received);
        assert(shreds@[first] is Some);
        let len: usize = match common_len(shreds) {
            Some(len) => len,
            None => {
                return Err(DecodeError::ShardSizeMismatch);
            },
        };
        if len < HEADER_LEN {
            return Err(DecodeError::ShardSizeMismatch);
        }
        let mut buffers = to_buffers(shreds, len);
        let codec = match self.rs_cache.get(DATA_PSHREDS, PARITY_PSHREDS) {
            Ok(codec) => codec,
            Err(e) => {
                return Err(DecodeError::RsError(e));
            },
        };
        // Only the data shards are needed back, so reconstructing those is the
        // cheaper, correct choice here.
        match codec.reconstruct_data(&mut buffers) {
            Ok(()) => {},
            Err(e) => {
                return Err(DecodeError::RsError(Arc::new(e)));
            },
        }
        let ghost data = leading(buffers@, DATA_PSHREDS as nat);
        assert(is_recovered(data, received));
        let shards = take_leading(buffers, DATA_PSHREDS);
        assert forall|i: int| 0 <= i < shards@.len() implies (#[trigger] shards@[i])@.len()
            >= HEADER_LEN by {
            assert(views(shards@)[i] == data[i]);
            assert(received[first] is Some);
        }
        join_data_shards(shards.as_slice())
    }
}

impl Default for ConstellationEncoder {
    fn default() -> (encoder: Self)
        ensures
            encoder.starts_empty(),
    {
        Self::new()
    }
}

} // verus!

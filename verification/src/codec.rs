//! The Reed-Solomon codec over GF(2^8), and what the library relies on of it.
//!
//! The codec itself is that of the `reed_solomon_erasure` crate. Its methods are
//! called here and nowhere else; what they promise is taken on trust.

use crate::bytes::views;
use reed_solomon_erasure::Error as RsError;
use vstd::prelude::*;

verus! {

/// The codec of the outside crate: a `reed_solomon_erasure::galois_8::ReedSolomon`,
/// which keeps the coding matrix and a cache of decoding matrices.
#[derive(Debug)]
#[verifier::external_body]
pub struct Codec(reed_solomon_erasure::galois_8::ReedSolomon);

/// The number of data shards that a codec was built for.
pub uninterp spec fn codec_data_shards(codec: Codec) -> nat;

/// The number of parity shards that a codec was built for.
pub uninterp spec fn codec_parity_shards(codec: Codec) -> nat;

/// The parity shards that a codec for `data.len()` data shards and
/// `parity_shards` parity shards computes from the data shards `data`.
pub uninterp spec fn parity_of(data: Seq<Seq<u8>>, parity_shards: nat) -> Seq<Seq<u8>>;

/// The largest number of shards, data and parity together, that GF(2^8) allows.
pub const MAX_SHARDS: usize = 256;

/// The error that a shape is refused with, where it is.
pub open spec fn shape_error(data_shards: nat, parity_shards: nat) -> Option<RsError> {
    if data_shards == 0 {
        Some(RsError::TooFewDataShards)
    } else if parity_shards == 0 {
        Some(RsError::TooFewParityShards)
    } else if data_shards + parity_shards > MAX_SHARDS {
        Some(RsError::TooManyShards)
    } else {
        None
    }
}

/// Shard `i` of the code word of `data`: the data shards stand first, the parity
/// shards behind them.
pub open spec fn code_word_shard(data: Seq<Seq<u8>>, parity_shards: nat, i: int) -> Seq<u8> {
    if i < data.len() {
        data[i]
    } else {
        parity_of(data, parity_shards)[i - data.len()]
    }
}

/// How many shards are present.
pub open spec fn present_count(shards: Seq<Option<Seq<u8>>>) -> nat
    decreases shards.len(),
{
    if shards.len() == 0 {
        0
    } else {
        present_count(shards.drop_last()) + if shards.last() is Some {
            1nat
        } else {
            0nat
        }
    }
}

/// Whether the present shards all have one length.
pub open spec fn one_length(shards: Seq<Option<Seq<u8>>>) -> bool {
    forall|i: int, j: int|
        0 <= i < shards.len() && 0 <= j < shards.len() && (#[trigger] shards[i]) is Some && (
        #[trigger] shards[j]) is Some ==> shards[i]->0.len() == shards[j]->0.len()
}

/// Whether `data` are data shards, as long as the present ones of `shards`, whose
/// code word agrees with the first `data_shards` present ones of `shards`.
pub open spec fn is_recovery(
    data: Seq<Seq<u8>>,
    data_shards: nat,
    parity_shards: nat,
    shards: Seq<Option<Seq<u8>>>,
) -> bool {
    &&& data.len() == data_shards
    &&& forall|i: int, j: int|
        0 <= i < shards.len() && (#[trigger] shards[i]) is Some && 0 <= j < data.len()
            ==> #[trigger] data[j].len() == shards[i]->0.len()
    &&& forall|i: int|
        0 <= i < shards.len() && (#[trigger] shards[i]) is Some && present_count(shards.take(i))
            < data_shards ==> shards[i]->0 == code_word_shard(data, parity_shards, i)
}

/// The buffers that are flagged as present.
pub open spec fn flagged(buffers: Seq<(Vec<u8>, bool)>) -> Seq<Option<Seq<u8>>> {
    Seq::new(
        buffers.len(),
        |i: int|
            if buffers[i].1 {
                Some(buffers[i].0@)
            } else {
                None
            },
    )
}

/// The contents of the first `n` buffers.
pub open spec fn leading(buffers: Seq<(Vec<u8>, bool)>, n: nat) -> Seq<Seq<u8>> {
    Seq::new(n, |i: int| buffers[i].0@)
}

/// The error that shards are refused with when they are encoded, where they are.
pub open spec fn encode_error(shards: Seq<Seq<u8>>, total_shards: nat) -> Option<RsError> {
    if shards.len() < total_shards {
        Some(RsError::TooFewShards)
    } else if shards.len() > total_shards {
        Some(RsError::TooManyShards)
    } else if shards[0].len() == 0 {
        Some(RsError::EmptyShard)
    } else if exists|i: int|
        0 <= i < shards.len() && (#[trigger] shards[i]).len() != shards[0].len() {
        Some(RsError::IncorrectShardSize)
    } else {
        None
    }
}

/// Whether shard `i` is present, and is empty or of another length than a present
/// one before it.
pub open spec fn is_misfit(shards: Seq<Option<Seq<u8>>>, i: int) -> bool {
    &&& 0 <= i < shards.len()
    &&& shards[i] is Some
    &&& shards[i]->0.len() == 0 || exists|j: int|
        0 <= j < i && (#[trigger] shards[j]) is Some && shards[j]->0.len() != shards[i]->0.len()
}

/// Whether shard `i` is the first misfit.
pub open spec fn is_first_misfit(shards: Seq<Option<Seq<u8>>>, i: int) -> bool {
    is_misfit(shards, i) && forall|j: int| 0 <= j < i ==> !#[trigger] is_misfit(shards, j)
}

/// Whether a missing one of the first `n` buffers has another length than a
/// present buffer.
pub open spec fn has_wrong_gap(buffers: Seq<(Vec<u8>, bool)>, n: nat) -> bool {
    exists|i: int, j: int|
        0 <= i < n && 0 <= j < buffers.len() && !(#[trigger] buffers[i]).1 && (
        #[trigger] buffers[j]).1 && buffers[i].0@.len() != buffers[j].0@.len()
}

/// The error that buffers are refused with when data shards are reconstructed,
/// where they are.
pub open spec fn reconstruct_error(
    buffers: Seq<(Vec<u8>, bool)>,
    data_shards: nat,
    total_shards: nat,
) -> Option<RsError> {
    let shards = flagged(buffers);
    if shards.len() < total_shards {
        Some(RsError::TooFewShards)
    } else if shards.len() > total_shards {
        Some(RsError::TooManyShards)
    } else if exists|i: int| #[trigger] is_first_misfit(shards, i) {
        let i = choose|i: int| #[trigger] is_first_misfit(shards, i);
        if shards[i]->0.len() == 0 {
            Some(RsError::EmptyShard)
        } else {
            Some(RsError::IncorrectShardSize)
        }
    } else if present_count(shards) == total_shards {
        None
    } else if present_count(shards) < data_shards {
        Some(RsError::TooFewShardsPresent)
    } else if has_wrong_gap(buffers, data_shards) {
        Some(RsError::IncorrectShardSize)
    } else {
        None
    }
}

/// The present shards are counted, all of them and nothing else: the count is the
/// number of positions that hold a shard.
pub proof fn present_count_is_number_of_present_shards(shards: Seq<Option<Seq<u8>>>)
    ensures
        Set::new(|i: int| 0 <= i < shards.len() && shards[i] is Some).finite(),
        present_count(shards) == Set::new(
            |i: int| 0 <= i < shards.len() && shards[i] is Some,
        ).len(),
    decreases shards.len(),
{
    let present = Set::new(|i: int| 0 <= i < shards.len() && shards[i] is Some);
    if shards.len() == 0 {
        assert(present =~= Set::<int>::empty());
    } else {
        let earlier = shards.drop_last();
        let last = shards.len() - 1;
        present_count_is_number_of_present_shards(earlier);
        let before = Set::new(|i: int| 0 <= i < earlier.len() && earlier[i] is Some);
        if shards[last] is Some {
            assert(present =~= before.insert(last));
        } else {
            assert(present =~= before);
        }
    }
}

/// What a shard holds does not matter to the count: shards that are present in the
/// same positions are equally many.
pub proof fn presence_alone_is_counted(a: Seq<Option<Seq<u8>>>, b: Seq<Option<Seq<u8>>>)
    requires
        a.len() == b.len(),
        forall|i: int| 0 <= i < a.len() ==> ((#[trigger] a[i]) is Some <==> b[i] is Some),
    ensures
        present_count(a) == present_count(b),
{
    present_count_is_number_of_present_shards(a);
    present_count_is_number_of_present_shards(b);
    assert(Set::new(|i: int| 0 <= i < a.len() && a[i] is Some) =~= Set::new(
        |i: int| 0 <= i < b.len() && b[i] is Some,
    ));
}

/// A shard that arrives where none was raises the count by one; one that replaces
/// another leaves it.
pub proof fn arrival_raises_count_by_one(shards: Seq<Option<Seq<u8>>>, i: int, shard: Seq<u8>)
    requires
        0 <= i < shards.len(),
    ensures
        shards[i] is None ==> present_count(shards.update(i, Some(shard))) == present_count(shards)
            + 1,
        shards[i] is Some ==> present_count(shards.update(i, Some(shard))) == present_count(shards),
{
    let after = shards.update(i, Some(shard));
    present_count_is_number_of_present_shards(shards);
    present_count_is_number_of_present_shards(after);
    assert(Set::new(|k: int| 0 <= k < after.len() && after[k] is Some) =~= Set::new(
        |k: int| 0 <= k < shards.len() && shards[k] is Some,
    ).insert(i));
}

/// A count lies between none and all: it is zero where no shard is present, and the
/// number of positions where every one is.
pub proof fn count_lies_between_none_and_all(shards: Seq<Option<Seq<u8>>>)
    ensures
        present_count(shards) <= shards.len(),
        (forall|i: int| 0 <= i < shards.len() ==> (#[trigger] shards[i]) is None)
            <==> present_count(shards) == 0,
        (forall|i: int| 0 <= i < shards.len() ==> (#[trigger] shards[i]) is Some)
            <==> present_count(shards) == shards.len(),
    decreases shards.len(),
{
    if shards.len() > 0 {
        let earlier = shards.drop_last();
        let last = shards.len() - 1;
        count_lies_between_none_and_all(earlier);
        assert(shards[last] == shards.last());
        assert(forall|i: int| 0 <= i < earlier.len() ==> #[trigger] earlier[i] == shards[i]);
        if present_count(shards) == 0 {
            assert forall|i: int| 0 <= i < shards.len() implies (#[trigger] shards[i]) is None by {
                if i < last {
                    assert(earlier[i] is None);
                }
            }
        }
        if present_count(shards) == shards.len() {
            assert forall|i: int| 0 <= i < shards.len() implies (#[trigger] shards[i]) is Some by {
                if i < last {
                    assert(earlier[i] is Some);
                }
            }
        }
    }
}

/// A shape is accepted exactly where it has data shards and parity shards, and not
/// more than 256 of both together; a missing data shard is reported before a missing
/// parity shard.
pub proof fn shape_is_accepted_in_range_alone(data_shards: nat, parity_shards: nat)
    ensures
        shape_error(data_shards, parity_shards) is None <==> 0 < data_shards && 0 < parity_shards
            && data_shards + parity_shards <= 256,
        data_shards == 0 ==> shape_error(data_shards, parity_shards) == Some(
            RsError::TooFewDataShards,
        ),
        data_shards > 0 && parity_shards == 0 ==> shape_error(data_shards, parity_shards) == Some(
            RsError::TooFewParityShards,
        ),
        data_shards > 0 && parity_shards > 0 && data_shards + parity_shards > 256 ==> shape_error(
            data_shards,
            parity_shards,
        ) == Some(RsError::TooManyShards),
{
}

/// A code word is its data shards, followed by the parity shards that the codec
/// computes from them.
pub proof fn code_word_is_data_then_parity(data: Seq<Seq<u8>>, parity_shards: nat)
    ensures
        forall|i: int|
            0 <= i < data.len() ==> #[trigger] code_word_shard(data, parity_shards, i) == data[i],
        forall|i: int|
            data.len() <= i ==> #[trigger] code_word_shard(data, parity_shards, i) == parity_of(
                data,
                parity_shards,
            )[i - data.len()],
{
}

/// The buffers that are flagged, and no others, are shards that are present, and
/// they are present with what they hold.
pub proof fn flagged_buffers_are_present_shards(buffers: Seq<(Vec<u8>, bool)>)
    ensures
        flagged(buffers).len() == buffers.len(),
        forall|i: int|
            0 <= i < buffers.len() ==> ((#[trigger] flagged(buffers)[i]) is Some <==> buffers[i].1),
        forall|i: int|
            0 <= i < buffers.len() && buffers[i].1 ==> (#[trigger] flagged(buffers)[i])->0
                == buffers[i].0@,
        present_count(flagged(buffers)) == Set::new(
            |i: int| 0 <= i < buffers.len() && buffers[i].1,
        ).len(),
{
    let shards = flagged(buffers);
    present_count_is_number_of_present_shards(shards);
    assert(Set::new(|i: int| 0 <= i < shards.len() && shards[i] is Some) =~= Set::new(
        |i: int| 0 <= i < buffers.len() && buffers[i].1,
    ));
}

/// A recovery has the length of the shards that are present, and agrees with every
/// one of them that fewer than `data_shards` present ones precede: with a data shard
/// directly, with a parity shard through the parity that the codec computes.
pub proof fn recovery_agrees_with_first_present_shards(
    data: Seq<Seq<u8>>,
    data_shards: nat,
    parity_shards: nat,
    shards: Seq<Option<Seq<u8>>>,
)
    ensures
        is_recovery(data, data_shards, parity_shards, shards) <==> {
            &&& data.len() == data_shards
            &&& forall|i: int, j: int|
                0 <= i < shards.len() && (#[trigger] shards[i]) is Some && 0 <= j < data_shards
                    ==> (#[trigger] data[j]).len() == shards[i]->0.len()
            &&& forall|i: int|
                0 <= i < shards.len() && i < data_shards && (#[trigger] shards[i]) is Some
                    ==> shards[i]->0 == data[i]
            &&& forall|i: int|
                data_shards <= i < shards.len() && (#[trigger] shards[i]) is Some && Set::new(
                    |k: int| 0 <= k < i && shards[k] is Some,
                ).len() < data_shards ==> shards[i]->0 == parity_of(data, parity_shards)[i
                    - data_shards]
        },
{
    assert forall|i: int| 0 <= i < shards.len() implies #[trigger] present_count(shards.take(i))
        == Set::new(|k: int| 0 <= k < i && shards[k] is Some).len() && present_count(shards.take(i))
        <= i by {
        let before = shards.take(i);
        present_count_is_number_of_present_shards(before);
        count_lies_between_none_and_all(before);
        assert(Set::new(|k: int| 0 <= k < before.len() && before[k] is Some) =~= Set::new(
            |k: int| 0 <= k < i && shards[k] is Some,
        ));
    }
}

/// Whether buffers are refused, and what they are filled with otherwise, follows
/// from which of them are flagged and what those hold.
///
/// As many buffers as there are shards, whose flagged ones have one length that is
/// not zero, are refused where fewer than `data_shards` of them are flagged, or where
/// a missing data buffer has another length; they are accepted otherwise. The first
/// flagged one that is empty, or longer or shorter than one before it, decides the
/// error. Where the flagged ones are shards of one code word, the data buffers end up
/// with the data shards of that word.
#[verifier::rlimit(50)]
pub proof fn reconstruction_is_decided_by_buffers(
    given: Seq<(Vec<u8>, bool)>,
    left: Seq<(Vec<u8>, bool)>,
    data_shards: nat,
    parity_shards: nat,
    r: Result<(), RsError>,
)
    requires
        data_shards > 0,
        parity_shards > 0,
        left.len() == given.len(),
        r is Ok <==> reconstruct_error(given, data_shards, data_shards + parity_shards) is None,
        r is Err ==> r->Err_0 == reconstruct_error(
            given,
            data_shards,
            data_shards + parity_shards,
        )->0,
        r is Ok ==> is_recovery(
            leading(left, data_shards),
            data_shards,
            parity_shards,
            flagged(given),
        ),
        r is Ok ==> forall|data: Seq<Seq<u8>>| #[trigger]
            is_recovery(data, data_shards, parity_shards, flagged(given)) ==> data == leading(
                left,
                data_shards,
            ),
    ensures
        given.len() < data_shards + parity_shards ==> r is Err && r->Err_0
            == RsError::TooFewShards,
        given.len() > data_shards + parity_shards ==> r is Err && r->Err_0
            == RsError::TooManyShards,
        forall|i: int|
            0 <= i < given.len() && r is Ok && (#[trigger] given[i]).1 ==> given[i].0@.len() > 0,
        forall|i: int, j: int|
            0 <= i < given.len() && 0 <= j < given.len() && r is Ok && (#[trigger] given[i]).1 && (
            #[trigger] given[j]).1 ==> given[i].0@.len() == given[j].0@.len(),
        r is Ok ==> Set::new(|i: int| 0 <= i < given.len() && given[i].1).len() >= data_shards,
        forall|i: int|
            given.len() == data_shards + parity_shards && 0 <= i < given.len()
                && (#[trigger] given[i]).1
                && given[i].0@.len() == 0 && (forall|j: int|
                0 <= j < i && (#[trigger] given[j]).1 ==> given[j].0@.len() > 0)
                    && (forall|j: int, k: int|
                0 <= j < k < i && (#[trigger] given[j]).1 && (#[trigger] given[k]).1
                    ==> given[j].0@.len() == given[k].0@.len()) ==> r is Err && r->Err_0
                == RsError::EmptyShard,
        forall|i: int, n: int|
            given.len() == data_shards + parity_shards && 0 <= n < i < given.len()
                && (#[trigger] given[i]).1
                && given[i].0@.len() > 0 && (#[trigger] given[n]).1 && given[n].0@.len()
                != given[i].0@.len() && (forall|j: int|
                0 <= j < i && (#[trigger] given[j]).1 ==> given[j].0@.len() > 0)
                    && (forall|j: int, k: int|
                0 <= j < k < i && (#[trigger] given[j]).1 && (#[trigger] given[k]).1
                    ==> given[j].0@.len() == given[k].0@.len()) ==> r is Err && r->Err_0
                == RsError::IncorrectShardSize,
        given.len() == data_shards + parity_shards && (forall|i: int|
            0 <= i < given.len() && (#[trigger] given[i]).1 ==> given[i].0@.len() > 0) && (forall|
            i: int,
            j: int,
        |
            0 <= i < given.len() && 0 <= j < given.len() && (#[trigger] given[i]).1
                && (#[trigger] given[j]).1
                ==> given[i].0@.len() == given[j].0@.len()) ==> (if Set::new(
            |i: int| 0 <= i < given.len() && given[i].1,
        ).len() < data_shards {
            r is Err && r->Err_0 == RsError::TooFewShardsPresent
        } else if exists|i: int, j: int|
            0 <= i < data_shards && 0 <= j < given.len() && !(#[trigger] given[i]).1 && (
            #[trigger] given[j]).1 && given[i].0@.len() != given[j].0@.len() {
            r is Err && r->Err_0 == RsError::IncorrectShardSize
        } else {
            r is Ok
        }),
        r is Ok ==> forall|i: int|
            data_shards <= i < given.len() && (#[trigger] given[i]).1 && Set::new(
                |k: int| 0 <= k < i && given[k].1,
            ).len() < data_shards ==> given[i].0@ == parity_of(
                Seq::new(data_shards, |k: int| left[k].0@),
                parity_shards,
            )[i - data_shards],
        r is Ok ==> forall|data: Seq<Seq<u8>>|
            #![trigger data.len()]
            {
                &&& data.len() == data_shards
                &&& forall|i: int, j: int|
                    0 <= i < given.len() && (#[trigger] given[i]).1 && 0 <= j < data.len() ==> (
                    #[trigger] data[j]).len() == given[i].0@.len()
                &&& forall|i: int|
                    0 <= i < data_shards && (#[trigger] given[i]).1 ==> given[i].0@ == data[i]
                &&& forall|i: int|
                    data_shards <= i < given.len() && (#[trigger] given[i]).1 ==> given[i].0@
                        == parity_of(data, parity_shards)[i - data_shards]
            } ==> forall|i: int| 0 <= i < data_shards ==> (#[trigger] left[i]).0@ == data[i],
{
    let shards = flagged(given);
    flagged_buffers_are_present_shards(given);
    count_lies_between_none_and_all(shards);
    if r is Ok {
        assert forall|i: int| !#[trigger] is_misfit(shards, i) by {
            if is_misfit(shards, i) {
                first_misfit(shards, i);
            }
        }
        assert forall|i: int| 0 <= i < given.len() && (#[trigger] given[i]).1 implies
            given[i].0@.len() > 0 by {
            assert(shards[i] is Some);
            assert(!is_misfit(shards, i));
        }
        assert forall|i: int, j: int|
            0 <= i < given.len() && 0 <= j < given.len() && (#[trigger] given[i]).1 && (
            #[trigger] given[j]).1 implies given[i].0@.len() == given[j].0@.len() by {
            assert(shards[i] is Some && shards[j] is Some);
            assert(!is_misfit(shards, i) && !is_misfit(shards, j));
        }
        let data = leading(left, data_shards);
        assert(data =~= Seq::new(data_shards, |k: int| left[k].0@));
        recovery_agrees_with_first_present_shards(data, data_shards, parity_shards, shards);
        assert forall|i: int|
            data_shards <= i < given.len() && (#[trigger] given[i]).1 && Set::new(
                |k: int| 0 <= k < i && given[k].1,
            ).len() < data_shards implies given[i].0@ == parity_of(data, parity_shards)[i
            - data_shards] by {
            assert(shards[i] is Some);
            assert(Set::new(|k: int| 0 <= k < i && given[k].1) =~= Set::new(
                |k: int| 0 <= k < i && shards[k] is Some,
            ));
        }
        assert forall|word: Seq<Seq<u8>>|
            #![trigger word.len()]
            {
                &&& word.len() == data_shards
                &&& forall|i: int, j: int|
                    0 <= i < given.len() && (#[trigger] given[i]).1 && 0 <= j < word.len() ==> (
                    #[trigger] word[j]).len() == given[i].0@.len()
                &&& forall|i: int|
                    0 <= i < data_shards && (#[trigger] given[i]).1 ==> given[i].0@ == word[i]
                &&& forall|i: int|
                    data_shards <= i < given.len() && (#[trigger] given[i]).1 ==> given[i].0@
                        == parity_of(word, parity_shards)[i - data_shards]
            } implies forall|i: int| 0 <= i < data_shards
                ==> (#[trigger] left[i]).0@ == word[i] by {
            recovery_agrees_with_first_present_shards(word, data_shards, parity_shards, shards);
            assert forall|i: int| 0 <= i < shards.len() && (#[trigger] shards[i]) is Some implies
                given[i].1 by {}
            assert(is_recovery(word, data_shards, parity_shards, shards));
            assert forall|i: int| 0 <= i < data_shards implies (#[trigger] left[i]).0@
                == word[i] by {
                assert(data[i] == left[i].0@);
            }
        }
    }
    assert forall|i: int|
        given.len() == data_shards + parity_shards && 0 <= i < given.len() && (
        #[trigger] given[i]).1 && given[i].0@.len() == 0 && (forall|j: int|
        0 <= j < i && (#[trigger] given[j]).1 ==> given[j].0@.len() > 0) && (forall|j: int, k: int|
        0 <= j < k < i && (#[trigger] given[j]).1 && (#[trigger] given[k]).1
            ==> given[j].0@.len() == given[k].0@.len()) implies r is Err && r->Err_0
        == RsError::EmptyShard by {
        assert(shards[i] is Some);
        misfit_behind_fits_is_first(given, i);
        assert(is_first_misfit(shards, i));
    }
    assert forall|i: int, n: int|
        given.len() == data_shards + parity_shards && 0 <= n < i < given.len() && (
        #[trigger] given[i]).1 && given[i].0@.len() > 0 && (#[trigger] given[n]).1
            && given[n].0@.len() != given[i].0@.len() && (forall|j: int|
        0 <= j < i && (#[trigger] given[j]).1 ==> given[j].0@.len() > 0) && (forall|j: int, k: int|
        0 <= j < k < i && (#[trigger] given[j]).1 && (#[trigger] given[k]).1
            ==> given[j].0@.len() == given[k].0@.len()) implies r is Err && r->Err_0
        == RsError::IncorrectShardSize by {
        assert(shards[n] is Some && shards[i] is Some);
        misfit_behind_fits_is_first(given, i);
        assert(is_first_misfit(shards, i));
    }
    if (forall|i: int|
        0 <= i < given.len() && (#[trigger] given[i]).1 ==> given[i].0@.len() > 0) && (forall|
        i: int,
        j: int,
    |
        0 <= i < given.len() && 0 <= j < given.len() && (#[trigger] given[i]).1 && (
        #[trigger] given[j]).1 ==> given[i].0@.len() == given[j].0@.len()) {
        assert forall|i: int| !#[trigger] is_misfit(shards, i) by {
            if is_misfit(shards, i) {
                let n = choose|n: int|
                    0 <= n < i && (#[trigger] shards[n]) is Some && shards[n]->0.len()
                        != shards[i]->0.len();
                assert(given[n].1 && given[i].1);
            }
        }
        if present_count(shards) == data_shards + parity_shards && given.len() == data_shards
            + parity_shards {
            assert forall|i: int| 0 <= i < given.len() implies (#[trigger] given[i]).1 by {
                assert(shards[i] is Some);
            }
        }
    }
}

/// A misfit before which all flagged buffers fit is the first misfit, and the only
/// first one.
proof fn misfit_behind_fits_is_first(given: Seq<(Vec<u8>, bool)>, i: int)
    requires
        is_misfit(flagged(given), i),
        forall|j: int| 0 <= j < i && (#[trigger] given[j]).1 ==> given[j].0@.len() > 0,
        forall|j: int, k: int|
            0 <= j < k < i && (#[trigger] given[j]).1 && (#[trigger] given[k]).1
                ==> given[j].0@.len() == given[k].0@.len(),
    ensures
        is_first_misfit(flagged(given), i),
        forall|m: int| #[trigger] is_first_misfit(flagged(given), m) ==> m == i,
{
    let shards = flagged(given);
    assert forall|j: int| 0 <= j < i implies !#[trigger] is_misfit(shards, j) by {
        if is_misfit(shards, j) {
            assert(given[j].1);
            let n = choose|n: int|
                0 <= n < j && (#[trigger] shards[n]) is Some && shards[n]->0.len()
                    != shards[j]->0.len();
            assert(given[n].1);
        }
    }
}

/// Where there is a misfit, there is a first one.
proof fn first_misfit(shards: Seq<Option<Seq<u8>>>, i: int)
    requires
        is_misfit(shards, i),
    ensures
        exists|k: int| #[trigger] is_first_misfit(shards, k),
    decreases i,
{
    if exists|j: int| 0 <= j < i && #[trigger] is_misfit(shards, j) {
        let j = choose|j: int| 0 <= j < i && #[trigger] is_misfit(shards, j);
        first_misfit(shards, j);
    } else {
        assert(is_first_misfit(shards, i));
    }
}

impl Codec {
    /// Calls `ReedSolomon::new` of `reed_solomon_erasure::galois_8`.
    ///
    /// Claims that it refuses a shape without data shards, one without parity
    /// shards and one of more than 256 shards, in this order and with the error
    /// that its documentation gives, and that it builds a codec of the given shape
    /// otherwise. The sum of both numbers must fit in a `usize`, since it is
    /// computed unchecked.
    #[verifier::external_body]
    fn new(data_shards: usize, parity_shards: usize) -> (r: Result<Self, RsError>)
        requires
            data_shards + parity_shards <= usize::MAX,
        ensures
            shape_error(data_shards as nat, parity_shards as nat) is None ==> r is Ok
                && codec_data_shards(r->Ok_0) == data_shards && codec_parity_shards(r->Ok_0)
                == parity_shards,
            shape_error(data_shards as nat, parity_shards as nat) is Some ==> r is Err && r->Err_0
                == shape_error(data_shards as nat, parity_shards as nat)->0,
    {
        reed_solomon_erasure::galois_8::ReedSolomon::new(data_shards, parity_shards).map(Codec)
    }

    /// Calls `ReedSolomon::encode`.
    ///
    /// Claims that it refuses shards that are not as many as the codec has, a first
    /// shard of length zero and shards of different lengths, in this order and with
    /// the error that its documentation gives, and then touches nothing. Otherwise
    /// it leaves the data shards as they are and overwrites the parity shards with
    /// those of the data shards, whatever they held.
    #[verifier::external_body]
    fn encode(&self, shards: &mut Vec<Vec<u8>>) -> (r: Result<(), RsError>)
        ensures
            r is Ok <==> encode_error(
                views(old(shards)@),
                codec_data_shards(*self) + codec_parity_shards(*self),
            ) is None,
            r is Err ==> r->Err_0 == encode_error(
                views(old(shards)@),
                codec_data_shards(*self) + codec_parity_shards(*self),
            )->0,
            r is Err ==> final(shards)@ == old(shards)@,
            final(shards)@.len() == old(shards)@.len(),
            forall|i: int|
                0 <= i < old(shards)@.len() ==> (#[trigger] final(shards)@[i])@.len() == old(
                    shards,
                )@[i]@.len(),
            r is Ok ==> forall|i: int|
                0 <= i < codec_data_shards(*self) ==> (#[trigger] final(shards)@[i])@ == old(
                    shards,
                )@[i]@,
            r is Ok ==> forall|i: int|
                codec_data_shards(*self) <= i < old(shards)@.len() ==> (
                #[trigger] final(shards)@[i])@ == parity_of(
                    views(old(shards)@).take(codec_data_shards(*self) as int),
                    codec_parity_shards(*self),
                )[i - codec_data_shards(*self)],
    {
        self.0.encode(shards)
    }

    /// Calls `ReedSolomon::reconstruct_data`, with buffers that are flagged as
    /// present or missing.
    ///
    /// Claims that it refuses buffers that are not as many as the codec has shards;
    /// then, at the first present one that does not fit, an empty one or one of
    /// another length; then too few present ones; then missing data buffers of
    /// another length; each with the error that its documentation or its source
    /// gives, and without touching anything. If none is missing it changes nothing.
    ///
    /// Otherwise it only fills missing data buffers. The data buffers then agree, as
    /// a code word, with the first present ones, as many as there are data shards;
    /// and they are the only data shards of that length that do, since any that
    /// many shards of a code word determine it.
    #[verifier::external_body]
    fn reconstruct_data(&self, buffers: &mut Vec<(Vec<u8>, bool)>) -> (r: Result<(), RsError>)
        ensures
            r is Ok <==> reconstruct_error(
                old(buffers)@,
                codec_data_shards(*self),
                codec_data_shards(*self) + codec_parity_shards(*self),
            ) is None,
            r is Err ==> r->Err_0 == reconstruct_error(
                old(buffers)@,
                codec_data_shards(*self),
                codec_data_shards(*self) + codec_parity_shards(*self),
            )->0,
            r is Err ==> final(buffers)@ == old(buffers)@,
            final(buffers)@.len() == old(buffers)@.len(),
            forall|i: int|
                0 <= i < old(buffers)@.len() ==> (#[trigger] final(buffers)@[i]).1 == old(
                    buffers,
                )@[i].1,
            forall|i: int|
                0 <= i < old(buffers)@.len() && (old(buffers)@[i].1 || i >= codec_data_shards(
                    *self,
                )) ==> (#[trigger] final(buffers)@[i]).0@ == old(buffers)@[i].0@,
            r is Ok ==> is_recovery(
                leading(final(buffers)@, codec_data_shards(*self)),
                codec_data_shards(*self),
                codec_parity_shards(*self),
                flagged(old(buffers)@),
            ),
            r is Ok ==> forall|data: Seq<Seq<u8>>| #[trigger]
                is_recovery(
                    data,
                    codec_data_shards(*self),
                    codec_parity_shards(*self),
                    flagged(old(buffers)@),
                ) ==> data == leading(final(buffers)@, codec_data_shards(*self)),
    {
        self.0.reconstruct_data(buffers)
    }
}

/// A codec for one shape: a number of data shards and a number of parity shards.
#[derive(Debug)]
pub struct ReedSolomon {
    codec: Codec,
    data_shards: usize,
    parity_shards: usize,
}

impl ReedSolomon {
    /// The shape is one that a codec can have, and is that of the outside codec.
    #[verifier::type_invariant]
    spec fn shape_is_known(self) -> bool {
        &&& shape_error(self.data_shards as nat, self.parity_shards as nat) is None
        &&& codec_data_shards(self.codec) == self.data_shards
        &&& codec_parity_shards(self.codec) == self.parity_shards
    }

    /// The number of data shards.
    pub closed spec fn data_shards(&self) -> nat {
        self.data_shards as nat
    }

    /// The number of parity shards.
    pub closed spec fn parity_shards(&self) -> nat {
        self.parity_shards as nat
    }

    /// Builds the codec of a shape.
    pub fn new(data_shards: usize, parity_shards: usize) -> (r: Result<Self, RsError>)
        requires
            data_shards + parity_shards <= usize::MAX,
        ensures
            shape_error(data_shards as nat, parity_shards as nat) is None ==> r is Ok
                && r->Ok_0.data_shards() == data_shards && r->Ok_0.parity_shards()
                == parity_shards,
            shape_error(data_shards as nat, parity_shards as nat) is Some ==> r is Err && r->Err_0
                == shape_error(data_shards as nat, parity_shards as nat)->0,
            r is Ok <==> 0 < data_shards && 0 < parity_shards && data_shards + parity_shards <= 256,
            data_shards == 0 ==> r is Err && r->Err_0 == RsError::TooFewDataShards,
            data_shards > 0 && parity_shards == 0 ==> r is Err && r->Err_0
                == RsError::TooFewParityShards,
            data_shards > 0 && parity_shards > 0 && data_shards + parity_shards > 256 ==> r is Err
                && r->Err_0 == RsError::TooManyShards,
    {
        match Codec::new(data_shards, parity_shards) {
            Ok(codec) => Ok(ReedSolomon { codec, data_shards, parity_shards }),
            Err(e) => Err(e),
        }
    }

    /// The number of data shards.
    pub fn data_shard_count(&self) -> (n: usize)
        ensures
            n == self.data_shards(),
    {
        self.data_shards
    }

    /// The number of parity shards.
    pub fn parity_shard_count(&self) -> (n: usize)
        ensures
            n == self.parity_shards(),
    {
        self.parity_shards
    }

    /// The number of shards, data and parity together.
    pub fn total_shard_count(&self) -> (n: usize)
        ensures
            n == self.data_shards() + self.parity_shards(),
    {
        proof {
            use_type_invariant(self);
        }
        self.data_shards + self.parity_shards
    }

    /// Constructs the parity shards, which stand behind the data shards. What stood
    /// there is overwritten.
    pub fn encode(&self, shards: &mut Vec<Vec<u8>>) -> (r: Result<(), RsError>)
        ensures
            r is Ok <==> encode_error(
                views(old(shards)@),
                self.data_shards() + self.parity_shards(),
            ) is None,
            r is Err ==> r->Err_0 == encode_error(
                views(old(shards)@),
                self.data_shards() + self.parity_shards(),
            )->0,
            r is Err ==> final(shards)@ == old(shards)@,
            final(shards)@.len() == old(shards)@.len(),
            forall|i: int|
                0 <= i < old(shards)@.len() ==> (#[trigger] final(shards)@[i])@.len() == old(
                    shards,
                )@[i]@.len(),
            r is Ok ==> forall|i: int|
                0 <= i < old(shards)@.len() ==> (#[trigger] final(shards)@[i])@ == code_word_shard(
                    views(old(shards)@).take(self.data_shards() as int),
                    self.parity_shards(),
                    i,
                ),
            old(shards)@.len() < self.data_shards() + self.parity_shards() ==> r is Err && r->Err_0
                == RsError::TooFewShards,
            old(shards)@.len() > self.data_shards() + self.parity_shards() ==> r is Err && r->Err_0
                == RsError::TooManyShards,
            old(shards)@.len() == self.data_shards() + self.parity_shards() && old(
                shards,
            )@[0]@.len() == 0 ==> r is Err && r->Err_0 == RsError::EmptyShard,
            forall|i: int|
                old(shards)@.len() == self.data_shards() + self.parity_shards() && old(
                    shards,
                )@[0]@.len() > 0 && 0 <= i < old(shards)@.len() && (
                #[trigger] old(shards)@[i])@.len() != old(shards)@[0]@.len() ==> r is Err
                    && r->Err_0 == RsError::IncorrectShardSize,
            old(shards)@.len() == self.data_shards() + self.parity_shards() && old(
                shards,
            )@[0]@.len() > 0 && (forall|i: int|
                0 <= i < old(shards)@.len() ==> (#[trigger] old(shards)@[i])@.len() == old(
                    shards,
                )@[0]@.len()) ==> r is Ok,
            r is Ok ==> forall|i: int|
                0 <= i < self.data_shards() ==> (#[trigger] final(shards)@[i])@ == old(
                    shards,
                )@[i]@,
            r is Ok ==> forall|j: int|
                0 <= j < self.parity_shards() ==> (
                #[trigger] final(shards)@[self.data_shards() + j])@ == parity_of(
                    Seq::new(self.data_shards(), |i: int| old(shards)@[i]@),
                    self.parity_shards(),
                )[j],
    {
        proof {
            use_type_invariant(self);
        }
        let ghost given = shards@;
        let r = self.codec.encode(shards);
        proof {
            let contents = views(given);
            assert(forall|i: int| 0 <= i < given.len() ==> #[trigger] contents[i] == given[i]@);
            assert forall|i: int|
                given.len() == self.data_shards() + self.parity_shards() && given[0]@.len() > 0
                    && 0 <= i < given.len() && (#[trigger] given[i])@.len()
                    != given[0]@.len() implies r is Err && r->Err_0
                == RsError::IncorrectShardSize by {
                assert(contents[i].len() != contents[0].len());
            }
            if given.len() == self.data_shards() + self.parity_shards() {
                assert(contents.take(self.data_shards() as int) =~= Seq::new(
                    self.data_shards(),
                    |i: int| given[i]@,
                ));
            }
        }
        r
    }

    /// Reconstructs the missing data shards in their buffers, which are flagged as
    /// present or missing. The flags stay as they are, and so does everything if an
    /// error is returned.
    pub fn reconstruct_data(&self, buffers: &mut Vec<(Vec<u8>, bool)>) -> (r: Result<(), RsError>)
        ensures
            r is Ok <==> reconstruct_error(
                old(buffers)@,
                self.data_shards(),
                self.data_shards() + self.parity_shards(),
            ) is None,
            r is Err ==> r->Err_0 == reconstruct_error(
                old(buffers)@,
                self.data_shards(),
                self.data_shards() + self.parity_shards(),
            )->0,
            r is Err ==> final(buffers)@ == old(buffers)@,
            final(buffers)@.len() == old(buffers)@.len(),
            forall|i: int|
                0 <= i < old(buffers)@.len() ==> (#[trigger] final(buffers)@[i]).1 == old(
                    buffers,
                )@[i].1,
            forall|i: int|
                0 <= i < old(buffers)@.len() && (old(buffers)@[i].1 || i >= self.data_shards())
                    ==> (#[trigger] final(buffers)@[i]).0@ == old(buffers)@[i].0@,
            r is Ok ==> is_recovery(
                leading(final(buffers)@, self.data_shards()),
                self.data_shards(),
                self.parity_shards(),
                flagged(old(buffers)@),
            ),
            r is Ok ==> forall|data: Seq<Seq<u8>>| #[trigger]
                is_recovery(
                    data,
                    self.data_shards(),
                    self.parity_shards(),
                    flagged(old(buffers)@),
                ) ==> data == leading(final(buffers)@, self.data_shards()),
            old(buffers)@.len() < self.data_shards() + self.parity_shards() ==> r is Err
                && r->Err_0 == RsError::TooFewShards,
            old(buffers)@.len() > self.data_shards() + self.parity_shards() ==> r is Err
                && r->Err_0 == RsError::TooManyShards,
            forall|i: int|
                0 <= i < old(buffers)@.len() && r is Ok && (#[trigger] old(buffers)@[i]).1 ==> old(
                    buffers,
                )@[i].0@.len() > 0,
            forall|i: int, j: int|
                0 <= i < old(buffers)@.len() && 0 <= j < old(buffers)@.len() && r is Ok && (
                #[trigger] old(buffers)@[i]).1 && (#[trigger] old(buffers)@[j]).1 ==> old(
                    buffers,
                )@[i].0@.len() == old(buffers)@[j].0@.len(),
            r is Ok ==> Set::new(
                |i: int| 0 <= i < old(buffers)@.len() && old(buffers)@[i].1,
            ).len() >= self.data_shards(),
            forall|i: int|
                old(buffers)@.len() == self.data_shards() + self.parity_shards()
                    && 0 <= i < old(buffers)@.len() && (#[trigger] old(buffers)@[i]).1
                    && old(buffers)@[i].0@.len() == 0 && (forall|j: int|
                    0 <= j < i && (#[trigger] old(buffers)@[j]).1
                        ==> old(buffers)@[j].0@.len() > 0) && (forall|j: int, k: int|
                    0 <= j < k < i && (#[trigger] old(buffers)@[j]).1
                        && (#[trigger] old(buffers)@[k]).1
                        ==> old(buffers)@[j].0@.len() == old(buffers)@[k].0@.len())
                            ==> r is Err && r->Err_0
                    == RsError::EmptyShard,
            forall|i: int, n: int|
                old(buffers)@.len() == self.data_shards() + self.parity_shards()
                    && 0 <= n < i < old(buffers)@.len() && (#[trigger] old(buffers)@[i]).1
                    && old(buffers)@[i].0@.len() > 0 && (#[trigger] old(buffers)@[n]).1
                        && old(buffers)@[n].0@.len()
                    != old(buffers)@[i].0@.len() && (forall|j: int|
                    0 <= j < i && (#[trigger] old(buffers)@[j]).1
                        ==> old(buffers)@[j].0@.len() > 0) && (forall|j: int, k: int|
                    0 <= j < k < i && (#[trigger] old(buffers)@[j]).1
                        && (#[trigger] old(buffers)@[k]).1
                        ==> old(buffers)@[j].0@.len() == old(buffers)@[k].0@.len())
                            ==> r is Err && r->Err_0
                    == RsError::IncorrectShardSize,
            old(buffers)@.len() == self.data_shards() + self.parity_shards() && (forall|i: int|
                0 <= i < old(buffers)@.len() && (#[trigger] old(buffers)@[i]).1
                    ==> old(buffers)@[i].0@.len() > 0) && (forall|
                i: int,
                j: int,
            |
                0 <= i < old(buffers)@.len() && 0 <= j < old(buffers)@.len()
                    && (#[trigger] old(buffers)@[i]).1 && (#[trigger] old(buffers)@[j]).1
                    ==> old(buffers)@[i].0@.len() == old(buffers)@[j].0@.len()) ==> (if Set::new(
                |i: int| 0 <= i < old(buffers)@.len() && old(buffers)@[i].1,
            ).len() < self.data_shards() {
                r is Err && r->Err_0 == RsError::TooFewShardsPresent
            } else if exists|i: int, j: int|
                0 <= i < self.data_shards() && 0 <= j < old(buffers)@.len()
                    && !(#[trigger] old(buffers)@[i]).1 && (
                #[trigger] old(buffers)@[j]).1
                    && old(buffers)@[i].0@.len() != old(buffers)@[j].0@.len() {
                r is Err && r->Err_0 == RsError::IncorrectShardSize
            } else {
                r is Ok
            }),
            r is Ok ==> forall|i: int|
                self.data_shards() <= i < old(buffers)@.len() && (#[trigger] old(buffers)@[i]).1
                    && Set::new(|k: int| 0 <= k < i && old(buffers)@[k].1).len()
                    < self.data_shards() ==> old(buffers)@[i].0@ == parity_of(
                    Seq::new(self.data_shards(), |k: int| final(buffers)@[k].0@),
                    self.parity_shards(),
                )[i - self.data_shards()],
            r is Ok ==> forall|data: Seq<Seq<u8>>|
                #![trigger data.len()]
                {
                    &&& data.len() == self.data_shards()
                    &&& forall|i: int, j: int|
                        0 <= i < old(buffers)@.len() && (#[trigger] old(buffers)@[i]).1 && 0 <= j
                            < data.len() ==> (#[trigger] data[j]).len() == old(
                            buffers,
                        )@[i].0@.len()
                    &&& forall|i: int|
                        0 <= i < self.data_shards() && (#[trigger] old(buffers)@[i]).1 ==> old(
                            buffers,
                        )@[i].0@ == data[i]
                    &&& forall|i: int|
                        self.data_shards() <= i < old(buffers)@.len() && (
                        #[trigger] old(buffers)@[i]).1 ==> old(buffers)@[i].0@ == parity_of(
                            data,
                            self.parity_shards(),
                        )[i - self.data_shards()]
                } ==> forall|i: int|
                    0 <= i < self.data_shards() ==> (#[trigger] final(buffers)@[i]).0@ == data[i],
    {
        proof {
            use_type_invariant(self);
        }
        let ghost given = buffers@;
        let r = self.codec.reconstruct_data(buffers);
        proof {
            reconstruction_is_decided_by_buffers(
                given,
                buffers@,
                self.data_shards(),
                self.parity_shards(),
                r,
            );
        }
        r
    }
}

} // verus!

//! What a sender puts into datagrams, and what a receiver makes of them.
//!
//! A datagram is the index of a pshred, four big-endian bytes, and the pshred. The
//! index is needed at this layer, since only data shards carry one of their own:
//! parity shards are pure Reed-Solomon output.

use crate::bytes::{
    be_bytes, be_bytes_are_base_256_digits, be_bytes_is_injective, be_value,
    be_value_inverts_be_bytes, option_views, push_be, read_be,
};
use crate::codec::{present_count, present_count_is_number_of_present_shards};
use crate::error::DecodeError;
use crate::fec::{
    any_quorum_recovers_payload, decode_outcome, is_encoding, is_lossy_copy, DATA_PSHREDS,
    TOTAL_PSHREDS,
};
use vstd::prelude::*;

verus! {

/// The length of the index in front of a pshred.
pub const INDEX_LEN: usize = 4;

/// The datagram that carries pshred `index`.
pub open spec fn framed(index: u32, shred: Seq<u8>) -> Seq<u8> {
    be_bytes(index) + shred
}

/// The pshreds of a receiver that has received nothing.
pub open spec fn nothing_received() -> Seq<Option<Seq<u8>>> {
    Seq::new(TOTAL_PSHREDS as nat, |i: int| None)
}

/// The pshreds of a receiver after one more datagram: one that is too short for
/// an index, or whose index is out of range, is ignored; a later datagram
/// replaces an earlier one with the same index.
pub open spec fn with_datagram(pshreds: Seq<Option<Seq<u8>>>, datagram: Seq<u8>) -> Seq<
    Option<Seq<u8>>,
> {
    if datagram.len() >= INDEX_LEN && be_value(datagram) < TOTAL_PSHREDS {
        pshreds.update(be_value(datagram), Some(datagram.skip(INDEX_LEN as int)))
    } else {
        pshreds
    }
}

/// The pshreds of a receiver that has received the given datagrams, in this order.
pub open spec fn collected(datagrams: Seq<Seq<u8>>) -> Seq<Option<Seq<u8>>>
    decreases datagrams.len(),
{
    if datagrams.len() == 0 {
        nothing_received()
    } else {
        with_datagram(collected(datagrams.drop_last()), datagrams.last())
    }
}

/// Whether every datagram carries one of the pshreds `sent`.
pub open spec fn all_carry(datagrams: Seq<Seq<u8>>, sent: Seq<Seq<u8>>) -> bool {
    forall|k: int|
        0 <= k < datagrams.len() ==> exists|i: int|
            0 <= i < sent.len() && #[trigger] datagrams[k] == #[trigger] framed(i as u32, sent[i])
}

/// What a receiver finds when it compares what it decoded with what it expected.
#[derive(Clone, Copy, Debug, PartialEq, Eq, Structural)]
pub enum Verdict {
    /// The payload was recovered.
    Recovered,
    /// A payload was decoded, but not the expected one.
    Mismatch,
    /// No payload was decoded.
    Failed,
}

/// A receiver puts a framed pshred into its place, and leaves the others alone.
pub proof fn framed_pshred_is_stored(pshreds: Seq<Option<Seq<u8>>>, index: u32, shred: Seq<u8>)
    requires
        index < TOTAL_PSHREDS,
    ensures
        with_datagram(pshreds, framed(index, shred)) == pshreds.update(index as int, Some(shred)),
{
    let datagram = framed(index, shred);
    be_value_inverts_be_bytes(index);
    assert(datagram.skip(INDEX_LEN as int) =~= shred);
    assert(be_value(datagram) == be_value(be_bytes(index)));
}

/// Whatever datagrams with the pshreds `sent` arrive, in whatever order and how
/// often, the receiver ends up with the pshreds that arrived, and with no others.
pub proof fn collected_is_what_arrived(datagrams: Seq<Seq<u8>>, sent: Seq<Seq<u8>>)
    requires
        sent.len() == TOTAL_PSHREDS,
        all_carry(datagrams, sent),
    ensures
        is_lossy_copy(collected(datagrams), sent),
        forall|i: int|
            0 <= i < TOTAL_PSHREDS ==> ((#[trigger] collected(datagrams)[i]) is Some
                <==> datagrams.contains(framed(i as u32, sent[i]))),
    decreases datagrams.len(),
{
    if datagrams.len() > 0 {
        let earlier = datagrams.drop_last();
        assert forall|k: int| 0 <= k < earlier.len() implies exists|i: int|
            0 <= i < sent.len() && #[trigger] earlier[k] == #[trigger] framed(
                i as u32,
                sent[i],
            ) by {
            assert(datagrams[k] == earlier[k]);
        }
        collected_is_what_arrived(earlier, sent);
        let last = datagrams[datagrams.len() - 1];
        let n = choose|i: int|
            0 <= i < sent.len() && last == #[trigger] framed(i as u32, sent[i]);
        framed_pshred_is_stored(collected(earlier), n as u32, sent[n]);
        assert forall|i: int| 0 <= i < TOTAL_PSHREDS implies ((#[trigger] collected(
            datagrams,
        )[i]) is Some <==> datagrams.contains(framed(i as u32, sent[i]))) by {
            let wanted = framed(i as u32, sent[i]);
            if i == n {
                assert(datagrams[datagrams.len() - 1] == wanted);
            } else {
                if collected(datagrams)[i] is Some {
                    let k = choose|k: int| 0 <= k < earlier.len() && earlier[k] == wanted;
                    assert(datagrams[k] == wanted);
                }
                if datagrams.contains(wanted) {
                    let k = choose|k: int| 0 <= k < datagrams.len() && datagrams[k] == wanted;
                    if k == datagrams.len() - 1 {
                        assert(wanted.take(4) =~= be_bytes(i as u32));
                        assert(last.take(4) =~= be_bytes(n as u32));
                        be_bytes_is_injective(i as u32, n as u32);
                    }
                    assert(earlier[k] == wanted);
                }
            }
        }
    }
}

/// A payload whose pshreds are sent as datagrams is recovered from those that
/// arrive, as soon as they carry `DATA_PSHREDS` different pshreds.
pub proof fn delivered_quorum_recovers_payload(
    payload: Seq<u8>,
    sent: Seq<Seq<u8>>,
    datagrams: Seq<Seq<u8>>,
    decoded: Result<Vec<u8>, DecodeError>,
)
    requires
        payload.len() <= u32::MAX,
        is_encoding(sent, payload),
        all_carry(datagrams, sent),
        present_count(collected(datagrams)) >= DATA_PSHREDS,
        decode_outcome(collected(datagrams), decoded),
    ensures
        decoded is Ok,
        decoded->Ok_0@ == payload,
{
    collected_is_what_arrived(datagrams, sent);
    any_quorum_recovers_payload(payload, sent, collected(datagrams), decoded);
}

/// The datagram of a pshred is its index, in base 256 and the most significant digit
/// first, and then the pshred, byte by byte.
pub proof fn datagram_is_index_then_pshred(index: u32, shred: Seq<u8>)
    ensures
        framed(index, shred).len() == 4 + shred.len(),
        framed(index, shred)[0] * 16777216 + framed(index, shred)[1] * 65536 + framed(
            index,
            shred,
        )[2] * 256 + framed(index, shred)[3] == index,
        framed(index, shred).skip(4) == shred,
{
    be_bytes_are_base_256_digits(index);
    assert(framed(index, shred).skip(4) =~= shred);
}

/// A stray datagram, one of fewer than four bytes or whose first four give a number
/// that no pshred has, changes nothing.
pub proof fn stray_datagram_changes_nothing(pshreds: Seq<Option<Seq<u8>>>, datagram: Seq<u8>)
    requires
        datagram.len() < 4 || datagram[0] * 16777216 + datagram[1] * 65536 + datagram[2] * 256
            + datagram[3] >= TOTAL_PSHREDS,
    ensures
        with_datagram(pshreds, datagram) == pshreds,
{
}

/// A datagram whose first four bytes give the index of a pshred puts the rest of it
/// into that place, and leaves all other places alone.
pub proof fn indexed_datagram_is_stored(pshreds: Seq<Option<Seq<u8>>>, datagram: Seq<u8>, i: int)
    requires
        pshreds.len() == TOTAL_PSHREDS,
        datagram.len() >= 4,
        i == datagram[0] * 16777216 + datagram[1] * 65536 + datagram[2] * 256 + datagram[3],
        i < TOTAL_PSHREDS,
    ensures
        with_datagram(pshreds, datagram).len() == TOTAL_PSHREDS,
        with_datagram(pshreds, datagram)[i] == Some(datagram.skip(4)),
        forall|k: int|
            0 <= k < TOTAL_PSHREDS && k != i ==> #[trigger] with_datagram(pshreds, datagram)[k]
                == pshreds[k],
{
}

/// In each place stands what the last datagram with that index carried, whatever
/// other datagrams came before, between and behind; where no datagram had the index,
/// nothing stands.
pub proof fn last_datagram_of_index_counts(datagrams: Seq<Seq<u8>>, i: int)
    requires
        0 <= i < TOTAL_PSHREDS,
    ensures
        collected(datagrams).len() == TOTAL_PSHREDS,
        forall|n: int|
            0 <= n < datagrams.len() && (#[trigger] datagrams[n]).len() >= 4
                && be_value(datagrams[n]) == i && (forall|
                m: int,
            |
                n < m < datagrams.len() && (#[trigger] datagrams[m]).len() >= 4
                    ==> be_value(datagrams[m]) != i) ==> collected(datagrams)[i] == Some(
                datagrams[n].skip(4),
            ),
        (forall|n: int|
            0 <= n < datagrams.len() && (#[trigger] datagrams[n]).len() >= 4
                ==> be_value(datagrams[n]) != i) ==> collected(datagrams)[i] is None,
    decreases datagrams.len(),
{
    if datagrams.len() > 0 {
        let earlier = datagrams.drop_last();
        let end = datagrams.len() - 1;
        let last = datagrams[end];
        assert(datagrams.last() == last);
        assert(forall|n: int| 0 <= n < end ==> #[trigger] earlier[n] == datagrams[n]);
        last_datagram_of_index_counts(earlier, i);
        if last.len() < 4 || be_value(last) >= TOTAL_PSHREDS {
            stray_datagram_changes_nothing(collected(earlier), last);
        } else {
            indexed_datagram_is_stored(collected(earlier), last, be_value(last));
        }
        assert forall|n: int|
            0 <= n < datagrams.len() && (#[trigger] datagrams[n]).len() >= 4
                && be_value(datagrams[n]) == i && (forall|
                m: int,
            |
                n < m < datagrams.len() && (#[trigger] datagrams[m]).len() >= 4
                    ==> be_value(datagrams[m]) != i) implies collected(datagrams)[i] == Some(
            datagrams[n].skip(4),
        ) by {
            if n < end {
                assert(earlier[n] == datagrams[n]);
                assert forall|m: int|
                    n < m < earlier.len() && (#[trigger] earlier[m]).len() >= 4
                        implies be_value(earlier[m]) != i by {
                    assert(datagrams[m] == earlier[m]);
                }
                assert(datagrams[end].len() >= 4 ==> be_value(datagrams[end]) != i);
            }
        }
        if forall|n: int|
            0 <= n < datagrams.len() && (#[trigger] datagrams[n]).len() >= 4
                ==> be_value(datagrams[n]) != i {
            assert forall|n: int|
                0 <= n < earlier.len() && (#[trigger] earlier[n]).len() >= 4
                    implies be_value(earlier[n]) != i by {
                assert(datagrams[n] == earlier[n]);
            }
            assert(datagrams[end].len() >= 4 ==> be_value(datagrams[end]) != i);
        }
    }
}

/// Stray datagrams do not disturb a receiver. If every datagram with the index of a
/// pshred carries that pshred of `sent`, and the others are of any kind, then the
/// receiver ends up with the pshreds that arrived, and with no others.
pub proof fn strays_do_not_disturb_collection(datagrams: Seq<Seq<u8>>, sent: Seq<Seq<u8>>)
    requires
        sent.len() == TOTAL_PSHREDS,
        forall|n: int|
            0 <= n < datagrams.len() && (#[trigger] datagrams[n]).len() >= 4
                && be_value(datagrams[n]) < TOTAL_PSHREDS
                ==> datagrams[n].skip(4) == sent[be_value(datagrams[n])],
    ensures
        collected(datagrams).len() == TOTAL_PSHREDS,
        forall|i: int|
            0 <= i < TOTAL_PSHREDS && (#[trigger] collected(datagrams)[i]) is Some ==> collected(
                datagrams,
            )[i]->0 == sent[i],
        forall|i: int|
            0 <= i < TOTAL_PSHREDS ==> ((#[trigger] collected(datagrams)[i]) is Some <==> exists|
                n: int,
            |
                0 <= n < datagrams.len() && (#[trigger] datagrams[n]).len() >= 4
                    && be_value(datagrams[n]) == i),
{
    last_datagram_of_index_counts(datagrams, 0);
    assert forall|i: int| 0 <= i < TOTAL_PSHREDS implies (#[trigger] collected(
        datagrams,
    )[i] is Some ==> collected(datagrams)[i]->0 == sent[i]) && (collected(
        datagrams,
    )[i] is Some <==> exists|n: int|
        0 <= n < datagrams.len() && (#[trigger] datagrams[n]).len() >= 4
            && be_value(datagrams[n]) == i) by {
        last_datagram_of_index_counts(datagrams, i);
        if exists|n: int|
            0 <= n < datagrams.len() && (#[trigger] datagrams[n]).len() >= 4
                && be_value(datagrams[n]) == i {
            let n = choose|n: int|
                0 <= n < datagrams.len() && (#[trigger] datagrams[n]).len() >= 4
                    && be_value(datagrams[n]) == i;
            let last = last_with_index(datagrams, i, n);
            assert(datagrams[last].len() >= 4);
        }
    }
}

/// Of the datagrams with one index, there is a last one.
proof fn last_with_index(datagrams: Seq<Seq<u8>>, i: int, from: int) -> (last: int)
    requires
        0 <= from < datagrams.len(),
        datagrams[from].len() >= 4,
        be_value(datagrams[from]) == i,
    ensures
        0 <= last < datagrams.len(),
        datagrams[last].len() >= 4,
        be_value(datagrams[last]) == i,
        forall|m: int|
            last < m < datagrams.len() && (#[trigger] datagrams[m]).len() >= 4
                ==> be_value(datagrams[m]) != i,
    decreases datagrams.len() - from,
{
    if exists|m: int|
        from < m < datagrams.len() && (#[trigger] datagrams[m]).len() >= 4
            && be_value(datagrams[m]) == i {
        let m = choose|m: int|
            from < m < datagrams.len() && (#[trigger] datagrams[m]).len() >= 4
                && be_value(datagrams[m]) == i;
        last_with_index(datagrams, i, m)
    } else {
        from
    }
}

/// A payload whose pshreds are sent as datagrams is recovered from those that arrive,
/// as soon as they carry `DATA_PSHREDS` different pshreds, whatever stray datagrams
/// come with them.
pub proof fn strays_do_not_hinder_recovery(
    payload: Seq<u8>,
    sent: Seq<Seq<u8>>,
    datagrams: Seq<Seq<u8>>,
    decoded: Result<Vec<u8>, DecodeError>,
)
    requires
        payload.len() <= u32::MAX,
        is_encoding(sent, payload),
        forall|n: int|
            0 <= n < datagrams.len() && (#[trigger] datagrams[n]).len() >= 4
                && be_value(datagrams[n]) < TOTAL_PSHREDS
                ==> datagrams[n].skip(4) == sent[be_value(datagrams[n])],
        Set::new(
            |i: int|
                0 <= i < TOTAL_PSHREDS && exists|n: int|
                    0 <= n < datagrams.len() && (#[trigger] datagrams[n]).len() >= 4
                        && be_value(datagrams[n]) == i,
        ).len() >= DATA_PSHREDS,
        decode_outcome(collected(datagrams), decoded),
    ensures
        decoded is Ok,
        decoded->Ok_0@ == payload,
{
    let received = collected(datagrams);
    strays_do_not_disturb_collection(datagrams, sent);
    present_count_is_number_of_present_shards(received);
    assert(Set::new(|i: int| 0 <= i < received.len() && received[i] is Some) =~= Set::new(
        |i: int|
            0 <= i < TOTAL_PSHREDS && exists|n: int|
                0 <= n < datagrams.len() && (#[trigger] datagrams[n]).len() >= 4
                    && be_value(datagrams[n]) == i,
    ));
    any_quorum_recovers_payload(payload, sent, received, decoded);
}

/// A fixed pattern (not random), so that a receiver can recompute the expected
/// payload without any out-of-band coordination.
pub fn deterministic_payload(len: usize) -> (payload: Vec<u8>)
    ensures
        payload@ == Seq::new(len as nat, |i: int| (i % 256) as u8),
{
    let mut payload: Vec<u8> = Vec::with_capacity(len);
    let mut i: usize = 0;
    while i < len
        invariant
            i <= len,
            payload@ == Seq::new(i as nat, |i: int| (i % 256) as u8),
        decreases len - i,
    {
        payload.push((i % 256) as u8);
        i = i + 1;
        assert(payload@ =~= Seq::new(i as nat, |i: int| (i % 256) as u8));
    }
    payload
}

/// Frames pshred `index` as a datagram.
pub fn frame_pshred(index: u32, shred: &[u8]) -> (datagram: Vec<u8>)
    ensures
        datagram@ == framed(index, shred@),
        datagram@.len() == 4 + shred@.len(),
        datagram@[0] * 16777216 + datagram@[1] * 65536 + datagram@[2] * 256 + datagram@[3] == index,
        datagram@.skip(4) == shred@,
{
    let mut datagram: Vec<u8> = Vec::new();
    push_be(&mut datagram, index);
    datagram.extend_from_slice(shred);
    assert(datagram@ =~= framed(index, shred@));
    proof {
        datagram_is_index_then_pshred(index, shred@);
    }
    datagram
}

/// The pshreds of a receiver that has received nothing yet.
pub fn new_collection() -> (pshreds: Vec<Option<Vec<u8>>>)
    ensures
        pshreds@.len() == TOTAL_PSHREDS,
        option_views(pshreds@) == nothing_received(),
        forall|i: int| 0 <= i < TOTAL_PSHREDS ==> (#[trigger] pshreds@[i]) is None,
{
    let mut pshreds: Vec<Option<Vec<u8>>> = Vec::with_capacity(TOTAL_PSHREDS);
    while pshreds.len() < TOTAL_PSHREDS
        invariant
            pshreds@.len() <= TOTAL_PSHREDS,
            forall|i: int| 0 <= i < pshreds@.len() ==> (#[trigger] pshreds@[i]) is None,
        decreases TOTAL_PSHREDS - pshreds@.len(),
    {
        pshreds.push(None);
    }
    assert(option_views(pshreds@) =~= nothing_received());
    pshreds
}

/// Takes a datagram in.
pub fn accept_datagram(pshreds: &mut Vec<Option<Vec<u8>>>, datagram: &[u8])
    requires
        old(pshreds)@.len() == TOTAL_PSHREDS,
    ensures
        option_views(final(pshreds)@) == with_datagram(option_views(old(pshreds)@), datagram@),
        final(pshreds)@.len() == TOTAL_PSHREDS,
        datagram@.len() < 4 || datagram@[0] * 16777216 + datagram@[1] * 65536 + datagram@[2] * 256
            + datagram@[3] >= TOTAL_PSHREDS ==> final(pshreds)@ == old(pshreds)@,
        forall|i: int|
            datagram@.len() >= 4 && i == datagram@[0] * 16777216 + datagram@[1] * 65536
                + datagram@[2] * 256 + datagram@[3] && i < TOTAL_PSHREDS ==> (
            #[trigger] final(pshreds)@[i]) is Some && final(pshreds)@[i]->0@ == datagram@.skip(4),
        forall|i: int|
            0 <= i < TOTAL_PSHREDS && (datagram@.len() < 4 || i != datagram@[0] * 16777216
                + datagram@[1] * 65536 + datagram@[2] * 256 + datagram@[3])
                ==> #[trigger] final(pshreds)@[i] == old(pshreds)@[i],
{
    if datagram.len() < INDEX_LEN {
        return ;
    }
    let index: u32 = read_be(datagram, 0);
    if (index as usize) < TOTAL_PSHREDS {
        let shred: Vec<u8> = vstd::slice::slice_to_vec(
            vstd::slice::slice_subrange(datagram, INDEX_LEN, datagram.len()),
        );
        pshreds.set(index as usize, Some(shred));
        assert(shred@ =~= datagram@.skip(INDEX_LEN as int));
    }
    assert(be_value(datagram@) == index);
    assert(option_views(pshreds@) =~= with_datagram(option_views(old(pshreds)@), datagram@));
}

/// Whether two byte strings are the same.
fn same_bytes(a: &[u8], b: &[u8]) -> (same: bool)
    ensures
        same == (a@ == b@),
{
    if a.len() != b.len() {
        return false;
    }
    let mut i: usize = 0;
    while i < a.len()
        invariant
            i <= a@.len() == b@.len(),
            a@.take(i as int) == b@.take(i as int),
        decreases a@.len() - i,
    {
        if a[i] != b[i] {
            return false;
        }
        i = i + 1;
        assert(a@.take(i as int) =~= a@.take(i - 1).push(a@[i - 1]));
        assert(b@.take(i as int) =~= b@.take(i - 1).push(b@[i - 1]));
    }
    assert(a@.take(i as int) =~= a@);
    assert(b@.take(i as int) =~= b@);
    true
}

/// Compares what was decoded with the expected payload.
pub fn judge(decoded: &Result<Vec<u8>, DecodeError>, expected: &[u8]) -> (verdict: Verdict)
    ensures
        verdict == (match *decoded {
            Ok(recovered) => if recovered@ == expected@ {
                Verdict::Recovered
            } else {
                Verdict::Mismatch
            },
            Err(_) => Verdict::Failed,
        }),
{
    match decoded {
        Ok(recovered) => if same_bytes(recovered.as_slice(), expected) {
            Verdict::Recovered
        } else {
            Verdict::Mismatch
        },
        Err(_) => Verdict::Failed,
    }
}

} // verus!

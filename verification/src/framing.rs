//! How a payload is laid out over data shards, and put together from them.
//!
//! Every data shard starts with its index and the payload's length, four
//! big-endian bytes each. Behind that header stands the shard's chunk of the
//! payload; all chunks have one length, and the last ones are padded with zeros.

use crate::bytes::{
    be_bytes, be_bytes_are_base_256_digits, be_value, be_value_inverts_be_bytes,
    be_value_tells_bytes_apart, push_be, read_be, views, views_hold_contents,
};
use crate::error::{DecodeError, EncodeError};
use crate::fec::DATA_PSHREDS;
use vstd::prelude::*;

verus! {

/// Per-shard header: 4-byte BE shard index + 4-byte BE total payload length.
pub const HEADER_LEN: usize = 8;

/// The length of every chunk of a payload of `len` bytes: the least that lets
/// `DATA_PSHREDS` chunks hold it.
pub open spec fn chunk_len(len: nat) -> nat {
    (len + DATA_PSHREDS - 1) as nat / DATA_PSHREDS as nat
}

/// The length of every shard of a payload of `len` bytes.
pub open spec fn shard_len(len: nat) -> nat {
    HEADER_LEN as nat + chunk_len(len)
}

/// Byte `k` of the payload, which zeros follow without end.
pub open spec fn padded(payload: Seq<u8>, k: int) -> u8 {
    if k < payload.len() {
        payload[k]
    } else {
        0
    }
}

/// The `n` bytes that start at byte `from` of the payload padded with zeros.
pub open spec fn padded_bytes(payload: Seq<u8>, from: int, n: nat) -> Seq<u8> {
    Seq::new(n, |j: int| padded(payload, from + j))
}

/// Data shard `i` of a payload: its header, then its chunk.
pub open spec fn data_shard(payload: Seq<u8>, i: int) -> Seq<u8> {
    be_bytes(i as u32) + be_bytes(payload.len() as u32) + padded_bytes(
        payload,
        i * chunk_len(payload.len()),
        chunk_len(payload.len()),
    )
}

/// All data shards of a payload.
pub open spec fn data_shards(payload: Seq<u8>) -> Seq<Seq<u8>> {
    Seq::new(DATA_PSHREDS as nat, |i: int| data_shard(payload, i))
}

/// The payload length that the header of a shard gives.
pub open spec fn length_field(shard: Seq<u8>) -> int {
    be_value(shard.subrange(4, 8))
}

/// What the shards hold behind their headers, one after the other.
pub open spec fn bodies(shards: Seq<Seq<u8>>) -> Seq<u8>
    decreases shards.len(),
{
    if shards.len() == 0 {
        Seq::empty()
    } else {
        bodies(shards.drop_last()) + shards.last().skip(HEADER_LEN as int)
    }
}

/// The first `n` bytes of `s`, or all of it where it is shorter.
pub open spec fn cut(s: Seq<u8>, n: int) -> Seq<u8> {
    if n <= s.len() {
        s.take(n)
    } else {
        s
    }
}

/// Whether there are shards, and their headers give one payload length.
pub open spec fn lengths_agree(shards: Seq<Seq<u8>>) -> bool {
    &&& shards.len() > 0
    &&& forall|i: int|
        0 <= i < shards.len() ==> #[trigger] length_field(shards[i]) == length_field(shards[0])
}

/// The payload that data shards hold: their bodies, cut at the length that all
/// headers give.
pub open spec fn joined(shards: Seq<Seq<u8>>) -> Seq<u8> {
    cut(bodies(shards), length_field(shards[0]))
}

/// Whether `r` is what the data shards `shards` decode to.
pub open spec fn join_outcome(shards: Seq<Seq<u8>>, r: Result<Vec<u8>, DecodeError>) -> bool {
    if lengths_agree(shards) {
        r is Ok && r->Ok_0@ == joined(shards)
    } else {
        r is Err && r->Err_0 is Corrupt
    }
}

/// The chunks of a payload hold all of it.
pub proof fn chunks_cover_payload(len: nat)
    ensures
        len <= DATA_PSHREDS * chunk_len(len) < len + DATA_PSHREDS,
{
}

/// Data shards have the length `shard_len`, and their header gives the length of
/// the payload.
pub proof fn data_shard_is_framed(payload: Seq<u8>, i: int)
    requires
        payload.len() <= u32::MAX,
    ensures
        data_shard(payload, i).len() == shard_len(payload.len()),
        data_shard(payload, i).subrange(0, 4) == be_bytes(i as u32),
        length_field(data_shard(payload, i)) == payload.len(),
        data_shard(payload, i).skip(HEADER_LEN as int) == padded_bytes(
            payload,
            i * chunk_len(payload.len()),
            chunk_len(payload.len()),
        ),
{
    let shard = data_shard(payload, i);
    assert(shard.subrange(0, 4) =~= be_bytes(i as u32));
    assert(shard.subrange(4, 8) =~= be_bytes(payload.len() as u32));
    be_value_inverts_be_bytes(payload.len() as u32);
    assert(shard.skip(HEADER_LEN as int) =~= padded_bytes(
        payload,
        i * chunk_len(payload.len()),
        chunk_len(payload.len()),
    ));
}

/// The bodies of the first `n` data shards are the first `n` chunks.
proof fn bodies_of_data_shards(payload: Seq<u8>, n: int)
    requires
        payload.len() <= u32::MAX,
        0 <= n <= DATA_PSHREDS,
    ensures
        bodies(data_shards(payload).take(n)) == padded_bytes(
            payload,
            0,
            (n * chunk_len(payload.len())) as nat,
        ),
    decreases n,
{
    let c = chunk_len(payload.len());
    let shards = data_shards(payload);
    assert(0 <= n * c) by (nonlinear_arith)
        requires
            0 <= n,
            0 <= c,
    ;
    if n == 0 {
        assert(n * c == 0) by (nonlinear_arith)
            requires
                n == 0,
        ;
    } else {
        bodies_of_data_shards(payload, n - 1);
        data_shard_is_framed(payload, n - 1);
        assert(shards.take(n).drop_last() =~= shards.take(n - 1));
        assert(shards.take(n).last() == data_shard(payload, n - 1));
        assert(n * c == (n - 1) * c + c && 0 <= (n - 1) * c) by (nonlinear_arith)
            requires
                1 <= n,
                0 <= c,
        ;
    }
    assert(bodies(shards.take(n)) =~= padded_bytes(payload, 0, (n * c) as nat));
}

/// Joining the data shards of a payload gives the payload back.
pub proof fn joining_inverts_splitting(payload: Seq<u8>)
    requires
        payload.len() <= u32::MAX,
    ensures
        lengths_agree(data_shards(payload)),
        joined(data_shards(payload)) == payload,
{
    let shards = data_shards(payload);
    assert forall|i: int| 0 <= i < shards.len() implies #[trigger] length_field(shards[i])
        == payload.len() by {
        data_shard_is_framed(payload, i);
    }
    assert(length_field(shards[0]) == payload.len());
    bodies_of_data_shards(payload, DATA_PSHREDS as int);
    assert(shards.take(DATA_PSHREDS as int) =~= shards);
    chunks_cover_payload(payload.len());
    assert(joined(shards) =~= payload);
}

/// Payloads with the same data shards are the same payload.
pub proof fn splitting_is_injective(a: Seq<u8>, b: Seq<u8>)
    requires
        a.len() <= u32::MAX,
        b.len() <= u32::MAX,
        data_shards(a) == data_shards(b),
    ensures
        a == b,
{
    joining_inverts_splitting(a);
    joining_inverts_splitting(b);
}

/// How a payload lies in its data shards. There are `DATA_PSHREDS` of them, each the
/// header and a 64th of the payload's length long, rounded up. A shard starts with
/// its own position and the length of the payload. Behind that, the bytes of all
/// shards are the payload in order, and then nothing but zeros.
pub proof fn data_shards_lay_payload_out(payload: Seq<u8>)
    requires
        payload.len() <= u32::MAX,
    ensures
        data_shards(payload).len() == DATA_PSHREDS,
        forall|i: int|
            0 <= i < DATA_PSHREDS ==> (#[trigger] data_shards(payload)[i]).len() == 8 + (
            payload.len() + 63) / 64,
        forall|i: int|
            0 <= i < DATA_PSHREDS ==> (#[trigger] data_shards(payload)[i])[0] == 0 && data_shards(
                payload,
            )[i][1] == 0 && data_shards(payload)[i][2] == 0 && data_shards(payload)[i][3] == i,
        forall|i: int|
            0 <= i < DATA_PSHREDS ==> (#[trigger] data_shards(payload)[i])[4] * 16777216
                + data_shards(payload)[i][5] * 65536 + data_shards(payload)[i][6] * 256
                + data_shards(payload)[i][7] == payload.len(),
        forall|i: int, k: int|
            0 <= i < DATA_PSHREDS && 0 <= k < (payload.len() + 63) / 64 && i * ((payload.len() + 63)
                / 64) + k < payload.len() ==> #[trigger] data_shards(payload)[i][8 + k] == payload[i
                * ((payload.len() + 63) / 64) + k],
        forall|i: int, k: int|
            0 <= i < DATA_PSHREDS && 0 <= k < (payload.len() + 63) / 64 && i * ((payload.len() + 63)
                / 64) + k >= payload.len() ==> #[trigger] data_shards(payload)[i][8 + k] == 0,
{
    let c = chunk_len(payload.len());
    assert forall|i: int| 0 <= i < DATA_PSHREDS implies {
        let shard = #[trigger] data_shards(payload)[i];
        &&& shard.len() == 8 + c
        &&& shard[0] == 0 && shard[1] == 0 && shard[2] == 0 && shard[3] == i
        &&& shard[4] * 16777216 + shard[5] * 65536 + shard[6] * 256 + shard[7] == payload.len()
        &&& forall|k: int| 0 <= k < c ==> #[trigger] shard[8 + k] == padded(payload, i * c + k)
    } by {
        be_bytes_are_base_256_digits(i as u32);
        be_bytes_are_base_256_digits(payload.len() as u32);
    }
}

/// The layout leaves no choice: what has the length, the header and the bytes of data
/// shard `i` is data shard `i`.
pub proof fn layout_determines_data_shard(payload: Seq<u8>, i: int, shard: Seq<u8>)
    requires
        payload.len() <= u32::MAX,
        0 <= i < DATA_PSHREDS,
        shard.len() == 8 + (payload.len() + 63) / 64,
        shard[0] == 0 && shard[1] == 0 && shard[2] == 0 && shard[3] == i,
        shard[4] * 16777216 + shard[5] * 65536 + shard[6] * 256 + shard[7] == payload.len(),
        forall|k: int|
            0 <= k < (payload.len() + 63) / 64 ==> #[trigger] shard[8 + k] == if i * ((payload.len()
                + 63) / 64) + k < payload.len() {
                payload[i * ((payload.len() + 63) / 64) + k]
            } else {
                0
            },
    ensures
        shard == data_shards(payload)[i],
{
    data_shards_lay_payload_out(payload);
    let laid_out = data_shards(payload)[i];
    assert(shard[4] == laid_out[4] && shard[5] == laid_out[5] && shard[6] == laid_out[6] && shard[7]
        == laid_out[7]);
    assert forall|n: int| 0 <= n < shard.len() implies shard[n] == laid_out[n] by {
        if n >= 8 {
            assert(shard[8 + (n - 8)] == data_shards(payload)[i][8 + (n - 8)]);
        }
    }
    assert(shard =~= laid_out);
}

/// What shards hold behind their headers is what is left of them without the first
/// eight bytes, flattened.
pub proof fn bodies_are_flattened_shards(shards: Seq<Seq<u8>>)
    ensures
        bodies(shards) == Seq::new(shards.len(), |i: int| shards[i].skip(8)).flatten(),
    decreases shards.len(),
{
    let rests = Seq::new(shards.len(), |i: int| shards[i].skip(8));
    rests.lemma_flatten_and_flatten_alt_are_equivalent();
    if shards.len() > 0 {
        let earlier = shards.drop_last();
        let earlier_rests = Seq::new(earlier.len(), |i: int| earlier[i].skip(8));
        bodies_are_flattened_shards(earlier);
        assert(rests.drop_last() =~= earlier_rests);
        earlier_rests.lemma_flatten_and_flatten_alt_are_equivalent();
    }
}

/// Data shards that disagree anywhere on the payload's length, bytes 4 to 7 of each,
/// are corrupt, whichever two they are.
pub proof fn disagreeing_lengths_are_corrupt(
    shards: Seq<Seq<u8>>,
    r: Result<Vec<u8>, DecodeError>,
    i: int,
    j: int,
)
    requires
        join_outcome(shards, r),
        0 <= i < shards.len(),
        0 <= j < shards.len(),
        shards[i].len() >= 8,
        shards[j].len() >= 8,
        shards[i].subrange(4, 8) != shards[j].subrange(4, 8),
    ensures
        r is Err,
        r->Err_0 is Corrupt,
{
    be_value_tells_bytes_apart(shards[i].subrange(4, 8), shards[j].subrange(4, 8));
    if shards[i].subrange(4, 8)[0] == shards[j].subrange(4, 8)[0] && shards[i].subrange(4, 8)[1]
        == shards[j].subrange(4, 8)[1] && shards[i].subrange(4, 8)[2] == shards[j].subrange(
        4,
        8,
    )[2] && shards[i].subrange(4, 8)[3] == shards[j].subrange(4, 8)[3] {
        assert(shards[i].subrange(4, 8) =~= shards[j].subrange(4, 8));
    }
    assert(length_field(shards[i]) != length_field(shards[j]));
}

/// Data shards that agree on the payload's length are joined: what they hold behind
/// their headers, one after the other, up to that length.
pub proof fn agreeing_shards_are_joined(shards: Seq<Seq<u8>>, r: Result<Vec<u8>, DecodeError>)
    requires
        join_outcome(shards, r),
        shards.len() > 0,
        forall|i: int| 0 <= i < shards.len() ==> (#[trigger] shards[i]).len() >= 8,
        forall|i: int|
            0 <= i < shards.len() ==> (#[trigger] shards[i]).subrange(4, 8) == shards[0].subrange(
                4,
                8,
            ),
    ensures
        r is Ok,
        r->Ok_0@.is_prefix_of(Seq::new(shards.len(), |i: int| shards[i].skip(8)).flatten()),
        r->Ok_0@.len() <= shards[0][4] * 16777216 + shards[0][5] * 65536 + shards[0][6] * 256
            + shards[0][7],
        r->Ok_0@.len() == shards[0][4] * 16777216 + shards[0][5] * 65536 + shards[0][6] * 256
            + shards[0][7] || r->Ok_0@ == Seq::new(
            shards.len(),
            |i: int| shards[i].skip(8),
        ).flatten(),
{
    bodies_are_flattened_shards(shards);
    let field = shards[0].subrange(4, 8);
    be_value_tells_bytes_apart(field, field);
    assert(field[0] == shards[0][4] && field[1] == shards[0][5] && field[2] == shards[0][6]
        && field[3] == shards[0][7]);
    assert(lengths_agree(shards));
}

/// The length header of a payload of `len` bytes, if the length fits in it.
pub fn length_header(len: usize) -> (r: Result<u32, EncodeError>)
    ensures
        len <= u32::MAX ==> r is Ok && r->Ok_0 == len,
        len > u32::MAX ==> r is Err && r->Err_0 is PayloadTooLarge,
{
    if len as u64 > u32::MAX as u64 {
        return Err(EncodeError::PayloadTooLarge);
    }
    Ok(len as u32)
}

/// Builds data shard `i`, with the length header `total_len` and with chunks of
/// `chunk` bytes.
fn build_data_shard(payload: &[u8], total_len: u32, i: usize, chunk: usize) -> (shard: Vec<u8>)
    requires
        payload@.len() == total_len,
        i < DATA_PSHREDS,
        chunk == chunk_len(payload@.len()),
    ensures
        shard@ == data_shard(payload@, i as int),
{
    let mut shard: Vec<u8> = Vec::with_capacity(HEADER_LEN + chunk);
    push_be(&mut shard, i as u32);
    push_be(&mut shard, total_len);
    proof {
        chunks_cover_payload(payload@.len());
        assert(0 <= i * chunk <= 63 * chunk) by (nonlinear_arith)
            requires
                0 <= i <= 63,
                0 <= chunk,
        ;
    }
    let start: usize = i * chunk;
    let ghost header = shard@;
    if start < payload.len() {
        let rest: usize = payload.len() - start;
        let end: usize = if rest < chunk {
            payload.len()
        } else {
            start + chunk
        };
        shard.extend_from_slice(vstd::slice::slice_subrange(payload, start, end));
    }
    let ghost filled = shard@;
    assert(forall|j: int|
        0 <= j < filled.len() - HEADER_LEN ==> #[trigger] filled[HEADER_LEN + j] == padded(
            payload@,
            start + j,
        ));
    shard.resize(HEADER_LEN + chunk, 0);
    proof {
        let chunk_bytes = padded_bytes(payload@, start as int, chunk as nat);
        assert(shard@.len() == HEADER_LEN + chunk);
        assert(filled == shard@.subrange(0, filled.len() as int));
        assert forall|k: int| 0 <= k < shard@.len() implies shard@[k] == (header
            + chunk_bytes)[k] by {
            if k < filled.len() {
                assert(shard@.subrange(0, filled.len() as int)[k] == shard@[k]);
                if k >= HEADER_LEN {
                    assert(filled[HEADER_LEN + (k - HEADER_LEN)] == chunk_bytes[k - HEADER_LEN]);
                }
            } else {
                assert(chunk_bytes[k - HEADER_LEN] == 0);
            }
        }
        assert(shard@ =~= header + chunk_bytes);
    }
    shard
}

/// Splits `payload` into `DATA_PSHREDS` equal, header-prefixed chunks.
pub fn split_payload(payload: &[u8]) -> (r: Result<Vec<Vec<u8>>, EncodeError>)
    ensures
        payload@.len() <= u32::MAX ==> r is Ok && views(r->Ok_0@) == data_shards(payload@),
        payload@.len() > u32::MAX ==> r is Err && r->Err_0 is PayloadTooLarge,
        r is Ok ==> r->Ok_0@.len() == DATA_PSHREDS,
        r is Ok ==> forall|i: int|
            0 <= i < DATA_PSHREDS ==> {
                &&& (#[trigger] r->Ok_0@[i])@.len() == 8 + (payload@.len() + 63) / 64
                &&& r->Ok_0@[i]@[0] == 0 && r->Ok_0@[i]@[1] == 0 && r->Ok_0@[i]@[2] == 0
                    && r->Ok_0@[i]@[3] == i
                &&& r->Ok_0@[i]@[4] * 16777216 + r->Ok_0@[i]@[5] * 65536 + r->Ok_0@[i]@[6] * 256
                    + r->Ok_0@[i]@[7] == payload@.len()
                &&& forall|k: int|
                    0 <= k < (payload@.len() + 63) / 64 ==> #[trigger] r->Ok_0@[i]@[8 + k] == if i
                        * ((payload@.len() + 63) / 64) + k < payload@.len() {
                        payload@[i * ((payload@.len() + 63) / 64) + k]
                    } else {
                        0
                    }
            },
{
    let len: usize = payload.len();
    let total_len: u32 = match length_header(len) {
        Ok(total_len) => total_len,
        Err(e) => {
            return Err(e);
        },
    };
    let chunk: usize = if len % DATA_PSHREDS == 0 {
        len / DATA_PSHREDS
    } else {
        len / DATA_PSHREDS + 1
    };
    let mut shards: Vec<Vec<u8>> = Vec::new();
    let mut i: usize = 0;
    while i < DATA_PSHREDS
        invariant
            i <= DATA_PSHREDS,
            payload@.len() == total_len,
            chunk == chunk_len(payload@.len()),
            views(shards@) == data_shards(payload@).take(i as int),
        decreases DATA_PSHREDS - i,
    {
        let shard = build_data_shard(payload, total_len, i, chunk);
        let ghost before = shards@;
        shards.push(shard);
        i = i + 1;
        assert(views(shards@) =~= views(before).push(shard@));
        assert(views(shards@) =~= data_shards(payload@).take(i as int));
    }
    assert(data_shards(payload@).take(i as int) =~= data_shards(payload@));
    proof {
        data_shards_lay_payload_out(payload@);
        views_hold_contents(shards@);
        assert forall|i: int| 0 <= i < DATA_PSHREDS implies (#[trigger] shards@[i])@
            == data_shards(payload@)[i] by {
            assert(views(shards@)[i] == shards@[i]@);
        }
    }
    Ok(shards)
}

/// Puts a payload together from its data shards: checks that they agree on the
/// payload length, concatenates what stands behind the headers, and cuts the
/// padding off.
pub fn join_data_shards(shards: &[Vec<u8>]) -> (r: Result<Vec<u8>, DecodeError>)
    requires
        forall|i: int| 0 <= i < shards@.len() ==> (#[trigger] shards@[i])@.len() >= HEADER_LEN,
    ensures
        join_outcome(views(shards@), r),
        shards@.len() == 0 ==> r is Err && r->Err_0 is Corrupt,
        forall|i: int, j: int, k: int|
            0 <= i < shards@.len() && 0 <= j < shards@.len() && 4 <= k < 8
                && #[trigger] shards@[i]@[k]
                != #[trigger] shards@[j]@[k] ==> r is Err && r->Err_0 is Corrupt,
        shards@.len() > 0 && (forall|i: int, k: int|
            0 <= i < shards@.len() && 4 <= k < 8 ==> #[trigger] shards@[i]@[k] == shards@[0]@[k])
            ==> r is Ok && r->Ok_0@.is_prefix_of(
            Seq::new(shards@.len(), |i: int| shards@[i]@.skip(8)).flatten(),
        ) && (r->Ok_0@.len() == shards@[0]@[4] * 16777216 + shards@[0]@[5] * 65536 + shards@[0]@[6]
            * 256 + shards@[0]@[7] || r->Ok_0@.len() < shards@[0]@[4] * 16777216 + shards@[0]@[5]
            * 65536 + shards@[0]@[6] * 256 + shards@[0]@[7] && r->Ok_0@ == Seq::new(
            shards@.len(),
            |i: int| shards@[i]@.skip(8),
        ).flatten()),
{
    let r = join_bodies(shards);
    proof {
        let all = views(shards@);
        assert(forall|i: int| 0 <= i < shards@.len() ==> #[trigger] all[i] == shards@[i]@);
        assert forall|i: int, j: int, k: int|
            0 <= i < shards@.len() && 0 <= j < shards@.len() && 4 <= k < 8
                && #[trigger] shards@[i]@[k] != #[trigger] shards@[j]@[k] implies r is Err
            && r->Err_0 is Corrupt by {
            assert(all[i].subrange(4, 8)[k - 4] != all[j].subrange(4, 8)[k - 4]);
            disagreeing_lengths_are_corrupt(all, r, i, j);
        }
        if shards@.len() > 0 && (forall|i: int, k: int|
            0 <= i < shards@.len() && 4 <= k < 8 ==> #[trigger] shards@[i]@[k]
                == shards@[0]@[k]) {
            assert forall|i: int| 0 <= i < all.len() implies (#[trigger] all[i]).subrange(4, 8)
                == all[0].subrange(4, 8) by {
                assert(all[i].subrange(4, 8) =~= all[0].subrange(4, 8)) by {
                    assert forall|k: int| 0 <= k < 4 implies all[i].subrange(4, 8)[k]
                        == all[0].subrange(4, 8)[k] by {
                        assert(shards@[i]@[4 + k] == shards@[0]@[4 + k]);
                    }
                }
            }
            agreeing_shards_are_joined(all, r);
            assert(Seq::new(all.len(), |i: int| all[i].skip(8)) =~= Seq::new(
                shards@.len(),
                |i: int| shards@[i]@.skip(8),
            ));
        }
    }
    r
}

/// Checks the length headers of data shards, and joins what stands behind them.
fn join_bodies(shards: &[Vec<u8>]) -> (r: Result<Vec<u8>, DecodeError>)
    requires
        forall|i: int| 0 <= i < shards@.len() ==> (#[trigger] shards@[i])@.len() >= HEADER_LEN,
    ensures
        join_outcome(views(shards@), r),
{
    let ghost all = views(shards@);
    let mut total_len: Option<u32> = None;
    let mut i: usize = 0;
    while i < shards.len()
        invariant
            i <= shards@.len(),
            all == views(shards@),
            forall|i: int| 0 <= i < shards@.len() ==> (#[trigger] shards@[i])@.len() >= HEADER_LEN,
            total_len is Some <==> i > 0,
            forall|j: int|
                0 <= j < i ==> total_len is Some && #[trigger] length_field(all[j]) == total_len->0,
        decreases shards@.len() - i,
    {
        let header_total: u32 = read_be(shards[i].as_slice(), 4);
        assert(header_total == length_field(all[i as int]));
        match total_len {
            None => {
                total_len = Some(header_total);
            },
            Some(t) => {
                if t != header_total {
                    assert(length_field(all[0]) == t);
                    return Err(DecodeError::Corrupt);
                }
            },
        }
        i = i + 1;
    }
    let total_len: u32 = match total_len {
        Some(t) => t,
        None => {
            return Err(DecodeError::Corrupt);
        },
    };
    assert(length_field(all[0]) == total_len);
    let mut payload: Vec<u8> = Vec::new();
    let mut k: usize = 0;
    while k < shards.len()
        invariant
            k <= shards@.len(),
            all == views(shards@),
            forall|i: int| 0 <= i < shards@.len() ==> (#[trigger] shards@[i])@.len() >= HEADER_LEN,
            payload@ == bodies(all.take(k as int)),
        decreases shards@.len() - k,
    {
        let shard: &Vec<u8> = &shards[k];
        let body: &[u8] = vstd::slice::slice_subrange(shard.as_slice(), HEADER_LEN, shard.len());
        let ghost before = payload@;
        payload.extend_from_slice(body);
        assert(payload@ =~= before + all[k as int].skip(HEADER_LEN as int));
        k = k + 1;
        assert(all.take(k as int).drop_last() =~= all.take(k - 1));
    }
    assert(all.take(k as int) =~= all);
    payload.truncate(total_len as usize);
    Ok(payload)
}

} // verus!

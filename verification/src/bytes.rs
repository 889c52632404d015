//! Big-endian encoding of 32-bit fields, and views of nested byte vectors.

use vstd::prelude::*;

verus! {

/// The four bytes of `v`, most significant first.
pub open spec fn be_bytes(v: u32) -> Seq<u8> {
    seq![
        (v / 0x100_0000) as u8,
        (v / 0x1_0000 % 0x100) as u8,
        (v / 0x100 % 0x100) as u8,
        (v % 0x100) as u8,
    ]
}

/// The number whose base-256 digits, most significant first, are the first four
/// bytes of `b`.
pub open spec fn be_value(b: Seq<u8>) -> int {
    b[0] * 0x100_0000 + b[1] * 0x1_0000 + b[2] * 0x100 + b[3]
}

/// The contents of every vector of `v`.
pub open spec fn views(v: Seq<Vec<u8>>) -> Seq<Seq<u8>> {
    Seq::new(v.len(), |i: int| v[i]@)
}

/// The contents of every vector of `v` that is there.
pub open spec fn option_views(v: Seq<Option<Vec<u8>>>) -> Seq<Option<Seq<u8>>> {
    Seq::new(
        v.len(),
        |i: int|
            match v[i] {
                Some(bytes) => Some(bytes@),
                None => None,
            },
    )
}

/// Reading back the bytes of a number gives the number.
pub proof fn be_value_inverts_be_bytes(v: u32)
    ensures
        be_bytes(v).len() == 4,
        be_value(be_bytes(v)) == v,
{
}

/// The bytes of a number are its base-256 digits, the most significant first.
pub proof fn be_bytes_are_base_256_digits(v: u32)
    ensures
        be_bytes(v).len() == 4,
        v == be_bytes(v)[0] * 16777216 + be_bytes(v)[1] * 65536 + be_bytes(v)[2] * 256 + be_bytes(
            v,
        )[3],
{
}

/// The value of four bytes depends on those bytes alone, and tells them apart: byte
/// strings have one value exactly where their first four bytes are the same.
pub proof fn be_value_tells_bytes_apart(a: Seq<u8>, b: Seq<u8>)
    requires
        a.len() >= 4,
        b.len() >= 4,
    ensures
        be_value(a) == be_value(b) <==> a[0] == b[0] && a[1] == b[1] && a[2] == b[2] && a[3]
            == b[3],
        0 <= be_value(a) <= u32::MAX,
        be_value(a) == a[0] * 16777216 + a[1] * 65536 + a[2] * 256 + a[3],
{
}

/// Views keep the number and the order of the vectors, and what each holds.
pub proof fn views_hold_contents(v: Seq<Vec<u8>>)
    ensures
        views(v).len() == v.len(),
        forall|i: int| 0 <= i < v.len() ==> #[trigger] views(v)[i] == v[i]@,
{
}

/// Views of optional vectors keep which of them are there, and what each holds.
pub proof fn option_views_hold_contents(v: Seq<Option<Vec<u8>>>)
    ensures
        option_views(v).len() == v.len(),
        forall|i: int|
            0 <= i < v.len() ==> ((#[trigger] option_views(v)[i]) is Some <==> v[i] is Some),
        forall|i: int|
            0 <= i < v.len() && v[i] is Some ==> (#[trigger] option_views(v)[i])->0 == v[i]->0@,
{
}

/// Two numbers with the same bytes are the same number.
pub proof fn be_bytes_is_injective(a: u32, b: u32)
    requires
        be_bytes(a) == be_bytes(b),
    ensures
        a == b,
{
    be_value_inverts_be_bytes(a);
    be_value_inverts_be_bytes(b);
}

/// Appends the four bytes of `v` to `buf`.
pub fn push_be(buf: &mut Vec<u8>, v: u32)
    ensures
        final(buf)@ == old(buf)@ + be_bytes(v),
        final(buf)@.len() == old(buf)@.len() + 4,
        final(buf)@.take(old(buf)@.len() as int) == old(buf)@,
        v == final(buf)@[final(buf)@.len() - 4] * 16777216 + final(buf)@[final(buf)@.len() - 3]
            * 65536 + final(buf)@[final(buf)@.len() - 2] * 256 + final(buf)@[final(buf)@.len() - 1],
{
    buf.push((v / 0x100_0000) as u8);
    buf.push((v / 0x1_0000 % 0x100) as u8);
    buf.push((v / 0x100 % 0x100) as u8);
    buf.push((v % 0x100) as u8);
    assert(buf@ =~= old(buf)@ + be_bytes(v));
    assert(buf@.take(old(buf)@.len() as int) =~= old(buf)@);
}

/// Reads the four bytes of `buf` that start at `at`.
pub fn read_be(buf: &[u8], at: usize) -> (v: u32)
    requires
        at + 4 <= buf@.len(),
    ensures
        v == be_value(buf@.subrange(at as int, at + 4)),
        v == buf@[at as int] * 16777216 + buf@[at + 1] * 65536 + buf@[at + 2] * 256 + buf@[at + 3],
{
    buf[at] as u32 * 0x100_0000 + buf[at + 1] as u32 * 0x1_0000 + buf[at + 2] as u32 * 0x100
        + buf[at + 3] as u32
}

} // verus!

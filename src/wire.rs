//! Little-endian integer fields and UTF-8 text as they appear on the wire.
use bytes::{Buf, BufMut};
use vstd::prelude::*;
use vstd::utf8::{decode_utf8, valid_utf8};

verus! {

/// The unsigned value of a little-endian byte sequence.
pub open spec fn le_value(b: Seq<u8>) -> nat
    decreases b.len(),
{
    if b.len() == 0 {
        0
    } else {
        b[0] as nat + 256 * le_value(b.drop_first())
    }
}

/// The `n` low-order bytes of `v`, least significant first.
pub open spec fn le_bytes(v: nat, n: nat) -> Seq<u8>
    decreases n,
{
    if n == 0 {
        Seq::empty()
    } else {
        seq![(v % 256) as u8] + le_bytes(v / 256, (n - 1) as nat)
    }
}

/// Reads a 32-bit two's-complement value from its unsigned encoding.
pub open spec fn signed32(v: nat) -> int {
    if v < 0x8000_0000 {
        v as int
    } else {
        v - 0x1_0000_0000
    }
}

/// The unsigned little-endian field of `n` bytes at `pos`.
pub open spec fn uint_at(b: Seq<u8>, pos: int, n: int) -> nat {
    le_value(b.subrange(pos, pos + n))
}

/// The signed 32-bit little-endian field at `pos`.
pub open spec fn i32_at(b: Seq<u8>, pos: int) -> i32 {
    signed32(uint_at(b, pos, 4)) as i32
}

/// Relies on `bytes::Buf::get_uint_le` on a byte slice: it reads `n` bytes
/// in little-endian order into a `u64`.
#[verifier::external_body]
pub(crate) fn read_uint_le(b: &[u8], pos: usize, n: usize) -> (r: u64)
    requires
        1 <= n <= 8,
        pos + n <= b@.len(),
    ensures
        r as nat == uint_at(b@, pos as int, n as int),
{
    let mut field: &[u8] = &b[pos..pos + n];
    field.get_uint_le(n)
}

/// Relies on `bytes::Buf::get_i32_le` on a byte slice: it reads four bytes
/// in little-endian order as a signed integer.
#[verifier::external_body]
pub(crate) fn read_i32_le(b: &[u8], pos: usize) -> (r: i32)
    requires
        pos + 4 <= b@.len(),
    ensures
        r == i32_at(b@, pos as int),
{
    let mut field: &[u8] = &b[pos..pos + 4];
    field.get_i32_le()
}

/// Relies on `bytes::BufMut::put_uint_le` on a `Vec<u8>`: it appends the `n`
/// low-order bytes of `v`, least significant first.
#[verifier::external_body]
pub(crate) fn put_uint_le(out: &mut Vec<u8>, v: u64, n: usize)
    requires
        1 <= n <= 8,
        old(out)@.len() + n <= isize::MAX,
    ensures
        final(out)@ == old(out)@ + le_bytes(v as nat, n as nat),
{
    out.put_uint_le(v, n)
}

/// Relies on `String::from_utf8`: it succeeds exactly on valid UTF-8 and
/// then holds the characters that the bytes encode.
#[verifier::external_body]
pub(crate) fn text_from_utf8(b: &[u8]) -> (r: Option<String>)
    ensures
        r.is_some() <==> valid_utf8(b@),
        r matches Some(s) ==> s@ == decode_utf8(b@),
{
    String::from_utf8(b.to_vec()).ok()
}

} // verus!

verus! {

/// `256` raised to the power `n`.
pub open spec fn pow256(n: nat) -> nat
    decreases n,
{
    if n == 0 {
        1
    } else {
        256 * pow256((n - 1) as nat)
    }
}

/// A little-endian field of `n` bytes is below `256^n`.
pub proof fn lemma_le_value_bound(b: Seq<u8>)
    ensures
        le_value(b) < pow256(b.len()),
    decreases b.len(),
{
    if b.len() > 0 {
        lemma_le_value_bound(b.drop_first());
    }
}

/// A three-byte field is below `2^24`.
pub proof fn lemma_u24_bound(b: Seq<u8>, pos: int)
    requires
        0 <= pos,
        pos + 3 <= b.len(),
    ensures
        uint_at(b, pos, 3) < 0x100_0000,
{
    lemma_le_value_bound(b.subrange(pos, pos + 3));
    reveal_with_fuel(pow256, 4);
}

} // verus!

verus! {

/// `le_bytes(v, n)` has `n` bytes.
pub broadcast proof fn lemma_le_bytes_len(v: nat, n: nat)
    ensures
        #[trigger] le_bytes(v, n).len() == n,
    decreases n,
{
    if n > 0 {
        lemma_le_bytes_len(v / 256, (n - 1) as nat);
    }
}

} // verus!

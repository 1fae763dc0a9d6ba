//! Little-endian integer fields, read and written through `byteorder`.
use byteorder::{ByteOrder, LittleEndian};
use vstd::arithmetic::div_mod::lemma_fundamental_div_mod_converse;
use vstd::prelude::*;

verus! {

/// The value of the two bytes at the start of `b`, least significant first.
#[verifier::opaque]
pub open spec fn le_u16(b: Seq<u8>) -> int {
    b[0] as int + 256 * b[1] as int
}

/// The value of the four bytes at the start of `b`, least significant first.
#[verifier::opaque]
pub open spec fn le_u32(b: Seq<u8>) -> int {
    b[0] as int + 256 * b[1] as int + 65536 * b[2] as int + 16777216 * b[3] as int
}

/// The two bytes of `n`, least significant first.
pub open spec fn u16_le_bytes(n: u16) -> Seq<u8> {
    seq![(n % 256) as u8, (n / 256) as u8]
}

/// The four bytes of `n`, least significant first.
pub open spec fn u32_le_bytes(n: u32) -> Seq<u8> {
    seq![
        (n % 256) as u8,
        ((n / 256) % 256) as u8,
        ((n / 65536) % 256) as u8,
        (n / 16777216) as u8,
    ]
}

/// Decoding the bytes of an integer gives the integer back.
pub proof fn lemma_u16_bytes_value(n: u16)
    ensures
        u16_le_bytes(n).len() == 2,
        le_u16(u16_le_bytes(n)) == n,
{
    reveal(le_u16);
}

/// Decoding the bytes of an integer gives the integer back.
pub proof fn lemma_u32_bytes_value(n: u32)
    ensures
        u32_le_bytes(n).len() == 4,
        le_u32(u32_le_bytes(n)) == n,
{
    reveal(le_u32);
}

/// Encoding the value of two bytes gives the same bytes back.
pub proof fn lemma_u16_value_bytes(b: Seq<u8>)
    requires
        b.len() == 2,
    ensures
        0 <= le_u16(b) <= u16::MAX,
        u16_le_bytes(le_u16(b) as u16) == b,
{
    reveal(le_u16);
    assert(u16_le_bytes(le_u16(b) as u16) =~= b);
}

/// Encoding the value of four bytes gives the same bytes back.
pub proof fn lemma_u32_value_bytes(b: Seq<u8>)
    requires
        b.len() == 4,
    ensures
        0 <= le_u32(b) <= u32::MAX,
        u32_le_bytes(le_u32(b) as u32) == b,
{
    reveal(le_u32);
    let v = le_u32(b);
    let q1 = b[1] as int + 256 * b[2] as int + 65536 * b[3] as int;
    let q2 = b[2] as int + 256 * b[3] as int;
    lemma_fundamental_div_mod_converse(v, 256, q1, b[0] as int);
    lemma_fundamental_div_mod_converse(v, 65536, q2, b[0] as int + 256 * b[1] as int);
    lemma_fundamental_div_mod_converse(v, 16777216, b[3] as int, v - 16777216 * b[3] as int);
    lemma_fundamental_div_mod_converse(q1, 256, q2, b[1] as int);
    lemma_fundamental_div_mod_converse(q2, 256, b[3] as int, b[2] as int);
    assert(u32_le_bytes(v as u32) =~= b);
}

/// Relies on byteorder's `LittleEndian::read_u16`: the first two bytes of
/// `buf[at..]` as a little-endian integer (it panics on fewer than two).
#[verifier::external_body]
pub(crate) fn read_u16_at(buf: &[u8], at: usize) -> (r: u16)
    requires
        at + 2 <= buf@.len(),
    ensures
        r == le_u16(buf@.subrange(at as int, at + 2)),
{
    LittleEndian::read_u16(&buf[at..])
}

/// Relies on byteorder's `LittleEndian::read_u32`: the first four bytes of
/// `buf[at..]` as a little-endian integer (it panics on fewer than four).
#[verifier::external_body]
pub(crate) fn read_u32_at(buf: &[u8], at: usize) -> (r: u32)
    requires
        at + 4 <= buf@.len(),
    ensures
        r == le_u32(buf@.subrange(at as int, at + 4)),
{
    LittleEndian::read_u32(&buf[at..])
}

/// Relies on byteorder's `LittleEndian::write_u16`: it stores `n` in the
/// first two bytes of the buffer, least significant first.
#[verifier::external_body]
pub(crate) fn u16_to_le(n: u16) -> (r: [u8; 2])
    ensures
        r@ == u16_le_bytes(n),
{
    let mut buf = [0u8; 2];
    LittleEndian::write_u16(&mut buf, n);
    buf
}

/// Relies on byteorder's `LittleEndian::write_u32`: it stores `n` in the
/// first four bytes of the buffer, least significant first.
#[verifier::external_body]
pub(crate) fn u32_to_le(n: u32) -> (r: [u8; 4])
    ensures
        r@ == u32_le_bytes(n),
{
    let mut buf = [0u8; 4];
    LittleEndian::write_u32(&mut buf, n);
    buf
}

/// Appends the bytes of `src` to `out`, in order.
pub fn push_all(out: &mut Vec<u8>, src: &[u8])
    ensures
        final(out)@ == old(out)@ + src@,
{
    let mut i: usize = 0;
    while i < src.len()
        invariant
            i <= src@.len(),
            out@ == old(out)@ + src@.subrange(0, i as int),
        decreases src@.len() - i,
    {
        out.push(src[i]);
        i = i + 1;
        assert(out@ =~= old(out)@ + src@.subrange(0, i as int));
    }
    assert(src@.subrange(0, i as int) =~= src@);
}

} // verus!

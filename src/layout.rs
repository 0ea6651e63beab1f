//! Little-endian integers at byte positions of a buffer.

use vstd::prelude::*;

verus! {

/// The unsigned 16-bit value stored little-endian at `b[i..i + 2]`.
pub open spec fn le_u16(b: Seq<u8>, i: int) -> u16 {
    (b[i] as int + 256 * b[i + 1] as int) as u16
}

/// The unsigned 32-bit value stored little-endian at `b[i..i + 4]`.
pub open spec fn le_u32(b: Seq<u8>, i: int) -> u32 {
    (b[i] as int + 256 * b[i + 1] as int + 65536 * b[i + 2] as int + 16777216
        * b[i + 3] as int) as u32
}

/// The signed 32-bit value stored little-endian, in two's complement, at `b[i..i + 4]`.
pub open spec fn le_i32(b: Seq<u8>, i: int) -> i32 {
    le_u32(b, i) as i32
}

/// The two bytes that store `v` little-endian.
pub open spec fn u16_bytes(v: u16) -> Seq<u8> {
    seq![(v % 256) as u8, (v / 256) as u8]
}

/// The four bytes that store `v` little-endian.
pub open spec fn u32_bytes(v: u32) -> Seq<u8> {
    seq![(v % 256) as u8, ((v / 256) % 256) as u8, ((v / 65536) % 256) as u8, (v / 16777216) as u8]
}

/// The four bytes that store `v` little-endian in two's complement.
pub open spec fn i32_bytes(v: i32) -> Seq<u8> {
    u32_bytes(v as u32)
}

pub fn read_u16_le(b: &[u8], i: usize) -> (r: u16)
    requires
        i + 2 <= b@.len(),
    ensures
        r == le_u16(b@, i as int),
{
    let lo = b[i] as u16;
    let hi = b[i + 1] as u16;
    lo + 256 * hi
}

pub fn read_u32_le(b: &[u8], i: usize) -> (r: u32)
    requires
        i + 4 <= b@.len(),
    ensures
        r == le_u32(b@, i as int),
{
    let b0 = b[i] as u32;
    let b1 = b[i + 1] as u32;
    let b2 = b[i + 2] as u32;
    let b3 = b[i + 3] as u32;
    b0 + 256 * b1 + 65536 * b2 + 16777216 * b3
}

pub fn read_i32_le(b: &[u8], i: usize) -> (r: i32)
    requires
        i + 4 <= b@.len(),
    ensures
        r == le_i32(b@, i as int),
{
    let u = read_u32_le(b, i);
    #[verifier::truncate]
    (u as i32)
}

/// Appends the little-endian bytes of `v`.
pub fn push_u16_le(out: &mut Vec<u8>, v: u16)
    ensures
        final(out)@ == old(out)@ + u16_bytes(v),
{
    out.push((v % 256) as u8);
    out.push((v / 256) as u8);
    assert(final(out)@ =~= old(out)@ + u16_bytes(v));
}

/// Appends the little-endian, two's complement bytes of `v`.
pub fn push_i32_le(out: &mut Vec<u8>, v: i32)
    ensures
        final(out)@ == old(out)@ + i32_bytes(v),
{
    #[verifier::truncate]
    let u = v as u32;
    out.push((u % 256) as u8);
    out.push(((u / 256) % 256) as u8);
    out.push(((u / 65536) % 256) as u8);
    out.push((u / 16777216) as u8);
    assert(final(out)@ =~= old(out)@ + i32_bytes(v));
}

/// The stored bytes of a `u16` read back as that value.
pub proof fn lemma_u16_round_trip(v: u16)
    ensures
        le_u16(u16_bytes(v), 0) == v,
{
}

/// The stored bytes of an `i32` read back as that value.
pub proof fn lemma_i32_round_trip(v: i32)
    ensures
        le_i32(i32_bytes(v), 0) == v,
{
    let u = v as u32;
    assert(le_u32(u32_bytes(u), 0) == u);
    assert((v as u32) as i32 == v) by (bit_vector);
}

} // verus!

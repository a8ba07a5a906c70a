//! Big-endian integer encoding as used on the wire.

use vstd::prelude::*;

verus! {

/// Big-endian bytes of a 16-bit unsigned value.
pub open spec fn be_u16(v: u16) -> Seq<u8> {
    seq![(v / 0x100) as u8, (v % 0x100) as u8]
}

/// Big-endian bytes of a 32-bit unsigned value.
pub open spec fn be_u32(v: u32) -> Seq<u8> {
    seq![
        (v / 0x100_0000) as u8,
        (v / 0x1_0000 % 0x100) as u8,
        (v / 0x100 % 0x100) as u8,
        (v % 0x100) as u8,
    ]
}

/// Big-endian bytes of a 64-bit unsigned value.
pub open spec fn be_u64(v: u64) -> Seq<u8> {
    be_u32((v / 0x1_0000_0000) as u32) + be_u32((v % 0x1_0000_0000) as u32)
}

/// The value that two big-endian bytes denote.
pub open spec fn u16_of_be(b: Seq<u8>) -> u16 {
    (b[0] * 0x100 + b[1]) as u16
}

/// The value that four big-endian bytes denote.
pub open spec fn u32_of_be(b: Seq<u8>) -> u32 {
    (b[0] * 0x100_0000 + b[1] * 0x1_0000 + b[2] * 0x100 + b[3]) as u32
}

/// The value that eight big-endian bytes denote.
pub open spec fn u64_of_be(b: Seq<u8>) -> u64 {
    (u32_of_be(b.take(4)) * 0x1_0000_0000 + u32_of_be(b.subrange(4, 8))) as u64
}

pub fn u32_to_be(v: u32) -> (r: [u8; 4])
    ensures
        r@ == be_u32(v),
{
    let b0 = (v >> 24) as u8;
    let b1 = (v >> 16) as u8;
    let b2 = (v >> 8) as u8;
    let b3 = v as u8;
    assert(b0 == (v / 0x100_0000) as u8 && b1 == (v / 0x1_0000 % 0x100) as u8
        && b2 == (v / 0x100 % 0x100) as u8 && b3 == (v % 0x100) as u8) by (bit_vector)
        requires
            b0 == (v >> 24) as u8,
            b1 == (v >> 16) as u8,
            b2 == (v >> 8) as u8,
            b3 == v as u8,
    ;
    let r = [b0, b1, b2, b3];
    assert(r@ =~= be_u32(v));
    r
}


pub fn u16_to_be(v: u16) -> (r: [u8; 2])
    ensures
        r@ == be_u16(v),
{
    let b0 = (v >> 8) as u8;
    let b1 = v as u8;
    assert(b0 == (v / 0x100) as u8 && b1 == (v % 0x100) as u8) by (bit_vector)
        requires
            b0 == (v >> 8) as u8,
            b1 == v as u8,
    ;
    let r = [b0, b1];
    assert(r@ =~= be_u16(v));
    r
}

pub fn u64_to_be(v: u64) -> (r: [u8; 8])
    ensures
        r@ == be_u64(v),
{
    let hi = u32_to_be((v >> 32) as u32);
    let lo = u32_to_be(v as u32);
    assert((v >> 32) as u32 == (v / 0x1_0000_0000) as u32 && v as u32 == (v % 0x1_0000_0000) as u32)
        by (bit_vector);
    let r = [hi[0], hi[1], hi[2], hi[3], lo[0], lo[1], lo[2], lo[3]];
    assert(r@ =~= be_u64(v));
    r
}

/// Big-endian bytes of a signed 16-bit value (its two's complement).
pub open spec fn be_i16(v: i16) -> Seq<u8> {
    be_u16(v as u16)
}

/// Big-endian bytes of a signed 32-bit value (its two's complement).
pub open spec fn be_i32(v: i32) -> Seq<u8> {
    be_u32(v as u32)
}

/// Big-endian bytes of a signed 64-bit value (its two's complement).
pub open spec fn be_i64(v: i64) -> Seq<u8> {
    be_u64(v as u64)
}

pub fn i16_to_be(v: i16) -> (r: [u8; 2])
    ensures
        r@ == be_i16(v),
{
    u16_to_be(v as u16)
}

pub fn i32_to_be(v: i32) -> (r: [u8; 4])
    ensures
        r@ == be_i32(v),
{
    u32_to_be(v as u32)
}

pub fn i64_to_be(v: i64) -> (r: [u8; 8])
    ensures
        r@ == be_i64(v),
{
    u64_to_be(v as u64)
}

/// Reads a big-endian 16-bit value from the first two bytes of `b`.
pub fn u16_from_be(b: &[u8]) -> (r: u16)
    requires
        b@.len() >= 2,
    ensures
        r == u16_of_be(b@),
{
    let b0 = b[0];
    let b1 = b[1];
    let r = ((b0 as u16) << 8) | (b1 as u16);
    assert(r == (b0 * 0x100 + b1) as u16) by (bit_vector)
        requires
            r == ((b0 as u16) << 8) | (b1 as u16),
    ;
    r
}

/// Reads a big-endian 32-bit value from the first four bytes of `b`.
pub fn u32_from_be(b: &[u8]) -> (r: u32)
    requires
        b@.len() >= 4,
    ensures
        r == u32_of_be(b@),
{
    let b0 = b[0];
    let b1 = b[1];
    let b2 = b[2];
    let b3 = b[3];
    let r = ((b0 as u32) << 24) | ((b1 as u32) << 16) | ((b2 as u32) << 8) | (b3 as u32);
    assert(r == (b0 * 0x100_0000 + b1 * 0x1_0000 + b2 * 0x100 + b3) as u32) by (bit_vector)
        requires
            r == ((b0 as u32) << 24) | ((b1 as u32) << 16) | ((b2 as u32) << 8) | (b3 as u32),
    ;
    r
}

/// Reads a big-endian 64-bit value from the first eight bytes of `b`.
pub fn u64_from_be(b: &[u8]) -> (r: u64)
    requires
        b@.len() >= 8,
    ensures
        r == u64_of_be(b@),
{
    let hi = u32_from_be(b);
    let tail = &b[4..8];
    let lo = u32_from_be(tail);
    assert(b@.take(4) =~= b@.subrange(0, 4));
    assert(u32_of_be(b@.take(4)) == u32_of_be(b@));
    let r = ((hi as u64) << 32) | (lo as u64);
    assert(r == (hi * 0x1_0000_0000 + lo) as u64) by (bit_vector)
        requires
            r == ((hi as u64) << 32) | (lo as u64),
    ;
    r
}


/// Reading back the bytes of a 16-bit value gives the value.
pub proof fn lemma_u16_roundtrip(v: u16)
    ensures
        u16_of_be(be_u16(v)) == v,
{
    let b = be_u16(v);
    assert(((v / 0x100) as u8) * 0x100 + ((v % 0x100) as u8) == v) by (bit_vector);
}

/// Reading back the bytes of a 32-bit value gives the value.
pub proof fn lemma_u32_roundtrip(v: u32)
    ensures
        u32_of_be(be_u32(v)) == v,
{
    assert(((v / 0x100_0000) as u8) * 0x100_0000 + ((v / 0x1_0000 % 0x100) as u8) * 0x1_0000
        + ((v / 0x100 % 0x100) as u8) * 0x100 + ((v % 0x100) as u8) == v) by (bit_vector);
}

/// Reading back the bytes of a 64-bit value gives the value.
pub proof fn lemma_u64_roundtrip(v: u64)
    ensures
        u64_of_be(be_u64(v)) == v,
{
    let hi = (v / 0x1_0000_0000) as u32;
    let lo = (v % 0x1_0000_0000) as u32;
    lemma_u32_roundtrip(hi);
    lemma_u32_roundtrip(lo);
    let b = be_u64(v);
    assert(b.take(4) =~= be_u32(hi));
    assert(b.subrange(4, 8) =~= be_u32(lo));
    assert(hi * 0x1_0000_0000 + lo == v) by (bit_vector)
        requires
            hi == (v / 0x1_0000_0000) as u32,
            lo == (v % 0x1_0000_0000) as u32,
    ;
}

/// Reading back the bytes of a signed 32-bit value gives the value.
pub proof fn lemma_i32_roundtrip(v: i32)
    ensures
        u32_of_be(be_i32(v)) as i32 == v,
{
    lemma_u32_roundtrip(v as u32);
    assert((v as u32) as i32 == v) by (bit_vector);
}

/// Reading back the bytes of a signed 64-bit value gives the value.
pub proof fn lemma_i64_roundtrip(v: i64)
    ensures
        u64_of_be(be_i64(v)) as i64 == v,
{
    lemma_u64_roundtrip(v as u64);
    assert((v as u64) as i64 == v) by (bit_vector);
}

} // verus!

use vstd::prelude::*;

use vstd::arithmetic::div_mod::{lemma_fundamental_div_mod, lemma_hoist_over_denominator};

verus! {

/// Low byte of a 16-bit word.
pub open spec fn u16_lo(x: u16) -> u8 {
    (x % 256) as u8
}

/// High byte of a 16-bit word.
pub open spec fn u16_hi(x: u16) -> u8 {
    (x / 256) as u8
}

/// The 16-bit word with the given low and high bytes.
pub open spec fn u16_of_bytes(lo: u8, hi: u8) -> u16 {
    (lo + 256 * hi) as u16
}

/// Value of a big-endian two's-complement 16-bit field, as a mathematical
/// integer in `-32768 ..= 32767`.
pub open spec fn i16_of_be_bytes(hi: u8, lo: u8) -> int {
    let u = 256 * hi + lo;
    if u < 32768 {
        u as int
    } else {
        u - 65536
    }
}

/// Splitting a word into bytes and reassembling it is the identity.
pub proof fn lemma_u16_bytes_roundtrip(x: u16)
    ensures
        u16_of_bytes(u16_lo(x), u16_hi(x)) == x,
{
    lemma_fundamental_div_mod(x as int, 256);
}

/// Splits a 16-bit word into `(lo, hi)`, the little-endian byte order the
/// protocol uses for checksums.
pub fn u16_to_le(x: u16) -> (r: (u8, u8))
    ensures
        r.0 == u16_lo(x),
        r.1 == u16_hi(x),
        u16_of_bytes(r.0, r.1) == x,
{
    proof {
        lemma_u16_bytes_roundtrip(x);
    }
    ((x % 256) as u8, (x / 256) as u8)
}

/// Reads a 16-bit word from `(lo, hi)` little-endian bytes.
pub fn u16_from_le(lo: u8, hi: u8) -> (r: u16)
    ensures
        r == u16_of_bytes(lo, hi),
        u16_lo(r) == lo,
        u16_hi(r) == hi,
{
    let r: u16 = lo as u16 + 256 * (hi as u16);
    proof {
        lemma_fundamental_div_mod_converse_u16(r, lo, hi);
    }
    r
}

proof fn lemma_fundamental_div_mod_converse_u16(r: u16, lo: u8, hi: u8)
    requires
        r == lo + 256 * hi,
    ensures
        r % 256 == lo,
        r / 256 == hi,
{
    lemma_fundamental_div_mod(r as int, 256);
    lemma_hoist_over_denominator(lo as int, hi as int, 256);
    assert((lo as int) / 256 == 0) by {
        vstd::arithmetic::div_mod::lemma_basic_div(lo as int, 256);
    }
}

/// High byte of the big-endian two's-complement encoding of a value in
/// `-32768 ..= 32767`.
pub open spec fn i16_be_hi(v: int) -> u8 {
    let u = if v >= 0 {
        v
    } else {
        v + 65536
    };
    (u / 256) as u8
}

/// Low byte of the big-endian two's-complement encoding of a value in
/// `-32768 ..= 32767`.
pub open spec fn i16_be_lo(v: int) -> u8 {
    let u = if v >= 0 {
        v
    } else {
        v + 65536
    };
    (u % 256) as u8
}

/// Reads a big-endian two's-complement 16-bit field.
pub fn i16_from_be(hi: u8, lo: u8) -> (r: i32)
    ensures
        r == i16_of_be_bytes(hi, lo),
        -32768 <= r <= 32767,
{
    let u: u32 = 256 * (hi as u32) + (lo as u32);
    if u < 32768 {
        u as i32
    } else {
        (u as i32) - 65536
    }
}

/// Writes a value in `-32768 ..= 32767` as a big-endian two's-complement
/// 16-bit field `(hi, lo)`.
pub fn i16_to_be(v: i64) -> (r: (u8, u8))
    requires
        -32768 <= v <= 32767,
    ensures
        r.0 == i16_be_hi(v as int),
        r.1 == i16_be_lo(v as int),
        i16_of_be_bytes(r.0, r.1) == v,
{
    let u: u32 = if v >= 0 {
        v as u32
    } else {
        (v + 65536) as u32
    };
    let hi: u8 = (u / 256) as u8;
    let lo: u8 = (u % 256) as u8;
    proof {
        lemma_fundamental_div_mod(u as int, 256);
    }
    (hi, lo)
}

} // verus!

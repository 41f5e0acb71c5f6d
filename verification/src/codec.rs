//! Fixed-width integer decoding for the container header and control block.
//!
//! All integer fields of the format are 8 bytes, little-endian, and carry
//! their sign in the most significant bit with the magnitude in the
//! remaining 63 bits (signed magnitude, not two's complement).

use vstd::prelude::*;

use crate::error::Error;

verus! {

/// Value of an 8-byte little-endian sequence, least-significant byte first.
pub open spec fn le64_value(s: Seq<u8>) -> int {
    s[0] + 0x100 * s[1] + 0x1_0000 * s[2] + 0x100_0000 * s[3]
        + 0x1_0000_0000 * s[4] + 0x100_0000_0000 * s[5]
        + 0x1_0000_0000_0000 * s[6] + 0x100_0000_0000_0000 * s[7]
}

/// Meaning of a raw 64-bit value `v` (in `[0, 2^64)`) under the signed-magnitude
/// convention: the top bit is the sign, the low 63 bits are the magnitude.
/// A set sign bit over a zero magnitude is negative zero, which is zero.
pub open spec fn sign_magnitude_val(v: int) -> int {
    if v < 0x8000_0000_0000_0000 {
        v
    } else {
        -(v - 0x8000_0000_0000_0000)
    }
}

/// The raw bit pattern of an `i64`, as the unsigned value in `[0, 2^64)`.
pub open spec fn i64_bits(y: i64) -> int {
    if y >= 0 {
        y as int
    } else {
        y as int + 0x1_0000_0000_0000_0000
    }
}

/// Reinterprets the bits of a two's-complement `i64` under the
/// signed-magnitude convention. Negative zero (sign bit set, magnitude
/// zero, i.e. `i64::MIN`) decodes to zero.
pub fn ones_complement_i64(y: i64) -> (r: i64)
    ensures
        r as int == sign_magnitude_val(i64_bits(y)),
{
    if y >= 0 {
        y
    } else if y == i64::MIN {
        0
    } else {
        -(y - i64::MIN)
    }
}

/// Reads the 8-byte little-endian field of `data` that starts at `pos`.
pub fn read_le_u64(data: &[u8], pos: usize) -> (r: u64)
    requires
        pos + 8 <= data@.len(),
    ensures
        r == le64_value(data@.subrange(pos as int, pos as int + 8)),
{
    let b0 = data[pos] as u64;
    let b1 = data[pos + 1] as u64;
    let b2 = data[pos + 2] as u64;
    let b3 = data[pos + 3] as u64;
    let b4 = data[pos + 4] as u64;
    let b5 = data[pos + 5] as u64;
    let b6 = data[pos + 6] as u64;
    let b7 = data[pos + 7] as u64;
    b0 + 0x100 * b1 + 0x1_0000 * b2 + 0x100_0000 * b3 + 0x1_0000_0000 * b4 + 0x100_0000_0000 * b5
        + 0x1_0000_0000_0000 * b6 + 0x100_0000_0000_0000 * b7
}

/// Reads a signed-magnitude field, used for `seek_delta`.
pub fn read_ones_complement_le_i64(data: &[u8], pos: usize) -> (r: i64)
    requires
        pos + 8 <= data@.len(),
    ensures
        r as int == sign_magnitude_val(le64_value(data@.subrange(pos as int, pos as int + 8))),
{
    let v = read_le_u64(data, pos);
    if v < 0x8000_0000_0000_0000 {
        v as i64
    } else {
        let m = v - 0x8000_0000_0000_0000;
        -(m as i64)
    }
}

/// Reads a signed-magnitude field that must be non-negative, used for
/// lengths. Fails with `InvalidLength` whenever the sign bit is set,
/// negative zero included.
pub fn read_positive_le_i64(data: &[u8], pos: usize) -> (r: Result<u64, Error>)
    requires
        pos + 8 <= data@.len(),
    ensures
        ({
            let v = le64_value(data@.subrange(pos as int, pos as int + 8));
            match r {
                Ok(n) => v < 0x8000_0000_0000_0000 && n == v,
                Err(e) => v >= 0x8000_0000_0000_0000 && e == Error::InvalidLength,
            }
        }),
{
    let v = read_le_u64(data, pos);
    if v < 0x8000_0000_0000_0000 {
        Ok(v)
    } else {
        Err(Error::InvalidLength)
    }
}

} // verus!

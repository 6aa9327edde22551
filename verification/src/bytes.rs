//! Little-endian integer decoding over byte slices.

use vstd::prelude::*;

verus! {

/// The unsigned 16-bit little-endian value stored at `off`.
pub open spec fn spec_u16_le(s: Seq<u8>, off: int) -> u16 {
    (s[off] as int + 256 * (s[off + 1] as int)) as u16
}

/// The signed 16-bit little-endian value stored at `off` (two's complement).
pub open spec fn spec_i16_le(s: Seq<u8>, off: int) -> i16 {
    let u = spec_u16_le(s, off) as int;
    if u < 0x8000 { u as i16 } else { (u - 0x10000) as i16 }
}

/// The unsigned 32-bit little-endian value stored at `off`.
pub open spec fn spec_u32_le(s: Seq<u8>, off: int) -> u32 {
    (s[off] as int + 256 * (s[off + 1] as int) + 65536 * (s[off + 2] as int)
        + 16777216 * (s[off + 3] as int)) as u32
}

/// The signed 32-bit little-endian value stored at `off` (two's complement).
pub open spec fn spec_i32_le(s: Seq<u8>, off: int) -> i32 {
    let u = spec_u32_le(s, off) as int;
    if u < 0x8000_0000 { u as i32 } else { (u - 0x1_0000_0000) as i32 }
}

pub fn read_u16_le(data: &[u8], off: usize) -> (v: u16)
    requires
        off + 2 <= data@.len(),
    ensures
        v == spec_u16_le(data@, off as int),
{
    let lo = data[off] as u16;
    let hi = data[off + 1] as u16;
    lo + hi * 256
}

pub fn read_i16_le(data: &[u8], off: usize) -> (v: i16)
    requires
        off + 2 <= data@.len(),
    ensures
        v == spec_i16_le(data@, off as int),
{
    let u = read_u16_le(data, off);
    if u < 0x8000 {
        u as i16
    } else {
        (u as i32 - 0x10000) as i16
    }
}

pub fn read_u32_le(data: &[u8], off: usize) -> (v: u32)
    requires
        off + 4 <= data@.len(),
    ensures
        v == spec_u32_le(data@, off as int),
{
    let b0 = data[off] as u32;
    let b1 = data[off + 1] as u32;
    let b2 = data[off + 2] as u32;
    let b3 = data[off + 3] as u32;
    b0 + b1 * 256 + b2 * 65536 + b3 * 16777216
}

pub fn read_i32_le(data: &[u8], off: usize) -> (v: i32)
    requires
        off + 4 <= data@.len(),
    ensures
        v == spec_i32_le(data@, off as int),
{
    let u = read_u32_le(data, off);
    if u < 0x8000_0000 {
        u as i32
    } else {
        (u as i64 - 0x1_0000_0000) as i32
    }
}

} // verus!

//! Little-endian integer reads over byte buffers.

use vstd::prelude::*;

verus! {

/// The 16-bit little-endian value stored at `off`.
pub open spec fn le16(s: Seq<u8>, off: int) -> u16 {
    (s[off] as int + s[off + 1] as int * 256) as u16
}

/// The 32-bit little-endian value stored at `off`.
pub open spec fn le32(s: Seq<u8>, off: int) -> u32 {
    (s[off] as int + s[off + 1] as int * 256 + s[off + 2] as int * 65536 + s[off + 3] as int
        * 16777216) as u32
}

/// `le16` where two bytes are available at `off`, zero otherwise.
pub open spec fn le16_or_zero(s: Seq<u8>, off: int) -> u16 {
    if 0 <= off && off + 2 <= s.len() {
        le16(s, off)
    } else {
        0
    }
}

/// `le32` where four bytes are available at `off`, zero otherwise.
pub open spec fn le32_or_zero(s: Seq<u8>, off: int) -> u32 {
    if 0 <= off && off + 4 <= s.len() {
        le32(s, off)
    } else {
        0
    }
}

/// Reads a little-endian `u16`; the bytes must be present.
pub fn read_u16(data: &[u8], off: usize) -> (r: u16)
    requires
        off + 2 <= data@.len(),
    ensures
        r == le16(data@, off as int),
{
    let lo = data[off] as u16;
    let hi = data[off + 1] as u16;
    lo + hi * 256
}

/// Reads a little-endian `u32`; the bytes must be present.
pub fn read_u32(data: &[u8], off: usize) -> (r: u32)
    requires
        off + 4 <= data@.len(),
    ensures
        r == le32(data@, off as int),
{
    let b0 = data[off] as u32;
    let b1 = data[off + 1] as u32;
    let b2 = data[off + 2] as u32;
    let b3 = data[off + 3] as u32;
    b0 + b1 * 256 + b2 * 65536 + b3 * 16777216
}

/// Reads a little-endian `u16`, or zero when the buffer is too short.
pub fn read_u16_or_zero(data: &[u8], off: usize) -> (r: u16)
    ensures
        r == le16_or_zero(data@, off as int),
{
    if data.len() >= 2 && off <= data.len() - 2 {
        read_u16(data, off)
    } else {
        0
    }
}

/// Reads a little-endian `u32`, or zero when the buffer is too short.
pub fn read_u32_or_zero(data: &[u8], off: usize) -> (r: u32)
    ensures
        r == le32_or_zero(data@, off as int),
{
    if data.len() >= 4 && off <= data.len() - 4 {
        read_u32(data, off)
    } else {
        0
    }
}

} // verus!

//! Bounds-checked little-endian reads over a byte buffer.

use vstd::prelude::*;

verus! {

/// The `n` bytes starting at `pos` lie inside `buf`.
pub open spec fn in_bounds(buf: Seq<u8>, pos: int, n: int) -> bool {
    0 <= pos && 0 <= n && pos + n <= buf.len()
}

/// The little-endian value of the two bytes at `pos`.
pub open spec fn le_u16(buf: Seq<u8>, pos: int) -> int {
    buf[pos] as int + 256 * (buf[pos + 1] as int)
}

/// The little-endian value of the four bytes at `pos`.
pub open spec fn le_u32(buf: Seq<u8>, pos: int) -> int {
    le_u16(buf, pos) + 65536 * le_u16(buf, pos + 2)
}

/// The little-endian value of the eight bytes at `pos`.
pub open spec fn le_u64(buf: Seq<u8>, pos: int) -> int {
    le_u32(buf, pos) + 4294967296 * le_u32(buf, pos + 4)
}

/// The byte at `pos`, if there is one.
pub open spec fn u8_at(buf: Seq<u8>, pos: int) -> Option<u8> {
    if in_bounds(buf, pos, 1) {
        Some(buf[pos])
    } else {
        None
    }
}

/// The 16-bit little-endian integer at `pos`, if it lies inside `buf`.
pub open spec fn u16_at(buf: Seq<u8>, pos: int) -> Option<u16> {
    if in_bounds(buf, pos, 2) {
        Some(le_u16(buf, pos) as u16)
    } else {
        None
    }
}

/// The 32-bit little-endian integer at `pos`, if it lies inside `buf`.
pub open spec fn u32_at(buf: Seq<u8>, pos: int) -> Option<u32> {
    if in_bounds(buf, pos, 4) {
        Some(le_u32(buf, pos) as u32)
    } else {
        None
    }
}

/// The 64-bit little-endian integer at `pos`, if it lies inside `buf`.
pub open spec fn u64_at(buf: Seq<u8>, pos: int) -> Option<u64> {
    if in_bounds(buf, pos, 8) {
        Some(le_u64(buf, pos) as u64)
    } else {
        None
    }
}

/// The little-endian values fit their width, so the casts in `u16_at`,
/// `u32_at` and `u64_at` lose nothing.
pub proof fn lemma_le_ranges(buf: Seq<u8>, pos: int)
    ensures
        0 <= le_u16(buf, pos) <= u16::MAX,
        0 <= le_u32(buf, pos) <= u32::MAX,
        0 <= le_u64(buf, pos) <= u64::MAX,
{
}

/// A slice is no longer than the largest `usize`.
pub proof fn lemma_buf_len(buf: &[u8])
    ensures
        buf@.len() <= usize::MAX,
{
    assert(buf.len() == buf@.len());
}

/// Does `buf` hold `n` bytes from `pos` on?
pub fn has_bytes(buf: &[u8], pos: usize, n: usize) -> (r: bool)
    ensures
        r == in_bounds(buf@, pos as int, n as int),
        r ==> pos + n <= usize::MAX,
{
    pos <= buf.len() && buf.len() - pos >= n
}

/// Reads one byte.
pub fn read_u8(buf: &[u8], pos: usize) -> (r: Option<u8>)
    ensures
        r == u8_at(buf@, pos as int),
{
    if has_bytes(buf, pos, 1) {
        Some(buf[pos])
    } else {
        None
    }
}

/// Reads a 16-bit little-endian integer.
pub fn read_u16(buf: &[u8], pos: usize) -> (r: Option<u16>)
    ensures
        r == u16_at(buf@, pos as int),
{
    if has_bytes(buf, pos, 2) {
        let lo: u16 = buf[pos] as u16;
        let hi: u16 = buf[pos + 1] as u16;
        Some(lo + 256 * hi)
    } else {
        None
    }
}

/// Reads a 32-bit little-endian integer.
pub fn read_u32(buf: &[u8], pos: usize) -> (r: Option<u32>)
    ensures
        r == u32_at(buf@, pos as int),
{
    if has_bytes(buf, pos, 4) {
        let b0: u32 = buf[pos] as u32;
        let b1: u32 = buf[pos + 1] as u32;
        let b2: u32 = buf[pos + 2] as u32;
        let b3: u32 = buf[pos + 3] as u32;
        Some(b0 + 256 * b1 + 65536 * b2 + 16777216 * b3)
    } else {
        None
    }
}

/// Reads a 64-bit little-endian integer.
pub fn read_u64(buf: &[u8], pos: usize) -> (r: Option<u64>)
    ensures
        r == u64_at(buf@, pos as int),
{
    if has_bytes(buf, pos, 8) {
        let lo: Option<u32> = read_u32(buf, pos);
        let hi: Option<u32> = read_u32(buf, pos + 4);
        match (lo, hi) {
            (Some(lo), Some(hi)) => Some(lo as u64 + 4294967296 * (hi as u64)),
            _ => None,
        }
    } else {
        None
    }
}

} // verus!

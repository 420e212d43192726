//! CRC-32 (IEEE 802.3), the checksum of file and chunk headers and of a
//! chunk's record region.

use vstd::prelude::*;

verus! {

/// One step of the reflected division by the polynomial.
pub open spec fn crc_shift(c: u32) -> u32 {
    if c & 1 == 1 {
        (c >> 1) ^ 0xEDB8_8320
    } else {
        c >> 1
    }
}

/// The register after one more byte.
pub open spec fn crc_byte(c: u32, b: u8) -> u32 {
    crc_shift(
        crc_shift(
            crc_shift(crc_shift(crc_shift(crc_shift(crc_shift(crc_shift(c ^ (b as u32))))))),
        ),
    )
}

/// The register after the bytes, from the register `c`.
pub open spec fn crc_update(c: u32, bytes: Seq<u8>) -> u32
    decreases bytes.len(),
{
    if bytes.len() == 0 {
        c
    } else {
        crc_byte(crc_update(c, bytes.drop_last()), bytes.last())
    }
}

/// The CRC-32 of the bytes.
pub open spec fn crc32(bytes: Seq<u8>) -> u32 {
    crc_update(0xFFFF_FFFF, bytes) ^ 0xFFFF_FFFF
}

/// Feeding two runs of bytes one after the other is feeding their
/// concatenation.
pub proof fn lemma_crc_concat(c: u32, a: Seq<u8>, b: Seq<u8>)
    ensures
        crc_update(c, a + b) == crc_update(crc_update(c, a), b),
    decreases b.len(),
{
    if b.len() == 0 {
        assert(a + b =~= a);
    } else {
        lemma_crc_concat(c, a, b.drop_last());
        assert((a + b).drop_last() =~= a + b.drop_last());
        assert((a + b).last() == b.last());
    }
}

fn shift(c: u32) -> (r: u32)
    ensures
        r == crc_shift(c),
{
    if c & 1 == 1 {
        (c >> 1) ^ 0xEDB8_8320
    } else {
        c >> 1
    }
}

fn feed(c: u32, b: u8) -> (r: u32)
    ensures
        r == crc_byte(c, b),
{
    shift(shift(shift(shift(shift(shift(shift(shift(c ^ (b as u32)))))))))
}

/// Feeds the bytes of `buf` from `start` up to `end` into the register `c`.
pub fn crc_feed(c: u32, buf: &[u8], start: usize, end: usize) -> (r: u32)
    requires
        start <= end <= buf@.len(),
    ensures
        r == crc_update(c, buf@.subrange(start as int, end as int)),
{
    let mut reg: u32 = c;
    let mut i: usize = start;
    assert(buf@.subrange(start as int, start as int) =~= Seq::<u8>::empty());
    while i < end
        invariant
            start <= i <= end <= buf@.len(),
            reg == crc_update(c, buf@.subrange(start as int, i as int)),
        decreases end - i,
    {
        proof {
            let next = buf@.subrange(start as int, i + 1);
            assert(next.drop_last() =~= buf@.subrange(start as int, i as int));
            assert(next.last() == buf@[i as int]);
        }
        reg = feed(reg, buf[i]);
        i = i + 1;
    }
    reg
}

/// The CRC-32 of the bytes of `buf` from `start` up to `end`.
pub fn checksum(buf: &[u8], start: usize, end: usize) -> (r: u32)
    requires
        start <= end <= buf@.len(),
    ensures
        r == crc32(buf@.subrange(start as int, end as int)),
{
    crc_feed(0xFFFF_FFFF, buf, start, end) ^ 0xFFFF_FFFF
}

} // verus!

//! Bounds-checked little-endian integer reads over byte buffers.
use vstd::prelude::*;

verus! {

/// The unsigned value of the two bytes at `off`, least significant first.
pub open spec fn u16_at(s: Seq<u8>, off: int) -> int {
    s[off] as int + 256 * s[off + 1] as int
}

/// The unsigned value of the four bytes at `off`, least significant first.
pub open spec fn u32_at(s: Seq<u8>, off: int) -> int {
    u16_at(s, off) + 65536 * u16_at(s, off + 2)
}

/// The unsigned value of the eight bytes at `off`, least significant first.
pub open spec fn u64_at(s: Seq<u8>, off: int) -> int {
    u32_at(s, off) + 4294967296 * u32_at(s, off + 4)
}

/// The two's-complement value of the eight bytes at `off`.
pub open spec fn i64_at(s: Seq<u8>, off: int) -> int {
    let u = u64_at(s, off);
    if u < 0x8000_0000_0000_0000 {
        u
    } else {
        u - 0x1_0000_0000_0000_0000
    }
}

/// Whether `len` bytes starting at `off` lie inside `s`.
pub open spec fn fits(s: Seq<u8>, off: int, len: int) -> bool {
    0 <= off && 0 <= len && off + len <= s.len()
}

pub fn read_u16(b: &[u8], off: usize) -> (r: u16)
    requires
        fits(b@, off as int, 2),
    ensures
        r as int == u16_at(b@, off as int),
{
    b[off] as u16 + 256 * (b[off + 1] as u16)
}

pub fn read_u32(b: &[u8], off: usize) -> (r: u32)
    requires
        fits(b@, off as int, 4),
    ensures
        r as int == u32_at(b@, off as int),
{
    let _n = b.len();
    let lo = read_u16(b, off) as u32;
    let hi = read_u16(b, off + 2) as u32;
    lo + 65536 * hi
}

pub fn read_u64(b: &[u8], off: usize) -> (r: u64)
    requires
        fits(b@, off as int, 8),
    ensures
        r as int == u64_at(b@, off as int),
{
    let _n = b.len();
    let lo = read_u32(b, off) as u64;
    let hi = read_u32(b, off + 4) as u64;
    lo + 4294967296 * hi
}

pub fn read_i64(b: &[u8], off: usize) -> (r: i64)
    requires
        fits(b@, off as int, 8),
    ensures
        r as int == i64_at(b@, off as int),
{
    let u = read_u64(b, off);
    if u < 0x8000_0000_0000_0000 {
        u as i64
    } else {
        let m: u64 = u - 0x8000_0000_0000_0000;
        (m as i64) - 0x7fff_ffff_ffff_ffff - 1
    }
}

/// A copy of the bytes of `b` from `start` up to, not including, `end`.
pub fn copy_range(b: &[u8], start: usize, end: usize) -> (r: Vec<u8>)
    requires
        start <= end <= b@.len(),
    ensures
        r@ == b@.subrange(start as int, end as int),
{
    let mut r: Vec<u8> = Vec::with_capacity(end - start);
    let mut i: usize = start;
    while i < end
        invariant
            start <= i <= end <= b@.len(),
            r@ == b@.subrange(start as int, i as int),
        decreases end - i,
    {
        r.push(b[i]);
        i = i + 1;
    }
    r
}

} // verus!

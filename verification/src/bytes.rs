//! Little-endian field access and small byte-string helpers.

use vstd::prelude::*;

verus! {

/// The unsigned 16-bit little-endian value stored at `off`.
pub open spec fn le16(s: Seq<u8>, off: int) -> int {
    s[off] + s[off + 1] * 256
}

/// The unsigned 32-bit little-endian value stored at `off`.
pub open spec fn le32(s: Seq<u8>, off: int) -> int {
    le16(s, off) + le16(s, off + 2) * 65536
}

/// The unsigned 64-bit little-endian value stored at `off`.
pub open spec fn le64(s: Seq<u8>, off: int) -> int {
    le32(s, off) + le32(s, off + 4) * 4294967296
}

/// The signed (two's complement) 64-bit little-endian value stored at `off`.
pub open spec fn le64_signed(s: Seq<u8>, off: int) -> int {
    if le64(s, off) < 0x8000_0000_0000_0000 {
        le64(s, off)
    } else {
        le64(s, off) - 0x1_0000_0000_0000_0000
    }
}

/// Reads the little-endian `u16` at `offset`.
pub fn read_u16(data: &[u8], offset: usize) -> (r: u16)
    requires
        offset + 2 <= data.len(),
    ensures
        r == le16(data@, offset as int),
{
    data[offset] as u16 + (data[offset + 1] as u16) * 256
}

/// Reads the little-endian `u32` at `offset`.
pub fn read_u32(data: &[u8], offset: usize) -> (r: u32)
    requires
        offset + 4 <= data.len(),
    ensures
        r == le32(data@, offset as int),
{
    let lo = read_u16(data, offset);
    let hi = read_u16(data, offset + 2);
    lo as u32 + (hi as u32) * 65536
}

/// Reads the little-endian `u64` at `offset`.
pub fn read_u64(data: &[u8], offset: usize) -> (r: u64)
    requires
        offset + 8 <= data.len(),
    ensures
        r == le64(data@, offset as int),
{
    let lo = read_u32(data, offset);
    let hi = read_u32(data, offset + 4);
    lo as u64 + (hi as u64) * 4294967296
}

/// Reads the little-endian two's complement `i64` at `offset`.
pub fn read_i64(data: &[u8], offset: usize) -> (r: i64)
    requires
        offset + 8 <= data.len(),
    ensures
        r == le64_signed(data@, offset as int),
{
    let u = read_u64(data, offset);
    if u < 0x8000_0000_0000_0000 {
        u as i64
    } else {
        let below: u64 = u - 0x8000_0000_0000_0000;
        (below as i64) + i64::MIN
    }
}

/// Rounds `x` up to the next multiple of four.
pub fn align4(x: usize) -> (r: usize)
    requires
        x + 3 <= usize::MAX,
    ensures
        r as int == (x as int + 3) / 4 * 4,
{
    let y: usize = x + 3;
    let r = y & !3usize;
    assert(y & !3usize == y / 4 * 4) by (bit_vector);
    r
}

/// Whether `p` is stored in `s` starting at `start`.
pub fn bytes_match_at(s: &[u8], start: usize, p: &[u8]) -> (b: bool)
    requires
        start + p@.len() <= s.len(),
    ensures
        b == (s@.subrange(start as int, start + p@.len()) == p@),
{
    let mut k: usize = 0;
    while k < p.len()
        invariant
            start + p@.len() <= s.len(),
            k <= p@.len(),
            forall|j: int| 0 <= j < k ==> s@[start + j] == p@[j],
        decreases p@.len() - k,
    {
        if s[start + k] != p[k] {
            assert(s@.subrange(start as int, start + p@.len())[k as int] != p@[k as int]);
            return false;
        }
        k = k + 1;
    }
    assert(s@.subrange(start as int, start + p@.len()) =~= p@);
    true
}

} // verus!

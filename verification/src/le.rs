use vstd::prelude::*;

verus! {

/// The value of the little-endian 16-bit field at byte offset `i` of `s`.
pub open spec fn le16(s: Seq<u8>, i: int) -> int
    recommends
        0 <= i,
        i + 2 <= s.len(),
{
    s[i] + 0x100 * s[i + 1]
}

/// The value of the little-endian 32-bit field at byte offset `i` of `s`.
pub open spec fn le32(s: Seq<u8>, i: int) -> int
    recommends
        0 <= i,
        i + 4 <= s.len(),
{
    s[i] + 0x100 * s[i + 1] + 0x1_0000 * s[i + 2] + 0x100_0000 * s[i + 3]
}

/// Reads the little-endian 16-bit field at byte offset `off`.
pub fn read_u16_le(s: &[u8], off: usize) -> (r: u16)
    requires
        off + 2 <= s@.len(),
    ensures
        r == le16(s@, off as int),
{
    s[off] as u16 + s[off + 1] as u16 * 0x100
}

/// Reads the little-endian 32-bit field at byte offset `off`.
pub fn read_u32_le(s: &[u8], off: usize) -> (r: u32)
    requires
        off + 4 <= s@.len(),
    ensures
        r == le32(s@, off as int),
{
    s[off] as u32 + s[off + 1] as u32 * 0x100 + s[off + 2] as u32 * 0x1_0000 + s[off
        + 3] as u32 * 0x100_0000
}

} // verus!

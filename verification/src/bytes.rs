//! Little-endian decoding of fixed-width fields at checked offsets.

use vstd::prelude::*;

verus! {

/// The little-endian 16-bit value stored at offset `i` of `b`.
pub open spec fn le16(b: Seq<u8>, i: int) -> int {
    b[i] + 0x100 * b[i + 1]
}

/// The little-endian 32-bit value stored at offset `i` of `b`.
pub open spec fn le32(b: Seq<u8>, i: int) -> int {
    le16(b, i) + 0x1_0000 * le16(b, i + 2)
}

/// The four bytes of `v` in little-endian order, for `0 <= v < 2^32`.
pub open spec fn u32_le_bytes(v: int) -> Seq<u8> {
    seq![
        (v % 0x100) as u8,
        ((v / 0x100) % 0x100) as u8,
        ((v / 0x1_0000) % 0x100) as u8,
        ((v / 0x100_0000) % 0x100) as u8,
    ]
}

/// Reads the little-endian `u16` at offset `i` of `b`.
pub fn read_u16_le(b: &[u8], i: usize) -> (r: u16)
    requires
        i + 2 <= b@.len(),
    ensures
        r == le16(b@, i as int),
{
    let lo = b[i];
    let hi = b[i + 1];
    (lo as u16) + 0x100 * (hi as u16)
}

/// Reads the little-endian `u32` at offset `i` of `b`.
pub fn read_u32_le(b: &[u8], i: usize) -> (r: u32)
    requires
        i + 4 <= b@.len(),
    ensures
        r == le32(b@, i as int),
{
    let n = b.len();
    proof {
        assert(i + 4 <= n);
    }
    let lo = read_u16_le(b, i);
    let hi = read_u16_le(b, i + 2);
    (lo as u32) + 0x1_0000 * (hi as u32)
}

} // verus!

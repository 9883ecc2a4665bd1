//! Little-endian numbers in byte strings.

use vstd::prelude::*;

verus! {

/// The 16-bit number at `at`.
pub open spec fn le16(s: Seq<u8>, at: int) -> u16 {
    (s[at] + 0x100 * s[at + 1]) as u16
}

/// The 32-bit number at `at`.
pub open spec fn le32(s: Seq<u8>, at: int) -> u32 {
    (le16(s, at) + 0x1_0000 * le16(s, at + 2)) as u32
}

/// The 64-bit number at `at`.
pub open spec fn le64(s: Seq<u8>, at: int) -> u64 {
    (le32(s, at) + 0x1_0000_0000 * le32(s, at + 4)) as u64
}

/// Reads a 16-bit number that lies inside `bytes`.
pub fn get_u16(bytes: &[u8], at: usize) -> (r: u16)
    requires
        at + 2 <= bytes@.len(),
    ensures
        r == le16(bytes@, at as int),
{
    (bytes[at] as u16) + 0x100 * (bytes[at + 1] as u16)
}

/// Reads a 32-bit number that lies inside `bytes`.
pub fn get_u32(bytes: &[u8], at: usize) -> (r: u32)
    requires
        at + 4 <= bytes@.len(),
    ensures
        r == le32(bytes@, at as int),
{
    assert(bytes.len() == bytes@.len());
    (get_u16(bytes, at) as u32) + 0x1_0000 * (get_u16(bytes, at + 2) as u32)
}

/// Reads a 64-bit number that lies inside `bytes`.
pub fn get_u64(bytes: &[u8], at: usize) -> (r: u64)
    requires
        at + 8 <= bytes@.len(),
    ensures
        r == le64(bytes@, at as int),
{
    assert(bytes.len() == bytes@.len());
    (get_u32(bytes, at) as u64) + 0x1_0000_0000 * (get_u32(bytes, at + 4) as u64)
}

/// The bytes of a 32-bit number.
fn split_u32(value: u32) -> (r: (u8, u8, u8, u8))
    ensures
        value == r.0 + 0x100 * r.1 + 0x1_0000 * r.2 + 0x100_0000 * r.3,
{
    let low: u32 = value % 0x1_0000;
    let high: u32 = value / 0x1_0000;
    (
        (low % 0x100) as u8,
        (low / 0x100) as u8,
        (high % 0x100) as u8,
        (high / 0x100) as u8,
    )
}

/// The bytes of two 64-bit numbers, one behind the other.
pub fn put_u64_pair(low: u64, high: u64) -> (r: [u8; 16])
    ensures
        le64(r@, 0) == low,
        le64(r@, 8) == high,
{
    let (a0, a1, a2, a3) = split_u32((low % 0x1_0000_0000) as u32);
    let (a4, a5, a6, a7) = split_u32((low / 0x1_0000_0000) as u32);
    let (b0, b1, b2, b3) = split_u32((high % 0x1_0000_0000) as u32);
    let (b4, b5, b6, b7) = split_u32((high / 0x1_0000_0000) as u32);
    let r: [u8; 16] = [a0, a1, a2, a3, a4, a5, a6, a7, b0, b1, b2, b3, b4, b5, b6, b7];
    assert(le32(r@, 0) == low % 0x1_0000_0000);
    assert(le32(r@, 4) == low / 0x1_0000_0000);
    assert(le32(r@, 8) == high % 0x1_0000_0000);
    assert(le32(r@, 12) == high / 0x1_0000_0000);
    r
}

/// The bytes of a number stand with the lowest in front.
pub proof fn law_numbers_have_their_lowest_byte_in_front(s: Seq<u8>, at: int)
    ensures
        le16(s, at) == s[at] + 0x100 * s[at + 1],
        le32(s, at) == s[at] + 0x100 * s[at + 1] + 0x1_0000 * s[at + 2] + 0x100_0000 * s[at + 3],
        le64(s, at) == s[at] + 0x100 * s[at + 1] + 0x1_0000 * s[at + 2] + 0x100_0000 * s[at + 3]
            + 0x1_0000_0000 * s[at + 4] + 0x100_0000_0000 * s[at + 5] + 0x1_0000_0000_0000 * s[at
            + 6] + 0x100_0000_0000_0000 * s[at + 7],
{
}

} // verus!

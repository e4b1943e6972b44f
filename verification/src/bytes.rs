use vstd::prelude::*;
use vstd::slice::slice_subrange;

verus! {

/// The number that two bytes spell, least significant byte first.
pub open spec fn le16(b0: u8, b1: u8) -> int {
    b0 + 256 * b1
}

/// The number that four bytes spell, least significant byte first.
pub open spec fn le32(b0: u8, b1: u8, b2: u8, b3: u8) -> int {
    b0 + 256 * b1 + 65536 * b2 + 16777216 * b3
}

/// Reads the 16-bit number at the start of `bytes`.
pub fn u16_from_bytes(bytes: &[u8]) -> (r: u16)
    requires
        bytes@.len() >= 2,
    ensures
        r == le16(bytes@[0], bytes@[1]),
{
    bytes[0] as u16 + 256 * (bytes[1] as u16)
}

/// Reads the 32-bit number at the start of `bytes`.
pub fn u32_from_bytes(bytes: &[u8]) -> (r: u32)
    requires
        bytes@.len() >= 4,
    ensures
        r == le32(bytes@[0], bytes@[1], bytes@[2], bytes@[3]),
{
    bytes[0] as u32 + 256 * (bytes[1] as u32) + 65536 * (bytes[2] as u32) + 16777216 * (
    bytes[3] as u32)
}

/// The little-endian number spelt by the two bytes of `s` at `at`.
pub open spec fn le16_at(s: Seq<u8>, at: int) -> int {
    le16(s[at], s[at + 1])
}

/// The little-endian number spelt by the four bytes of `s` at `at`.
pub open spec fn le32_at(s: Seq<u8>, at: int) -> int {
    le32(s[at], s[at + 1], s[at + 2], s[at + 3])
}

/// Reads the 16-bit field of `bytes` that starts at `at`.
pub fn u16_at(bytes: &[u8], at: usize) -> (r: u16)
    requires
        at + 2 <= bytes@.len(),
    ensures
        r == le16_at(bytes@, at as int),
{
    assert(bytes@.len() == bytes.len());
    u16_from_bytes(slice_subrange(bytes, at, at + 2))
}

/// Reads the 32-bit field of `bytes` that starts at `at`.
pub fn u32_at(bytes: &[u8], at: usize) -> (r: u32)
    requires
        at + 4 <= bytes@.len(),
    ensures
        r == le32_at(bytes@, at as int),
{
    assert(bytes@.len() == bytes.len());
    u32_from_bytes(slice_subrange(bytes, at, at + 4))
}

} // verus!

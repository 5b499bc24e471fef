//! Fixed-width integers in byte sequences, big- and little-endian.

use vstd::prelude::*;

verus! {

/// The big-endian 16-bit integer stored at `at`.
pub open spec fn be16_at(s: Seq<u8>, at: int) -> u16 {
    (s[at] * 0x100 + s[at + 1]) as u16
}

/// The big-endian 32-bit integer stored at `at`.
pub open spec fn be32_at(s: Seq<u8>, at: int) -> u32 {
    (s[at] * 0x100_0000 + s[at + 1] * 0x1_0000 + s[at + 2] * 0x100 + s[at + 3]) as u32
}

/// The big-endian 64-bit integer stored at `at`.
pub open spec fn be64_at(s: Seq<u8>, at: int) -> u64 {
    (be32_at(s, at) * 0x1_0000_0000 + be32_at(s, at + 4)) as u64
}

/// The little-endian 32-bit integer stored at `at`.
pub open spec fn le32_at(s: Seq<u8>, at: int) -> u32 {
    (s[at] + s[at + 1] * 0x100 + s[at + 2] * 0x1_0000 + s[at + 3] * 0x100_0000) as u32
}

/// The little-endian 64-bit integer stored at `at`.
pub open spec fn le64_at(s: Seq<u8>, at: int) -> u64 {
    (le32_at(s, at) + le32_at(s, at + 4) * 0x1_0000_0000) as u64
}

/// Reads the big-endian 16-bit integer at `at`.
pub fn be16(data: &[u8], at: usize) -> (value: u16)
    requires
        at + 2 <= data@.len(),
    ensures
        value == be16_at(data@, at as int),
{
    (data[at] as u16) * 0x100 + data[at + 1] as u16
}

/// Reads the big-endian 32-bit integer at `at`.
pub fn be32(data: &[u8], at: usize) -> (value: u32)
    requires
        at + 4 <= data@.len(),
    ensures
        value == be32_at(data@, at as int),
{
    (data[at] as u32) * 0x100_0000 + (data[at + 1] as u32) * 0x1_0000 + (data[at + 2] as u32)
        * 0x100 + data[at + 3] as u32
}

/// Reads the big-endian 64-bit integer at `at`.
pub fn be64(data: &[u8], at: usize) -> (value: u64)
    requires
        at + 8 <= data@.len(),
    ensures
        value == be64_at(data@, at as int),
{
    assert(data@.len() == data.len());
    (be32(data, at) as u64) * 0x1_0000_0000 + be32(data, at + 4) as u64
}

/// Reads the little-endian 32-bit integer at `at`.
pub fn le32(data: &[u8], at: usize) -> (value: u32)
    requires
        at + 4 <= data@.len(),
    ensures
        value == le32_at(data@, at as int),
{
    data[at] as u32 + (data[at + 1] as u32) * 0x100 + (data[at + 2] as u32) * 0x1_0000 + (data[at
        + 3] as u32) * 0x100_0000
}

/// Reads the little-endian 64-bit integer at `at`.
pub fn le64(data: &[u8], at: usize) -> (value: u64)
    requires
        at + 8 <= data@.len(),
    ensures
        value == le64_at(data@, at as int),
{
    assert(data@.len() == data.len());
    le32(data, at) as u64 + (le32(data, at + 4) as u64) * 0x1_0000_0000
}

} // verus!

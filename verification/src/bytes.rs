//! Fixed-width integers read out of byte buffers, in the byte orders the
//! firmware tables and wire formats of this kernel use.
use vstd::prelude::*;

verus! {

/// Big-endian 32-bit value of the four bytes at `i`.
pub open spec fn be32(s: Seq<u8>, i: int) -> u32 {
    (s[i] as int * 0x100_0000 + s[i + 1] as int * 0x1_0000 + s[i + 2] as int * 0x100
        + s[i + 3] as int) as u32
}

/// Big-endian 64-bit value of the eight bytes at `i`.
pub open spec fn be64(s: Seq<u8>, i: int) -> u64 {
    (be32(s, i) as int * 0x1_0000_0000 + be32(s, i + 4) as int) as u64
}

/// Little-endian 16-bit value of the two bytes at `i`.
pub open spec fn le16(s: Seq<u8>, i: int) -> u16 {
    (s[i] as int + s[i + 1] as int * 0x100) as u16
}

/// Little-endian 32-bit value of the four bytes at `i`.
pub open spec fn le32(s: Seq<u8>, i: int) -> u32 {
    (s[i] as int + s[i + 1] as int * 0x100 + s[i + 2] as int * 0x1_0000 + s[i + 3] as int
        * 0x100_0000) as u32
}

/// Little-endian 64-bit value of the eight bytes at `i`.
pub open spec fn le64(s: Seq<u8>, i: int) -> u64 {
    (le32(s, i) as int + le32(s, i + 4) as int * 0x1_0000_0000) as u64
}

pub fn read_be32(s: &[u8], i: usize) -> (v: u32)
    requires
        i + 4 <= s@.len(),
    ensures
        v == be32(s@, i as int),
{
    (s[i] as u32) * 0x100_0000 + (s[i + 1] as u32) * 0x1_0000 + (s[i + 2] as u32) * 0x100
        + (s[i + 3] as u32)
}

pub fn read_be64(s: &[u8], i: usize) -> (v: u64)
    requires
        i + 8 <= s@.len(),
    ensures
        v == be64(s@, i as int),
{
    let _n = s.len();
    let hi = read_be32(s, i) as u64;
    let lo = read_be32(s, i + 4) as u64;
    hi * 0x1_0000_0000 + lo
}

pub fn read_le16(s: &[u8], i: usize) -> (v: u16)
    requires
        i + 2 <= s@.len(),
    ensures
        v == le16(s@, i as int),
{
    (s[i] as u16) + (s[i + 1] as u16) * 0x100
}

pub fn read_le32(s: &[u8], i: usize) -> (v: u32)
    requires
        i + 4 <= s@.len(),
    ensures
        v == le32(s@, i as int),
{
    (s[i] as u32) + (s[i + 1] as u32) * 0x100 + (s[i + 2] as u32) * 0x1_0000 + (s[i + 3] as u32)
        * 0x100_0000
}

pub fn read_le64(s: &[u8], i: usize) -> (v: u64)
    requires
        i + 8 <= s@.len(),
    ensures
        v == le64(s@, i as int),
{
    let _n = s.len();
    let lo = read_le32(s, i) as u64;
    let hi = read_le32(s, i + 4) as u64;
    lo + hi * 0x1_0000_0000
}

} // verus!

//! Board support for the aarch64 QEMU `virt` machine (GICv2).
use vstd::prelude::*;
use crate::memory::mmap::{MemoryMap, RegionKind, region};

verus! {

/// Lowest usable RAM address.
pub const RAM_BASE: u64 = 0x4000_0000;
/// RAM assumed when no better memory map is available.
pub const RAM_FALLBACK_SIZE: u64 = 0x800_0000;
/// End of the identity-mapped range: the first 4 GiB.
pub const MAPPED_END: u64 = 0x1_0000_0000;

/// Marker for this board.
pub struct Board;

/// Physical MMIO ranges mapped as Device memory: the whole first GiB
/// (GICv2, PL011, flash).
pub fn mmio_ranges() -> (r: Vec<(u64, u64)>)
    ensures
        r@ == seq![(0u64, 0x4000_0000u64)],
{
    let mut r: Vec<(u64, u64)> = Vec::new();
    r.push((0, 0x4000_0000));
    r
}

/// 128 MiB of RAM at `RAM_BASE`.
pub fn parse_memory_map() -> (map: MemoryMap)
    ensures
        map@ == seq![region(RAM_BASE, RAM_FALLBACK_SIZE, RegionKind::Usable)],
{
    let mut map = MemoryMap::empty();
    map.add(RAM_BASE, RAM_FALLBACK_SIZE, RegionKind::Usable);
    map
}

} // verus!

//! Board support for the Raspberry Pi 3 (BCM2837): GPIO pin muxing for the
//! UART, the legacy interrupt controller plus the ARM-local block, the
//! VideoCore mailbox and framebuffer, and the USB host stack.
use vstd::prelude::*;
use crate::memory::mmap::{MemoryMap, RegionKind, region};

pub mod fbconsole;
pub mod framebuffer;
pub mod gpio;
pub mod intc;
pub mod mailbox;
pub mod usb;

verus! {

/// Base of the BCM2837 peripherals (UART, GPIO, legacy interrupt controller).
pub const PERIPHERAL_BASE: u64 = 0x3F00_0000;
pub const RAM_BASE: u64 = 0x0;
pub const RAM_FALLBACK_SIZE: u64 = 0x800_0000;
/// End of the identity-mapped range: the first 2 GiB.
pub const MAPPED_END: u64 = 0x8000_0000;

/// Marker for this board.
pub struct Board;

/// Physical MMIO ranges mapped as Device memory: the peripherals and the
/// ARM-local block.
pub fn mmio_ranges() -> (r: Vec<(u64, u64)>)
    ensures
        r@ == seq![(0x3F00_0000u64, 0x0100_0000u64), (0x4000_0000u64, 0x1000u64)],
{
    let mut r: Vec<(u64, u64)> = Vec::new();
    r.push((PERIPHERAL_BASE, 0x0100_0000));
    r.push((0x4000_0000, 0x1000));
    r
}

/// 128 MiB of RAM at 0.
pub fn parse_memory_map() -> (map: MemoryMap)
    ensures
        map@ == seq![region(RAM_BASE, RAM_FALLBACK_SIZE, RegionKind::Usable)],
{
    let mut map = MemoryMap::empty();
    map.add(RAM_BASE, RAM_FALLBACK_SIZE, RegionKind::Usable);
    map
}

} // verus!

//! aarch64 (EL1) support: console, context, exceptions, GIC, identity map.
use vstd::prelude::*;
use crate::memory::mmap::{MemoryMap, RegionKind, region};
use crate::boards::raspberrypi3::gpio::{PinStep, uart_pin_steps};
use crate::arch::aarch64::gic::{GicWrite, word, enable_writes};

pub mod console;
pub mod context;
pub mod exceptions;
pub mod gic;
pub mod paging;

verus! {

/// Start of the (future) user address range.
pub const USER_BASE_VA: u64 = 0x40_0000_0000;
pub const USER_CODE_VA: u64 = 0x40_0000_0000;
pub const USER_STACK_TOP: u64 = 0x40_0001_0000;
pub const USER_ELF_STACK_TOP: u64 = 0x40_1000_0000;

/// The memory map of the QEMU `virt` default: 128 MiB of RAM at 1 GiB.
pub fn parse_memory_map() -> (map: MemoryMap)
    ensures
        map@ == seq![region(0x4000_0000, 0x800_0000, RegionKind::Usable)],
{
    let mut map = MemoryMap::empty();
    map.add(0x4000_0000, 128 * 1024 * 1024, RegionKind::Usable);
    map
}

/// The value for `TPIDR_EL1` on a switch to a task with kernel stack `sp`.
pub fn set_kernel_stack(sp: u64) -> (v: u64)
    ensures
        v == sp,
{
    context::set_kernel_stack(sp)
}

/// The value for `TTBR0_EL1` when switching to the table rooted at `root`.
pub fn switch_address_space(root: u64) -> (ttbr0: u64)
    ensures
        ttbr0 == root,
{
    paging::switch_address_space(root)
}

/// Early bring-up: the `VBAR_EL1` value for the vector table, then the
/// console's pin set-up (Raspberry Pi 3 only).
pub fn early_init(vector_table: u64, on_rpi3: bool, fsel1: u32) -> (r: (u64, Vec<PinStep>))
    ensures
        r.0 == vector_table,
        r.1@ == if on_rpi3 { uart_pin_steps(fsel1) } else { Seq::empty() },
{
    let vbar = exceptions::init(vector_table);
    let steps = console::init(on_rpi3, fsel1);
    (vbar, steps)
}

/// The GIC programming that routes the timer and UART interrupts; the
/// caller then unmasks IRQs (`daifclr #2`).
pub fn interrupts_init() -> (w: Vec<GicWrite>)
    ensures
        w@ == seq![word(0x0800_0000, 1), word(0x0801_0004, 0xFF), word(0x0801_0000, 1)] + enable_writes(30)
            + enable_writes(33),
{
    gic::init()
}

pub fn kernel_page_table_phys(l1: u64) -> (r: u64)
    ensures
        r == l1,
{
    paging::kernel_page_table_phys(l1)
}

} // verus!

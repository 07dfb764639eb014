//! Board support for the riscv64 QEMU `virt` machine: OpenSBI owns the
//! UART, the PLIC routes its interrupt.
use vstd::prelude::*;
use crate::mmio::MmioWrite;
use crate::arch::riscv64::plic;

pub mod sbi;

verus! {

/// Marker for this board.
pub struct Board;

/// Board bring-up: nothing to configure, the firmware owns the UART.
pub fn init() {
    crate::arch::riscv64::console::init();
}

/// Route the PLIC-managed UART interrupt, given the enable word read back
/// from the controller.
pub fn interrupts_init(enabled: u32) -> (w: Vec<MmioWrite>)
    ensures
        w@ == seq![
            crate::mmio::mw(plic::spec_priority_reg(10), 1),
            crate::mmio::mw(plic::spec_enable_reg(1, 10), enabled | 0x400),
            crate::mmio::mw(plic::spec_threshold_reg(1), 0),
        ],
{
    plic::init(enabled)
}

} // verus!

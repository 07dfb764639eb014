//! PLIC (Platform-Level Interrupt Controller) of the QEMU virt machine:
//! register addresses and the writes that route the UART interrupt.
use vstd::prelude::*;
use crate::mmio::{MmioWrite, mw};

verus! {

pub const PLIC_BASE: u64 = 0x0C00_0000;
/// UART0 is PLIC source 10.
pub const UART_IRQ: u32 = 10;
/// The UART's bit in its enable word (source 10 of the first 32).
pub const UART_ENABLE_BIT: u32 = 0x400;
/// S-mode context of hart 0.
pub const CONTEXT: u64 = 1;

pub open spec fn spec_priority_reg(source: u32) -> u64 {
    (0x0C00_0000 + source * 4) as u64
}

pub open spec fn spec_enable_reg(context: u64, source: u32) -> u64 {
    (0x0C00_0000 + 0x2000 + context * 0x80 + (source / 32) * 4) as u64
}

pub open spec fn spec_threshold_reg(context: u64) -> u64 {
    (0x0C00_0000 + 0x20_0000 + context * 0x1000) as u64
}

pub open spec fn spec_claim_reg(context: u64) -> u64 {
    (0x0C00_0000 + 0x20_0004 + context * 0x1000) as u64
}

pub fn priority_reg(source: u32) -> (a: u64)
    ensures
        a == spec_priority_reg(source),
{
    PLIC_BASE + source as u64 * 4
}

pub fn enable_reg(context: u64, source: u32) -> (a: u64)
    requires
        context < 0x1_0000,
    ensures
        a == spec_enable_reg(context, source),
{
    PLIC_BASE + 0x2000 + context * 0x80 + (source as u64 / 32) * 4
}

pub fn threshold_reg(context: u64) -> (a: u64)
    requires
        context < 0x1_0000,
    ensures
        a == spec_threshold_reg(context),
{
    PLIC_BASE + 0x20_0000 + context * 0x1000
}

pub fn claim_reg(context: u64) -> (a: u64)
    requires
        context < 0x1_0000,
    ensures
        a == spec_claim_reg(context),
{
    PLIC_BASE + 0x20_0004 + context * 0x1000
}

/// Route the UART: priority 1, its enable bit set on top of the enable
/// word `enabled` read back from the controller, threshold 0.
pub fn init(enabled: u32) -> (w: Vec<MmioWrite>)
    ensures
        w@ == seq![
            mw(spec_priority_reg(10), 1),
            mw(spec_enable_reg(1, 10), enabled | 0x400),
            mw(spec_threshold_reg(1), 0),
        ],
{
    let mut w: Vec<MmioWrite> = Vec::new();
    w.push(MmioWrite { addr: priority_reg(UART_IRQ), value: 1 });
    w.push(MmioWrite { addr: enable_reg(CONTEXT, UART_IRQ), value: enabled | UART_ENABLE_BIT });
    w.push(MmioWrite { addr: threshold_reg(CONTEXT), value: 0 });
    w
}

/// For a claimed `source`: whether it is the UART (whose handler runs),
/// and the write completing the claim.
pub fn handle(source: u32) -> (r: (bool, MmioWrite))
    ensures
        r.0 == (source == 10),
        r.1 == mw(spec_claim_reg(1), source),
{
    (source == UART_IRQ, MmioWrite { addr: claim_reg(CONTEXT), value: source })
}

} // verus!

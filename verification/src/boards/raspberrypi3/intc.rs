//! Interrupt routing of the Raspberry Pi 3, which has no GIC: the ARM-local
//! block routes the generic timer and flags pending peripheral interrupts;
//! the legacy BCM2835 controller owns the peripheral ones (UART0 = 57).
use vstd::prelude::*;
use crate::mmio::{MmioWrite, mw};

verus! {

pub const LOCAL_BASE: u64 = 0x4000_0000;
pub const CORE0_TIMER_IRQCNTL: u64 = 0x4000_0040;
pub const CORE0_IRQ_SOURCE: u64 = 0x4000_0060;
/// Non-secure physical timer line of core 0.
pub const CORE0_SRC_CNTPNSIRQ: u32 = 0x2;
/// The legacy controller has a pending interrupt.
pub const CORE0_SRC_GPU: u32 = 0x100;
pub const IRQ_PENDING_2: u64 = 0x3F00_B208;
pub const ENABLE_IRQS_2: u64 = 0x3F00_B214;
pub const UART_IRQ: u32 = 57;
/// Id standing for the generic timer's comparator.
pub const TIMER_IRQ: u32 = 1;
/// UART0's bit in the IRQs 32-63 registers.
pub const UART_BIT: u32 = 0x200_0000;

/// Route the timer to core 0 (on top of the control word `ctl` read back)
/// and enable UART0 at the legacy controller.
pub fn init(ctl: u32) -> (w: Vec<MmioWrite>)
    ensures
        w@ == seq![mw(CORE0_TIMER_IRQCNTL, ctl | 0x2), mw(ENABLE_IRQS_2, UART_BIT)],
{
    let mut w: Vec<MmioWrite> = Vec::new();
    w.push(MmioWrite { addr: CORE0_TIMER_IRQCNTL, value: ctl | CORE0_SRC_CNTPNSIRQ });
    w.push(MmioWrite { addr: ENABLE_IRQS_2, value: UART_BIT });
    w
}

pub fn enable(id: u32, ctl: u32) -> (w: Option<MmioWrite>)
    ensures
        w == if id == TIMER_IRQ {
            Some(mw(CORE0_TIMER_IRQCNTL, ctl | 0x2))
        } else if id == UART_IRQ {
            Some(mw(ENABLE_IRQS_2, UART_BIT))
        } else {
            None
        },
{
    if id == TIMER_IRQ {
        Some(MmioWrite { addr: CORE0_TIMER_IRQCNTL, value: ctl | CORE0_SRC_CNTPNSIRQ })
    } else if id == UART_IRQ {
        Some(MmioWrite { addr: ENABLE_IRQS_2, value: UART_BIT })
    } else {
        None
    }
}

/// Only the timer can be masked; the legacy controller is left as `init`
/// set it.
pub fn disable(id: u32, ctl: u32) -> (w: Option<MmioWrite>)
    ensures
        w == if id == TIMER_IRQ { Some(mw(CORE0_TIMER_IRQCNTL, ctl & !0x2u32)) } else { None },
{
    if id == TIMER_IRQ {
        Some(MmioWrite { addr: CORE0_TIMER_IRQCNTL, value: ctl & !CORE0_SRC_CNTPNSIRQ })
    } else {
        None
    }
}

/// Neither block latches interrupts: there is nothing to acknowledge.
pub fn eoi(id: u32) {
}

/// Whether the legacy controller's pending register needs reading.
pub fn needs_pending(source: u32) -> (r: bool)
    ensures
        r == (source & CORE0_SRC_GPU != 0),
{
    source & CORE0_SRC_GPU != 0
}

/// Which handlers run, given core 0's source register and (when
/// `needs_pending`) the legacy pending register: the timer (tick, re-arm,
/// wake the TTY waiter) and the UART.
pub fn handle(source: u32, pending: u32) -> (r: (bool, bool))
    ensures
        r.0 == (source & CORE0_SRC_CNTPNSIRQ != 0),
        r.1 == (source & CORE0_SRC_GPU != 0 && pending & UART_BIT != 0),
{
    let timer = source & CORE0_SRC_CNTPNSIRQ != 0;
    let uart = source & CORE0_SRC_GPU != 0 && pending & UART_BIT != 0;
    (timer, uart)
}

} // verus!

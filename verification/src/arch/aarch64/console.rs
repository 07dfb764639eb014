//! Minimal PL011 UART console for early output.
use vstd::prelude::*;
use crate::mmio::{MmioWrite, mw};
use crate::boards::raspberrypi3::gpio::{PinStep, init_uart_pins, uart_pin_steps};

verus! {

/// PL011 on QEMU `virt`.
pub const VIRT_UART_BASE: u64 = 0x0900_0000;
/// PL011 on the Raspberry Pi 3 (peripheral base + 0x20_1000).
pub const RPI3_UART_BASE: u64 = 0x3F20_1000;
pub const UARTDR: u64 = 0x00;
pub const UARTFR: u64 = 0x18;
/// Transmit FIFO full.
pub const UARTFR_TXFF: u32 = 0x20;

/// Console bring-up: QEMU's PL011 comes up configured; on the Raspberry Pi 3
/// GPIO 14/15 must first be routed to UART0 (`fsel1` is GPFSEL1 as read).
pub fn init(on_rpi3: bool, fsel1: u32) -> (steps: Vec<PinStep>)
    ensures
        steps@ == if on_rpi3 { uart_pin_steps(fsel1) } else { Seq::empty() },
{
    if on_rpi3 {
        init_uart_pins(fsel1)
    } else {
        Vec::new()
    }
}

/// The FIFO takes another byte when the flag register's TXFF bit is clear.
pub fn tx_ready(fr: u32) -> (r: bool)
    ensures
        r == (fr & UARTFR_TXFF == 0),
{
    fr & UARTFR_TXFF == 0
}

/// The data-register store sending `b` through the UART at `base`.
pub fn print_byte(base: u64, b: u8) -> (w: MmioWrite)
    requires
        base <= 0xFFFF_FFFF,
    ensures
        w == mw(base, b as u32),
{
    MmioWrite { addr: base + UARTDR, value: b as u32 }
}

/// One data-register store per byte, in order.
pub fn print_str(base: u64, s: &[u8]) -> (w: Vec<MmioWrite>)
    requires
        base <= 0xFFFF_FFFF,
    ensures
        w@.len() == s@.len(),
        forall|i: int| 0 <= i < s@.len() ==> #[trigger] w@[i] == mw(base, s@[i] as u32),
{
    let mut w: Vec<MmioWrite> = Vec::new();
    let mut i: usize = 0;
    while i < s.len()
        invariant
            base <= 0xFFFF_FFFF,
            i <= s@.len(),
            w@.len() == i,
            forall|k: int| 0 <= k < i ==> #[trigger] w@[k] == mw(base, s@[k] as u32),
        decreases s@.len() - i,
    {
        w.push(print_byte(base, s[i]));
        i = i + 1;
    }
    w
}

} // verus!

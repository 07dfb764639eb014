//! BCM2837 GPIO and PL011 UART0 bring-up: GPIO14/15 to ALT0 (TXD0/RXD0),
//! their pull resistors off, then 115200 8N1 with FIFOs.
use vstd::prelude::*;
use crate::mmio::{MmioWrite, mw};

verus! {

pub const GPIO_BASE: u64 = 0x3F20_0000;
pub const GPFSEL1: u64 = 0x3F20_0004;
pub const GPPUD: u64 = 0x3F20_0094;
pub const GPPUDCLK0: u64 = 0x3F20_0098;
pub const UART_BASE: u64 = 0x3F20_1000;
pub const UARTIBRD: u64 = 0x3F20_1024;
pub const UARTFBRD: u64 = 0x3F20_1028;
pub const UARTLCRH: u64 = 0x3F20_102C;
pub const UARTCR: u64 = 0x3F20_1030;
pub const UARTIMSC: u64 = 0x3F20_1038;
pub const UARTICR: u64 = 0x3F20_1044;
/// FIFOs on, 8 data bits, no parity, one stop bit.
pub const UARTLCRH_8N1_FIFO: u32 = 0x70;
/// UART, transmitter and receiver enabled.
pub const UARTCR_ENABLE: u32 = 0x301;
/// GPIO14 and GPIO15 in GPPUDCLK0.
pub const PUD_CLK_UART_PINS: u32 = 0xC000;
/// Cycles to wait for the pull-up/down control to settle.
pub const PUD_SETTLE: u32 = 150;

/// `GPFSEL1` with GPIO14 and GPIO15 set to ALT0 (function 0b100), every
/// other pin's function kept.
pub open spec fn spec_alt0_fsel(fsel: u32) -> u32 {
    (fsel & !0x3F000u32) | 0x24000u32
}

pub fn alt0_fsel(fsel: u32) -> (r: u32)
    ensures
        r == spec_alt0_fsel(fsel),
        (r >> 12u32) & 7 == 4,
        (r >> 15u32) & 7 == 4,
        r & !0x3F000u32 == fsel & !0x3F000u32,
{
    let mut f = fsel;
    f = f & !((0b111u32 << 12u32) | (0b111u32 << 15u32));
    f = f | (0b100u32 << 12u32) | (0b100u32 << 15u32);
    assert(f == (fsel & !0x3F000u32) | 0x24000u32 && (f >> 12u32) & 7 == 4 && (f >> 15u32) & 7 == 4 && f
        & !0x3F000u32 == fsel & !0x3F000u32) by (bit_vector)
        requires
            f == ((fsel & !((0b111u32 << 12u32) | (0b111u32 << 15u32))) | (0b100u32 << 12u32) | (0b100u32 << 15u32)),
    ;
    f
}

/// One step of the bring-up: a register store, or a busy wait.
#[derive(Clone, Copy, PartialEq, Eq, Structural, Debug)]
pub enum PinStep {
    Write(MmioWrite),
    Delay(u32),
}

pub open spec fn uart_pin_steps(fsel: u32) -> Seq<PinStep> {
    seq![
        PinStep::Write(mw(UARTCR, 0)),
        PinStep::Write(mw(GPFSEL1, spec_alt0_fsel(fsel))),
        PinStep::Write(mw(GPPUD, 0)),
        PinStep::Delay(150),
        PinStep::Write(mw(GPPUDCLK0, 0xC000)),
        PinStep::Delay(150),
        PinStep::Write(mw(GPPUD, 0)),
        PinStep::Write(mw(GPPUDCLK0, 0)),
        PinStep::Write(mw(UARTICR, 0x7FF)),
        PinStep::Write(mw(UARTIBRD, 26)),
        PinStep::Write(mw(UARTFBRD, 3)),
        PinStep::Write(mw(UARTLCRH, 0x70)),
        PinStep::Write(mw(UARTIMSC, 0)),
        PinStep::Write(mw(UARTCR, 0x301)),
    ]
}

/// The bring-up sequence, given `GPFSEL1` as read from the chip: UART off,
/// pins to ALT0, pulls off, then divisor 26 + 3/64 (115200 baud from the
/// 48 MHz reference), 8N1 with FIFOs, interrupts masked, UART on.
pub fn init_uart_pins(fsel: u32) -> (s: Vec<PinStep>)
    ensures
        s@ == uart_pin_steps(fsel),
{
    let mut s: Vec<PinStep> = Vec::new();
    s.push(PinStep::Write(MmioWrite { addr: UARTCR, value: 0 }));
    s.push(PinStep::Write(MmioWrite { addr: GPFSEL1, value: alt0_fsel(fsel) }));
    s.push(PinStep::Write(MmioWrite { addr: GPPUD, value: 0 }));
    s.push(PinStep::Delay(PUD_SETTLE));
    s.push(PinStep::Write(MmioWrite { addr: GPPUDCLK0, value: PUD_CLK_UART_PINS }));
    s.push(PinStep::Delay(PUD_SETTLE));
    s.push(PinStep::Write(MmioWrite { addr: GPPUD, value: 0 }));
    s.push(PinStep::Write(MmioWrite { addr: GPPUDCLK0, value: 0 }));
    s.push(PinStep::Write(MmioWrite { addr: UARTICR, value: 0x7FF }));
    s.push(PinStep::Write(MmioWrite { addr: UARTIBRD, value: 26 }));
    s.push(PinStep::Write(MmioWrite { addr: UARTFBRD, value: 3 }));
    s.push(PinStep::Write(MmioWrite { addr: UARTLCRH, value: UARTLCRH_8N1_FIFO }));
    s.push(PinStep::Write(MmioWrite { addr: UARTIMSC, value: 0 }));
    s.push(PinStep::Write(MmioWrite { addr: UARTCR, value: UARTCR_ENABLE }));
    assert(s@ =~= uart_pin_steps(fsel));
    s
}

} // verus!

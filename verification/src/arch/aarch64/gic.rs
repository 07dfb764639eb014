//! GICv2 (QEMU `virt`, `gic-version=2`): distributor at 0x0800_0000, CPU
//! interface at 0x0801_0000. Routes the ARM generic timer PPI and the PL011
//! SPI.
use vstd::prelude::*;
use crate::mmio::{MmioWrite, mw};

verus! {

pub const GICD_BASE: u64 = 0x0800_0000;
pub const GICC_BASE: u64 = 0x0801_0000;
pub const GICD_CTLR: u64 = 0x000;
pub const GICD_ISENABLER: u64 = 0x100;
pub const GICD_ICENABLER: u64 = 0x180;
pub const GICD_ITARGETSR: u64 = 0x800;
pub const GICC_CTLR: u64 = 0x000;
pub const GICC_PMR: u64 = 0x004;
pub const GICC_IAR: u64 = 0x00C;
pub const GICC_EOIR: u64 = 0x010;
/// Non-secure physical timer PPI.
pub const TIMER_IRQ: u32 = 30;
/// PL011 UART0 SPI.
pub const UART_IRQ: u32 = 33;
/// INTID the CPU interface reports when nothing is pending.
pub const SPURIOUS: u32 = 1023;

/// A register store of the GIC: a byte (target routing) or a word.
#[derive(Clone, Copy, PartialEq, Eq, Structural, Debug)]
pub enum GicWrite {
    Byte { addr: u64, byte: u8 },
    Word { addr: u64, value: u32 },
}

pub open spec fn word(addr: u64, value: u32) -> GicWrite {
    GicWrite::Word { addr, value }
}

/// Bit of `id` in its enable register.
pub open spec fn id_bit(id: u32) -> u32 {
    1u32 << (id % 32)
}

/// Stores enabling interrupt `id`: SPIs (id ≥ 32) are first routed to CPU0.
pub open spec fn enable_writes(id: u32) -> Seq<GicWrite> {
    let en = word((0x0800_0000 + 0x100 + (id / 32) * 4) as u64, id_bit(id));
    if id >= 32 {
        seq![GicWrite::Byte { addr: (0x0800_0000 + 0x800 + id) as u64, byte: 1 }, en]
    } else {
        seq![en]
    }
}

pub fn enable(id: u32) -> (w: Vec<GicWrite>)
    ensures
        w@ == enable_writes(id),
{
    let mut w: Vec<GicWrite> = Vec::new();
    if id >= 32 {
        w.push(GicWrite::Byte { addr: GICD_BASE + GICD_ITARGETSR + id as u64, byte: 1 });
    }
    w.push(GicWrite::Word { addr: GICD_BASE + GICD_ISENABLER + (id as u64 / 32) * 4, value: 1u32 << (id % 32) });
    w
}

pub fn disable(id: u32) -> (w: MmioWrite)
    ensures
        w == mw((0x0800_0000 + 0x180 + (id / 32) * 4) as u64, id_bit(id)),
{
    MmioWrite { addr: GICD_BASE + GICD_ICENABLER + (id as u64 / 32) * 4, value: 1u32 << (id % 32) }
}

pub fn eoi(id: u32) -> (w: MmioWrite)
    ensures
        w == mw(0x0801_0010, id),
{
    MmioWrite { addr: GICC_BASE + GICC_EOIR, value: id }
}

/// Enable the distributor and the CPU interface (no priority masking), then
/// the timer and UART interrupts.
pub fn init() -> (w: Vec<GicWrite>)
    ensures
        w@ == seq![word(0x0800_0000, 1), word(0x0801_0004, 0xFF), word(0x0801_0000, 1)] + enable_writes(30)
            + enable_writes(33),
{
    let mut w: Vec<GicWrite> = Vec::new();
    w.push(GicWrite::Word { addr: GICD_BASE + GICD_CTLR, value: 1 });
    w.push(GicWrite::Word { addr: GICC_BASE + GICC_PMR, value: 0xFF });
    w.push(GicWrite::Word { addr: GICC_BASE + GICC_CTLR, value: 1 });
    let ghost w0 = w@;
    let mut t = enable(TIMER_IRQ);
    w.append(&mut t);
    let mut u = enable(UART_IRQ);
    w.append(&mut u);
    assert(w@ =~= seq![word(0x0800_0000, 1), word(0x0801_0004, 0xFF), word(0x0801_0000, 1)] + enable_writes(30)
        + enable_writes(33));
    w
}

/// Who raised an acknowledged interrupt.
#[derive(Clone, Copy, PartialEq, Eq, Structural, Debug)]
pub enum IrqSource {
    /// Tick the scheduler and re-arm the timer.
    Timer,
    /// Run the UART handler.
    Uart,
    /// Nothing to run.
    Other,
}

/// For the value read from `GICC_IAR`: the source, and the end-of-interrupt
/// store unless the interrupt was spurious.
pub fn handle(iar: u32) -> (r: (IrqSource, Option<MmioWrite>))
    ensures
        r.0 == if iar & 0x3FF == 30 {
            IrqSource::Timer
        } else if iar & 0x3FF == 33 {
            IrqSource::Uart
        } else {
            IrqSource::Other
        },
        r.1 == if iar & 0x3FF == 1023 { None } else { Some(mw(0x0801_0010, iar & 0x3FF)) },
{
    let id = iar & 0x3FF;
    let src = if id == TIMER_IRQ {
        IrqSource::Timer
    } else if id == UART_IRQ {
        IrqSource::Uart
    } else {
        IrqSource::Other
    };
    let e = if id != SPURIOUS { Some(eoi(id)) } else { None };
    (src, e)
}

} // verus!

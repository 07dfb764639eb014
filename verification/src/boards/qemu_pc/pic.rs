//! 8259A PIC pair, remapped to vectors 0x20-0x2F so IRQs don't collide with
//! CPU exceptions. Every routine here decides which port writes to make; the
//! caller performs them in order.
use vstd::prelude::*;
use crate::arch::x86_64::port::{PortWrite, pw};

verus! {

pub const PIC1_CMD: u16 = 0x20;
pub const PIC1_DATA: u16 = 0x21;
pub const PIC2_CMD: u16 = 0xA0;
pub const PIC2_DATA: u16 = 0xA1;

pub const ICW1_ICW4: u8 = 0x01;
pub const ICW1_INIT: u8 = 0x10;
pub const ICW4_8086: u8 = 0x01;
pub const PIC_EOI: u8 = 0x20;

/// IRQ 0-7 → vectors 0x20-0x27.
pub const PIC1_OFFSET: u8 = 0x20;
/// IRQ 8-15 → vectors 0x28-0x2F.
pub const PIC2_OFFSET: u8 = 0x28;

/// The remap sequence, given the interrupt masks read back from both data
/// ports before it starts: ICW1-ICW4 to both chips, then every line masked
/// except the cascade (IRQ2) on the master.
pub open spec fn init_sequence(mask1: u8, mask2: u8) -> Seq<PortWrite> {
    seq![
        pw(PIC1_CMD, ICW1_INIT | ICW1_ICW4),
        pw(PIC2_CMD, ICW1_INIT | ICW1_ICW4),
        pw(PIC1_DATA, PIC1_OFFSET),
        pw(PIC2_DATA, PIC2_OFFSET),
        pw(PIC1_DATA, 0x04),
        pw(PIC2_DATA, 0x02),
        pw(PIC1_DATA, ICW4_8086),
        pw(PIC2_DATA, ICW4_8086),
        pw(PIC1_DATA, mask1 | 0xFB),
        pw(PIC2_DATA, mask2 | 0xFF),
    ]
}

pub fn init(mask1: u8, mask2: u8) -> (writes: Vec<PortWrite>)
    ensures
        writes@ == init_sequence(mask1, mask2),
{
    let mut w: Vec<PortWrite> = Vec::new();
    w.push(PortWrite { port: PIC1_CMD, value: ICW1_INIT | ICW1_ICW4 });
    w.push(PortWrite { port: PIC2_CMD, value: ICW1_INIT | ICW1_ICW4 });
    w.push(PortWrite { port: PIC1_DATA, value: PIC1_OFFSET });
    w.push(PortWrite { port: PIC2_DATA, value: PIC2_OFFSET });
    w.push(PortWrite { port: PIC1_DATA, value: 0x04 });
    w.push(PortWrite { port: PIC2_DATA, value: 0x02 });
    w.push(PortWrite { port: PIC1_DATA, value: ICW4_8086 });
    w.push(PortWrite { port: PIC2_DATA, value: ICW4_8086 });
    w.push(PortWrite { port: PIC1_DATA, value: mask1 | 0xFB });
    w.push(PortWrite { port: PIC2_DATA, value: mask2 | 0xFF });
    assert(w@ =~= init_sequence(mask1, mask2));
    w
}

/// End-of-interrupt for `irq`: the slave first when the IRQ came through it,
/// then always the master.
pub fn eoi(irq: u8) -> (writes: Vec<PortWrite>)
    ensures
        writes@ == if irq >= 8 {
            seq![pw(PIC2_CMD, PIC_EOI), pw(PIC1_CMD, PIC_EOI)]
        } else {
            seq![pw(PIC1_CMD, PIC_EOI)]
        },
{
    let mut w: Vec<PortWrite> = Vec::new();
    if irq >= 8 {
        w.push(PortWrite { port: PIC2_CMD, value: PIC_EOI });
    }
    w.push(PortWrite { port: PIC1_CMD, value: PIC_EOI });
    proof {
        if irq >= 8 {
            assert(w@ =~= seq![pw(PIC2_CMD, PIC_EOI), pw(PIC1_CMD, PIC_EOI)]);
        } else {
            assert(w@ =~= seq![pw(PIC1_CMD, PIC_EOI)]);
        }
    }
    w
}

/// The data port that holds `irq`'s mask bit, and the bit's position there.
pub open spec fn mask_location(irq: u8) -> (u16, u8) {
    if irq < 8 {
        (PIC1_DATA, irq)
    } else {
        (PIC2_DATA, (irq - 8) as u8)
    }
}

pub fn line_location(irq: u8) -> (r: (u16, u8))
    requires
        irq < 16,
    ensures
        r == mask_location(irq),
        r.1 < 8,
{
    if irq < 8 {
        (PIC1_DATA, irq)
    } else {
        (PIC2_DATA, irq - 8)
    }
}

/// Let `irq` through: given the mask currently in its data port, the write
/// that clears its bit and leaves every other line as it was.
pub fn unmask(irq: u8, current: u8) -> (w: PortWrite)
    requires
        irq < 16,
    ensures
        w.port == mask_location(irq).0,
        w.value == current & !((1u8 << mask_location(irq).1) as u8),
{
    let (port, bit) = line_location(irq);
    PortWrite { port, value: current & !(1u8 << bit) }
}

/// Block `irq`: the write that sets its bit, every other line unchanged.
pub fn mask(irq: u8, current: u8) -> (w: PortWrite)
    requires
        irq < 16,
    ensures
        w.port == mask_location(irq).0,
        w.value == current | ((1u8 << mask_location(irq).1) as u8),
{
    let (port, bit) = line_location(irq);
    PortWrite { port, value: current | (1u8 << bit) }
}

/// Unmasking a line clears exactly its bit: that line is let through and
/// every other line of the same chip keeps its state.
pub proof fn unmask_clears_only_its_bit(irq: u8, current: u8, other: u8)
    requires
        irq < 16,
        other < 8,
    ensures
        ({
            let (port, bit) = mask_location(irq);
            let v = current & !((1u8 << bit) as u8);
            &&& v & ((1u8 << bit) as u8) == 0
            &&& other != bit ==> (v & ((1u8 << other) as u8)) == (current & ((1u8 << other) as u8))
        }),
{
    let bit = mask_location(irq).1;
    assert(bit < 8);
    assert((forall|c: u8, b: u8| b < 8 ==> #[trigger] (c & !((1u8 << b) as u8)) & ((1u8 << b) as u8) == 0) && (
    forall|c: u8, b: u8, o: u8|
        b < 8 && o < 8 && o != b ==> #[trigger] ((c & !((1u8 << b) as u8)) & ((1u8 << o) as u8)) == (c & ((1u8
            << o) as u8)))) by (bit_vector);
}

/// Masking then unmasking a line restores its bit to clear while leaving
/// the rest of the mask as masking found it.
pub proof fn mask_then_unmask(irq: u8, current: u8)
    requires
        irq < 16,
    ensures
        ({
            let bit = mask_location(irq).1;
            let masked = current | ((1u8 << bit) as u8);
            masked & !((1u8 << bit) as u8) == current & !((1u8 << bit) as u8)
        }),
{
    let bit = mask_location(irq).1;
    assert(bit < 8);
    assert(forall|c: u8, b: u8| b < 8 ==> #[trigger] ((c | ((1u8 << b) as u8)) & !((1u8 << b) as u8)) == c & !((1u8 << b) as u8))
        by (bit_vector);
}

} // verus!

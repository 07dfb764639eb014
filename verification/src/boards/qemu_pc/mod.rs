//! Board support for the x86_64 PC (QEMU q35): 8259 PIC, VGA text console
//! mirrored to COM1.
use vstd::prelude::*;
use crate::arch::x86_64::port::PortWrite;

pub mod console;
pub mod pic;

verus! {

/// Marker for this board.
pub struct Board;

/// Board bring-up, given the PIC masks read back before remapping: the PIC
/// remap sequence, then the COM1 set-up, and a cleared console.
pub fn init(mask1: u8, mask2: u8) -> (r: (Vec<PortWrite>, console::Console))
    ensures
        r.0@ == pic::init_sequence(mask1, mask2) + console::serial_init_sequence(),
        r.1.wf(),
        r.1.col == 0 && r.1.row == 0 && r.1.view_offset == 0,
        r.1.esc == console::EscState::Normal,
{
    let mut w = pic::init(mask1, mask2);
    let (mut serial, con) = console::init();
    w.append(&mut serial);
    (w, con)
}

/// Unmask the timer (IRQ 0) and keyboard (IRQ 1) lines, starting from the
/// master's mask `imr`; the second write starts from what the first wrote,
/// the mask register reading back what was written to it.
pub fn unmask_default_irqs(imr: u8) -> (w: Vec<PortWrite>)
    ensures
        w@.len() == 2,
        w@[0].port == 0x21 && w@[0].value == imr & !1u8,
        w@[1].port == 0x21 && w@[1].value == (imr & !1u8) & !2u8,
{
    let a = pic::unmask(0, imr);
    let b = pic::unmask(1, a.value);
    assert(pic::mask_location(0) == (0x21u16, 0u8) && pic::mask_location(1) == (0x21u16, 1u8));
    assert((1u8 << 0u8) as u8 == 1 && (1u8 << 1u8) as u8 == 2) by (bit_vector);
    let mut w: Vec<PortWrite> = Vec::new();
    w.push(a);
    w.push(b);
    w
}

} // verus!

//! Board support for VirtualBox: the same IBM-PC-compatible hardware as the
//! QEMU PC board (8259 PIC, VGA console mirrored to COM1), whose console and
//! PIC code it shares; the Multiboot memory map parser lives here.
use vstd::prelude::*;
use crate::arch::x86_64::port::PortWrite;
use crate::boards::qemu_pc::{self, console, pic};

pub mod multiboot;

verus! {

/// Marker for this board.
pub struct Board;

/// Board bring-up, given the PIC masks read back before remapping: the PIC
/// remap sequence, then the COM1 set-up, and a cleared console.
pub fn init(mask1: u8, mask2: u8) -> (r: (Vec<PortWrite>, console::Console))
    ensures
        r.0@ == pic::init_sequence(mask1, mask2) + console::serial_init_sequence(),
        r.1.wf(),
        r.1.col == 0 && r.1.row == 0 && r.1.view_offset == 0,
        r.1.esc == console::EscState::Normal,
{
    qemu_pc::init(mask1, mask2)
}

/// Unmask the timer (IRQ 0) and keyboard (IRQ 1) lines, starting from the
/// master's mask `imr`.
pub fn unmask_default_irqs(imr: u8) -> (w: Vec<PortWrite>)
    ensures
        w@.len() == 2,
        w@[0].port == 0x21 && w@[0].value == imr & !1u8,
        w@[1].port == 0x21 && w@[1].value == (imr & !1u8) & !2u8,
{
    qemu_pc::unmask_default_irqs(imr)
}

} // verus!

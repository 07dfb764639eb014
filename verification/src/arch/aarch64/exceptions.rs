//! aarch64 EL1 exceptions: the saved frame, and the report printed for an
//! exception nothing handles.
use vstd::prelude::*;
use vstd::string::StringSliceAdditionalSpecFns;
use crate::text::{hex16, hex_seq, push_all};

verus! {

/// Registers saved by the vector stubs: x0-x30, ELR_EL1, SPSR_EL1 and a
/// pad word keeping the frame a multiple of 16 bytes.
pub struct TrapFrame {
    pub x: [u64; 31],
    pub elr_el1: u64,
    pub spsr_el1: u64,
    pub pad: u64,
}

impl TrapFrame {
    pub fn new(x: [u64; 31], elr_el1: u64, spsr_el1: u64) -> (f: TrapFrame)
        ensures
            f.x == x && f.elr_el1 == elr_el1 && f.spsr_el1 == spsr_el1,
    {
        TrapFrame { x, elr_el1, spsr_el1, pad: 0 }
    }
}

/// Report of a fatal exception: ESR, FAR and ELR in hex.
pub fn fatal_message(esr: u64, far: u64, frame: &TrapFrame) -> (m: Vec<u8>)
    ensures
        m@ == "[TRAP] unhandled aarch64 exception esr=0x".spec_bytes() + hex_seq(esr) + " far=0x".spec_bytes()
            + hex_seq(far) + " elr=0x".spec_bytes() + hex_seq(frame.elr_el1) + "\n".spec_bytes(),
{
    let mut m: Vec<u8> = Vec::new();
    push_all(&mut m, "[TRAP] unhandled aarch64 exception esr=0x".as_bytes());
    let h = hex16(esr);
    push_all(&mut m, h.as_slice());
    push_all(&mut m, " far=0x".as_bytes());
    let h = hex16(far);
    push_all(&mut m, h.as_slice());
    push_all(&mut m, " elr=0x".as_bytes());
    let h = hex16(frame.elr_el1);
    push_all(&mut m, h.as_slice());
    push_all(&mut m, "\n".as_bytes());
    m
}

/// The value for `VBAR_EL1`: the vector table's address (2 KiB aligned by
/// the linker).
pub fn init(vector_table: u64) -> (vbar: u64)
    ensures
        vbar == vector_table,
{
    vector_table
}

} // verus!

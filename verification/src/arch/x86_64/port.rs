//! x86 I/O-port writes, as values: the routines of the PC platform decide
//! which bytes go to which ports, and the caller issues the `out`s in order.
use vstd::prelude::*;

verus! {

/// One `outb`: `value` written to I/O port `port`.
#[derive(Clone, Copy, PartialEq, Eq, Structural, Debug)]
pub struct PortWrite {
    pub port: u16,
    pub value: u8,
}

pub open spec fn pw(port: u16, value: u8) -> PortWrite {
    PortWrite { port, value }
}

} // verus!

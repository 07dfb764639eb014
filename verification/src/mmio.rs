//! Memory-mapped register writes, as values: device routines decide which
//! 32-bit value goes to which physical register address, and the caller
//! performs the volatile stores in order.
use vstd::prelude::*;

verus! {

/// One volatile 32-bit store of `value` to the register at `addr`.
#[derive(Clone, Copy, PartialEq, Eq, Structural, Debug)]
pub struct MmioWrite {
    pub addr: u64,
    pub value: u32,
}

pub open spec fn mw(addr: u64, value: u32) -> MmioWrite {
    MmioWrite { addr, value }
}

} // verus!

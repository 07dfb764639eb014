//! Architecture-neutral page protection flags.
use vstd::prelude::*;

verus! {

pub const PROT_READ: u32 = 0x1;
pub const PROT_WRITE: u32 = 0x2;
pub const PROT_EXEC: u32 = 0x4;
pub const PROT_USER: u32 = 0x8;

} // verus!

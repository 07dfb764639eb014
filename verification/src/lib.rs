use vstd::prelude::*;

pub mod arch;
pub mod boards;
pub mod bytes;
pub mod memory;
pub mod mmio;
pub mod text;

verus! {

} // verus!

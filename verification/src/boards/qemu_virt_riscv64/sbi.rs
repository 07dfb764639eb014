//! SBI (Supervisor Binary Interface) calls to OpenSBI: which extension,
//! function and arguments each request uses. The caller issues the `ecall`
//! (a7 = extension, a6 = function, a0-a2 = arguments).
use vstd::prelude::*;

verus! {

/// Legacy console putchar.
pub const EXT_CONSOLE: u64 = 0x01;
pub const EXT_BASE: u64 = 0x10;
pub const EXT_TIME: u64 = 0x54494D45;
pub const EXT_IPI: u64 = 0x735049;
pub const EXT_HSM: u64 = 0x48534D;

/// What an `ecall` returns in a0 / a1.
#[derive(Clone, Copy, PartialEq, Eq, Structural, Debug)]
pub struct SbiRet {
    pub error: i64,
    pub value: u64,
}

/// The registers of one `ecall`.
#[derive(Clone, Copy, PartialEq, Eq, Structural, Debug)]
pub struct SbiCall {
    pub ext: u64,
    pub fid: u64,
    pub a0: u64,
    pub a1: u64,
    pub a2: u64,
}

pub fn ecall(ext: u64, fid: u64, a0: u64, a1: u64, a2: u64) -> (c: SbiCall)
    ensures
        c == (SbiCall { ext, fid, a0, a1, a2 }),
{
    SbiCall { ext, fid, a0, a1, a2 }
}

/// Print one byte on the firmware console.
pub fn putchar(c: u8) -> (call: SbiCall)
    ensures
        call == (SbiCall { ext: EXT_CONSOLE, fid: 0, a0: c as u64, a1: 0, a2: 0 }),
{
    ecall(EXT_CONSOLE, 0, c as u64, 0, 0)
}

/// Program the next timer event at `stime_val`.
pub fn set_timer(stime_val: u64) -> (call: SbiCall)
    ensures
        call == (SbiCall { ext: EXT_TIME, fid: 0, a0: stime_val, a1: 0, a2: 0 }),
{
    ecall(EXT_TIME, 0, stime_val, 0, 0)
}

/// Start hart `hart_id` at `start_addr` with `opaque` in a1.
pub fn hart_start(hart_id: u64, start_addr: u64, opaque: u64) -> (call: SbiCall)
    ensures
        call == (SbiCall { ext: EXT_HSM, fid: 0, a0: hart_id, a1: start_addr, a2: opaque }),
{
    ecall(EXT_HSM, 0, hart_id, start_addr, opaque)
}

/// What `hart_start` reports: the call's error code.
pub fn hart_start_result(r: SbiRet) -> (e: i64)
    ensures
        e == r.error,
{
    r.error
}

} // verus!

//! Early console of the riscv64 board: every byte goes out through the SBI
//! legacy putchar call.
use vstd::prelude::*;
use crate::boards::qemu_virt_riscv64::sbi::{SbiCall, EXT_CONSOLE, putchar};

verus! {

/// Nothing to set up: the firmware owns the UART.
pub fn init() {
}

pub fn print_byte(b: u8) -> (c: SbiCall)
    ensures
        c == (SbiCall { ext: EXT_CONSOLE, fid: 0, a0: b as u64, a1: 0, a2: 0 }),
{
    putchar(b)
}

/// One putchar call per byte, in order.
pub fn print_str(s: &[u8]) -> (calls: Vec<SbiCall>)
    ensures
        calls@.len() == s@.len(),
        forall|i: int| 0 <= i < s@.len() ==> #[trigger] calls@[i] == (SbiCall {
            ext: EXT_CONSOLE,
            fid: 0,
            a0: s@[i] as u64,
            a1: 0,
            a2: 0,
        }),
{
    let mut calls: Vec<SbiCall> = Vec::new();
    let mut i: usize = 0;
    while i < s.len()
        invariant
            i <= s@.len(),
            calls@.len() == i,
            forall|k: int| 0 <= k < i ==> #[trigger] calls@[k] == (SbiCall {
                ext: EXT_CONSOLE,
                fid: 0,
                a0: s@[k] as u64,
                a1: 0,
                a2: 0,
            }),
        decreases s@.len() - i,
    {
        calls.push(putchar(s[i]));
        i = i + 1;
    }
    calls
}

} // verus!

//! Initial kernel-stack frames for new tasks: where the frame starts and
//! which 64-bit words it holds, from the lowest address up. The caller
//! stores the words; `context_switch` later pops them.
use vstd::prelude::*;

verus! {

/// A frame to store: `words[i]` goes to address `sp + 8 * i`.
pub struct InitialStack {
    pub sp: u64,
    pub words: Vec<u64>,
}

/// Top of a stack buffer at `base` of `len` bytes, aligned down to 16.
pub open spec fn spec_stack_top(base: u64, len: u64) -> u64 {
    ((base + len) as u64) & !0xFu64
}

pub fn stack_top(base: u64, len: u64) -> (t: u64)
    requires
        base + len <= u64::MAX,
    ensures
        t == spec_stack_top(base, len),
        t <= base + len,
        t + 16 > base + len,
        t % 16 == 0,
{
    let e = base + len;
    let t = e & !0xFu64;
    assert(t <= e && t + 16 > e && t % 16 == 0) by (bit_vector)
        requires
            t == e & !0xFu64,
    ;
    t
}

/// A frame of `n` words below the aligned top of the buffer; it must fit
/// between the buffer's start and that top.
pub fn frame(base: u64, len: u64, words: Vec<u64>) -> (s: InitialStack)
    requires
        base + len <= u64::MAX,
        base + 8 * words@.len() <= spec_stack_top(base, len),
    ensures
        s.sp == spec_stack_top(base, len) - 8 * words@.len(),
        s.sp >= base,
        s.sp % 8 == 0,
        s.words@ == words@,
{
    let top = stack_top(base, len);
    let n = words.len() as u64;
    let sp = top - 8 * n;
    InitialStack { sp, words }
}

} // verus!

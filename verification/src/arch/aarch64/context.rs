//! aarch64 task stacks. `context_switch` restores x30 (LR), x29 and
//! x19-x28 (12 words, LR lowest); a new task's frame is laid out the same way.
use vstd::prelude::*;
use crate::arch::stack::{InitialStack, frame, spec_stack_top};

verus! {

/// Frame resuming at `entry` with x29 and x19-x28 zero.
pub fn task_init_stack(base: u64, len: u64, entry: u64) -> (s: InitialStack)
    requires
        base + len <= u64::MAX,
        base + 96 <= spec_stack_top(base, len),
    ensures
        s.sp == spec_stack_top(base, len) - 96,
        s.words@ == seq![entry, 0u64, 0u64, 0u64, 0u64, 0u64, 0u64, 0u64, 0u64, 0u64, 0u64, 0u64],
{
    let mut w: Vec<u64> = Vec::new();
    w.push(entry);
    let mut i: usize = 1;
    while i < 12
        invariant
            1 <= i <= 12,
            w@.len() == i,
            w@[0] == entry,
            forall|k: int| 1 <= k < i ==> #[trigger] w@[k] == 0,
        decreases 12 - i,
    {
        w.push(0);
        i = i + 1;
    }
    assert(w@ =~= seq![entry, 0u64, 0u64, 0u64, 0u64, 0u64, 0u64, 0u64, 0u64, 0u64, 0u64, 0u64]);
    frame(base, len, w)
}

/// The value for `TPIDR_EL1`: the kernel stack of the running task.
pub fn set_kernel_stack(sp: u64) -> (tpidr: u64)
    ensures
        tpidr == sp,
{
    sp
}

} // verus!

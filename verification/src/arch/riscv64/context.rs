//! riscv64 task stacks. `context_switch` saves and restores `ra`, `s0`-`s11`
//! (13 words, `ra` lowest); a new task's frame is laid out the same way.
use vstd::prelude::*;
use crate::arch::stack::{InitialStack, frame, spec_stack_top};

verus! {

/// `sstatus` a new user task enters with: SPIE and SUM set, SPP clear.
pub const USER_SSTATUS: u64 = 0x4_0020;

/// Frame resuming at `entry` with `s0`-`s11` zero.
pub fn task_init_stack(base: u64, len: u64, entry: u64) -> (s: InitialStack)
    requires
        base + len <= u64::MAX,
        base + 104 <= spec_stack_top(base, len),
    ensures
        s.sp == spec_stack_top(base, len) - 104,
        s.words@ == seq![entry, 0u64, 0u64, 0u64, 0u64, 0u64, 0u64, 0u64, 0u64, 0u64, 0u64, 0u64, 0u64],
{
    let mut w: Vec<u64> = Vec::new();
    w.push(entry);
    let mut i: usize = 1;
    while i <= 12
        invariant
            1 <= i <= 13,
            w@.len() == i,
            w@[0] == entry,
            forall|k: int| 1 <= k < i ==> #[trigger] w@[k] == 0,
        decreases 13 - i,
    {
        w.push(0);
        i = i + 1;
    }
    assert(w@ =~= seq![entry, 0u64, 0u64, 0u64, 0u64, 0u64, 0u64, 0u64, 0u64, 0u64, 0u64, 0u64, 0u64]);
    frame(base, len, w)
}

/// Frame entering U-mode through `trampoline`, which takes the user stack
/// from `s0`, the entry point from `s1` and `sstatus` from `s2`.
pub fn task_init_userspace_stack(base: u64, len: u64, trampoline: u64, user_rip: u64, user_rsp: u64) -> (s:
    InitialStack)
    requires
        base + len <= u64::MAX,
        base + 104 <= spec_stack_top(base, len),
    ensures
        s.sp == spec_stack_top(base, len) - 104,
        s.words@ == seq![
            trampoline,
            user_rsp,
            user_rip,
            USER_SSTATUS,
            0u64,
            0u64,
            0u64,
            0u64,
            0u64,
            0u64,
            0u64,
            0u64,
            0u64,
        ],
{
    let mut w: Vec<u64> = Vec::new();
    w.push(trampoline);
    w.push(user_rsp);
    w.push(user_rip);
    w.push(USER_SSTATUS);
    let mut i: usize = 4;
    while i <= 12
        invariant
            4 <= i <= 13,
            w@.len() == i,
            w@[0] == trampoline && w@[1] == user_rsp && w@[2] == user_rip && w@[3] == USER_SSTATUS,
            forall|k: int| 4 <= k < i ==> #[trigger] w@[k] == 0,
        decreases 13 - i,
    {
        w.push(0);
        i = i + 1;
    }
    assert(w@ =~= seq![
        trampoline,
        user_rsp,
        user_rip,
        USER_SSTATUS,
        0u64,
        0u64,
        0u64,
        0u64,
        0u64,
        0u64,
        0u64,
        0u64,
        0u64,
    ]);
    frame(base, len, w)
}

/// The value for `sscratch`: the kernel stack a trap from U-mode switches
/// to; 0 for kernel tasks.
pub fn set_kernel_stack(sp: u64) -> (sscratch: u64)
    ensures
        sscratch == sp,
{
    sp
}

/// A forked child's frame: the `context_switch` frame with `ra` =
/// `trampoline`, `s0` = `user_rsp`, `s1` = `user_rip`, `s2` = `sstatus`
/// and `s3`-`s11` zero, followed by the registers `trampoline` loads before
/// `sret`: `a0` = 0 (fork's result in the child), `a1`-`a5` = `args[1..6]`
/// (the syscall argument registers as the parent had them; `args[0]` was
/// `a0`), and `s0`-`s5` = `callee_saved`, loaded once `s0`-`s2` are used.
pub open spec fn fork_frame(trampoline: u64, user_rip: u64, user_rsp: u64, args: [u64; 6], callee_saved: [u64; 6]) -> Seq<u64> {
    seq![
        trampoline,
        user_rsp,
        user_rip,
        USER_SSTATUS,
        0u64,
        0u64,
        0u64,
        0u64,
        0u64,
        0u64,
        0u64,
        0u64,
        0u64,
        0u64,
        args[1],
        args[2],
        args[3],
        args[4],
        args[5],
        callee_saved[0],
        callee_saved[1],
        callee_saved[2],
        callee_saved[3],
        callee_saved[4],
        callee_saved[5],
    ]
}

/// The forked child's frame (`fork_frame`, 25 words) below the aligned top.
pub fn task_init_fork_stack(
    base: u64,
    len: u64,
    trampoline: u64,
    user_rip: u64,
    user_rsp: u64,
    args: [u64; 6],
    callee_saved: [u64; 6],
) -> (s: InitialStack)
    requires
        base + len <= u64::MAX,
        base + 200 <= spec_stack_top(base, len),
    ensures
        s.sp == spec_stack_top(base, len) - 200,
        s.words@ == fork_frame(trampoline, user_rip, user_rsp, args, callee_saved),
{
    let mut w: Vec<u64> = Vec::new();
    w.push(trampoline);
    w.push(user_rsp);
    w.push(user_rip);
    w.push(USER_SSTATUS);
    let mut i: usize = 4;
    while i <= 13
        invariant
            4 <= i <= 14,
            w@.len() == i,
            w@[0] == trampoline && w@[1] == user_rsp && w@[2] == user_rip && w@[3] == USER_SSTATUS,
            forall|k: int| 4 <= k < i ==> #[trigger] w@[k] == 0,
        decreases 14 - i,
    {
        w.push(0);
        i = i + 1;
    }
    w.push(args[1]);
    w.push(args[2]);
    w.push(args[3]);
    w.push(args[4]);
    w.push(args[5]);
    w.push(callee_saved[0]);
    w.push(callee_saved[1]);
    w.push(callee_saved[2]);
    w.push(callee_saved[3]);
    w.push(callee_saved[4]);
    w.push(callee_saved[5]);
    assert(w@ =~= fork_frame(trampoline, user_rip, user_rsp, args, callee_saved));
    frame(base, len, w)
}

} // verus!

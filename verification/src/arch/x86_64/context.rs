//! x86_64 task stacks. `context_switch` pops r15, r14, r13, r12, rbp, rbx
//! (lowest first) and returns; a new task's frame is laid out the same way.
use vstd::prelude::*;
use crate::arch::stack::{InitialStack, frame, spec_stack_top};
use crate::arch::x86_64::gdt::{USER_CODE_SEL, USER_DATA_SEL};

verus! {

/// RFLAGS a new user task starts with: IF and the reserved bit 1.
pub const USER_RFLAGS: u64 = 0x202;

/// Frame resuming at `entry` with the callee-saved registers zero; the
/// padding word leaves RSP ≡ 8 (mod 16) at entry, as after a `call`.
pub fn task_init_stack(base: u64, len: u64, entry: u64) -> (s: InitialStack)
    requires
        base + len <= u64::MAX,
        base + 64 <= spec_stack_top(base, len),
    ensures
        s.sp == spec_stack_top(base, len) - 64,
        s.words@ == seq![0u64, 0u64, 0u64, 0u64, 0u64, 0u64, entry, 0u64],
{
    let mut w: Vec<u64> = Vec::new();
    let mut i: usize = 0;
    while i < 6
        invariant
            i <= 6,
            w@.len() == i,
            forall|k: int| 0 <= k < i ==> #[trigger] w@[k] == 0,
        decreases 6 - i,
    {
        w.push(0);
        i = i + 1;
    }
    w.push(entry);
    w.push(0);
    assert(w@ =~= seq![0u64, 0u64, 0u64, 0u64, 0u64, 0u64, entry, 0u64]);
    frame(base, len, w)
}

/// Frame whose `ret` enters `trampoline`, which `iretq`s to ring 3 at
/// `user_rip` on `user_rsp` with the user selectors.
pub fn task_init_userspace_stack(base: u64, len: u64, trampoline: u64, user_rip: u64, user_rsp: u64) -> (s:
    InitialStack)
    requires
        base + len <= u64::MAX,
        base + 96 <= spec_stack_top(base, len),
    ensures
        s.sp == spec_stack_top(base, len) - 96,
        s.words@ == seq![
            0u64,
            0u64,
            0u64,
            0u64,
            0u64,
            0u64,
            trampoline,
            user_rip,
            USER_CODE_SEL as u64,
            USER_RFLAGS,
            user_rsp,
            USER_DATA_SEL as u64,
        ],
{
    let mut w: Vec<u64> = Vec::new();
    let mut i: usize = 0;
    while i < 6
        invariant
            i <= 6,
            w@.len() == i,
            forall|k: int| 0 <= k < i ==> #[trigger] w@[k] == 0,
        decreases 6 - i,
    {
        w.push(0);
        i = i + 1;
    }
    w.push(trampoline);
    w.push(user_rip);
    w.push(USER_CODE_SEL as u64);
    w.push(USER_RFLAGS);
    w.push(user_rsp);
    w.push(USER_DATA_SEL as u64);
    assert(w@ =~= seq![
        0u64,
        0u64,
        0u64,
        0u64,
        0u64,
        0u64,
        trampoline,
        user_rip,
        USER_CODE_SEL as u64,
        USER_RFLAGS,
        user_rsp,
        USER_DATA_SEL as u64,
    ]);
    frame(base, len, w)
}

/// A forked child's frame: `context_switch` pops the parent's callee-saved
/// registers `callee_saved` = `[rbx, rbp, r12, r13, r14, r15]` and returns
/// into `trampoline`, which pops `rax` (0, fork's result in the child) and
/// the syscall argument registers `rdi, rsi, rdx, r10, r8, r9` (`args`, as
/// the parent had them), then `iretq`s to ring 3 at `user_rip` on
/// `user_rsp`.
pub open spec fn fork_frame(trampoline: u64, user_rip: u64, user_rsp: u64, args: [u64; 6], callee_saved: [u64; 6]) -> Seq<u64> {
    seq![
        callee_saved[5],
        callee_saved[4],
        callee_saved[3],
        callee_saved[2],
        callee_saved[1],
        callee_saved[0],
        trampoline,
        0u64,
        args[0],
        args[1],
        args[2],
        args[3],
        args[4],
        args[5],
        user_rip,
        USER_CODE_SEL as u64,
        USER_RFLAGS,
        user_rsp,
        USER_DATA_SEL as u64,
    ]
}

/// The forked child's frame (`fork_frame`, 19 words) below the aligned top.
pub fn task_init_fork_stack(
    base: u64,
    len: u64,
    trampoline: u64,
    user_rip: u64,
    user_rsp: u64,
    args: [u64; 6],
    callee_saved: [u64; 6],
) -> (s: InitialStack)
    requires
        base + len <= u64::MAX,
        base + 152 <= spec_stack_top(base, len),
    ensures
        s.sp == spec_stack_top(base, len) - 152,
        s.words@ == fork_frame(trampoline, user_rip, user_rsp, args, callee_saved),
{
    let mut w: Vec<u64> = Vec::new();
    w.push(callee_saved[5]);
    w.push(callee_saved[4]);
    w.push(callee_saved[3]);
    w.push(callee_saved[2]);
    w.push(callee_saved[1]);
    w.push(callee_saved[0]);
    w.push(trampoline);
    w.push(0);
    w.push(args[0]);
    w.push(args[1]);
    w.push(args[2]);
    w.push(args[3]);
    w.push(args[4]);
    w.push(args[5]);
    w.push(user_rip);
    w.push(USER_CODE_SEL as u64);
    w.push(USER_RFLAGS);
    w.push(user_rsp);
    w.push(USER_DATA_SEL as u64);
    assert(w@ =~= fork_frame(trampoline, user_rip, user_rsp, args, callee_saved));
    frame(base, len, w)
}

} // verus!

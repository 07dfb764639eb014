//! RISC-V S-mode trap handling: what a trap with a given `scause` asks the
//! kernel to do, how a system call's result goes back into the saved
//! registers, and the diagnostic text for fatal traps. The caller reads the
//! CSRs, performs the scheduler / syscall / console work and returns with
//! `sret`.
use vstd::prelude::*;
use vstd::string::StringSliceAdditionalSpecFns;
use crate::text::{hex16, hex_seq, dec, dec_digits, push_all};

verus! {

/// Registers saved by the trap entry, in save order; `sepc` and `sstatus`
/// last.
#[derive(Clone, Copy, PartialEq, Eq, Structural, Debug)]
pub struct TrapFrame {
    pub ra: u64,
    pub sp: u64,
    pub gp: u64,
    pub tp: u64,
    pub t0: u64,
    pub t1: u64,
    pub t2: u64,
    pub s0: u64,
    pub s1: u64,
    pub a0: u64,
    pub a1: u64,
    pub a2: u64,
    pub a3: u64,
    pub a4: u64,
    pub a5: u64,
    pub a6: u64,
    pub a7: u64,
    pub s2: u64,
    pub s3: u64,
    pub s4: u64,
    pub s5: u64,
    pub s6: u64,
    pub s7: u64,
    pub s8: u64,
    pub s9: u64,
    pub s10: u64,
    pub s11: u64,
    pub t3: u64,
    pub t4: u64,
    pub t5: u64,
    pub t6: u64,
    pub sepc: u64,
    pub sstatus: u64,
}

pub const INTERRUPT_BIT: u64 = 0x8000_0000_0000_0000;
pub const CAUSE_MASK: u64 = 0x7FFF_FFFF_FFFF_FFFF;
pub const CAUSE_TIMER: u64 = 5;
pub const CAUSE_EXT: u64 = 9;
pub const CAUSE_SYSCALL: u64 = 8;
pub const CAUSE_S_ECALL: u64 = 9;
/// Timer cycles between two ticks.
pub const TICK_INTERVAL: u64 = 100_000;
/// Exit status of a task killed by an unresolvable page fault (128 + SIGSEGV).
pub const SEGV_EXIT: i32 = 139;

/// What a trap asks of the kernel.
#[derive(Clone, Copy, PartialEq, Eq, Structural, Debug)]
pub enum TrapKind {
    /// Supervisor timer interrupt: tick the scheduler, re-arm the timer.
    Timer,
    /// Supervisor external interrupt: service the PLIC.
    External,
    /// Any other interrupt: ignored.
    OtherInterrupt,
    /// `ecall` from U-mode.
    Syscall,
    /// `ecall` from S-mode: skipped.
    SupervisorEcall,
    /// Instruction, load or store page fault.
    PageFault,
    /// Anything else: fatal.
    Unhandled,
}

pub open spec fn trap_kind(scause: u64) -> TrapKind {
    let cause = scause & CAUSE_MASK;
    if scause & INTERRUPT_BIT != 0 {
        if cause == 5 {
            TrapKind::Timer
        } else if cause == 9 {
            TrapKind::External
        } else {
            TrapKind::OtherInterrupt
        }
    } else if cause == 8 {
        TrapKind::Syscall
    } else if cause == 9 {
        TrapKind::SupervisorEcall
    } else if cause == 12 || cause == 13 || cause == 15 {
        TrapKind::PageFault
    } else {
        TrapKind::Unhandled
    }
}

/// Decode `scause`.
pub fn classify(scause: u64) -> (k: TrapKind)
    ensures
        k == trap_kind(scause),
{
    let is_interrupt = (scause & INTERRUPT_BIT) != 0;
    let cause = scause & CAUSE_MASK;
    if is_interrupt {
        if cause == CAUSE_TIMER {
            TrapKind::Timer
        } else if cause == CAUSE_EXT {
            TrapKind::External
        } else {
            TrapKind::OtherInterrupt
        }
    } else if cause == CAUSE_SYSCALL {
        TrapKind::Syscall
    } else if cause == CAUSE_S_ECALL {
        TrapKind::SupervisorEcall
    } else if cause == 12 || cause == 13 || cause == 15 {
        TrapKind::PageFault
    } else {
        TrapKind::Unhandled
    }
}

/// What the caller does for a trap, after `trap_handler` has updated the
/// frame.
#[derive(Clone, Copy, PartialEq, Eq, Structural, Debug)]
pub enum TrapAction {
    /// Tick the scheduler and set the next timer event at `time + TICK_INTERVAL`.
    TickAndRearm,
    /// Claim and complete the pending PLIC source.
    ServicePlic,
    /// Nothing to do.
    Resume,
    /// Record the user context (`return_pc`, `user_sp`), dispatch system
    /// call `nr` with arguments `a0`..`a5`, then call `finish_syscall`.
    Syscall { nr: u64, a0: u64, a1: u64, a2: u64, a3: u64, a4: u64, a5: u64, return_pc: u64, user_sp: u64 },
    /// Page fault at `stval`; `from_user` tells whose.
    PageFault { from_user: bool },
    /// Print `unhandled_message` and stop the hart.
    Fatal,
}

/// A fault taken in U-mode: `sstatus.SPP` (bit 8) is clear.
pub open spec fn spec_from_user(sstatus: u64) -> bool {
    (sstatus >> 8u64) & 1 == 0
}

pub fn from_user(sstatus: u64) -> (r: bool)
    ensures
        r == spec_from_user(sstatus),
{
    (sstatus >> 8u64) & 1 == 0
}

/// Decide what trap `scause` asks for; an S-mode `ecall` is skipped here by
/// advancing `sepc` past it, and no other trap touches the frame.
pub fn trap_handler(frame: &mut TrapFrame, scause: u64) -> (a: TrapAction)
    requires
        trap_kind(scause) == TrapKind::SupervisorEcall ==> old(frame).sepc + 4 <= u64::MAX,
        trap_kind(scause) == TrapKind::Syscall ==> old(frame).sepc + 4 <= u64::MAX,
    ensures
        trap_kind(scause) == TrapKind::SupervisorEcall ==> *final(frame) == (TrapFrame {
            sepc: (old(frame).sepc + 4) as u64,
            ..*old(frame)
        }),
        trap_kind(scause) != TrapKind::SupervisorEcall ==> *final(frame) == *old(frame),
        a == match trap_kind(scause) {
            TrapKind::Timer => TrapAction::TickAndRearm,
            TrapKind::External => TrapAction::ServicePlic,
            TrapKind::OtherInterrupt => TrapAction::Resume,
            TrapKind::SupervisorEcall => TrapAction::Resume,
            TrapKind::Syscall => TrapAction::Syscall {
                nr: old(frame).a7,
                a0: old(frame).a0,
                a1: old(frame).a1,
                a2: old(frame).a2,
                a3: old(frame).a3,
                a4: old(frame).a4,
                a5: old(frame).a5,
                return_pc: (old(frame).sepc + 4) as u64,
                user_sp: old(frame).sp,
            },
            TrapKind::PageFault => TrapAction::PageFault { from_user: spec_from_user(old(frame).sstatus) },
            TrapKind::Unhandled => TrapAction::Fatal,
        },
{
    match classify(scause) {
        TrapKind::Timer => TrapAction::TickAndRearm,
        TrapKind::External => TrapAction::ServicePlic,
        TrapKind::OtherInterrupt => TrapAction::Resume,
        TrapKind::SupervisorEcall => {
            frame.sepc = frame.sepc + 4;
            TrapAction::Resume
        },
        TrapKind::Syscall => TrapAction::Syscall {
            nr: frame.a7,
            a0: frame.a0,
            a1: frame.a1,
            a2: frame.a2,
            a3: frame.a3,
            a4: frame.a4,
            a5: frame.a5,
            return_pc: frame.sepc + 4,
            user_sp: frame.sp,
        },
        TrapKind::PageFault => TrapAction::PageFault { from_user: from_user(frame.sstatus) },
        TrapKind::Unhandled => TrapAction::Fatal,
    }
}

/// Next timer event: `TICK_INTERVAL` cycles after `time`.
pub fn next_timer(time: u64) -> (t: u64)
    requires
        time + TICK_INTERVAL <= u64::MAX,
    ensures
        t == time + TICK_INTERVAL,
{
    time + TICK_INTERVAL
}

/// Put a system call's result in `a0` and return past the `ecall`, or, when
/// `execve` replaced the image, to its entry point on its stack; returns the
/// page table to switch to in that case.
pub fn finish_syscall(frame: &mut TrapFrame, ret: u64, exec: Option<(u64, u64, u64)>) -> (pt: Option<u64>)
    requires
        exec is None ==> old(frame).sepc + 4 <= u64::MAX,
    ensures
        final(frame).a0 == ret,
        match exec {
            Some((ip, sp, table)) => final(frame).sepc == ip && final(frame).sp == sp && pt == Some(table),
            None => final(frame).sepc == old(frame).sepc + 4 && final(frame).sp == old(frame).sp && pt is None,
        },
        *final(frame) == (TrapFrame { a0: final(frame).a0, sepc: final(frame).sepc, sp: final(frame).sp, ..*old(frame) }),
{
    frame.a0 = ret;
    match exec {
        Some((ip, sp, table)) => {
            frame.sepc = ip;
            frame.sp = sp;
            Some(table)
        },
        None => {
            frame.sepc = frame.sepc + 4;
            None
        },
    }
}

/// How a page fault ends.
#[derive(Clone, Copy, PartialEq, Eq, Structural, Debug)]
pub enum FaultOutcome {
    /// The page was mapped: retry the instruction.
    Retry,
    /// An unresolvable user fault: exit the task with `SEGV_EXIT`.
    Kill,
    /// A fault in the kernel: print `kernel_fault_message` and stop.
    Panic,
}

/// Given whether the fault came from U-mode and, for such a fault, whether
/// the scheduler could map the page.
pub fn page_fault_outcome(from_user: bool, resolved: bool) -> (o: FaultOutcome)
    ensures
        o == if from_user && resolved {
            FaultOutcome::Retry
        } else if from_user {
            FaultOutcome::Kill
        } else {
            FaultOutcome::Panic
        },
{
    if from_user && resolved {
        FaultOutcome::Retry
    } else if from_user {
        FaultOutcome::Kill
    } else {
        FaultOutcome::Panic
    }
}

/// Report of a page fault taken in the kernel: `sepc` and `stval` in hex.
pub fn kernel_fault_message(sepc: u64, stval: u64) -> (m: Vec<u8>)
    ensures
        m@ == "[TRAP] kernel page fault sepc=0x".spec_bytes() + hex_seq(sepc) + " stval=0x".spec_bytes()
            + hex_seq(stval) + "\n".spec_bytes(),
{
    let mut m: Vec<u8> = Vec::new();
    push_all(&mut m, "[TRAP] kernel page fault sepc=0x".as_bytes());
    let h = hex16(sepc);
    push_all(&mut m, h.as_slice());
    push_all(&mut m, " stval=0x".as_bytes());
    let h2 = hex16(stval);
    push_all(&mut m, h2.as_slice());
    push_all(&mut m, "\n".as_bytes());
    m
}

/// Report of a trap nothing handles: the cause (without the interrupt bit)
/// in decimal, `sepc` and `stval` in hex.
pub fn unhandled_message(scause: u64, sepc: u64, stval: u64) -> (m: Vec<u8>)
    ensures
        m@ == "[TRAP] unhandled exception cause=".spec_bytes() + dec_digits((scause & CAUSE_MASK) as nat)
            + " sepc=0x".spec_bytes() + hex_seq(sepc) + " stval=0x".spec_bytes() + hex_seq(stval)
            + "\n".spec_bytes(),
{
    let mut m: Vec<u8> = Vec::new();
    push_all(&mut m, "[TRAP] unhandled exception cause=".as_bytes());
    let d = dec(scause & CAUSE_MASK);
    push_all(&mut m, d.as_slice());
    push_all(&mut m, " sepc=0x".as_bytes());
    let h = hex16(sepc);
    push_all(&mut m, h.as_slice());
    push_all(&mut m, " stval=0x".as_bytes());
    let h2 = hex16(stval);
    push_all(&mut m, h2.as_slice());
    push_all(&mut m, "\n".as_bytes());
    m
}

/// The value for `stvec`: the trap entry in direct mode (the entry is
/// 4-byte aligned, so its mode bits are 00).
pub fn init(trap_entry: u64) -> (stvec: u64)
    ensures
        stvec == trap_entry,
{
    trap_entry
}

} // verus!

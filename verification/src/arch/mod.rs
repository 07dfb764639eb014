//! The architecture-neutral face of the three ports. Which port runs is a
//! value here (`Arch`, or the variant of a per-port state), and each entry
//! point does what that port's module does.
use vstd::prelude::*;
use vstd::string::StringSliceAdditionalSpecFns;
use crate::mmio::{MmioWrite, mw};
use crate::memory::phys::{PhysMem, FrameAllocator, kept, ent, frame_ok, with_entry};
use crate::boards::qemu_pc::console::{Console, run, serial_of, text_seen};
use crate::boards::qemu_virt_riscv64::sbi::{SbiCall, EXT_CONSOLE};
use crate::arch::x86_64::gdt::Tss;
use crate::arch::x86_64::idt::{SyscallUserRegs, callee_saved_snapshot};
use crate::arch::x86_64::paging as xp;
use crate::arch::riscv64::paging as rp;
use crate::arch::aarch64::paging as ap;
use crate::arch::stack::{InitialStack, spec_stack_top};
use crate::arch::x86_64::gdt::{USER_CODE_SEL, USER_DATA_SEL};

pub mod aarch64;
pub mod prot;
pub mod riscv64;
pub mod stack;
pub mod x86_64;

verus! {

#[derive(Clone, Copy, Debug, PartialEq, Eq, Structural)]
pub enum Arch {
    X86_64,
    Riscv64,
    Aarch64,
}

/// The architecture's name.
pub fn name(arch: Arch) -> (n: &'static str)
    ensures
        n@ == match arch {
            Arch::X86_64 => "x86_64"@,
            Arch::Riscv64 => "riscv64"@,
            Arch::Aarch64 => "aarch64"@,
        },
{
    match arch {
        Arch::X86_64 => "x86_64",
        Arch::Riscv64 => "riscv64",
        Arch::Aarch64 => "aarch64",
    }
}

/// How the console is cleared: the VGA screen is wiped in place, a serial
/// console gets the ANSI "erase display, cursor home" sequence.
pub enum ConsoleClear {
    Vga,
    Ansi(Vec<u8>),
}

/// `ESC [ 2 J ESC [ H`.
pub open spec fn ansi_clear() -> Seq<u8> {
    seq![0x1Bu8, 0x5B, 0x32, 0x4A, 0x1B, 0x5B, 0x48]
}

pub fn console_clear(arch: Arch) -> (c: ConsoleClear)
    ensures
        arch == Arch::X86_64 ==> c is Vga,
        arch != Arch::X86_64 ==> {
            &&& c matches ConsoleClear::Ansi(b)
            &&& b@ == ansi_clear()
        },
{
    match arch {
        Arch::X86_64 => ConsoleClear::Vga,
        _ => {
            let b: Vec<u8> = vec![0x1Bu8, 0x5B, 0x32, 0x4A, 0x1B, 0x5B, 0x48];
            assert(b@ =~= ansi_clear());
            ConsoleClear::Ansi(b)
        },
    }
}

/// The early console of each port: the VGA text console (mirrored to COM1),
/// OpenSBI's console, or a PL011 UART at `base`.
pub enum EarlyConsole {
    Vga(Console),
    Sbi,
    Pl011 { base: u64 },
}

/// What printing produced for the caller to carry out: COM1 bytes and
/// whether the VGA screen needs a redraw, SBI calls, or UART stores.
pub enum ConsoleOut {
    Vga { serial: Vec<u8>, redraw: bool },
    Sbi(Vec<SbiCall>),
    Uart(Vec<MmioWrite>),
}

/// Print `s` on the early console.
pub fn console_print_str(con: &mut EarlyConsole, s: &[u8]) -> (out: ConsoleOut)
    requires
        *old(con) matches EarlyConsole::Vga(c) ==> c.wf() && c.row + 2 * s@.len() + 2 < usize::MAX,
        *old(con) matches EarlyConsole::Pl011 { base } ==> base <= 0xFFFF_FFFF,
    ensures
        *old(con) matches EarlyConsole::Vga(c0) ==> {
            &&& *final(con) matches EarlyConsole::Vga(c1)
            &&& c1.wf()
            &&& c1.view_offset == c0.view_offset
            &&& (c1.buf@, c1.col as int, c1.row as int, c1.esc) == run(
                (c0.buf@, c0.col as int, c0.row as int, c0.esc),
                s@,
            )
            &&& out matches ConsoleOut::Vga { serial, redraw }
            &&& serial@ == serial_of(s@)
            &&& redraw == (c0.view_offset == 0 && text_seen((c0.buf@, c0.col as int, c0.row as int, c0.esc), s@))
        },
        *old(con) is Sbi ==> {
            &&& *final(con) is Sbi
            &&& out matches ConsoleOut::Sbi(calls)
            &&& calls@.len() == s@.len()
            &&& forall|i: int| 0 <= i < s@.len() ==> #[trigger] calls@[i] == (SbiCall {
                ext: EXT_CONSOLE,
                fid: 0,
                a0: s@[i] as u64,
                a1: 0,
                a2: 0,
            })
        },
        *old(con) matches EarlyConsole::Pl011 { base } ==> {
            &&& *final(con) matches EarlyConsole::Pl011 { base: b2 }
            &&& b2 == base
            &&& out matches ConsoleOut::Uart(w)
            &&& w@.len() == s@.len()
            &&& forall|i: int| 0 <= i < s@.len() ==> #[trigger] w@[i] == mw(base, s@[i] as u32)
        },
{
    match con {
        EarlyConsole::Vga(c) => {
            let (serial, redraw) = c.print_str(s);
            ConsoleOut::Vga { serial, redraw }
        },
        EarlyConsole::Sbi => ConsoleOut::Sbi(riscv64::console::print_str(s)),
        EarlyConsole::Pl011 { base } => ConsoleOut::Uart(aarch64::console::print_str(*base, s)),
    }
}

/// Where each port keeps the stack a trap from user mode switches to: the
/// TSS and the SYSCALL entry's stack slot, `sscratch`, `TPIDR_EL1`.
pub enum KernelStack {
    X86_64 { tss: Tss, syscall_rsp: u64 },
    Riscv64 { sscratch: u64 },
    Aarch64 { tpidr: u64 },
}

/// Make `sp` the kernel stack of the task about to run.
pub fn set_kernel_stack(ks: &mut KernelStack, sp: u64)
    ensures
        *old(ks) matches KernelStack::X86_64 { tss, syscall_rsp } ==> *final(ks) == (KernelStack::X86_64 {
            tss: Tss { rsp0: sp, ..tss },
            syscall_rsp: sp,
        }),
        *old(ks) is Riscv64 ==> *final(ks) == (KernelStack::Riscv64 { sscratch: sp }),
        *old(ks) is Aarch64 ==> *final(ks) == (KernelStack::Aarch64 { tpidr: sp }),
{
    match ks {
        KernelStack::X86_64 { tss, syscall_rsp } => {
            x86_64::set_kernel_stack(tss, syscall_rsp, sp);
        },
        KernelStack::Riscv64 { sscratch } => {
            *sscratch = riscv64::set_kernel_stack(sp);
        },
        KernelStack::Aarch64 { tpidr } => {
            *tpidr = aarch64::set_kernel_stack(sp);
        },
    }
}

/// The user's callee-saved registers `[rbx, rbp, r12, r13, r14, r15]` at the
/// last system call entry, as fork hands them to the child; zeros where the
/// port has no such snapshot.
pub fn user_callee_saved_snapshot(arch: Arch, regs: &SyscallUserRegs) -> (s: [u64; 6])
    ensures
        arch == Arch::X86_64 ==> s@ == seq![regs.rbx, regs.rbp, regs.r12, regs.r13, regs.r14, regs.r15],
        arch != Arch::X86_64 ==> s@ == seq![0u64, 0, 0, 0, 0, 0],
{
    match arch {
        Arch::X86_64 => callee_saved_snapshot(regs),
        _ => {
            let z = [0u64; 6];
            assert(z@ =~= seq![0u64, 0, 0, 0, 0, 0]);
            z
        },
    }
}

/// Whether interrupts were on, from the register read just before masking
/// them: RFLAGS.IF (bit 9), `sstatus.SIE` (bit 1), or `DAIF.I` (bit 7, set
/// when masked).
pub fn save_and_disable_interrupts(arch: Arch, reg: u64) -> (was_enabled: bool)
    ensures
        was_enabled == match arch {
            Arch::X86_64 => (reg >> 9u64) & 1 != 0,
            Arch::Riscv64 => (reg >> 1u64) & 1 != 0,
            Arch::Aarch64 => (reg >> 7u64) & 1 == 0,
        },
{
    match arch {
        Arch::X86_64 => (reg >> 9) & 1 != 0,
        Arch::Riscv64 => (reg >> 1) & 1 != 0,
        Arch::Aarch64 => (reg >> 7) & 1 == 0,
    }
}

/// The thread pointer (`FS.base`) from the two halves `rdmsr` returns; 0 on
/// the ports without one in use.
pub fn read_fs_base(arch: Arch, lo: u32, hi: u32) -> (v: u64)
    ensures
        v == if arch == Arch::X86_64 { (lo as u64) | ((hi as u64) << 32u64) } else { 0 },
{
    if arch == Arch::X86_64 {
        (lo as u64) | ((hi as u64) << 32)
    } else {
        0
    }
}

/// The halves `wrmsr` takes to set `FS.base` to `val`; nothing to write on
/// the other ports.
pub fn write_fs_base(arch: Arch, val: u64) -> (r: Option<(u32, u32)>)
    ensures
        arch == Arch::X86_64 ==> r == Some(((val & 0xFFFF_FFFF) as u32, (val >> 32u64) as u32)),
        arch != Arch::X86_64 ==> r is None,
{
    if arch == Arch::X86_64 {
        Some(((val & 0xFFFF_FFFF) as u32, (val >> 32) as u32))
    } else {
        None
    }
}

/// The operand of the single-page TLB flush for `va`: the address itself
/// (`invlpg`, `sfence.vma`), or its page number (`tlbi vaae1is`).
pub fn flush_tlb_page(arch: Arch, va: u64) -> (operand: u64)
    ensures
        operand == if arch == Arch::Aarch64 { va >> 12u64 } else { va },
{
    if arch == Arch::Aarch64 {
        va >> 12
    } else {
        va
    }
}

/// The golden-ratio multiplier the entropy mix uses.
pub const ENTROPY_MUL: u64 = 0x9e37_79b9_7f4a_7c15;

pub open spec fn rotr17(x: u64) -> u64 {
    (x >> 17u64) | (x << 47u64)
}

/// Raw entropy bits from the cycle or time counter `counter`: multiplied
/// (wrapping) by `ENTROPY_MUL`, and on x86_64 rotated right by 17.
pub fn entropy_seed(arch: Arch, counter: u64) -> (r: u64)
    ensures
        r == if arch == Arch::X86_64 {
            rotr17(vstd::wrapping::u64_specs::wrapping_mul(counter, ENTROPY_MUL))
        } else {
            vstd::wrapping::u64_specs::wrapping_mul(counter, ENTROPY_MUL)
        },
{
    let t = counter.wrapping_mul(ENTROPY_MUL);
    if arch == Arch::X86_64 {
        (t >> 17) | (t << 47)
    } else {
        t
    }
}

// ── Task stacks ─────────────────────────────────────────────────────────

/// Bytes the initial kernel frame takes on each port; it must fit below the
/// 16-byte-aligned top of the stack buffer.
pub open spec fn frame_bytes(arch: Arch) -> u64 {
    match arch {
        Arch::X86_64 => 64,
        Arch::Riscv64 => 104,
        Arch::Aarch64 => 96,
    }
}

/// The first kernel frame of a task that starts at `entry`, built in the
/// stack buffer `[base, base + len)`; `context_switch` pops it.
pub fn task_init_stack(arch: Arch, base: u64, len: u64, entry: u64) -> (s: InitialStack)
    requires
        base + len <= u64::MAX,
        base + frame_bytes(arch) <= spec_stack_top(base, len),
    ensures
        arch == Arch::X86_64 ==> s.sp == spec_stack_top(base, len) - 64 && s.words@ == seq![
            0u64,
            0u64,
            0u64,
            0u64,
            0u64,
            0u64,
            entry,
            0u64,
        ],
        arch == Arch::Riscv64 ==> s.sp == spec_stack_top(base, len) - 104 && s.words@ == seq![
            entry,
            0u64,
            0u64,
            0u64,
            0u64,
            0u64,
            0u64,
            0u64,
            0u64,
            0u64,
            0u64,
            0u64,
            0u64,
        ],
        arch == Arch::Aarch64 ==> s.sp == spec_stack_top(base, len) - 96 && s.words@ == seq![
            entry,
            0u64,
            0u64,
            0u64,
            0u64,
            0u64,
            0u64,
            0u64,
            0u64,
            0u64,
            0u64,
            0u64,
        ],
{
    match arch {
        Arch::X86_64 => x86_64::context::task_init_stack(base, len, entry),
        Arch::Riscv64 => riscv64::context::task_init_stack(base, len, entry),
        Arch::Aarch64 => aarch64::context::task_init_stack(base, len, entry),
    }
}

/// The first kernel frame of a task that drops to user mode at `user_rip`
/// on `user_rsp` through `trampoline` (`iretq` on x86_64, `sret` on
/// riscv64; aarch64 has no user mode yet).
pub fn task_init_userspace_stack(arch: Arch, base: u64, len: u64, trampoline: u64, user_rip: u64, user_rsp: u64) -> (s: InitialStack)
    requires
        arch != Arch::Aarch64,
        base + len <= u64::MAX,
        base + (if arch == Arch::X86_64 { 96u64 } else { 104u64 }) <= spec_stack_top(base, len),
    ensures
        arch == Arch::X86_64 ==> s.sp == spec_stack_top(base, len) - 96 && s.words@ == seq![
            0u64,
            0u64,
            0u64,
            0u64,
            0u64,
            0u64,
            trampoline,
            user_rip,
            USER_CODE_SEL as u64,
            x86_64::context::USER_RFLAGS,
            user_rsp,
            USER_DATA_SEL as u64,
        ],
        arch == Arch::Riscv64 ==> s.sp == spec_stack_top(base, len) - 104 && s.words@ == seq![
            trampoline,
            user_rsp,
            user_rip,
            riscv64::context::USER_SSTATUS,
            0u64,
            0u64,
            0u64,
            0u64,
            0u64,
            0u64,
            0u64,
            0u64,
            0u64,
        ],
{
    match arch {
        Arch::X86_64 => x86_64::context::task_init_userspace_stack(base, len, trampoline, user_rip, user_rsp),
        _ => riscv64::context::task_init_userspace_stack(base, len, trampoline, user_rip, user_rsp),
    }
}

/// The first kernel frame of a forked child that returns to user mode at
/// `user_rip` on `user_rsp` through `trampoline`, as a real `clone()` does:
/// with fork's result 0 in the return register (`rax` / `a0`), the syscall
/// argument registers `args` and the callee-saved registers `callee_saved`
/// (`[rbx, rbp, r12, r13, r14, r15]` on x86_64, `s0`-`s5` on riscv64) as
/// the parent had them at the fork; compiled code (libc's clone trampoline
/// keeps its entry point in a register) depends on that. aarch64 has no
/// user mode yet.
pub fn task_init_fork_stack(
    arch: Arch,
    base: u64,
    len: u64,
    trampoline: u64,
    user_rip: u64,
    user_rsp: u64,
    args: [u64; 6],
    callee_saved: [u64; 6],
) -> (s: InitialStack)
    requires
        arch != Arch::Aarch64,
        base + len <= u64::MAX,
        base + (if arch == Arch::X86_64 { 152u64 } else { 200u64 }) <= spec_stack_top(base, len),
    ensures
        arch == Arch::X86_64 ==> s.sp == spec_stack_top(base, len) - 152 && s.words@ == x86_64::context::fork_frame(
            trampoline,
            user_rip,
            user_rsp,
            args,
            callee_saved,
        ),
        arch == Arch::Riscv64 ==> s.sp == spec_stack_top(base, len) - 200 && s.words@ == riscv64::context::fork_frame(
            trampoline,
            user_rip,
            user_rsp,
            args,
            callee_saved,
        ),
{
    match arch {
        Arch::X86_64 => x86_64::context::task_init_fork_stack(base, len, trampoline, user_rip, user_rsp, args, callee_saved),
        _ => riscv64::context::task_init_fork_stack(base, len, trampoline, user_rip, user_rsp, args, callee_saved),
    }
}

// ── Page tables ─────────────────────────────────────────────────────────

/// Each port's kernel page tables: the x86_64 identity-map tables, the Sv39
/// root, or the aarch64 L1 table with its L2 tables and the device ranges
/// mapped uncached.
pub enum KernelPaging {
    X86_64(xp::KernelTables),
    Riscv64 { root: u64 },
    Aarch64 { l1: u64, l2s: Vec<u64>, device_ranges: Vec<(u64, u64)> },
}

pub open spec fn kernel_root(kp: KernelPaging) -> u64 {
    match kp {
        KernelPaging::X86_64(k) => k.pml4,
        KernelPaging::Riscv64 { root } => root,
        KernelPaging::Aarch64 { l1, .. } => l1,
    }
}

/// The root register value (CR3, SATP or TTBR0) that makes the tree at
/// `root` current.
pub open spec fn root_reg(arch: Arch, root: u64) -> u64 {
    if arch == Arch::Riscv64 {
        rp::spec_satp(root)
    } else {
        root
    }
}

/// What `paging_init` needs of the kernel tables in memory of `n` words.
pub open spec fn paging_ok(kp: KernelPaging, n: nat) -> bool {
    &&& kp matches KernelPaging::X86_64(k) ==> k.wf(n)
    &&& kp matches KernelPaging::Riscv64 { root } ==> crate::memory::phys::frame_ok(n, root)
    &&& kp matches KernelPaging::Aarch64 { l1, l2s, device_ranges } ==> ap::tables_ok(n, l1, l2s@) && ap::ranges_ok(
        device_ranges@,
    )
}

/// The kernel root (`kernel_page_table_phys`, the same on every call) is a
/// 4 KiB-aligned frame, and switching to it (`switch_address_space`) loads
/// exactly the root register value `paging_init` installed.
pub proof fn kernel_root_is_installed(kp: KernelPaging, n: nat)
    requires
        paging_ok(kp, n),
    ensures
        kernel_root(kp) % 4096 == 0,
        root_reg(arch_of(kp), kernel_root(kp)) == match kp {
            KernelPaging::X86_64(k) => k.pml4,
            KernelPaging::Riscv64 { root } => rp::spec_satp(root),
            KernelPaging::Aarch64 { l1, .. } => l1,
        },
{
}

/// Build the kernel's identity map; returns the value for the root register
/// (CR3, SATP or TTBR0).
pub fn paging_init(kp: &KernelPaging, mem: &mut PhysMem) -> (reg: u64)
    requires
        *kp matches KernelPaging::X86_64(k) ==> k.wf(old(mem)@.len()),
        *kp matches KernelPaging::Riscv64 { root } ==> crate::memory::phys::frame_ok(old(mem)@.len(), root),
        *kp matches KernelPaging::Aarch64 { l1, l2s, device_ranges } ==> ap::tables_ok(old(mem)@.len(), l1, l2s@)
            && ap::ranges_ok(device_ranges@),
    ensures
        final(mem)@.len() == old(mem)@.len(),
        reg == root_reg(arch_of(*kp), kernel_root(*kp)),
        *kp matches KernelPaging::X86_64(k) ==> {
            &&& reg == k.pml4
            &&& xp::kernel_map_built(final(mem)@, k)
            &&& forall|va: u64| va < 0x1_0000_0000 ==> #[trigger] xp::walk(final(mem)@, k.pml4, va) == Some(
                (((va >> 21u64) << 21u64) | 0x83, 2int),
            )
        },
        *kp matches KernelPaging::Riscv64 { root } ==> {
            &&& reg == rp::spec_satp(root)
            &&& forall|va: u64| va < 0x1_0000_0000 ==> #[trigger] rp::walk(final(mem)@, root, va) == Some(
                (rp::kernel_leaf((va >> 30u64) & 0x1FF), 2int),
            )
        },
        *kp matches KernelPaging::Aarch64 { l1, l2s, device_ranges } ==> {
            &&& reg == l1
            &&& forall|g: int, x: int| 0 <= g < l2s@.len() && 0 <= x < 512 ==> #[trigger] crate::memory::phys::ent(
                final(mem)@,
                l2s@[g],
                x,
            ) == ap::kernel_block(device_ranges@, ap::block_addr(g, x))
            &&& forall|g: int| 0 <= g < l2s@.len() ==> #[trigger] crate::memory::phys::ent(final(mem)@, l1, g)
                == l2s@[g] | ap::TABLE_VALID
        },
{
    match kp {
        KernelPaging::X86_64(k) => {
            xp::init(mem, k);
            k.pml4
        },
        KernelPaging::Riscv64 { root } => rp::init(mem, *root),
        KernelPaging::Aarch64 { l1, l2s, device_ranges } => {
            ap::init(mem, *l1, l2s.as_slice(), device_ranges.as_slice());
            *l1
        },
    }
}

/// A bring-up step that can only run once paging is active.
#[derive(Clone, Copy, Debug, PartialEq, Eq, Structural)]
pub enum LateInit {
    /// The VideoCore-mailbox framebuffer behind HDMI, remapped uncached.
    HdmiFramebuffer,
    /// The DWC2 USB host stack.
    UsbHost,
}

/// The steps that follow `paging_init`, in order: on the Raspberry Pi 3
/// (aarch64 with that board) the HDMI framebuffer and then the USB host;
/// none on every other board.
pub fn board_late_init(arch: Arch, raspberrypi3: bool) -> (steps: Vec<LateInit>)
    ensures
        steps@ == if arch == Arch::Aarch64 && raspberrypi3 {
            seq![LateInit::HdmiFramebuffer, LateInit::UsbHost]
        } else {
            Seq::<LateInit>::empty()
        },
{
    let mut steps: Vec<LateInit> = Vec::new();
    if arch == Arch::Aarch64 && raspberrypi3 {
        steps.push(LateInit::HdmiFramebuffer);
        steps.push(LateInit::UsbHost);
    }
    steps
}

/// Physical address of the kernel's root table.
pub fn kernel_page_table_phys(kp: &KernelPaging) -> (r: u64)
    ensures
        r == kernel_root(*kp),
{
    match kp {
        KernelPaging::X86_64(k) => xp::kernel_page_table_phys(k),
        KernelPaging::Riscv64 { root } => riscv64::kernel_page_table_phys(*root),
        KernelPaging::Aarch64 { l1, .. } => aarch64::kernel_page_table_phys(*l1),
    }
}

/// The root register value that switches to the tree at `root`.
pub fn switch_address_space(arch: Arch, root: u64) -> (reg: u64)
    ensures
        reg == root_reg(arch, root),
{
    match arch {
        Arch::X86_64 => xp::switch_address_space(root),
        Arch::Riscv64 => riscv64::switch_address_space(root),
        Arch::Aarch64 => aarch64::switch_address_space(root),
    }
}

/// What `x86_64::paging::create_process_page_table` promises.
pub open spec fn x86_create_post(m0: Seq<u64>, m1: Seq<u64>, f0: Seq<u64>, f1: Seq<u64>, kroot: u64, code: u64, stack: u64, r: Option<u64>) -> bool {
    &&& m1.len() == m0.len()
    &&& f0.len() < 4 ==> r is None && m1 == m0 && f1.len() == 0
    &&& f0.len() >= 4 ==> r == Some(f0.last()) && f1 == f0.take(f0.len() - 4)
    &&& xp::pt_inv(m1, kroot, f1)
    &&& forall|va: u64| #[trigger] xp::walk(m1, kroot, va) == xp::walk(m0, kroot, va)
    &&& r matches Some(root) ==> xp::pt_inv(m1, root, f1) && forall|va: u64| #[trigger] xp::walk(m1, root, va)
        == xp::process_walk(m0, kroot, code, stack, va)
    &&& r matches Some(root) ==> xp::process_tables(m1, ent(m0, kroot, 0), root, f0[f0.len() - 2], f0[f0.len() - 3], f0[f0.len() - 4], code, stack)
    &&& r matches Some(root) ==> xp::user_links(m1, root)
}

/// What `riscv64::paging::create_process_page_table` promises.
pub open spec fn sv39_create_post(m0: Seq<u64>, m1: Seq<u64>, f0: Seq<u64>, f1: Seq<u64>, kroot: u64, code: u64, stack: u64, r: Option<u64>) -> bool {
    &&& m1.len() == m0.len()
    &&& f0.len() < 3 ==> r is None && m1 == m0 && f1.len() == 0
    &&& f0.len() >= 3 ==> r == Some(f0.last()) && f1 == f0.take(f0.len() - 3)
    &&& rp::pt_inv(m1, kroot, f1)
    &&& forall|va: u64| #[trigger] rp::walk(m1, kroot, va) == rp::walk(m0, kroot, va)
    &&& r matches Some(root) ==> rp::pt_inv(m1, root, f1) && forall|va: u64| #[trigger] rp::walk(m1, root, va)
        == rp::process_walk(m0, kroot, code, stack, va)
}

/// Create a new process's address space mapping `code_phys` and
/// `stack_phys` at the port's user code and stack addresses (not on
/// aarch64, which has no user space yet).
pub fn create_process_page_table(kp: &KernelPaging, mem: &mut PhysMem, frames: &mut FrameAllocator, code_phys: u64, stack_phys: u64) -> (r: Option<u64>)
    requires
        !(*kp is Aarch64),
        *kp is X86_64 ==> xp::pt_inv(old(mem)@, kernel_root(*kp), old(frames)@),
        *kp is Riscv64 ==> rp::pt_inv(old(mem)@, kernel_root(*kp), old(frames)@),
    ensures
        *kp is X86_64 ==> x86_create_post(old(mem)@, final(mem)@, old(frames)@, final(frames)@, kernel_root(*kp), code_phys, stack_phys, r),
        *kp is Riscv64 ==> sv39_create_post(old(mem)@, final(mem)@, old(frames)@, final(frames)@, kernel_root(*kp), code_phys, stack_phys, r),
{
    match kp {
        KernelPaging::X86_64(k) => xp::create_process_page_table(mem, frames, k.pml4, code_phys, stack_phys),
        KernelPaging::Riscv64 { root } => riscv64::create_process_page_table(mem, frames, *root, code_phys, stack_phys),
        KernelPaging::Aarch64 { .. } => None,
    }
}

/// What the ports' `create_empty_process_page_table` promise: on x86_64 the
/// kernel's slot 0 is shared, on riscv64 slots 0-3.
pub open spec fn empty_post(arch: Arch, m0: Seq<u64>, m1: Seq<u64>, f0: Seq<u64>, f1: Seq<u64>, kroot: u64, r: Option<u64>) -> bool {
    &&& f0.len() == 0 ==> r is None && m1 == m0 && f1 == f0
    &&& f0.len() > 0 ==> r == Some(f0.last()) && f1 == f0.drop_last()
    &&& arch == Arch::X86_64 ==> {
        &&& f0.len() > 0 ==> m1 == xp::fresh_root(m0, kroot, f0.last())
        &&& r matches Some(root) ==> xp::user_links(m1, root)
        &&& xp::pt_inv(m1, kroot, f1)
        &&& forall|va: u64| #[trigger] xp::walk(m1, kroot, va) == xp::walk(m0, kroot, va)
        &&& r matches Some(root) ==> xp::pt_inv(m1, root, f1) && forall|va: u64| #[trigger] xp::walk(m1, root, va)
            == if xp::l4(va) == 0 { xp::walk(m0, kroot, va) } else { None }
    }
    &&& arch == Arch::Riscv64 ==> {
        &&& r matches Some(root) ==> forall|x: int| rp::idx_ok(x) ==> #[trigger] ent(m1, root, x) == if x < 4 {
            ent(m0, kroot, x)
        } else {
            0
        }
        &&& r matches Some(root) ==> forall|t: u64, x: int| frame_ok(m0.len(), t) && t != root && rp::idx_ok(x)
            ==> #[trigger] ent(m1, t, x) == ent(m0, t, x)
        &&& rp::pt_inv(m1, kroot, f1)
        &&& forall|va: u64| #[trigger] rp::walk(m1, kroot, va) == rp::walk(m0, kroot, va)
        &&& r matches Some(root) ==> rp::pt_inv(m1, root, f1) && forall|va: u64| #[trigger] rp::walk(m1, root, va)
            == if rp::vpn2(va) < 4 { rp::walk(m0, kroot, va) } else { None }
    }
}

pub open spec fn arch_of(kp: KernelPaging) -> Arch {
    match kp {
        KernelPaging::X86_64(_) => Arch::X86_64,
        KernelPaging::Riscv64 { .. } => Arch::Riscv64,
        KernelPaging::Aarch64 { .. } => Arch::Aarch64,
    }
}

/// Create an address space holding only the kernel's mappings (not on
/// aarch64).
pub fn create_empty_process_page_table(kp: &KernelPaging, mem: &mut PhysMem, frames: &mut FrameAllocator) -> (r: Option<u64>)
    requires
        !(*kp is Aarch64),
        *kp is X86_64 ==> xp::pt_inv(old(mem)@, kernel_root(*kp), old(frames)@),
        *kp is Riscv64 ==> rp::pt_inv(old(mem)@, kernel_root(*kp), old(frames)@),
    ensures
        final(mem)@.len() == old(mem)@.len(),
        empty_post(arch_of(*kp), old(mem)@, final(mem)@, old(frames)@, final(frames)@, kernel_root(*kp), r),
{
    match kp {
        KernelPaging::X86_64(k) => xp::create_empty_process_page_table(mem, frames, k.pml4),
        KernelPaging::Riscv64 { root } => riscv64::create_empty_process_page_table(mem, frames, *root),
        KernelPaging::Aarch64 { .. } => None,
    }
}

/// Deep-copy the user address space rooted at `src` for fork (not on
/// aarch64).
pub fn clone_user_page_table(arch: Arch, mem: &mut PhysMem, frames: &mut FrameAllocator, src: u64) -> (r: Option<u64>)
    requires
        arch != Arch::Aarch64,
        arch == Arch::X86_64 ==> xp::pt_inv(old(mem)@, src, old(frames)@) && xp::leaves_ok(old(mem)@, src, old(frames)@),
        arch == Arch::Riscv64 ==> rp::pt_inv(old(mem)@, src, old(frames)@) && rp::leaves_ok(old(mem)@, src, old(frames)@),
    ensures
        final(mem)@.len() == old(mem)@.len(),
        final(frames)@.len() <= old(frames)@.len(),
        final(frames)@ == old(frames)@.take(final(frames)@.len() as int),
        r is None ==> final(frames)@.len() == 0,
        r matches Some(n) ==> n == old(frames)@.last(),
        kept(old(mem)@, final(mem)@, old(frames)@, final(frames)@.len() as int, old(frames)@.len() as int),
        arch == Arch::X86_64 ==> {
            &&& (r is None <==> xp::clone_cost(old(mem)@, src) > old(frames)@.len())
            &&& (r is Some ==> final(frames)@.len() + xp::clone_cost(old(mem)@, src) == old(frames)@.len())
            &&& r matches Some(n) ==> forall|i: int| xp::idx_ok(i) ==> #[trigger] xp::root_slot(final(mem)@, n, old(mem)@, src, old(frames)@, final(frames)@.len() as int, old(frames)@.len() as int, i)
            &&& xp::pt_inv(final(mem)@, src, final(frames)@)
            &&& forall|va: u64| #[trigger] xp::walk(final(mem)@, src, va) == xp::walk(old(mem)@, src, va)
            &&& r matches Some(n) ==> forall|va: u64| #[trigger] xp::cloned_walk(final(mem)@, n, old(mem)@, src, old(frames)@, final(frames)@.len() as int, va)
            &&& r matches Some(n) ==> xp::pt_inv(final(mem)@, n, final(frames)@) && xp::pages_private(final(mem)@, n, final(frames)@)
                && xp::leaves_ok(final(mem)@, n, final(frames)@)
            &&& r matches Some(n) ==> (xp::user_links(old(mem)@, src) ==> xp::user_links(final(mem)@, n))
        },
        arch == Arch::Riscv64 ==> {
            &&& (r is None <==> rp::clone_cost(old(mem)@, src) > old(frames)@.len())
            &&& (r is Some ==> final(frames)@.len() + rp::clone_cost(old(mem)@, src) == old(frames)@.len())
            &&& r matches Some(n) ==> forall|i: int| rp::idx_ok(i) ==> #[trigger] rp::root_slot(final(mem)@, n, old(mem)@, src, old(frames)@, final(frames)@.len() as int, old(frames)@.len() as int, i)
            &&& rp::pt_inv(final(mem)@, src, final(frames)@)
            &&& forall|va: u64| #[trigger] rp::walk(final(mem)@, src, va) == rp::walk(old(mem)@, src, va)
            &&& r matches Some(n) ==> forall|va: u64| #[trigger] rp::cloned_walk(final(mem)@, n, old(mem)@, src, old(frames)@, final(frames)@.len() as int, va)
            &&& r matches Some(n) ==> rp::pt_inv(final(mem)@, n, final(frames)@) && rp::pages_private(final(mem)@, n, final(frames)@)
                && rp::leaves_ok(final(mem)@, n, final(frames)@)
        },
{
    match arch {
        Arch::X86_64 => xp::clone_user_page_table(mem, frames, src),
        Arch::Riscv64 => riscv64::clone_user_page_table(mem, frames, src),
        Arch::Aarch64 => None,
    }
}

/// Map the 4 KiB page at `va` to `pa_` with protection `prot` in the tree at
/// `root` (not on aarch64). See the ports' `map_user_page`.
pub fn map_user_page(arch: Arch, mem: &mut PhysMem, frames: &mut FrameAllocator, root: u64, va: u64, pa_: u64, prot: u32) -> (ok: bool)
    requires
        arch != Arch::Aarch64,
        arch == Arch::X86_64 ==> xp::pt_inv(old(mem)@, root, old(frames)@),
        arch == Arch::Riscv64 ==> rp::pt_inv(old(mem)@, root, old(frames)@),
    ensures
        final(mem)@.len() == old(mem)@.len(),
        arch == Arch::X86_64 ==> {
            &&& xp::pt_inv(final(mem)@, root, final(frames)@)
            &&& ok == (xp::l4(va) != 0 && !xp::blocked_by_huge(old(mem)@, root, va) && xp::frames_needed(old(mem)@, root, va) <= old(frames)@.len())
            &&& forall|vb: u64| #[trigger] xp::walk(final(mem)@, root, vb) == if ok && xp::same_page(va, vb) {
                Some((xp::leaf_entry(pa_, prot), 1int))
            } else {
                xp::walk(old(mem)@, root, vb)
            }
            &&& final(frames)@ == old(frames)@.take(old(frames)@.len() - xp::frames_taken(old(mem)@, root, va, old(frames)@.len() as int))
            &&& !ok && xp::frames_taken(old(mem)@, root, va, old(frames)@.len() as int) == 0 ==> final(mem)@ == old(mem)@
            &&& xp::user_links(old(mem)@, root) ==> xp::user_links(final(mem)@, root)
            &&& ok && xp::user_links(old(mem)@, root) ==> xp::user_path(final(mem)@, root, va)
            &&& ok && xp::frames_needed(old(mem)@, root, va) == 0 ==> final(mem)@ == with_entry(old(mem)@, xp::t1(old(mem)@, root, xp::l4(va), xp::l3(va), xp::l2(va)), xp::l1(va), xp::leaf_entry(pa_, prot))
        },
        arch == Arch::Riscv64 ==> {
            &&& rp::pt_inv(final(mem)@, root, final(frames)@)
            &&& ok == (rp::vpn2(va) >= 4 && !rp::blocked_by_leaf(old(mem)@, root, va) && rp::frames_needed(old(mem)@, root, va) <= old(frames)@.len())
            &&& forall|vb: u64| #[trigger] rp::walk(final(mem)@, root, vb) == if ok && rp::same_page(va, vb) {
                Some((rp::pte(pa_, rp::leaf_flags(prot)), 0int))
            } else {
                rp::walk(old(mem)@, root, vb)
            }
            &&& final(frames)@ == old(frames)@.take(old(frames)@.len() - rp::frames_taken(old(mem)@, root, va, old(frames)@.len() as int))
            &&& !ok && rp::frames_taken(old(mem)@, root, va, old(frames)@.len() as int) == 0 ==> final(mem)@ == old(mem)@
            &&& ok && rp::frames_needed(old(mem)@, root, va) == 0 ==> final(mem)@ == with_entry(old(mem)@, rp::t0(old(mem)@, root, rp::vpn2(va), rp::vpn1(va)), rp::vpn0(va), rp::pte(pa_, rp::leaf_flags(prot)))
        },
{
    match arch {
        Arch::X86_64 => xp::map_user_page(mem, frames, root, va, pa_, prot),
        Arch::Riscv64 => riscv64::map_user_page(mem, frames, root, va, pa_, prot),
        Arch::Aarch64 => false,
    }
}

/// Make the 4 KiB page at `phys` a guard page in the kernel map. Only the
/// x86_64 map has 4 KiB pages to unmap; elsewhere this fails and callers
/// keep to the stack canary alone.
pub fn protect_guard_page(kp: &KernelPaging, mem: &mut PhysMem, frames: &mut FrameAllocator, phys: u64) -> (ok: bool)
    requires
        *kp matches KernelPaging::X86_64(k) ==> xp::kmap_ok(old(mem)@, k, old(frames)@),
    ensures
        final(mem)@.len() == old(mem)@.len(),
        !(*kp is X86_64) ==> !ok && final(mem)@ == old(mem)@ && final(frames)@ == old(frames)@,
        *kp matches KernelPaging::X86_64(k) ==> {
            &&& xp::kmap_ok(final(mem)@, k, final(frames)@)
            &&& ok == (phys < 0x1_0000_0000 && (xp::is_split(old(mem)@, k, xp::l3(phys), xp::l2(phys)) || old(frames)@.len() > 0))
            &&& !ok ==> final(mem)@ == old(mem)@ && final(frames)@ == old(frames)@
            &&& forall|va: u64| va < 0x1_0000_0000 ==> #[trigger] xp::kmapped(final(mem)@, k, va) == (xp::kmapped(old(mem)@, k, va)
                && !(ok && va >> 12u64 == phys >> 12u64))
        },
{
    match kp {
        KernelPaging::X86_64(k) => xp::protect_guard_page(mem, frames, k, phys),
        KernelPaging::Riscv64 { .. } => rp::protect_guard_page(phys),
        KernelPaging::Aarch64 { .. } => ap::protect_guard_page(phys),
    }
}

} // verus!

//! x86_64 CPU bring-up: SSE enable bits, GDT/IDT construction, the
//! SYSCALL/SYSRETQ MSR programming, and the board's PIC and console.
//! Register and port traffic is computed here and performed by the caller.
use vstd::prelude::*;
use crate::arch::x86_64::gdt::{Tss, STAR};
use crate::arch::x86_64::idt::IdtEntry;
use crate::arch::x86_64::port::PortWrite;
use crate::boards::qemu_pc;

pub mod context;
pub mod gdt;
pub mod idt;
pub mod paging;
pub mod pci;
pub mod port;

verus! {

/// One `wrmsr`.
#[derive(Clone, Copy, Debug, PartialEq, Eq, Structural)]
pub struct MsrWrite {
    pub msr: u32,
    pub value: u64,
}

pub const IA32_EFER: u32 = 0xC000_0080;
pub const IA32_STAR: u32 = 0xC000_0081;
pub const IA32_LSTAR: u32 = 0xC000_0082;
pub const IA32_FMASK: u32 = 0xC000_0084;
/// RFLAGS bits SYSCALL clears on entry: IF, so no timer interrupt lands
/// before the handler has switched stacks.
pub const SYSCALL_FMASK: u64 = 0x200;

/// CR0 with EM (bit 2) cleared and MP (bit 1) set, and CR4 with OSFXSR
/// (bit 9) and OSXMMEXCPT (bit 10) set: what SSE/SSE2 needs before the
/// first SSE instruction runs.
pub open spec fn sse_control(cr0: u64, cr4: u64) -> (u64, u64) {
    ((cr0 & !4u64) | 2u64, cr4 | 0x600u64)
}

/// The enable bits land where SSE needs them and no other bit of either
/// register changes.
pub proof fn sse_control_bits(cr0: u64, cr4: u64)
    ensures
        sse_control(cr0, cr4).0 & 4 == 0,
        sse_control(cr0, cr4).0 & 2 == 2,
        sse_control(cr0, cr4).0 & !6u64 == cr0 & !6u64,
        sse_control(cr0, cr4).1 & 0x600 == 0x600,
        sse_control(cr0, cr4).1 & !0x600u64 == cr4 & !0x600u64,
{
    assert({
        let c0 = (cr0 & !4u64) | 2u64;
        let c4 = cr4 | 0x600u64;
        &&& c0 & 4 == 0
        &&& c0 & 2 == 2
        &&& c0 & !6u64 == cr0 & !6u64
        &&& c4 & 0x600 == 0x600
        &&& c4 & !0x600u64 == cr4 & !0x600u64
    }) by (bit_vector);
}

/// The MSR writes that enable SYSCALL/SYSRETQ, given the EFER value read
/// back and the address of the SYSCALL entry stub: EFER with SCE set, STAR
/// with the kernel and user selector bases, LSTAR, and FMASK clearing IF.
pub open spec fn syscall_msrs(efer: u64, entry: u64) -> Seq<MsrWrite> {
    seq![
        MsrWrite { msr: IA32_EFER, value: efer | 1 },
        MsrWrite { msr: IA32_STAR, value: STAR },
        MsrWrite { msr: IA32_LSTAR, value: entry },
        MsrWrite { msr: IA32_FMASK, value: SYSCALL_FMASK },
    ]
}

fn setup_syscall(efer: u64, entry: u64) -> (w: Vec<MsrWrite>)
    ensures
        w@ == syscall_msrs(efer, entry),
{
    let mut w: Vec<MsrWrite> = Vec::new();
    w.push(MsrWrite { msr: IA32_EFER, value: efer | 1 });
    w.push(MsrWrite { msr: IA32_STAR, value: STAR });
    w.push(MsrWrite { msr: IA32_LSTAR, value: entry });
    w.push(MsrWrite { msr: IA32_FMASK, value: SYSCALL_FMASK });
    w
}

/// What the CPU reports at boot and where the entry stubs and boot
/// structures live.
pub struct BootInputs {
    pub cr0: u64,
    pub cr4: u64,
    pub efer: u64,
    /// PIC interrupt masks read before remapping (master, slave).
    pub pic_masks: (u8, u8),
    pub tss_base: u64,
    pub boot_stack_top: u64,
    /// Per-vector stubs for vectors 0-47.
    pub stubs: Vec<u64>,
    pub syscall_entry: u64,
    pub ignore_stub: u64,
}

/// Everything early bring-up produces, in the order it is to be applied:
/// control registers, then `lgdt` + `ltr`, then `lidt`, then the MSRs, then
/// the board's port writes.
pub struct EarlyInit {
    pub cr0: u64,
    pub cr4: u64,
    pub gdt: Vec<u64>,
    pub idt: Vec<IdtEntry>,
    pub msrs: Vec<MsrWrite>,
    pub board_writes: Vec<PortWrite>,
    pub console: qemu_pc::console::Console,
}

/// Early bring-up, before interrupts are enabled.
pub fn early_init(b: &BootInputs, tss: &mut Tss) -> (r: EarlyInit)
    requires
        b.stubs@.len() == 48,
    ensures
        (r.cr0, r.cr4) == sse_control(b.cr0, b.cr4),
        *final(tss) == (Tss { rsp0: b.boot_stack_top, ..*old(tss) }),
        r.gdt@ == gdt::full_gdt(b.tss_base),
        r.idt@.len() == 256,
        forall|v: int| 0 <= v < 256 ==> #[trigger] r.idt@[v] == idt::gate_entry(
            idt::stub_address(v, b.stubs@, b.syscall_entry, b.ignore_stub),
            if v == idt::SYSCALL_VECTOR as int { idt::ATTR_USER_TRAP } else { idt::ATTR_INTERRUPT },
        ),
        r.msrs@ == syscall_msrs(b.efer, b.syscall_entry),
        r.board_writes@ == qemu_pc::pic::init_sequence(b.pic_masks.0, b.pic_masks.1)
            + qemu_pc::console::serial_init_sequence(),
        r.console.wf(),
        r.console.col == 0 && r.console.row == 0 && r.console.view_offset == 0,
        r.console.esc == qemu_pc::console::EscState::Normal,
{
    let cr0 = (b.cr0 & !4u64) | 2u64;
    let cr4 = b.cr4 | 0x600u64;
    let gdt = gdt::init(tss, b.tss_base, b.boot_stack_top);
    let idt = idt::init(&b.stubs, b.syscall_entry, b.ignore_stub);
    let msrs = setup_syscall(b.efer, b.syscall_entry);
    let (board_writes, console) = qemu_pc::init(b.pic_masks.0, b.pic_masks.1);
    EarlyInit { cr0, cr4, gdt, idt, msrs, board_writes, console }
}

/// The PIC writes that unmask the timer and keyboard lines, starting from
/// the master's mask `imr`; the caller then executes `sti`.
pub fn interrupts_init(imr: u8) -> (w: Vec<PortWrite>)
    ensures
        w@.len() == 2,
        w@[0].port == 0x21 && w@[0].value == imr & !1u8,
        w@[1].port == 0x21 && w@[1].value == (imr & !1u8) & !2u8,
{
    qemu_pc::unmask_default_irqs(imr)
}

/// Point ring-0 entry, and the stack the SYSCALL entry switches to, at `sp`
/// (the top of the current task's kernel stack).
pub fn set_kernel_stack(tss: &mut Tss, syscall_kernel_rsp: &mut u64, sp: u64)
    ensures
        *final(tss) == (Tss { rsp0: sp, ..*old(tss) }),
        *final(syscall_kernel_rsp) == sp,
{
    tss.set_rsp0(sp);
    *syscall_kernel_rsp = sp;
}

} // verus!

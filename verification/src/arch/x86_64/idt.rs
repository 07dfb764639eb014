//! 64-bit IDT gate descriptors and the dispatch decision the common
//! interrupt stub makes for each vector.
use vstd::prelude::*;
use vstd::string::StringSliceAdditionalSpecFns;
use crate::text::{field, push_field, push_str};

verus! {

/// One 16-byte gate descriptor, field by field.
#[derive(Clone, Copy, Debug, PartialEq, Eq, Structural)]
pub struct IdtEntry {
    pub offset_low: u16,
    pub selector: u16,
    pub ist: u8,
    pub type_attr: u8,
    pub offset_mid: u16,
    pub offset_high: u32,
    pub reserved: u32,
}

/// Present, DPL 0, 64-bit interrupt gate (clears IF).
pub const ATTR_INTERRUPT: u8 = 0x8E;
/// Present, DPL 0, 64-bit trap gate (keeps IF).
pub const ATTR_TRAP: u8 = 0x8F;
/// Present, DPL 3, 64-bit trap gate: reachable with `int 0x80` from ring 3.
pub const ATTR_USER_TRAP: u8 = 0xEF;
/// Software syscall vector.
pub const SYSCALL_VECTOR: u8 = 0x80;

impl IdtEntry {
    pub fn missing() -> (e: IdtEntry)
        ensures
            e == (IdtEntry { offset_low: 0, selector: 0, ist: 0, type_attr: 0, offset_mid: 0, offset_high: 0, reserved: 0 }),
    {
        IdtEntry { offset_low: 0, selector: 0, ist: 0, type_attr: 0, offset_mid: 0, offset_high: 0, reserved: 0 }
    }

    /// Make this gate enter `handler` with code segment selector `sel`.
    pub fn set(&mut self, handler: u64, sel: u16, ist: u8, attr: u8)
        ensures
            final(self).offset_low == (handler & 0xFFFF) as u16,
            final(self).offset_mid == ((handler >> 16u64) & 0xFFFF) as u16,
            final(self).offset_high == (handler >> 32u64) as u32,
            final(self).selector == sel,
            final(self).ist == ist,
            final(self).type_attr == attr,
            final(self).reserved == 0,
            final(self).offset_low as u64 | ((final(self).offset_mid as u64) << 16u64)
                | ((final(self).offset_high as u64) << 32u64) == handler,
    {
        self.offset_low = (handler & 0xFFFF) as u16;
        self.offset_mid = ((handler >> 16) & 0xFFFF) as u16;
        self.offset_high = (handler >> 32) as u32;
        self.selector = sel;
        self.ist = ist;
        self.type_attr = attr;
        self.reserved = 0;
        let lo = self.offset_low;
        let mid = self.offset_mid;
        let hi = self.offset_high;
        assert(lo as u64 | ((mid as u64) << 16u64) | ((hi as u64) << 32u64) == handler) by (bit_vector)
            requires
                lo == (handler & 0xFFFF) as u16,
                mid == ((handler >> 16u64) & 0xFFFF) as u16,
                hi == (handler >> 32u64) as u32,
        ;
    }

    /// The two 64-bit words of the descriptor as the CPU reads them.
    pub fn raw(&self) -> (r: (u64, u64))
        ensures
            r.0 == (self.offset_low as u64) | ((self.selector as u64) << 16u64) | ((self.ist as u64) << 32u64)
                | ((self.type_attr as u64) << 40u64) | ((self.offset_mid as u64) << 48u64),
            r.1 == (self.offset_high as u64) | ((self.reserved as u64) << 32u64),
    {
        (
            (self.offset_low as u64) | ((self.selector as u64) << 16) | ((self.ist as u64) << 32)
                | ((self.type_attr as u64) << 40) | ((self.offset_mid as u64) << 48),
            (self.offset_high as u64) | ((self.reserved as u64) << 32),
        )
    }
}

/// Gate attributes for `vector`: every gate is a ring-0 interrupt gate
/// except the `int 0x80` syscall gate, a ring-3 trap gate.
pub fn gate_attr(vector: u8) -> (a: u8)
    ensures
        a == if vector == SYSCALL_VECTOR { ATTR_USER_TRAP } else { ATTR_INTERRUPT },
{
    if vector == SYSCALL_VECTOR {
        ATTR_USER_TRAP
    } else {
        ATTR_INTERRUPT
    }
}

/// Which stub serves `vector`: the per-vector stubs for 0-47 (CPU exceptions
/// and the remapped PIC lines), the syscall entry for 0x80, and the shared
/// ignore stub for everything else.
#[derive(Clone, Copy, Debug, PartialEq, Eq, Structural)]
pub enum GateStub {
    Vector(u8),
    Syscall,
    Ignore,
}

pub fn gate_stub(vector: u8) -> (s: GateStub)
    ensures
        s == if vector == SYSCALL_VECTOR {
            GateStub::Syscall
        } else if vector < 48 {
            GateStub::Vector(vector)
        } else {
            GateStub::Ignore
        },
{
    if vector == SYSCALL_VECTOR {
        GateStub::Syscall
    } else if vector < 48 {
        GateStub::Vector(vector)
    } else {
        GateStub::Ignore
    }
}

/// CPU exceptions the dispatcher halts on, named as it reports them.
#[derive(Clone, Copy, Debug, PartialEq, Eq, Structural)]
pub enum CpuException {
    DivideByZero,
    Nmi,
    Overflow,
    BoundRange,
    InvalidOpcode,
    DeviceNotAvailable,
    DoubleFault,
    GeneralProtection,
    PageFault,
    Other,
}

impl CpuException {
    pub fn message(&self) -> (m: &'static str)
        ensures
            m@ == match *self {
                CpuException::DivideByZero => "Divide by Zero"@,
                CpuException::Nmi => "NMI"@,
                CpuException::Overflow => "Overflow"@,
                CpuException::BoundRange => "Bound Range"@,
                CpuException::InvalidOpcode => "Invalid Opcode"@,
                CpuException::DeviceNotAvailable => "Device Not Available"@,
                CpuException::DoubleFault => "Double Fault"@,
                CpuException::GeneralProtection => "General Protection Fault"@,
                CpuException::PageFault => "Page Fault"@,
                CpuException::Other => "CPU Exception"@,
            },
    {
        match *self {
            CpuException::DivideByZero => "Divide by Zero",
            CpuException::Nmi => "NMI",
            CpuException::Overflow => "Overflow",
            CpuException::BoundRange => "Bound Range",
            CpuException::InvalidOpcode => "Invalid Opcode",
            CpuException::DeviceNotAvailable => "Device Not Available",
            CpuException::DoubleFault => "Double Fault",
            CpuException::GeneralProtection => "General Protection Fault",
            CpuException::PageFault => "Page Fault",
            CpuException::Other => "CPU Exception",
        }
    }
}

/// The report printed before halting on an exception named `msg`.
pub fn halt_exception(msg: &str) -> (m: Vec<u8>)
    ensures
        m@ == "\n[EXCEPTION] ".spec_bytes() + msg.spec_bytes() + "\n".spec_bytes(),
{
    let mut m: Vec<u8> = Vec::new();
    push_str(&mut m, "\n[EXCEPTION] ");
    push_str(&mut m, msg);
    push_str(&mut m, "\n");
    m
}

/// What the common stub does for a vector.
#[derive(Clone, Copy, Debug, PartialEq, Eq, Structural)]
pub enum Dispatch {
    /// Nothing (debug/breakpoint exceptions, vectors above the PIC range).
    Ignore,
    /// Report the exception and halt.
    Halt(CpuException),
    /// PIT tick: scheduler tick, wake a task waiting for polled input, EOI 0.
    Timer,
    /// PS/2 keyboard: keyboard driver, EOI 1.
    Keyboard,
    /// COM1 receive: serial driver, EOI 4.
    Serial,
    /// Any other PIC line: EOI for that IRQ only.
    Eoi(u8),
}

pub open spec fn dispatch_spec(vector: u8) -> Dispatch {
    if vector == 1 || vector == 3 {
        Dispatch::Ignore
    } else if vector < 32 {
        Dispatch::Halt(
            if vector == 0 {
                CpuException::DivideByZero
            } else if vector == 2 {
                CpuException::Nmi
            } else if vector == 4 {
                CpuException::Overflow
            } else if vector == 5 {
                CpuException::BoundRange
            } else if vector == 6 {
                CpuException::InvalidOpcode
            } else if vector == 7 {
                CpuException::DeviceNotAvailable
            } else if vector == 8 {
                CpuException::DoubleFault
            } else if vector == 13 {
                CpuException::GeneralProtection
            } else if vector == 14 {
                CpuException::PageFault
            } else {
                CpuException::Other
            },
        )
    } else if vector == 32 {
        Dispatch::Timer
    } else if vector == 33 {
        Dispatch::Keyboard
    } else if vector == 36 {
        Dispatch::Serial
    } else if vector <= 47 {
        Dispatch::Eoi((vector - 32) as u8)
    } else {
        Dispatch::Ignore
    }
}

/// Decide what to do for interrupt `vector`.
pub fn common_dispatch(vector: u8) -> (d: Dispatch)
    ensures
        d == dispatch_spec(vector),
{
    match vector {
        0 => Dispatch::Halt(CpuException::DivideByZero),
        1 => Dispatch::Ignore,
        2 => Dispatch::Halt(CpuException::Nmi),
        3 => Dispatch::Ignore,
        4 => Dispatch::Halt(CpuException::Overflow),
        5 => Dispatch::Halt(CpuException::BoundRange),
        6 => Dispatch::Halt(CpuException::InvalidOpcode),
        7 => Dispatch::Halt(CpuException::DeviceNotAvailable),
        8 => Dispatch::Halt(CpuException::DoubleFault),
        13 => Dispatch::Halt(CpuException::GeneralProtection),
        14 => Dispatch::Halt(CpuException::PageFault),
        0..=31 => Dispatch::Halt(CpuException::Other),
        32 => Dispatch::Timer,
        33 => Dispatch::Keyboard,
        36 => Dispatch::Serial,
        34..=47 => Dispatch::Eoi(vector - 32),
        _ => Dispatch::Ignore,
    }
}

/// Every remapped PIC line (vectors 32-47) is acknowledged for exactly its
/// own IRQ number, and no other vector acknowledges a PIC line.
pub proof fn pic_vectors_acknowledge_their_irq(vector: u8)
    ensures
        32 <= vector <= 47 ==> match dispatch_spec(vector) {
            Dispatch::Timer => vector - 32 == 0,
            Dispatch::Keyboard => vector - 32 == 1,
            Dispatch::Serial => vector - 32 == 4,
            Dispatch::Eoi(irq) => irq == vector - 32,
            _ => false,
        },
        !(32 <= vector <= 47) ==> match dispatch_spec(vector) {
            Dispatch::Timer | Dispatch::Keyboard | Dispatch::Serial | Dispatch::Eoi(_) => false,
            _ => true,
        },
{
}

/// Whether a #PF error code says the fault came from user mode (bit 2).
pub fn page_fault_from_user(error_code: u64) -> (r: bool)
    ensures
        r == (error_code & 4 != 0),
{
    error_code & 4 != 0
}

/// Whether the faulting CS of a #GP frame is a ring-3 selector.
pub fn fault_from_user(cs: u64) -> (r: bool)
    ensures
        r == (cs & 3 == 3),
{
    cs & 3 == 3
}

/// General registers the #GP entry stub pushes (r15 lowest).
#[derive(Clone, Copy, PartialEq, Eq, Structural, Debug)]
pub struct SavedGprs {
    pub r15: u64,
    pub r14: u64,
    pub r13: u64,
    pub r12: u64,
    pub r11: u64,
    pub r10: u64,
    pub r9: u64,
    pub r8: u64,
    pub rbp: u64,
    pub rdi: u64,
    pub rsi: u64,
    pub rdx: u64,
    pub rcx: u64,
    pub rbx: u64,
    pub rax: u64,
}

/// The #GP report: error code, RIP and CS, then every general register.
pub open spec fn gpf_report_bytes(error_code: u64, rip: u64, cs: u64, g: SavedGprs) -> Seq<u8> {
    field("\n[#GP] err=0x", error_code) + field(" rip=0x", rip) + field(" cs=0x", cs) + field("\n  rax=0x", g.rax)
        + field(" rbx=0x", g.rbx) + field(" rcx=0x", g.rcx) + field(" rdx=0x", g.rdx) + field("\n  rsi=0x", g.rsi)
        + field(" rdi=0x", g.rdi) + field(" rbp=0x", g.rbp) + field("\n  r8=0x", g.r8) + field(" r9=0x", g.r9) + field(
        " r10=0x",
        g.r10,
    ) + field(" r11=0x", g.r11) + field("\n  r12=0x", g.r12) + field(" r13=0x", g.r13) + field(" r14=0x", g.r14)
        + field(" r15=0x", g.r15) + "\n".spec_bytes()
}

pub fn gpf_report(error_code: u64, rip: u64, cs: u64, g: &SavedGprs) -> (m: Vec<u8>)
    ensures
        m@ == gpf_report_bytes(error_code, rip, cs, *g),
{
    let mut m: Vec<u8> = Vec::new();
    push_field(&mut m, "\n[#GP] err=0x", error_code);
    push_field(&mut m, " rip=0x", rip);
    push_field(&mut m, " cs=0x", cs);
    push_field(&mut m, "\n  rax=0x", g.rax);
    push_field(&mut m, " rbx=0x", g.rbx);
    push_field(&mut m, " rcx=0x", g.rcx);
    push_field(&mut m, " rdx=0x", g.rdx);
    push_field(&mut m, "\n  rsi=0x", g.rsi);
    push_field(&mut m, " rdi=0x", g.rdi);
    push_field(&mut m, " rbp=0x", g.rbp);
    push_field(&mut m, "\n  r8=0x", g.r8);
    push_field(&mut m, " r9=0x", g.r9);
    push_field(&mut m, " r10=0x", g.r10);
    push_field(&mut m, " r11=0x", g.r11);
    push_field(&mut m, "\n  r12=0x", g.r12);
    push_field(&mut m, " r13=0x", g.r13);
    push_field(&mut m, " r14=0x", g.r14);
    push_field(&mut m, " r15=0x", g.r15);
    push_str(&mut m, "\n");
    m
}

/// A #GP from ring 3 also dumps the user stack and kills the task (exit
/// status 139); in the kernel it halts.
pub fn gpf_from_user(cs: u64) -> (r: bool)
    ensures
        r == (cs & 3 == 3),
{
    cs & 3 == 3
}

/// Line `i` (0-3) of the user-stack dump: the word at `rsp + 8i`.
pub fn stack_dump_line(i: u64, value: u64) -> (m: Vec<u8>)
    requires
        i < 4,
    ensures
        m@ == "  [rsp".spec_bytes() + field("+", (i * 8) as u64) + field("]=0x", value) + "\n".spec_bytes(),
{
    let mut m: Vec<u8> = Vec::new();
    push_str(&mut m, "  [rsp");
    push_field(&mut m, "+", i * 8);
    push_field(&mut m, "]=0x", value);
    push_str(&mut m, "\n");
    m
}

/// The user stack pointer line of the dump.
pub fn user_rsp_line(user_rsp: u64) -> (m: Vec<u8>)
    ensures
        m@ == field("  user_rsp=0x", user_rsp) + "\n".spec_bytes(),
{
    let mut m: Vec<u8> = Vec::new();
    push_field(&mut m, "  user_rsp=0x", user_rsp);
    push_str(&mut m, "\n");
    m
}

/// When the word at the user stack pointer is non-zero it is followed as a
/// pointer: its line, then one per word `fa[+8i]`.
pub fn fa_line(fa: u64) -> (m: Vec<u8>)
    ensures
        m@ == field("  fa=0x", fa) + "\n".spec_bytes(),
{
    let mut m: Vec<u8> = Vec::new();
    push_field(&mut m, "  fa=0x", fa);
    push_str(&mut m, "\n");
    m
}

pub fn fa_dump_line(i: u64, value: u64) -> (m: Vec<u8>)
    requires
        i < 4,
    ensures
        m@ == field("  fa[+", (i * 8) as u64) + field("]=0x", value) + "\n".spec_bytes(),
{
    let mut m: Vec<u8> = Vec::new();
    push_field(&mut m, "  fa[+", i * 8);
    push_field(&mut m, "]=0x", value);
    push_str(&mut m, "\n");
    m
}

/// How a #GP ends: a fault in user mode kills the task (exit status 139), a
/// fault in the kernel halts.
#[derive(Clone, Copy, PartialEq, Eq, Structural, Debug)]
pub enum GpfAction {
    KillTask,
    Halt,
}

/// What the #GP handler prints and then does.
pub struct GpfDecision {
    pub report: Vec<u8>,
    pub action: GpfAction,
}

pub open spec fn rsp_line_bytes(i: u64, value: u64) -> Seq<u8> {
    "  [rsp".spec_bytes() + field("+", (i * 8) as u64) + field("]=0x", value) + "\n".spec_bytes()
}

pub open spec fn fa_line_bytes(i: u64, value: u64) -> Seq<u8> {
    field("  fa[+", (i * 8) as u64) + field("]=0x", value) + "\n".spec_bytes()
}

/// The user-stack dump of a #GP from ring 3: the user stack pointer, the
/// four words at `user_rsp`, and, when the first of them is non-zero, that
/// word followed as a pointer and the four words it points at.
pub open spec fn gpf_user_dump(user_rsp: u64, st: [u64; 4], fa: [u64; 4]) -> Seq<u8> {
    field("  user_rsp=0x", user_rsp) + "\n".spec_bytes() + rsp_line_bytes(0, st[0]) + rsp_line_bytes(1, st[1])
        + rsp_line_bytes(2, st[2]) + rsp_line_bytes(3, st[3]) + if st[0] != 0 {
        field("  fa=0x", st[0]) + "\n".spec_bytes() + fa_line_bytes(0, fa[0]) + fa_line_bytes(1, fa[1])
            + fa_line_bytes(2, fa[2]) + fa_line_bytes(3, fa[3])
    } else {
        Seq::empty()
    }
}

/// The user-stack dump (see `gpf_user_dump`).
pub fn gpf_dump(user_rsp: u64, st: [u64; 4], fa: [u64; 4]) -> (m: Vec<u8>)
    ensures
        m@ == gpf_user_dump(user_rsp, st, fa),
{
    let mut m = user_rsp_line(user_rsp);
    let mut l = stack_dump_line(0, st[0]);
    m.append(&mut l);
    let mut l = stack_dump_line(1, st[1]);
    m.append(&mut l);
    let mut l = stack_dump_line(2, st[2]);
    m.append(&mut l);
    let mut l = stack_dump_line(3, st[3]);
    m.append(&mut l);
    let ghost a = m@;
    assert(a =~= field("  user_rsp=0x", user_rsp) + "\n".spec_bytes() + rsp_line_bytes(0, st[0]) + rsp_line_bytes(1, st[1])
        + rsp_line_bytes(2, st[2]) + rsp_line_bytes(3, st[3]));
    if st[0] != 0 {
        let mut f = fa_line(st[0]);
        let mut l = fa_dump_line(0, fa[0]);
        f.append(&mut l);
        let mut l = fa_dump_line(1, fa[1]);
        f.append(&mut l);
        let mut l = fa_dump_line(2, fa[2]);
        f.append(&mut l);
        let mut l = fa_dump_line(3, fa[3]);
        f.append(&mut l);
        assert(f@ =~= field("  fa=0x", st[0]) + "\n".spec_bytes() + fa_line_bytes(0, fa[0]) + fa_line_bytes(1, fa[1])
            + fa_line_bytes(2, fa[2]) + fa_line_bytes(3, fa[3]));
        m.append(&mut f);
    } else {
        assert(m@ =~= m@ + Seq::<u8>::empty());
    }
    m
}

/// The #GP handler's decision. `cs` is the faulting code segment; from ring
/// 3 (`cs & 3 == 3`) the report goes on with the user-stack dump, given the
/// stack pointer `user_rsp`, the words `st` at it and the words `fa` at the
/// first of them (read only when that word is non-zero), and the task is
/// killed; from the kernel the report is the registers alone and the CPU
/// halts.
pub fn gpf_decide(
    error_code: u64,
    rip: u64,
    cs: u64,
    g: &SavedGprs,
    user_rsp: u64,
    st: [u64; 4],
    fa: [u64; 4],
) -> (d: GpfDecision)
    ensures
        cs & 3 == 3 ==> d.action == GpfAction::KillTask && d.report@ == gpf_report_bytes(error_code, rip, cs, *g)
            + gpf_user_dump(user_rsp, st, fa),
        cs & 3 != 3 ==> d.action == GpfAction::Halt && d.report@ == gpf_report_bytes(error_code, rip, cs, *g),
{
    let mut m = gpf_report(error_code, rip, cs, g);
    if !gpf_from_user(cs) {
        return GpfDecision { report: m, action: GpfAction::Halt };
    }
    let mut d = gpf_dump(user_rsp, st, fa);
    m.append(&mut d);
    GpfDecision { report: m, action: GpfAction::KillTask }
}

/// General registers the #PF entry stub saves.
#[derive(Clone, Copy, PartialEq, Eq, Structural, Debug)]
pub struct PfSavedGprs {
    pub r15: u64,
    pub r14: u64,
    pub r13: u64,
    pub r12: u64,
    pub r11: u64,
    pub r10: u64,
    pub r9: u64,
    pub r8: u64,
    pub rbp: u64,
    pub rdi: u64,
    pub rsi: u64,
    pub rbx: u64,
    pub rax: u64,
}

/// How a page fault ends.
#[derive(Clone, Copy, PartialEq, Eq, Structural, Debug)]
pub enum PageFaultOutcome {
    /// Kernel-mode fault: report and halt.
    KernelPanic,
    /// The scheduler mapped the page: retry the instruction.
    Retry,
    /// Unresolvable user fault: report, then exit the task with status 139.
    Kill,
}

/// Given the error code (bit 2: user mode) and, for a user fault, whether
/// the scheduler resolved it.
pub fn page_fault_outcome(error_code: u64, resolved: bool) -> (o: PageFaultOutcome)
    ensures
        o == if error_code & 4 == 0 {
            PageFaultOutcome::KernelPanic
        } else if resolved {
            PageFaultOutcome::Retry
        } else {
            PageFaultOutcome::Kill
        },
{
    if error_code & 4 == 0 {
        PageFaultOutcome::KernelPanic
    } else if resolved {
        PageFaultOutcome::Retry
    } else {
        PageFaultOutcome::Kill
    }
}

/// Report of an unresolvable user page fault: address, error code, RIP, the
/// FS base and the word it points at, then the saved registers.
pub open spec fn pf_report_bytes(va: u64, error_code: u64, rip: u64, fs_base: u64, fs_word: u64, g: PfSavedGprs) -> Seq<u8> {
    field("[#PF] va=0x", va) + field(" err=0x", error_code) + field(" rip=0x", rip) + field(" fs_base=0x", fs_base)
        + field(" *fs_base=0x", fs_word) + "\n".spec_bytes() + field("  rax=0x", g.rax) + field(" rbx=0x", g.rbx)
        + field(" rsi=0x", g.rsi) + field(" rdi=0x", g.rdi) + field("\n  rbp=0x", g.rbp) + field(" r8=0x", g.r8)
        + field(" r9=0x", g.r9) + field(" r10=0x", g.r10) + field("\n  r11=0x", g.r11) + field(" r12=0x", g.r12)
        + field(" r13=0x", g.r13) + field(" r14=0x", g.r14) + field(" r15=0x", g.r15) + "\n".spec_bytes()
}

pub fn pf_report(va: u64, error_code: u64, rip: u64, fs_base: u64, fs_word: u64, g: &PfSavedGprs) -> (m: Vec<u8>)
    ensures
        m@ == pf_report_bytes(va, error_code, rip, fs_base, fs_word, *g),
{
    let mut m: Vec<u8> = Vec::new();
    push_field(&mut m, "[#PF] va=0x", va);
    push_field(&mut m, " err=0x", error_code);
    push_field(&mut m, " rip=0x", rip);
    push_field(&mut m, " fs_base=0x", fs_base);
    push_field(&mut m, " *fs_base=0x", fs_word);
    push_str(&mut m, "\n");
    push_field(&mut m, "  rax=0x", g.rax);
    push_field(&mut m, " rbx=0x", g.rbx);
    push_field(&mut m, " rsi=0x", g.rsi);
    push_field(&mut m, " rdi=0x", g.rdi);
    push_field(&mut m, "\n  rbp=0x", g.rbp);
    push_field(&mut m, " r8=0x", g.r8);
    push_field(&mut m, " r9=0x", g.r9);
    push_field(&mut m, " r10=0x", g.r10);
    push_field(&mut m, "\n  r11=0x", g.r11);
    push_field(&mut m, " r12=0x", g.r12);
    push_field(&mut m, " r13=0x", g.r13);
    push_field(&mut m, " r14=0x", g.r14);
    push_field(&mut m, " r15=0x", g.r15);
    push_str(&mut m, "\n");
    m
}

/// User callee-saved registers captured at the last SYSCALL entry.
#[derive(Clone, Copy, PartialEq, Eq, Structural, Debug)]
pub struct SyscallUserRegs {
    pub rbx: u64,
    pub rbp: u64,
    pub r12: u64,
    pub r13: u64,
    pub r14: u64,
    pub r15: u64,
}

/// `[rbx, rbp, r12, r13, r14, r15]`, as fork hands them to the child.
pub fn callee_saved_snapshot(r: &SyscallUserRegs) -> (s: [u64; 6])
    ensures
        s@ == seq![r.rbx, r.rbp, r.r12, r.r13, r.r14, r.r15],
{
    let s = [r.rbx, r.rbp, r.r12, r.r13, r.r14, r.r15];
    assert(s@ =~= seq![r.rbx, r.rbp, r.r12, r.r13, r.r14, r.r15]);
    s
}

/// The frame `iretq` returns through after `int 0x80`.
#[derive(Clone, Copy, PartialEq, Eq, Structural, Debug)]
pub struct IretFrame {
    pub rip: u64,
    pub cs: u64,
    pub rflags: u64,
    pub rsp: u64,
    pub ss: u64,
}

/// After a system call through `int 0x80`: when it was an `execve` (`exec`
/// holds the new program's entry point, stack pointer and page table), the
/// return goes to the new program on its stack, and the page table to load
/// into CR3 comes back; otherwise nothing changes.
pub fn apply_exec_redirect(frame: &mut IretFrame, exec: Option<(u64, u64, u64)>) -> (cr3: Option<u64>)
    ensures
        match exec {
            Some((ip, sp, pt)) => *final(frame) == (IretFrame { rip: ip, rsp: sp, ..*old(frame) }) && cr3 == Some(pt),
            None => *final(frame) == *old(frame) && cr3 is None,
        },
{
    match exec {
        Some((ip, sp, pt)) => {
            frame.rip = ip;
            frame.rsp = sp;
            Some(pt)
        },
        None => None,
    }
}

/// The same for the SYSCALL path, whose return state is the saved RCX (the
/// user RIP `sysretq` resumes at) and the saved user stack pointer.
pub fn apply_exec_redirect_syscall(saved_rcx: &mut u64, user_rsp: &mut u64, exec: Option<(u64, u64, u64)>) -> (cr3:
    Option<u64>)
    ensures
        match exec {
            Some((ip, sp, pt)) => *final(saved_rcx) == ip && *final(user_rsp) == sp && cr3 == Some(pt),
            None => *final(saved_rcx) == *old(saved_rcx) && *final(user_rsp) == *old(user_rsp) && cr3 is None,
        },
{
    match exec {
        Some((ip, sp, pt)) => {
            *saved_rcx = ip;
            *user_rsp = sp;
            Some(pt)
        },
        None => None,
    }
}

/// The descriptor entering `handler` through the kernel code selector, IST index 0.
pub open spec fn gate_entry(handler: u64, attr: u8) -> IdtEntry {
    IdtEntry {
        offset_low: (handler & 0xFFFF) as u16,
        selector: 0x08,
        ist: 0,
        type_attr: attr,
        offset_mid: ((handler >> 16u64) & 0xFFFF) as u16,
        offset_high: (handler >> 32u64) as u32,
        reserved: 0,
    }
}

/// The stub address that serves vector `v`, given the 48 per-vector stubs,
/// the syscall entry and the shared ignore stub.
pub open spec fn stub_address(v: int, stubs: Seq<u64>, syscall: u64, ignore: u64) -> u64 {
    if v == SYSCALL_VECTOR as int {
        syscall
    } else if v < 48 {
        stubs[v]
    } else {
        ignore
    }
}

/// Build the 256-gate IDT: vectors 0-47 enter their own stubs (`stubs`),
/// 0x80 the syscall entry as a ring-3 trap gate, the rest the ignore stub;
/// all on the kernel code selector. The caller loads it with `lidt`.
pub fn init(stubs: &Vec<u64>, syscall: u64, ignore: u64) -> (idt: Vec<IdtEntry>)
    requires
        stubs@.len() == 48,
    ensures
        idt@.len() == 256,
        forall|v: int| 0 <= v < 256 ==> #[trigger] idt@[v] == gate_entry(
            stub_address(v, stubs@, syscall, ignore),
            if v == SYSCALL_VECTOR as int { ATTR_USER_TRAP } else { ATTR_INTERRUPT },
        ),
{
    let mut idt: Vec<IdtEntry> = Vec::new();
    let mut v: usize = 0;
    while v < 256
        invariant
            0 <= v <= 256,
            stubs@.len() == 48,
            idt@.len() == v,
            forall|k: int| 0 <= k < v ==> #[trigger] idt@[k] == gate_entry(
                stub_address(k, stubs@, syscall, ignore),
                if k == SYSCALL_VECTOR as int { ATTR_USER_TRAP } else { ATTR_INTERRUPT },
            ),
        decreases 256 - v,
    {
        let handler = match gate_stub(v as u8) {
            GateStub::Syscall => syscall,
            GateStub::Vector(n) => stubs[n as usize],
            GateStub::Ignore => ignore,
        };
        let mut e = IdtEntry::missing();
        e.set(handler, 0x08, 0, gate_attr(v as u8));
        idt.push(e);
        v = v + 1;
    }
    idt
}

} // verus!

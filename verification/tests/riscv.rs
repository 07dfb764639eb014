use ferrugem::arch::riscv64::trap::{
    classify, trap_handler, finish_syscall, page_fault_outcome, kernel_fault_message, unhandled_message,
    next_timer, from_user, TrapFrame, TrapKind, TrapAction, FaultOutcome,
};
use ferrugem::arch::riscv64::plic::{init as plic_init, handle as plic_handle, priority_reg, enable_reg, claim_reg};
use ferrugem::arch::riscv64::fdt::parse_memory_map;
use ferrugem::arch::riscv64::{interrupts_init, early_init, set_kernel_stack};
use ferrugem::arch::riscv64::console::print_str;
use ferrugem::boards::qemu_virt_riscv64::sbi::{putchar, set_timer, hart_start, hart_start_result, SbiCall, SbiRet};
use ferrugem::memory::mmap::{MemRegion, RegionKind};
use ferrugem::mmio::MmioWrite;

fn frame() -> TrapFrame {
    TrapFrame {
        ra: 1, sp: 0x8000, gp: 3, tp: 4, t0: 5, t1: 6, t2: 7, s0: 8, s1: 9,
        a0: 10, a1: 11, a2: 12, a3: 13, a4: 14, a5: 15, a6: 16, a7: 64,
        s2: 18, s3: 19, s4: 20, s5: 21, s6: 22, s7: 23, s8: 24, s9: 25, s10: 26, s11: 27,
        t3: 28, t4: 29, t5: 30, t6: 31, sepc: 0x1_0000_1000, sstatus: 0,
    }
}

#[test]
fn classify_decodes_scause() {
    assert_eq!(classify(0x8000_0000_0000_0005), TrapKind::Timer);
    assert_eq!(classify(0x8000_0000_0000_0009), TrapKind::External);
    assert_eq!(classify(0x8000_0000_0000_0001), TrapKind::OtherInterrupt);
    assert_eq!(classify(8), TrapKind::Syscall);
    assert_eq!(classify(9), TrapKind::SupervisorEcall);
    assert_eq!(classify(12), TrapKind::PageFault);
    assert_eq!(classify(13), TrapKind::PageFault);
    assert_eq!(classify(15), TrapKind::PageFault);
    assert_eq!(classify(2), TrapKind::Unhandled);
}

#[test]
fn syscall_trap_reports_arguments_and_return_pc() {
    let mut f = frame();
    let a = trap_handler(&mut f, 8);
    assert_eq!(
        a,
        TrapAction::Syscall {
            nr: 64, a0: 10, a1: 11, a2: 12, a3: 13, a4: 14, a5: 15,
            return_pc: 0x1_0000_1004, user_sp: 0x8000,
        }
    );
    assert_eq!(f, frame());
}

#[test]
fn supervisor_ecall_skips_instruction() {
    let mut f = frame();
    assert_eq!(trap_handler(&mut f, 9), TrapAction::Resume);
    assert_eq!(f.sepc, 0x1_0000_1004);
}

#[test]
fn page_fault_trap_tells_user_from_kernel() {
    let mut f = frame();
    assert_eq!(trap_handler(&mut f, 13), TrapAction::PageFault { from_user: true });
    f.sstatus = 0x100;
    assert_eq!(trap_handler(&mut f, 13), TrapAction::PageFault { from_user: false });
    assert!(from_user(0));
    assert!(!from_user(0x100));
    assert_eq!(trap_handler(&mut f, 0x8000_0000_0000_0005), TrapAction::TickAndRearm);
    assert_eq!(trap_handler(&mut f, 0x8000_0000_0000_0009), TrapAction::ServicePlic);
    assert_eq!(trap_handler(&mut f, 3), TrapAction::Fatal);
}

#[test]
fn finish_syscall_returns_or_execs() {
    let mut f = frame();
    assert_eq!(finish_syscall(&mut f, 42, None), None);
    assert_eq!(f.a0, 42);
    assert_eq!(f.sepc, 0x1_0000_1004);
    assert_eq!(f.sp, 0x8000);
    let mut g = frame();
    assert_eq!(finish_syscall(&mut g, 0, Some((0x1_0000_1000, 0x1_0001_0000, 0x9000))), Some(0x9000));
    assert_eq!(g.sepc, 0x1_0000_1000);
    assert_eq!(g.sp, 0x1_0001_0000);
    assert_eq!(g.a0, 0);
}

#[test]
fn fault_outcomes() {
    assert_eq!(page_fault_outcome(true, true), FaultOutcome::Retry);
    assert_eq!(page_fault_outcome(true, false), FaultOutcome::Kill);
    assert_eq!(page_fault_outcome(false, true), FaultOutcome::Panic);
    assert_eq!(page_fault_outcome(false, false), FaultOutcome::Panic);
}

#[test]
fn trap_messages() {
    assert_eq!(
        kernel_fault_message(0x8020_0000, 0x10),
        b"[TRAP] kernel page fault sepc=0x0000000080200000 stval=0x0000000000000010\n".to_vec()
    );
    assert_eq!(
        unhandled_message(2, 0xABC, 0),
        b"[TRAP] unhandled exception cause=2 sepc=0x0000000000000abc stval=0x0000000000000000\n".to_vec()
    );
}

#[test]
fn timer_and_interrupt_bring_up() {
    assert_eq!(next_timer(1000), 101_000);
    let s = interrupts_init(0x1, 500);
    assert_eq!(
        s.plic,
        vec![
            MmioWrite { addr: 0x0C00_0028, value: 1 },
            MmioWrite { addr: 0x0C00_2080, value: 0x401 },
            MmioWrite { addr: 0x0C20_1000, value: 0 },
        ]
    );
    assert_eq!(s.sstatus_set, 0x4_0002);
    assert_eq!(s.sie_set, 0x220);
    assert_eq!(s.first_timer, SbiCall { ext: 0x54494D45, fid: 0, a0: 100_500, a1: 0, a2: 0 });
    assert_eq!(early_init(0x8020_0100), 0x8020_0100);
    assert_eq!(set_kernel_stack(0x8040_0000), 0x8040_0000);
}

#[test]
fn plic_registers() {
    assert_eq!(priority_reg(10), 0x0C00_0028);
    assert_eq!(enable_reg(1, 10), 0x0C00_2080);
    assert_eq!(enable_reg(1, 40), 0x0C00_2084);
    assert_eq!(claim_reg(1), 0x0C20_1004);
    assert_eq!(plic_init(0).len(), 3);
    let (_, done) = plic_handle(10);
    assert_eq!(done, MmioWrite { addr: 0x0C20_1004, value: 10 });
}

#[test]
fn sbi_calls() {
    assert_eq!(putchar(b'A'), SbiCall { ext: 1, fid: 0, a0: 0x41, a1: 0, a2: 0 });
    assert_eq!(set_timer(7), SbiCall { ext: 0x54494D45, fid: 0, a0: 7, a1: 0, a2: 0 });
    assert_eq!(hart_start(1, 0x8000_0000, 5), SbiCall { ext: 0x48534D, fid: 0, a0: 1, a1: 0x8000_0000, a2: 5 });
    assert_eq!(hart_start_result(SbiRet { error: -3, value: 0 }), -3);
    let calls = print_str(b"hi");
    assert_eq!(calls.len(), 2);
    assert_eq!(calls[1].a0, b'i' as u64);
}

fn be32(v: u32) -> [u8; 4] {
    v.to_be_bytes()
}

fn push_name(out: &mut Vec<u8>, name: &[u8]) {
    out.extend_from_slice(name);
    out.push(0);
    while out.len() % 4 != 0 {
        out.push(0);
    }
}

/// A tree with a root carrying `#address-cells`/`#size-cells` of `cells`,
/// and a `memory@80000000` node whose `reg` holds `reg`.
fn blob(cells: u32, reg: &[u8]) -> Vec<u8> {
    let strings: Vec<u8> = b"#address-cells\0#size-cells\0reg\0".to_vec();
    let mut st: Vec<u8> = Vec::new();
    st.extend_from_slice(&be32(1));
    push_name(&mut st, b"");
    st.extend_from_slice(&be32(3));
    st.extend_from_slice(&be32(4));
    st.extend_from_slice(&be32(0));
    st.extend_from_slice(&be32(cells));
    st.extend_from_slice(&be32(3));
    st.extend_from_slice(&be32(4));
    st.extend_from_slice(&be32(15));
    st.extend_from_slice(&be32(cells));
    st.extend_from_slice(&be32(1));
    push_name(&mut st, b"memory@80000000");
    st.extend_from_slice(&be32(3));
    st.extend_from_slice(&be32(reg.len() as u32));
    st.extend_from_slice(&be32(27));
    st.extend_from_slice(reg);
    while st.len() % 4 != 0 {
        st.push(0);
    }
    st.extend_from_slice(&be32(2));
    st.extend_from_slice(&be32(2));
    st.extend_from_slice(&be32(9));
    let off_struct = 40u32;
    let off_strings = off_struct + st.len() as u32;
    let total = off_strings + strings.len() as u32;
    let mut out: Vec<u8> = Vec::new();
    for v in [0xd00dfeed, total, off_struct, off_strings, 40, 17, 16, 0, strings.len() as u32, st.len() as u32] {
        out.extend_from_slice(&be32(v));
    }
    out.extend_from_slice(&st);
    out.extend_from_slice(&strings);
    out
}

#[test]
fn fdt_memory_node_with_two_cells() {
    let mut reg: Vec<u8> = Vec::new();
    reg.extend_from_slice(&0x8000_0000u64.to_be_bytes());
    reg.extend_from_slice(&0x4000_0000u64.to_be_bytes());
    let map = parse_memory_map(&blob(2, &reg));
    assert_eq!(map.regions, vec![MemRegion { base: 0x8000_0000, size: 0x4000_0000, kind: RegionKind::Usable }]);
}

#[test]
fn fdt_memory_node_with_one_cell_and_two_banks() {
    let mut reg: Vec<u8> = Vec::new();
    for v in [0x8000_0000u32, 0x1000_0000, 0x9000_0000, 0x2000_0000] {
        reg.extend_from_slice(&v.to_be_bytes());
    }
    let map = parse_memory_map(&blob(1, &reg));
    assert_eq!(
        map.regions,
        vec![
            MemRegion { base: 0x8000_0000, size: 0x1000_0000, kind: RegionKind::Usable },
            MemRegion { base: 0x9000_0000, size: 0x2000_0000, kind: RegionKind::Usable },
        ]
    );
}

#[test]
fn fdt_without_magic_falls_back() {
    let mut b = blob(2, &[0u8; 16]);
    b[0] = 0;
    let map = parse_memory_map(&b);
    assert_eq!(map.regions, vec![MemRegion { base: 0x8000_0000, size: 128 * 1024 * 1024, kind: RegionKind::Usable }]);
    let short = parse_memory_map(&[0xd0, 0x0d]);
    assert_eq!(short.regions.len(), 1);
}

#[test]
fn fdt_with_empty_reg_falls_back() {
    let map = parse_memory_map(&blob(2, &[]));
    assert_eq!(map.regions, vec![MemRegion { base: 0x8000_0000, size: 0x800_0000, kind: RegionKind::Usable }]);
}

use ferrugem::arch::{
    name, console_clear, console_print_str, set_kernel_stack, user_callee_saved_snapshot, save_and_disable_interrupts,
    read_fs_base, write_fs_base, flush_tlb_page, entropy_seed, task_init_stack, task_init_userspace_stack,
    switch_address_space, Arch, ConsoleClear, ConsoleOut, EarlyConsole, KernelStack, ENTROPY_MUL,
};
use ferrugem::arch::x86_64::gdt::Tss;
use ferrugem::arch::x86_64::idt::SyscallUserRegs;
use ferrugem::boards::qemu_pc::console::Console;
use ferrugem::boards::virtualbox::multiboot::{parse_memory_map, mmap_location, parse_mmap_entries};
use ferrugem::memory::mmap::{MemRegion, MemoryMap, RegionKind};
use ferrugem::mmio::MmioWrite;
use ferrugem::text::{hex16, hex8, dec, push_field, push_str};
use ferrugem::bytes::{read_be32, read_be64, read_le16, read_le32, read_le64};

#[test]
fn arch_names_and_clear() {
    assert_eq!(name(Arch::X86_64), "x86_64");
    assert_eq!(name(Arch::Riscv64), "riscv64");
    assert_eq!(name(Arch::Aarch64), "aarch64");
    assert!(matches!(console_clear(Arch::X86_64), ConsoleClear::Vga));
    match console_clear(Arch::Riscv64) {
        ConsoleClear::Ansi(b) => assert_eq!(b, b"\x1b[2J\x1b[H".to_vec()),
        ConsoleClear::Vga => panic!("serial console expected"),
    }
}

#[test]
fn early_console_per_port() {
    let mut sbi = EarlyConsole::Sbi;
    match console_print_str(&mut sbi, b"ab") {
        ConsoleOut::Sbi(calls) => {
            assert_eq!(calls.len(), 2);
            assert_eq!(calls[0].a0, 0x61);
            assert_eq!(calls[0].ext, 1);
        },
        _ => panic!("SBI calls expected"),
    }
    let mut uart = EarlyConsole::Pl011 { base: 0x0900_0000 };
    match console_print_str(&mut uart, b"z") {
        ConsoleOut::Uart(w) => assert_eq!(w, vec![MmioWrite { addr: 0x0900_0000, value: 0x7a }]),
        _ => panic!("UART stores expected"),
    }
    let mut vga = EarlyConsole::Vga(Console::new());
    match console_print_str(&mut vga, b"hi\n") {
        ConsoleOut::Vga { serial, redraw } => {
            assert_eq!(serial, b"hi\r\n".to_vec());
            assert!(redraw);
        },
        _ => panic!("VGA output expected"),
    }
}

#[test]
fn kernel_stack_slots() {
    let mut x = KernelStack::X86_64 { tss: Tss::new(), syscall_rsp: 0 };
    set_kernel_stack(&mut x, 0xffff_8000_0010_0000);
    match x {
        KernelStack::X86_64 { tss, syscall_rsp } => {
            assert_eq!(tss.rsp0, 0xffff_8000_0010_0000);
            assert_eq!(syscall_rsp, 0xffff_8000_0010_0000);
            assert_eq!(tss.iomap_base, 104);
        },
        _ => panic!(),
    }
    let mut r = KernelStack::Riscv64 { sscratch: 0 };
    set_kernel_stack(&mut r, 0x8040_0000);
    assert!(matches!(r, KernelStack::Riscv64 { sscratch: 0x8040_0000 }));
    let mut a = KernelStack::Aarch64 { tpidr: 0 };
    set_kernel_stack(&mut a, 0x4100_0000);
    assert!(matches!(a, KernelStack::Aarch64 { tpidr: 0x4100_0000 }));
}

#[test]
fn register_helpers() {
    let regs = SyscallUserRegs { rbx: 1, rbp: 2, r12: 3, r13: 4, r14: 5, r15: 6 };
    assert_eq!(user_callee_saved_snapshot(Arch::X86_64, &regs), [1, 2, 3, 4, 5, 6]);
    assert_eq!(user_callee_saved_snapshot(Arch::Riscv64, &regs), [0; 6]);
    assert!(save_and_disable_interrupts(Arch::X86_64, 0x202));
    assert!(!save_and_disable_interrupts(Arch::X86_64, 0x2));
    assert!(save_and_disable_interrupts(Arch::Riscv64, 0x2));
    assert!(!save_and_disable_interrupts(Arch::Riscv64, 0x0));
    assert!(save_and_disable_interrupts(Arch::Aarch64, 0x0));
    assert!(!save_and_disable_interrupts(Arch::Aarch64, 0x80));
    assert_eq!(read_fs_base(Arch::X86_64, 0x1000, 0x7f), 0x7f_0000_1000);
    assert_eq!(read_fs_base(Arch::Riscv64, 0x1000, 0x7f), 0);
    assert_eq!(write_fs_base(Arch::X86_64, 0x7f_0000_1000), Some((0x1000, 0x7f)));
    assert_eq!(write_fs_base(Arch::Aarch64, 0x7f_0000_1000), None);
    assert_eq!(flush_tlb_page(Arch::X86_64, 0x40_1000), 0x40_1000);
    assert_eq!(flush_tlb_page(Arch::Aarch64, 0x40_1000), 0x401);
    assert_eq!(switch_address_space(Arch::Riscv64, 0x8020_0000), 0x8000_0000_0008_0200);
    assert_eq!(switch_address_space(Arch::X86_64, 0x9000), 0x9000);
}

#[test]
fn entropy_mix() {
    assert_eq!(entropy_seed(Arch::Riscv64, 1), ENTROPY_MUL);
    assert_eq!(entropy_seed(Arch::Aarch64, 2), ENTROPY_MUL.wrapping_mul(2));
    assert_eq!(entropy_seed(Arch::X86_64, 1), ENTROPY_MUL.rotate_right(17));
    assert_eq!(entropy_seed(Arch::X86_64, 0), 0);
}

#[test]
fn initial_task_frames() {
    let x = task_init_stack(Arch::X86_64, 0x10_0000, 0x1000, 0xdead);
    assert_eq!(x.sp, 0x10_1000 - 64);
    assert_eq!(x.words, vec![0, 0, 0, 0, 0, 0, 0xdead, 0]);
    let r = task_init_stack(Arch::Riscv64, 0x10_0008, 0x1000, 0xbeef);
    assert_eq!(r.sp, 0x10_1000 - 104);
    assert_eq!(r.words.len(), 13);
    assert_eq!(r.words[0], 0xbeef);
    let a = task_init_stack(Arch::Aarch64, 0x10_0000, 0x1000, 0xcafe);
    assert_eq!(a.sp, 0x10_1000 - 96);
    assert_eq!(a.words[0], 0xcafe);
    assert_eq!(a.words.len(), 12);
    let u = task_init_userspace_stack(Arch::X86_64, 0x10_0000, 0x1000, 0x1111, 0x40_0000, 0x7fff_f000);
    assert_eq!(u.sp, 0x10_1000 - 96);
    assert_eq!(u.words, vec![0, 0, 0, 0, 0, 0, 0x1111, 0x40_0000, 0x23, 0x202, 0x7fff_f000, 0x1b]);
    let v = task_init_userspace_stack(Arch::Riscv64, 0x10_0000, 0x1000, 0x2222, 0x1_0000_1000, 0x1_0001_0000);
    assert_eq!(&v.words[..4], &[0x2222, 0x1_0001_0000, 0x1_0000_1000, 0x4_0020]);
}

fn le32(v: u32) -> [u8; 4] {
    v.to_le_bytes()
}

fn e820(base: u64, len: u64, kind: u32) -> Vec<u8> {
    let mut e: Vec<u8> = Vec::new();
    e.extend_from_slice(&le32(20));
    e.extend_from_slice(&base.to_le_bytes());
    e.extend_from_slice(&len.to_le_bytes());
    e.extend_from_slice(&le32(kind));
    e
}

fn mbi(flags: u32, mem_upper: u32, mmap_len: u32, mmap_addr: u32) -> Vec<u8> {
    let mut info = vec![0u8; 52];
    info[0..4].copy_from_slice(&le32(flags));
    info[8..12].copy_from_slice(&le32(mem_upper));
    info[44..48].copy_from_slice(&le32(mmap_len));
    info[48..52].copy_from_slice(&le32(mmap_addr));
    info
}

#[test]
fn multiboot_e820_table() {
    let mut table = e820(0, 0x9_fc00, 1);
    table.extend(e820(0xf_0000, 0x1_0000, 2));
    table.extend(e820(0x10_0000, 0x7ee_0000, 1));
    let info = mbi(0x41, 0, table.len() as u32, 0x9000);
    assert_eq!(mmap_location(&info), Some((0x9000, 72)));
    let map = parse_memory_map(0x2BADB002, &info, &table);
    assert_eq!(
        map.regions,
        vec![
            MemRegion { base: 0, size: 0x9_fc00, kind: RegionKind::Usable },
            MemRegion { base: 0xf_0000, size: 0x1_0000, kind: RegionKind::Reserved },
            MemRegion { base: 0x10_0000, size: 0x7ee_0000, kind: RegionKind::Usable },
        ]
    );
}

#[test]
fn multiboot_truncated_entry_ends_table() {
    let mut table = e820(0x10_0000, 0x100_0000, 1);
    table.extend_from_slice(&le32(20));
    table.extend_from_slice(&[0u8; 8]);
    let mut map = MemoryMap::empty();
    parse_mmap_entries(&mut map, &table);
    assert_eq!(map.regions, vec![MemRegion { base: 0x10_0000, size: 0x100_0000, kind: RegionKind::Usable }]);
}

#[test]
fn multiboot_mem_upper_and_fallbacks() {
    let info = mbi(0x1, 0x1_fc00, 0, 0);
    assert_eq!(mmap_location(&info), None);
    let map = parse_memory_map(0x2BADB002, &info, &[]);
    assert_eq!(map.regions, vec![MemRegion { base: 0x10_0000, size: 0x1_fc00 * 1024, kind: RegionKind::Usable }]);
    let none = parse_memory_map(0x2BADB002, &mbi(0, 0, 0, 0), &[]);
    assert_eq!(none.regions, vec![MemRegion { base: 0x10_0000, size: 127 * 1024 * 1024, kind: RegionKind::Usable }]);
    let bad = parse_memory_map(0x1234, &[], &[]);
    assert_eq!(bad.regions, none.regions);
}

#[test]
fn text_formatting() {
    assert_eq!(hex16(0x1234_abcd), b"000000001234abcd".to_vec());
    assert_eq!(hex8(0xdead_beef), b"deadbeef".to_vec());
    assert_eq!(dec(0), b"0".to_vec());
    assert_eq!(dec(1234567890), b"1234567890".to_vec());
    assert_eq!(dec(u64::MAX), b"18446744073709551615".to_vec());
    let mut out: Vec<u8> = Vec::new();
    push_str(&mut out, "rip=");
    push_field(&mut out, " cr2=", 0xff);
    assert_eq!(out, b"rip= cr2=00000000000000ff".to_vec());
}

#[test]
fn byte_readers() {
    let b = [0x12u8, 0x34, 0x56, 0x78, 0x9a, 0xbc, 0xde, 0xf0, 0x11];
    assert_eq!(read_be32(&b, 0), 0x1234_5678);
    assert_eq!(read_be64(&b, 1), 0x3456_789a_bcde_f011);
    assert_eq!(read_le16(&b, 0), 0x3412);
    assert_eq!(read_le32(&b, 1), 0x9a78_5634);
    assert_eq!(read_le64(&b, 0), 0xf0de_bc9a_7856_3412);
}

use ferrugem::arch::x86_64::gdt::{self, GdtEntry, Tss, tss_descriptor, flat_segments, USER_CODE_SEL, USER_DATA_SEL, STAR};
use ferrugem::arch::x86_64::idt::{
    self, IdtEntry, gate_attr, gate_stub, GateStub, common_dispatch, Dispatch, CpuException, page_fault_outcome,
    PageFaultOutcome, fault_from_user, page_fault_from_user, SyscallUserRegs, callee_saved_snapshot,
};
use ferrugem::arch::x86_64::pci::{config_address, find_device, PciDevice};
use ferrugem::arch::x86_64::port::PortWrite;
use ferrugem::arch::x86_64::{self as x86, BootInputs, MsrWrite};
use ferrugem::arch::x86_64::context::{task_init_stack, task_init_userspace_stack};
use ferrugem::boards::qemu_pc::pic;
use ferrugem::boards::{qemu_pc, virtualbox};

#[test]
fn gdt_descriptors() {
    assert_eq!(GdtEntry::new(0, 0xFFFFF, 0x9A, 0xA0).raw(), 0x00AF_9A00_0000_FFFF);
    assert_eq!(GdtEntry::new(0x1234_5678, 0x12345, 0x92, 0xC0).raw(), 0x12C1_9234_5678_2345);
    let t = flat_segments();
    assert_eq!(t.len(), 5);
    assert_eq!(t[3].raw(), 0x00CF_F200_0000_FFFF);
    assert_eq!((USER_CODE_SEL, USER_DATA_SEL), (0x23, 0x1B));
    assert_eq!(STAR, 0x0010_0008_0000_0000);
    assert_eq!(tss_descriptor(0x1_2345_6789, 103), (0x2300_8945_6789_0067, 0x1));
}

#[test]
fn gdt_init_builds_seven_words_and_points_rsp0() {
    let mut tss = Tss::new();
    assert_eq!(tss.iomap_base, 104);
    let words = gdt::init(&mut tss, 0x10_0000, 0x20_0000);
    assert_eq!(tss.rsp0, 0x20_0000);
    assert_eq!(words.len(), 7);
    assert_eq!(words[0], 0);
    assert_eq!(words[1], 0x00AF_9A00_0000_FFFF);
    assert_eq!(words[4], 0x00AF_FA00_0000_FFFF);
    assert_eq!((words[5], words[6]), tss_descriptor(0x10_0000, 103));
    tss.set_rsp0(0x30_0000);
    assert_eq!(tss.rsp0, 0x30_0000);
}

#[test]
fn idt_gates() {
    let mut e = IdtEntry::missing();
    e.set(0xFFFF_8000_1234_5678, 0x08, 0, 0x8E);
    assert_eq!(e.raw(), (0x1234_8E00_0008_5678, 0xFFFF_8000));
    assert_eq!(gate_attr(0x80), 0xEF);
    assert_eq!(gate_attr(14), 0x8E);
    assert_eq!(gate_stub(0x80), GateStub::Syscall);
    assert_eq!(gate_stub(47), GateStub::Vector(47));
    assert_eq!(gate_stub(48), GateStub::Ignore);
    let stubs: Vec<u64> = (0..48u64).map(|v| 0x1000 + v * 16).collect();
    let table = idt::init(&stubs, 0x9000, 0x8000);
    assert_eq!(table.len(), 256);
    assert_eq!(table[14].offset_low, 0x10E0);
    assert_eq!(table[0x80].offset_low, 0x9000);
    assert_eq!(table[0x80].type_attr, 0xEF);
    assert_eq!(table[200].offset_low, 0x8000);
    assert_eq!(table[200].selector, 0x08);
}

#[test]
fn interrupt_dispatch() {
    assert_eq!(common_dispatch(13), Dispatch::Halt(CpuException::GeneralProtection));
    assert_eq!(common_dispatch(3), Dispatch::Ignore);
    assert_eq!(common_dispatch(20), Dispatch::Halt(CpuException::Other));
    assert_eq!(common_dispatch(32), Dispatch::Timer);
    assert_eq!(common_dispatch(33), Dispatch::Keyboard);
    assert_eq!(common_dispatch(36), Dispatch::Serial);
    assert_eq!(common_dispatch(40), Dispatch::Eoi(8));
    assert_eq!(common_dispatch(48), Dispatch::Ignore);
    assert_eq!(CpuException::PageFault.message(), "Page Fault");
    assert_eq!(page_fault_outcome(0x6, true), PageFaultOutcome::Retry);
    assert_eq!(page_fault_outcome(0x6, false), PageFaultOutcome::Kill);
    assert_eq!(page_fault_outcome(0x2, false), PageFaultOutcome::KernelPanic);
    assert!(page_fault_from_user(4));
    assert!(fault_from_user(0x23));
    assert!(!fault_from_user(0x08));
    let r = SyscallUserRegs { rbx: 1, rbp: 2, r12: 3, r13: 4, r14: 5, r15: 6 };
    assert_eq!(callee_saved_snapshot(&r), [1, 2, 3, 4, 5, 6]);
}

#[test]
fn pic_remap_and_masks() {
    let w = pic::init(0x12, 0x34);
    assert_eq!(w.len(), 10);
    assert_eq!(w[0], PortWrite { port: 0x20, value: 0x11 });
    assert_eq!(w[2], PortWrite { port: 0x21, value: 0x20 });
    assert_eq!(w[3], PortWrite { port: 0xA1, value: 0x28 });
    assert_eq!(w[8], PortWrite { port: 0x21, value: 0xFB });
    assert_eq!(w[9], PortWrite { port: 0xA1, value: 0xFF });
    assert_eq!(pic::unmask(1, 0xFF), PortWrite { port: 0x21, value: 0xFD });
    assert_eq!(pic::unmask(12, 0xFF), PortWrite { port: 0xA1, value: 0xEF });
    assert_eq!(pic::mask(12, 0x00), PortWrite { port: 0xA1, value: 0x10 });
    assert_eq!(pic::eoi(3), vec![PortWrite { port: 0x20, value: 0x20 }]);
    assert_eq!(pic::eoi(9), vec![PortWrite { port: 0xA0, value: 0x20 }, PortWrite { port: 0x20, value: 0x20 }]);
    let u = qemu_pc::unmask_default_irqs(0xFF);
    assert_eq!(u, vec![PortWrite { port: 0x21, value: 0xFE }, PortWrite { port: 0x21, value: 0xFC }]);
    assert_eq!(virtualbox::unmask_default_irqs(0xFB), vec![PortWrite { port: 0x21, value: 0xFA }, PortWrite { port: 0x21, value: 0xF8 }]);
}

#[test]
fn pci_addresses_and_scan() {
    assert_eq!(config_address(0, 3, 0, 0x10), 0x8000_1810);
    assert_eq!(config_address(1, 31, 7, 0x3F), 0x8001_FF3C);
    let dev = PciDevice { bus: 0, device: 2, function: 1 };
    assert_eq!(dev.bar(4), config_address(0, 2, 1, 0x20));
    assert_eq!(PciDevice::io_bar_port(0xC001), Some(0xC000));
    assert_eq!(PciDevice::io_bar_port(0xFEB0_0000), None);
    assert_eq!(PciDevice::enable_io_and_bus_master(0xABCD_0002), 0x0007);
    assert_eq!(PciDevice::vendor_device(0x1234_8086), (0x8086, 0x1234));
    assert_eq!(PciDevice::class_triple(0x0C03_2001), (0x0C, 0x03, 0x20));
    // Configuration space: a multi-function device at slot 2 whose second
    // function is the UHCI controller sought.
    let cfg = |a: u32| -> u32 {
        let dev = (a >> 11) & 0x1F;
        let func = (a >> 8) & 7;
        let reg = a & 0xFC;
        let bus = (a >> 16) & 0xFF;
        if bus != 0 || dev != 2 || func > 1 {
            return 0xFFFF_FFFF;
        }
        match (func, reg) {
            (_, 0x00) => 0x7020_8086,
            (0, 0x0C) => 0x0080_0000,
            (0, 0x08) => 0x0601_0000,
            (1, 0x08) => 0x0C03_0001,
            _ => 0,
        }
    };
    let mut scan = find_device(0x0C, 0x03, 0x00);
    let mut reads = 0;
    while let Some(a) = scan.next_read() {
        scan.feed(cfg(a));
        reads += 1;
    }
    assert_eq!(scan.result(), Some(PciDevice { bus: 0, device: 2, function: 1 }));
    // Slots 0 and 1 absent, then slot 2: vendor, header, and vendor plus
    // class for each of its two functions.
    assert_eq!(reads, 1 + 1 + 2 + 2 + 2);
    let mut none = find_device(0x01, 0x06, 0x01);
    while let Some(a) = none.next_read() {
        none.feed(cfg(a));
    }
    assert_eq!(none.result(), None);
}

#[test]
fn x86_bring_up() {
    let inputs = BootInputs {
        cr0: 0x8000_0015,
        cr4: 0x20,
        efer: 0x500,
        pic_masks: (0xB8, 0x8E),
        tss_base: 0x10_0000,
        boot_stack_top: 0x20_0000,
        stubs: (0..48u64).map(|v| 0x1000 + v * 16).collect(),
        syscall_entry: 0x9000,
        ignore_stub: 0x8000,
    };
    let mut tss = Tss::new();
    let r = x86::early_init(&inputs, &mut tss);
    assert_eq!(r.cr0, 0x8000_0013);
    assert_eq!(r.cr4, 0x620);
    assert_eq!(tss.rsp0, 0x20_0000);
    assert_eq!(r.gdt.len(), 7);
    assert_eq!(r.idt.len(), 256);
    assert_eq!(r.msrs, vec![
        MsrWrite { msr: 0xC000_0080, value: 0x501 },
        MsrWrite { msr: 0xC000_0081, value: 0x0010_0008_0000_0000 },
        MsrWrite { msr: 0xC000_0082, value: 0x9000 },
        MsrWrite { msr: 0xC000_0084, value: 0x200 },
    ]);
    assert_eq!(r.board_writes.len(), 17);
    assert_eq!(r.board_writes[8], PortWrite { port: 0x21, value: 0xFB });
    assert_eq!(r.board_writes[10], PortWrite { port: 0x3F9, value: 0x00 });
    assert_eq!(x86::interrupts_init(0xFB), vec![PortWrite { port: 0x21, value: 0xFA }, PortWrite { port: 0x21, value: 0xF8 }]);
    let mut rsp = 0;
    x86::set_kernel_stack(&mut tss, &mut rsp, 0x44_0000);
    assert_eq!((tss.rsp0, rsp), (0x44_0000, 0x44_0000));
}

#[test]
fn x86_task_frames() {
    let s = task_init_stack(0x1000, 0x1000, 0xABCD);
    assert_eq!(s.sp, 0x2000 - 64);
    assert_eq!(s.words, vec![0, 0, 0, 0, 0, 0, 0xABCD, 0]);
    let u = task_init_userspace_stack(0x1000, 0x1008, 0x7777, 0x0080_0000_1000, 0x0080_0001_0000);
    assert_eq!(u.sp, 0x2000 - 96);
    assert_eq!(u.words[6..], [0x7777, 0x0080_0000_1000, 0x23, 0x202, 0x0080_0001_0000, 0x1B]);
}

#[test]
fn exec_redirects_the_return_path() {
    let f = idt::IretFrame { rip: 0x40_1000, cs: 0x23, rflags: 0x202, rsp: 0x7fff_0000, ss: 0x1b };
    let mut g = f;
    assert_eq!(idt::apply_exec_redirect(&mut g, None), None);
    assert_eq!(g, f);
    assert_eq!(idt::apply_exec_redirect(&mut g, Some((0x50_0000, 0x6000_0000, 0x9000))), Some(0x9000));
    assert_eq!(g, idt::IretFrame { rip: 0x50_0000, rsp: 0x6000_0000, ..f });
    let (mut rcx, mut rsp) = (0x40_1000u64, 0x7fff_0000u64);
    assert_eq!(idt::apply_exec_redirect_syscall(&mut rcx, &mut rsp, None), None);
    assert_eq!((rcx, rsp), (0x40_1000, 0x7fff_0000));
    assert_eq!(idt::apply_exec_redirect_syscall(&mut rcx, &mut rsp, Some((1, 2, 3))), Some(3));
    assert_eq!((rcx, rsp), (1, 2));
}

#[test]
fn exception_report() {
    let m = CpuException::InvalidOpcode.message();
    assert_eq!(idt::halt_exception(m), b"\n[EXCEPTION] Invalid Opcode\n".to_vec());
}

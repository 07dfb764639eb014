use ferrugem::boards::raspberrypi3::intc::{init as intc_init, enable, disable, needs_pending, handle};
use ferrugem::boards::raspberrypi3::mailbox::{
    phys_to_bus, bus_to_phys, dcache_line_size, cache_lines, call_succeeded, MailboxCall, MboxAction, MboxPhase,
    MAX_SPIN,
};
use ferrugem::boards::raspberrypi3::framebuffer::{request, init as fb_init, FbInfo};
use ferrugem::boards::raspberrypi3::gpio::{init_uart_pins, alt0_fsel, PinStep};
use ferrugem::boards::raspberrypi3::{mmio_ranges, parse_memory_map};
use ferrugem::arch::{board_late_init, Arch, LateInit};
use ferrugem::memory::mmap::{MemRegion, RegionKind};
use ferrugem::mmio::MmioWrite;

#[test]
fn local_and_legacy_interrupt_controller() {
    assert_eq!(
        intc_init(0x8),
        vec![MmioWrite { addr: 0x4000_0040, value: 0xA }, MmioWrite { addr: 0x3F00_B214, value: 0x200_0000 }]
    );
    assert_eq!(enable(1, 0), Some(MmioWrite { addr: 0x4000_0040, value: 2 }));
    assert_eq!(enable(57, 0), Some(MmioWrite { addr: 0x3F00_B214, value: 0x200_0000 }));
    assert_eq!(enable(3, 0), None);
    assert_eq!(disable(1, 0xB), Some(MmioWrite { addr: 0x4000_0040, value: 0x9 }));
    assert_eq!(disable(57, 0xB), None);
    assert!(needs_pending(0x102));
    assert!(!needs_pending(0x2));
    assert_eq!(handle(0x102, 0x200_0000), (true, true));
    assert_eq!(handle(0x100, 0), (false, false));
    assert_eq!(handle(0x2, 0x200_0000), (true, false));
}

#[test]
fn bus_address_aliases() {
    assert_eq!(phys_to_bus(0x0010_0000), 0xC010_0000);
    assert_eq!(bus_to_phys(0xC010_0000), 0x0010_0000);
    assert_eq!(bus_to_phys(phys_to_bus(0x3EFF_F000)), 0x3EFF_F000);
}

#[test]
fn cache_maintenance_lines() {
    assert_eq!(dcache_line_size(0x8444_c004), 64);
    assert_eq!(cache_lines(0x1030, 0x50, 64), vec![0x1000, 0x1040]);
    assert_eq!(cache_lines(0x1000, 0, 64), Vec::<u64>::new());
}

#[test]
fn mailbox_call_succeeds_after_polls() {
    let mut c = MailboxCall::new(0x0008_0000);
    assert_eq!(c.msg, 0xC008_0008);
    assert_eq!(c.step(0x8000_0000), MboxAction::ReadStatus);
    assert_eq!(c.step(0), MboxAction::WriteThenReadStatus(0xC008_0008));
    assert_eq!(c.step(0x4000_0000), MboxAction::ReadStatus);
    assert_eq!(c.step(0), MboxAction::ReadData);
    assert_eq!(c.step(0x1234_5678), MboxAction::ReadStatus);
    assert_eq!(c.step(0), MboxAction::ReadData);
    assert_eq!(c.step(0xC008_0008), MboxAction::Finished(true));
    assert_eq!(c.phase, MboxPhase::Done(true));
    assert!(call_succeeded(0x8000_0000));
    assert!(!call_succeeded(0x8000_0001));
}

#[test]
fn mailbox_call_times_out() {
    let mut c = MailboxCall::new(0x0008_0000);
    c.spins = MAX_SPIN;
    assert_eq!(c.step(0x8000_0000), MboxAction::Finished(false));
    assert_eq!(c.phase, MboxPhase::Done(false));
}

#[test]
fn framebuffer_request_and_grant() {
    let b = request();
    assert_eq!(b.len(), 35);
    assert_eq!(b[0], 140);
    assert_eq!(b[2], 0x0004_8003);
    assert_eq!(b[5], 1024);
    assert_eq!(b[6], 768);
    assert_eq!(b[20], 32);
    assert_eq!(b[25], 0x0004_0001);
    assert_eq!(b[28], 4096);
    assert_eq!(b[34], 0);
    let mut resp = b.clone();
    resp[28] = 0xFE00_0000;
    resp[29] = 0x30_0000;
    resp[33] = 4096;
    assert_eq!(fb_init(true, &resp), Some(FbInfo { phys: 0x3E00_0000, size: 0x30_0000, pitch: 4096 }));
    assert_eq!(fb_init(false, &resp), None);
    resp[33] = 0;
    assert_eq!(fb_init(true, &resp), None);
}

#[test]
fn uart_pins_sequence() {
    assert_eq!(alt0_fsel(0), 0x24000);
    let s = init_uart_pins(0);
    assert_eq!(s.len(), 14);
    assert_eq!(s[0], PinStep::Write(MmioWrite { addr: 0x3F20_1030, value: 0 }));
    assert_eq!(s[9], PinStep::Write(MmioWrite { addr: 0x3F20_1024, value: 26 }));
    assert_eq!(s[13], PinStep::Write(MmioWrite { addr: 0x3F20_1030, value: 0x301 }));
}

#[test]
fn board_ranges_and_memory() {
    assert_eq!(mmio_ranges(), vec![(0x3F00_0000, 0x0100_0000), (0x4000_0000, 0x1000)]);
    assert_eq!(parse_memory_map().regions, vec![MemRegion { base: 0, size: 0x800_0000, kind: RegionKind::Usable }]);
}

#[test]
fn late_init_only_on_raspberrypi3() {
    assert_eq!(board_late_init(Arch::Aarch64, true), vec![LateInit::HdmiFramebuffer, LateInit::UsbHost]);
    assert!(board_late_init(Arch::Aarch64, false).is_empty());
    assert!(board_late_init(Arch::X86_64, true).is_empty());
    assert!(board_late_init(Arch::Riscv64, false).is_empty());
}

use ferrugem::arch::aarch64::gic::{enable, disable, eoi, init as gic_init, handle, GicWrite, IrqSource};
use ferrugem::arch::aarch64::exceptions::{fatal_message, TrapFrame};
use ferrugem::arch::aarch64::console::{print_str, print_byte, tx_ready, init as console_init};
use ferrugem::arch::aarch64::paging::{init as paging_init, map_uncached, l2_block_entry, is_device, sctlr_enabled};
use ferrugem::arch::aarch64::{early_init, interrupts_init};
use ferrugem::boards::qemu_virt_aarch64::{mmio_ranges, parse_memory_map};
use ferrugem::boards::raspberrypi3::gpio::PinStep;
use ferrugem::memory::mmap::{MemRegion, RegionKind};
use ferrugem::memory::phys::PhysMem;
use ferrugem::mmio::MmioWrite;

#[test]
fn gic_enable_routes_spis_first() {
    assert_eq!(enable(30), vec![GicWrite::Word { addr: 0x0800_0100, value: 1 << 30 }]);
    assert_eq!(
        enable(33),
        vec![
            GicWrite::Byte { addr: 0x0800_0821, byte: 1 },
            GicWrite::Word { addr: 0x0800_0104, value: 1 << 1 },
        ]
    );
    assert_eq!(disable(33), MmioWrite { addr: 0x0800_0184, value: 2 });
    assert_eq!(eoi(30), MmioWrite { addr: 0x0801_0010, value: 30 });
}

#[test]
fn gic_init_order() {
    let w = gic_init();
    assert_eq!(w.len(), 6);
    assert_eq!(w[0], GicWrite::Word { addr: 0x0800_0000, value: 1 });
    assert_eq!(w[1], GicWrite::Word { addr: 0x0801_0004, value: 0xFF });
    assert_eq!(w[2], GicWrite::Word { addr: 0x0801_0000, value: 1 });
    assert_eq!(w[3], GicWrite::Word { addr: 0x0800_0100, value: 1 << 30 });
    assert_eq!(interrupts_init(), w);
}

#[test]
fn gic_handle_acknowledges_all_but_spurious() {
    assert_eq!(handle(30), (IrqSource::Timer, Some(MmioWrite { addr: 0x0801_0010, value: 30 })));
    assert_eq!(handle(33 | 0x400), (IrqSource::Uart, Some(MmioWrite { addr: 0x0801_0010, value: 33 })));
    assert_eq!(handle(40), (IrqSource::Other, Some(MmioWrite { addr: 0x0801_0010, value: 40 })));
    assert_eq!(handle(1023), (IrqSource::Other, None));
}

#[test]
fn fatal_exception_report() {
    let f = TrapFrame::new([0u64; 31], 0x4008_0000, 0x3c5);
    assert_eq!(
        fatal_message(0x9600_0045, 0xdead, &f),
        b"[TRAP] unhandled aarch64 exception esr=0x0000000096000045 far=0x000000000000dead elr=0x0000000040080000\n"
            .to_vec()
    );
}

#[test]
fn pl011_output() {
    assert!(tx_ready(0x90));
    assert!(!tx_ready(0x20));
    assert_eq!(print_byte(0x0900_0000, b'x'), MmioWrite { addr: 0x0900_0000, value: 0x78 });
    let w = print_str(0x0900_0000, b"ok");
    assert_eq!(w, vec![MmioWrite { addr: 0x0900_0000, value: 0x6f }, MmioWrite { addr: 0x0900_0000, value: 0x6b }]);
    assert!(console_init(false, 0).is_empty());
}

#[test]
fn early_init_on_both_boards() {
    let (vbar, steps) = early_init(0x4008_0800, false, 0);
    assert_eq!(vbar, 0x4008_0800);
    assert!(steps.is_empty());
    let (_, steps) = early_init(0x8_0800, true, 0xFFFF_FFFF);
    assert_eq!(steps.len(), 14);
    assert_eq!(steps[1], PinStep::Write(MmioWrite { addr: 0x3F20_0004, value: 0xFFFE_4FFF }));
    assert_eq!(steps[3], PinStep::Delay(150));
}

#[test]
fn identity_map_marks_device_blocks() {
    let ranges = mmio_ranges();
    assert!(is_device(&ranges, 0x0900_0000));
    assert!(!is_device(&ranges, 0x4000_0000));
    assert_eq!(l2_block_entry(&ranges, 0x0900_0000), 0x0900_0000 | 0x400 | 0x300 | 0x1);
    assert_eq!(l2_block_entry(&ranges, 0x4020_0000), 0x4020_0000 | 0x400 | 0x300 | (1 << 2) | 0x1);
    let mut mem = PhysMem::new(8 * 512);
    let l2s = [0x2000u64, 0x3000];
    paging_init(&mut mem, 0x1000, &l2s, &ranges);
    assert_eq!(mem.read_entry(0x1000, 0), 0x2003);
    assert_eq!(mem.read_entry(0x1000, 1), 0x3003);
    assert_eq!(mem.read_entry(0x2000, 72), 0x0900_0000 | 0x701);
    assert_eq!(mem.read_entry(0x3000, 1), 0x4020_0000 | 0x705);
    assert_eq!(sctlr_enabled(0x30d0_0800), 0x30d0_1805);
}

#[test]
fn uncached_remap_covers_the_span() {
    let ranges = mmio_ranges();
    let mut mem = PhysMem::new(8 * 512);
    let l2s = [0x2000u64, 0x3000];
    paging_init(&mut mem, 0x1000, &l2s, &ranges);
    let n = map_uncached(&mut mem, &l2s, 0x4030_0000, 0x30_0000);
    assert_eq!(n, 2);
    for x in 1..3u64 {
        assert_eq!(mem.read_entry(0x3000, x), (0x4000_0000 + x * 0x20_0000) | 0x709);
    }
    assert_eq!(mem.read_entry(0x3000, 0), 0x4000_0000 | 0x705);
    assert_eq!(mem.read_entry(0x3000, 3), 0x4060_0000 | 0x705);
    let beyond = map_uncached(&mut mem, &l2s, 0x7FE0_0000, 0x40_0000);
    assert_eq!(beyond, 1);
}

#[test]
fn virt_memory_map() {
    let map = parse_memory_map();
    assert_eq!(map.regions, vec![MemRegion { base: 0x4000_0000, size: 0x800_0000, kind: RegionKind::Usable }]);
}

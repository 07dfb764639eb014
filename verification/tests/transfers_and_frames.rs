use ferrugem::arch::{task_init_fork_stack, task_init_stack, Arch};
use ferrugem::arch::riscv64::context::USER_SSTATUS;
use ferrugem::arch::x86_64::idt::{gpf_decide, gpf_report, GpfAction, SavedGprs};
use ferrugem::boards::raspberrypi3::fbconsole::pixel_addr;
use ferrugem::boards::raspberrypi3::usb::dwc2::{bulk_transfer, finish_channel, flush_fifos, frame_stuck, init, Step};
use ferrugem::boards::raspberrypi3::usb::hub::{classify_device, DeviceRole};
use ferrugem::boards::raspberrypi3::usb::msc::{Disk, Disks};
use ferrugem::boards::raspberrypi3::usb::protocol::{Endpoint, Speed};

fn bulk_ep(max_packet: u16, hub: u8, port: u8) -> Endpoint {
    Endpoint { dev_addr: 3, ep_num: 1, max_packet, speed: Speed::High, hub_addr: hub, hub_port: port }
}

#[test]
fn bulk_transfer_toggles_by_packet_parity() {
    let ep = bulk_ep(512, 0, 0);
    // 1000 bytes in 512-byte packets: two packets, toggle kept.
    let mut t = false;
    assert_eq!(bulk_transfer(&ep, &mut t, 1000, true), Ok(1000));
    assert!(!t);
    // 1100 bytes: three packets, toggle flips.
    assert_eq!(bulk_transfer(&ep, &mut t, 1100, true), Ok(1100));
    assert!(t);
    // A failed run keeps the toggle.
    assert_eq!(bulk_transfer(&ep, &mut t, 100, false), Err(()));
    assert!(t);
}

#[test]
fn bulk_transfer_empty_and_oversized() {
    let ep = bulk_ep(64, 0, 0);
    let mut t = false;
    assert_eq!(bulk_transfer(&ep, &mut t, 0, false), Ok(0));
    assert!(!t);
    assert_eq!(bulk_transfer(&ep, &mut t, 4097, true), Err(()));
    assert!(!t);
}

#[test]
fn smallest_x86_kernel_stack_fits_its_frame() {
    // 64 bytes with a 16-byte-aligned top hold the 8-word frame exactly.
    let s = task_init_stack(Arch::X86_64, 0x8000, 64, 0xABCD);
    assert_eq!(s.sp, 0x8000);
    assert_eq!(s.words, vec![0, 0, 0, 0, 0, 0, 0xABCD, 0]);
}

#[test]
fn riscv_fork_frame_carries_the_parent_registers() {
    let s = task_init_fork_stack(Arch::Riscv64, 0x9000, 0x1000, 0x111, 0x4000, 0x7FF0, [1, 2, 3, 4, 5, 6], [11, 12, 13, 14, 15, 16]);
    assert_eq!(s.sp, 0xA000 - 200);
    assert_eq!(
        s.words,
        vec![0x111, 0x7FF0, 0x4000, USER_SSTATUS, 0, 0, 0, 0, 0, 0, 0, 0, 0, 0, 2, 3, 4, 5, 6, 11, 12, 13, 14, 15, 16]
    );
}

#[test]
fn x86_fork_frame_carries_the_parent_registers() {
    let s = task_init_fork_stack(Arch::X86_64, 0x9000, 0x1000, 0x222, 0x40_1000, 0x7FF0, [1, 2, 3, 4, 5, 6], [11, 12, 13, 14, 15, 16]);
    assert_eq!(s.sp, 0xA000 - 152);
    assert_eq!(
        s.words,
        vec![16, 15, 14, 13, 12, 11, 0x222, 0, 1, 2, 3, 4, 5, 6, 0x40_1000, 0x23, 0x202, 0x7FF0, 0x1B]
    );
}

fn gprs() -> SavedGprs {
    SavedGprs {
        r15: 15, r14: 14, r13: 13, r12: 12, r11: 11, r10: 10, r9: 9, r8: 8, rbp: 7, rdi: 6, rsi: 5, rdx: 4, rcx: 3,
        rbx: 2, rax: 1,
    }
}

#[test]
fn gpf_in_kernel_halts_after_the_register_report() {
    let g = gprs();
    let d = gpf_decide(0x10, 0xFFFF_8000, 0x08, &g, 0, [0; 4], [0; 4]);
    assert_eq!(d.action, GpfAction::Halt);
    assert_eq!(d.report, gpf_report(0x10, 0xFFFF_8000, 0x08, &g));
}

#[test]
fn gpf_in_user_mode_dumps_the_stack_and_kills() {
    let g = gprs();
    let d = gpf_decide(0, 0x40_0000, 0x2B, &g, 0x7FF0, [0x50, 2, 3, 4], [9, 8, 7, 6]);
    assert_eq!(d.action, GpfAction::KillTask);
    let text = String::from_utf8(d.report).unwrap();
    assert!(text.contains("  user_rsp=0x0000000000007ff0\n"));
    assert!(text.contains("  [rsp+0000000000000018]=0x0000000000000004\n"));
    assert!(text.contains("  fa=0x0000000000000050\n"));
    assert!(text.ends_with("  fa[+0000000000000018]=0x0000000000000006\n"));
    // A null word at the stack pointer is not followed.
    let d = gpf_decide(0, 0x40_0000, 0x2B, &g, 0x7FF0, [0, 2, 3, 4], [9, 8, 7, 6]);
    let text = String::from_utf8(d.report).unwrap();
    assert!(!text.contains("fa="));
    assert!(text.ends_with("  [rsp+0000000000000018]=0x0000000000000004\n"));
}

#[test]
fn dwc2_bring_up_logs_configuration_and_frame_number() {
    let s = init();
    assert_eq!(s[0], Step::CheckId);
    assert_eq!(s[1], Step::Log { addr: 0x3F98_0044 });
    assert_eq!(s[4], Step::Log { addr: 0x3F98_0050 });
    assert!(!s.iter().any(|x| *x == Step::Log { addr: 0x3F98_0040 }));
    assert_eq!(s[s.len() - 2], Step::Delay { us: 5000 });
    assert_eq!(s[s.len() - 1], Step::Log { addr: 0x3F98_0408 });
    assert!(frame_stuck(0x3FFF));
    assert!(frame_stuck(0x1_3FFF));
    assert!(!frame_stuck(0x0123));
    assert_eq!(flush_fifos().len(), 4);
    assert_eq!(flush_fifos()[2], Step::Write { addr: 0x3F98_0010, value: 0x420 });
}

fn disk(hub: u8, port: u8, blocks: u32) -> Disk {
    let e = bulk_ep(512, hub, port);
    Disk { ep0: e, bulk_in: e, bulk_out: e, in_toggle: false, out_toggle: false, tag: 0, block_count: blocks }
}

#[test]
fn detach_drops_exactly_the_disks_at_the_port() {
    let mut d = Disks::new();
    assert!(d.attach(disk(1, 2, 10)));
    assert!(d.attach(disk(1, 3, 20)));
    assert!(d.attach(disk(1, 2, 30)));
    assert!(d.attach(disk(1, 4, 40)));
    d.detach(1, 2);
    assert_eq!(d.device_count(), 2);
    assert_eq!(d.block_count(0), Some(20));
    assert_eq!(d.block_count(1), Some(40));
    assert_eq!(d.block_count(2), None);
    assert_eq!(d.block_count(3), None);
}

#[test]
fn device_roles_keyboard_first_then_disk() {
    let ep0 = Endpoint { dev_addr: 4, ep_num: 0, max_packet: 64, speed: Speed::Full, hub_addr: 1, hub_port: 2 };
    let mut kbd: Vec<u8> = vec![9, 2, 34, 0, 1, 1, 0, 0xA0, 50];
    kbd.extend_from_slice(&[9, 4, 0, 0, 1, 3, 1, 1, 0]);
    kbd.extend_from_slice(&[9, 0x21, 0x11, 0x01, 0, 1, 0x22, 63, 0]);
    kbd.extend_from_slice(&[7, 5, 0x81, 3, 8, 0, 10]);
    assert_eq!(
        classify_device(&ep0, &kbd),
        DeviceRole::Keyboard { config: 1, ep: Endpoint { ep_num: 1, max_packet: 8, ..ep0 } }
    );
    let mut msc: Vec<u8> = vec![9, 2, 32, 0, 1, 3, 0, 0x80, 50];
    msc.extend_from_slice(&[9, 4, 0, 0, 2, 8, 6, 0x50, 0]);
    msc.extend_from_slice(&[7, 5, 0x81, 2, 0, 2, 0]);
    msc.extend_from_slice(&[7, 5, 0x02, 2, 0, 2, 0]);
    assert_eq!(
        classify_device(&ep0, &msc),
        DeviceRole::Disk {
            config: 3,
            bulk_in: Endpoint { ep_num: 1, max_packet: 512, ..ep0 },
            bulk_out: Endpoint { ep_num: 2, max_packet: 512, ..ep0 },
        }
    );
    let other: Vec<u8> = vec![9, 2, 9, 0, 0, 1, 0, 0x80, 50];
    assert_eq!(classify_device(&ep0, &other), DeviceRole::Unsupported);
}

#[test]
fn failed_channel_is_aborted_and_flushed() {
    assert!(finish_channel(2, false).is_empty());
    let s = finish_channel(2, true);
    assert_eq!(s.len(), 7);
    assert_eq!(s[0], Step::SetBits { addr: 0x3F98_0540, bits: 0x4000_0000 });
    assert_eq!(s[1], Step::Wait { addr: 0x3F98_0548, mask: 0x2, until_set: true, timeout_us: 5000, fatal: false });
    assert_eq!(s[2], Step::Write { addr: 0x3F98_0548, value: 0x7FF });
    assert_eq!(&s[3..], &flush_fifos()[..]);
}

#[test]
fn framebuffer_pixel_addresses() {
    assert_eq!(pixel_addr(0x3C10_0000, 1024, 768, 4096, 0, 0), Some(0x3C10_0000));
    assert_eq!(pixel_addr(0x3C10_0000, 1024, 768, 4096, 3, 2), Some(0x3C10_0000 + 2 * 4096 + 12));
    assert_eq!(pixel_addr(0x3C10_0000, 1024, 768, 4096, 1024, 0), None);
    assert_eq!(pixel_addr(0x3C10_0000, 1024, 768, 4096, 0, 768), None);
}

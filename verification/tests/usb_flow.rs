use ferrugem::boards::raspberrypi3::usb::protocol::{Endpoint, SetupPacket, Speed};
use ferrugem::boards::raspberrypi3::usb::msc::{
    build_cbw, csw_ok, next_tag, parse_capacity, capacity_blocks, rw10, BotCommand, BotPhase, BotStep, Disk, Disks,
};
use ferrugem::boards::raspberrypi3::usb::hid::{Keyboards, PollEffect};
use ferrugem::boards::raspberrypi3::usb::hub::{
    poll_hotplug, find_keyboard_endpoint, find_msc_endpoints, config_total_len, PortBringUp, PortOp, hotplug_change,
};
use ferrugem::boards::raspberrypi3::usb::dwc2::{
    ChannelRun, ChannelAction, ChannelError, ScriptRun, Step, Op, control_transfer, interrupt_in_poll, hprt_update,
    recover_root_port, Stage,
};

fn ep(addr: u8, num: u8, hub: u8, port: u8) -> Endpoint {
    Endpoint { dev_addr: addr, ep_num: num, max_packet: 64, speed: Speed::Full, hub_addr: hub, hub_port: port }
}

fn disk(hub: u8, port: u8, blocks: u32) -> Disk {
    Disk {
        ep0: ep(5, 0, hub, port),
        bulk_in: ep(5, 1, hub, port),
        bulk_out: ep(5, 2, hub, port),
        in_toggle: false,
        out_toggle: false,
        tag: 0,
        block_count: blocks,
    }
}

fn csw(tag: u32, status: u8) -> Vec<u8> {
    let mut c: Vec<u8> = Vec::new();
    c.extend_from_slice(&0x5342_5355u32.to_le_bytes());
    c.extend_from_slice(&tag.to_le_bytes());
    c.extend_from_slice(&0u32.to_le_bytes());
    c.push(status);
    c
}

#[test]
fn command_block_wrapper_layout() {
    let cbw = build_cbw(7, 512, true, &rw10(0x28, 0x0102_0304));
    assert_eq!(cbw.len(), 31);
    assert_eq!(&cbw[0..4], b"USBC");
    assert_eq!(&cbw[4..8], &[7, 0, 0, 0]);
    assert_eq!(&cbw[8..12], &[0, 2, 0, 0]);
    assert_eq!(cbw[12], 0x80);
    assert_eq!(cbw[14], 10);
    assert_eq!(&cbw[15..25], &[0x28, 0, 1, 2, 3, 4, 0, 0, 1, 0]);
    assert_eq!(&cbw[25..], &[0u8; 6]);
    let no_data = build_cbw(1, 0, true, &[0u8; 6]);
    assert_eq!(no_data[12], 0);
    assert!(csw_ok(&csw(7, 0), 7));
    assert!(!csw_ok(&csw(7, 1), 7));
    assert!(!csw_ok(&csw(6, 0), 7));
    assert_eq!(next_tag(u32::MAX, 10, 512), Ok(0));
    assert_eq!(next_tag(3, 17, 0), Err(()));
    assert_eq!(next_tag(3, 10, 4097), Err(()));
}

#[test]
fn capacity_reply() {
    let reply = [0x00u8, 0x01, 0xFF, 0xFF, 0x00, 0x00, 0x02, 0x00];
    assert_eq!(parse_capacity(&reply), (0x1_FFFF, 512));
    assert_eq!(capacity_blocks(0x1_FFFF, 512), Some(0x2_0000));
    assert_eq!(capacity_blocks(u32::MAX, 512), Some(u32::MAX));
    assert_eq!(capacity_blocks(100, 4096), None);
}

#[test]
fn bulk_only_read_succeeds() {
    let mut tag: u32 = 41;
    let (mut cmd, step) = BotCommand::begin(&mut tag, &rw10(0x28, 9), 512, true);
    assert_eq!(tag, 42);
    match step {
        BotStep::SendCbw(b) => assert_eq!(b, build_cbw(42, 512, true, &rw10(0x28, 9))),
        _ => panic!("CBW first"),
    }
    match cmd.on_cbw_sent(true) {
        BotStep::Data { data_in, len } => {
            assert!(data_in);
            assert_eq!(len, 512);
        },
        _ => panic!("data stage expected"),
    }
    assert!(matches!(cmd.on_data(Ok(512)), BotStep::ReadCsw));
    assert!(matches!(cmd.on_csw(true, &csw(42, 0)), BotStep::Done(Ok(512))));
    assert_eq!(cmd.phase, BotPhase::Finished);
}

#[test]
fn bulk_only_failures() {
    let mut tag: u32 = 0;
    let (mut cmd, _) = BotCommand::begin(&mut tag, &[0u8; 6], 0, false);
    assert!(matches!(cmd.on_cbw_sent(true), BotStep::ReadCsw));
    assert!(matches!(cmd.on_csw(true, &csw(1, 1)), BotStep::Done(Err(()))));
    let (mut cmd, _) = BotCommand::begin(&mut tag, &[0u8; 10], 8, true);
    assert!(matches!(cmd.on_cbw_sent(true), BotStep::Data { .. }));
    assert!(matches!(cmd.on_data(Err(())), BotStep::Done(Err(()))));
    let (mut cmd, _) = BotCommand::begin(&mut tag, &[0u8; 10], 8, true);
    assert!(matches!(cmd.on_cbw_sent(false), BotStep::Done(Err(()))));
    let (mut cmd, _) = BotCommand::begin(&mut tag, &[0u8; 10], 8, true);
    assert!(matches!(cmd.on_cbw_sent(true), BotStep::Data { .. }));
    assert!(matches!(cmd.on_data(Ok(8)), BotStep::ReadCsw));
    assert!(matches!(cmd.on_csw(false, &csw(4, 0)), BotStep::Done(Err(()))));
    let before = tag;
    let (cmd, step) = BotCommand::begin(&mut tag, &[0u8; 17], 0, false);
    assert_eq!(tag, before);
    assert_eq!(cmd.phase, BotPhase::Finished);
    assert!(matches!(step, BotStep::Done(Err(()))));
}

#[test]
fn disk_table_packs_after_detach() {
    let mut d = Disks::new();
    assert!(d.attach(disk(1, 1, 100)));
    assert!(d.attach(disk(1, 2, 200)));
    assert!(d.attach(disk(1, 1, 300)));
    assert!(d.attach(disk(0, 0, 400)));
    assert!(!d.attach(disk(2, 2, 500)));
    assert_eq!(d.device_count(), 4);
    d.detach(1, 1);
    assert_eq!(d.device_count(), 2);
    assert_eq!(d.block_count(0), Some(200));
    assert_eq!(d.block_count(1), Some(400));
    assert_eq!(d.block_count(2), None);
    assert_eq!(d.block_count(9), None);
    assert_eq!(d.read_block(0, 0x10, 512), Ok([0x28, 0, 0, 0, 0, 0x10, 0, 0, 1, 0]));
    assert_eq!(d.write_block(1, 0x0A0B_0C0D, 4096), Ok([0x2A, 0, 0x0A, 0x0B, 0x0C, 0x0D, 0, 0, 1, 0]));
    assert_eq!(d.read_block(0, 0, 511), Err(()));
    assert_eq!(d.read_block(2, 0, 512), Err(()));
    assert_eq!(d.write_block(4, 0, 512), Err(()));
}

#[test]
fn keyboards_attach_poll_and_detach() {
    let mut k = Keyboards::new();
    assert!(k.attach(ep(2, 0, 1, 1), ep(2, 1, 1, 1)));
    assert!(k.attach(ep(3, 0, 1, 2), ep(3, 1, 1, 2)));
    assert_eq!(k.led_report_targets(), vec![ep(2, 0, 1, 1), ep(3, 0, 1, 2)]);
    assert_eq!(k.on_poll(0, Ok(8)), PollEffect::Report);
    assert_eq!(k.on_poll(0, Ok(0)), PollEffect::Idle);
    for _ in 0..19 {
        assert_eq!(k.on_poll(1, Err(())), PollEffect::Error);
    }
    assert_eq!(k.slots[1].unwrap().error_streak, 19);
    assert_eq!(k.on_poll(1, Err(())), PollEffect::Dropped);
    assert!(k.slots[1].is_none());
    k.detach(1, 1);
    assert!(k.slots[0].is_none());
    assert!(k.led_report_targets().is_empty());
}

#[test]
fn hub_port_bring_up_sequence() {
    let (mut p, op) = PortBringUp::begin(1, 3, 100);
    assert_eq!(op, PortOp::Control(SetupPacket { request_type: 0x23, request: 3, value: 8, index: 3, length: 0 }));
    assert_eq!(p.step(true, 0), PortOp::DelayMs(100));
    assert_eq!(p.step(true, 0), PortOp::Control(SetupPacket { request_type: 0xA3, request: 0, value: 0, index: 3, length: 4 }));
    assert_eq!(p.step(true, 0x0101), PortOp::Control(SetupPacket { request_type: 0x23, request: 3, value: 4, index: 3, length: 0 }));
    assert_eq!(p.step(true, 0), PortOp::DelayMs(50));
    assert_eq!(p.step(true, 0), PortOp::Control(SetupPacket { request_type: 0x23, request: 1, value: 20, index: 3, length: 0 }));
    assert_eq!(p.step(true, 0), PortOp::DelayMs(10));
    assert_eq!(p.step(true, 0), PortOp::Control(SetupPacket { request_type: 0xA3, request: 0, value: 0, index: 3, length: 4 }));
    assert_eq!(p.step(true, 0x0203), PortOp::BringUp { speed: Speed::Low, hub_addr: 1, port: 3 });
    assert_eq!(p.step(true, 0), PortOp::Finished);
}

#[test]
fn hub_port_without_device_stops() {
    let (mut p, _) = PortBringUp::begin(1, 2, 100);
    p.step(true, 0);
    p.step(true, 0);
    assert_eq!(p.step(true, 0x0100), PortOp::Finished);
    let (mut q, _) = PortBringUp::begin(1, 2, 100);
    assert_eq!(q.step(false, 0), PortOp::Finished);
}

#[test]
fn hotplug_scan() {
    assert_eq!(hotplug_change(0x0101, 0x1), Some(true));
    assert_eq!(
        poll_hotplug(&[None, Some((0x0101, 0x1)), Some((0x0100, 0x1)), Some((0x0101, 0x0))]),
        vec![None, Some(true), Some(false), None]
    );
}

fn keyboard_config() -> Vec<u8> {
    let mut cfg: Vec<u8> = vec![9, 2, 34, 0, 1, 1, 0, 0xA0, 50];
    cfg.extend_from_slice(&[9, 4, 0, 0, 1, 3, 1, 1, 0]);
    cfg.extend_from_slice(&[9, 0x21, 0x11, 0x01, 0, 1, 0x22, 63, 0]);
    cfg.extend_from_slice(&[7, 5, 0x81, 3, 8, 0, 10]);
    cfg
}

#[test]
fn configuration_descriptor_walks() {
    let cfg = keyboard_config();
    assert_eq!(config_total_len(&cfg[..9]), Some(34));
    assert_eq!(find_keyboard_endpoint(&cfg), Some((1, 8)));
    let mut msc: Vec<u8> = vec![9, 2, 32, 0, 1, 1, 0, 0x80, 50];
    msc.extend_from_slice(&[9, 4, 0, 0, 2, 8, 6, 0x50, 0]);
    msc.extend_from_slice(&[7, 5, 0x81, 2, 0, 2, 0]);
    msc.extend_from_slice(&[7, 5, 0x02, 2, 0, 2, 0]);
    assert_eq!(find_msc_endpoints(&msc), (Some((1, 512)), Some((2, 512))));
    assert_eq!(find_keyboard_endpoint(&msc), None);
    assert_eq!(config_total_len(&[9, 2, 0, 2, 0, 0, 0, 0, 0]), None);
}

#[test]
fn channel_retries_until_ready() {
    let (mut run, a) = ChannelRun::begin(3);
    assert_eq!(a, ChannelAction::Enable);
    assert_eq!(run.on_halt(Some(0x12)), ChannelAction::Enable);
    assert_eq!(run.on_halt(Some(0x23)), ChannelAction::Complete { status: 0x23 });
    let (mut run, _) = ChannelRun::begin(2);
    assert_eq!(run.on_halt(Some(0x12)), ChannelAction::Enable);
    assert_eq!(run.on_halt(Some(0x12)), ChannelAction::Failed { error: ChannelError::GaveUp });
    let (mut run, _) = ChannelRun::begin(5);
    assert_eq!(run.on_halt(Some(0x0A)), ChannelAction::Failed { error: ChannelError::Stall });
    let (mut run, _) = ChannelRun::begin(5);
    assert_eq!(run.on_halt(None), ChannelAction::Failed { error: ChannelError::Timeout });
    let (_, a) = ChannelRun::begin(0);
    assert_eq!(a, ChannelAction::Failed { error: ChannelError::GaveUp });
}

#[test]
fn control_and_interrupt_transfers() {
    assert_eq!(
        control_transfer(18, true),
        Ok(vec![
            Stage { dir_in: false, pid: 3, size: 8, retries: 10 },
            Stage { dir_in: true, pid: 2, size: 18, retries: 20 },
            Stage { dir_in: false, pid: 2, size: 0, retries: 10 },
        ])
    );
    assert_eq!(control_transfer(0, false).unwrap()[1], Stage { dir_in: true, pid: 2, size: 0, retries: 10 });
    assert_eq!(control_transfer(257, true), Err(()));
    let mut toggle = false;
    assert_eq!(interrupt_in_poll(&mut toggle, 8, Some(0x1)), Ok(8));
    assert!(toggle);
    assert_eq!(interrupt_in_poll(&mut toggle, 8, Some(0x10)), Ok(0));
    assert_eq!(interrupt_in_poll(&mut toggle, 8, None), Ok(0));
    assert_eq!(interrupt_in_poll(&mut toggle, 8, Some(0x8)), Err(()));
    assert!(toggle);
}

#[test]
fn register_script_runs_read_modify_write() {
    let mut run = ScriptRun::new(recover_root_port());
    assert_eq!(run.op(), Op::Read { addr: 0x3F98_0440 });
    run.feed(0x1_1005 | 0x2);
    assert_eq!(run.op(), Op::Write { addr: 0x3F98_0440, value: hprt_update(0x1_1007, 0x100, 0) });
    assert_eq!(hprt_update(0x1_1007, 0x100, 0), 0x1_1105);
    run.feed(0);
    assert_eq!(run.op(), Op::Delay { us: 50_000 });
    run.feed(0);
    run.feed(0x1_1105);
    run.feed(0);
    run.feed(0);
    assert_eq!(run.op(), Op::Read { addr: 0x3F98_0440 });
    run.feed(0x1_1001);
    assert_eq!(run.op(), Op::Finish { ok: false });
    let mut ok = ScriptRun::new(vec![Step::Delay { us: 1 }, Step::RequireSet { addr: 0x3F98_0440, mask: 0x4 }]);
    ok.feed(0);
    ok.feed(0x5);
    assert_eq!(ok.op(), Op::Finish { ok: true });
    assert_eq!(ScriptRun::new(Vec::new()).op(), Op::Finish { ok: true });
}

use ferrugem::boards::raspberrypi3::usb::protocol::{Endpoint, SetupPacket, Speed};
use ferrugem::boards::raspberrypi3::usb::dwc2::{root_speed, root_port_ok, pkt_count};

#[test]
fn endpoint_control_is_endpoint_zero() {
    let e = Endpoint::control(5, 64, Speed::Full, 1, 2);
    assert_eq!(e.ep_num, 0);
    assert_eq!(e.dev_addr, 5);
    assert_eq!(e.max_packet, 64);
    assert_eq!(e.hub_addr, 1);
    assert_eq!(e.hub_port, 2);
}

#[test]
fn split_needed_only_for_slow_device_behind_hub() {
    assert!(Endpoint::control(5, 8, Speed::Low, 1, 2).needs_split());
    assert!(Endpoint::control(5, 8, Speed::Full, 1, 2).needs_split());
    assert!(!Endpoint::control(5, 64, Speed::High, 1, 2).needs_split());
    assert!(!Endpoint::control(5, 8, Speed::Low, 0, 0).needs_split());
}

#[test]
fn setup_packet_bytes_are_little_endian() {
    let p = SetupPacket { request_type: 0x80, request: 6, value: 0x0100, index: 0x0203, length: 18 };
    assert_eq!(p.as_bytes(), [0x80, 6, 0x00, 0x01, 0x03, 0x02, 18, 0]);
}

#[test]
fn root_port_speed_and_state() {
    assert_eq!(root_speed(1 << 17), Speed::Full);
    assert_eq!(root_speed(2 << 17), Speed::Low);
    assert_eq!(root_speed(0), Speed::High);
    assert!(root_port_ok(0x5));
    assert!(!root_port_ok(0x1));
    assert_eq!(pkt_count(0, 64), 1);
    assert_eq!(pkt_count(65, 64), 2);
    assert_eq!(pkt_count(10, 0), 10);
}

//! USB 2.0 standard requests, descriptor types and the shared endpoint
//! addressing type (USB 2.0 chapter 9, HID and hub class specifications).
use vstd::prelude::*;

verus! {

/// Negotiated link speed.
#[derive(Clone, Copy, PartialEq, Eq, Structural, Debug)]
pub enum Speed {
    Low,
    Full,
    High,
}

/// What a transfer needs to address one endpoint, with the hub routing
/// split transactions need. Address 0 is the not-yet-addressed state.
#[derive(Clone, Copy, PartialEq, Eq, Structural, Debug)]
pub struct Endpoint {
    pub dev_addr: u8,
    pub ep_num: u8,
    pub max_packet: u16,
    pub speed: Speed,
    /// Hub the device hangs off, or 0 for the device on the root port.
    pub hub_addr: u8,
    /// 1-based port of `hub_addr`.
    pub hub_port: u8,
}

impl Endpoint {
    /// Endpoint 0 of a device.
    pub fn control(dev_addr: u8, max_packet: u16, speed: Speed, hub_addr: u8, hub_port: u8) -> (e: Endpoint)
        ensures
            e == (Endpoint { dev_addr, ep_num: 0, max_packet, speed, hub_addr, hub_port }),
    {
        Endpoint { dev_addr, ep_num: 0, max_packet, speed, hub_addr, hub_port }
    }

    pub open spec fn spec_needs_split(&self) -> bool {
        self.hub_addr != 0 && self.speed != Speed::High
    }

    /// A Low/Full-speed device behind a hub needs split transactions.
    pub fn needs_split(&self) -> (r: bool)
        ensures
            r == self.spec_needs_split(),
    {
        self.hub_addr != 0 && !matches!(self.speed, Speed::High)
    }
}

pub const REQ_GET_STATUS: u8 = 0;
pub const REQ_CLEAR_FEATURE: u8 = 1;
pub const REQ_SET_FEATURE: u8 = 3;
pub const REQ_SET_ADDRESS: u8 = 5;
pub const REQ_GET_DESCRIPTOR: u8 = 6;
pub const REQ_SET_CONFIGURATION: u8 = 9;
pub const DIR_IN: u8 = 0x80;
pub const DIR_OUT: u8 = 0x00;
pub const TYPE_STANDARD: u8 = 0x00;
pub const TYPE_CLASS: u8 = 0x20;
pub const RECIP_DEVICE: u8 = 0x00;
pub const RECIP_INTERFACE: u8 = 0x01;
pub const RECIP_OTHER: u8 = 0x03;
pub const DESC_DEVICE: u8 = 1;
pub const DESC_CONFIGURATION: u8 = 2;
pub const DESC_HUB: u8 = 0x29;
pub const CLASS_HUB: u8 = 0x09;
pub const CLASS_HID: u8 = 0x03;
/// Mass storage class, SCSI transparent subclass, bulk-only transport.
pub const CLASS_MSC: u8 = 0x08;
pub const MSC_SUBCLASS_SCSI: u8 = 0x06;
pub const MSC_PROTOCOL_BULK_ONLY: u8 = 0x50;
pub const HID_SUBCLASS_BOOT: u8 = 0x01;
pub const HID_PROTOCOL_KEYBOARD: u8 = 0x01;
pub const HID_REQ_SET_IDLE: u8 = 0x0A;
pub const HID_REQ_SET_PROTOCOL: u8 = 0x0B;
pub const HID_BOOT_PROTOCOL: u16 = 0;
pub const HUB_REQ_GET_DESCRIPTOR: u8 = 6;
pub const HUB_REQ_SET_PORT_FEATURE: u8 = 3;
pub const HUB_REQ_CLEAR_PORT_FEATURE: u8 = 1;
pub const FEATURE_PORT_CONNECTION: u16 = 0;
pub const FEATURE_PORT_RESET: u16 = 4;
pub const FEATURE_PORT_POWER: u16 = 8;
pub const FEATURE_C_PORT_CONNECTION: u16 = 16;
pub const FEATURE_C_PORT_RESET: u16 = 20;

/// The 8-byte SETUP stage of a control transfer (USB 2.0 table 9-2).
#[derive(Clone, Copy, PartialEq, Eq, Structural, Debug)]
pub struct SetupPacket {
    pub request_type: u8,
    pub request: u8,
    pub value: u16,
    pub index: u16,
    pub length: u16,
}

/// Wire bytes of a setup packet: the 16-bit fields little-endian.
pub open spec fn setup_bytes(p: SetupPacket) -> Seq<u8> {
    seq![
        p.request_type,
        p.request,
        (p.value & 0xFF) as u8,
        (p.value >> 8u16) as u8,
        (p.index & 0xFF) as u8,
        (p.index >> 8u16) as u8,
        (p.length & 0xFF) as u8,
        (p.length >> 8u16) as u8,
    ]
}

impl SetupPacket {
    pub fn as_bytes(&self) -> (b: [u8; 8])
        ensures
            b@ == setup_bytes(*self),
    {
        let b = [
            self.request_type,
            self.request,
            (self.value & 0xFF) as u8,
            (self.value >> 8u16) as u8,
            (self.index & 0xFF) as u8,
            (self.index >> 8u16) as u8,
            (self.length & 0xFF) as u8,
            (self.length >> 8u16) as u8,
        ];
        assert(b@ =~= setup_bytes(*self));
        b
    }
}

} // verus!

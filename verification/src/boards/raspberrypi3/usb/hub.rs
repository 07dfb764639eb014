//! USB enumeration: the standard and hub-class requests, what a device's
//! descriptors say (a hub, a HID boot keyboard, a bulk-only mass-storage
//! interface), the SET_ADDRESS retry schedule, and the bookkeeping of which
//! hub port holds which keyboard or disk. The caller runs the control
//! transfers.
use vstd::prelude::*;
use crate::bytes::{le16, read_le16};
use crate::boards::raspberrypi3::usb::protocol::{
    Endpoint, SetupPacket, Speed, CLASS_HID, CLASS_HUB, CLASS_MSC, HID_PROTOCOL_KEYBOARD, HID_SUBCLASS_BOOT,
    HUB_REQ_CLEAR_PORT_FEATURE, HUB_REQ_GET_DESCRIPTOR, HUB_REQ_SET_PORT_FEATURE, FEATURE_PORT_POWER,
    FEATURE_PORT_RESET, FEATURE_C_PORT_RESET, MSC_PROTOCOL_BULK_ONLY, MSC_SUBCLASS_SCSI, REQ_GET_DESCRIPTOR,
    REQ_GET_STATUS, REQ_SET_ADDRESS, REQ_SET_CONFIGURATION,
};

verus! {

pub const MAX_PORTS: u8 = 8;
pub const MAX_KEYBOARDS: usize = 4;
pub const MAX_DISKS: usize = 4;
/// wPortChange bit 0: C_PORT_CONNECTION.
pub const C_PORT_CONNECTION_BIT: u16 = 1;
/// Settling time after powering a port found by a hot-plug rescan.
pub const HOTPLUG_SETTLE_MS: u64 = 20;

// ── Requests ───────────────────────────────────────────────────────────────

pub open spec fn setup(request_type: u8, request: u8, value: u16, index: u16, length: u16) -> SetupPacket {
    SetupPacket { request_type, request, value, index, length }
}

/// bmRequestType values: direction, type and recipient combined.
pub const RT_IN_STANDARD_DEVICE: u8 = 0x80;
pub const RT_OUT_STANDARD_DEVICE: u8 = 0x00;
pub const RT_IN_CLASS_DEVICE: u8 = 0xA0;
pub const RT_OUT_CLASS_OTHER: u8 = 0x23;
pub const RT_IN_CLASS_OTHER: u8 = 0xA3;

pub fn get_descriptor(desc_type: u8, index: u8, len: u16) -> (p: SetupPacket)
    ensures
        p == setup(0x80, 6, ((desc_type as u16) << 8u16) | (index as u16), 0, len),
{
    SetupPacket {
        request_type: RT_IN_STANDARD_DEVICE,
        request: REQ_GET_DESCRIPTOR,
        value: ((desc_type as u16) << 8u16) | (index as u16),
        index: 0,
        length: len,
    }
}

pub fn set_address(new_addr: u8) -> (p: SetupPacket)
    ensures
        p == setup(0x00, 5, new_addr as u16, 0, 0),
{
    SetupPacket {
        request_type: RT_OUT_STANDARD_DEVICE,
        request: REQ_SET_ADDRESS,
        value: new_addr as u16,
        index: 0,
        length: 0,
    }
}

pub fn set_configuration(config: u8) -> (p: SetupPacket)
    ensures
        p == setup(0x00, 9, config as u16, 0, 0),
{
    SetupPacket {
        request_type: RT_OUT_STANDARD_DEVICE,
        request: REQ_SET_CONFIGURATION,
        value: config as u16,
        index: 0,
        length: 0,
    }
}

pub fn get_hub_descriptor(len: u16) -> (p: SetupPacket)
    ensures
        p == setup(0xA0, 6, 0x2900, 0, len),
{
    SetupPacket {
        request_type: RT_IN_CLASS_DEVICE,
        request: HUB_REQ_GET_DESCRIPTOR,
        value: 0x2900,
        index: 0,
        length: len,
    }
}

pub fn set_port_feature(port: u8, feature: u16) -> (p: SetupPacket)
    ensures
        p == setup(0x23, 3, feature, port as u16, 0),
{
    SetupPacket {
        request_type: RT_OUT_CLASS_OTHER,
        request: HUB_REQ_SET_PORT_FEATURE,
        value: feature,
        index: port as u16,
        length: 0,
    }
}

pub fn clear_port_feature(port: u8, feature: u16) -> (p: SetupPacket)
    ensures
        p == setup(0x23, 1, feature, port as u16, 0),
{
    SetupPacket {
        request_type: RT_OUT_CLASS_OTHER,
        request: HUB_REQ_CLEAR_PORT_FEATURE,
        value: feature,
        index: port as u16,
        length: 0,
    }
}

pub fn get_port_status(port: u8) -> (p: SetupPacket)
    ensures
        p == setup(0xA3, 0, 0, port as u16, 4),
{
    SetupPacket {
        request_type: RT_IN_CLASS_OTHER,
        request: REQ_GET_STATUS,
        value: 0,
        index: port as u16,
        length: 4,
    }
}

/// `(wPortStatus, wPortChange)` from the 4-byte GET_STATUS reply.
pub fn port_status_and_change(buf: &[u8]) -> (r: (u16, u16))
    requires
        buf@.len() >= 4,
    ensures
        r == (le16(buf@, 0), le16(buf@, 2)),
{
    (read_le16(buf, 0), read_le16(buf, 2))
}

pub open spec fn spec_port_speed(status: u16) -> Speed {
    if status & 0x200 != 0 {
        Speed::Low
    } else if status & 0x400 != 0 {
        Speed::High
    } else {
        Speed::Full
    }
}

/// Speed of a hub port's device from wPortStatus (bit 9 low, bit 10 high).
pub fn port_speed(status: u16) -> (s: Speed)
    ensures
        s == spec_port_speed(status),
{
    if status & 0x200 != 0 {
        Speed::Low
    } else if status & 0x400 != 0 {
        Speed::High
    } else {
        Speed::Full
    }
}

// ── Device bring-up ────────────────────────────────────────────────────────

/// Endpoint-0 packet size: fixed at 8 for low speed, else byte 7 of the
/// device descriptor's first 8 bytes.
pub fn max_packet0(speed: Speed, first8: &[u8]) -> (m: u16)
    requires
        first8@.len() >= 8,
    ensures
        m == if speed == Speed::Low { 8 } else { first8@[7] as u16 },
{
    if matches!(speed, Speed::Low) { 8 } else { first8[7] as u16 }
}

/// Delays before re-reading the device descriptor after SET_ADDRESS, one
/// per attempt.
pub open spec fn recovery_delays() -> Seq<u64> {
    seq![50u64, 100u64, 200u64, 500u64, 1000u64]
}

/// Where addressing a new device stands.
#[derive(Clone, Copy, PartialEq, Eq, Structural, Debug)]
pub enum AddressStep {
    /// (On the root port only) check HPRT and re-reset the port when it
    /// dropped; then send SET_ADDRESS (its failure is not fatal), wait
    /// `delay_ms` and read the device descriptor at the new address.
    Attempt { check_root_port: bool, delay_ms: u64 },
    /// The device answers at its new address.
    Ready,
    /// Give up on the device.
    Abandon,
}

/// The SET_ADDRESS retry schedule: five attempts with growing recovery time.
pub struct AddressRetry {
    pub attempt: usize,
    pub on_root_port: bool,
}

impl AddressRetry {
    pub fn new(hub_addr: u8) -> (r: (AddressRetry, AddressStep))
        ensures
            r.0.attempt == 0,
            r.0.on_root_port == (hub_addr == 0),
            r.1 == (AddressStep::Attempt { check_root_port: hub_addr == 0, delay_ms: 50 }),
    {
        (AddressRetry { attempt: 0, on_root_port: hub_addr == 0 }, AddressStep::Attempt {
            check_root_port: hub_addr == 0,
            delay_ms: 50,
        })
    }

    /// After an attempt: whether the root port recovery (when checked)
    /// failed, and whether the descriptor read succeeded.
    pub fn after_attempt(&mut self, recovery_failed: bool, descriptor_ok: bool) -> (s: AddressStep)
        requires
            old(self).attempt < 5,
        ensures
            final(self).on_root_port == old(self).on_root_port,
            final(self).attempt == old(self).attempt + 1,
            s == if recovery_failed {
                AddressStep::Abandon
            } else if descriptor_ok {
                AddressStep::Ready
            } else if old(self).attempt + 1 < 5 {
                AddressStep::Attempt {
                    check_root_port: old(self).on_root_port,
                    delay_ms: recovery_delays()[old(self).attempt + 1],
                }
            } else {
                AddressStep::Abandon
            },
    {
        let delays: [u64; 5] = [50, 100, 200, 500, 1000];
        self.attempt = self.attempt + 1;
        if recovery_failed {
            AddressStep::Abandon
        } else if descriptor_ok {
            AddressStep::Ready
        } else if self.attempt < 5 {
            assert(delays@ =~= recovery_delays());
            AddressStep::Attempt { check_root_port: self.on_root_port, delay_ms: delays[self.attempt] }
        } else {
            AddressStep::Abandon
        }
    }
}

/// Whether the root port needs recovering before the next attempt.
pub fn needs_recovery(check_root_port: bool, hprt_ok: bool) -> (r: bool)
    ensures
        r == (check_root_port && !hprt_ok),
{
    check_root_port && !hprt_ok
}

/// A device whose descriptor says class 9 is a hub.
pub fn is_hub(dev_desc: &[u8]) -> (r: bool)
    requires
        dev_desc@.len() >= 18,
    ensures
        r == (dev_desc@[4] == CLASS_HUB),
{
    dev_desc[4] == CLASS_HUB
}

/// From a hub descriptor: ports to bring up (at most `MAX_PORTS`) and the
/// power-on settling time in ms (twice bPwrOn2PwrGood, at least 20).
pub fn hub_ports(desc: &[u8]) -> (r: (u8, u64))
    requires
        desc@.len() >= 9,
    ensures
        r.0 == if desc@[2] <= 8 { desc@[2] } else { 8 },
        r.1 == if desc@[5] * 2 >= 20 { desc@[5] * 2 } else { 20 },
{
    let n = if desc[2] <= MAX_PORTS { desc[2] } else { MAX_PORTS };
    let s = desc[5] as u64 * 2;
    (n, if s >= 20 { s } else { 20 })
}

/// After powering a hub port and waiting: connected when wPortStatus bit 0.
pub fn port_connected(status: u16) -> (r: bool)
    ensures
        r == (status & 1 != 0),
{
    status & 1 != 0
}

/// After resetting a hub port: enabled when wPortStatus bit 1.
pub fn port_enabled(status: u16) -> (r: bool)
    ensures
        r == (status & 2 != 0),
{
    status & 2 != 0
}

/// Hot-plug rescan of one root-hub port: `None` when its connection did not
/// change; else whether something is now connected (to bring up after the
/// change bit is cleared and whatever was there is removed).
pub fn hotplug_change(status: u16, change: u16) -> (r: Option<bool>)
    ensures
        r == if change & C_PORT_CONNECTION_BIT == 0 { None } else { Some(status & 1 != 0) },
{
    if change & C_PORT_CONNECTION_BIT == 0 {
        None
    } else {
        Some(status & 1 != 0)
    }
}

/// USB device addresses, handed out from 1 up.
pub struct AddrAlloc {
    pub next: u8,
}

impl AddrAlloc {
    pub fn new() -> (a: AddrAlloc)
        ensures
            a.next == 1,
    {
        AddrAlloc { next: 1 }
    }

    pub fn alloc_addr(&mut self) -> (a: u8)
        requires
            old(self).next < 255,
        ensures
            a == old(self).next,
            final(self).next == old(self).next + 1,
    {
        let a = self.next;
        self.next = self.next + 1;
        a
    }
}

/// Enumeration starts with the device on the root port: its speed from
/// HPRT, no hub, and the first free address.
pub fn enumerate_root(hprt: u32, alloc: &mut AddrAlloc) -> (r: (Speed, u8))
    requires
        old(alloc).next < 255,
    ensures
        r.0 == crate::boards::raspberrypi3::usb::dwc2::spec_root_speed(hprt),
        r.1 == old(alloc).next,
        final(alloc).next == old(alloc).next + 1,
{
    let speed = crate::boards::raspberrypi3::usb::dwc2::root_speed(hprt);
    (speed, alloc.alloc_addr())
}

// ── Configuration descriptors ──────────────────────────────────────────────

/// wTotalLength of a configuration descriptor header, when it is a size this
/// driver reads (9 to 256 bytes).
pub fn config_total_len(hdr: &[u8]) -> (r: Option<usize>)
    requires
        hdr@.len() >= 9,
    ensures
        r == if 9 <= le16(hdr@, 2) <= 256 { Some(le16(hdr@, 2) as usize) } else { None::<usize> },
{
    let t = read_le16(hdr, 2);
    if 9 <= t && t <= 256 { Some(t as usize) } else { None }
}

/// An interface descriptor at `i` sets whether the interface's endpoints
/// are of interest (by class, subclass, protocol).
pub open spec fn iface_matches(cfg: Seq<u8>, i: int, class: u8, subclass: u8, proto: u8) -> bool {
    cfg[i + 5] == class && cfg[i + 6] == subclass && cfg[i + 7] == proto
}

/// Endpoint number and max packet of the endpoint descriptor at `i`.
pub open spec fn ep_info(cfg: Seq<u8>, i: int) -> (u8, u16) {
    (cfg[i + 2] & 0x0F, le16(cfg, i + 4))
}

/// Walk of the descriptors from offset `i` for a HID boot keyboard's first
/// interrupt-IN endpoint: each descriptor is `cfg[i]` bytes, type
/// `cfg[i + 1]`; a zero length ends the walk.
pub open spec fn kbd_walk(cfg: Seq<u8>, i: int, in_kbd: bool, found: Option<(u8, u16)>) -> Option<(u8, u16)>
    decreases cfg.len() + 256 - i,
{
    if i < 0 || i + 2 > cfg.len() || cfg[i] == 0 {
        found
    } else {
        let dtype = cfg[i + 1];
        let (in2, f2) = if dtype == 4 && i + 9 <= cfg.len() {
            (iface_matches(cfg, i, CLASS_HID, HID_SUBCLASS_BOOT, HID_PROTOCOL_KEYBOARD), found)
        } else if dtype == 5 && in_kbd && found is None && i + 7 <= cfg.len() {
            (in_kbd, if cfg[i + 2] & 0x80 != 0 && cfg[i + 3] & 3 == 3 { Some(ep_info(cfg, i)) } else { found })
        } else {
            (in_kbd, found)
        };
        kbd_walk(cfg, i + cfg[i], in2, f2)
    }
}

/// The same walk for a mass-storage bulk-only interface's first bulk-IN and
/// first bulk-OUT endpoints.
pub open spec fn msc_walk(cfg: Seq<u8>, i: int, in_msc: bool, bin: Option<(u8, u16)>, bout: Option<(u8, u16)>) -> (
    Option<(u8, u16)>,
    Option<(u8, u16)>,
)
    decreases cfg.len() + 256 - i,
{
    if i < 0 || i + 2 > cfg.len() || cfg[i] == 0 {
        (bin, bout)
    } else {
        let dtype = cfg[i + 1];
        if dtype == 4 && i + 9 <= cfg.len() {
            msc_walk(
                cfg,
                i + cfg[i],
                iface_matches(cfg, i, CLASS_MSC, MSC_SUBCLASS_SCSI, MSC_PROTOCOL_BULK_ONLY),
                bin,
                bout,
            )
        } else if dtype == 5 && in_msc && i + 7 <= cfg.len() && cfg[i + 3] & 3 == 2 {
            if cfg[i + 2] & 0x80 != 0 {
                msc_walk(cfg, i + cfg[i], in_msc, if bin is None { Some(ep_info(cfg, i)) } else { bin }, bout)
            } else {
                msc_walk(cfg, i + cfg[i], in_msc, bin, if bout is None { Some(ep_info(cfg, i)) } else { bout })
            }
        } else {
            msc_walk(cfg, i + cfg[i], in_msc, bin, bout)
        }
    }
}

/// A HID boot keyboard interface descriptor at offset `k`: type 4, class
/// 0x03 (HID), subclass 0x01 (boot), protocol 0x01 (keyboard).
pub open spec fn keyboard_interface_at(cfg: Seq<u8>, k: int) -> bool {
    &&& 0 <= k && k + 9 <= cfg.len()
    &&& cfg[k + 1] == 4 && cfg[k + 5] == 0x03 && cfg[k + 6] == 0x01 && cfg[k + 7] == 0x01
}

/// An interrupt-IN endpoint descriptor at offset `j` (type 5, direction bit
/// 7 set, transfer type 3) with endpoint number and max packet `info`.
pub open spec fn interrupt_in_at(cfg: Seq<u8>, j: int, info: (u8, u16)) -> bool {
    &&& 0 <= j && j + 7 <= cfg.len()
    &&& cfg[j + 1] == 5 && cfg[j + 2] & 0x80 != 0 && cfg[j + 3] & 3 == 3
    &&& info == (cfg[j + 2] & 0x0F, le16(cfg, j + 4))
}

/// A bulk-only mass-storage interface descriptor at offset `k`: type 4,
/// class 0x08, subclass 0x06 (SCSI), protocol 0x50 (bulk only).
pub open spec fn msc_interface_at(cfg: Seq<u8>, k: int) -> bool {
    &&& 0 <= k && k + 9 <= cfg.len()
    &&& cfg[k + 1] == 4 && cfg[k + 5] == 0x08 && cfg[k + 6] == 0x06 && cfg[k + 7] == 0x50
}

/// A bulk endpoint descriptor at offset `j` (type 5, transfer type 2), IN
/// when `dir_in`, else OUT, with number and max packet `info`.
pub open spec fn bulk_at(cfg: Seq<u8>, j: int, dir_in: bool, info: (u8, u16)) -> bool {
    &&& 0 <= j && j + 7 <= cfg.len()
    &&& cfg[j + 1] == 5 && cfg[j + 3] & 3 == 2 && (cfg[j + 2] & 0x80 != 0) == dir_in
    &&& info == (cfg[j + 2] & 0x0F, le16(cfg, j + 4))
}

pub open spec fn keyboard_endpoint_in(cfg: Seq<u8>, info: (u8, u16)) -> bool {
    exists|k: int, j: int| k < j && #[trigger] keyboard_interface_at(cfg, k) && #[trigger] interrupt_in_at(cfg, j, info)
}

pub open spec fn bulk_endpoint_in(cfg: Seq<u8>, dir_in: bool, info: (u8, u16)) -> bool {
    exists|k: int, j: int| k < j && #[trigger] msc_interface_at(cfg, k) && #[trigger] bulk_at(cfg, j, dir_in, info)
}

proof fn lemma_kbd_walk_sound(cfg: Seq<u8>, i: int, in_kbd: bool, found: Option<(u8, u16)>)
    requires
        0 <= i,
        in_kbd ==> exists|k: int| k < i && #[trigger] keyboard_interface_at(cfg, k),
        found matches Some(info) ==> keyboard_endpoint_in(cfg, info),
    ensures
        kbd_walk(cfg, i, in_kbd, found) matches Some(info) ==> keyboard_endpoint_in(cfg, info),
    decreases cfg.len() + 256 - i,
{
    if !(i < 0 || i + 2 > cfg.len() || cfg[i] == 0) {
        let dtype = cfg[i + 1];
        let i2 = i + cfg[i];
        if dtype == 4 && i + 9 <= cfg.len() {
            let in2 = iface_matches(cfg, i, CLASS_HID, HID_SUBCLASS_BOOT, HID_PROTOCOL_KEYBOARD);
            if in2 {
                assert(keyboard_interface_at(cfg, i));
            }
            lemma_kbd_walk_sound(cfg, i2, in2, found);
        } else if dtype == 5 && in_kbd && found is None && i + 7 <= cfg.len() {
            let k = choose|k: int| k < i && #[trigger] keyboard_interface_at(cfg, k);
            let f2 = if cfg[i + 2] & 0x80 != 0 && cfg[i + 3] & 3 == 3 { Some(ep_info(cfg, i)) } else { found };
            if cfg[i + 2] & 0x80 != 0 && cfg[i + 3] & 3 == 3 {
                assert(interrupt_in_at(cfg, i, ep_info(cfg, i)));
                assert(keyboard_endpoint_in(cfg, ep_info(cfg, i)));
            }
            assert(k < i2 && keyboard_interface_at(cfg, k));
            lemma_kbd_walk_sound(cfg, i2, in_kbd, f2);
        } else {
            if in_kbd {
                let k = choose|k: int| k < i && #[trigger] keyboard_interface_at(cfg, k);
                assert(k < i2 && keyboard_interface_at(cfg, k));
            }
            lemma_kbd_walk_sound(cfg, i2, in_kbd, found);
        }
    }
}

proof fn lemma_msc_walk_sound(
    cfg: Seq<u8>,
    i: int,
    in_msc: bool,
    bin: Option<(u8, u16)>,
    bout: Option<(u8, u16)>,
)
    requires
        0 <= i,
        in_msc ==> exists|k: int| k < i && #[trigger] msc_interface_at(cfg, k),
        bin matches Some(info) ==> bulk_endpoint_in(cfg, true, info),
        bout matches Some(info) ==> bulk_endpoint_in(cfg, false, info),
    ensures
        msc_walk(cfg, i, in_msc, bin, bout).0 matches Some(info) ==> bulk_endpoint_in(cfg, true, info),
        msc_walk(cfg, i, in_msc, bin, bout).1 matches Some(info) ==> bulk_endpoint_in(cfg, false, info),
    decreases cfg.len() + 256 - i,
{
    if !(i < 0 || i + 2 > cfg.len() || cfg[i] == 0) {
        let dtype = cfg[i + 1];
        let i2 = i + cfg[i];
        if in_msc {
            let k = choose|k: int| k < i && #[trigger] msc_interface_at(cfg, k);
            assert(k < i2 && msc_interface_at(cfg, k));
        }
        if dtype == 4 && i + 9 <= cfg.len() {
            let in2 = iface_matches(cfg, i, CLASS_MSC, MSC_SUBCLASS_SCSI, MSC_PROTOCOL_BULK_ONLY);
            if in2 {
                assert(msc_interface_at(cfg, i));
            }
            lemma_msc_walk_sound(cfg, i2, in2, bin, bout);
        } else if dtype == 5 && in_msc && i + 7 <= cfg.len() && cfg[i + 3] & 3 == 2 {
            let k = choose|k: int| k < i && #[trigger] msc_interface_at(cfg, k);
            if cfg[i + 2] & 0x80 != 0 {
                if bin is None {
                    assert(bulk_at(cfg, i, true, ep_info(cfg, i)));
                    assert(bulk_endpoint_in(cfg, true, ep_info(cfg, i)));
                }
                lemma_msc_walk_sound(cfg, i2, in_msc, if bin is None { Some(ep_info(cfg, i)) } else { bin }, bout);
            } else {
                if bout is None {
                    assert(bulk_at(cfg, i, false, ep_info(cfg, i)));
                    assert(bulk_endpoint_in(cfg, false, ep_info(cfg, i)));
                }
                lemma_msc_walk_sound(cfg, i2, in_msc, bin, if bout is None { Some(ep_info(cfg, i)) } else { bout });
            }
        } else {
            lemma_msc_walk_sound(cfg, i2, in_msc, bin, bout);
        }
    }
}

/// A configuration descriptor yields a keyboard endpoint only from an
/// interrupt-IN endpoint descriptor that comes after a HID boot keyboard
/// interface descriptor (class 0x03, subclass 0x01, protocol 0x01); a
/// configuration with no such interface (a boot mouse, protocol 2, say)
/// yields none.
pub proof fn keyboard_endpoint_needs_keyboard_interface(cfg: Seq<u8>)
    ensures
        kbd_walk(cfg, 0, false, None) matches Some(info) ==> keyboard_endpoint_in(cfg, info),
        (forall|k: int| !#[trigger] keyboard_interface_at(cfg, k)) ==> kbd_walk(cfg, 0, false, None) is None,
{
    lemma_kbd_walk_sound(cfg, 0, false, None);
}

/// A configuration descriptor yields a bulk-IN (bulk-OUT) endpoint only
/// from a bulk endpoint descriptor of that direction that comes after a
/// bulk-only mass-storage interface descriptor (class 0x08, subclass 0x06,
/// protocol 0x50).
pub proof fn bulk_endpoints_need_storage_interface(cfg: Seq<u8>)
    ensures
        msc_walk(cfg, 0, false, None, None).0 matches Some(info) ==> bulk_endpoint_in(cfg, true, info),
        msc_walk(cfg, 0, false, None, None).1 matches Some(info) ==> bulk_endpoint_in(cfg, false, info),
{
    lemma_msc_walk_sound(cfg, 0, false, None, None);
}

/// The keyboard's interrupt-IN endpoint (number, max packet) in a full
/// configuration descriptor, if it has one.
pub fn find_keyboard_endpoint(cfg: &[u8]) -> (r: Option<(u8, u16)>)
    requires
        cfg@.len() <= 256,
    ensures
        r == kbd_walk(cfg@, 0, false, None),
        r matches Some(info) ==> keyboard_endpoint_in(cfg@, info),
{
    proof {
        keyboard_endpoint_needs_keyboard_interface(cfg@);
    }
    let n = cfg.len();
    let mut i: usize = 0;
    let mut in_kbd = false;
    let mut found: Option<(u8, u16)> = None;
    while i + 2 <= n
        invariant
            n == cfg@.len(),
            n <= 256,
            i <= n + 255,
            kbd_walk(cfg@, i as int, in_kbd, found) == kbd_walk(cfg@, 0, false, None),
        ensures
            kbd_walk(cfg@, i as int, in_kbd, found) == kbd_walk(cfg@, 0, false, None),
            i + 2 > n || cfg@[i as int] == 0,
        decreases n + 256 - i,
    {
        let len = cfg[i] as usize;
        if len == 0 {
            break;
        }
        let dtype = cfg[i + 1];
        if dtype == 4 && i + 9 <= n {
            in_kbd = cfg[i + 5] == CLASS_HID && cfg[i + 6] == HID_SUBCLASS_BOOT && cfg[i + 7] == HID_PROTOCOL_KEYBOARD;
        } else if dtype == 5 && in_kbd && found.is_none() && i + 7 <= n {
            let ep_addr = cfg[i + 2];
            let attrs = cfg[i + 3];
            let max_pkt = read_le16(cfg, i + 4);
            if ep_addr & 0x80 != 0 && attrs & 0x3 == 3 {
                found = Some((ep_addr & 0x0F, max_pkt));
            }
        }
        i = i + len;
    }
    found
}

/// The bulk-IN and bulk-OUT endpoints of a mass-storage bulk-only
/// interface in a full configuration descriptor.
pub fn find_msc_endpoints(cfg: &[u8]) -> (r: (Option<(u8, u16)>, Option<(u8, u16)>))
    requires
        cfg@.len() <= 256,
    ensures
        r == msc_walk(cfg@, 0, false, None, None),
        r.0 matches Some(info) ==> bulk_endpoint_in(cfg@, true, info),
        r.1 matches Some(info) ==> bulk_endpoint_in(cfg@, false, info),
{
    proof {
        bulk_endpoints_need_storage_interface(cfg@);
    }
    let n = cfg.len();
    let mut i: usize = 0;
    let mut in_msc = false;
    let mut bin: Option<(u8, u16)> = None;
    let mut bout: Option<(u8, u16)> = None;
    while i + 2 <= n
        invariant
            n == cfg@.len(),
            n <= 256,
            i <= n + 255,
            msc_walk(cfg@, i as int, in_msc, bin, bout) == msc_walk(cfg@, 0, false, None, None),
        ensures
            msc_walk(cfg@, i as int, in_msc, bin, bout) == msc_walk(cfg@, 0, false, None, None),
            i + 2 > n || cfg@[i as int] == 0,
        decreases n + 256 - i,
    {
        let len = cfg[i] as usize;
        if len == 0 {
            break;
        }
        let dtype = cfg[i + 1];
        if dtype == 4 && i + 9 <= n {
            in_msc = cfg[i + 5] == CLASS_MSC && cfg[i + 6] == MSC_SUBCLASS_SCSI && cfg[i + 7] == MSC_PROTOCOL_BULK_ONLY;
        } else if dtype == 5 && in_msc && i + 7 <= n {
            let ep_addr = cfg[i + 2];
            let attrs = cfg[i + 3];
            let max_pkt = read_le16(cfg, i + 4);
            if attrs & 0x3 == 0x2 {
                if ep_addr & 0x80 != 0 {
                    if bin.is_none() {
                        bin = Some((ep_addr & 0x0F, max_pkt));
                    }
                } else if bout.is_none() {
                    bout = Some((ep_addr & 0x0F, max_pkt));
                }
            }
        }
        i = i + len;
    }
    (bin, bout)
}

/// An endpoint of the device behind `ep0`.
pub open spec fn device_ep(ep0: Endpoint, info: (u8, u16)) -> Endpoint {
    Endpoint {
        dev_addr: ep0.dev_addr,
        ep_num: info.0,
        max_packet: info.1,
        speed: ep0.speed,
        hub_addr: ep0.hub_addr,
        hub_port: ep0.hub_port,
    }
}

fn make_ep(ep0: &Endpoint, info: (u8, u16)) -> (e: Endpoint)
    ensures
        e == device_ep(*ep0, info),
{
    Endpoint {
        dev_addr: ep0.dev_addr,
        ep_num: info.0,
        max_packet: info.1,
        speed: ep0.speed,
        hub_addr: ep0.hub_addr,
        hub_port: ep0.hub_port,
    }
}

/// Whether a device with configuration descriptor `cfg` is a HID boot
/// keyboard: the configuration to select (byte 5) and its interrupt-IN
/// endpoint; `None` when it is not, and the device is left unconfigured.
pub fn enumerate_as_hid_keyboard(ep0: &Endpoint, cfg: &[u8]) -> (r: Option<(u8, Endpoint)>)
    requires
        9 <= cfg@.len() <= 256,
    ensures
        r == match kbd_walk(cfg@, 0, false, None) {
            Some(info) => Some((cfg@[5], device_ep(*ep0, info))),
            None => None::<(u8, Endpoint)>,
        },
{
    match find_keyboard_endpoint(cfg) {
        Some(info) => Some((cfg[5], make_ep(ep0, info))),
        None => None,
    }
}

/// Whether a device with configuration descriptor `cfg` is a bulk-only mass
/// storage device: the configuration to select and its bulk-IN and
/// bulk-OUT endpoints; `None` unless both endpoints exist.
pub fn enumerate_as_msc(ep0: &Endpoint, cfg: &[u8]) -> (r: Option<(u8, Endpoint, Endpoint)>)
    requires
        9 <= cfg@.len() <= 256,
    ensures
        r == match msc_walk(cfg@, 0, false, None, None) {
            (Some(i), Some(o)) => Some((cfg@[5], device_ep(*ep0, i), device_ep(*ep0, o))),
            _ => None::<(u8, Endpoint, Endpoint)>,
        },
{
    match find_msc_endpoints(cfg) {
        (Some(i), Some(o)) => Some((cfg[5], make_ep(ep0, i), make_ep(ep0, o))),
        _ => None,
    }
}

/// What a device that is not a hub is taken as.
#[derive(Clone, Copy, PartialEq, Eq, Structural, Debug)]
pub enum DeviceRole {
    /// A HID boot keyboard: configuration to select, interrupt-IN endpoint.
    Keyboard { config: u8, ep: Endpoint },
    /// A bulk-only mass-storage device: configuration, bulk-IN, bulk-OUT.
    Disk { config: u8, bulk_in: Endpoint, bulk_out: Endpoint },
    /// Neither: the device is left unconfigured.
    Unsupported,
}

/// The role of a device that is not a hub, from its configuration
/// descriptor `cfg`: a boot keyboard if it has one (checked first), else a
/// mass-storage device if it has both bulk endpoints, else unsupported.
/// (Whether it is a hub is decided first, from the device descriptor, by
/// `is_hub`.)
pub fn classify_device(ep0: &Endpoint, cfg: &[u8]) -> (r: DeviceRole)
    requires
        9 <= cfg@.len() <= 256,
    ensures
        r == match kbd_walk(cfg@, 0, false, None) {
            Some(info) => DeviceRole::Keyboard { config: cfg@[5], ep: device_ep(*ep0, info) },
            None => match msc_walk(cfg@, 0, false, None, None) {
                (Some(i), Some(o)) => DeviceRole::Disk {
                    config: cfg@[5],
                    bulk_in: device_ep(*ep0, i),
                    bulk_out: device_ep(*ep0, o),
                },
                _ => DeviceRole::Unsupported,
            },
        },
        r is Keyboard ==> exists|k: int| #[trigger] keyboard_interface_at(cfg@, k),
        r is Disk ==> exists|k: int| #[trigger] msc_interface_at(cfg@, k),
{
    proof {
        keyboard_endpoint_needs_keyboard_interface(cfg@);
        bulk_endpoints_need_storage_interface(cfg@);
    }
    if let Some((config, ep)) = enumerate_as_hid_keyboard(ep0, cfg) {
        return DeviceRole::Keyboard { config, ep };
    }
    match enumerate_as_msc(ep0, cfg) {
        Some((config, bulk_in, bulk_out)) => DeviceRole::Disk { config, bulk_in, bulk_out },
        None => DeviceRole::Unsupported,
    }
}

// ── Where devices are attached ─────────────────────────────────────────────

/// Which hub port (hub address, port) each of four device slots holds.
pub struct Locations {
    pub slots: [Option<(u8, u8)>; 4],
}

/// Index of the first empty slot of four, or 4 when all are taken.
pub open spec fn first_free<T>(s: Seq<Option<T>>) -> int {
    if s[0] is None {
        0
    } else if s[1] is None {
        1
    } else if s[2] is None {
        2
    } else if s[3] is None {
        3
    } else {
        4
    }
}

impl Locations {
    pub fn new() -> (l: Locations)
        ensures
            forall|i: int| 0 <= i < 4 ==> l.slots@[i] is None,
    {
        Locations { slots: [None, None, None, None] }
    }

    /// Record a device at `at` in the first free slot; `false` when all
    /// four are taken.
    pub fn add(&mut self, at: (u8, u8)) -> (ok: bool)
        ensures
            ok == (first_free(old(self).slots@) < 4),
            ok ==> final(self).slots@ == old(self).slots@.update(first_free(old(self).slots@), Some(at)),
            !ok ==> final(self).slots@ == old(self).slots@,
    {
        let mut i: usize = 0;
        while i < 4
            invariant
                i <= 4,
                self.slots@ == old(self).slots@,
                forall|k: int| 0 <= k < i ==> old(self).slots@[k] is Some,
            decreases 4 - i,
        {
            if self.slots[i].is_none() {
                self.slots[i] = Some(at);
                return true;
            }
            i = i + 1;
        }
        false
    }

    /// Forget every device recorded at `at`.
    pub fn remove_at(&mut self, at: (u8, u8))
        ensures
            forall|i: int| 0 <= i < 4 ==> #[trigger] final(self).slots@[i] == if old(self).slots@[i] == Some(at) {
                None
            } else {
                old(self).slots@[i]
            },
    {
        let mut i: usize = 0;
        while i < 4
            invariant
                i <= 4,
                forall|k: int| 0 <= k < 4 ==> #[trigger] self.slots@[k] == if k < i && old(self).slots@[k] == Some(at) {
                    None
                } else {
                    old(self).slots@[k]
                },
            decreases 4 - i,
        {
            match self.slots[i] {
                Some(p) => {
                    if p.0 == at.0 && p.1 == at.1 {
                        self.slots[i] = None;
                    }
                },
                None => {},
            }
            i = i + 1;
        }
    }
}

// ── Bringing up one hub port ────────────────────────────────────────────

/// What the caller does next for a hub port: a control transfer to the hub
/// (feed back whether it succeeded and, for GET_STATUS, wPortStatus), a
/// delay, bringing up the device now enabled on the port, or nothing more.
#[derive(Clone, Copy, PartialEq, Eq, Structural, Debug)]
pub enum PortOp {
    Control(SetupPacket),
    DelayMs(u64),
    BringUp { speed: Speed, hub_addr: u8, port: u8 },
    Finished,
}

/// A port of hub `hub_addr` on its way up: power, settle, check connection,
/// reset (50 ms pulse, clear C_PORT_RESET, 10 ms recovery), check enabled.
pub struct PortBringUp {
    pub hub_addr: u8,
    pub port: u8,
    pub settle_ms: u64,
    /// Operations done so far.
    pub stage: u8,
}

/// The operation after stage `stage` completed with `ok` / `status`, and
/// the stage it leaves the port at.
pub open spec fn port_next(p: PortBringUp, ok: bool, status: u16) -> (u8, PortOp) {
    if p.stage == 0 {
        if ok { (1, PortOp::DelayMs(p.settle_ms)) } else { (8, PortOp::Finished) }
    } else if p.stage == 1 {
        (2, PortOp::Control(setup(0xA3, 0, 0, p.port as u16, 4)))
    } else if p.stage == 2 {
        if ok && status & 1 != 0 {
            (3, PortOp::Control(setup(0x23, 3, FEATURE_PORT_RESET, p.port as u16, 0)))
        } else {
            (8, PortOp::Finished)
        }
    } else if p.stage == 3 {
        if ok { (4, PortOp::DelayMs(50)) } else { (8, PortOp::Finished) }
    } else if p.stage == 4 {
        (5, PortOp::Control(setup(0x23, 1, FEATURE_C_PORT_RESET, p.port as u16, 0)))
    } else if p.stage == 5 {
        (6, PortOp::DelayMs(10))
    } else if p.stage == 6 {
        (7, PortOp::Control(setup(0xA3, 0, 0, p.port as u16, 4)))
    } else if p.stage == 7 {
        if ok && status & 2 != 0 {
            (8, PortOp::BringUp { speed: spec_port_speed(status), hub_addr: p.hub_addr, port: p.port })
        } else {
            (8, PortOp::Finished)
        }
    } else {
        (8, PortOp::Finished)
    }
}

impl PortBringUp {
    /// Start with SET_FEATURE(PORT_POWER).
    pub fn begin(hub_addr: u8, port: u8, settle_ms: u64) -> (r: (PortBringUp, PortOp))
        ensures
            r.0 == (PortBringUp { hub_addr, port, settle_ms, stage: 0 }),
            r.1 == PortOp::Control(setup(0x23, 3, FEATURE_PORT_POWER, port as u16, 0)),
    {
        (PortBringUp { hub_addr, port, settle_ms, stage: 0 }, PortOp::Control(set_port_feature(port, FEATURE_PORT_POWER)))
    }

    /// The last operation completed (`ok`; `status` is wPortStatus after a
    /// GET_STATUS): the next one. Failures along the way, no connection, or
    /// no enable after the reset end it.
    pub fn step(&mut self, ok: bool, status: u16) -> (o: PortOp)
        ensures
            (final(self).stage, o) == port_next(*old(self), ok, status),
            final(self).hub_addr == old(self).hub_addr && final(self).port == old(self).port,
            final(self).settle_ms == old(self).settle_ms,
    {
        let (stage, o) = if self.stage == 0 {
            if ok { (1u8, PortOp::DelayMs(self.settle_ms)) } else { (8u8, PortOp::Finished) }
        } else if self.stage == 1 {
            (2u8, PortOp::Control(get_port_status(self.port)))
        } else if self.stage == 2 {
            if ok && port_connected(status) {
                (3u8, PortOp::Control(set_port_feature(self.port, FEATURE_PORT_RESET)))
            } else {
                (8u8, PortOp::Finished)
            }
        } else if self.stage == 3 {
            if ok { (4u8, PortOp::DelayMs(50)) } else { (8u8, PortOp::Finished) }
        } else if self.stage == 4 {
            (5u8, PortOp::Control(clear_port_feature(self.port, FEATURE_C_PORT_RESET)))
        } else if self.stage == 5 {
            (6u8, PortOp::DelayMs(10))
        } else if self.stage == 6 {
            (7u8, PortOp::Control(get_port_status(self.port)))
        } else if self.stage == 7 {
            if ok && port_enabled(status) {
                (8u8, PortOp::BringUp { speed: port_speed(status), hub_addr: self.hub_addr, port: self.port })
            } else {
                (8u8, PortOp::Finished)
            }
        } else {
            (8u8, PortOp::Finished)
        };
        self.stage = stage;
        o
    }
}

/// A hot-plug rescan of the root hub: given, for ports 1 to `num_ports`,
/// the (status, change) pair GET_STATUS returned (or `None` when it failed),
/// what each port calls for: nothing, or clearing
/// the change, dropping whatever was there, and bringing the port up again
/// when something is now connected.
pub fn poll_hotplug(results: &[Option<(u16, u16)>]) -> (acts: Vec<Option<bool>>)
    ensures
        acts@.len() == results@.len(),
        forall|i: int| 0 <= i < results@.len() ==> #[trigger] acts@[i] == match results@[i] {
            None => None::<bool>,
            Some((status, change)) => if change & C_PORT_CONNECTION_BIT == 0 {
                None::<bool>
            } else {
                Some(status & 1 != 0)
            },
        },
{
    let mut acts: Vec<Option<bool>> = Vec::new();
    let mut i: usize = 0;
    while i < results.len()
        invariant
            i <= results@.len(),
            acts@.len() == i,
            forall|k: int| 0 <= k < i ==> #[trigger] acts@[k] == match results@[k] {
                None => None::<bool>,
                Some((status, change)) => if change & C_PORT_CONNECTION_BIT == 0 {
                    None::<bool>
                } else {
                    Some(status & 1 != 0)
                },
            },
        decreases results@.len() - i,
    {
        let a = match results[i] {
            None => None,
            Some((status, change)) => hotplug_change(status, change),
        };
        acts.push(a);
        i = i + 1;
    }
    acts
}

} // verus!

//! USB host stack of the Raspberry Pi 3: DWC2 controller, enumeration
//! through the onboard hub, HID boot keyboards and bulk-only disks, with a
//! periodic hot-plug rescan of the root hub's ports driven by key polling.
use vstd::prelude::*;

pub mod dwc2;
pub mod hid;
pub mod hub;
pub mod msc;
pub mod protocol;

verus! {

/// Key polls between two hot-plug rescans.
pub const HOTPLUG_POLL_PERIOD: u32 = 256;

/// Counts key polls to pace hot-plug rescans.
pub struct UsbInput {
    pub poll_count: u32,
}

impl UsbInput {
    pub fn new() -> (u: UsbInput)
        ensures
            u.poll_count == 0,
    {
        UsbInput { poll_count: 0 }
    }

    /// Count one key poll (wrapping); `true` when the root hub's ports are
    /// due a rescan, every `HOTPLUG_POLL_PERIOD` polls.
    pub fn maybe_poll_hotplug(&mut self) -> (rescan: bool)
        ensures
            final(self).poll_count == old(self).poll_count.wrapping_add(1),
            rescan == (final(self).poll_count % HOTPLUG_POLL_PERIOD == 0),
    {
        self.poll_count = self.poll_count.wrapping_add(1);
        self.poll_count % HOTPLUG_POLL_PERIOD == 0
    }
}

/// Enumeration runs only once the controller came up with a device on the
/// root port.
pub fn init(controller_up: bool) -> (enumerate: bool)
    ensures
        enumerate == controller_up,
{
    controller_up
}

/// `has_key`: count the poll (`.0`: rescan now); the keyboards are polled
/// (`.1`) only when no decoded byte is already waiting.
pub fn has_key(input: &mut UsbInput, buffered: bool) -> (r: (bool, bool))
    ensures
        final(input).poll_count == old(input).poll_count.wrapping_add(1),
        r.0 == (final(input).poll_count % HOTPLUG_POLL_PERIOD == 0),
        r.1 == !buffered,
{
    let rescan = input.maybe_poll_hotplug();
    (rescan, !buffered)
}

/// `take_key`: count the poll (`.0`: rescan now); a waiting byte is taken
/// at once (`.1`), otherwise the keyboards are polled first.
pub fn take_key(input: &mut UsbInput, buffered: Option<u8>) -> (r: (bool, Option<u8>))
    ensures
        final(input).poll_count == old(input).poll_count.wrapping_add(1),
        r.0 == (final(input).poll_count % HOTPLUG_POLL_PERIOD == 0),
        r.1 == buffered,
{
    let rescan = input.maybe_poll_hotplug();
    (rescan, buffered)
}

} // verus!

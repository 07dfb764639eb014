//! HID boot-protocol keyboards: the class requests that switch a keyboard
//! to boot reports, the table of attached keyboards, and what a poll result
//! does to a keyboard's error streak. Report decoding into key bytes is the
//! keyboard driver's business.
use vstd::prelude::*;
use crate::boards::raspberrypi3::usb::hub::first_free;
use crate::boards::raspberrypi3::usb::protocol::{Endpoint, SetupPacket};

verus! {

pub const HID_REQ_SET_REPORT: u8 = 0x09;
pub const HID_REPORT_TYPE_OUTPUT: u16 = 0x02;
pub const MAX_DEVICES: usize = 4;
/// Consecutive transfer errors after which a keyboard is dropped.
pub const ERROR_STREAK_LIMIT: u32 = 20;

/// SET_PROTOCOL(boot) to interface 0.
pub fn set_protocol() -> (p: SetupPacket)
    ensures
        p == (SetupPacket { request_type: 0x21, request: 0x0B, value: 0, index: 0, length: 0 }),
{
    SetupPacket { request_type: 0x21, request: 0x0B, value: 0, index: 0, length: 0 }
}

/// SET_IDLE(0): report only on change.
pub fn set_idle() -> (p: SetupPacket)
    ensures
        p == (SetupPacket { request_type: 0x21, request: 0x0A, value: 0, index: 0, length: 0 }),
{
    SetupPacket { request_type: 0x21, request: 0x0A, value: 0, index: 0, length: 0 }
}

/// SET_REPORT(output, id 0) carrying the one-byte LED mask.
pub fn set_led_report() -> (p: SetupPacket)
    ensures
        p == (SetupPacket { request_type: 0x21, request: 0x09, value: 0x200, index: 0, length: 1 }),
{
    SetupPacket { request_type: 0x21, request: HID_REQ_SET_REPORT, value: 0x200, index: 0, length: 1 }
}

/// An attached keyboard: its control endpoint (for class requests), its
/// interrupt-IN endpoint, the current run of failed polls and the data
/// toggle of the next poll.
#[derive(Clone, Copy, PartialEq, Eq, Structural, Debug)]
pub struct Keyboard {
    pub ep0: Endpoint,
    pub ep: Endpoint,
    pub error_streak: u32,
    pub in_toggle: bool,
}

/// What one poll result means for a keyboard.
#[derive(Clone, Copy, PartialEq, Eq, Structural, Debug)]
pub enum PollEffect {
    /// A full 8-byte report: decode it.
    Report,
    /// Nothing new.
    Idle,
    /// A transfer error; the keyboard stays.
    Error,
    /// Too many errors in a row: the keyboard was dropped.
    Dropped,
}

/// Control endpoints of the attached keyboards, in slot order.
pub open spec fn ep0s(s: Seq<Option<Keyboard>>) -> Seq<Endpoint>
    decreases s.len(),
{
    if s.len() == 0 {
        Seq::empty()
    } else {
        ep0s(s.drop_last()) + match s.last() {
            Some(k) => seq![k.ep0],
            None => Seq::empty(),
        }
    }
}

pub struct Keyboards {
    pub slots: [Option<Keyboard>; 4],
}

impl Keyboards {
    pub fn new() -> (k: Keyboards)
        ensures
            forall|i: int| 0 <= i < 4 ==> k.slots@[i] is None,
    {
        Keyboards { slots: [None, None, None, None] }
    }

    /// Start polling a keyboard (after SET_PROTOCOL and SET_IDLE) in the
    /// first free slot, toggle DATA0, no errors; `false` when all are taken.
    pub fn attach(&mut self, ep0: Endpoint, ep: Endpoint) -> (ok: bool)
        ensures
            ok == (first_free(old(self).slots@) < 4),
            ok ==> final(self).slots@ == old(self).slots@.update(first_free(old(self).slots@), Some(Keyboard { ep0, ep, error_streak: 0, in_toggle: false })),
            !ok ==> final(self).slots@ == old(self).slots@,
    {
        let mut i: usize = 0;
        while i < 4
            invariant
                i <= 4,
                self.slots@ == old(self).slots@,
                forall|k: int| 0 <= k < i ==> old(self).slots@[k] is Some,
            decreases 4 - i,
        {
            if self.slots[i].is_none() {
                self.slots[i] = Some(Keyboard { ep0, ep, error_streak: 0, in_toggle: false });
                return true;
            }
            i = i + 1;
        }
        false
    }

    /// Drop every keyboard attached at hub `hub_addr`, port `hub_port`.
    pub fn detach(&mut self, hub_addr: u8, hub_port: u8)
        ensures
            forall|i: int| 0 <= i < 4 ==> #[trigger] final(self).slots@[i] == match old(self).slots@[i] {
                Some(d) => if d.ep.hub_addr == hub_addr && d.ep.hub_port == hub_port {
                    None
                } else {
                    Some(d)
                },
                None => None,
            },
    {
        let mut i: usize = 0;
        while i < 4
            invariant
                i <= 4,
                forall|k: int| 0 <= k < 4 ==> #[trigger] self.slots@[k] == if k < i {
                    match old(self).slots@[k] {
                        Some(d) => if d.ep.hub_addr == hub_addr && d.ep.hub_port == hub_port {
                            None
                        } else {
                            Some(d)
                        },
                        None => None,
                    }
                } else {
                    old(self).slots@[k]
                },
            decreases 4 - i,
        {
            match self.slots[i] {
                Some(d) => {
                    if d.ep.hub_addr == hub_addr && d.ep.hub_port == hub_port {
                        self.slots[i] = None;
                    }
                },
                None => {},
            }
            i = i + 1;
        }
    }

    /// Where an LED change goes: every attached keyboard's control
    /// endpoint, in slot order (one SET_REPORT each, so every keyboard shows
    /// the shared lock state).
    pub fn led_report_targets(&self) -> (eps: Vec<Endpoint>)
        ensures
            eps@ == ep0s(self.slots@),
    {
        let mut eps: Vec<Endpoint> = Vec::new();
        let mut i: usize = 0;
        while i < 4
            invariant
                i <= 4,
                eps@ == ep0s(self.slots@.take(i as int)),
            decreases 4 - i,
        {
            assert(self.slots@.take(i + 1).drop_last() =~= self.slots@.take(i as int));
            match self.slots[i] {
                Some(k) => eps.push(k.ep0),
                None => {},
            }
            i = i + 1;
            assert(eps@ =~= ep0s(self.slots@.take(i as int)));
        }
        assert(self.slots@.take(4) =~= self.slots@);
        eps
    }

    /// Account for one poll of the keyboard in `slot`: `n` bytes read, or a
    /// transfer error. A full report or an idle poll resets the error run;
    /// the `ERROR_STREAK_LIMIT`-th error in a row drops the keyboard.
    pub fn on_poll(&mut self, slot: usize, result: Result<usize, ()>) -> (e: PollEffect)
        requires
            slot < 4,
            old(self).slots@[slot as int] is Some,
            old(self).slots@[slot as int]->0.error_streak < ERROR_STREAK_LIMIT,
        ensures
            ({
                let d = old(self).slots@[slot as int]->0;
                match result {
                    Ok(n) => e == (if n >= 8 { PollEffect::Report } else { PollEffect::Idle })
                        && final(self).slots@ == old(self).slots@.update(
                        slot as int,
                        Some(Keyboard { error_streak: 0, ..d }),
                    ),
                    Err(()) => if d.error_streak + 1 >= ERROR_STREAK_LIMIT {
                        e == PollEffect::Dropped && final(self).slots@ == old(self).slots@.update(slot as int, None)
                    } else {
                        e == PollEffect::Error && final(self).slots@ == old(self).slots@.update(
                            slot as int,
                            Some(Keyboard { error_streak: (d.error_streak + 1) as u32, ..d }),
                        )
                    },
                }
            }),
    {
        let d = self.slots[slot].unwrap();
        match result {
            Ok(n) => {
                self.slots[slot] = Some(Keyboard { error_streak: 0, ..d });
                if n >= 8 { PollEffect::Report } else { PollEffect::Idle }
            },
            Err(()) => {
                let streak = d.error_streak + 1;
                if streak >= ERROR_STREAK_LIMIT {
                    self.slots[slot] = None;
                    PollEffect::Dropped
                } else {
                    self.slots[slot] = Some(Keyboard { error_streak: streak, ..d });
                    PollEffect::Error
                }
            },
        }
    }
}

} // verus!

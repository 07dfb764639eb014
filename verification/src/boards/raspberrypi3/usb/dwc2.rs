//! DWC2 (Synopsys DesignWare USB 2.0 OTG) host controller of the BCM2837,
//! driven by polling with internal DMA.
//!
//! Register choreography that only alternates reads, writes, polls and
//! delays (core bring-up, root-port recovery) is expressed as a `Step`
//! script run by `ScriptRun`; the per-transfer decisions (channel
//! characteristics, packet counts, how a halted channel is classified, the
//! data toggle) are plain functions. The caller performs every register
//! access and wait.
use vstd::prelude::*;
use crate::mmio::{MmioWrite, mw};
use crate::text::{hex8, hex32_seq, dec, dec_digits};
use crate::boards::raspberrypi3::usb::protocol::{Endpoint, Speed};

verus! {

pub const USB_BASE: u64 = 0x3F98_0000;
pub const GOTGCTL: u64 = 0x3F98_0000;
pub const GAHBCFG: u64 = 0x3F98_0008;
pub const GUSBCFG: u64 = 0x3F98_000C;
pub const GRSTCTL: u64 = 0x3F98_0010;
pub const GINTSTS: u64 = 0x3F98_0014;
pub const GINTMSK: u64 = 0x3F98_0018;
pub const GRXFSIZ: u64 = 0x3F98_0024;
pub const GNPTXFSIZ: u64 = 0x3F98_0028;
pub const GSNPSID: u64 = 0x3F98_0040;
pub const GHWCFG1: u64 = 0x3F98_0044;
pub const GHWCFG2: u64 = 0x3F98_0048;
pub const GHWCFG3: u64 = 0x3F98_004C;
pub const GHWCFG4: u64 = 0x3F98_0050;
pub const HPTXFSIZ: u64 = 0x3F98_0100;
pub const HCFG: u64 = 0x3F98_0400;
pub const HFNUM: u64 = 0x3F98_0408;
pub const HAINTMSK: u64 = 0x3F98_0418;
pub const HPRT: u64 = 0x3F98_0440;

pub const GRSTCTL_CSFTRST: u32 = 0x1;
pub const GRSTCTL_RXFFLSH: u32 = 0x10;
pub const GRSTCTL_TXFFLSH: u32 = 0x20;
pub const GRSTCTL_AHBIDLE: u32 = 0x8000_0000;
pub const GUSBCFG_FORCEHOSTMODE: u32 = 0x2000_0000;
pub const GAHBCFG_DMAEN: u32 = 0x20;
pub const GAHBCFG_GLBLINTRMSK: u32 = 0x1;
pub const HPRT_CONNSTS: u32 = 0x1;
pub const HPRT_CONNDET: u32 = 0x2;
pub const HPRT_ENA: u32 = 0x4;
pub const HPRT_ENCHNG: u32 = 0x8;
pub const HPRT_OVERCURRCHNG: u32 = 0x20;
pub const HPRT_RST: u32 = 0x100;
pub const HPRT_PWR: u32 = 0x1000;
pub const HPRT_SPD_SHIFT: u32 = 17;
pub const HPRT_SPD_MASK: u32 = 0x6_0000;
/// Write-1-to-clear status bits of HPRT, masked out of every
/// read-modify-write so a write never acknowledges them by accident.
pub const HPRT_W1C_MASK: u32 = 0x2A;
pub const HCCHAR_CHENA: u32 = 0x8000_0000;
pub const HCCHAR_CHDIS: u32 = 0x4000_0000;
pub const HCCHAR_LSPDDEV: u32 = 0x2_0000;
pub const HCCHAR_EPDIR_IN: u32 = 0x8000;
pub const HCSPLT_SPLTENA: u32 = 0x8000_0000;
pub const HCSPLT_XACTPOS_ALL: u32 = 0xC000;
pub const HCINT_XFERCOMPL: u32 = 0x1;
pub const HCINT_CHHLTD: u32 = 0x2;
pub const HCINT_STALL: u32 = 0x8;
pub const HCINT_NAK: u32 = 0x10;
pub const HCINT_ACK: u32 = 0x20;
pub const HCINT_NYET: u32 = 0x40;
pub const HCINT_XACTERR: u32 = 0x80;
pub const HCINT_BBLERR: u32 = 0x100;
pub const HCINT_FRMOVRUN: u32 = 0x200;
pub const HCINT_DATATGLERR: u32 = 0x400;
pub const HCINT_ALL: u32 = 0x7FF;
pub const PID_DATA0: u32 = 0;
pub const PID_DATA1: u32 = 2;
pub const PID_SETUP: u32 = 3;
pub const EPTYPE_CONTROL: u32 = 0;
pub const EPTYPE_BULK: u32 = 2;
pub const EPTYPE_INTERRUPT: u32 = 3;
/// Largest control-transfer data stage.
pub const MAX_XFER: usize = 256;
/// Largest bulk transfer.
pub const MAX_BULK_XFER: usize = 4096;

pub open spec fn chan_reg(n: u64, off: u64) -> u64 {
    (0x3F98_0500 + n * 0x20 + off) as u64
}

pub fn hcchar(n: u64) -> (a: u64)
    requires
        n < 16,
    ensures
        a == chan_reg(n, 0x0),
{
    USB_BASE + 0x500 + n * 0x20
}

pub fn hcsplt(n: u64) -> (a: u64)
    requires
        n < 16,
    ensures
        a == chan_reg(n, 0x4),
{
    USB_BASE + 0x500 + n * 0x20 + 0x4
}

pub fn hcint(n: u64) -> (a: u64)
    requires
        n < 16,
    ensures
        a == chan_reg(n, 0x8),
{
    USB_BASE + 0x500 + n * 0x20 + 0x8
}

pub fn hcintmsk(n: u64) -> (a: u64)
    requires
        n < 16,
    ensures
        a == chan_reg(n, 0xC),
{
    USB_BASE + 0x500 + n * 0x20 + 0xC
}

pub fn hctsiz(n: u64) -> (a: u64)
    requires
        n < 16,
    ensures
        a == chan_reg(n, 0x10),
{
    USB_BASE + 0x500 + n * 0x20 + 0x10
}

pub fn hcdma(n: u64) -> (a: u64)
    requires
        n < 16,
    ensures
        a == chan_reg(n, 0x14),
{
    USB_BASE + 0x500 + n * 0x20 + 0x14
}

// ── Timing ─────────────────────────────────────────────────────────────────

/// Microseconds in `ms` milliseconds.
pub fn delay_ms(ms: u64) -> (us: u64)
    requires
        ms * 1000 <= u64::MAX,
    ensures
        us == ms * 1000,
{
    ms * 1000
}

/// Counter ticks in `us` microseconds at counter frequency `freq` Hz.
pub fn ticks_for(freq: u64, us: u64) -> (t: u64)
    requires
        (freq / 1_000_000) * us <= u64::MAX,
    ensures
        t == (freq / 1_000_000) * us,
{
    freq / 1_000_000 * us
}

/// A wait that started at counter value `start` is over at `now`, the
/// counter wrapping around.
pub fn deadline_passed(start: u64, now: u64, target: u64) -> (r: bool)
    ensures
        r == (now.wrapping_sub(start) >= target),
{
    now.wrapping_sub(start) >= target
}

// ── Root port ──────────────────────────────────────────────────────────────

pub open spec fn spec_root_speed(hprt: u32) -> Speed {
    let s = (hprt & HPRT_SPD_MASK) >> 17u32;
    if s == 1 {
        Speed::Full
    } else if s == 2 {
        Speed::Low
    } else {
        Speed::High
    }
}

/// Speed the root port negotiated, from HPRT.PRTSPD.
pub fn root_speed(hprt: u32) -> (s: Speed)
    ensures
        s == spec_root_speed(hprt),
{
    let v = (hprt & HPRT_SPD_MASK) >> HPRT_SPD_SHIFT;
    if v == 1 {
        Speed::Full
    } else if v == 2 {
        Speed::Low
    } else {
        Speed::High
    }
}

/// The root port is still connected and enabled.
pub fn root_port_ok(hprt: u32) -> (r: bool)
    ensures
        r == (hprt & HPRT_CONNSTS != 0 && hprt & HPRT_ENA != 0),
{
    hprt & HPRT_CONNSTS != 0 && hprt & HPRT_ENA != 0
}

/// HPRT value to write, from the value read, setting `set` and clearing
/// `clear` without acknowledging any write-1-to-clear status bit.
pub open spec fn spec_hprt_update(hprt: u32, set: u32, clear: u32) -> u32 {
    ((hprt & !HPRT_W1C_MASK) & !clear) | set
}

pub fn hprt_update(hprt: u32, set: u32, clear: u32) -> (v: u32)
    ensures
        v == spec_hprt_update(hprt, set, clear),
        set & HPRT_W1C_MASK == 0 ==> v & HPRT_W1C_MASK == 0,
{
    let v = ((hprt & !HPRT_W1C_MASK) & !clear) | set;
    assert(set & 0x2A == 0 ==> v & 0x2A == 0) by (bit_vector)
        requires
            v == ((hprt & !0x2Au32) & !clear) | set,
    ;
    v
}

// ── Register scripts ───────────────────────────────────────────────────────

/// One step of a register script.
#[derive(Clone, Copy, PartialEq, Eq, Structural, Debug)]
pub enum Step {
    /// Store `value` at `addr`.
    Write { addr: u64, value: u32 },
    /// Read `addr`, store it back with `bits` set.
    SetBits { addr: u64, bits: u32 },
    /// Read HPRT, store `hprt_update(read, set, clear)`.
    Hprt { set: u32, clear: u32 },
    /// Poll `addr` until `mask` is all clear (`until_set` false) or some bit
    /// of it set (`until_set` true), for at most `timeout_us`; a timeout
    /// ends the script in failure when `fatal`.
    Wait { addr: u64, mask: u32, until_set: bool, timeout_us: u64, fatal: bool },
    /// Busy-wait `us` microseconds.
    Delay { us: u64 },
    /// Read the core id (also for the log); 0 or all ones means no DWC2
    /// core answers.
    CheckId,
    /// Read `addr`; fail unless some bit of `mask` is set.
    RequireSet { addr: u64, mask: u32 },
    /// Read `addr` for the log only; the value decides nothing.
    Log { addr: u64 },
}

/// What the caller does for a script.
#[derive(Clone, Copy, PartialEq, Eq, Structural, Debug)]
pub enum Op {
    /// Read `addr` and feed back its value.
    Read { addr: u64 },
    /// Store; feed back anything.
    Write { addr: u64, value: u32 },
    /// Poll as described by `Step::Wait`; feed back 1 when the condition
    /// held, 0 on timeout.
    Poll { addr: u64, mask: u32, until_set: bool, timeout_us: u64 },
    /// Delay; feed back anything.
    Delay { us: u64 },
    /// The script is over: succeeded or not.
    Finish { ok: bool },
}

/// The first operation of a step.
pub open spec fn first_op(s: Step) -> Op {
    match s {
        Step::Write { addr, value } => Op::Write { addr, value },
        Step::SetBits { addr, bits } => Op::Read { addr },
        Step::Hprt { set, clear } => Op::Read { addr: HPRT },
        Step::Wait { addr, mask, until_set, timeout_us, fatal } => Op::Poll { addr, mask, until_set, timeout_us },
        Step::Delay { us } => Op::Delay { us },
        Step::CheckId => Op::Read { addr: GSNPSID },
        Step::RequireSet { addr, mask } => Op::Read { addr },
        Step::Log { addr } => Op::Read { addr },
    }
}

/// Runs a script: `op` says what to do, `feed` takes what it produced.
pub struct ScriptRun {
    pub steps: Vec<Step>,
    pub pc: usize,
    /// Second operation of a read-modify-write step pending: the store.
    pub storing: bool,
    /// Value read for a read-modify-write step.
    pub last: u32,
    pub done: Option<bool>,
}

impl ScriptRun {
    pub open spec fn wf(&self) -> bool {
        &&& self.pc <= self.steps@.len()
        &&& self.storing ==> self.pc < self.steps@.len() && (self.steps@[self.pc as int] is SetBits
            || self.steps@[self.pc as int] is Hprt)
        &&& self.done is None ==> self.pc < self.steps@.len()
    }

    /// Operations left at most: how long the script can still run.
    pub open spec fn remaining(&self) -> int {
        if self.done is Some {
            0
        } else {
            2 * (self.steps@.len() - self.pc) - (if self.storing { 1int } else { 0int })
        }
    }

    pub open spec fn spec_op(&self) -> Op {
        match self.done {
            Some(ok) => Op::Finish { ok },
            None => {
                let s = self.steps@[self.pc as int];
                if self.storing {
                    match s {
                        Step::SetBits { addr, bits } => Op::Write { addr, value: self.last | bits },
                        Step::Hprt { set, clear } => Op::Write {
                            addr: HPRT,
                            value: spec_hprt_update(self.last, set, clear),
                        },
                        _ => first_op(s),
                    }
                } else {
                    first_op(s)
                }
            },
        }
    }

    pub fn new(steps: Vec<Step>) -> (r: ScriptRun)
        ensures
            r.wf(),
            r.steps@ == steps@,
            r.pc == 0,
            !r.storing,
            r.done == if steps@.len() == 0 { Some(true) } else { None::<bool> },
    {
        let done = if steps.len() == 0 { Some(true) } else { None };
        ScriptRun { steps, pc: 0, storing: false, last: 0, done }
    }

    /// The operation to perform now.
    pub fn op(&self) -> (o: Op)
        requires
            self.wf(),
        ensures
            o == self.spec_op(),
    {
        match self.done {
            Some(ok) => Op::Finish { ok },
            None => {
                let s = self.steps[self.pc];
                if self.storing {
                    match s {
                        Step::SetBits { addr, bits } => Op::Write { addr, value: self.last | bits },
                        Step::Hprt { set, clear } => Op::Write {
                            addr: HPRT,
                            value: hprt_update(self.last, set, clear),
                        },
                        _ => first_op_exec(s),
                    }
                } else {
                    first_op_exec(s)
                }
            },
        }
    }

    fn advance(&mut self)
        requires
            old(self).wf(),
            old(self).done is None,
        ensures
            final(self).wf(),
            final(self).steps@ == old(self).steps@,
            final(self).pc == old(self).pc + 1,
            !final(self).storing,
            final(self).done == if old(self).pc + 1 == old(self).steps@.len() {
                Some(true)
            } else {
                None::<bool>
            },
    {
        let _n = self.steps.len();
        self.pc = self.pc + 1;
        self.storing = false;
        if self.pc == self.steps.len() {
            self.done = Some(true);
        }
    }

    /// Feed the result of the current operation and move on. A read of a
    /// read-modify-write step is followed by its store; a failed fatal wait,
    /// a bad core id or a missing required bit ends the script in failure;
    /// anything else moves to the next step, and past the last step the
    /// script succeeds.
    pub fn feed(&mut self, input: u32)
        requires
            old(self).wf(),
            old(self).done is None,
        ensures
            final(self).wf(),
            final(self).steps@ == old(self).steps@,
            final(self).remaining() < old(self).remaining(),
            ({
                let s = old(self).steps@[old(self).pc as int];
                let next = if old(self).pc + 1 == old(self).steps@.len() { Some(true) } else { None::<bool> };
                match s {
                    Step::SetBits { .. } | Step::Hprt { .. } => if old(self).storing {
                        final(self).pc == old(self).pc + 1 && final(self).done == next
                    } else {
                        final(self).pc == old(self).pc && final(self).storing && final(self).last == input
                            && final(self).done is None
                    },
                    Step::Wait { fatal, .. } => if input == 0 && fatal {
                        final(self).done == Some(false)
                    } else {
                        final(self).pc == old(self).pc + 1 && final(self).done == next
                    },
                    Step::CheckId => if input == 0 || input == 0xFFFF_FFFF {
                        final(self).done == Some(false)
                    } else {
                        final(self).pc == old(self).pc + 1 && final(self).done == next
                    },
                    Step::RequireSet { mask, .. } => if input & mask == 0 {
                        final(self).done == Some(false)
                    } else {
                        final(self).pc == old(self).pc + 1 && final(self).done == next
                    },
                    _ => final(self).pc == old(self).pc + 1 && final(self).done == next,
                }
            }),
    {
        let s = self.steps[self.pc];
        match s {
            Step::SetBits { .. } | Step::Hprt { .. } => {
                if self.storing {
                    self.advance();
                } else {
                    self.storing = true;
                    self.last = input;
                }
            },
            Step::Wait { fatal, .. } => {
                if input == 0 && fatal {
                    self.done = Some(false);
                } else {
                    self.advance();
                }
            },
            Step::CheckId => {
                if input == 0 || input == 0xFFFF_FFFF {
                    self.done = Some(false);
                } else {
                    self.advance();
                }
            },
            Step::RequireSet { mask, .. } => {
                if input & mask == 0 {
                    self.done = Some(false);
                } else {
                    self.advance();
                }
            },
            _ => {
                self.advance();
            },
        }
    }
}

fn first_op_exec(s: Step) -> (o: Op)
    ensures
        o == first_op(s),
{
    match s {
        Step::Write { addr, value } => Op::Write { addr, value },
        Step::SetBits { addr, bits } => Op::Read { addr },
        Step::Hprt { set, clear } => Op::Read { addr: HPRT },
        Step::Wait { addr, mask, until_set, timeout_us, fatal } => Op::Poll { addr, mask, until_set, timeout_us },
        Step::Delay { us } => Op::Delay { us },
        Step::CheckId => Op::Read { addr: GSNPSID },
        Step::RequireSet { addr, mask } => Op::Read { addr },
        Step::Log { addr } => Op::Read { addr },
    }
}

/// Core bring-up and root-port power-up, in order: check the core id; wait
/// for AHB idle, soft reset, wait for it to clear and for AHB idle again
/// (each 100 ms, fatal); force host mode (25 ms settling); enable DMA and
/// unmask every interrupt register; partition the FIFOs (RX 512 words,
/// non-periodic TX 256 at 512, periodic TX 256 at 768) and flush them;
/// clear HCFG; power the port (20 ms); wait up to 500 ms for a connection
/// (fatal); debounce 100 ms; reset 50 ms, release, recover 50 ms; require
/// the port enabled. The core id is read once, and the four
/// hardware-configuration words follow it into the log (a core that does
/// not answer makes them meaningless, so they are read only for one that
/// does); at the end, 5 ms on, the frame number is read for the log.
pub open spec fn init_steps() -> Seq<Step> {
    seq![
        Step::CheckId,
        Step::Log { addr: GHWCFG1 },
        Step::Log { addr: GHWCFG2 },
        Step::Log { addr: GHWCFG3 },
        Step::Log { addr: GHWCFG4 },
        Step::Wait { addr: GRSTCTL, mask: GRSTCTL_AHBIDLE, until_set: true, timeout_us: 100_000, fatal: true },
        Step::Write { addr: GRSTCTL, value: GRSTCTL_CSFTRST },
        Step::Wait { addr: GRSTCTL, mask: GRSTCTL_CSFTRST, until_set: false, timeout_us: 100_000, fatal: true },
        Step::Wait { addr: GRSTCTL, mask: GRSTCTL_AHBIDLE, until_set: true, timeout_us: 100_000, fatal: true },
        Step::Delay { us: 1000 },
        Step::SetBits { addr: GUSBCFG, bits: GUSBCFG_FORCEHOSTMODE },
        Step::Delay { us: 25_000 },
        // DMA enable and the global interrupt mask bit.
        Step::SetBits { addr: GAHBCFG, bits: 0x21 },
        Step::Write { addr: GINTMSK, value: 0xFFFF_FFFF },
        Step::Write { addr: HAINTMSK, value: 0xFFFF_FFFF },
        Step::Write { addr: GRXFSIZ, value: 0x200 },
        Step::Write { addr: GNPTXFSIZ, value: 0x0100_0200 },
        Step::Write { addr: HPTXFSIZ, value: 0x0100_0300 },
        Step::Write { addr: GRSTCTL, value: GRSTCTL_RXFFLSH },
        Step::Wait { addr: GRSTCTL, mask: GRSTCTL_RXFFLSH, until_set: false, timeout_us: 10_000, fatal: false },
        // Flush every TX FIFO (FIFO number 0x10).
        Step::Write { addr: GRSTCTL, value: 0x420 },
        Step::Wait { addr: GRSTCTL, mask: GRSTCTL_TXFFLSH, until_set: false, timeout_us: 10_000, fatal: false },
        Step::Write { addr: HCFG, value: 0 },
        Step::Hprt { set: HPRT_PWR, clear: 0 },
        Step::Delay { us: 20_000 },
        Step::Wait { addr: HPRT, mask: HPRT_CONNSTS, until_set: true, timeout_us: 500_000, fatal: true },
        Step::Delay { us: 100_000 },
        Step::Hprt { set: HPRT_RST, clear: 0 },
        Step::Delay { us: 50_000 },
        Step::Hprt { set: 0, clear: HPRT_RST },
        Step::Delay { us: 50_000 },
        Step::RequireSet { addr: HPRT, mask: HPRT_ENA },
        Step::Delay { us: 5000 },
        Step::Log { addr: HFNUM },
    ]
}

/// The bring-up script; running it to `Finish { ok: true }` means a device
/// answered on an enabled root port.
pub fn init() -> (s: Vec<Step>)
    ensures
        s@ == init_steps(),
{
    let mut s: Vec<Step> = Vec::new();
    s.push(Step::CheckId);
    s.push(Step::Log { addr: GHWCFG1 });
    s.push(Step::Log { addr: GHWCFG2 });
    s.push(Step::Log { addr: GHWCFG3 });
    s.push(Step::Log { addr: GHWCFG4 });
    s.push(Step::Wait { addr: GRSTCTL, mask: GRSTCTL_AHBIDLE, until_set: true, timeout_us: 100_000, fatal: true });
    s.push(Step::Write { addr: GRSTCTL, value: GRSTCTL_CSFTRST });
    s.push(Step::Wait { addr: GRSTCTL, mask: GRSTCTL_CSFTRST, until_set: false, timeout_us: 100_000, fatal: true });
    s.push(Step::Wait { addr: GRSTCTL, mask: GRSTCTL_AHBIDLE, until_set: true, timeout_us: 100_000, fatal: true });
    s.push(Step::Delay { us: 1000 });
    s.push(Step::SetBits { addr: GUSBCFG, bits: GUSBCFG_FORCEHOSTMODE });
    s.push(Step::Delay { us: delay_ms(25) });
    s.push(Step::SetBits { addr: GAHBCFG, bits: 0x21 });
    s.push(Step::Write { addr: GINTMSK, value: 0xFFFF_FFFF });
    s.push(Step::Write { addr: HAINTMSK, value: 0xFFFF_FFFF });
    s.push(Step::Write { addr: GRXFSIZ, value: 0x200 });
    s.push(Step::Write { addr: GNPTXFSIZ, value: 0x0100_0200 });
    s.push(Step::Write { addr: HPTXFSIZ, value: 0x0100_0300 });
    s.push(Step::Write { addr: GRSTCTL, value: GRSTCTL_RXFFLSH });
    s.push(Step::Wait { addr: GRSTCTL, mask: GRSTCTL_RXFFLSH, until_set: false, timeout_us: 10_000, fatal: false });
    s.push(Step::Write { addr: GRSTCTL, value: 0x420 });
    s.push(Step::Wait { addr: GRSTCTL, mask: GRSTCTL_TXFFLSH, until_set: false, timeout_us: 10_000, fatal: false });
    s.push(Step::Write { addr: HCFG, value: 0 });
    s.push(Step::Hprt { set: HPRT_PWR, clear: 0 });
    s.push(Step::Delay { us: delay_ms(20) });
    s.push(Step::Wait { addr: HPRT, mask: HPRT_CONNSTS, until_set: true, timeout_us: 500_000, fatal: true });
    s.push(Step::Delay { us: delay_ms(100) });
    s.push(Step::Hprt { set: HPRT_RST, clear: 0 });
    s.push(Step::Delay { us: delay_ms(50) });
    s.push(Step::Hprt { set: 0, clear: HPRT_RST });
    s.push(Step::Delay { us: delay_ms(50) });
    s.push(Step::RequireSet { addr: HPRT, mask: HPRT_ENA });
    s.push(Step::Delay { us: delay_ms(5) });
    s.push(Step::Log { addr: HFNUM });
    assert(s@ =~= init_steps());
    s
}

pub open spec fn flush_steps() -> Seq<Step> {
    seq![
        Step::Write { addr: GRSTCTL, value: GRSTCTL_RXFFLSH },
        Step::Wait { addr: GRSTCTL, mask: GRSTCTL_RXFFLSH, until_set: false, timeout_us: 10_000, fatal: false },
        Step::Write { addr: GRSTCTL, value: 0x420 },
        Step::Wait { addr: GRSTCTL, mask: GRSTCTL_TXFFLSH, until_set: false, timeout_us: 10_000, fatal: false },
    ]
}

/// Flush the RX FIFO and every TX FIFO (each wait at most 10 ms, a timeout
/// not fatal), after an aborted channel so that stray bytes cannot spill
/// into the next transfer.
pub fn flush_fifos() -> (s: Vec<Step>)
    ensures
        s@ == flush_steps(),
{
    let mut s: Vec<Step> = Vec::new();
    s.push(Step::Write { addr: GRSTCTL, value: GRSTCTL_RXFFLSH });
    s.push(Step::Wait { addr: GRSTCTL, mask: GRSTCTL_RXFFLSH, until_set: false, timeout_us: 10_000, fatal: false });
    s.push(Step::Write { addr: GRSTCTL, value: 0x420 });
    s.push(Step::Wait { addr: GRSTCTL, mask: GRSTCTL_TXFFLSH, until_set: false, timeout_us: 10_000, fatal: false });
    assert(s@ =~= flush_steps());
    s
}

/// Aborting channel `chan`: disable it, wait up to 5 ms for it to halt
/// (not fatal), clear its interrupt bits, then flush the FIFOs.
pub open spec fn abort_steps(chan: u64) -> Seq<Step> {
    seq![
        Step::SetBits { addr: chan_reg(chan, 0x0), bits: HCCHAR_CHDIS },
        Step::Wait { addr: chan_reg(chan, 0x8), mask: HCINT_CHHLTD, until_set: true, timeout_us: 5000, fatal: false },
        Step::Write { addr: chan_reg(chan, 0x8), value: HCINT_ALL },
    ] + flush_steps()
}

/// What follows a transfer on channel `chan`: every failure aborts the
/// channel (`abort_steps`), so that a half-done transaction cannot disturb
/// the next one; a success needs nothing more.
pub fn finish_channel(chan: u64, failed: bool) -> (s: Vec<Step>)
    requires
        chan < 16,
    ensures
        failed ==> s@ == abort_steps(chan),
        !failed ==> s@ == Seq::<Step>::empty(),
{
    let mut s: Vec<Step> = Vec::new();
    if failed {
        s.push(Step::SetBits { addr: hcchar(chan), bits: HCCHAR_CHDIS });
        s.push(Step::Wait { addr: hcint(chan), mask: HCINT_CHHLTD, until_set: true, timeout_us: 5000, fatal: false });
        s.push(Step::Write { addr: hcint(chan), value: HCINT_ALL });
        let mut f = flush_fifos();
        s.append(&mut f);
        assert(s@ =~= abort_steps(chan));
    } else {
        assert(s@ =~= Seq::<Step>::empty());
    }
    s
}

/// A frame number field of all ones (0x3FFF) means the host has not started
/// sending start-of-frame packets yet.
pub fn frame_stuck(hfnum: u32) -> (r: bool)
    ensures
        r == (hfnum & 0x3FFF == 0x3FFF),
{
    hfnum & 0x3FFF == 0x3FFF
}

pub open spec fn recover_steps() -> Seq<Step> {
    seq![
        Step::Hprt { set: HPRT_RST, clear: 0 },
        Step::Delay { us: 50_000 },
        Step::Hprt { set: 0, clear: HPRT_RST },
        Step::Delay { us: 50_000 },
        Step::RequireSet { addr: HPRT, mask: HPRT_ENA },
    ]
}

/// Re-reset the root port (power on, device known connected): reset 50 ms,
/// release, recover 50 ms; succeeds when the port is enabled again.
pub fn recover_root_port() -> (s: Vec<Step>)
    ensures
        s@ == recover_steps(),
{
    let mut s: Vec<Step> = Vec::new();
    s.push(Step::Hprt { set: HPRT_RST, clear: 0 });
    s.push(Step::Delay { us: delay_ms(50) });
    s.push(Step::Hprt { set: 0, clear: HPRT_RST });
    s.push(Step::Delay { us: delay_ms(50) });
    s.push(Step::RequireSet { addr: HPRT, mask: HPRT_ENA });
    assert(s@ =~= recover_steps());
    s
}

// ── Channels ───────────────────────────────────────────────────────────────

/// Packets a transfer of `xfer` bytes takes with packet size `mps` (a zero
/// size read from a bad descriptor counts as 1); a zero-length transfer is
/// one packet.
pub open spec fn packet_count(xfer: nat, mps: nat) -> nat {
    let m: int = if mps == 0 { 1 } else { mps as int };
    if xfer == 0 {
        1
    } else {
        ((xfer as int + m - 1) / m) as nat
    }
}

pub fn pkt_count(xfer: u32, mps: u16) -> (n: u32)
    ensures
        n == packet_count(xfer as nat, mps as nat),
{
    let m: u32 = if mps == 0 { 1 } else { mps as u32 };
    if xfer == 0 {
        1
    } else {
        let q = xfer / m;
        assert(xfer % m != 0 ==> q < 0xFFFF_FFFF) by (nonlinear_arith)
            requires
                m >= 1,
                q == xfer / m,
                xfer <= 0xFFFF_FFFF,
        ;
        let n = if xfer % m == 0 { q } else { q + 1 };
        assert(n == (xfer + m - 1) / (m as int)) by (nonlinear_arith)
            requires
                m >= 1,
                q == xfer / m,
                n == if xfer % m == 0 { q as int } else { q + 1 },
        ;
        n
    }
}

/// HCCHAR for an endpoint: max packet, endpoint number, type, one
/// transaction per frame, device address, direction, low-speed flag.
pub open spec fn hcchar_value(ep: Endpoint, eptype: u32, dir_in: bool) -> u32 {
    let base = ((ep.max_packet as u32) & 0x7FF) | (((ep.ep_num as u32) & 0xF) << 11u32) | (eptype << 18u32) | (1u32
        << 20u32) | (((ep.dev_addr as u32) & 0x7F) << 22u32);
    let with_dir = if dir_in { base | HCCHAR_EPDIR_IN } else { base };
    if ep.speed == Speed::Low { with_dir | HCCHAR_LSPDDEV } else { with_dir }
}

/// HCSPLT: split enabled with the hub address and port when the endpoint
/// needs split transactions, else 0.
pub open spec fn hcsplt_value(ep: Endpoint) -> u32 {
    if ep.spec_needs_split() {
        HCSPLT_SPLTENA | HCSPLT_XACTPOS_ALL | (((ep.hub_addr as u32) & 0x7F) << 7u32) | ((ep.hub_port as u32) & 0x7F)
    } else {
        0
    }
}

pub open spec fn hctsiz_value(pid: u32, pktcnt: u32, xfer: u32) -> u32 {
    (pid << 29u32) | (pktcnt << 19u32) | (xfer & 0x7FFFF)
}

/// The stores setting channel `chan` up for one transfer: unmask and clear
/// its interrupt flags, then characteristics, split control, size (PID,
/// packet count, bytes) and DMA address.
pub open spec fn channel_writes(chan: u64, ep: Endpoint, eptype: u32, dir_in: bool, pid: u32, xfer: u32, dma: u32) -> Seq<
    MmioWrite,
> {
    seq![
        mw(chan_reg(chan, 0xC), HCINT_ALL),
        mw(chan_reg(chan, 0x8), HCINT_ALL),
        mw(chan_reg(chan, 0x0), hcchar_value(ep, eptype, dir_in)),
        mw(chan_reg(chan, 0x4), hcsplt_value(ep)),
        mw(chan_reg(chan, 0x10), hctsiz_value(pid, packet_count(xfer as nat, ep.max_packet as nat) as u32, xfer)),
        mw(chan_reg(chan, 0x14), dma),
    ]
}

pub fn configure_channel(chan: u64, ep: &Endpoint, eptype: u32, dir_in: bool, pid: u32, xfer_size: u32, dma_addr: u32) -> (w: Vec<
    MmioWrite,
>)
    requires
        chan < 16,
    ensures
        w@ == channel_writes(chan, *ep, eptype, dir_in, pid, xfer_size, dma_addr),
{
    let pktcnt = pkt_count(xfer_size, ep.max_packet);
    let mut w: Vec<MmioWrite> = Vec::new();
    w.push(MmioWrite { addr: hcintmsk(chan), value: HCINT_ALL });
    w.push(MmioWrite { addr: hcint(chan), value: HCINT_ALL });
    let mut hc = ((ep.max_packet as u32) & 0x7FF) | (((ep.ep_num as u32) & 0xF) << 11u32) | (eptype << 18u32) | (1u32
        << 20u32) | (((ep.dev_addr as u32) & 0x7F) << 22u32);
    if dir_in {
        hc = hc | HCCHAR_EPDIR_IN;
    }
    if matches!(ep.speed, Speed::Low) {
        hc = hc | HCCHAR_LSPDDEV;
    }
    w.push(MmioWrite { addr: hcchar(chan), value: hc });
    let mut sp: u32 = 0;
    if ep.needs_split() {
        sp = HCSPLT_SPLTENA | HCSPLT_XACTPOS_ALL | (((ep.hub_addr as u32) & 0x7F) << 7u32) | ((ep.hub_port as u32)
            & 0x7F);
    }
    w.push(MmioWrite { addr: hcsplt(chan), value: sp });
    w.push(MmioWrite { addr: hctsiz(chan), value: (pid << 29u32) | (pktcnt << 19u32) | (xfer_size & 0x7FFFF) });
    w.push(MmioWrite { addr: hcdma(chan), value: dma_addr });
    assert(w@ =~= channel_writes(chan, *ep, eptype, dir_in, pid, xfer_size, dma_addr));
    w
}

/// What a halted channel's HCINT says, checked in this order.
#[derive(Clone, Copy, PartialEq, Eq, Structural, Debug)]
pub enum HaltClass {
    Complete,
    Stall,
    Babble,
    DataToggle,
    XactErr,
    /// NAK, NYET, or a split's start-split ACK: the device is not ready yet.
    NotReady,
}

pub open spec fn spec_classify_halt(status: u32) -> HaltClass {
    if status & HCINT_XFERCOMPL != 0 {
        HaltClass::Complete
    } else if status & HCINT_STALL != 0 {
        HaltClass::Stall
    } else if status & HCINT_BBLERR != 0 {
        HaltClass::Babble
    } else if status & HCINT_DATATGLERR != 0 {
        HaltClass::DataToggle
    } else if status & HCINT_XACTERR != 0 {
        HaltClass::XactErr
    } else {
        HaltClass::NotReady
    }
}

pub fn classify_halt(status: u32) -> (c: HaltClass)
    ensures
        c == spec_classify_halt(status),
{
    if status & HCINT_XFERCOMPL != 0 {
        HaltClass::Complete
    } else if status & HCINT_STALL != 0 {
        HaltClass::Stall
    } else if status & HCINT_BBLERR != 0 {
        HaltClass::Babble
    } else if status & HCINT_DATATGLERR != 0 {
        HaltClass::DataToggle
    } else if status & HCINT_XACTERR != 0 {
        HaltClass::XactErr
    } else {
        HaltClass::NotReady
    }
}

/// Why a channel run failed; every failure aborts the channel (disable,
/// wait for the halt, clear flags, flush the FIFOs).
#[derive(Clone, Copy, PartialEq, Eq, Structural, Debug)]
pub enum ChannelError {
    Timeout,
    Stall,
    Babble,
    DataToggle,
    XactErr,
    GaveUp,
}

/// What the caller does next for a channel run.
#[derive(Clone, Copy, PartialEq, Eq, Structural, Debug)]
pub enum ChannelAction {
    /// Re-arm the channel (clear CHENA, set CHENA) and wait up to 50 ms for
    /// it to halt (after 100 µs when retrying).
    Enable,
    /// Finished: the transfer completed with this HCINT status.
    Complete { status: u32 },
    /// Finished: the transfer failed; `finish_channel` then aborts the
    /// channel.
    Failed { error: ChannelError },
}

/// One `run_channel`: up to `max_retries` attempts, retrying while the
/// device is not ready.
pub struct ChannelRun {
    pub attempts: u32,
    pub max_retries: u32,
}

impl ChannelRun {
    /// Start: enable the channel, or give up at once with no attempt allowed.
    pub fn begin(max_retries: u32) -> (r: (ChannelRun, ChannelAction))
        ensures
            r.0.attempts == 0 && r.0.max_retries == max_retries,
            r.1 == if max_retries > 0 {
                ChannelAction::Enable
            } else {
                ChannelAction::Failed { error: ChannelError::GaveUp }
            },
    {
        let run = ChannelRun { attempts: 0, max_retries };
        if max_retries > 0 {
            (run, ChannelAction::Enable)
        } else {
            (run, ChannelAction::Failed { error: ChannelError::GaveUp })
        }
    }

    /// The channel halted with `status` (`None`: it did not halt in time).
    pub fn on_halt(&mut self, status: Option<u32>) -> (a: ChannelAction)
        requires
            old(self).attempts < old(self).max_retries,
            status matches Some(s) ==> s & HCINT_CHHLTD != 0,
        ensures
            final(self).max_retries == old(self).max_retries,
            final(self).attempts == old(self).attempts + 1,
            a == match status {
                None => ChannelAction::Failed { error: ChannelError::Timeout },
                Some(s) => match spec_classify_halt(s) {
                    HaltClass::Complete => ChannelAction::Complete { status: s },
                    HaltClass::Stall => ChannelAction::Failed { error: ChannelError::Stall },
                    HaltClass::Babble => ChannelAction::Failed { error: ChannelError::Babble },
                    HaltClass::DataToggle => ChannelAction::Failed { error: ChannelError::DataToggle },
                    HaltClass::XactErr => ChannelAction::Failed { error: ChannelError::XactErr },
                    HaltClass::NotReady => if old(self).attempts + 1 < old(self).max_retries {
                        ChannelAction::Enable
                    } else {
                        ChannelAction::Failed { error: ChannelError::GaveUp }
                    },
                },
            },
            a matches ChannelAction::Complete { status: c } ==> c & HCINT_XFERCOMPL != 0 && c & HCINT_CHHLTD != 0,
    {
        self.attempts = self.attempts + 1;
        match status {
            None => ChannelAction::Failed { error: ChannelError::Timeout },
            Some(s) => match classify_halt(s) {
                HaltClass::Complete => ChannelAction::Complete { status: s },
                HaltClass::Stall => ChannelAction::Failed { error: ChannelError::Stall },
                HaltClass::Babble => ChannelAction::Failed { error: ChannelError::Babble },
                HaltClass::DataToggle => ChannelAction::Failed { error: ChannelError::DataToggle },
                HaltClass::XactErr => ChannelAction::Failed { error: ChannelError::XactErr },
                HaltClass::NotReady => if self.attempts < self.max_retries {
                    ChannelAction::Enable
                } else {
                    ChannelAction::Failed { error: ChannelError::GaveUp }
                },
            },
        }
    }
}

/// One stage of a control transfer, run on channel 0.
#[derive(Clone, Copy, PartialEq, Eq, Structural, Debug)]
pub struct Stage {
    pub dir_in: bool,
    pub pid: u32,
    pub size: u32,
    pub retries: u32,
}

pub open spec fn control_stages(len: nat, data_in: bool) -> Seq<Stage> {
    let setup = Stage { dir_in: false, pid: PID_SETUP, size: 8, retries: 10 };
    let status = Stage { dir_in: len == 0 || !data_in, pid: PID_DATA1, size: 0, retries: 10 };
    if len == 0 {
        seq![setup, status]
    } else {
        seq![setup, Stage { dir_in: data_in, pid: PID_DATA1, size: len as u32, retries: 20 }, status]
    }
}

/// Stages of a control transfer with a `len`-byte data stage: SETUP (8
/// bytes), the data stage when `len > 0` (DATA1, 20 tries), and the
/// zero-length STATUS stage in the other direction (DATA1); `Err` when the
/// data stage is longer than `MAX_XFER`. On success the transfer moved
/// `len` bytes.
pub fn control_transfer(len: usize, data_in: bool) -> (r: Result<Vec<Stage>, ()>)
    ensures
        len > MAX_XFER ==> r is Err,
        len <= MAX_XFER ==> (r matches Ok(s) && s@ == control_stages(len as nat, data_in)),
{
    if len > MAX_XFER {
        return Err(());
    }
    let mut s: Vec<Stage> = Vec::new();
    s.push(Stage { dir_in: false, pid: PID_SETUP, size: 8, retries: 10 });
    if len > 0 {
        s.push(Stage { dir_in: data_in, pid: PID_DATA1, size: len as u32, retries: 20 });
    }
    s.push(Stage { dir_in: len == 0 || !data_in, pid: PID_DATA1, size: 0, retries: 10 });
    assert(s@ =~= control_stages(len as nat, data_in));
    Ok(s)
}

/// PID of the next packet of an endpoint from its data toggle.
pub fn toggle_pid(toggle: bool) -> (pid: u32)
    ensures
        pid == if toggle { PID_DATA1 } else { PID_DATA0 },
{
    if toggle { PID_DATA1 } else { PID_DATA0 }
}

/// Result of one interrupt-IN poll of `len` bytes, from the halted
/// channel's status (`None`: no halt within the 5 ms window). A complete
/// transfer delivers `len` bytes and flips the toggle; NAK/NYET, no halt, or
/// any other status mean nothing yet; STALL, babble, transaction or toggle
/// errors fail (the caller aborts the channel).
pub fn interrupt_in_poll(toggle: &mut bool, len: usize, halt: Option<u32>) -> (r: Result<usize, ()>)
    ensures
        len > MAX_XFER ==> r is Err && *final(toggle) == *old(toggle),
        len <= MAX_XFER ==> match halt {
            None => r == Ok::<usize, ()>(0) && *final(toggle) == *old(toggle),
            Some(s) => if s & HCINT_XFERCOMPL != 0 {
                r == Ok::<usize, ()>(len) && *final(toggle) == !*old(toggle)
            } else if s & (HCINT_NAK | HCINT_NYET) != 0 {
                r == Ok::<usize, ()>(0) && *final(toggle) == *old(toggle)
            } else if s & (HCINT_STALL | HCINT_BBLERR | HCINT_XACTERR | HCINT_DATATGLERR) != 0 {
                r is Err && *final(toggle) == *old(toggle)
            } else {
                r == Ok::<usize, ()>(0) && *final(toggle) == *old(toggle)
            },
        },
{
    if len > MAX_XFER {
        return Err(());
    }
    match halt {
        None => Ok(0),
        Some(s) => {
            if s & HCINT_XFERCOMPL != 0 {
                *toggle = !*toggle;
                Ok(len)
            } else if s & (HCINT_NAK | HCINT_NYET) != 0 {
                Ok(0)
            } else if s & (HCINT_STALL | HCINT_BBLERR | HCINT_XACTERR | HCINT_DATATGLERR) != 0 {
                Err(())
            } else {
                Ok(0)
            }
        },
    }
}

/// What a bulk transfer of `len` bytes does: `Err` when over
/// `MAX_BULK_XFER`; `Ok(None)` for nothing to move; else the PID to start
/// with and the packet count.
pub fn bulk_plan(ep: &Endpoint, toggle: bool, len: usize) -> (r: Result<Option<(u32, u32)>, ()>)
    ensures
        len > MAX_BULK_XFER ==> r is Err,
        len <= MAX_BULK_XFER && len == 0 ==> r == Ok::<Option<(u32, u32)>, ()>(None),
        len <= MAX_BULK_XFER && len > 0 ==> r == Ok::<Option<(u32, u32)>, ()>(
            Some((if toggle { PID_DATA1 } else { PID_DATA0 }, packet_count(len as nat, ep.max_packet as nat) as u32)),
        ),
{
    if len > MAX_BULK_XFER {
        return Err(());
    }
    if len == 0 {
        return Ok(None);
    }
    let n = pkt_count(len as u32, ep.max_packet);
    Ok(Some((toggle_pid(toggle), n)))
}

/// A bulk transfer of `len` bytes on `ep`, where `ok` is whether the
/// channel moved them (the channel runs only when `bulk_plan` gives a
/// packet count). Over `MAX_BULK_XFER` bytes it fails and an empty transfer
/// succeeds with 0 bytes, the toggle kept either way; otherwise on success
/// `len` bytes moved and the endpoint's toggle flips exactly when an odd
/// number of packets (`packet_count` of `len` by the endpoint's packet size)
/// went out, and on failure nothing changes.
pub fn bulk_transfer(ep: &Endpoint, toggle: &mut bool, len: usize, ok: bool) -> (r: Result<usize, ()>)
    ensures
        len > MAX_BULK_XFER ==> r is Err && *final(toggle) == *old(toggle),
        len == 0 ==> r == Ok::<usize, ()>(0) && *final(toggle) == *old(toggle),
        0 < len <= MAX_BULK_XFER && ok ==> r == Ok::<usize, ()>(len) && *final(toggle) == (*old(toggle) != (
            packet_count(len as nat, ep.max_packet as nat) % 2 == 1)),
        0 < len <= MAX_BULK_XFER && !ok ==> r is Err && *final(toggle) == *old(toggle),
{
    let plan = bulk_plan(ep, *toggle, len);
    match plan {
        Err(()) => Err(()),
        Ok(None) => Ok(0),
        Ok(Some((_pid, pktcnt))) => {
            if !ok {
                return Err(());
            }
            if pktcnt % 2 == 1 {
                *toggle = !*toggle;
            }
            Ok(len)
        },
    }
}

// ── Diagnostics ────────────────────────────────────────────────────────────

/// `v` as 8 hex digits.
pub fn log_hex_bare(v: u32) -> (s: Vec<u8>)
    ensures
        s@ == hex32_seq(v),
{
    hex8(v)
}

/// `n` in decimal.
pub fn log_dec(n: u32) -> (s: Vec<u8>)
    ensures
        s@ == dec_digits(n as nat),
{
    dec(n as u64)
}

} // verus!

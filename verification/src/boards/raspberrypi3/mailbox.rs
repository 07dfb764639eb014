//! VideoCore mailbox, property channel 8: bus-address aliasing, the cache
//! lines a message spans, and the bounded polling protocol of one call.
use vstd::prelude::*;

verus! {

pub const MAILBOX_READ: u64 = 0x3F00_B880;
pub const MAILBOX_STATUS: u64 = 0x3F00_B898;
pub const MAILBOX_WRITE: u64 = 0x3F00_B8A0;
pub const MAILBOX_FULL: u32 = 0x8000_0000;
pub const MAILBOX_EMPTY: u32 = 0x4000_0000;
pub const CHANNEL_PROPERTY: u32 = 8;
/// Response code in word 1 of a message the firmware handled.
pub const RESP_SUCCESS: u32 = 0x8000_0000;
/// Polls allowed per wait before giving up.
pub const MAX_SPIN: u32 = 2_000_000;

/// ARM physical address → VideoCore bus address in the uncached alias
/// (top two bits set).
pub fn phys_to_bus(phys: u64) -> (bus: u32)
    ensures
        bus == ((phys as u32) | 0xC000_0000),
{
    (phys as u32) | 0xC000_0000
}

/// VideoCore bus address → ARM physical address (alias bits stripped).
pub fn bus_to_phys(bus: u32) -> (phys: u64)
    ensures
        phys == (bus & 0x3FFF_FFFF) as u64,
{
    (bus & 0x3FFF_FFFF) as u64
}

/// A physical address below 1 GiB survives the trip to the bus alias and
/// back.
pub proof fn bus_round_trip(phys: u64)
    requires
        phys < 0x4000_0000,
    ensures
        ((((phys as u32) | 0xC000_0000u32) & 0x3FFF_FFFFu32) as u64) == phys,
{
    assert(((((phys as u32) | 0xC000_0000u32) & 0x3FFF_FFFFu32) as u64) == phys) by (bit_vector)
        requires
            phys < 0x4000_0000,
    ;
}

/// D-cache line size in bytes from `CTR_EL0.DminLine` (log2 of words).
pub fn dcache_line_size(ctr: u64) -> (line: u64)
    ensures
        line == (4u64 << ((ctr >> 16u64) & 0xF)),
        line >= 4,
{
    let sh = (ctr >> 16u64) & 0xF;
    assert(sh <= 15) by (bit_vector)
        requires
            sh == (ctr >> 16u64) & 0xF,
    ;
    let line = 4u64 << sh;
    assert(line >= 4) by (bit_vector)
        requires
            sh <= 15,
            line == 4u64 << sh,
    ;
    line
}

/// Addresses of the cache lines of size `line` covering `[start, start+len)`,
/// from the line holding `start` up.
pub fn cache_lines(start: u64, len: u64, line: u64) -> (v: Vec<u64>)
    requires
        line > 0,
        start + len + line <= u64::MAX,
        line & ((line - 1) as u64) == 0,
    ensures
        v@.len() > 0 ==> v@[0] == start & !((line - 1) as u64),
        forall|i: int| 0 < i < v@.len() ==> #[trigger] v@[i] == v@[i - 1] + line,
        forall|i: int| 0 <= i < v@.len() ==> #[trigger] v@[i] < start + len,
        v@.len() == 0 || v@.last() + line >= start + len,
        v@.len() == 0 ==> (start & !((line - 1) as u64)) >= start + len,
{
    let end = start + len;
    let mut addr = start & !(line - 1);
    assert(addr <= start) by (bit_vector)
        requires
            addr == start & !((line - 1) as u64),
    ;
    let mut v: Vec<u64> = Vec::new();
    while addr < end
        invariant
            end == start + len,
            line > 0,
            start + len + line <= u64::MAX,
            addr <= end + line,
            addr <= start || v@.len() > 0,
            v@.len() > 0 ==> v@[0] == start & !((line - 1) as u64) && addr == v@.last() + line,
            v@.len() == 0 ==> addr == start & !((line - 1) as u64),
            forall|i: int| 0 < i < v@.len() ==> #[trigger] v@[i] == v@[i - 1] + line,
            forall|i: int| 0 <= i < v@.len() ==> #[trigger] v@[i] < end,
        decreases end + line - addr,
    {
        v.push(addr);
        addr = addr + line;
    }
    v
}

/// Where one call stands.
#[derive(Clone, Copy, PartialEq, Eq, Structural, Debug)]
pub enum MboxPhase {
    /// Polling the status register until the write FIFO has room.
    WaitSend,
    /// Polling the status register until a response is queued.
    WaitResponse,
    /// Reading one response word.
    ReadResponse,
    /// Finished: `true` when our message came back (the firmware's verdict
    /// is then in word 1 of the buffer), `false` on a timeout.
    Done(bool),
}

/// What the caller does next.
#[derive(Clone, Copy, PartialEq, Eq, Structural, Debug)]
pub enum MboxAction {
    ReadStatus,
    /// Write the message word to `MAILBOX_WRITE`, then read the status.
    WriteThenReadStatus(u32),
    ReadData,
    Finished(bool),
}

/// One mailbox call, as a state machine driven by the registers it reads.
pub struct MailboxCall {
    pub msg: u32,
    pub phase: MboxPhase,
    pub spins: u32,
}

impl MailboxCall {
    pub open spec fn wf(&self) -> bool {
        self.spins <= MAX_SPIN
    }

    /// Polls left before the call must end: a bound on how many more times
    /// `step` can be called.
    pub open spec fn budget(&self) -> int {
        match self.phase {
            MboxPhase::WaitSend => 2 * (MAX_SPIN - self.spins) + 2 * MAX_SPIN + 8,
            MboxPhase::WaitResponse => 2 * (MAX_SPIN - self.spins) + 4,
            MboxPhase::ReadResponse => 2 * (MAX_SPIN - self.spins) + 3,
            MboxPhase::Done(_) => 0,
        }
    }

    /// Start a call for the message buffer at `buffer_phys`.
    pub fn new(buffer_phys: u64) -> (c: MailboxCall)
        ensures
            c.wf(),
            c.msg == ((buffer_phys as u32) | 0xC000_0000) | 8,
            c.phase == MboxPhase::WaitSend,
            c.spins == 0,
    {
        MailboxCall { msg: phys_to_bus(buffer_phys) | CHANNEL_PROPERTY, phase: MboxPhase::WaitSend, spins: 0 }
    }

    /// Feed the value read for the previous action (a status word or a
    /// response word); returns what to do next. Each wait gives up after
    /// `MAX_SPIN` unsuccessful polls; the response wait shares one budget
    /// across non-matching responses.
    pub fn step(&mut self, read: u32) -> (a: MboxAction)
        requires
            old(self).wf(),
            !(old(self).phase is Done),
        ensures
            final(self).wf(),
            final(self).msg == old(self).msg,
            final(self).budget() < old(self).budget(),
            a == match final(self).phase {
                MboxPhase::WaitSend => MboxAction::ReadStatus,
                MboxPhase::WaitResponse => if old(self).phase is WaitSend {
                    MboxAction::WriteThenReadStatus(old(self).msg)
                } else {
                    MboxAction::ReadStatus
                },
                MboxPhase::ReadResponse => MboxAction::ReadData,
                MboxPhase::Done(ok) => MboxAction::Finished(ok),
            },
            old(self).phase is WaitSend ==> if read & MAILBOX_FULL != 0 {
                if old(self).spins + 1 > MAX_SPIN {
                    final(self).phase == MboxPhase::Done(false)
                } else {
                    final(self).phase == MboxPhase::WaitSend && final(self).spins == old(self).spins + 1
                }
            } else {
                final(self).phase == MboxPhase::WaitResponse && final(self).spins == 0
            },
            old(self).phase is WaitResponse ==> if read & MAILBOX_EMPTY != 0 {
                if old(self).spins + 1 > MAX_SPIN {
                    final(self).phase == MboxPhase::Done(false)
                } else {
                    final(self).phase == MboxPhase::WaitResponse && final(self).spins == old(self).spins + 1
                }
            } else {
                final(self).phase == MboxPhase::ReadResponse && final(self).spins == old(self).spins
            },
            old(self).phase is ReadResponse ==> if read == old(self).msg {
                final(self).phase == MboxPhase::Done(true)
            } else if old(self).spins + 1 > MAX_SPIN {
                final(self).phase == MboxPhase::Done(false)
            } else {
                final(self).phase == MboxPhase::WaitResponse && final(self).spins == old(self).spins + 1
            },
    {
        match self.phase {
            MboxPhase::WaitSend => {
                if read & MAILBOX_FULL != 0 {
                    if self.spins + 1 > MAX_SPIN {
                        self.phase = MboxPhase::Done(false);
                        MboxAction::Finished(false)
                    } else {
                        self.spins = self.spins + 1;
                        MboxAction::ReadStatus
                    }
                } else {
                    self.phase = MboxPhase::WaitResponse;
                    self.spins = 0;
                    MboxAction::WriteThenReadStatus(self.msg)
                }
            },
            MboxPhase::WaitResponse => {
                if read & MAILBOX_EMPTY != 0 {
                    if self.spins + 1 > MAX_SPIN {
                        self.phase = MboxPhase::Done(false);
                        MboxAction::Finished(false)
                    } else {
                        self.spins = self.spins + 1;
                        MboxAction::ReadStatus
                    }
                } else {
                    self.phase = MboxPhase::ReadResponse;
                    MboxAction::ReadData
                }
            },
            MboxPhase::ReadResponse => {
                if read == self.msg {
                    self.phase = MboxPhase::Done(true);
                    MboxAction::Finished(true)
                } else if self.spins + 1 > MAX_SPIN {
                    self.phase = MboxPhase::Done(false);
                    MboxAction::Finished(false)
                } else {
                    self.spins = self.spins + 1;
                    self.phase = MboxPhase::WaitResponse;
                    MboxAction::ReadStatus
                }
            },
            MboxPhase::Done(ok) => MboxAction::Finished(ok),
        }
    }
}

/// The call's result once the response came back: the firmware's verdict in
/// word 1 of the (re-read) buffer.
pub fn call_succeeded(response_word1: u32) -> (ok: bool)
    ensures
        ok == (response_word1 == RESP_SUCCESS),
{
    response_word1 == RESP_SUCCESS
}

} // verus!

//! USB mass storage, bulk-only transport with SCSI block commands: the
//! command block wrapper, the status check, READ CAPACITY(10) parsing,
//! READ(10)/WRITE(10) command blocks, and the table of attached disks.
use vstd::prelude::*;
use crate::boards::raspberrypi3::usb::hub::first_free;
use crate::bytes::{be32, le32, read_be32, read_le32};
use crate::boards::raspberrypi3::usb::protocol::Endpoint;

verus! {

pub const CBW_SIGNATURE: u32 = 0x4342_5355;
pub const CSW_SIGNATURE: u32 = 0x5342_5355;
pub const CBW_LEN: usize = 31;
pub const CSW_LEN: usize = 13;
pub const CBW_FLAG_DATA_IN: u8 = 0x80;
pub const CSW_STATUS_PASSED: u8 = 0;
pub const SCSI_TEST_UNIT_READY: u8 = 0x00;
pub const SCSI_READ_CAPACITY10: u8 = 0x25;
pub const SCSI_READ10: u8 = 0x28;
pub const SCSI_WRITE10: u8 = 0x2A;
pub const SECTOR_SIZE: usize = 512;
pub const MAX_DEVICES: usize = 4;

/// Little-endian bytes of `v`.
pub open spec fn le_bytes(v: u32) -> Seq<u8> {
    seq![(v & 0xFF) as u8, ((v >> 8u32) & 0xFF) as u8, ((v >> 16u32) & 0xFF) as u8, ((v >> 24u32) & 0xFF) as u8]
}

/// Big-endian bytes of `v`.
pub open spec fn be_bytes(v: u32) -> Seq<u8> {
    seq![((v >> 24u32) & 0xFF) as u8, ((v >> 16u32) & 0xFF) as u8, ((v >> 8u32) & 0xFF) as u8, (v & 0xFF) as u8]
}

fn push_le32(out: &mut Vec<u8>, v: u32)
    ensures
        final(out)@ == old(out)@ + le_bytes(v),
{
    out.push((v & 0xFF) as u8);
    out.push(((v >> 8u32) & 0xFF) as u8);
    out.push(((v >> 16u32) & 0xFF) as u8);
    out.push(((v >> 24u32) & 0xFF) as u8);
    assert(out@ =~= old(out)@ + le_bytes(v));
}

/// The 31-byte command block wrapper: signature, tag, data length, the
/// direction flag (IN only when there is data to read), LUN 0, the command
/// length, the command block, zero padding.
pub open spec fn cbw_bytes(tag: u32, data_len: u32, data_in: bool, cdb: Seq<u8>) -> Seq<u8> {
    le_bytes(CBW_SIGNATURE) + le_bytes(tag) + le_bytes(data_len) + seq![
        if data_len != 0 && data_in { CBW_FLAG_DATA_IN } else { 0u8 },
        0u8,
        cdb.len() as u8,
    ] + cdb + Seq::new((16 - cdb.len()) as nat, |i: int| 0u8)
}

pub fn build_cbw(tag: u32, data_len: u32, data_in: bool, cdb: &[u8]) -> (b: Vec<u8>)
    requires
        cdb@.len() <= 16,
    ensures
        b@ == cbw_bytes(tag, data_len, data_in, cdb@),
        b@.len() == CBW_LEN,
{
    let mut b: Vec<u8> = Vec::new();
    push_le32(&mut b, CBW_SIGNATURE);
    push_le32(&mut b, tag);
    push_le32(&mut b, data_len);
    b.push(if data_len != 0 && data_in { CBW_FLAG_DATA_IN } else { 0 });
    b.push(0);
    b.push(cdb.len() as u8);
    let ghost head = b@;
    let mut i: usize = 0;
    while i < cdb.len()
        invariant
            i <= cdb@.len(),
            b@ == head + cdb@.take(i as int),
        decreases cdb@.len() - i,
    {
        assert(cdb@.take(i + 1) =~= cdb@.take(i as int).push(cdb@[i as int]));
        b.push(cdb[i]);
        i = i + 1;
    }
    let mut k: usize = cdb.len();
    while k < 16
        invariant
            cdb@.len() <= k <= 16,
            b@ == head + cdb@ + Seq::new((k - cdb@.len()) as nat, |j: int| 0u8),
        decreases 16 - k,
    {
        assert(Seq::new((k + 1 - cdb@.len()) as nat, |j: int| 0u8) =~= Seq::new((k - cdb@.len()) as nat, |j: int| 0u8).push(0u8));
        b.push(0);
        k = k + 1;
    }
    assert(cdb@.take(cdb@.len() as int) =~= cdb@);
    assert(b@ =~= cbw_bytes(tag, data_len, data_in, cdb@));
    b
}

/// A command status wrapper reports success for command `tag`: right
/// signature, matching tag, status "passed".
pub fn csw_ok(csw: &[u8], tag: u32) -> (ok: bool)
    requires
        csw@.len() >= CSW_LEN,
    ensures
        ok == (le32(csw@, 0) == CSW_SIGNATURE && le32(csw@, 4) == tag && csw@[12] == CSW_STATUS_PASSED),
{
    read_le32(csw, 0) == CSW_SIGNATURE && read_le32(csw, 4) == tag && csw[12] == CSW_STATUS_PASSED
}

/// Before a command: rejected (command block over 16 bytes, data over 4 KiB),
/// else the device's tag advances (wrapping) and the new tag is used.
pub fn next_tag(tag: u32, cdb_len: usize, data_len: usize) -> (r: Result<u32, ()>)
    ensures
        cdb_len > 16 || data_len > 4096 ==> r is Err,
        !(cdb_len > 16 || data_len > 4096) ==> r == Ok::<u32, ()>(tag.wrapping_add(1)),
{
    if cdb_len > 16 || data_len > 4096 {
        return Err(());
    }
    Ok(tag.wrapping_add(1))
}

pub fn test_unit_ready_cdb() -> (c: [u8; 6])
    ensures
        c@ == seq![0u8, 0u8, 0u8, 0u8, 0u8, 0u8],
{
    let c = [SCSI_TEST_UNIT_READY, 0, 0, 0, 0, 0];
    assert(c@ =~= seq![0u8, 0u8, 0u8, 0u8, 0u8, 0u8]);
    c
}

pub fn read_capacity10_cdb() -> (c: [u8; 10])
    ensures
        c@ == seq![0x25u8, 0u8, 0u8, 0u8, 0u8, 0u8, 0u8, 0u8, 0u8, 0u8],
{
    let c = [SCSI_READ_CAPACITY10, 0, 0, 0, 0, 0, 0, 0, 0, 0];
    assert(c@ =~= seq![0x25u8, 0u8, 0u8, 0u8, 0u8, 0u8, 0u8, 0u8, 0u8, 0u8]);
    c
}

/// READ CAPACITY(10) reply: last LBA and block size, big-endian.
pub fn parse_capacity(buf: &[u8]) -> (r: (u32, u32))
    requires
        buf@.len() >= 8,
    ensures
        r == (be32(buf@, 0), be32(buf@, 4)),
{
    (read_be32(buf, 0), read_be32(buf, 4))
}

/// A disk is taken only with 512-byte blocks; its block count is the last
/// LBA plus one (saturating).
pub fn capacity_blocks(last_lba: u32, block_size: u32) -> (r: Option<u32>)
    ensures
        r == if block_size == 512 { Some(last_lba.saturating_add(1)) } else { None::<u32> },
{
    if block_size as usize != SECTOR_SIZE {
        return None;
    }
    Some(last_lba.saturating_add(1))
}

/// READ(10) / WRITE(10) of one block at `lba`.
pub open spec fn rw10_cdb(op: u8, lba: u32) -> Seq<u8> {
    seq![op, 0u8] + be_bytes(lba) + seq![0u8, 0u8, 1u8, 0u8]
}

pub fn rw10(op: u8, lba: u32) -> (c: [u8; 10])
    ensures
        c@ == rw10_cdb(op, lba),
{
    let c = [
        op,
        0,
        ((lba >> 24u32) & 0xFF) as u8,
        ((lba >> 16u32) & 0xFF) as u8,
        ((lba >> 8u32) & 0xFF) as u8,
        (lba & 0xFF) as u8,
        0,
        0,
        1,
        0,
    ];
    assert(c@ =~= rw10_cdb(op, lba));
    c
}

/// A disk that answered: its endpoints, toggles, last tag and size.
#[derive(Clone, Copy, PartialEq, Eq, Structural, Debug)]
pub struct Disk {
    pub ep0: Endpoint,
    pub bulk_in: Endpoint,
    pub bulk_out: Endpoint,
    pub in_toggle: bool,
    pub out_toggle: bool,
    pub tag: u32,
    pub block_count: u32,
}

pub open spec fn stays(d: Option<Disk>, at: (u8, u8)) -> bool {
    d matches Some(x) && !(x.bulk_in.hub_addr == at.0 && x.bulk_in.hub_port == at.1)
}

/// The disks left in order after dropping those at `at`.
pub open spec fn kept(s: Seq<Option<Disk>>, at: (u8, u8)) -> Seq<Disk>
    decreases s.len(),
{
    if s.len() == 0 {
        Seq::empty()
    } else if stays(s.last(), at) {
        kept(s.drop_last(), at).push(s.last()->0)
    } else {
        kept(s.drop_last(), at)
    }
}

proof fn lemma_kept_len(s: Seq<Option<Disk>>, at: (u8, u8))
    ensures
        kept(s, at).len() <= s.len(),
    decreases s.len(),
{
    if s.len() > 0 {
        lemma_kept_len(s.drop_last(), at);
    }
}

/// After a detach at `at`, no disk left is one attached there, and every
/// disk kept was attached before.
pub proof fn detach_leaves_none_at(s: Seq<Option<Disk>>, at: (u8, u8))
    ensures
        forall|i: int| 0 <= i < kept(s, at).len() ==> !(#[trigger] kept(s, at)[i].bulk_in.hub_addr == at.0
            && kept(s, at)[i].bulk_in.hub_port == at.1),
        forall|i: int| 0 <= i < kept(s, at).len() ==> exists|j: int| 0 <= j < s.len() && #[trigger] s[j] == Some(
            #[trigger] kept(s, at)[i],
        ),
    decreases s.len(),
{
    if s.len() > 0 {
        let s2 = s.drop_last();
        detach_leaves_none_at(s2, at);
        let k2 = kept(s2, at);
        assert forall|i: int| 0 <= i < kept(s, at).len() implies exists|j: int| 0 <= j < s.len() && #[trigger] s[j]
            == Some(#[trigger] kept(s, at)[i]) by {
            if i < k2.len() {
                assert(kept(s, at)[i] == k2[i]);
                let j = choose|j: int| 0 <= j < s2.len() && #[trigger] s2[j] == Some(#[trigger] k2[i]);
                assert(s[j] == s2[j]);
            } else {
                assert(s[s.len() - 1] == Some(kept(s, at)[i]));
            }
        }
    }
}

/// Slots holding a disk.
pub open spec fn occupied(s: Seq<Option<Disk>>) -> nat
    decreases s.len(),
{
    if s.len() == 0 {
        0
    } else {
        occupied(s.drop_last()) + if s.last() is Some { 1nat } else { 0nat }
    }
}

/// Slots holding a disk attached at `at`.
pub open spec fn occupied_at(s: Seq<Option<Disk>>, at: (u8, u8)) -> nat
    decreases s.len(),
{
    if s.len() == 0 {
        0
    } else {
        occupied_at(s.drop_last(), at) + if s.last() is Some && !stays(s.last(), at) { 1nat } else { 0nat }
    }
}

/// Every disk sits before every empty slot.
pub open spec fn packed(s: Seq<Option<Disk>>) -> bool {
    forall|i: int, j: int| 0 <= i < j < s.len() && #[trigger] s[j] is Some ==> #[trigger] s[i] is Some
}

proof fn lemma_kept_count(s: Seq<Option<Disk>>, at: (u8, u8))
    ensures
        kept(s, at).len() + occupied_at(s, at) == occupied(s),
    decreases s.len(),
{
    if s.len() > 0 {
        lemma_kept_count(s.drop_last(), at);
    }
}

proof fn lemma_occupied4(s: Seq<Option<Disk>>)
    requires
        s.len() == 4,
    ensures
        occupied(s) == (if s[0] is Some { 1int } else { 0 }) + (if s[1] is Some { 1int } else { 0 }) + (if s[2] is Some {
            1int
        } else {
            0
        }) + (if s[3] is Some { 1int } else { 0 }),
{
    let s3 = s.drop_last();
    let s2 = s3.drop_last();
    let s1 = s2.drop_last();
    let s0 = s1.drop_last();
    assert(s0.len() == 0);
    assert(occupied(s1) == occupied(s0) + if s1.last() is Some { 1nat } else { 0nat });
    assert(occupied(s2) == occupied(s1) + if s2.last() is Some { 1nat } else { 0nat });
    assert(occupied(s3) == occupied(s2) + if s3.last() is Some { 1nat } else { 0nat });
}

/// Detaching at `at` (slots `after`, as `Disks::detach` leaves them, from
/// `before`) keeps the disks packed at the front, drops exactly the disks
/// attached at `at`, so that the count falls by their number, and leaves a
/// disk in slot `i` exactly for `i` below the new count.
pub proof fn detach_keeps_disks_packed(before: Seq<Option<Disk>>, after: Seq<Option<Disk>>, at: (u8, u8))
    requires
        before.len() == 4,
        after.len() == 4,
        forall|i: int| 0 <= i < 4 ==> #[trigger] after[i] == if i < kept(before, at).len() {
            Some(kept(before, at)[i])
        } else {
            None::<Disk>
        },
    ensures
        packed(after),
        occupied(after) == occupied(before) - occupied_at(before, at),
        forall|i: int| 0 <= i < 4 ==> (#[trigger] after[i] is Some <==> i < occupied(after)),
        forall|i: int| 0 <= i < 4 && #[trigger] after[i] is Some ==> !(after[i]->0.bulk_in.hub_addr == at.0
            && after[i]->0.bulk_in.hub_port == at.1),
{
    lemma_kept_count(before, at);
    lemma_kept_len(before, at);
    lemma_occupied4(after);
    detach_leaves_none_at(before, at);
    let k = kept(before, at);
    assert(occupied(after) == k.len()) by {
        assert(after[0] is Some <==> 0 < k.len());
        assert(after[1] is Some <==> 1 < k.len());
        assert(after[2] is Some <==> 2 < k.len());
        assert(after[3] is Some <==> 3 < k.len());
    }
    assert forall|i: int| 0 <= i < 4 && #[trigger] after[i] is Some implies !(after[i]->0.bulk_in.hub_addr == at.0
        && after[i]->0.bulk_in.hub_port == at.1) by {
        assert(after[i]->0 == k[i]);
    }
}

/// The attached disks, always packed at the front so that indices count
/// from 0 without holes.
pub struct Disks {
    pub slots: [Option<Disk>; 4],
}

impl Disks {
    pub fn new() -> (d: Disks)
        ensures
            forall|i: int| 0 <= i < 4 ==> d.slots@[i] is None,
    {
        Disks { slots: [None, None, None, None] }
    }

    /// Drop every disk attached at `(hub_addr, hub_port)` and pack the rest
    /// to the front, in their previous order.
    pub fn detach(&mut self, hub_addr: u8, hub_port: u8)
        ensures
            ({
                let k = kept(old(self).slots@, (hub_addr, hub_port));
                forall|i: int| 0 <= i < 4 ==> #[trigger] final(self).slots@[i] == if i < k.len() {
                    Some(k[i])
                } else {
                    None::<Disk>
                }
            }),
    {
        let ghost at = (hub_addr, hub_port);
        let old_slots = self.slots;
        let mut out: [Option<Disk>; 4] = [None, None, None, None];
        let mut w: usize = 0;
        let mut r: usize = 0;
        while r < 4
            invariant
                r <= 4,
                at == (hub_addr, hub_port),
                old_slots@ == old(self).slots@,
                w == kept(old_slots@.take(r as int), at).len(),
                w <= r,
                forall|i: int| 0 <= i < 4 ==> #[trigger] out@[i] == if i < w {
                    Some(kept(old_slots@.take(r as int), at)[i])
                } else {
                    None::<Disk>
                },
            decreases 4 - r,
        {
            let ghost k0 = kept(old_slots@.take(r as int), at);
            let ghost out0 = out@;
            assert(old_slots@.take(r + 1).drop_last() =~= old_slots@.take(r as int));
            assert(old_slots@.take(r + 1).last() == old_slots@[r as int]);
            assert(kept(old_slots@.take(r + 1), at) == if stays(old_slots@[r as int], at) {
                k0.push(old_slots@[r as int]->0)
            } else {
                k0
            });
            match old_slots[r] {
                Some(d) => {
                    if !(d.bulk_in.hub_addr == hub_addr && d.bulk_in.hub_port == hub_port) {
                        out[w] = Some(d);
                        assert(out@ == out0.update(w as int, Some(d)));
                        w = w + 1;
                    }
                },
                None => {},
            }
            r = r + 1;
        }
        assert(old_slots@.take(4) =~= old_slots@);
        self.slots = out;
    }

    /// Disks attached.
    pub fn device_count(&self) -> (n: usize)
        ensures
            n == (if self.slots@[0] is Some { 1int } else { 0 }) + (if self.slots@[1] is Some { 1int } else { 0 })
                + (if self.slots@[2] is Some { 1int } else { 0 }) + (if self.slots@[3] is Some { 1int } else { 0 }),
            n == occupied(self.slots@),
    {
        proof {
            lemma_occupied4(self.slots@);
        }
        let mut n: usize = 0;
        if self.slots[0].is_some() {
            n = n + 1;
        }
        if self.slots[1].is_some() {
            n = n + 1;
        }
        if self.slots[2].is_some() {
            n = n + 1;
        }
        if self.slots[3].is_some() {
            n = n + 1;
        }
        n
    }

    /// Size in blocks of disk `index`, if attached.
    pub fn block_count(&self, index: usize) -> (r: Option<u32>)
        ensures
            r == if index < 4 && self.slots@[index as int] is Some {
                Some(self.slots@[index as int]->0.block_count)
            } else {
                None::<u32>
            },
    {
        if index >= 4 {
            return None;
        }
        match self.slots[index] {
            Some(d) => Some(d.block_count),
            None => None,
        }
    }

    /// Keep a disk that answered READ CAPACITY in the first free slot;
    /// `false` when all are taken.
    pub fn attach(&mut self, disk: Disk) -> (ok: bool)
        ensures
            ok == (first_free(old(self).slots@) < 4),
            ok ==> final(self).slots@ == old(self).slots@.update(first_free(old(self).slots@), Some(disk)),
            !ok ==> final(self).slots@ == old(self).slots@,
    {
        let mut i: usize = 0;
        while i < 4
            invariant
                i <= 4,
                self.slots@ == old(self).slots@,
                forall|k: int| 0 <= k < i ==> old(self).slots@[k] is Some,
            decreases 4 - i,
        {
            if self.slots[i].is_none() {
                self.slots[i] = Some(disk);
                return true;
            }
            i = i + 1;
        }
        false
    }
}

// ── One bulk-only transport command ─────────────────────────────────────

/// What the caller does next for a command in flight: send the command
/// block wrapper on bulk-OUT, move `len` data bytes (IN or OUT), read the
/// 13-byte status wrapper on bulk-IN, or report the outcome (bytes of data
/// moved).
pub enum BotStep {
    SendCbw(Vec<u8>),
    Data { data_in: bool, len: usize },
    ReadCsw,
    Done(Result<usize, ()>),
}

pub open spec fn done_with(s: BotStep, res: Result<usize, ()>) -> bool {
    match s {
        BotStep::Done(r) => r == res,
        _ => false,
    }
}

pub open spec fn sends_cbw(s: BotStep, bytes: Seq<u8>) -> bool {
    match s {
        BotStep::SendCbw(b) => b@ == bytes,
        _ => false,
    }
}

pub open spec fn moves_data(s: BotStep, data_in: bool, len: usize) -> bool {
    match s {
        BotStep::Data { data_in: d, len: l } => d == data_in && l == len,
        _ => false,
    }
}

pub open spec fn cdb_is(r: Result<[u8; 10], ()>, c: Seq<u8>) -> bool {
    match r {
        Ok(x) => x@ == c,
        Err(_) => false,
    }
}

#[derive(Clone, Copy, PartialEq, Eq, Structural, Debug)]
pub enum BotPhase {
    Cbw,
    Data,
    Csw,
    Finished,
}

/// A command between its steps: its tag, data length and direction, the
/// data moved so far, and where it is.
pub struct BotCommand {
    pub tag: u32,
    pub data_len: usize,
    pub data_in: bool,
    pub transferred: usize,
    pub phase: BotPhase,
}

impl BotCommand {
    /// Start command `cdb` with `data_len` bytes of data: rejected at once
    /// (tag untouched) for a command block over 16 bytes or data over 4 KiB;
    /// otherwise the device's tag advances and the wrapper goes out first.
    pub fn begin(dev_tag: &mut u32, cdb: &[u8], data_len: usize, data_in: bool) -> (r: (BotCommand, BotStep))
        ensures
            cdb@.len() > 16 || data_len > 4096 ==> *final(dev_tag) == *old(dev_tag) && r.0.phase == BotPhase::Finished
                && done_with(r.1, Err(())),
            !(cdb@.len() > 16 || data_len > 4096) ==> {
                &&& *final(dev_tag) == (*old(dev_tag)).wrapping_add(1)
                &&& r.0.tag == *final(dev_tag) && r.0.data_len == data_len && r.0.data_in == data_in
                &&& r.0.transferred == 0 && r.0.phase == BotPhase::Cbw
                &&& sends_cbw(r.1, cbw_bytes(*final(dev_tag), data_len as u32, data_in, cdb@))
            },
    {
        match next_tag(*dev_tag, cdb.len(), data_len) {
            Err(()) => (
                BotCommand { tag: *dev_tag, data_len, data_in, transferred: 0, phase: BotPhase::Finished },
                BotStep::Done(Err(())),
            ),
            Ok(tag) => {
                *dev_tag = tag;
                let cbw = build_cbw(tag, data_len as u32, data_in, cdb);
                (BotCommand { tag, data_len, data_in, transferred: 0, phase: BotPhase::Cbw }, BotStep::SendCbw(cbw))
            },
        }
    }

    /// The wrapper went out (`ok`) or failed: fail, or move the data, or
    /// (no data) read the status.
    pub fn on_cbw_sent(&mut self, ok: bool) -> (s: BotStep)
        requires
            old(self).phase == BotPhase::Cbw,
        ensures
            final(self).tag == old(self).tag && final(self).data_len == old(self).data_len,
            final(self).data_in == old(self).data_in && final(self).transferred == old(self).transferred,
            !ok ==> final(self).phase == BotPhase::Finished && done_with(s, Err(())),
            ok && old(self).data_len > 0 ==> final(self).phase == BotPhase::Data && moves_data(
                s,
                old(self).data_in,
                old(self).data_len,
            ),
            ok && old(self).data_len == 0 ==> final(self).phase == BotPhase::Csw && s is ReadCsw,
    {
        if !ok {
            self.phase = BotPhase::Finished;
            return BotStep::Done(Err(()));
        }
        if self.data_len > 0 {
            self.phase = BotPhase::Data;
            BotStep::Data { data_in: self.data_in, len: self.data_len }
        } else {
            self.phase = BotPhase::Csw;
            BotStep::ReadCsw
        }
    }

    /// The data stage moved `r` bytes (or failed): fail, or read the status.
    pub fn on_data(&mut self, r: Result<usize, ()>) -> (s: BotStep)
        requires
            old(self).phase == BotPhase::Data,
        ensures
            final(self).tag == old(self).tag && final(self).data_len == old(self).data_len,
            final(self).data_in == old(self).data_in,
            r is Err ==> final(self).phase == BotPhase::Finished && final(self).transferred == old(self).transferred
                && done_with(s, Err(())),
            r matches Ok(n) ==> final(self).phase == BotPhase::Csw && final(self).transferred == n && s is ReadCsw,
    {
        match r {
            Err(()) => {
                self.phase = BotPhase::Finished;
                BotStep::Done(Err(()))
            },
            Ok(n) => {
                self.transferred = n;
                self.phase = BotPhase::Csw;
                BotStep::ReadCsw
            },
        }
    }

    /// The status wrapper arrived (`read_ok`) in `csw`: the command
    /// succeeded, with the data moved, exactly when the wrapper says so for
    /// this tag.
    pub fn on_csw(&mut self, read_ok: bool, csw: &[u8]) -> (s: BotStep)
        requires
            old(self).phase == BotPhase::Csw,
            csw@.len() >= CSW_LEN,
        ensures
            final(self).phase == BotPhase::Finished,
            final(self).tag == old(self).tag && final(self).transferred == old(self).transferred,
            done_with(
                s,
                if read_ok && le32(csw@, 0) == CSW_SIGNATURE && le32(csw@, 4) == old(self).tag && csw@[12]
                    == CSW_STATUS_PASSED {
                    Ok::<usize, ()>(old(self).transferred)
                } else {
                    Err::<usize, ()>(())
                },
            ),
    {
        self.phase = BotPhase::Finished;
        if read_ok && csw_ok(csw, self.tag) {
            BotStep::Done(Ok(self.transferred))
        } else {
            BotStep::Done(Err(()))
        }
    }
}

impl Disks {
    /// The READ(10) command for one block of disk `index` into a buffer of
    /// `buf_len` bytes: refused for a buffer under one sector or no disk at
    /// `index`.
    pub fn read_block(&self, index: usize, lba: u32, buf_len: usize) -> (r: Result<[u8; 10], ()>)
        ensures
            buf_len < SECTOR_SIZE || index >= 4 || self.slots@[index as int] is None ==> r is Err,
            !(buf_len < SECTOR_SIZE || index >= 4 || self.slots@[index as int] is None) ==> cdb_is(
                r,
                rw10_cdb(SCSI_READ10, lba),
            ),
    {
        if buf_len < SECTOR_SIZE || index >= 4 || self.slots[index].is_none() {
            return Err(());
        }
        Ok(rw10(SCSI_READ10, lba))
    }

    /// The WRITE(10) command for one block of disk `index` from `data_len`
    /// bytes (the first sector is sent): refused for under one sector or no
    /// disk at `index`.
    pub fn write_block(&self, index: usize, lba: u32, data_len: usize) -> (r: Result<[u8; 10], ()>)
        ensures
            data_len < SECTOR_SIZE || index >= 4 || self.slots@[index as int] is None ==> r is Err,
            !(data_len < SECTOR_SIZE || index >= 4 || self.slots@[index as int] is None) ==> cdb_is(
                r,
                rw10_cdb(SCSI_WRITE10, lba),
            ),
    {
        if data_len < SECTOR_SIZE || index >= 4 || self.slots[index].is_none() {
            return Err(());
        }
        Ok(rw10(SCSI_WRITE10, lba))
    }
}

} // verus!

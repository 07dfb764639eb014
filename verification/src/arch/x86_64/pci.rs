//! PCI configuration space through the legacy I/O-port mechanism ("Configuration
//! Mechanism #1"): a register is selected by writing a CONFIG_ADDRESS word to
//! port 0xCF8 and then read or written through port 0xCFC. This module
//! computes those address words and decodes the registers read back.
use vstd::prelude::*;

verus! {

pub const CONFIG_ADDRESS: u16 = 0xCF8;
pub const CONFIG_DATA: u16 = 0xCFC;
pub const CONFIG_ENABLE: u32 = 0x8000_0000;

/// The CONFIG_ADDRESS word selecting register `offset` of `bus:device.function`
/// (the offset's low two bits are reserved and dropped).
pub open spec fn config_address_spec(bus: u8, device: u8, function: u8, offset: u8) -> u32 {
    CONFIG_ENABLE | ((bus as u32) << 16u32) | ((device as u32) << 11u32) | ((function as u32) << 8u32)
        | ((offset as u32) & 0xFC)
}

pub fn config_address(bus: u8, device: u8, function: u8, offset: u8) -> (a: u32)
    ensures
        a == config_address_spec(bus, device, function, offset),
{
    CONFIG_ENABLE | ((bus as u32) << 16) | ((device as u32) << 11) | ((function as u32) << 8)
        | ((offset as u32) & 0xFC)
}

/// For a slot number below 32 and a function number below 8 the address word
/// carries every field back out unchanged: the enable bit, the bus, the slot,
/// the function and the dword-aligned register offset.
pub proof fn config_address_fields(bus: u8, device: u8, function: u8, offset: u8)
    requires
        device < 32,
        function < 8,
    ensures
        ({
            let a = config_address_spec(bus, device, function, offset);
            &&& a & CONFIG_ENABLE != 0
            &&& (a >> 16u32) & 0xFF == bus as u32
            &&& (a >> 11u32) & 0x1F == device as u32
            &&& (a >> 8u32) & 0x7 == function as u32
            &&& a & 0xFF == (offset as u32) & 0xFC
        }),
{
    let b = bus as u32;
    let d = device as u32;
    let f = function as u32;
    let o = offset as u32;
    assert(b < 256 && d < 32 && f < 8 && o < 256);
    assert({
        let a = 0x8000_0000u32 | (b << 16u32) | (d << 11u32) | (f << 8u32) | (o & 0xFC);
        &&& a & 0x8000_0000u32 != 0
        &&& (a >> 16u32) & 0xFF == b
        &&& (a >> 11u32) & 0x1F == d
        &&& (a >> 8u32) & 0x7 == f
        &&& a & 0xFF == o & 0xFC
    }) by (bit_vector)
        requires
            b < 256,
            d < 32,
            f < 8,
            o < 256,
    ;
}

/// A PCI function's location in the (bus, device, function) address space.
#[derive(Clone, Copy, Debug, PartialEq, Eq, Structural)]
pub struct PciDevice {
    pub bus: u8,
    pub device: u8,
    pub function: u8,
}

impl PciDevice {
    /// The CONFIG_ADDRESS word to write before reading the doubleword at
    /// `offset` of this function through CONFIG_DATA.
    pub fn read32(&self, offset: u8) -> (a: u32)
        ensures
            a == config_address_spec(self.bus, self.device, self.function, offset),
    {
        config_address(self.bus, self.device, self.function, offset)
    }

    /// The CONFIG_ADDRESS word to write before writing the doubleword at
    /// `offset` of this function through CONFIG_DATA.
    pub fn write32(&self, offset: u8) -> (a: u32)
        ensures
            a == config_address_spec(self.bus, self.device, self.function, offset),
    {
        config_address(self.bus, self.device, self.function, offset)
    }

    /// The CONFIG_ADDRESS word selecting Base Address Register `index` (at
    /// config offsets 0x10, 0x14, ..., 0x24).
    pub fn bar(&self, index: u8) -> (a: u32)
        requires
            index < 6,
        ensures
            a == config_address_spec(self.bus, self.device, self.function, (0x10 + index * 4) as u8),
    {
        self.read32(0x10 + index * 4)
    }

    /// Decode a BAR value as an I/O-space BAR: its port number, or `None`
    /// for a memory-space BAR (bit 0 clear).
    pub fn io_bar_port(bar: u32) -> (r: Option<u16>)
        ensures
            r == if bar & 1 == 0 {
                None
            } else {
                Some((bar & 0xFFFC) as u16)
            },
    {
        if bar & 1 == 0 {
            return None;
        }
        Some((bar & 0xFFFC) as u16)
    }

    /// The command register value (offset 0x04) that keeps the current
    /// command bits `cmd` and also enables I/O-space decoding (bit 0) and bus
    /// mastering (bit 2); the status half of the doubleword is written as 0.
    pub fn enable_io_and_bus_master(cmd: u32) -> (v: u32)
        ensures
            v == (cmd & 0xFFFF) | 1 | 4,
            v & 1 != 0,
            v & 4 != 0,
            v >> 16u32 == 0,
            v & 0xFFFF & !5u32 == cmd & 0xFFFF & !5u32,
    {
        let v = (cmd & 0xFFFF) | 1 | 4;
        assert(v & 1 != 0 && v & 4 != 0 && v >> 16u32 == 0 && v & 0xFFFF & !5u32 == cmd & 0xFFFF & !5u32)
            by (bit_vector)
            requires
                v == (cmd & 0xFFFF) | 1 | 4,
        ;
        v
    }

    /// (vendor id, device id) from the doubleword at offset 0x00.
    pub fn vendor_device(v: u32) -> (r: (u16, u16))
        ensures
            r == ((v & 0xFFFF) as u16, (v >> 16u32) as u16),
    {
        ((v & 0xFFFF) as u16, (v >> 16) as u16)
    }

    /// (class, subclass, prog_if) from the doubleword at offset 0x08.
    pub fn class_triple(v: u32) -> (r: (u8, u8, u8))
        ensures
            r == (((v >> 24u32) & 0xFF) as u8, ((v >> 16u32) & 0xFF) as u8, ((v >> 8u32) & 0xFF) as u8),
    {
        (((v >> 24) & 0xFF) as u8, ((v >> 16) & 0xFF) as u8, ((v >> 8) & 0xFF) as u8)
    }

    /// Header type from the doubleword at offset 0x0C.
    pub fn header_type(v: u32) -> (r: u8)
        ensures
            r == ((v >> 16u32) & 0xFF) as u8,
    {
        ((v >> 16) & 0xFF) as u8
    }
}

/// Number of (bus, device) slots the brute-force scan walks: 256 buses of
/// 32 devices each.
pub const NUM_SLOTS: u16 = 8192;

/// A model of configuration space: the doubleword read back for each
/// CONFIG_ADDRESS word.
pub type ConfigSpace = spec_fn(u32) -> u32;

pub open spec fn slot_bus(slot: int) -> u8 {
    (slot / 32) as u8
}

pub open spec fn slot_device(slot: int) -> u8 {
    (slot % 32) as u8
}

pub open spec fn cfg_read(cfg: ConfigSpace, slot: int, function: u8, offset: u8) -> u32 {
    cfg(config_address_spec(slot_bus(slot), slot_device(slot), function, offset))
}

pub open spec fn vendor_of(v: u32) -> u16 {
    (v & 0xFFFF) as u16
}

pub open spec fn class_of(v: u32) -> (u8, u8, u8) {
    (((v >> 24u32) & 0xFF) as u8, ((v >> 16u32) & 0xFF) as u8, ((v >> 8u32) & 0xFF) as u8)
}

pub open spec fn functions_of(header_reg: u32) -> u8 {
    if ((header_reg >> 16u32) & 0xFF) as u8 & 0x80 != 0 {
        8
    } else {
        1
    }
}

pub open spec fn device_at(slot: int, function: u8) -> PciDevice {
    PciDevice { bus: slot_bus(slot), device: slot_device(slot), function }
}

/// First function from `f` on (below `max`) of the slot that is present and
/// has class triple `target`.
pub open spec fn func_find(cfg: ConfigSpace, slot: int, f: int, max: int, target: (u8, u8, u8)) -> Option<PciDevice>
    decreases max - f,
{
    if f >= max || f < 0 {
        None
    } else if vendor_of(cfg_read(cfg, slot, f as u8, 0x00)) == 0xFFFF {
        func_find(cfg, slot, f + 1, max, target)
    } else if class_of(cfg_read(cfg, slot, f as u8, 0x08)) == target {
        Some(device_at(slot, f as u8))
    } else {
        func_find(cfg, slot, f + 1, max, target)
    }
}

/// The match inside one slot: none when function 0 is absent, else the
/// first match among its functions (eight for a multi-function device).
pub open spec fn slot_find(cfg: ConfigSpace, slot: int, target: (u8, u8, u8)) -> Option<PciDevice> {
    if vendor_of(cfg_read(cfg, slot, 0, 0x00)) == 0xFFFF {
        None
    } else {
        func_find(cfg, slot, 0, functions_of(cfg_read(cfg, slot, 0, 0x0C)) as int, target)
    }
}

/// First match at or after `slot`, in bus-then-device order.
pub open spec fn scan_from(cfg: ConfigSpace, slot: int, target: (u8, u8, u8)) -> Option<PciDevice>
    decreases NUM_SLOTS - slot,
{
    if slot >= NUM_SLOTS || slot < 0 {
        None
    } else {
        match slot_find(cfg, slot, target) {
            Some(d) => Some(d),
            None => scan_from(cfg, slot + 1, target),
        }
    }
}

/// What `find_device` finds in configuration space `cfg`.
pub open spec fn find_device_spec(cfg: ConfigSpace, target: (u8, u8, u8)) -> Option<PciDevice> {
    scan_from(cfg, 0, target)
}

/// Which register read the scan is waiting for.
#[derive(Clone, Copy, Debug, PartialEq, Eq, Structural)]
pub enum ScanStage {
    /// Vendor id of function 0 of the current slot.
    SlotVendor,
    /// Header type of function 0 of the current slot.
    SlotHeader,
    /// Vendor id of the current function.
    FuncVendor,
    /// Class triple of the current function.
    FuncClass,
    /// Finished; `found` holds the outcome.
    Done,
}

/// The brute-force scan over every (bus, device, function), one register
/// read at a time: `next_read` says which CONFIG_ADDRESS word to read, and
/// `feed` takes the doubleword read back.
#[derive(Clone, Copy, Debug)]
pub struct PciScan {
    pub target: (u8, u8, u8),
    pub slot: u16,
    pub function: u8,
    pub max_function: u8,
    pub stage: ScanStage,
    pub found: Option<PciDevice>,
}

impl PciScan {
    pub open spec fn wf(&self) -> bool {
        &&& self.slot < NUM_SLOTS || self.stage == ScanStage::Done
        &&& self.max_function == 1 || self.max_function == 8
        &&& self.function < self.max_function
    }

    /// The config address of the read the scan is waiting for.
    pub open spec fn pending_address(&self) -> u32 {
        let slot = self.slot as int;
        match self.stage {
            ScanStage::SlotVendor => config_address_spec(slot_bus(slot), slot_device(slot), 0, 0x00),
            ScanStage::SlotHeader => config_address_spec(slot_bus(slot), slot_device(slot), 0, 0x0C),
            ScanStage::FuncVendor => config_address_spec(slot_bus(slot), slot_device(slot), self.function, 0x00),
            ScanStage::FuncClass => config_address_spec(slot_bus(slot), slot_device(slot), self.function, 0x08),
            ScanStage::Done => 0,
        }
    }

    /// What the scan will report when every read is answered from `cfg`.
    pub open spec fn outcome(&self, cfg: ConfigSpace) -> Option<PciDevice> {
        let slot = self.slot as int;
        let rest_of_slot = |f: int| func_find(cfg, slot, f, self.max_function as int, self.target);
        let or_next = |r: Option<PciDevice>| match r {
            Some(d) => Some(d),
            None => scan_from(cfg, slot + 1, self.target),
        };
        match self.stage {
            ScanStage::Done => self.found,
            ScanStage::SlotVendor => scan_from(cfg, slot, self.target),
            ScanStage::SlotHeader => or_next(func_find(cfg, slot, 0,
                functions_of(cfg_read(cfg, slot, 0, 0x0C)) as int, self.target)),
            ScanStage::FuncVendor => or_next(rest_of_slot(self.function as int)),
            ScanStage::FuncClass => or_next(
                if class_of(cfg_read(cfg, slot, self.function, 0x08)) == self.target {
                    Some(device_at(slot, self.function))
                } else {
                    rest_of_slot(self.function as int + 1)
                },
            ),
        }
    }

    /// Reads left at most, counted from this state.
    pub open spec fn measure(&self) -> int {
        let within = match self.stage {
            ScanStage::SlotVendor => 0,
            ScanStage::SlotHeader => 1,
            ScanStage::FuncVendor => 2 + 2 * self.function as int,
            ScanStage::FuncClass => 3 + 2 * self.function as int,
            ScanStage::Done => 0,
        };
        if self.stage == ScanStage::Done {
            0
        } else {
            (NUM_SLOTS - self.slot) * 32 - within
        }
    }

    /// The state after the pending read returned `v`.
    pub open spec fn fed(self, v: u32) -> PciScan {
        let next_slot = if self.slot + 1 >= NUM_SLOTS {
            PciScan { stage: ScanStage::Done, found: None, ..self }
        } else {
            PciScan { slot: (self.slot + 1) as u16, function: 0, max_function: 1, stage: ScanStage::SlotVendor, ..self }
        };
        let next_function = if self.function + 1 >= self.max_function {
            next_slot
        } else {
            PciScan { function: (self.function + 1) as u8, stage: ScanStage::FuncVendor, ..self }
        };
        match self.stage {
            ScanStage::SlotVendor => if vendor_of(v) == 0xFFFF {
                next_slot
            } else {
                PciScan { stage: ScanStage::SlotHeader, ..self }
            },
            ScanStage::SlotHeader => PciScan {
                function: 0,
                max_function: functions_of(v),
                stage: ScanStage::FuncVendor,
                ..self
            },
            ScanStage::FuncVendor => if vendor_of(v) == 0xFFFF {
                next_function
            } else {
                PciScan { stage: ScanStage::FuncClass, ..self }
            },
            ScanStage::FuncClass => if class_of(v) == self.target {
                PciScan {
                    stage: ScanStage::Done,
                    found: Some(device_at(self.slot as int, self.function)),
                    ..self
                }
            } else {
                next_function
            },
            ScanStage::Done => self,
        }
    }

    /// The register read the scan waits for next, or `None` once it is done.
    pub fn next_read(&self) -> (r: Option<u32>)
        requires
            self.wf(),
        ensures
            r == if self.stage == ScanStage::Done {
                None
            } else {
                Some(self.pending_address())
            },
    {
        let bus = (self.slot / 32) as u8;
        let device = (self.slot % 32) as u8;
        match self.stage {
            ScanStage::SlotVendor => Some(config_address(bus, device, 0, 0x00)),
            ScanStage::SlotHeader => Some(config_address(bus, device, 0, 0x0C)),
            ScanStage::FuncVendor => Some(config_address(bus, device, self.function, 0x00)),
            ScanStage::FuncClass => Some(config_address(bus, device, self.function, 0x08)),
            ScanStage::Done => None,
        }
    }

    /// Take the doubleword the pending read returned.
    pub fn feed(&mut self, v: u32)
        requires
            old(self).wf(),
        ensures
            *final(self) == old(self).fed(v),
            final(self).wf(),
    {
        let advance_slot = |s: &mut PciScan|
            requires
                old(s).wf(),
                old(s).stage != ScanStage::Done,
            ensures
                *final(s) == if old(s).slot + 1 >= NUM_SLOTS {
                    PciScan { stage: ScanStage::Done, found: None, ..*old(s) }
                } else {
                    PciScan { slot: (old(s).slot + 1) as u16, function: 0, max_function: 1, stage: ScanStage::SlotVendor, ..*old(s) }
                },
            {
                if s.slot + 1 >= NUM_SLOTS {
                    s.stage = ScanStage::Done;
                    s.found = None;
                } else {
                    s.slot = s.slot + 1;
                    s.function = 0;
                    s.max_function = 1;
                    s.stage = ScanStage::SlotVendor;
                }
            };
        match self.stage {
            ScanStage::SlotVendor => {
                if (v & 0xFFFF) as u16 == 0xFFFF {
                    advance_slot(self);
                } else {
                    self.stage = ScanStage::SlotHeader;
                }
            },
            ScanStage::SlotHeader => {
                self.function = 0;
                self.max_function = if Self::header_flags(v) & 0x80 != 0 { 8 } else { 1 };
                self.stage = ScanStage::FuncVendor;
            },
            ScanStage::FuncVendor => {
                if (v & 0xFFFF) as u16 == 0xFFFF {
                    if self.function + 1 >= self.max_function {
                        advance_slot(self);
                    } else {
                        self.function = self.function + 1;
                    }
                } else {
                    self.stage = ScanStage::FuncClass;
                }
            },
            ScanStage::FuncClass => {
                let (c, s, p) = PciDevice::class_triple(v);
                if c == self.target.0 && s == self.target.1 && p == self.target.2 {
                    self.stage = ScanStage::Done;
                    self.found = Some(
                        PciDevice {
                            bus: (self.slot / 32) as u8,
                            device: (self.slot % 32) as u8,
                            function: self.function,
                        },
                    );
                } else if self.function + 1 >= self.max_function {
                    advance_slot(self);
                } else {
                    self.function = self.function + 1;
                    self.stage = ScanStage::FuncVendor;
                }
            },
            ScanStage::Done => {},
        }
    }

    fn header_flags(v: u32) -> (r: u8)
        ensures
            r == ((v >> 16u32) & 0xFF) as u8,
    {
        PciDevice::header_type(v)
    }

    /// The device found, once the scan is done.
    pub fn result(&self) -> (r: Option<PciDevice>)
        ensures
            r == self.found,
    {
        self.found
    }
}

/// Start the brute-force scan for the first function (in bus, device,
/// function order) with class triple `(class, subclass, prog_if)`. Answering
/// each `next_read` from configuration space `cfg` until it returns `None`
/// leaves `find_device_spec(cfg, (class, subclass, prog_if))` in `result`
/// (see `scan_step_keeps_outcome`).
pub fn find_device(class: u8, subclass: u8, prog_if: u8) -> (scan: PciScan)
    ensures
        scan.wf(),
        scan.stage == ScanStage::SlotVendor,
        scan.slot == 0,
        scan.target == (class, subclass, prog_if),
        forall|cfg: ConfigSpace| #[trigger] scan.outcome(cfg) == find_device_spec(cfg, (class, subclass, prog_if)),
{
    PciScan {
        target: (class, subclass, prog_if),
        slot: 0,
        function: 0,
        max_function: 1,
        stage: ScanStage::SlotVendor,
        found: None,
    }
}

/// Answering the pending read of an unfinished scan from `cfg` keeps what
/// the scan will report, and leaves strictly fewer reads to go; so driving
/// the scan with reads of `cfg` ends, after at most `measure()` reads, with
/// `result() == find_device_spec(cfg, target)`.
pub proof fn scan_step_keeps_outcome(scan: PciScan, cfg: ConfigSpace)
    requires
        scan.wf(),
        scan.stage != ScanStage::Done,
    ensures
        scan.fed(cfg(scan.pending_address())).outcome(cfg) == scan.outcome(cfg),
        scan.fed(cfg(scan.pending_address())).wf(),
        0 <= scan.fed(cfg(scan.pending_address())).measure() < scan.measure(),
{
    let slot = scan.slot as int;
    let v = cfg(scan.pending_address());
    assert(slot_bus(slot) == (scan.slot / 32) as u8);
    match scan.stage {
        ScanStage::SlotVendor => {
            assert(v == cfg_read(cfg, slot, 0, 0x00));
        },
        ScanStage::SlotHeader => {
            assert(v == cfg_read(cfg, slot, 0, 0x0C));
        },
        ScanStage::FuncVendor => {
            assert(v == cfg_read(cfg, slot, scan.function, 0x00));
        },
        ScanStage::FuncClass => {
            assert(v == cfg_read(cfg, slot, scan.function, 0x08));
        },
        ScanStage::Done => {},
    }
}

/// Function `f` of slot `slot` is there (vendor id not all ones), is one of
/// the functions the slot has (function 0, or any of eight when function 0's
/// header type marks a multi-function device, function 0 being there), and
/// has class triple `target`.
pub open spec fn matches_at(cfg: ConfigSpace, slot: int, f: int, target: (u8, u8, u8)) -> bool {
    &&& 0 <= slot < NUM_SLOTS
    &&& 0 <= f < 8
    &&& vendor_of(cfg(config_address_spec(slot_bus(slot), slot_device(slot), 0, 0x00))) != 0xFFFF
    &&& f < functions_of(cfg(config_address_spec(slot_bus(slot), slot_device(slot), 0, 0x0C)))
    &&& vendor_of(cfg(config_address_spec(slot_bus(slot), slot_device(slot), f as u8, 0x00))) != 0xFFFF
    &&& class_of(cfg(config_address_spec(slot_bus(slot), slot_device(slot), f as u8, 0x08))) == target
}

proof fn lemma_func_find_complete(cfg: ConfigSpace, slot: int, f0: int, max: int, target: (u8, u8, u8), f: int)
    requires
        0 <= f0 <= f < max <= 8,
        matches_at(cfg, slot, f, target),
    ensures
        func_find(cfg, slot, f0, max, target) is Some,
    decreases max - f0,
{
    if f0 < f {
        if vendor_of(cfg_read(cfg, slot, f0 as u8, 0x00)) != 0xFFFF && class_of(cfg_read(cfg, slot, f0 as u8, 0x08))
            == target {
        } else {
            lemma_func_find_complete(cfg, slot, f0 + 1, max, target, f);
        }
    }
}

proof fn lemma_func_find_sound(cfg: ConfigSpace, slot: int, f0: int, max: int, target: (u8, u8, u8))
    requires
        0 <= f0,
        max <= 8,
        max <= functions_of(cfg_read(cfg, slot, 0, 0x0C)),
        0 <= slot < NUM_SLOTS,
        vendor_of(cfg_read(cfg, slot, 0, 0x00)) != 0xFFFF,
    ensures
        func_find(cfg, slot, f0, max, target) matches Some(d) ==> exists|f: int| f0 <= f < max && d == device_at(slot, f as u8)
            && #[trigger] matches_at(cfg, slot, f, target),
    decreases max - f0,
{
    if f0 < max {
        lemma_func_find_sound(cfg, slot, f0 + 1, max, target);
        if vendor_of(cfg_read(cfg, slot, f0 as u8, 0x00)) != 0xFFFF && class_of(cfg_read(cfg, slot, f0 as u8, 0x08))
            == target {
            assert(matches_at(cfg, slot, f0, target));
        }
    }
}

proof fn lemma_scan_complete(cfg: ConfigSpace, slot0: int, target: (u8, u8, u8), slot: int, f: int)
    requires
        0 <= slot0 <= slot,
        matches_at(cfg, slot, f, target),
    ensures
        scan_from(cfg, slot0, target) is Some,
    decreases NUM_SLOTS - slot0,
{
    if slot0 == slot {
        lemma_func_find_complete(cfg, slot, 0, functions_of(cfg_read(cfg, slot, 0, 0x0C)) as int, target, f);
    } else if slot_find(cfg, slot0, target) is None {
        lemma_scan_complete(cfg, slot0 + 1, target, slot, f);
    }
}

proof fn lemma_scan_sound(cfg: ConfigSpace, slot0: int, target: (u8, u8, u8))
    requires
        0 <= slot0,
    ensures
        scan_from(cfg, slot0, target) matches Some(d) ==> exists|slot: int, f: int| slot0 <= slot && d == device_at(slot, f as u8)
            && #[trigger] matches_at(cfg, slot, f, target),
    decreases NUM_SLOTS - slot0,
{
    if slot0 < NUM_SLOTS {
        lemma_scan_sound(cfg, slot0 + 1, target);
        if vendor_of(cfg_read(cfg, slot0, 0, 0x00)) != 0xFFFF {
            let max = functions_of(cfg_read(cfg, slot0, 0, 0x0C)) as int;
            lemma_func_find_sound(cfg, slot0, 0, max, target);
        }
    }
}

/// The scan finds a device exactly when configuration space holds one: a
/// function that is there, belongs to a slot whose function 0 is there (any
/// of eight functions of a multi-function device, function 0 otherwise), and
/// has the class triple asked for, whatever absent functions come before it
/// in its slot. What it reports is such a function.
pub proof fn scan_finds_every_present_match(cfg: ConfigSpace, target: (u8, u8, u8))
    ensures
        (find_device_spec(cfg, target) is Some) == (exists|slot: int, f: int| #[trigger] matches_at(cfg, slot, f, target)),
        find_device_spec(cfg, target) matches Some(d) ==> exists|slot: int, f: int| d == device_at(slot, f as u8)
            && #[trigger] matches_at(cfg, slot, f, target),
{
    lemma_scan_sound(cfg, 0, target);
    if exists|slot: int, f: int| #[trigger] matches_at(cfg, slot, f, target) {
        let (slot, f) = choose|slot: int, f: int| #[trigger] matches_at(cfg, slot, f, target);
        lemma_scan_complete(cfg, 0, target, slot, f);
    }
}

} // verus!

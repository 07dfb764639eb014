//! GDT with flat 64-bit segments (null, kernel code, kernel data, user data,
//! user code) plus a TSS descriptor for the ring-0 stack on interrupts.
use vstd::prelude::*;

verus! {

/// One 8-byte segment descriptor, field by field.
#[derive(Clone, Copy, Debug, PartialEq, Eq, Structural)]
pub struct GdtEntry {
    pub limit_low: u16,
    pub base_low: u16,
    pub base_mid: u8,
    pub access: u8,
    /// flags[7:4] + limit[19:16]
    pub gran: u8,
    pub base_high: u8,
}

impl GdtEntry {
    pub fn null() -> (e: GdtEntry)
        ensures
            e == (GdtEntry { limit_low: 0, base_low: 0, base_mid: 0, access: 0, gran: 0, base_high: 0 }),
    {
        GdtEntry { limit_low: 0, base_low: 0, base_mid: 0, access: 0, gran: 0, base_high: 0 }
    }

    /// A descriptor for `base`/`limit` (20 significant bits) with the given
    /// access byte and granularity flags (high nibble of `gran`).
    pub fn new(base: u32, limit: u32, access: u8, gran: u8) -> (e: GdtEntry)
        ensures
            e.limit_low == (limit & 0xFFFF) as u16,
            e.base_low == (base & 0xFFFF) as u16,
            e.base_mid == ((base >> 16u32) & 0xFF) as u8,
            e.access == access,
            e.gran == (gran & 0xF0) | (((limit >> 16u32) & 0x0F) as u8),
            e.base_high == ((base >> 24u32) & 0xFF) as u8,
    {
        GdtEntry {
            limit_low: (limit & 0xFFFF) as u16,
            base_low: (base & 0xFFFF) as u16,
            base_mid: ((base >> 16) & 0xFF) as u8,
            access,
            gran: (gran & 0xF0) | (((limit >> 16) & 0x0F) as u8),
            base_high: ((base >> 24) & 0xFF) as u8,
        }
    }

    pub open spec fn raw_spec(&self) -> u64 {
        (self.limit_low as u64) | ((self.base_low as u64) << 16u64) | ((self.base_mid as u64) << 32u64)
            | ((self.access as u64) << 40u64) | ((self.gran as u64) << 48u64) | ((self.base_high as u64) << 56u64)
    }

    /// The descriptor as the 64-bit word the CPU reads from the table.
    pub fn raw(&self) -> (r: u64)
        ensures
            r == self.raw_spec(),
    {
        (self.limit_low as u64) | ((self.base_low as u64) << 16) | ((self.base_mid as u64) << 32)
            | ((self.access as u64) << 40) | ((self.gran as u64) << 48) | ((self.base_high as u64) << 56)
    }
}

/// A descriptor built by `GdtEntry::new` keeps the whole 32-bit base and
/// the low 20 bits of the limit, and its access byte, in their places in the
/// 64-bit word.
pub proof fn gdt_entry_round_trip(base: u32, limit: u32, access: u8, gran: u8, e: GdtEntry)
    requires
        e.limit_low == (limit & 0xFFFF) as u16,
        e.base_low == (base & 0xFFFF) as u16,
        e.base_mid == ((base >> 16u32) & 0xFF) as u8,
        e.access == access,
        e.gran == (gran & 0xF0) | (((limit >> 16u32) & 0x0F) as u8),
        e.base_high == ((base >> 24u32) & 0xFF) as u8,
    ensures
        ({
            let r = e.raw_spec();
            &&& ((r >> 16u64) & 0xFF_FFFF) | (((r >> 56u64) & 0xFF) << 24u64) == base as u64
            &&& (r & 0xFFFF) | (((r >> 48u64) & 0xF) << 16u64) == (limit as u64) & 0xF_FFFF
            &&& (r >> 40u64) & 0xFF == access as u64
            &&& (r >> 52u64) & 0xF == ((gran >> 4u8) as u64)
        }),
{
    let ell = e.limit_low;
    let ebl = e.base_low;
    let ebm = e.base_mid;
    let ebh = e.base_high;
    let egr = e.gran;
    let ll = ell as u64;
    let bl = ebl as u64;
    let bm = ebm as u64;
    let ac = e.access as u64;
    let gr = egr as u64;
    let bh = ebh as u64;
    let b = base as u64;
    let l = limit as u64;
    let g = gran as u64;
    assert(ll == l & 0xFFFF && bl == b & 0xFFFF && bm == (b >> 16u64) & 0xFF && bh == (b >> 24u64) & 0xFF
        && gr == (g & 0xF0) | ((l >> 16u64) & 0x0F) && (gran >> 4u8) as u64 == g >> 4u64) by (bit_vector)
        requires
            ell == (limit & 0xFFFF) as u16,
            ebl == (base & 0xFFFF) as u16,
            ebm == ((base >> 16u32) & 0xFF) as u8,
            ebh == ((base >> 24u32) & 0xFF) as u8,
            egr == (gran & 0xF0) | (((limit >> 16u32) & 0x0F) as u8),
            ll == ell as u64,
            bl == ebl as u64,
            bm == ebm as u64,
            bh == ebh as u64,
            gr == egr as u64,
            b == base as u64,
            l == limit as u64,
            g == gran as u64,
    ;
    assert({
        let r = ll | (bl << 16u64) | (bm << 32u64) | (ac << 40u64) | (gr << 48u64) | (bh << 56u64);
        &&& ((r >> 16u64) & 0xFF_FFFF) | (((r >> 56u64) & 0xFF) << 24u64) == b
        &&& (r & 0xFFFF) | (((r >> 48u64) & 0xF) << 16u64) == l & 0xF_FFFF
        &&& (r >> 40u64) & 0xFF == ac
        &&& (r >> 52u64) & 0xF == g >> 4u64
    }) by (bit_vector)
        requires
            b < 0x1_0000_0000,
            l < 0x1_0000_0000,
            g < 256,
            ac < 256,
            ll == l & 0xFFFF,
            bl == b & 0xFFFF,
            bm == (b >> 16u64) & 0xFF,
            bh == (b >> 24u64) & 0xFF,
            gr == (g & 0xF0) | ((l >> 16u64) & 0x0F),
    ;
}

/// The five flat segments, in selector order: null (0x00), kernel code
/// (0x08), kernel data (0x10), user data (0x18), user code (0x20). User data
/// sits below user code so that SYSRETQ, with IA32_STAR[63:48] = 0x10, loads
/// SS = 0x18|3 and CS = 0x20|3.
pub fn flat_segments() -> (t: Vec<GdtEntry>)
    ensures
        t@.len() == 5,
        t@[0] == (GdtEntry { limit_low: 0, base_low: 0, base_mid: 0, access: 0, gran: 0, base_high: 0 }),
        t@[1].access == 0x9A && t@[1].gran == 0xAF,
        t@[2].access == 0x92 && t@[2].gran == 0xCF,
        t@[3].access == 0xF2 && t@[3].gran == 0xCF,
        t@[4].access == 0xFA && t@[4].gran == 0xAF,
        forall|i: int| 1 <= i < 5 ==> #[trigger] t@[i].limit_low == 0xFFFF && t@[i].base_low == 0
            && t@[i].base_mid == 0 && t@[i].base_high == 0,
{
    let mut t: Vec<GdtEntry> = Vec::new();
    t.push(GdtEntry::null());
    t.push(GdtEntry::new(0, 0xFFFFF, 0x9A, 0xA0));
    t.push(GdtEntry::new(0, 0xFFFFF, 0x92, 0xC0));
    t.push(GdtEntry::new(0, 0xFFFFF, 0xF2, 0xC0));
    t.push(GdtEntry::new(0, 0xFFFFF, 0xFA, 0xA0));
    assert(((0xFFFFFu32 >> 16u32) & 0x0F) as u8 == 0x0F && (0xA0u8 & 0xF0) | 0x0Fu8 == 0xAF && (0xC0u8 & 0xF0)
        | 0x0Fu8 == 0xCF && (0xFFFFFu32 & 0xFFFF) as u16 == 0xFFFF && (0u32 & 0xFFFF) as u16 == 0 && ((0u32
        >> 16u32) & 0xFF) as u8 == 0 && ((0u32 >> 24u32) & 0xFF) as u8 == 0) by (bit_vector);
    t
}

pub const KERNEL_CODE_SEL: u16 = 0x08;
pub const KERNEL_DATA_SEL: u16 = 0x10;
/// GDT[4], user code, at byte offset 0x20, RPL 3.
pub const USER_CODE_SEL: u16 = 0x20 | 3;
/// GDT[3], user data, at byte offset 0x18, RPL 3.
pub const USER_DATA_SEL: u16 = 0x18 | 3;
/// TSS selector: GDT index 5, TI=0, RPL=0.
pub const TSS_SEL: u16 = 0x28;

/// IA32_STAR: SYSCALL loads CS from bits 47:32, SYSRETQ derives SS and CS
/// from bits 63:48.
pub const STAR: u64 = (0x0010u64 << 48) | (0x0008u64 << 32);

/// SYSCALL enters on the kernel code selector, and SYSRETQ returns on the
/// user data (SS = base + 8) and user code (CS = base + 16) selectors of this
/// GDT, both at RPL 3.
pub proof fn star_matches_gdt_layout()
    ensures
        (STAR >> 32u64) & 0xFFFF == KERNEL_CODE_SEL as u64,
        ((((STAR >> 48u64) + 8) as u64) | 3) == USER_DATA_SEL as u64,
        ((((STAR >> 48u64) + 16) as u64) | 3) == USER_CODE_SEL as u64,
{
    assert((STAR >> 32u64) & 0xFFFF == 8 && STAR >> 48u64 == 0x10 && (0x18u64 | 3) == 0x1B && (0x20u64 | 3)
        == 0x23 && USER_DATA_SEL == 0x1B && USER_CODE_SEL == 0x23) by (bit_vector);
}

/// The two words of the 16-byte 64-bit TSS descriptor for a TSS at `base`
/// with limit `limit` (present, type 9: available 64-bit TSS).
pub open spec fn tss_descriptor_spec(base: u64, limit: u64) -> (u64, u64) {
    (((base & 0xFF_FFFF) << 16u64) | (limit & 0xFFFF) | (0x89u64 << 40u64) | (((base >> 24u64) & 0xFF)
        << 56u64) | ((limit >> 16u64) << 48u64), (base >> 32u64) & 0xFF_FFFF_FFFF)
}

pub fn tss_descriptor(base: u64, limit: u64) -> (d: (u64, u64))
    ensures
        d == tss_descriptor_spec(base, limit),
{
    let lo: u64 = ((base & 0xFF_FFFF) << 16) | (limit & 0xFFFF) | (0x89u64 << 40) | (((base >> 24)
        & 0xFF) << 56) | ((limit >> 16) << 48);
    let hi: u64 = (base >> 32) & 0xFF_FFFF_FFFF;
    (lo, hi)
}

/// For a 16-bit limit and an address below 2^64 the TSS descriptor carries
/// the whole base address and the limit, and is marked present.
pub proof fn tss_descriptor_fields(base: u64, limit: u64)
    requires
        limit <= 0xFFFF,
    ensures
        ({
            let (lo, hi) = tss_descriptor_spec(base, limit);
            &&& ((lo >> 16u64) & 0xFF_FFFF) | (((lo >> 56u64) & 0xFF) << 24u64) | (hi << 32u64) == base
            &&& lo & 0xFFFF == limit
            &&& (lo >> 40u64) & 0xFF == 0x89
        }),
{
    assert({
        let lo = ((base & 0xFF_FFFF) << 16u64) | (limit & 0xFFFF) | (0x89u64 << 40u64) | (((base >> 24u64)
            & 0xFF) << 56u64) | ((limit >> 16u64) << 48u64);
        let hi = (base >> 32u64) & 0xFF_FFFF_FFFF;
        &&& ((lo >> 16u64) & 0xFF_FFFF) | (((lo >> 56u64) & 0xFF) << 24u64) | (hi << 32u64) == base
        &&& lo & 0xFFFF == limit
        &&& (lo >> 40u64) & 0xFF == 0x89
    }) by (bit_vector)
        requires
            limit <= 0xFFFF,
    ;
}

/// The 64-bit Task State Segment; only `rsp0`, the stack the CPU switches to
/// on entry to ring 0, is ever changed after boot.
#[derive(Clone, Copy, Debug)]
pub struct Tss {
    pub rsp0: u64,
    pub rsp1: u64,
    pub rsp2: u64,
    pub ist: [u64; 7],
    pub iomap_base: u16,
}

/// Size in bytes of the hardware TSS layout.
pub const TSS_SIZE: u16 = 104;

impl Tss {
    /// A zeroed TSS whose I/O permission map starts past its end (no map).
    pub fn new() -> (t: Tss)
        ensures
            t.rsp0 == 0 && t.rsp1 == 0 && t.rsp2 == 0,
            t.ist@ == seq![0u64, 0, 0, 0, 0, 0, 0],
            t.iomap_base == TSS_SIZE,
    {
        let t = Tss { rsp0: 0, rsp1: 0, rsp2: 0, ist: [0u64; 7], iomap_base: TSS_SIZE };
        assert(t.ist@ =~= seq![0u64, 0, 0, 0, 0, 0, 0]);
        t
    }

    /// Point ring-0 entry at `sp` (the top of the current task's kernel
    /// stack); everything else stays.
    pub fn set_rsp0(&mut self, sp: u64)
        ensures
            *final(self) == (Tss { rsp0: sp, ..*old(self) }),
    {
        self.rsp0 = sp;
    }
}

/// A flat 4 GiB descriptor (base 0, limit 0xFFFFF) with the given access
/// byte and flag nibble already merged with limit bits 19:16.
pub open spec fn flat_entry(access: u8, gran: u8) -> GdtEntry {
    GdtEntry { limit_low: 0xFFFF, base_low: 0, base_mid: 0, access, gran, base_high: 0 }
}

/// The loaded table: the null descriptor and the four flat segments, then the 16-byte TSS descriptor
/// in slots 5 and 6 for a TSS at `tss_base`.
pub open spec fn full_gdt(tss_base: u64) -> Seq<u64> {
    seq![
        (GdtEntry { limit_low: 0, base_low: 0, base_mid: 0, access: 0, gran: 0, base_high: 0 }).raw_spec(),
        flat_entry(0x9A, 0xAF).raw_spec(),
        flat_entry(0x92, 0xCF).raw_spec(),
        flat_entry(0xF2, 0xCF).raw_spec(),
        flat_entry(0xFA, 0xAF).raw_spec(),
        tss_descriptor_spec(tss_base, (TSS_SIZE - 1) as u64).0,
        tss_descriptor_spec(tss_base, (TSS_SIZE - 1) as u64).1,
    ]
}

/// The limit field of the GDTR for the seven-slot table (bytes minus one).
pub const FULL_GDT_LIMIT: u16 = 55;

/// GDT bring-up: point `tss.rsp0` at the top of the boot interrupt stack and
/// build the seven words to load with `lgdt` (the TSS itself lives at
/// `tss_base`); the caller then reloads the segment registers and loads the
/// task register with `TSS_SEL`.
pub fn init(tss: &mut Tss, tss_base: u64, boot_stack_top: u64) -> (gdt: Vec<u64>)
    ensures
        *final(tss) == (Tss { rsp0: boot_stack_top, ..*old(tss) }),
        gdt@ == full_gdt(tss_base),
{
    tss.set_rsp0(boot_stack_top);
    let segs = flat_segments();
    let mut gdt: Vec<u64> = Vec::new();
    let mut i: usize = 0;
    while i < 5
        invariant
            0 <= i <= 5,
            segs@.len() == 5,
            gdt@.len() == i,
            forall|j: int| 0 <= j < i ==> #[trigger] gdt@[j] == segs@[j].raw_spec(),
        decreases 5 - i,
    {
        let r = segs[i].raw();
        gdt.push(r);
        i = i + 1;
    }
    let (lo, hi) = tss_descriptor(tss_base, (TSS_SIZE - 1) as u64);
    gdt.push(lo);
    gdt.push(hi);
    proof {
        assert(segs@[1].limit_low == 0xFFFF && segs@[2].limit_low == 0xFFFF && segs@[3].limit_low == 0xFFFF
            && segs@[4].limit_low == 0xFFFF);
        assert(segs@[1] == flat_entry(0x9A, 0xAF));
        assert(segs@[2] == flat_entry(0x92, 0xCF));
        assert(segs@[3] == flat_entry(0xF2, 0xCF));
        assert(segs@[4] == flat_entry(0xFA, 0xAF));
        assert(gdt@ =~= full_gdt(tss_base));
    }
    gdt
}

} // verus!

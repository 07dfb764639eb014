//! aarch64 identity map (39-bit VA, 4 KiB granule): one L1 table whose
//! entries each point at an L2 table of 2 MiB block descriptors. Blocks in
//! the board's MMIO ranges are Device memory, the rest Normal cacheable.
use vstd::prelude::*;
use crate::memory::phys::{PhysMem, frame_ok, ent, lemma_write_reads};

verus! {

/// MAIR index 0: Device-nGnRnE.
pub const ATTR_DEVICE: u64 = 0;
/// MAIR index 1: Normal, write-back.
pub const ATTR_NORMAL: u64 = 1;
/// MAIR index 2: Normal, non-cacheable.
pub const ATTR_NORMAL_NC: u64 = 2;
/// Access flag.
pub const BLOCK_AF: u64 = 0x400;
/// Inner shareable.
pub const BLOCK_SH_INNER: u64 = 0x300;
/// Level-2 block descriptor.
pub const BLOCK_VALID: u64 = 0x1;
/// Level-1 table descriptor.
pub const TABLE_VALID: u64 = 0x3;
/// MAIR_EL1: idx2 Normal NC, idx1 Normal WB, idx0 Device-nGnRnE.
pub const MAIR: u64 = 0x44_FF00;
/// TCR_EL1: T0SZ=25, WBWA inner/outer, inner shareable, 4 KiB granule,
/// TTBR1 walks disabled, 32-bit PA.
pub const TCR: u64 = 0x80_3519;
/// SCTLR_EL1 bits set when enabling: MMU, data cache, instruction cache.
pub const SCTLR_ENABLE: u64 = 0x1005;

/// `addr` lies in one of the `(base, size)` MMIO ranges.
pub open spec fn in_ranges(ranges: Seq<(u64, u64)>, addr: u64) -> bool {
    exists|i: int| 0 <= i < ranges.len() && (#[trigger] ranges[i]).0 <= addr < ranges[i].0 + ranges[i].1
}

pub open spec fn ranges_ok(ranges: Seq<(u64, u64)>) -> bool {
    forall|i: int| 0 <= i < ranges.len() ==> #[trigger] ranges[i].0 + ranges[i].1 <= u64::MAX
}

pub fn is_device(ranges: &[(u64, u64)], addr: u64) -> (r: bool)
    requires
        ranges_ok(ranges@),
    ensures
        r == in_ranges(ranges@, addr),
{
    let mut i: usize = 0;
    while i < ranges.len()
        invariant
            ranges_ok(ranges@),
            i <= ranges@.len(),
            forall|k: int| 0 <= k < i ==> !((#[trigger] ranges@[k]).0 <= addr < ranges@[k].0 + ranges@[k].1),
        decreases ranges@.len() - i,
    {
        let (base, size) = ranges[i];
        proof {
            assert(ranges@[i as int].0 + ranges@[i as int].1 <= u64::MAX);
        }
        if addr >= base && addr < base + size {
            return true;
        }
        i = i + 1;
    }
    false
}

/// Block descriptor identity-mapping the 2 MiB block at `addr` with MAIR
/// index `attr`.
pub open spec fn block(addr: u64, attr: u64) -> u64 {
    addr | BLOCK_AF | BLOCK_SH_INNER | (attr << 2u64) | BLOCK_VALID
}

pub open spec fn kernel_block(ranges: Seq<(u64, u64)>, addr: u64) -> u64 {
    block(addr, if in_ranges(ranges, addr) { ATTR_DEVICE } else { ATTR_NORMAL })
}

pub fn l2_block_entry(ranges: &[(u64, u64)], addr: u64) -> (e: u64)
    requires
        ranges_ok(ranges@),
    ensures
        e == kernel_block(ranges@, addr),
{
    let attr_idx = if is_device(ranges, addr) { ATTR_DEVICE } else { ATTR_NORMAL };
    addr | BLOCK_AF | BLOCK_SH_INNER | (attr_idx << 2u64) | BLOCK_VALID
}

/// The frames of the identity map: the L1 table and one L2 table per GiB.
pub open spec fn tables_ok(n: nat, l1: u64, l2s: Seq<u64>) -> bool {
    &&& frame_ok(n, l1)
    &&& l2s.len() <= 512
    &&& forall|g: int| 0 <= g < l2s.len() ==> frame_ok(n, #[trigger] l2s[g]) && l2s[g] != l1
    &&& forall|g: int, h: int| 0 <= g < l2s.len() && 0 <= h < l2s.len() && g != h ==> #[trigger] l2s[g]
        != #[trigger] l2s[h]
}

/// Address of block `x` of GiB `g`.
pub open spec fn block_addr(g: int, x: int) -> u64 {
    ((g as u64) << 30u64) | ((x as u64) << 21u64)
}

/// Build the identity map of the first `l2s.len()` GiB: every block
/// descriptor per `kernel_block`, every L1 entry a table descriptor.
pub fn init(mem: &mut PhysMem, l1: u64, l2s: &[u64], ranges: &[(u64, u64)])
    requires
        tables_ok(old(mem)@.len(), l1, l2s@),
        ranges_ok(ranges@),
    ensures
        final(mem)@.len() == old(mem)@.len(),
        forall|g: int, x: int| 0 <= g < l2s@.len() && 0 <= x < 512 ==> #[trigger] ent(final(mem)@, l2s@[g], x)
            == kernel_block(ranges@, block_addr(g, x)),
        forall|g: int| 0 <= g < l2s@.len() ==> #[trigger] ent(final(mem)@, l1, g) == l2s@[g] | TABLE_VALID,
{
    let n = l2s.len();
    let mut g: usize = 0;
    while g < n
        invariant
            n == l2s@.len(),
            tables_ok(old(mem)@.len(), l1, l2s@),
            ranges_ok(ranges@),
            g <= n,
            mem@.len() == old(mem)@.len(),
            forall|h: int, x: int| 0 <= h < g && 0 <= x < 512 ==> #[trigger] ent(mem@, l2s@[h], x) == kernel_block(
                ranges@,
                block_addr(h, x),
            ),
            forall|h: int| 0 <= h < g ==> #[trigger] ent(mem@, l1, h) == l2s@[h] | TABLE_VALID,
        decreases n - g,
    {
        let l2 = l2s[g];
        let mut x: usize = 0;
        while x < 512
            invariant
                n == l2s@.len(),
                tables_ok(old(mem)@.len(), l1, l2s@),
                ranges_ok(ranges@),
                g < n,
                l2 == l2s@[g as int],
                x <= 512,
                mem@.len() == old(mem)@.len(),
                forall|h: int, y: int| 0 <= h < g && 0 <= y < 512 ==> #[trigger] ent(mem@, l2s@[h], y) == kernel_block(
                    ranges@,
                    block_addr(h, y),
                ),
                forall|h: int| 0 <= h < g ==> #[trigger] ent(mem@, l1, h) == l2s@[h] | TABLE_VALID,
                forall|y: int| 0 <= y < x ==> #[trigger] ent(mem@, l2, y) == kernel_block(ranges@, block_addr(g as int, y)),
            decreases 512 - x,
        {
            let addr: u64 = ((g as u64) << 30u64) | ((x as u64) << 21u64);
            let e = l2_block_entry(ranges, addr);
            let ghost before = mem@;
            mem.write_entry(l2, x as u64, e);
            proof {
                assert forall|h: int, y: int| 0 <= h < g && 0 <= y < 512 implies #[trigger] ent(mem@, l2s@[h], y)
                    == kernel_block(ranges@, block_addr(h, y)) by {
                    lemma_write_reads(before, l2, x as int, e, l2s@[h], y);
                }
                assert forall|h: int| 0 <= h < g implies #[trigger] ent(mem@, l1, h) == l2s@[h] | TABLE_VALID by {
                    lemma_write_reads(before, l2, x as int, e, l1, h);
                }
                assert forall|y: int| 0 <= y < x + 1 implies #[trigger] ent(mem@, l2, y) == kernel_block(
                    ranges@,
                    block_addr(g as int, y),
                ) by {
                    lemma_write_reads(before, l2, x as int, e, l2, y);
                }
            }
            x = x + 1;
        }
        let ghost before = mem@;
        mem.write_entry(l1, g as u64, l2 | TABLE_VALID);
        proof {
            assert forall|h: int, y: int| 0 <= h <= g && 0 <= y < 512 implies #[trigger] ent(mem@, l2s@[h], y)
                == kernel_block(ranges@, block_addr(h, y)) by {
                lemma_write_reads(before, l1, g as int, l2 | TABLE_VALID, l2s@[h], y);
            }
            assert forall|h: int| 0 <= h <= g implies #[trigger] ent(mem@, l1, h) == l2s@[h] | TABLE_VALID by {
                lemma_write_reads(before, l1, g as int, l2 | TABLE_VALID, l1, h);
            }
        }
        g = g + 1;
    }
}

/// `SCTLR_EL1` with the MMU and both caches switched on.
pub fn sctlr_enabled(sctlr: u64) -> (r: u64)
    ensures
        r == sctlr | SCTLR_ENABLE,
{
    sctlr | SCTLR_ENABLE
}

proof fn lemma_block_addr(g: u64, x: u64)
    requires
        g < 512,
        x < 512,
    ensures
        ((g << 30u64) | (x << 21u64)) >> 30u64 == g,
        (((g << 30u64) | (x << 21u64)) >> 21u64) & 511 == x,
        ((g << 30u64) | (x << 21u64)) & 0x1F_FFFF == 0,
{
    assert(((g << 30u64) | (x << 21u64)) >> 30u64 == g && (((g << 30u64) | (x << 21u64)) >> 21u64) & 511 == x
        && ((g << 30u64) | (x << 21u64)) & 0x1F_FFFF == 0) by (bit_vector)
        requires
            g < 512,
            x < 512,
    ;
}

proof fn lemma_addr_block(a: u64)
    requires
        a & 0x1F_FFFF == 0,
        a >> 30u64 < 512,
    ensures
        ((a >> 30u64) << 30u64) | (((a >> 21u64) & 511) << 21u64) == a,
        a + 0x20_0000 <= u64::MAX ==> ((a + 0x20_0000) as u64) & 0x1F_FFFF == 0,
{
    assert(((a >> 30u64) << 30u64) | (((a >> 21u64) & 511) << 21u64) == a && (a + 0x20_0000 <= u64::MAX ==> ((a
        + 0x20_0000) as u64) & 0x1F_FFFF == 0)) by (bit_vector)
        requires
            a & 0x1F_FFFF == 0,
            a >> 30u64 < 512,
    ;
}

/// L2 tables in distinct frames inside memory of `n` words.
pub open spec fn l2s_ok(n: nat, l2s: Seq<u64>) -> bool {
    &&& l2s.len() <= 512
    &&& forall|g: int| 0 <= g < l2s.len() ==> frame_ok(n, #[trigger] l2s[g])
    &&& forall|g: int, h: int| 0 <= g < l2s.len() && 0 <= h < l2s.len() && g != h ==> #[trigger] l2s[g]
        != #[trigger] l2s[h]
}

/// First and one-past-last 2 MiB block boundary covering `[phys, phys+size)`.
pub open spec fn span_start(phys: u64) -> u64 {
    phys & !0x1F_FFFFu64
}

pub open spec fn span_end(phys: u64, size: u64) -> u64 {
    ((phys + size + 0x1F_FFFF) as u64) & !0x1F_FFFFu64
}

/// Remap the blocks covering `[phys, phys + size)` as Normal non-cacheable,
/// stopping at the end of the mapped range (`l2s.len()` GiB). Returns the
/// number of blocks rewritten: they are the `count` blocks from the first
/// one covered on; the caller then flushes the TLB.
pub fn map_uncached(mem: &mut PhysMem, l2s: &[u64], phys: u64, size: u64) -> (count: u64)
    requires
        l2s_ok(old(mem)@.len(), l2s@),
        phys + size + 0x1F_FFFF <= u64::MAX,
    ensures
        final(mem)@.len() == old(mem)@.len(),
        span_start(phys) + count * 0x20_0000 <= span_end(phys, size),
        span_start(phys) + count * 0x20_0000 == span_end(phys, size) || (span_start(phys) + count * 0x20_0000)
            >= l2s@.len() * 0x4000_0000,
        forall|g: int, x: int| 0 <= g < l2s@.len() && 0 <= x < 512 ==> #[trigger] ent(final(mem)@, l2s@[g], x)
            == if span_start(phys) <= block_addr(g, x) < span_start(phys) + count * 0x20_0000 {
            block(block_addr(g, x), ATTR_NORMAL_NC)
        } else {
            ent(old(mem)@, l2s@[g], x)
        },
{
    let start = phys & !0x1F_FFFFu64;
    let end = (phys + size + 0x1F_FFFF) & !0x1F_FFFFu64;
    let n = l2s.len() as u64;
    let mut addr = start;
    let mut count: u64 = 0;
    assert(start & 0x1F_FFFF == 0 && end & 0x1F_FFFF == 0 && start <= end) by (bit_vector)
        requires
            start == phys & !0x1F_FFFFu64,
            end == ((phys + size + 0x1F_FFFF) as u64) & !0x1F_FFFFu64,
            phys + size + 0x1F_FFFF <= u64::MAX,
    ;
    while addr < end
        invariant
            l2s_ok(old(mem)@.len(), l2s@),
            n == l2s@.len(),
            start == span_start(phys),
            end == span_end(phys, size),
            addr == start + count * 0x20_0000,
            addr <= end,
            addr & 0x1F_FFFF == 0,
            end & 0x1F_FFFF == 0,
            mem@.len() == old(mem)@.len(),
            forall|g: int, x: int| 0 <= g < l2s@.len() && 0 <= x < 512 ==> #[trigger] ent(mem@, l2s@[g], x) == if start
                <= block_addr(g, x) < addr {
                block(block_addr(g, x), ATTR_NORMAL_NC)
            } else {
                ent(old(mem)@, l2s@[g], x)
            },
        ensures
            addr == start + count * 0x20_0000,
            addr <= end,
            addr == end || addr >= n * 0x4000_0000,
            mem@.len() == old(mem)@.len(),
            forall|g: int, x: int| 0 <= g < l2s@.len() && 0 <= x < 512 ==> #[trigger] ent(mem@, l2s@[g], x) == if start
                <= block_addr(g, x) < addr {
                block(block_addr(g, x), ATTR_NORMAL_NC)
            } else {
                ent(old(mem)@, l2s@[g], x)
            },
        decreases end - addr,
    {
        let l1 = addr >> 30u64;
        if l1 >= n {
            assert(addr >= n * 0x4000_0000) by (bit_vector)
                requires
                    l1 == addr >> 30u64,
                    l1 >= n,
            ;
            break;
        }
        let l2i = (addr >> 21u64) & 0x1FF;
        let l2 = l2s[l1 as usize];
        let e = addr | BLOCK_AF | BLOCK_SH_INNER | (ATTR_NORMAL_NC << 2u64) | BLOCK_VALID;
        let ghost before = mem@;
        proof {
            lemma_addr_block(addr);
            assert(l2i < 512) by (bit_vector)
                requires
                    l2i == (addr >> 21u64) & 0x1FF,
            ;
        }
        mem.write_entry(l2, l2i, e);
        proof {
            assert forall|g: int, x: int| 0 <= g < l2s@.len() && 0 <= x < 512 implies #[trigger] ent(mem@, l2s@[g], x)
                == if start <= block_addr(g, x) < addr + 0x20_0000 {
                block(block_addr(g, x), ATTR_NORMAL_NC)
            } else {
                ent(old(mem)@, l2s@[g], x)
            } by {
                let gg = g as u64;
                let xx = x as u64;
                lemma_block_addr(gg, xx);
                let a = block_addr(g, x);
                assert(a == (gg << 30u64) | (xx << 21u64));
                lemma_write_reads(before, l2, l2i as int, e, l2s@[g], x);
                if gg == l1 && xx == l2i {
                    assert(a == addr);
                } else {
                    assert(a >> 30u64 == gg && (a >> 21u64) & 511 == xx);
                    assert(a != addr);
                    if l2s@[g] == l2 {
                        assert(g == l1);
                    }
                    assert(!(addr <= a < addr + 0x20_0000)) by (bit_vector)
                        requires
                            a & 0x1F_FFFF == 0,
                            addr & 0x1F_FFFF == 0,
                            a != addr,
                    ;
                }
            }
            assert(addr + 0x20_0000 <= end) by (bit_vector)
                requires
                    addr < end,
                    addr & 0x1F_FFFF == 0,
                    end & 0x1F_FFFF == 0,
            ;
        }
        addr = addr + 0x20_0000;
        count = count + 1;
    }
    count
}

/// Root of the kernel's translation table.
pub fn kernel_page_table_phys(l1: u64) -> (r: u64)
    ensures
        r == l1,
{
    l1
}

/// The identity map has no 4 KiB pages to unmap: guard pages stay
/// canary-only on this architecture.
pub fn protect_guard_page(phys: u64) -> (ok: bool)
    ensures
        !ok,
{
    false
}

/// The value for `TTBR0_EL1` when switching to the table rooted at
/// `root` (the caller then invalidates the TLB).
pub fn switch_address_space(root: u64) -> (ttbr0: u64)
    ensures
        ttbr0 == root,
{
    root
}

} // verus!

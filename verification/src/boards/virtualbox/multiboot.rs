//! Multiboot1 information-structure parser: extracts the e820 memory map.
//!
//! GRUB/QEMU enter with EAX = 0x2BADB002 and EBX = the physical address of
//! the MBI struct; the boot code hands those over, and the caller passes the
//! MBI header bytes and the bytes of the e820 table it points at.
use vstd::prelude::*;
use crate::bytes::{le32, le64, read_le32, read_le64};
use crate::memory::mmap::{MemoryMap, MemRegion, RegionKind, region};

verus! {

pub const MB_MAGIC: u32 = 0x2BADB002;
/// `mem_lower` / `mem_upper` valid.
pub const FLAG_MEM: u32 = 1 << 0;
/// `mmap_length` / `mmap_addr` valid.
pub const FLAG_MMAP: u32 = 1 << 6;
/// Bytes of the MBI header this parser reads.
pub const MBI_HEADER_LEN: usize = 52;

/// QEMU `-kernel` default: 127 MiB above 1 MiB.
pub const FALLBACK_BASE: u64 = 0x10_0000;
pub const FALLBACK_SIZE: u64 = 127 * 1024 * 1024;

pub open spec fn region_kind(raw: u32) -> RegionKind {
    if raw == 1 {
        RegionKind::Usable
    } else {
        RegionKind::Reserved
    }
}

/// Regions of the e820 table `s` from byte offset `ptr` on. Each entry is
/// `[size:u32][base:u64][length:u64][type:u32]`, `size` counting the bytes
/// after itself; an entry shorter than 20 bytes or running past the table
/// ends it.
pub open spec fn mmap_entries(s: Seq<u8>, ptr: int) -> Seq<MemRegion>
    decreases s.len() - ptr,
{
    if ptr < 0 || ptr + 4 > s.len() {
        Seq::empty()
    } else {
        let es = le32(s, ptr) as int;
        if es < 20 || ptr + 4 + es > s.len() {
            Seq::empty()
        } else {
            seq![region(le64(s, ptr + 4), le64(s, ptr + 12), region_kind(le32(s, ptr + 20)))]
                + mmap_entries(s, ptr + 4 + es)
        }
    }
}

/// The e820 entry at byte `p` of the table `s` gives region `r`: its size
/// field counts at least the 20 bytes of base, length and type, the entry
/// lies inside the table, `r` spans the entry's base and length, and `r` is
/// usable RAM exactly when the entry's type field is 1 (ACPI data, ACPI
/// NVS, bad memory and every other type are reserved).
pub open spec fn e820_entry_gives(s: Seq<u8>, p: int, r: MemRegion) -> bool {
    &&& 0 <= p && p + 24 <= s.len()
    &&& le32(s, p) >= 20 && p + 4 + le32(s, p) <= s.len()
    &&& r.base == le64(s, p + 4) && r.size == le64(s, p + 12)
    &&& (r.kind == RegionKind::Usable) == (le32(s, p + 20) == 1)
}

/// Byte offset of the `n`-th entry of the e820 table `s` counted from the
/// entry at `ptr`: each entry's size field gives the distance to the next.
pub open spec fn entry_offset(s: Seq<u8>, ptr: int, n: nat) -> int
    decreases n,
{
    if n == 0 {
        ptr
    } else {
        entry_offset(s, ptr + 4 + le32(s, ptr) as int, (n - 1) as nat)
    }
}

proof fn lemma_entries_from_table(s: Seq<u8>, ptr: int)
    requires
        0 <= ptr,
    ensures
        forall|n: nat| n < mmap_entries(s, ptr).len() ==> #[trigger] e820_entry_gives(
            s,
            entry_offset(s, ptr, n),
            mmap_entries(s, ptr)[n as int],
        ),
    decreases s.len() - ptr,
{
    if ptr + 4 <= s.len() {
        let es = le32(s, ptr) as int;
        if !(es < 20 || ptr + 4 + es > s.len()) {
            lemma_entries_from_table(s, ptr + 4 + es);
            let rest = mmap_entries(s, ptr + 4 + es);
            let first = region(le64(s, ptr + 4), le64(s, ptr + 12), region_kind(le32(s, ptr + 20)));
            assert(mmap_entries(s, ptr) == seq![first] + rest);
            assert forall|n: nat| n < mmap_entries(s, ptr).len() implies #[trigger] e820_entry_gives(
                s,
                entry_offset(s, ptr, n),
                mmap_entries(s, ptr)[n as int],
            ) by {
                if n == 0 {
                    assert(mmap_entries(s, ptr)[0] == first);
                } else {
                    let m = (n - 1) as nat;
                    assert(mmap_entries(s, ptr)[n as int] == rest[m as int]);
                    assert(entry_offset(s, ptr, n) == entry_offset(s, ptr + 4 + es, m));
                    assert(e820_entry_gives(s, entry_offset(s, ptr + 4 + es, m), rest[m as int]));
                }
            }
        }
    }
}

/// Every region parsed from an e820 table comes from the entry at its
/// place in the table (the `n`-th region from the `n`-th entry) and
/// carries its base and length, and it is usable RAM exactly when the
/// entry's type is 1: ACPI tables (type 3), ACPI NVS (4) and bad memory (5)
/// never reach the frame allocator as usable.
pub proof fn e820_regions_follow_entries(s: Seq<u8>)
    ensures
        forall|n: nat| n < mmap_entries(s, 0).len() ==> #[trigger] e820_entry_gives(
            s,
            entry_offset(s, 0, n),
            mmap_entries(s, 0)[n as int],
        ),
{
    lemma_entries_from_table(s, 0);
}

/// The memory map for boot magic `magic`, MBI header `info` and e820 table
/// `mmap`.
pub open spec fn multiboot_memory_map(magic: u32, info: Seq<u8>, mmap: Seq<u8>) -> Seq<MemRegion> {
    if magic != MB_MAGIC {
        seq![region(FALLBACK_BASE, FALLBACK_SIZE, RegionKind::Usable)]
    } else {
        let flags = le32(info, 0);
        if flags & FLAG_MMAP != 0 {
            mmap_entries(mmap, 0)
        } else if flags & FLAG_MEM != 0 {
            seq![region(0x10_0000, (le32(info, 8) as int * 1024) as u64, RegionKind::Usable)]
        } else {
            seq![region(FALLBACK_BASE, FALLBACK_SIZE, RegionKind::Usable)]
        }
    }
}

/// Where the e820 table lives, `(mmap_addr, mmap_length)`, when the MBI
/// flags say one is present.
pub fn mmap_location(info: &[u8]) -> (r: Option<(u32, u32)>)
    requires
        info@.len() >= MBI_HEADER_LEN,
    ensures
        r == if le32(info@, 0) & FLAG_MMAP != 0 {
            Some((le32(info@, 48), le32(info@, 44)))
        } else {
            None
        },
{
    if read_le32(info, 0) & FLAG_MMAP != 0 {
        Some((read_le32(info, 48), read_le32(info, 44)))
    } else {
        None
    }
}

/// Append the regions of the e820 table `mmap` to `map`.
pub fn parse_mmap_entries(map: &mut MemoryMap, mmap: &[u8])
    ensures
        final(map)@ == old(map)@ + mmap_entries(mmap@, 0),
        forall|n: int| #![trigger final(map)@[n]] old(map)@.len() <= n < final(map)@.len() ==> e820_entry_gives(
            mmap@,
            entry_offset(mmap@, 0, (n - old(map)@.len()) as nat),
            final(map)@[n],
        ),
{
    let ghost m0 = map@;
    let end = mmap.len();
    let mut ptr: usize = 0;
    loop
        invariant_except_break
            map@ + mmap_entries(mmap@, ptr as int) == old(map)@ + mmap_entries(mmap@, 0),
        invariant
            end == mmap@.len(),
            ptr <= end,
        ensures
            map@ == old(map)@ + mmap_entries(mmap@, 0),
        decreases end - ptr,
    {
        if end - ptr < 4 {
            assert(map@ + Seq::<MemRegion>::empty() =~= map@);
            break;
        }
        let entry_size = read_le32(mmap, ptr) as usize;
        if entry_size < 20 || entry_size > end - ptr - 4 {
            assert(map@ + Seq::<MemRegion>::empty() =~= map@);
            break;
        }
        let base = read_le64(mmap, ptr + 4);
        let len = read_le64(mmap, ptr + 12);
        let kind_raw = read_le32(mmap, ptr + 20);
        let kind = if kind_raw == 1 { RegionKind::Usable } else { RegionKind::Reserved };
        let ghost before = map@;
        map.add(base, len, kind);
        ptr = ptr + 4 + entry_size;
        assert(before + mmap_entries(mmap@, (ptr - 4 - entry_size) as int)
            =~= map@ + mmap_entries(mmap@, ptr as int));
    }
    proof {
        e820_regions_follow_entries(mmap@);
        assert forall|n: int| #![trigger map@[n]] m0.len() <= n < map@.len() implies e820_entry_gives(
            mmap@,
            entry_offset(mmap@, 0, (n - m0.len()) as nat),
            map@[n],
        ) by {
            let k = (n - m0.len()) as nat;
            assert(map@[n] == mmap_entries(mmap@, 0)[k as int]);
            assert(e820_entry_gives(mmap@, entry_offset(mmap@, 0, k), mmap_entries(mmap@, 0)[k as int]));
        }
    }
}

/// The physical memory map the Multiboot loader reported: the e820 table
/// when the MBI has one, else `mem_upper` KiB above 1 MiB when only that is
/// valid, else (and for a loader that did not pass the Multiboot magic) the
/// QEMU default region.
pub fn parse_memory_map(magic: u32, info: &[u8], mmap: &[u8]) -> (map: MemoryMap)
    requires
        magic == MB_MAGIC ==> info@.len() >= MBI_HEADER_LEN,
    ensures
        map@ == multiboot_memory_map(magic, info@, mmap@),
{
    let mut map = MemoryMap::empty();
    if magic != MB_MAGIC {
        map.add(FALLBACK_BASE, FALLBACK_SIZE, RegionKind::Usable);
        assert(map@ =~= multiboot_memory_map(magic, info@, mmap@));
        return map;
    }
    let flags = read_le32(info, 0);
    if flags & FLAG_MMAP != 0 {
        parse_mmap_entries(&mut map, mmap);
        assert(map@ =~= multiboot_memory_map(magic, info@, mmap@));
    } else if flags & FLAG_MEM != 0 {
        let mem_upper_kb = read_le32(info, 8) as u64;
        map.add(0x10_0000, mem_upper_kb * 1024, RegionKind::Usable);
        assert(map@ =~= multiboot_memory_map(magic, info@, mmap@));
    } else {
        map.add(FALLBACK_BASE, FALLBACK_SIZE, RegionKind::Usable);
        assert(map@ =~= multiboot_memory_map(magic, info@, mmap@));
    }
    map
}

} // verus!

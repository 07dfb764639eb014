//! Minimal FDT (Flattened Device Tree) parser: extracts the physical memory
//! regions from the `reg` property of the `/memory` node. All FDT values are
//! big-endian.
//!
//! The blob is handed in as a byte slice covering the whole tree. A read that
//! would fall outside that slice ends the walk at that point.
use vstd::prelude::*;
use crate::bytes::{be32, be64, read_be32, read_be64};
use crate::memory::mmap::{MemoryMap, MemRegion, RegionKind, region};

verus! {

pub const FDT_MAGIC: u32 = 0xd00dfeed;
pub const FDT_BEGIN_NODE: u32 = 1;
pub const FDT_END_NODE: u32 = 2;
pub const FDT_PROP: u32 = 3;
pub const FDT_NOP: u32 = 4;
pub const FDT_END: u32 = 9;

/// QEMU virt default used when the tree yields no memory region:
/// 128 MiB at 0x8000_0000.
pub const FALLBACK_BASE: u64 = 0x8000_0000;
pub const FALLBACK_SIZE: u64 = 128 * 1024 * 1024;

/// `n` rounded up to a multiple of four.
pub open spec fn align4(n: int) -> int {
    ((n + 3) / 4) * 4
}

/// Length of the NUL-terminated string starting at `start`, or `None` when no
/// NUL byte follows it inside the blob.
pub open spec fn cstr_len(s: Seq<u8>, start: int) -> Option<nat>
    decreases s.len() - start,
{
    if start < 0 || start >= s.len() {
        None
    } else if s[start] == 0 {
        Some(0)
    } else {
        match cstr_len(s, start + 1) {
            Some(n) => Some(n + 1),
            None => None,
        }
    }
}

/// The NUL-terminated string at `at` is exactly `lit`.
pub open spec fn cstr_matches(s: Seq<u8>, at: int, lit: Seq<u8>) -> bool {
    &&& 0 <= at
    &&& at + lit.len() < s.len()
    &&& s.subrange(at, at + lit.len()) == lit
    &&& s[at + lit.len()] == 0
}

pub open spec fn memory_name() -> Seq<u8> {
    seq![0x6d, 0x65, 0x6d, 0x6f, 0x72, 0x79]
}

pub open spec fn address_cells_name() -> Seq<u8> {
    seq![0x23, 0x61, 0x64, 0x64, 0x72, 0x65, 0x73, 0x73, 0x2d, 0x63, 0x65, 0x6c, 0x6c, 0x73]
}

pub open spec fn size_cells_name() -> Seq<u8> {
    seq![0x23, 0x73, 0x69, 0x7a, 0x65, 0x2d, 0x63, 0x65, 0x6c, 0x6c, 0x73]
}

pub open spec fn reg_name() -> Seq<u8> {
    seq![0x72, 0x65, 0x67]
}

/// A node named `memory` or `memory@<unit-address>`.
pub open spec fn is_memory_node_name(name: Seq<u8>) -> bool {
    name == memory_name() || (name.len() >= 7 && name.subrange(0, 6) == memory_name()
        && name[6] == 0x40)
}

/// Number of bytes one value of `cells` cells occupies when read.
pub open spec fn cell_read_len(cells: u32) -> int {
    if cells == 2 {
        8
    } else {
        4
    }
}

/// A `cells`-cell value: 64-bit for two cells, 32-bit for one (and for any
/// other count, the first cell only).
pub open spec fn read_cells(s: Seq<u8>, at: int, cells: u32) -> u64 {
    if cells == 2 {
        be64(s, at)
    } else {
        be32(s, at) as u64
    }
}

/// The regions listed in a `reg` property, `remaining` entries of `eb` bytes
/// starting at `off`, each an address then a size.
pub open spec fn reg_entries(s: Seq<u8>, off: int, eb: int, ac: u32, sc: u32, remaining: nat) -> Seq<
    MemRegion,
>
    decreases remaining,
{
    if remaining == 0 {
        Seq::empty()
    } else {
        let size_at = off + ac as int * 4;
        if off < 0 || off + cell_read_len(ac) > s.len() || size_at + cell_read_len(sc) > s.len() {
            Seq::empty()
        } else {
            seq![region(read_cells(s, off, ac), read_cells(s, size_at, sc), RegionKind::Usable)]
                + reg_entries(s, off + eb, eb, ac, sc, (remaining - 1) as nat)
        }
    }
}

/// The regions of a `reg` property of `plen` bytes at `data`.
pub open spec fn reg_regions(s: Seq<u8>, data: int, plen: int, ac: u32, sc: u32) -> Seq<MemRegion> {
    let eb = (ac as int + sc as int) * 4;
    if eb == 0 {
        Seq::empty()
    } else {
        reg_entries(s, data, eb, ac, sc, (plen / eb) as nat)
    }
}

/// `#address-cells` after a property named at `name_at` with `plen` bytes at
/// `data`, seen at `depth`.
pub open spec fn next_addr_cells(s: Seq<u8>, name_at: int, data: int, plen: int, depth: nat, ac: u32) -> u32 {
    if depth == 1 && cstr_matches(s, name_at, address_cells_name()) && plen == 4 {
        be32(s, data)
    } else {
        ac
    }
}

pub open spec fn next_size_cells(s: Seq<u8>, name_at: int, data: int, plen: int, depth: nat, sc: u32) -> u32 {
    if depth == 1 && !(cstr_matches(s, name_at, address_cells_name()) && plen == 4)
        && cstr_matches(s, name_at, size_cells_name()) && plen == 4 {
        be32(s, data)
    } else {
        sc
    }
}

/// Memory regions found by walking the structure block from token position
/// `pos`, at node depth `depth`, with the root's current `#address-cells` /
/// `#size-cells`, `in_mem` telling whether the current node is `/memory`.
pub open spec fn fdt_walk(
    s: Seq<u8>,
    strings: int,
    pos: int,
    depth: nat,
    ac: u32,
    sc: u32,
    in_mem: bool,
) -> Seq<MemRegion>
    decreases s.len() - pos,
{
    if pos < 0 || pos + 4 > s.len() {
        Seq::empty()
    } else {
        let tok = be32(s, pos);
        let cur = pos + 4;
        if tok == FDT_BEGIN_NODE {
            match cstr_len(s, cur) {
                None => Seq::empty(),
                Some(nlen) => {
                    let next = cur + align4(nlen as int + 1);
                    if next <= s.len() {
                        fdt_walk(
                            s,
                            strings,
                            next,
                            depth + 1,
                            ac,
                            sc,
                            depth == 1 && is_memory_node_name(s.subrange(cur, cur + nlen)),
                        )
                    } else {
                        Seq::empty()
                    }
                },
            }
        } else if tok == FDT_END_NODE {
            fdt_walk(s, strings, cur, if depth > 0 { (depth - 1) as nat } else { 0 }, ac, sc, false)
        } else if tok == FDT_PROP {
            if cur + 8 > s.len() {
                Seq::empty()
            } else {
                let plen = be32(s, cur) as int;
                let name_at = strings + be32(s, cur + 4) as int;
                let data = cur + 8;
                if data + plen > s.len() {
                    Seq::empty()
                } else {
                    let ac2 = next_addr_cells(s, name_at, data, plen, depth, ac);
                    let sc2 = next_size_cells(s, name_at, data, plen, depth, sc);
                    let regs = if in_mem && cstr_matches(s, name_at, reg_name()) {
                        reg_regions(s, data, plen, ac2, sc2)
                    } else {
                        Seq::empty()
                    };
                    let next = data + align4(plen);
                    regs + if next <= s.len() {
                        fdt_walk(s, strings, next, depth, ac2, sc2, in_mem)
                    } else {
                        Seq::empty()
                    }
                }
            }
        } else if tok == FDT_NOP {
            fdt_walk(s, strings, cur, depth, ac, sc, in_mem)
        } else {
            Seq::empty()
        }
    }
}

/// Regions the tree's `/memory` node lists (empty for a blob that is not an
/// FDT).
pub open spec fn fdt_memory_regions(s: Seq<u8>) -> Seq<MemRegion> {
    if s.len() < 16 || be32(s, 0) != FDT_MAGIC {
        Seq::empty()
    } else {
        fdt_walk(s, be32(s, 12) as int, be32(s, 8) as int, 0, 2, 2, false)
    }
}

/// The memory map `parse_memory_map` produces for blob `s`.
pub open spec fn fdt_memory_map(s: Seq<u8>) -> Seq<MemRegion> {
    let r = fdt_memory_regions(s);
    if r.len() == 0 {
        seq![region(FALLBACK_BASE, FALLBACK_SIZE, RegionKind::Usable)]
    } else {
        r
    }
}

/// A property of a node below the root (depth 2 or more) that is not the
/// `reg` of the `/memory` node contributes no region and leaves the cell
/// counts as they were, whatever its name and value: the walk goes on from
/// the next token exactly as if it were not there. So `#address-cells` and
/// `#size-cells` of `/cpus` or any other inner node never change how the
/// memory node's `reg` is read; only the root's (depth 1) do.
pub proof fn inner_property_changes_nothing(
    s: Seq<u8>,
    strings: int,
    pos: int,
    depth: nat,
    ac: u32,
    sc: u32,
    in_mem: bool,
)
    requires
        depth >= 2,
        0 <= pos,
        pos + 12 <= s.len(),
        be32(s, pos) == FDT_PROP,
        pos + 12 + be32(s, pos + 4) <= s.len(),
        pos + 12 + align4(be32(s, pos + 4) as int) <= s.len(),
        !(in_mem && cstr_matches(s, strings + be32(s, pos + 8) as int, reg_name())),
    ensures
        fdt_walk(s, strings, pos, depth, ac, sc, in_mem) == fdt_walk(
            s,
            strings,
            pos + 12 + align4(be32(s, pos + 4) as int),
            depth,
            ac,
            sc,
            in_mem,
        ),
{
    let rest = fdt_walk(s, strings, pos + 12 + align4(be32(s, pos + 4) as int), depth, ac, sc, in_mem);
    assert(Seq::<MemRegion>::empty() + rest =~= rest);
}

/// A 4-byte `#address-cells` (or `#size-cells`) property of the root node
/// sets the count the walk reads `reg` entries with from then on.
pub proof fn root_cell_counts_apply(s: Seq<u8>, strings: int, pos: int, ac: u32, sc: u32, in_mem: bool)
    requires
        0 <= pos,
        pos + 12 <= s.len(),
        be32(s, pos) == FDT_PROP,
        be32(s, pos + 4) == 4,
        pos + 16 <= s.len(),
    ensures
        cstr_matches(s, strings + be32(s, pos + 8) as int, address_cells_name()) ==> fdt_walk(s, strings, pos, 1, ac, sc, in_mem)
            == (if in_mem && cstr_matches(s, strings + be32(s, pos + 8) as int, reg_name()) {
            reg_regions(s, pos + 12, 4, be32(s, pos + 12), sc)
        } else {
            Seq::empty()
        }) + fdt_walk(s, strings, pos + 16, 1, be32(s, pos + 12), sc, in_mem),
{
    assert(align4(4) == 4);
}

proof fn lemma_cstr_len_step(s: Seq<u8>, start: int, j: int)
    requires
        0 <= start <= j < s.len(),
        s[j] != 0,
        forall|k: int| start <= k < j ==> s[k] != 0,
    ensures
        cstr_len(s, start) == match cstr_len(s, j + 1) {
            Some(n) => Some((n + (j + 1 - start)) as nat),
            None => None::<nat>,
        },
    decreases j - start,
{
    if start < j {
        lemma_cstr_len_step(s, start + 1, j);
    }
}

/// Length of the NUL-terminated string at `start`, if one ends inside `s`.
fn find_cstr_len(s: &[u8], start: usize) -> (r: Option<usize>)
    ensures
        match r {
            Some(n) => cstr_len(s@, start as int) == Some(n as nat) && start + n < s@.len(),
            None => cstr_len(s@, start as int) == None::<nat>,
        },
{
    let n = s.len();
    let mut j = start;
    while j < n && s[j] != 0
        invariant
            n == s@.len(),
            start <= j <= n || (j == start && start > n),
            forall|k: int| start <= k < j ==> s@[k] != 0,
        decreases n - j,
    {
        proof {
            lemma_cstr_len_step(s@, start as int, j as int);
        }
        j = j + 1;
    }
    proof {
        if start < j {
            lemma_cstr_len_step(s@, start as int, (j - 1) as int);
        }
    }
    if j < n {
        Some(j - start)
    } else {
        None
    }
}

/// Whether the NUL-terminated string at `at` is exactly `lit`.
fn cstr_equals(s: &[u8], at: u64, lit: &[u8]) -> (r: bool)
    ensures
        r == cstr_matches(s@, at as int, lit@),
{
    let n = s.len();
    let m = lit.len();
    if at >= n as u64 || (n as u64) - at <= m as u64 {
        return false;
    }
    let a = at as usize;
    let mut k: usize = 0;
    while k < m
        invariant
            n == s@.len(),
            m == lit@.len(),
            a + m < n,
            a == at,
            k <= m,
            forall|i: int| 0 <= i < k ==> s@[a + i] == lit@[i],
        decreases m - k,
    {
        if s[a + k] != lit[k] {
            assert(s@.subrange(a as int, a + m)[k as int] != lit@[k as int]);
            return false;
        }
        k = k + 1;
    }
    assert(s@.subrange(a as int, a + m) =~= lit@);
    s[a + m] == 0
}

fn is_memory_node(s: &[u8], at: usize, nlen: usize) -> (r: bool)
    requires
        at + nlen <= s@.len(),
    ensures
        r == is_memory_node_name(s@.subrange(at as int, at + nlen)),
{
    let lit: [u8; 6] = [0x6d, 0x65, 0x6d, 0x6f, 0x72, 0x79];
    assert(lit@ =~= memory_name());
    let n = s.len();
    if nlen < 6 {
        return false;
    }
    let mut k: usize = 0;
    while k < 6
        invariant
            n == s@.len(),
            at + nlen <= s@.len(),
            6 <= nlen,
            k <= 6,
            lit@ == memory_name(),
            forall|i: int| 0 <= i < k ==> s@[at + i] == lit@[i],
        decreases 6 - k,
    {
        if s[at + k] != lit[k] {
            assert(s@.subrange(at as int, at + nlen)[k as int] != memory_name()[k as int]);
            return false;
        }
        k = k + 1;
    }
    let name = Ghost(s@.subrange(at as int, at + nlen));
    assert(name@.subrange(0, 6) =~= memory_name());
    if nlen == 6 {
        assert(name@ =~= memory_name());
        true
    } else {
        s[at + 6] == 0x40
    }
}

fn read_cells_at(s: &[u8], at: usize, cells: u32) -> (v: u64)
    requires
        at + cell_read_len(cells) <= s@.len(),
    ensures
        v == read_cells(s@, at as int, cells),
{
    if cells == 2 {
        read_be64(s, at)
    } else {
        read_be32(s, at) as u64
    }
}

/// Append the regions of a `reg` property to `map`.
fn parse_reg(map: &mut MemoryMap, s: &[u8], data: usize, plen: usize, ac: u32, sc: u32)
    requires
        data + plen <= s@.len(),
    ensures
        final(map)@ == old(map)@ + reg_regions(s@, data as int, plen as int, ac, sc),
{
    let eb: u64 = (ac as u64 + sc as u64) * 4;
    if eb == 0 {
        return;
    }
    let n_entries: u64 = plen as u64 / eb;
    let len_us = s.len();
    let len = len_us as u64;
    let ghost total = reg_regions(s@, data as int, plen as int, ac, sc);
    let mut off: u64 = data as u64;
    let mut remaining: u64 = n_entries;
    let acb: u64 = ac as u64 * 4;
    proof {
        assert(n_entries * eb <= plen) by (nonlinear_arith)
            requires
                n_entries == plen as int / eb as int,
                eb > 0,
        ;
    }
    while remaining > 0
        invariant
            len == s@.len(),
            len == len_us,
            eb == (ac as int + sc as int) * 4,
            eb > 0,
            acb == ac as int * 4,
            off + remaining * eb <= data + plen,
            data + plen <= len,
            total == reg_regions(s@, data as int, plen as int, ac, sc),
            map@ + reg_entries(s@, off as int, eb as int, ac, sc, remaining as nat) == old(map)@ + total,
        decreases remaining,
    {
        proof {
            assert(off + eb + (remaining - 1) * eb == off + remaining * eb) by (nonlinear_arith);
            assert(remaining * eb >= eb) by (nonlinear_arith)
                requires
                    remaining > 0,
                    eb > 0,
            ;
        }
        let base_len: u64 = if ac == 2 { 8 } else { 4 };
        let size_len: u64 = if sc == 2 { 8 } else { 4 };
        if base_len > len - off || acb > len - off || size_len > len - off - acb {
            assert(cell_read_len(ac) == base_len);
            assert(cell_read_len(sc) == size_len);
            assert(reg_entries(s@, off as int, eb as int, ac, sc, remaining as nat)
                == Seq::<MemRegion>::empty());
            assert(map@ + Seq::<MemRegion>::empty() =~= map@);
            return;
        }
        let base = read_cells_at(s, off as usize, ac);
        let size = read_cells_at(s, (off + acb) as usize, sc);
        map.add(base, size, RegionKind::Usable);
        off = off + eb;
        remaining = remaining - 1;
        proof {
            assert(old(map)@ + total =~= map@ + reg_entries(s@, off as int, eb as int, ac, sc, remaining as nat));
        }
    }
    assert(map@ + Seq::<MemRegion>::empty() =~= map@);
}

/// One `FDT_BEGIN_NODE` token at `pos`: the position, depth and memory-node
/// flag the walk continues with, or `None` where the walk stops.
fn begin_node(fdt: &[u8], strings: u64, pos: usize, depth: usize, ac: u32, sc: u32, in_mem: bool)
    -> (r: Option<(usize, usize, bool)>)
    requires
        pos + 4 <= fdt@.len(),
        be32(fdt@, pos as int) == FDT_BEGIN_NODE,
        depth <= pos,
    ensures
        match r {
            Some((p, d, m)) => {
                &&& fdt_walk(fdt@, strings as int, pos as int, depth as nat, ac, sc, in_mem)
                    == fdt_walk(fdt@, strings as int, p as int, d as nat, ac, sc, m)
                &&& pos + 8 <= p <= fdt@.len()
                &&& d <= p
            },
            None => fdt_walk(fdt@, strings as int, pos as int, depth as nat, ac, sc, in_mem)
                == Seq::<MemRegion>::empty(),
        },
{
    let n = fdt.len();
    let cur = pos + 4;
    match find_cstr_len(fdt, cur) {
        None => None,
        Some(nlen) => {
            let step = nlen / 4 * 4 + 4;
            assert(step == align4(nlen as int + 1));
            if step > n - cur {
                return None;
            }
            let mem = depth == 1 && is_memory_node(fdt, cur, nlen);
            Some((cur + step, depth + 1, mem))
        },
    }
}

/// One `FDT_PROP` token at `pos`: records the root's cell counts, appends the
/// memory node's `reg` regions to `map`, and returns the position and cell
/// counts the walk continues with, or `None` where the walk stops.
fn property(
    map: &mut MemoryMap,
    fdt: &[u8],
    strings: u64,
    pos: usize,
    depth: usize,
    ac: u32,
    sc: u32,
    in_mem: bool,
) -> (r: Option<(usize, u32, u32)>)
    requires
        pos + 4 <= fdt@.len(),
        be32(fdt@, pos as int) == FDT_PROP,
        strings <= u32::MAX,
    ensures
        old(map)@ + fdt_walk(fdt@, strings as int, pos as int, depth as nat, ac, sc, in_mem)
            == final(map)@ + match r {
            Some((p, a, s)) => fdt_walk(fdt@, strings as int, p as int, depth as nat, a, s, in_mem),
            None => Seq::<MemRegion>::empty(),
        },
        r matches Some((p, a, s)) ==> pos + 12 <= p <= fdt@.len(),
{
    let n = fdt.len();
    let cur = pos + 4;
    if n - cur < 8 {
        assert(old(map)@ + Seq::<MemRegion>::empty() =~= old(map)@);
        return None;
    }
    let plen = read_be32(fdt, cur);
    let noff = read_be32(fdt, cur + 4);
    let data = cur + 8;
    if plen as usize > n - data {
        assert(old(map)@ + Seq::<MemRegion>::empty() =~= old(map)@);
        return None;
    }
    let addr_lit: [u8; 14] = [0x23, 0x61, 0x64, 0x64, 0x72, 0x65, 0x73, 0x73, 0x2d, 0x63, 0x65,
        0x6c, 0x6c, 0x73];
    let size_lit: [u8; 11] = [0x23, 0x73, 0x69, 0x7a, 0x65, 0x2d, 0x63, 0x65, 0x6c, 0x6c, 0x73];
    let reg_lit: [u8; 3] = [0x72, 0x65, 0x67];
    assert(addr_lit@ =~= address_cells_name());
    assert(size_lit@ =~= size_cells_name());
    assert(reg_lit@ =~= reg_name());

    let name_at = strings + noff as u64;
    let is_ac = cstr_equals(fdt, name_at, &addr_lit);
    let is_sc = cstr_equals(fdt, name_at, &size_lit);
    let mut ac2 = ac;
    let mut sc2 = sc;
    if depth == 1 {
        if is_ac && plen == 4 {
            ac2 = read_be32(fdt, data);
        } else if is_sc && plen == 4 {
            sc2 = read_be32(fdt, data);
        }
    }
    assert(ac2 == next_addr_cells(fdt@, name_at as int, data as int, plen as int, depth as nat, ac));
    assert(sc2 == next_size_cells(fdt@, name_at as int, data as int, plen as int, depth as nat, sc));
    let ghost regs = if in_mem && cstr_matches(fdt@, name_at as int, reg_name()) {
        reg_regions(fdt@, data as int, plen as int, ac2, sc2)
    } else {
        Seq::<MemRegion>::empty()
    };
    if in_mem && cstr_equals(fdt, name_at, &reg_lit) {
        parse_reg(map, fdt, data, plen as usize, ac2, sc2);
    } else {
        assert(map@ =~= old(map)@ + regs);
    }
    assert(map@ == old(map)@ + regs);
    let step: u64 = (plen as u64 + 3) / 4 * 4;
    assert(step == align4(plen as int));
    if step > (n - data) as u64 {
        assert(old(map)@ + (regs + Seq::<MemRegion>::empty()) =~= map@ + Seq::<MemRegion>::empty());
        return None;
    }
    let next = data + step as usize;
    assert(old(map)@ + (regs + fdt_walk(fdt@, strings as int, next as int, depth as nat, ac2, sc2, in_mem))
        =~= map@ + fdt_walk(fdt@, strings as int, next as int, depth as nat, ac2, sc2, in_mem));
    Some((next, ac2, sc2))
}

/// Parse the physical memory map out of the FDT blob `fdt`: every region the
/// `reg` property of the `/memory` (or `/memory@...`) node lists, read with the
/// root node's `#address-cells`/`#size-cells` (two each by default). A blob
/// without the FDT magic, or one whose memory node lists nothing, yields the
/// QEMU virt default region instead.
pub fn parse_memory_map(fdt: &[u8]) -> (map: MemoryMap)
    ensures
        map@ == fdt_memory_map(fdt@),
{
    let mut map = MemoryMap::empty();
    let n = fdt.len();
    if n < 16 || read_be32(fdt, 0) != FDT_MAGIC {
        map.add(FALLBACK_BASE, FALLBACK_SIZE, RegionKind::Usable);
        assert(map@ =~= seq![region(FALLBACK_BASE, FALLBACK_SIZE, RegionKind::Usable)]);
        return map;
    }
    let off_struct = read_be32(fdt, 8);
    let strings = read_be32(fdt, 12) as u64;
    let mut pos: usize = off_struct as usize;
    let mut depth: usize = 0;
    let mut ac: u32 = 2;
    let mut sc: u32 = 2;
    let mut in_mem = false;
    let ghost total = fdt_memory_regions(fdt@);

    loop
        invariant_except_break
            map@ + fdt_walk(fdt@, strings as int, pos as int, depth as nat, ac, sc, in_mem) == total,
        invariant
            n == fdt@.len(),
            n >= 16,
            total == fdt_memory_regions(fdt@),
            strings <= u32::MAX,
            depth <= pos,
        ensures
            map@ == total,
        decreases n - pos,
    {
        if pos > n - 4 {
            assert(map@ + Seq::<MemRegion>::empty() =~= map@);
            break;
        }
        let tok = read_be32(fdt, pos);
        if tok == FDT_BEGIN_NODE {
            match begin_node(fdt, strings, pos, depth, ac, sc, in_mem) {
                None => {
                    assert(map@ + Seq::<MemRegion>::empty() =~= map@);
                    break;
                },
                Some((p, d, m)) => {
                    pos = p;
                    depth = d;
                    in_mem = m;
                },
            }
        } else if tok == FDT_END_NODE {
            depth = if depth > 0 { depth - 1 } else { 0 };
            in_mem = false;
            pos = pos + 4;
        } else if tok == FDT_PROP {
            match property(&mut map, fdt, strings, pos, depth, ac, sc, in_mem) {
                None => {
                    assert(map@ + Seq::<MemRegion>::empty() =~= map@);
                    break;
                },
                Some((p, a, s)) => {
                    pos = p;
                    ac = a;
                    sc = s;
                },
            }
        } else if tok == FDT_NOP {
            pos = pos + 4;
        } else {
            assert(map@ + Seq::<MemRegion>::empty() =~= map@);
            break;
        }
    }
    if map.count() == 0 {
        map.add(FALLBACK_BASE, FALLBACK_SIZE, RegionKind::Usable);
        assert(map@ =~= seq![region(FALLBACK_BASE, FALLBACK_SIZE, RegionKind::Usable)]);
    }
    map
}

} // verus!

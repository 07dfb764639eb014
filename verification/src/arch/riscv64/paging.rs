//! RISC-V Sv39 paging over the model of physical memory: the kernel maps the
//! first 4 GiB with 1 GiB leaves in root slots 0-3; user address spaces live
//! in root slots 4 and up (VA 0x1_0000_0000 and up).
//!
//! As for x86_64, a tree is described by the position of each table frame:
//! the root at level 2, the L1 table under root slot `i` at `(1, i)`, the L0
//! table under `(i, j)` at `(0, i, j)`; the trees built here give every table
//! frame one position and never use a free frame as a table.
use vstd::prelude::*;
use crate::memory::phys::{
    PhysMem, FrameAllocator, frame_ok, ent, zeroed, with_entry, lemma_frames_disjoint,
    lemma_write_reads, taken_in, kept, distinct_frames, lemma_not_taken, lemma_kept_trans, lemma_kept_widen,
    lemma_kept_same, lemma_kept_write, lemma_kept_copy, lemma_copy_reads, unlisted, same_frame, lemma_taken_widen,
    lemma_taken_kept, clone_ctx, lemma_take_last,
};
use crate::arch::prot::{PROT_READ, PROT_WRITE, PROT_EXEC, PROT_USER};

verus! {

pub const PAGE_V: u64 = 0x1;
pub const PAGE_R: u64 = 0x2;
pub const PAGE_W: u64 = 0x4;
pub const PAGE_X: u64 = 0x8;
pub const PAGE_U: u64 = 0x10;
pub const PAGE_A: u64 = 0x40;
pub const PAGE_D: u64 = 0x80;
/// R, W or X: a leaf rather than a pointer to the next table.
pub const LEAF_BITS: u64 = 0xE;
/// Root slots below this are the kernel's.
pub const USER_FIRST_SLOT: u64 = 4;
/// First user code page: root[4], L1[0], L0[1].
pub const USER_CODE_VA: u64 = 0x1_0000_1000;
pub const USER_STACK_TOP: u64 = 0x1_0001_0000;
/// The stack page below `USER_STACK_TOP`: L0[15].
pub const USER_STACK_PAGE_VA: u64 = 0x1_0000_F000;
/// SATP mode field for Sv39.
pub const SATP_SV39: u64 = 0x8000_0000_0000_0000;

pub type Pos = (int, int, int);

pub open spec fn valid(e: u64) -> bool {
    e & PAGE_V != 0
}

pub open spec fn leaf(e: u64) -> bool {
    e & LEAF_BITS != 0
}

/// Physical address an entry points to.
pub open spec fn pa(e: u64) -> u64 {
    (e >> 10u64) << 12u64
}

/// Entry pointing at the table (or page) at `p`, with flags `flags`.
pub open spec fn pte(p: u64, flags: u64) -> u64 {
    ((p >> 12u64) << 10u64) | flags
}

pub open spec fn vpn2(va: u64) -> int {
    ((va >> 30u64) & 0x1FF) as int
}

pub open spec fn vpn1(va: u64) -> int {
    ((va >> 21u64) & 0x1FF) as int
}

pub open spec fn vpn0(va: u64) -> int {
    ((va >> 12u64) & 0x1FF) as int
}

pub open spec fn idx_ok(i: int) -> bool {
    0 <= i < 512
}

pub open spec fn e2(m: Seq<u64>, root: u64, i: int) -> u64 {
    ent(m, root, i)
}

pub open spec fn t1(m: Seq<u64>, root: u64, i: int) -> u64 {
    pa(e2(m, root, i))
}

pub open spec fn e1(m: Seq<u64>, root: u64, i: int, j: int) -> u64 {
    ent(m, t1(m, root, i), j)
}

pub open spec fn t0(m: Seq<u64>, root: u64, i: int, j: int) -> u64 {
    pa(e1(m, root, i, j))
}

pub open spec fn e0(m: Seq<u64>, root: u64, i: int, j: int, k: int) -> u64 {
    ent(m, t0(m, root, i, j), k)
}

/// Root slot `i` points to an L1 table.
pub open spec fn has1(m: Seq<u64>, root: u64, i: int) -> bool {
    idx_ok(i) && valid(e2(m, root, i)) && !leaf(e2(m, root, i))
}

/// L1 slot `(i, j)` points to an L0 table.
pub open spec fn has0(m: Seq<u64>, root: u64, i: int, j: int) -> bool {
    has1(m, root, i) && idx_ok(j) && valid(e1(m, root, i, j)) && !leaf(e1(m, root, i, j))
}

/// The entry translating `va` and its level (2: 1 GiB, 1: 2 MiB, 0: 4 KiB),
/// or `None` when unmapped.
pub open spec fn walk(m: Seq<u64>, root: u64, va: u64) -> Option<(u64, int)> {
    let (i, j, k) = (vpn2(va), vpn1(va), vpn0(va));
    if !valid(e2(m, root, i)) {
        None
    } else if leaf(e2(m, root, i)) {
        Some((e2(m, root, i), 2))
    } else if !valid(e1(m, root, i, j)) {
        None
    } else if leaf(e1(m, root, i, j)) {
        Some((e1(m, root, i, j), 1))
    } else if !valid(e0(m, root, i, j, k)) {
        None
    } else {
        Some((e0(m, root, i, j, k), 0))
    }
}

pub open spec fn owner_ok(m: Seq<u64>, root: u64, free: Seq<u64>, o: Map<u64, Pos>) -> bool {
    &&& o.contains_key(root) && o[root] == (2int, 0int, 0int)
    &&& forall|t: u64| #[trigger] o.contains_key(t) ==> frame_ok(m.len(), t)
    &&& forall|i: int| #[trigger] has1(m, root, i) ==> o.contains_key(t1(m, root, i)) && o[t1(m, root, i)] == (
    1int, i, 0int)
    &&& forall|i: int, j: int| #[trigger] has0(m, root, i, j) ==> o.contains_key(t0(m, root, i, j))
        && o[t0(m, root, i, j)] == (0int, i, j)
    &&& forall|a: int| 0 <= a < free.len() ==> frame_ok(m.len(), #[trigger] free[a]) && !o.contains_key(free[a])
    &&& forall|a: int, b: int| 0 <= a < free.len() && 0 <= b < free.len() && a != b ==> #[trigger] free[a] != #[trigger] free[b]
}

/// The tree rooted at `root` is well formed with respect to `free`.
pub open spec fn pt_inv(m: Seq<u64>, root: u64, free: Seq<u64>) -> bool {
    exists|o: Map<u64, Pos>| owner_ok(m, root, free, o)
}

pub open spec fn frames_needed(m: Seq<u64>, root: u64, va: u64) -> int {
    if !valid(e2(m, root, vpn2(va))) {
        2
    } else if !valid(e1(m, root, vpn2(va), vpn1(va))) {
        1
    } else {
        0
    }
}

/// The walk to `va` ends at a 1 GiB or 2 MiB leaf.
pub open spec fn blocked_by_leaf(m: Seq<u64>, root: u64, va: u64) -> bool {
    let (i, j) = (vpn2(va), vpn1(va));
    valid(e2(m, root, i)) && (leaf(e2(m, root, i)) || (valid(e1(m, root, i, j)) && leaf(e1(m, root, i, j))))
}

pub open spec fn frames_taken(m: Seq<u64>, root: u64, va: u64, avail: int) -> int {
    if vpn2(va) < 4 || blocked_by_leaf(m, root, va) {
        0
    } else if frames_needed(m, root, va) <= avail {
        frames_needed(m, root, va)
    } else {
        avail
    }
}

pub open spec fn leaf_flags(prot: u32) -> u64 {
    PAGE_V | PAGE_A | PAGE_D | (if prot & PROT_READ != 0 { PAGE_R } else { 0 }) | (if prot & PROT_WRITE != 0 {
        PAGE_W
    } else {
        0
    }) | (if prot & PROT_EXEC != 0 { PAGE_X } else { 0 }) | (if prot & PROT_USER != 0 { PAGE_U } else { 0 })
}

pub open spec fn same_page(va: u64, vb: u64) -> bool {
    vpn2(va) == vpn2(vb) && vpn1(va) == vpn1(vb) && vpn0(va) == vpn0(vb)
}

/// Facts about entries: a table pointer to an aligned frame is valid, not a
/// leaf and points back at the frame; flag sets with V are valid; 0 is not.
pub proof fn lemma_pte_bits()
    ensures
        forall|f: u64| #![auto] f % 4096 == 0 ==> valid(pte(f, PAGE_V)) && !leaf(pte(f, PAGE_V)) && pa(pte(f, PAGE_V)) == f,
        forall|p: u64, fl: u64| #![auto] fl & 1 != 0 ==> valid(pte(p, fl)),
        forall|e: u64| #![auto] pa(e) % 4096 == 0,
        !valid(0),
        forall|va: u64| #![auto] vpn2(va) < 512 && vpn1(va) < 512 && vpn0(va) < 512 && vpn2(va) >= 0 && vpn1(va) >= 0
            && vpn0(va) >= 0,
        0xDFu64 & 1 != 0,
        0xD7u64 & 1 != 0,
{
    assert((forall|f: u64| #![auto] f % 4096 == 0 ==> (((f >> 12u64) << 10u64) | 1) & 1 != 0 && (((f >> 12u64)
        << 10u64) | 1) & 0xE == 0 && ((((f >> 12u64) << 10u64) | 1) >> 10u64) << 12u64 == f) && (forall|p: u64, fl: u64|
        #![auto] fl & 1 != 0 ==> (((p >> 12u64) << 10u64) | fl) & 1 != 0) && (forall|e: u64| #![auto] ((e >> 10u64)
        << 12u64) % 4096 == 0) && 0u64 & 1 == 0 && (forall|va: u64| #![auto] (va >> 30u64) & 0x1FF < 512 && (va
        >> 21u64) & 0x1FF < 512 && (va >> 12u64) & 0x1FF < 512) && 0xDFu64 & 1 != 0 && 0xD7u64 & 1 != 0) by (bit_vector);
}

/// Memory after linking the fresh frame `f`, cleared, under slot `idx` of
/// table `t`.
pub open spec fn install(m: Seq<u64>, f: u64, t: u64, idx: int) -> Seq<u64> {
    with_entry(zeroed(m, f), t, idx, pte(f, PAGE_V))
}

proof fn lemma_install_reads(m: Seq<u64>, f: u64, t: u64, idx: int, s: u64, k: int)
    requires
        frame_ok(m.len(), f),
        frame_ok(m.len(), t),
        frame_ok(m.len(), s),
        f != t,
        idx_ok(idx),
        idx_ok(k),
    ensures
        ent(install(m, f, t, idx), s, k) == if s == t && k == idx {
            pte(f, PAGE_V)
        } else if s == f {
            0
        } else {
            ent(m, s, k)
        },
        install(m, f, t, idx).len() == m.len(),
{
    if s != t {
        lemma_frames_disjoint(s, t, k, idx);
    }
    if s != f {
        lemma_frames_disjoint(s, f, k, 0);
    } else {
        lemma_frames_disjoint(f, t, k, idx);
    }
}

pub proof fn lemma_inv_frames(m: Seq<u64>, root: u64, free: Seq<u64>)
    requires
        pt_inv(m, root, free),
    ensures
        frame_ok(m.len(), root),
        forall|i: int| #[trigger] has1(m, root, i) ==> frame_ok(m.len(), t1(m, root, i)),
        forall|i: int, j: int| #[trigger] has0(m, root, i, j) ==> frame_ok(m.len(), t0(m, root, i, j)),
        forall|a: int| 0 <= a < free.len() ==> frame_ok(m.len(), #[trigger] free[a]) && free[a] != root,
{
    let o = choose|o: Map<u64, Pos>| owner_ok(m, root, free, o);
    assert forall|i: int| #[trigger] has1(m, root, i) implies frame_ok(m.len(), t1(m, root, i)) by {
        assert(o.contains_key(t1(m, root, i)));
    }
    assert forall|i: int, j: int| #[trigger] has0(m, root, i, j) implies frame_ok(m.len(), t0(m, root, i, j)) by {
        assert(o.contains_key(t0(m, root, i, j)));
    }
}

/// Linking a fresh L1 table under an empty root slot changes no translation.
proof fn lemma_install_root(m: Seq<u64>, root: u64, free: Seq<u64>, i0: int)
    requires
        pt_inv(m, root, free),
        free.len() > 0,
        idx_ok(i0),
        !valid(e2(m, root, i0)),
    ensures
        ({
            let f = free.last();
            let m2 = install(m, f, root, i0);
            &&& m2.len() == m.len()
            &&& forall|va: u64| #[trigger] walk(m2, root, va) == walk(m, root, va)
            &&& pt_inv(m2, root, free.drop_last())
            &&& has1(m2, root, i0)
            &&& t1(m2, root, i0) == f
            &&& forall|j: int| idx_ok(j) ==> !valid(#[trigger] e1(m2, root, i0, j))
        }),
{
    let o = choose|o: Map<u64, Pos>| owner_ok(m, root, free, o);
    let f = free.last();
    let m2 = install(m, f, root, i0);
    let free2 = free.drop_last();
    assert(frame_ok(m.len(), f) && !o.contains_key(f));
    lemma_pte_bits();
    assert forall|i: int| idx_ok(i) implies #[trigger] e2(m2, root, i) == if i == i0 {
        pte(f, PAGE_V)
    } else {
        e2(m, root, i)
    } by {
        lemma_install_reads(m, f, root, i0, root, i);
    }
    assert forall|j: int| idx_ok(j) implies !valid(#[trigger] e1(m2, root, i0, j)) by {
        lemma_install_reads(m, f, root, i0, f, j);
    }
    assert forall|i: int, j: int| has1(m, root, i) && idx_ok(j) implies #[trigger] e1(m2, root, i, j) == e1(
        m,
        root,
        i,
        j,
    ) by {
        assert(o.contains_key(t1(m, root, i)));
        lemma_install_reads(m, f, root, i0, t1(m, root, i), j);
    }
    assert forall|i: int, j: int, k: int| has0(m, root, i, j) && idx_ok(k) implies #[trigger] e0(m2, root, i, j, k)
        == e0(m, root, i, j, k) by {
        assert(e1(m2, root, i, j) == e1(m, root, i, j));
        assert(o.contains_key(t0(m, root, i, j)));
        lemma_install_reads(m, f, root, i0, t0(m, root, i, j), k);
    }
    assert forall|va: u64| #[trigger] walk(m2, root, va) == walk(m, root, va) by {
        let (i, j, k) = (vpn2(va), vpn1(va), vpn0(va));
        assert(e2(m2, root, i) == if i == i0 { pte(f, PAGE_V) } else { e2(m, root, i) });
        if i != i0 && has1(m, root, i) {
            assert(e1(m2, root, i, j) == e1(m, root, i, j));
            if has0(m, root, i, j) {
                assert(e0(m2, root, i, j, k) == e0(m, root, i, j, k));
            }
        }
    }
    let o2 = o.insert(f, (1int, i0, 0int));
    assert forall|i: int| #[trigger] has1(m2, root, i) implies o2.contains_key(t1(m2, root, i)) && o2[t1(m2, root, i)]
        == (1int, i, 0int) by {
        assert(e2(m2, root, i) == if i == i0 { pte(f, PAGE_V) } else { e2(m, root, i) });
        if i != i0 {
            assert(has1(m, root, i));
        }
    }
    assert forall|i: int, j: int| #[trigger] has0(m2, root, i, j) implies o2.contains_key(t0(m2, root, i, j))
        && o2[t0(m2, root, i, j)] == (0int, i, j) by {
        assert(e2(m2, root, i) == if i == i0 { pte(f, PAGE_V) } else { e2(m, root, i) });
        assert(i != i0);
        assert(has1(m, root, i));
        assert(e1(m2, root, i, j) == e1(m, root, i, j));
        assert(has0(m, root, i, j));
    }
    assert forall|a: int| 0 <= a < free2.len() implies frame_ok(m2.len(), #[trigger] free2[a]) && !o2.contains_key(
        free2[a],
    ) by {
        assert(free2[a] == free[a]);
        assert(free[a] != free[free.len() - 1]);
    }
    assert forall|a: int, b: int| 0 <= a < free2.len() && 0 <= b < free2.len() && a != b implies #[trigger] free2[a]
        != #[trigger] free2[b] by {
        assert(free2[a] == free[a] && free2[b] == free[b]);
    }
    assert(owner_ok(m2, root, free2, o2));
}

/// Linking a fresh L0 table under an empty slot `(i0, j0)` of an existing L1
/// table changes no translation.
proof fn lemma_install_l1(m: Seq<u64>, root: u64, free: Seq<u64>, i0: int, j0: int)
    requires
        pt_inv(m, root, free),
        free.len() > 0,
        has1(m, root, i0),
        idx_ok(j0),
        !valid(e1(m, root, i0, j0)),
    ensures
        ({
            let f = free.last();
            let m2 = install(m, f, t1(m, root, i0), j0);
            &&& m2.len() == m.len()
            &&& forall|va: u64| #[trigger] walk(m2, root, va) == walk(m, root, va)
            &&& pt_inv(m2, root, free.drop_last())
            &&& has0(m2, root, i0, j0)
            &&& t1(m2, root, i0) == t1(m, root, i0)
            &&& t0(m2, root, i0, j0) == f
        }),
{
    let o = choose|o: Map<u64, Pos>| owner_ok(m, root, free, o);
    let f = free.last();
    let p = t1(m, root, i0);
    let m2 = install(m, f, p, j0);
    let free2 = free.drop_last();
    assert(frame_ok(m.len(), f) && !o.contains_key(f));
    assert(o.contains_key(p) && o[p] == (1int, i0, 0int));
    lemma_pte_bits();
    assert forall|i: int| idx_ok(i) implies #[trigger] e2(m2, root, i) == e2(m, root, i) by {
        lemma_install_reads(m, f, p, j0, root, i);
    }
    assert forall|i: int, j: int| has1(m, root, i) && idx_ok(j) implies #[trigger] e1(m2, root, i, j) == if i == i0
        && j == j0 {
        pte(f, PAGE_V)
    } else {
        e1(m, root, i, j)
    } by {
        assert(e2(m2, root, i) == e2(m, root, i));
        assert(o.contains_key(t1(m, root, i)));
        lemma_install_reads(m, f, p, j0, t1(m, root, i), j);
    }
    assert forall|k: int| idx_ok(k) implies !valid(#[trigger] e0(m2, root, i0, j0, k)) by {
        assert(e1(m2, root, i0, j0) == pte(f, PAGE_V));
        lemma_install_reads(m, f, p, j0, f, k);
    }
    assert forall|i: int, j: int, k: int| has0(m, root, i, j) && idx_ok(k) implies #[trigger] e0(m2, root, i, j, k)
        == e0(m, root, i, j, k) by {
        assert(e1(m2, root, i, j) == e1(m, root, i, j));
        assert(o.contains_key(t0(m, root, i, j)));
        lemma_install_reads(m, f, p, j0, t0(m, root, i, j), k);
    }
    assert forall|va: u64| #[trigger] walk(m2, root, va) == walk(m, root, va) by {
        let (i, j, k) = (vpn2(va), vpn1(va), vpn0(va));
        assert(e2(m2, root, i) == e2(m, root, i));
        if has1(m, root, i) {
            assert(e1(m2, root, i, j) == if i == i0 && j == j0 { pte(f, PAGE_V) } else { e1(m, root, i, j) });
            if i == i0 && j == j0 {
                assert(!valid(e0(m2, root, i, j, k)));
            } else if has0(m, root, i, j) {
                assert(e0(m2, root, i, j, k) == e0(m, root, i, j, k));
            }
        }
    }
    let o2 = o.insert(f, (0int, i0, j0));
    assert forall|i: int| #[trigger] has1(m2, root, i) implies o2.contains_key(t1(m2, root, i)) && o2[t1(m2, root, i)]
        == (1int, i, 0int) by {
        assert(e2(m2, root, i) == e2(m, root, i));
        assert(has1(m, root, i));
        assert(o.contains_key(t1(m, root, i)));
    }
    assert forall|i: int, j: int| #[trigger] has0(m2, root, i, j) implies o2.contains_key(t0(m2, root, i, j))
        && o2[t0(m2, root, i, j)] == (0int, i, j) by {
        assert(e2(m2, root, i) == e2(m, root, i));
        assert(has1(m, root, i));
        assert(e1(m2, root, i, j) == if i == i0 && j == j0 { pte(f, PAGE_V) } else { e1(m, root, i, j) });
        if !(i == i0 && j == j0) {
            assert(has0(m, root, i, j));
            assert(o.contains_key(t0(m, root, i, j)));
        }
    }
    assert forall|a: int| 0 <= a < free2.len() implies frame_ok(m2.len(), #[trigger] free2[a]) && !o2.contains_key(
        free2[a],
    ) by {
        assert(free2[a] == free[a]);
        assert(free[a] != free[free.len() - 1]);
    }
    assert forall|a: int, b: int| 0 <= a < free2.len() && 0 <= b < free2.len() && a != b implies #[trigger] free2[a]
        != #[trigger] free2[b] by {
        assert(free2[a] == free[a] && free2[b] == free[b]);
    }
    assert(owner_ok(m2, root, free2, o2));
}

/// Writing entry `k0` of the L0 table at `(i0, j0)` changes that page's
/// translation only.
proof fn lemma_write_leaf(m: Seq<u64>, root: u64, free: Seq<u64>, i0: int, j0: int, k0: int, v: u64)
    requires
        pt_inv(m, root, free),
        has0(m, root, i0, j0),
        idx_ok(k0),
        valid(v),
    ensures
        ({
            let m2 = with_entry(m, t0(m, root, i0, j0), k0, v);
            &&& m2.len() == m.len()
            &&& pt_inv(m2, root, free)
            &&& has0(m2, root, i0, j0)
            &&& t0(m2, root, i0, j0) == t0(m, root, i0, j0)
            &&& forall|va: u64| #[trigger] walk(m2, root, va) == if vpn2(va) == i0 && vpn1(va) == j0 && vpn0(va) == k0 {
                Some((v, 0int))
            } else {
                walk(m, root, va)
            }
        }),
{
    let o = choose|o: Map<u64, Pos>| owner_ok(m, root, free, o);
    let p = t0(m, root, i0, j0);
    let m2 = with_entry(m, p, k0, v);
    assert(o.contains_key(p) && o[p] == (0int, i0, j0));
    assert forall|i: int| idx_ok(i) implies #[trigger] e2(m2, root, i) == e2(m, root, i) by {
        lemma_write_reads(m, p, k0, v, root, i);
    }
    assert forall|i: int, j: int| has1(m, root, i) && idx_ok(j) implies #[trigger] e1(m2, root, i, j) == e1(
        m,
        root,
        i,
        j,
    ) by {
        assert(e2(m2, root, i) == e2(m, root, i));
        assert(o.contains_key(t1(m, root, i)));
        lemma_write_reads(m, p, k0, v, t1(m, root, i), j);
    }
    assert forall|i: int, j: int, k: int| has0(m, root, i, j) && idx_ok(k) implies #[trigger] e0(m2, root, i, j, k)
        == if i == i0 && j == j0 && k == k0 {
        v
    } else {
        e0(m, root, i, j, k)
    } by {
        assert(e1(m2, root, i, j) == e1(m, root, i, j));
        assert(o.contains_key(t0(m, root, i, j)));
        lemma_write_reads(m, p, k0, v, t0(m, root, i, j), k);
    }
    assert forall|va: u64| #[trigger] walk(m2, root, va) == if vpn2(va) == i0 && vpn1(va) == j0 && vpn0(va) == k0 {
        Some((v, 0int))
    } else {
        walk(m, root, va)
    } by {
        lemma_pte_bits();
        let (i, j, k) = (vpn2(va), vpn1(va), vpn0(va));
        assert(e2(m2, root, i) == e2(m, root, i));
        if has1(m, root, i) {
            assert(e1(m2, root, i, j) == e1(m, root, i, j));
            if has0(m, root, i, j) {
                assert(e0(m2, root, i, j, k) == if i == i0 && j == j0 && k == k0 { v } else { e0(m, root, i, j, k) });
            }
        }
    }
    assert forall|i: int| #[trigger] has1(m2, root, i) implies o.contains_key(t1(m2, root, i)) && o[t1(m2, root, i)]
        == (1int, i, 0int) by {
        assert(e2(m2, root, i) == e2(m, root, i));
        assert(has1(m, root, i));
    }
    assert forall|i: int, j: int| #[trigger] has0(m2, root, i, j) implies o.contains_key(t0(m2, root, i, j))
        && o[t0(m2, root, i, j)] == (0int, i, j) by {
        assert(e2(m2, root, i) == e2(m, root, i));
        assert(has1(m, root, i));
        assert(e1(m2, root, i, j) == e1(m, root, i, j));
        assert(has0(m, root, i, j));
    }
    assert(owner_ok(m2, root, free, o));
    assert(e2(m2, root, i0) == e2(m, root, i0));
    assert(e1(m2, root, i0, j0) == e1(m, root, i0, j0));
}

/// Map the 4 KiB page at `va` to `pa_` in the Sv39 tree rooted at
/// `root_phys`, creating missing L1/L0 tables from `frames`. Fails in the
/// kernel slots 0-3, under a 1 GiB or 2 MiB leaf, and when the frames run
/// out (tables created before stay linked). No other page's translation
/// changes.
#[verifier::spinoff_prover]
pub fn map_user_page(mem: &mut PhysMem, frames: &mut FrameAllocator, root_phys: u64, va: u64, pa_: u64, prot: u32) -> (ok: bool)
    requires
        pt_inv(old(mem)@, root_phys, old(frames)@),
    ensures
        final(mem)@.len() == old(mem)@.len(),
        pt_inv(final(mem)@, root_phys, final(frames)@),
        ok == (vpn2(va) >= 4 && !blocked_by_leaf(old(mem)@, root_phys, va) && frames_needed(old(mem)@, root_phys, va)
            <= old(frames)@.len()),
        forall|vb: u64| #[trigger] walk(final(mem)@, root_phys, vb) == if ok && same_page(va, vb) {
            Some((pte(pa_, leaf_flags(prot)), 0int))
        } else {
            walk(old(mem)@, root_phys, vb)
        },
        final(frames)@ == old(frames)@.take(
            old(frames)@.len() - frames_taken(old(mem)@, root_phys, va, old(frames)@.len() as int),
        ),
        !ok && frames_taken(old(mem)@, root_phys, va, old(frames)@.len() as int) == 0 ==> final(mem)@ == old(mem)@,
        ok && frames_needed(old(mem)@, root_phys, va) == 0 ==> final(mem)@ == with_entry(
            old(mem)@,
            t0(old(mem)@, root_phys, vpn2(va), vpn1(va)),
            vpn0(va),
            pte(pa_, leaf_flags(prot)),
        ),
{
    let ghost m0 = mem@;
    let ghost fr0 = frames@;
    let root = root_phys;
    let i: u64 = (va >> 30u64) & 0x1FF;
    let j: u64 = (va >> 21u64) & 0x1FF;
    let k: u64 = (va >> 12u64) & 0x1FF;
    proof {
        lemma_pte_bits();
        lemma_inv_frames(m0, root, fr0);
        assert(fr0.take(fr0.len() as int) =~= fr0);
        assert(i == vpn2(va) && j == vpn1(va) && k == vpn0(va));
        assert(i < 512 && j < 512 && k < 512);
    }
    if i < USER_FIRST_SLOT {
        return false;
    }
    let r: u64 = if prot & PROT_READ != 0 { PAGE_R } else { 0 };
    let w: u64 = if prot & PROT_WRITE != 0 { PAGE_W } else { 0 };
    let x: u64 = if prot & PROT_EXEC != 0 { PAGE_X } else { 0 };
    let u: u64 = if prot & PROT_USER != 0 { PAGE_U } else { 0 };
    let flags = PAGE_V | PAGE_A | PAGE_D | r | w | x | u;
    let leaf_e = ((pa_ >> 12u64) << 10u64) | flags;
    assert(flags & 1 != 0) by (bit_vector)
        requires
            flags == 0x1u64 | 0x40u64 | 0x80u64 | r | w | x | u,
    ;

    // Root slot: the L1 table.
    let e = mem.read_entry(root, i);
    let l1: u64;
    if e & PAGE_V != 0 {
        if e & LEAF_BITS != 0 {
            return false;
        }
        l1 = (e >> 10u64) << 12u64;
    } else {
        match frames.alloc_page() {
            None => {
                return false;
            },
            Some(f) => {
                proof {
                    lemma_install_root(m0, root, fr0, i as int);
                    assert(fr0.take(fr0.len() - 1) =~= fr0.drop_last());
                }
                mem.zero_frame(f);
                mem.write_entry(root, i, ((f >> 12u64) << 10u64) | PAGE_V);
                l1 = f;
            },
        }
    }
    let ghost m1 = mem@;
    let ghost fr1 = frames@;
    let ghost n1: int = if valid(e2(m0, root, i as int)) { 0 } else { 1 };
    assert(pt_inv(m1, root, fr1));
    assert(forall|vb: u64| #[trigger] walk(m1, root, vb) == walk(m0, root, vb));
    assert(has1(m1, root, i as int) && t1(m1, root, i as int) == l1);
    assert(fr1 == fr0.take(fr0.len() - n1));
    assert(valid(e2(m0, root, i as int)) ==> m1 == m0);
    assert(!valid(e2(m0, root, i as int)) ==> forall|jj: int| idx_ok(jj) ==> !valid(#[trigger] e1(m1, root, i as int, jj)));

    // L1 slot: the L0 table.
    proof {
        lemma_inv_frames(m1, root, fr1);
    }
    let e = mem.read_entry(l1, j);
    let l0: u64;
    if e & PAGE_V != 0 {
        if e & LEAF_BITS != 0 {
            return false;
        }
        l0 = (e >> 10u64) << 12u64;
    } else {
        match frames.alloc_page() {
            None => {
                return false;
            },
            Some(f) => {
                proof {
                    lemma_install_l1(m1, root, fr1, i as int, j as int);
                    assert(fr0.take(fr0.len() - n1 - 1) =~= fr1.drop_last());
                }
                mem.zero_frame(f);
                mem.write_entry(l1, j, ((f >> 12u64) << 10u64) | PAGE_V);
                l0 = f;
            },
        }
    }
    let ghost m2 = mem@;
    proof {
        lemma_inv_frames(m2, root, frames@);
        lemma_write_leaf(m2, root, frames@, i as int, j as int, k as int, leaf_e);
    }
    mem.write_entry(l0, k, leaf_e);
    true
}

/// Mapping a page again exactly as it is mapped needs no frame and stores
/// the word already there: with `map_user_page`'s contract, a second call
/// with the same arguments succeeds, takes no frame and leaves every word of
/// memory as it was.
pub proof fn remap_changes_nothing(m: Seq<u64>, root: u64, free: Seq<u64>, va: u64, pa_: u64, prot: u32)
    requires
        pt_inv(m, root, free),
        vpn2(va) >= 4,
        walk(m, root, va) == Some((pte(pa_, leaf_flags(prot)), 0int)),
    ensures
        frames_needed(m, root, va) == 0,
        !blocked_by_leaf(m, root, va),
        frames_taken(m, root, va, free.len() as int) == 0,
        with_entry(m, t0(m, root, vpn2(va), vpn1(va)), vpn0(va), pte(pa_, leaf_flags(prot))) == m,
{
    lemma_pte_bits();
    lemma_inv_frames(m, root, free);
    let (i, j, k) = (vpn2(va), vpn1(va), vpn0(va));
    assert(has0(m, root, i, j));
    let t = t0(m, root, i, j);
    assert(frame_ok(m.len(), t));
    assert(with_entry(m, t, k, pte(pa_, leaf_flags(prot))) =~= m);
}

/// Where the first user code page and the stack page sit in the tree.
proof fn lemma_user_vas()
    ensures
        vpn2(USER_CODE_VA) == 4 && vpn1(USER_CODE_VA) == 0 && vpn0(USER_CODE_VA) == 1,
        vpn2(USER_STACK_PAGE_VA) == 4 && vpn1(USER_STACK_PAGE_VA) == 0 && vpn0(USER_STACK_PAGE_VA) == 15,
{
    assert((USER_CODE_VA >> 30u64) & 0x1FF == 4 && (USER_CODE_VA >> 21u64) & 0x1FF == 0 && (USER_CODE_VA >> 12u64)
        & 0x1FF == 1 && (USER_STACK_PAGE_VA >> 30u64) & 0x1FF == 4 && (USER_STACK_PAGE_VA >> 21u64) & 0x1FF == 0
        && (USER_STACK_PAGE_VA >> 12u64) & 0x1FF == 15) by (bit_vector);
}

/// An empty address space (what `create_empty_process_page_table` gives)
/// into which `map_user_page` maps the code page at `USER_CODE_VA` (read,
/// write, execute, user) and then the stack page at `USER_STACK_PAGE_VA`
/// (read, write, user) translates every address exactly as the space
/// `create_process_page_table` builds for the same pages. Both pages lie in
/// user slots, where mapping is allowed.
pub proof fn mapped_empty_space_is_process_space(
    m0: Seq<u64>,
    kroot: u64,
    m1: Seq<u64>,
    m2: Seq<u64>,
    m3: Seq<u64>,
    root: u64,
    code: u64,
    stack: u64,
)
    requires
        forall|va: u64| #[trigger] walk(m1, root, va) == if vpn2(va) < 4 { walk(m0, kroot, va) } else { None },
        forall|va: u64| #[trigger] walk(m2, root, va) == if same_page(USER_CODE_VA, va) {
            Some((pte(code, leaf_flags(PROT_READ | PROT_WRITE | PROT_EXEC | PROT_USER)), 0int))
        } else {
            walk(m1, root, va)
        },
        forall|va: u64| #[trigger] walk(m3, root, va) == if same_page(USER_STACK_PAGE_VA, va) {
            Some((pte(stack, leaf_flags(PROT_READ | PROT_WRITE | PROT_USER)), 0int))
        } else {
            walk(m2, root, va)
        },
    ensures
        vpn2(USER_CODE_VA) >= 4,
        vpn2(USER_STACK_PAGE_VA) >= 4,
        forall|va: u64| #[trigger] walk(m3, root, va) == process_walk(m0, kroot, code, stack, va),
{
    lemma_user_vas();
    assert((1u32 | 2u32 | 4u32 | 8u32) == 15u32 && (15u32 & 1u32) != 0 && (15u32 & 2u32) != 0 && (15u32 & 4u32) != 0
        && (15u32 & 8u32) != 0 && (1u64 | 0x40u64 | 0x80u64 | 2u64 | 4u64 | 8u64 | 0x10u64) == 0xDFu64 && (1u32 | 2u32
        | 8u32) == 11u32 && (11u32 & 1u32) != 0 && (11u32 & 2u32) != 0 && (11u32 & 4u32) == 0 && (11u32 & 8u32) != 0
        && (1u64 | 0x40u64 | 0x80u64 | 2u64 | 4u64 | 0u64 | 0x10u64) == 0xD7u64) by (bit_vector);
    assert(leaf_flags(PROT_READ | PROT_WRITE | PROT_EXEC | PROT_USER) == CODE_FLAGS);
    assert(leaf_flags(PROT_READ | PROT_WRITE | PROT_USER) == STACK_FLAGS);
    assert forall|va: u64| #[trigger] walk(m3, root, va) == process_walk(m0, kroot, code, stack, va) by {
        assert(walk(m1, root, va) == if vpn2(va) < 4 { walk(m0, kroot, va) } else { None });
        assert(walk(m2, root, va) == if same_page(USER_CODE_VA, va) {
            Some((pte(code, leaf_flags(PROT_READ | PROT_WRITE | PROT_EXEC | PROT_USER)), 0int))
        } else {
            walk(m1, root, va)
        });
    }
}

/// One 4 KiB table of 512 entries.
pub struct PageTable {
    pub entries: [u64; 512],
}

impl PageTable {
    pub fn empty() -> (t: PageTable)
        ensures
            forall|i: int| 0 <= i < 512 ==> #[trigger] t.entries[i] == 0,
    {
        PageTable { entries: [0u64; 512] }
    }
}

/// Kernel root entry `i`: a 1 GiB leaf mapping GiB `i` onto itself,
/// readable, writable, executable, accessed and dirty, no `PAGE_U`.
pub open spec fn kernel_leaf(i: u64) -> u64 {
    ((i << 18u64) << 10u64) | PAGE_V | PAGE_R | PAGE_W | PAGE_X | PAGE_A | PAGE_D
}

/// The SATP value selecting Sv39 with the root table at `root`.
pub open spec fn spec_satp(root: u64) -> u64 {
    SATP_SV39 | (root >> 12u64)
}

pub fn satp(root: u64) -> (v: u64)
    ensures
        v == spec_satp(root),
{
    SATP_SV39 | (root >> 12u64)
}

/// Write the kernel's 1 GiB identity leaves into root slots 0-3 and return
/// the SATP value enabling the map.
pub fn init(mem: &mut PhysMem, root: u64) -> (satp_value: u64)
    requires
        frame_ok(old(mem)@.len(), root),
    ensures
        satp_value == spec_satp(root),
        final(mem)@.len() == old(mem)@.len(),
        forall|i: int| 0 <= i < 4 ==> #[trigger] ent(final(mem)@, root, i) == kernel_leaf(i as u64),
        forall|w: int| 0 <= w < old(mem)@.len() && !(root / 8 <= w < root / 8 + 4) ==> #[trigger] final(mem)@[w] == old(
            mem,
        )@[w],
        forall|va: u64| va < 0x1_0000_0000 ==> #[trigger] walk(final(mem)@, root, va) == Some(
            (kernel_leaf((va >> 30u64) & 0x1FF), 2int),
        ),
{
    let mut i: u64 = 0;
    while i < 4
        invariant
            frame_ok(old(mem)@.len(), root),
            i <= 4,
            mem@.len() == old(mem)@.len(),
            forall|h: int| 0 <= h < i ==> #[trigger] ent(mem@, root, h) == kernel_leaf(h as u64),
            forall|w: int| 0 <= w < old(mem)@.len() && !(root / 8 <= w < root / 8 + i) ==> #[trigger] mem@[w] == old(
                mem,
            )@[w],
        decreases 4 - i,
    {
        let ppn = i << 18u64;
        let v = (ppn << 10u64) | PAGE_V | PAGE_R | PAGE_W | PAGE_X | PAGE_A | PAGE_D;
        let ghost before = mem@;
        mem.write_entry(root, i, v);
        proof {
            assert forall|h: int| 0 <= h < i + 1 implies #[trigger] ent(mem@, root, h) == kernel_leaf(h as u64) by {
                lemma_write_reads(before, root, i as int, v, root, h);
            }
        }
        i = i + 1;
    }
    proof {
        assert forall|va: u64| va < 0x1_0000_0000 implies #[trigger] walk(mem@, root, va) == Some(
            (kernel_leaf((va >> 30u64) & 0x1FF), 2int),
        ) by {
            let g = (va >> 30u64) & 0x1FF;
            assert(g < 4 && kernel_leaf(g) & 1 != 0 && kernel_leaf(g) & 0xE != 0) by (bit_vector)
                requires
                    va < 0x1_0000_0000,
                    g == (va >> 30u64) & 0x1FF,
            ;
            assert(ent(mem@, root, g as int) == kernel_leaf((g as int) as u64));
        }
    }
    satp(root)
}

/// A root whose slots 0-3 hold leaves and whose other slots are invalid is
/// a well-formed tree for any free list of distinct frames other than it.
pub proof fn lemma_kernel_root_inv(m: Seq<u64>, root: u64, free: Seq<u64>)
    requires
        frame_ok(m.len(), root),
        forall|i: int| 0 <= i < 4 ==> leaf(#[trigger] ent(m, root, i)),
        forall|i: int| 4 <= i < 512 ==> !valid(#[trigger] ent(m, root, i)),
        forall|a: int| 0 <= a < free.len() ==> frame_ok(m.len(), #[trigger] free[a]) && free[a] != root,
        forall|a: int, b: int| 0 <= a < free.len() && 0 <= b < free.len() && a != b ==> #[trigger] free[a] != #[trigger] free[b],
    ensures
        pt_inv(m, root, free),
{
    let o = Map::<u64, Pos>::empty().insert(root, (2int, 0int, 0int));
    assert forall|i: int| #[trigger] has1(m, root, i) implies false by {
        if i < 4 {
            assert(leaf(ent(m, root, i)));
        } else {
            assert(!valid(ent(m, root, i)));
        }
    }
    assert forall|i: int, j: int| #[trigger] has0(m, root, i, j) implies false by {
        assert(!has1(m, root, i));
    }
    assert(owner_ok(m, root, free, o));
}

/// A change of memory that leaves every entry of every table of the tree
/// alone changes no translation and keeps the tree well formed with any
/// prefix of its free list.
proof fn lemma_tables_kept(m: Seq<u64>, m2: Seq<u64>, root: u64, free: Seq<u64>, n: int, o: Map<u64, Pos>)
    requires
        owner_ok(m, root, free, o),
        m2.len() == m.len(),
        0 <= n <= free.len(),
        forall|t: u64, x: int| o.contains_key(t) && idx_ok(x) ==> #[trigger] ent(m2, t, x) == ent(m, t, x),
    ensures
        forall|va: u64| #[trigger] walk(m2, root, va) == walk(m, root, va),
        owner_ok(m2, root, free.take(n), o),
{
    let free2 = free.take(n);
    lemma_pte_bits();
    assert forall|i: int| idx_ok(i) implies #[trigger] e2(m2, root, i) == e2(m, root, i) by {
        assert(ent(m2, root, i) == ent(m, root, i));
    }
    assert forall|i: int, j: int| has1(m, root, i) && idx_ok(j) implies #[trigger] e1(m2, root, i, j) == e1(
        m,
        root,
        i,
        j,
    ) by {
        assert(o.contains_key(t1(m, root, i)));
        assert(ent(m2, t1(m, root, i), j) == ent(m, t1(m, root, i), j));
    }
    assert forall|i: int, j: int, k: int| has0(m, root, i, j) && idx_ok(k) implies #[trigger] e0(m2, root, i, j, k)
        == e0(m, root, i, j, k) by {
        assert(e1(m2, root, i, j) == e1(m, root, i, j));
        assert(o.contains_key(t0(m, root, i, j)));
        assert(ent(m2, t0(m, root, i, j), k) == ent(m, t0(m, root, i, j), k));
    }
    assert forall|va: u64| #[trigger] walk(m2, root, va) == walk(m, root, va) by {
        let (i, j, k) = (vpn2(va), vpn1(va), vpn0(va));
        assert(e2(m2, root, i) == e2(m, root, i));
        if has1(m, root, i) {
            assert(e1(m2, root, i, j) == e1(m, root, i, j));
            if has0(m, root, i, j) {
                assert(e0(m2, root, i, j, k) == e0(m, root, i, j, k));
            }
        }
    }
    assert forall|i: int| #[trigger] has1(m2, root, i) implies o.contains_key(t1(m2, root, i)) && o[t1(m2, root, i)]
        == (1int, i, 0int) by {
        assert(e2(m2, root, i) == e2(m, root, i));
        assert(has1(m, root, i));
    }
    assert forall|i: int, j: int| #[trigger] has0(m2, root, i, j) implies o.contains_key(t0(m2, root, i, j))
        && o[t0(m2, root, i, j)] == (0int, i, j) by {
        assert(e2(m2, root, i) == e2(m, root, i));
        assert(has1(m, root, i));
        assert(e1(m2, root, i, j) == e1(m, root, i, j));
        assert(has0(m, root, i, j));
    }
    assert forall|a: int| 0 <= a < free2.len() implies frame_ok(m2.len(), #[trigger] free2[a]) && !o.contains_key(
        free2[a],
    ) by {
        assert(free2[a] == free[a]);
    }
    assert forall|a: int, b: int| 0 <= a < free2.len() && 0 <= b < free2.len() && a != b implies #[trigger] free2[a]
        != #[trigger] free2[b] by {
        assert(free2[a] == free[a] && free2[b] == free[b]);
    }
}

/// A well-formed tree stays well formed with a prefix of its free list.
pub proof fn lemma_inv_prefix(m: Seq<u64>, root: u64, free: Seq<u64>, n: int)
    requires
        pt_inv(m, root, free),
        0 <= n <= free.len(),
    ensures
        pt_inv(m, root, free.take(n)),
{
    let o = choose|o: Map<u64, Pos>| owner_ok(m, root, free, o);
    lemma_tables_kept(m, m, root, free, n, o);
}

/// Memory `m2` holds a fresh root in the last free frame: slots 0-3 copied
/// from the kernel root, the rest empty, nothing else changed. The kernel
/// tree is unchanged, and the new tree translates exactly what the kernel
/// slots translate.
pub proof fn lemma_fresh_root(m: Seq<u64>, m2: Seq<u64>, kroot: u64, free: Seq<u64>)
    requires
        pt_inv(m, kroot, free),
        free.len() > 0,
        m2.len() == m.len(),
        forall|x: int| idx_ok(x) ==> #[trigger] ent(m2, free.last(), x) == if x < 4 { ent(m, kroot, x) } else { 0 },
        forall|t: u64, x: int| frame_ok(m.len(), t) && t != free.last() && idx_ok(x) ==> #[trigger] ent(m2, t, x) == ent(
            m,
            t,
            x,
        ),
    ensures
        pt_inv(m2, kroot, free.drop_last()),
        forall|va: u64| #[trigger] walk(m2, kroot, va) == walk(m, kroot, va),
        pt_inv(m2, free.last(), free.drop_last()),
        forall|va: u64| #[trigger] walk(m2, free.last(), va) == if vpn2(va) < 4 { walk(m, kroot, va) } else { None },
        forall|x: int| 4 <= x < 512 ==> !valid(#[trigger] e2(m2, free.last(), x)),
{
    let o = choose|o: Map<u64, Pos>| owner_ok(m, kroot, free, o);
    let f = free.last();
    let free2 = free.drop_last();
    lemma_pte_bits();
    assert(frame_ok(m.len(), f) && !o.contains_key(f));
    assert forall|t: u64, x: int| o.contains_key(t) && idx_ok(x) implies #[trigger] ent(m2, t, x) == ent(m, t, x) by {
        assert(frame_ok(m.len(), t));
    }
    lemma_tables_kept(m, m2, kroot, free, free.len() - 1, o);
    assert(free.take(free.len() - 1) =~= free.drop_last());
    assert forall|i: int| 0 <= i < 4 && #[trigger] has1(m, kroot, i) implies o.contains_key(t1(m, kroot, i)) by {}
    assert forall|j: int, i: int| 0 <= i < 4 && has1(m, kroot, i) && idx_ok(j) implies #[trigger] e1(m2, f, i, j) == e1(
        m,
        kroot,
        i,
        j,
    ) by {
        assert(e2(m2, f, i) == e2(m, kroot, i));
        assert(o.contains_key(t1(m, kroot, i)));
        assert(ent(m2, t1(m, kroot, i), j) == ent(m, t1(m, kroot, i), j));
    }
    assert forall|i: int, j: int, k: int| 0 <= i < 4 && has0(m, kroot, i, j) && idx_ok(k) implies #[trigger] e0(
        m2,
        f,
        i,
        j,
        k,
    ) == e0(m, kroot, i, j, k) by {
        assert(e1(m2, f, i, j) == e1(m, kroot, i, j));
        assert(o.contains_key(t0(m, kroot, i, j)));
        assert(ent(m2, t0(m, kroot, i, j), k) == ent(m, t0(m, kroot, i, j), k));
    }
    assert forall|va: u64| #[trigger] walk(m2, f, va) == if vpn2(va) < 4 { walk(m, kroot, va) } else { None } by {
        let (i, j, k) = (vpn2(va), vpn1(va), vpn0(va));
        assert(e2(m2, f, i) == if i < 4 { e2(m, kroot, i) } else { 0 });
        if i < 4 && has1(m, kroot, i) {
            assert(e1(m2, f, i, j) == e1(m, kroot, i, j));
            if has0(m, kroot, i, j) {
                assert(e0(m2, f, i, j, k) == e0(m, kroot, i, j, k));
            }
        }
    }
    let o2 = o.insert(f, (2int, 0int, 0int));
    assert forall|i: int| #[trigger] has1(m2, f, i) implies o2.contains_key(t1(m2, f, i)) && o2[t1(m2, f, i)] == (
    1int, i, 0int) by {
        assert(e2(m2, f, i) == if i < 4 { e2(m, kroot, i) } else { 0 });
        assert(i < 4 && has1(m, kroot, i));
        assert(o.contains_key(t1(m, kroot, i)));
    }
    assert forall|i: int, j: int| #[trigger] has0(m2, f, i, j) implies o2.contains_key(t0(m2, f, i, j)) && o2[t0(
        m2,
        f,
        i,
        j,
    )] == (0int, i, j) by {
        assert(e2(m2, f, i) == if i < 4 { e2(m, kroot, i) } else { 0 });
        assert(i < 4 && has1(m, kroot, i));
        assert(e1(m2, f, i, j) == e1(m, kroot, i, j));
        assert(has0(m, kroot, i, j));
        assert(o.contains_key(t0(m, kroot, i, j)));
    }
    assert forall|t: u64| #[trigger] o2.contains_key(t) implies frame_ok(m2.len(), t) by {
        if t != f {
            assert(o.contains_key(t));
        }
    }
    assert forall|a: int| 0 <= a < free2.len() implies frame_ok(m2.len(), #[trigger] free2[a]) && !o2.contains_key(
        free2[a],
    ) by {
        assert(free2[a] == free[a]);
        assert(free[a] != free[free.len() - 1]);
    }
    assert forall|a: int, b: int| 0 <= a < free2.len() && 0 <= b < free2.len() && a != b implies #[trigger] free2[a]
        != #[trigger] free2[b] by {
        assert(free2[a] == free[a] && free2[b] == free[b]);
    }
    assert(owner_ok(m2, f, free2, o2));
    assert forall|x: int| 4 <= x < 512 implies !valid(#[trigger] e2(m2, f, x)) by {
        assert(e2(m2, f, x) == 0);
    }
}

/// Zero `f` and copy kernel root slots 0-3 into it.
fn copy_kernel_slots(mem: &mut PhysMem, kroot: u64, f: u64)
    requires
        frame_ok(old(mem)@.len(), kroot),
        frame_ok(old(mem)@.len(), f),
        kroot != f,
    ensures
        final(mem)@.len() == old(mem)@.len(),
        forall|x: int| idx_ok(x) ==> #[trigger] ent(final(mem)@, f, x) == if x < 4 { ent(old(mem)@, kroot, x) } else { 0 },
        forall|t: u64, x: int| frame_ok(old(mem)@.len(), t) && t != f && idx_ok(x) ==> #[trigger] ent(final(mem)@, t, x)
            == ent(old(mem)@, t, x),
{
    let ghost m0 = mem@;
    mem.zero_frame(f);
    proof {
        assert forall|t: u64, x: int| frame_ok(m0.len(), t) && t != f && idx_ok(x) implies #[trigger] ent(mem@, t, x)
            == ent(m0, t, x) by {
            lemma_frames_disjoint(t, f, x, 0);
        }
    }
    let mut i: u64 = 0;
    while i < 4
        invariant
            frame_ok(m0.len(), kroot),
            frame_ok(m0.len(), f),
            kroot != f,
            i <= 4,
            mem@.len() == m0.len(),
            forall|x: int| idx_ok(x) ==> #[trigger] ent(mem@, f, x) == if x < i { ent(m0, kroot, x) } else { 0 },
            forall|t: u64, x: int| frame_ok(m0.len(), t) && t != f && idx_ok(x) ==> #[trigger] ent(mem@, t, x) == ent(
                m0,
                t,
                x,
            ),
        decreases 4 - i,
    {
        let v = mem.read_entry(kroot, i);
        let ghost before = mem@;
        mem.write_entry(f, i, v);
        proof {
            assert forall|x: int| idx_ok(x) implies #[trigger] ent(mem@, f, x) == if x < i + 1 {
                ent(m0, kroot, x)
            } else {
                0
            } by {
                lemma_write_reads(before, f, i as int, v, f, x);
            }
            assert forall|t: u64, x: int| frame_ok(m0.len(), t) && t != f && idx_ok(x) implies #[trigger] ent(mem@, t, x)
                == ent(m0, t, x) by {
                lemma_write_reads(before, f, i as int, v, t, x);
            }
        }
        i = i + 1;
    }
}

/// Create an empty user address space: a fresh root sharing the kernel's
/// slots 0-3, every other slot empty. `None` when no frame is free.
pub fn create_empty_process_page_table(mem: &mut PhysMem, frames: &mut FrameAllocator, kernel_root: u64) -> (r: Option<
    u64,
>)
    requires
        pt_inv(old(mem)@, kernel_root, old(frames)@),
    ensures
        final(mem)@.len() == old(mem)@.len(),
        old(frames)@.len() == 0 ==> r is None && final(mem)@ == old(mem)@ && final(frames)@ == old(frames)@,
        old(frames)@.len() > 0 ==> r == Some(old(frames)@.last()) && final(frames)@ == old(frames)@.drop_last(),
        pt_inv(final(mem)@, kernel_root, final(frames)@),
        forall|va: u64| #[trigger] walk(final(mem)@, kernel_root, va) == walk(old(mem)@, kernel_root, va),
        r matches Some(root) ==> pt_inv(final(mem)@, root, final(frames)@) && forall|va: u64| #[trigger] walk(
            final(mem)@,
            root,
            va,
        ) == if vpn2(va) < 4 {
            walk(old(mem)@, kernel_root, va)
        } else {
            None
        },
        r matches Some(root) ==> forall|x: int| idx_ok(x) ==> #[trigger] ent(final(mem)@, root, x) == if x < 4 {
            ent(old(mem)@, kernel_root, x)
        } else {
            0
        },
        r matches Some(root) ==> forall|t: u64, x: int| frame_ok(old(mem)@.len(), t) && t != root && idx_ok(x)
            ==> #[trigger] ent(final(mem)@, t, x) == ent(old(mem)@, t, x),
{
    let ghost m0 = mem@;
    let ghost fr0 = frames@;
    proof {
        lemma_inv_frames(m0, kernel_root, fr0);
    }
    match frames.alloc_page() {
        None => None,
        Some(f) => {
            copy_kernel_slots(mem, kernel_root, f);
            proof {
                lemma_fresh_root(m0, mem@, kernel_root, fr0);
            }
            Some(f)
        },
    }
}

/// Leaf flags of a new process's code page (RWX, user) and stack page (RW,
/// user), both accessed and dirty.
pub const CODE_FLAGS: u64 = 0xDF;
pub const STACK_FLAGS: u64 = 0xD7;

/// What a new process address space translates.
pub open spec fn process_walk(m: Seq<u64>, kroot: u64, code: u64, stack: u64, va: u64) -> Option<(u64, int)> {
    if vpn2(va) < 4 {
        walk(m, kroot, va)
    } else if same_page(va, USER_CODE_VA) {
        Some((pte(code, CODE_FLAGS), 0int))
    } else if same_page(va, USER_STACK_PAGE_VA) {
        Some((pte(stack, STACK_FLAGS), 0int))
    } else {
        None
    }
}

/// Create an isolated address space for one user process: a root sharing
/// the kernel slots, an L1 under slot 4 and an L0 under it, mapping the
/// code page at `USER_CODE_VA` and the stack page below `USER_STACK_TOP`.
/// Takes three frames; with fewer free, `None`, memory untouched and the
/// free frames used up.
#[verifier::spinoff_prover]
pub fn create_process_page_table(
    mem: &mut PhysMem,
    frames: &mut FrameAllocator,
    kernel_root: u64,
    code_phys: u64,
    stack_phys: u64,
) -> (r: Option<u64>)
    requires
        pt_inv(old(mem)@, kernel_root, old(frames)@),
    ensures
        final(mem)@.len() == old(mem)@.len(),
        old(frames)@.len() < 3 ==> r is None && final(mem)@ == old(mem)@ && final(frames)@.len() == 0,
        old(frames)@.len() >= 3 ==> r == Some(old(frames)@.last()) && final(frames)@ == old(frames)@.take(
            old(frames)@.len() - 3,
        ),
        pt_inv(final(mem)@, kernel_root, final(frames)@),
        forall|va: u64| #[trigger] walk(final(mem)@, kernel_root, va) == walk(old(mem)@, kernel_root, va),
        r matches Some(root) ==> pt_inv(final(mem)@, root, final(frames)@) && forall|va: u64| #[trigger] walk(
            final(mem)@,
            root,
            va,
        ) == process_walk(old(mem)@, kernel_root, code_phys, stack_phys, va),
{
    let ghost m0 = mem@;
    let ghost fr0 = frames@;
    proof {
        lemma_inv_frames(m0, kernel_root, fr0);
        lemma_inv_prefix(m0, kernel_root, fr0, 0);
        assert(fr0.take(0) =~= Seq::<u64>::empty());
    }
    let root = match frames.alloc_page() {
        None => {
            assert(frames@ =~= fr0.take(0));
            return None;
        },
        Some(f) => f,
    };
    let l1 = match frames.alloc_page() {
        None => {
            assert(frames@ =~= fr0.take(0));
            return None;
        },
        Some(f) => f,
    };
    let l0 = match frames.alloc_page() {
        None => {
            assert(frames@ =~= fr0.take(0));
            return None;
        },
        Some(f) => f,
    };
    let ghost f1 = fr0.drop_last();
    let ghost f2 = f1.drop_last();
    let ghost f3 = f2.drop_last();
    assert(f3 =~= fr0.take(fr0.len() - 3));
    let ghost o = choose|o: Map<u64, Pos>| owner_ok(m0, kernel_root, fr0, o);
    proof {
        lemma_pte_bits();
    }

    // The root, sharing the kernel slots.
    copy_kernel_slots(mem, kernel_root, root);
    let ghost m1 = mem@;
    proof {
        lemma_fresh_root(m0, m1, kernel_root, fr0);
        lemma_inv_frames(m1, root, f1);
        assert(!valid(e2(m1, root, 4)));
        lemma_install_root(m1, root, f1, 4);
    }
    // Slot 4 → L1 → L0.
    mem.zero_frame(l1);
    mem.write_entry(root, 4, ((l1 >> 12u64) << 10u64) | PAGE_V);
    let ghost m2 = mem@;
    assert(m2 == install(m1, l1, root, 4));
    proof {
        lemma_install_l1(m2, root, f2, 4, 0);
        lemma_inv_frames(m2, root, f2);
    }
    mem.zero_frame(l0);
    mem.write_entry(l1, 0, ((l0 >> 12u64) << 10u64) | PAGE_V);
    let ghost m3 = mem@;
    assert(m3 == install(m2, l0, l1, 0));

    // The code and stack pages.
    let code = ((code_phys >> 12u64) << 10u64) | CODE_FLAGS;
    let stack = ((stack_phys >> 12u64) << 10u64) | STACK_FLAGS;
    proof {
        lemma_inv_frames(m3, root, f3);
        lemma_write_leaf(m3, root, f3, 4, 0, 1, code);
    }
    mem.write_entry(l0, 1, code);
    let ghost m4 = mem@;
    proof {
        lemma_write_leaf(m4, root, f3, 4, 0, 15, stack);
    }
    mem.write_entry(l0, 15, stack);
    proof {
        let m5 = mem@;
        lemma_user_vas();
        assert forall|va: u64| #[trigger] walk(m5, root, va) == process_walk(m0, kernel_root, code_phys, stack_phys, va) by {
            assert(walk(m5, root, va) == if vpn2(va) == 4 && vpn1(va) == 0 && vpn0(va) == 15 {
                Some((stack, 0int))
            } else {
                walk(m4, root, va)
            });
            assert(walk(m4, root, va) == if vpn2(va) == 4 && vpn1(va) == 0 && vpn0(va) == 1 {
                Some((code, 0int))
            } else {
                walk(m3, root, va)
            });
            assert(walk(m3, root, va) == walk(m1, root, va));
        }
        // The kernel tree: only words of the three new frames changed.
        assert forall|t: u64, x: int| o.contains_key(t) && idx_ok(x) implies #[trigger] ent(m5, t, x) == ent(m0, t, x) by {
            assert(!o.contains_key(fr0[fr0.len() - 1]) && !o.contains_key(fr0[fr0.len() - 2]));
            assert(!o.contains_key(fr0[fr0.len() - 3]));
            assert(frame_ok(m0.len(), t));
            assert(ent(m1, t, x) == ent(m0, t, x));
            lemma_frames_disjoint(t, l1, x, 0);
            lemma_frames_disjoint(t, l0, x, 0);
            lemma_frames_disjoint(t, root, x, 0);
        }
        lemma_tables_kept(m0, m5, kernel_root, fr0, fr0.len() - 3, o);
    }
    Some(root)
}

/// Root of the kernel's own tree.
pub fn kernel_page_table_phys(root: u64) -> (r: u64)
    ensures
        r == root,
{
    root
}

/// The SATP value for switching to the tree rooted at `root` (the caller
/// then fences the TLB).
pub fn switch_address_space(root: u64) -> (v: u64)
    ensures
        v == spec_satp(root),
{
    satp(root)
}

/// Guard pages stay canary-only on this architecture: the kernel map has no
/// 4 KiB pages to unmap.
pub fn protect_guard_page(phys: u64) -> (ok: bool)
    ensures
        !ok,
{
    false
}

// ── Cloning a user address space ────────────────────────────────────────

/// The leaf entry for frame `d` that carries the flag bits 9:0 of `e`.
pub open spec fn repte(d: u64, e: u64) -> u64 {
    pte(d, e & 0x3FF)
}

pub proof fn lemma_repte(d: u64, e: u64)
    requires
        d % 4096 == 0,
    ensures
        pa(repte(d, e)) == d,
        valid(repte(d, e)) == valid(e),
        leaf(repte(d, e)) == leaf(e),
{
    assert({
        let r = ((d >> 12u64) << 10u64) | (e & 0x3FF);
        &&& (r >> 10u64) << 12u64 == d
        &&& (r & 1 != 0) == (e & 1 != 0)
        &&& (r & 0xE != 0) == (e & 0xE != 0)
    }) by (bit_vector)
        requires
            d % 4096 == 0,
    ;
}

/// The source L0 table `s` lies in memory, is no free frame, and every page
/// it maps is a frame in memory that is not free either.
pub open spec fn src_l0_ok(ms: Seq<u64>, s: u64, free: Seq<u64>) -> bool {
    &&& frame_ok(ms.len(), s)
    &&& unlisted(free, s)
    &&& forall|k: int| idx_ok(k) && valid(#[trigger] ent(ms, s, k)) ==> frame_ok(ms.len(), pa(ent(ms, s, k)))
        && unlisted(free, pa(ent(ms, s, k)))
}

pub open spec fn src_l1_ok(ms: Seq<u64>, s: u64, free: Seq<u64>) -> bool {
    &&& frame_ok(ms.len(), s)
    &&& unlisted(free, s)
    &&& forall|j: int| idx_ok(j) && valid(#[trigger] ent(ms, s, j)) && !leaf(ent(ms, s, j)) ==> src_l0_ok(
        ms,
        pa(ent(ms, s, j)),
        free,
    )
}

/// Slot `l` of the new L0 table `n` (memory `m`) copies slot `l` of the
/// source L0 table `s` (memory `ms`): an empty slot stays empty, a page gets
/// a frame taken from slots `lo..hi` of `free` that holds the source page's
/// contents, entered with the source entry's flag bits 9:0.
pub open spec fn l0_slot(m: Seq<u64>, n: u64, ms: Seq<u64>, s: u64, free: Seq<u64>, lo: int, hi: int, l: int) -> bool {
    let se = ent(ms, s, l);
    let ne = ent(m, n, l);
    if !valid(se) {
        ne == 0
    } else {
        &&& ne == repte(pa(ne), se)
        &&& frame_ok(m.len(), pa(ne))
        &&& taken_in(free, lo, hi, pa(ne))
        &&& same_frame(m, pa(ne), ms, pa(se))
    }
}

pub open spec fn l0_copy(m: Seq<u64>, n: u64, ms: Seq<u64>, s: u64, free: Seq<u64>, lo: int, hi: int) -> bool {
    &&& frame_ok(m.len(), n)
    &&& taken_in(free, lo, hi, n)
    &&& forall|l: int| idx_ok(l) ==> #[trigger] l0_slot(m, n, ms, s, free, lo, hi, l)
}

/// Slot `k` of a new L1 table: empty stays empty, a 2 MiB leaf is shared,
/// an L0 table is copied and linked with `V` alone.
pub open spec fn l1_slot(m: Seq<u64>, n: u64, ms: Seq<u64>, s: u64, free: Seq<u64>, lo: int, hi: int, k: int) -> bool {
    let se = ent(ms, s, k);
    let ne = ent(m, n, k);
    if !valid(se) {
        ne == 0
    } else if leaf(se) {
        ne == se
    } else {
        ne == pte(pa(ne), PAGE_V) && l0_copy(m, pa(ne), ms, pa(se), free, lo, hi)
    }
}

pub open spec fn l1_copy(m: Seq<u64>, n: u64, ms: Seq<u64>, s: u64, free: Seq<u64>, lo: int, hi: int) -> bool {
    &&& frame_ok(m.len(), n)
    &&& taken_in(free, lo, hi, n)
    &&& forall|k: int| idx_ok(k) ==> #[trigger] l1_slot(m, n, ms, s, free, lo, hi, k)
}

/// Pages mapped by slots `l..512` of the source L0 table `s`.
pub open spec fn l0_pages_from(ms: Seq<u64>, s: u64, l: int) -> nat
    decreases 512 - l,
{
    if l >= 512 {
        0
    } else {
        (if valid(ent(ms, s, l)) { 1nat } else { 0nat }) + l0_pages_from(ms, s, l + 1)
    }
}

/// Frames a copy of the L0 table `s` takes: the table and one per page.
pub open spec fn l0_cost(ms: Seq<u64>, s: u64) -> nat {
    1 + l0_pages_from(ms, s, 0)
}

/// Frames the copies of the L0 tables under slots `k..512` of the source L1
/// table `s` take (2 MiB leaves are shared and take none).
pub open spec fn l1_rest(ms: Seq<u64>, s: u64, k: int) -> nat
    decreases 512 - k,
{
    if k >= 512 {
        0
    } else {
        (if valid(ent(ms, s, k)) && !leaf(ent(ms, s, k)) { l0_cost(ms, pa(ent(ms, s, k))) } else { 0nat })
            + l1_rest(ms, s, k + 1)
    }
}

/// Frames a copy of the L1 table `s` takes.
pub open spec fn l1_cost(ms: Seq<u64>, s: u64) -> nat {
    1 + l1_rest(ms, s, 0)
}

/// Frames the copies of the L1 tables under root slots `i..512` of the source
/// root `s` take: kernel slots 0-3 and 1 GiB leaves are shared and take none.
pub open spec fn root_rest(ms: Seq<u64>, s: u64, i: int) -> nat
    decreases 512 - i,
{
    if i >= 512 {
        0
    } else {
        (if 4 <= i && valid(ent(ms, s, i)) && !leaf(ent(ms, s, i)) { l1_cost(ms, pa(ent(ms, s, i))) } else { 0nat })
            + root_rest(ms, s, i + 1)
    }
}

/// Free frames a clone of the address space rooted at `s` takes: the new
/// root, one frame per copied L1 and L0 table, and one per 4 KiB page.
pub open spec fn clone_cost(ms: Seq<u64>, s: u64) -> nat {
    1 + root_rest(ms, s, 0)
}

proof fn lemma_l0_copy_kept(m: Seq<u64>, m2: Seq<u64>, n: u64, ms: Seq<u64>, s: u64, free: Seq<u64>, lo: int, hi: int, lo2: int, hi2: int)
    requires
        l0_copy(m, n, ms, s, free, lo, hi),
        kept(m, m2, free, lo2, hi2),
        hi2 <= lo || hi <= lo2,
        distinct_frames(free),
    ensures
        l0_copy(m2, n, ms, s, free, lo, hi),
{
    lemma_taken_kept(m, m2, free, lo, hi, lo2, hi2, n);
    assert forall|l: int| idx_ok(l) implies #[trigger] l0_slot(m2, n, ms, s, free, lo, hi, l) by {
        assert(l0_slot(m, n, ms, s, free, lo, hi, l));
        assert(ent(m2, n, l) == ent(m, n, l));
        if valid(ent(ms, s, l)) {
            lemma_taken_kept(m, m2, free, lo, hi, lo2, hi2, pa(ent(m, n, l)));
        }
    }
}

proof fn lemma_l0_copy_widen(m: Seq<u64>, n: u64, ms: Seq<u64>, s: u64, free: Seq<u64>, lo: int, hi: int, lo2: int, hi2: int)
    requires
        l0_copy(m, n, ms, s, free, lo, hi),
        lo2 <= lo,
        hi <= hi2,
    ensures
        l0_copy(m, n, ms, s, free, lo2, hi2),
{
    lemma_taken_widen(free, lo, hi, lo2, hi2, n);
    assert forall|l: int| idx_ok(l) implies #[trigger] l0_slot(m, n, ms, s, free, lo2, hi2, l) by {
        assert(l0_slot(m, n, ms, s, free, lo, hi, l));
        if valid(ent(ms, s, l)) {
            lemma_taken_widen(free, lo, hi, lo2, hi2, pa(ent(m, n, l)));
        }
    }
}

proof fn lemma_l1_copy_kept(m: Seq<u64>, m2: Seq<u64>, n: u64, ms: Seq<u64>, s: u64, free: Seq<u64>, lo: int, hi: int, lo2: int, hi2: int)
    requires
        l1_copy(m, n, ms, s, free, lo, hi),
        kept(m, m2, free, lo2, hi2),
        hi2 <= lo || hi <= lo2,
        distinct_frames(free),
    ensures
        l1_copy(m2, n, ms, s, free, lo, hi),
{
    lemma_taken_kept(m, m2, free, lo, hi, lo2, hi2, n);
    assert forall|k: int| idx_ok(k) implies #[trigger] l1_slot(m2, n, ms, s, free, lo, hi, k) by {
        assert(l1_slot(m, n, ms, s, free, lo, hi, k));
        assert(ent(m2, n, k) == ent(m, n, k));
        let se = ent(ms, s, k);
        if valid(se) && !leaf(se) {
            lemma_l0_copy_kept(m, m2, pa(ent(m, n, k)), ms, pa(se), free, lo, hi, lo2, hi2);
        }
    }
}

proof fn lemma_l1_copy_widen(m: Seq<u64>, n: u64, ms: Seq<u64>, s: u64, free: Seq<u64>, lo: int, hi: int, lo2: int, hi2: int)
    requires
        l1_copy(m, n, ms, s, free, lo, hi),
        lo2 <= lo,
        hi <= hi2,
    ensures
        l1_copy(m, n, ms, s, free, lo2, hi2),
{
    lemma_taken_widen(free, lo, hi, lo2, hi2, n);
    assert forall|k: int| idx_ok(k) implies #[trigger] l1_slot(m, n, ms, s, free, lo2, hi2, k) by {
        assert(l1_slot(m, n, ms, s, free, lo, hi, k));
        let se = ent(ms, s, k);
        if valid(se) && !leaf(se) {
            lemma_l0_copy_widen(m, pa(ent(m, n, k)), ms, pa(se), free, lo, hi, lo2, hi2);
        }
    }
}

/// Every table frame `o` places lies in slots `lo..hi` of `free`.
pub open spec fn dom_taken(o: Map<u64, Pos>, free: Seq<u64>, lo: int, hi: int) -> bool {
    forall|t: u64| #[trigger] o.contains_key(t) ==> taken_in(free, lo, hi, t)
}

/// `o2` places every frame `o` places where `o` does.
pub open spec fn agrees(o: Map<u64, Pos>, o2: Map<u64, Pos>) -> bool {
    forall|t: u64| #[trigger] o.contains_key(t) ==> o2.contains_key(t) && o2[t] == o[t]
}

/// Where `o` places the 4 KiB page in slot `k` of the L0 table at
/// `(i, j)`: below every table level, one position per slot.
pub open spec fn leaf_pos(i: int, j: int, k: int) -> Pos {
    (-1 - k, i, j)
}

/// Slot `k` of the L0 table `n` at `(i, j)`: a page there is placed at its
/// own position by `o`.
pub open spec fn l0_owned_slot(m: Seq<u64>, o: Map<u64, Pos>, n: u64, i: int, j: int, k: int) -> bool {
    valid(ent(m, n, k)) ==> o.contains_key(pa(ent(m, n, k))) && o[pa(ent(m, n, k))] == leaf_pos(i, j, k)
}

/// `o` places the L0 table `n` at `(0, i, j)` and each of its pages below.
pub open spec fn l0_owned(m: Seq<u64>, o: Map<u64, Pos>, n: u64, i: int, j: int) -> bool {
    &&& o.contains_key(n) && o[n] == (0int, i, j)
    &&& forall|k: int| idx_ok(k) ==> #[trigger] l0_owned_slot(m, o, n, i, j, k)
}

/// Slot `j` of the L1 table `n` under root slot `i`: an L0 table there is
/// placed by `o` with its pages.
pub open spec fn l1_owned_slot(m: Seq<u64>, o: Map<u64, Pos>, n: u64, i: int, j: int) -> bool {
    valid(ent(m, n, j)) && !leaf(ent(m, n, j)) ==> l0_owned(m, o, pa(ent(m, n, j)), i, j)
}

/// `o` places the L1 table `n` at `(1, i)` and everything below it.
pub open spec fn l1_owned(m: Seq<u64>, o: Map<u64, Pos>, n: u64, i: int) -> bool {
    &&& o.contains_key(n) && o[n] == (1int, i, 0int)
    &&& forall|j: int| idx_ok(j) ==> #[trigger] l1_owned_slot(m, o, n, i, j)
}

/// Root slot `i` of `n`: an L1 table there is placed by `o` with
/// everything below it.
pub open spec fn root_owned_slot(m: Seq<u64>, o: Map<u64, Pos>, n: u64, i: int) -> bool {
    valid(ent(m, n, i)) && !leaf(ent(m, n, i)) ==> l1_owned(m, o, pa(ent(m, n, i)), i)
}

/// `o` gives every 4 KiB page under a user slot of the tree at `root` its
/// own position, below every table level.
pub open spec fn pages_placed(m: Seq<u64>, root: u64, o: Map<u64, Pos>) -> bool {
    forall|i: int, j: int, k: int|
        #![trigger e0(m, root, i, j, k)]
        4 <= i && has0(m, root, i, j) && idx_ok(k) && valid(e0(m, root, i, j, k)) ==> o.contains_key(
            pa(e0(m, root, i, j, k)),
        ) && o[pa(e0(m, root, i, j, k))] == leaf_pos(i, j, k)
}

/// The tree at `root` is well formed, and every 4 KiB page under its user
/// slots is a frame of its own: no other such page and no table of the tree
/// is that frame.
pub open spec fn pages_private(m: Seq<u64>, root: u64, free: Seq<u64>) -> bool {
    exists|o: Map<u64, Pos>| owner_ok(m, root, free, o) && pages_placed(m, root, o)
}

/// Two user pages at different slots of a tree whose pages are private are
/// different frames.
pub proof fn private_pages_distinct(m: Seq<u64>, root: u64, free: Seq<u64>, i: int, j: int, k: int, i2: int, j2: int, k2: int)
    requires
        pages_private(m, root, free),
        4 <= i && has0(m, root, i, j) && idx_ok(k) && valid(e0(m, root, i, j, k)),
        4 <= i2 && has0(m, root, i2, j2) && idx_ok(k2) && valid(e0(m, root, i2, j2, k2)),
        (i, j, k) != (i2, j2, k2),
    ensures
        pa(e0(m, root, i, j, k)) != pa(e0(m, root, i2, j2, k2)),
{
    let o = choose|o: Map<u64, Pos>| owner_ok(m, root, free, o) && pages_placed(m, root, o);
    assert(o[pa(e0(m, root, i, j, k))] == leaf_pos(i, j, k));
    assert(o[pa(e0(m, root, i2, j2, k2))] == leaf_pos(i2, j2, k2));
}

/// A user page of a tree whose pages are private is none of the tree's
/// tables.
pub proof fn private_page_not_table(m: Seq<u64>, root: u64, free: Seq<u64>, i: int, j: int, k: int)
    requires
        pages_private(m, root, free),
        4 <= i && has0(m, root, i, j) && idx_ok(k) && valid(e0(m, root, i, j, k)),
    ensures
        pa(e0(m, root, i, j, k)) != root,
        forall|i2: int| #[trigger] has1(m, root, i2) ==> pa(e0(m, root, i, j, k)) != t1(m, root, i2),
        forall|i2: int, j2: int| #[trigger] has0(m, root, i2, j2) ==> pa(e0(m, root, i, j, k)) != t0(m, root, i2, j2),
{
    let o = choose|o: Map<u64, Pos>| owner_ok(m, root, free, o) && pages_placed(m, root, o);
    assert(o[pa(e0(m, root, i, j, k))] == leaf_pos(i, j, k));
}

/// The tables `o` places at levels `lo..=hi` read the same in `m2` as in
/// `m`.
pub open spec fn tables_same(m: Seq<u64>, m2: Seq<u64>, o: Map<u64, Pos>, lo: int, hi: int) -> bool {
    forall|t: u64, x: int| o.contains_key(t) && lo <= o[t].0 <= hi && 0 <= x < 512 ==> #[trigger] ent(m2, t, x)
        == ent(m, t, x)
}

/// Placing an L0 table's pages depends on its entries only, and survives a
/// map that agrees.
proof fn lemma_l0_owned_moved(m: Seq<u64>, m2: Seq<u64>, o: Map<u64, Pos>, o2: Map<u64, Pos>, n: u64, i: int, j: int)
    requires
        l0_owned(m, o, n, i, j),
        agrees(o, o2),
        forall|x: int| 0 <= x < 512 ==> #[trigger] ent(m2, n, x) == ent(m, n, x),
    ensures
        l0_owned(m2, o2, n, i, j),
{
    assert forall|k: int| idx_ok(k) implies #[trigger] l0_owned_slot(m2, o2, n, i, j, k) by {
        assert(l0_owned_slot(m, o, n, i, j, k));
        assert(ent(m2, n, k) == ent(m, n, k));
    }
}

/// An L1 table's placement survives changes that leave its tables alone,
/// and a map that agrees.
proof fn lemma_l1_owned_moved(m: Seq<u64>, m2: Seq<u64>, o: Map<u64, Pos>, o2: Map<u64, Pos>, n: u64, i: int)
    requires
        l1_owned(m, o, n, i),
        agrees(o, o2),
        tables_same(m, m2, o, 0, 1),
    ensures
        l1_owned(m2, o2, n, i),
{
    assert forall|j: int| idx_ok(j) implies #[trigger] l1_owned_slot(m2, o2, n, i, j) by {
        assert(l1_owned_slot(m, o, n, i, j));
        assert(ent(m2, n, j) == ent(m, n, j));
        if valid(ent(m, n, j)) && !leaf(ent(m, n, j)) {
            let q = pa(ent(m, n, j));
            assert forall|x: int| 0 <= x < 512 implies #[trigger] ent(m2, q, x) == ent(m, q, x) by {
                assert(ent(m2, q, x) == ent(m, q, x));
            }
            lemma_l0_owned_moved(m, m2, o, o2, q, i, j);
        }
    }
}

/// Joining a map whose frames come from a range disjoint from those of `o`
/// keeps every placement of `o`, and the frames of both lie in the union of
/// the ranges.
proof fn lemma_join(o: Map<u64, Pos>, oc: Map<u64, Pos>, free: Seq<u64>, lo: int, mid: int, hi: int)
    requires
        dom_taken(o, free, mid, hi),
        dom_taken(oc, free, lo, mid),
        distinct_frames(free),
        lo <= mid <= hi,
    ensures
        agrees(o, o.union_prefer_right(oc)),
        agrees(oc, o.union_prefer_right(oc)),
        dom_taken(o.union_prefer_right(oc), free, lo, hi),
{
    let u = o.union_prefer_right(oc);
    assert forall|t: u64| #[trigger] o.contains_key(t) implies u.contains_key(t) && u[t] == o[t] by {
        let a = choose|a: int| mid <= a < hi && 0 <= a < free.len() && #[trigger] free[a] == t;
        lemma_not_taken(free, a, lo, mid);
    }
    assert forall|t: u64| #[trigger] u.contains_key(t) implies taken_in(free, lo, hi, t) by {
        if o.contains_key(t) {
            lemma_taken_widen(free, mid, hi, lo, hi, t);
        } else {
            lemma_taken_widen(free, lo, mid, lo, hi, t);
        }
    }
}

/// Copy the L0 table `s` of `m0`: a new table from the last free frame,
/// then a fresh frame per mapped page holding a copy of it. `None` when the
/// frames run out (what was taken stays taken).
#[verifier::spinoff_prover]
fn clone_l0(
    mem: &mut PhysMem,
    frames: &mut FrameAllocator,
    s: u64,
    Ghost(m0): Ghost<Seq<u64>>,
    Ghost(f0): Ghost<Seq<u64>>,
    Ghost(i): Ghost<int>,
    Ghost(j): Ghost<int>,
) -> (r: (Option<u64>, Ghost<Map<u64, Pos>>))
    requires
        clone_ctx(m0, f0, old(mem)@, old(frames)@),
        src_l0_ok(m0, s, f0),
    ensures
        clone_ctx(m0, f0, final(mem)@, final(frames)@),
        final(frames)@.len() <= old(frames)@.len(),
        kept(old(mem)@, final(mem)@, f0, final(frames)@.len() as int, old(frames)@.len() as int),
        r.0 is None ==> final(frames)@.len() == 0,
        r.0 is None <==> l0_cost(m0, s) > old(frames)@.len(),
        r.0 is Some ==> final(frames)@.len() + l0_cost(m0, s) == old(frames)@.len(),
        r.0 matches Some(n) ==> n == old(frames)@.last() && l0_copy(final(mem)@, n, m0, s, f0, final(frames)@.len() as int, old(frames)@.len() as int),
        r.0 matches Some(n) ==> l0_owned(final(mem)@, r.1@, n, i, j) && dom_taken(
            r.1@,
            f0,
            final(frames)@.len() as int,
            old(frames)@.len() as int,
        ),
{
    let ghost m1 = mem@;
    let ghost k1 = frames@.len() as int;
    if frames.free.len() == 0 {
        return (None, Ghost(Map::empty()));
    }
    proof {
        lemma_take_last(f0, frames@);
    }
    let n = match frames.alloc_page() {
        None => { return (None, Ghost(Map::empty())); },
        Some(f) => f,
    };
    let ghost mut oa: Map<u64, Pos> = Map::empty().insert(n, (0int, i, j));
    proof {
        lemma_kept_write(m1, f0, k1 - 1, 0, 0);
    }
    mem.zero_frame(n);
    proof {
        lemma_kept_widen(m1, mem@, f0, k1 - 1, k1, k1 - 1, k1);
    }
    let mut l: u64 = 0;
    while l < 512
        invariant
            distinct_frames(f0),
            forall|a: int| 0 <= a < f0.len() ==> frame_ok(m0.len(), #[trigger] f0[a]),
            k1 <= f0.len(),
            frames@.len() < k1,
            frames@ == f0.take(frames@.len() as int),
            kept(m0, m1, f0, k1, f0.len() as int),
            kept(m1, mem@, f0, frames@.len() as int, k1),
            m1.len() == m0.len(),
            m1 == old(mem)@,
            k1 == old(frames)@.len(),
            n == f0[k1 - 1],
            src_l0_ok(m0, s, f0),
            l <= 512,
            (k1 - frames@.len()) + l0_pages_from(m0, s, l as int) == l0_cost(m0, s),
            forall|l2: int| 0 <= l2 < l ==> #[trigger] l0_slot(mem@, n, m0, s, f0, frames@.len() as int, k1 - 1, l2),
            oa.contains_key(n) && oa[n] == (0int, i, j),
            dom_taken(oa, f0, frames@.len() as int, k1),
            forall|l2: int| 0 <= l2 < l ==> #[trigger] l0_owned_slot(mem@, oa, n, i, j, l2),
            forall|l2: int| l <= l2 < 512 ==> #[trigger] ent(mem@, n, l2) == 0,
        decreases 512 - l,
    {
        let ghost ma = mem@;
        let ghost c = frames@.len() as int;
        assert(frame_ok(m0.len(), n));
        let se = mem.read_entry(s, l);
        assert(se == ent(m0, s, l as int));
        if se & PAGE_V != 0 {
            if frames.free.len() == 0 {
                proof {
                    lemma_kept_widen(m1, mem@, f0, c, k1, 0, k1);
                    lemma_kept_trans(m0, m1, mem@, f0, 0, k1, f0.len() as int);
                }
                return (None, Ghost(Map::empty()));
            }
            proof {
                lemma_take_last(f0, frames@);
            }
            let d = match frames.alloc_page() {
                None => { return (None, Ghost(Map::empty())); },
                Some(f) => f,
            };
            assert(d == f0[c - 1]);
            let src = (se >> 10) << 12;
            assert(src == pa(se));
            assert(frame_ok(m0.len(), src) && unlisted(f0, src));
            assert(src != d);
            mem.copy_frame(src, d);
            let ghost mb = mem@;
            proof {
                lemma_kept_copy(ma, mb, src, f0, c - 1);
            }
            let v = ((d >> 12) << 10) | (se & 0x3FF);
            assert(v == repte(d, se));
            mem.write_entry(n, l, v);
            let ghost mc = mem@;
            proof {
                lemma_repte(d, se);
                lemma_kept_write(mb, f0, k1 - 1, l as int, v);
                lemma_kept_widen(mb, mc, f0, k1 - 1, k1, c - 1, k1);
                lemma_kept_widen(ma, mb, f0, c - 1, c, c - 1, k1);
                lemma_kept_same(ma, mb, mc, f0, c - 1, k1);
                lemma_kept_widen(m1, ma, f0, c, k1, c - 1, k1);
                lemma_kept_same(m1, ma, mc, f0, c - 1, k1);
                assert(n != d);
                assert forall|l2: int| 0 <= l2 <= l implies #[trigger] l0_slot(mc, n, m0, s, f0, c - 1, k1 - 1, l2) by {
                    lemma_write_reads(mb, n, l as int, v, n, l2);
                    lemma_copy_reads(ma, mb, src, d, n, l2);
                    if l2 < l {
                        assert(l0_slot(ma, n, m0, s, f0, c, k1 - 1, l2));
                        if valid(ent(m0, s, l2)) {
                            let dd = pa(ent(ma, n, l2));
                            let a = choose|a: int| c <= a < k1 - 1 && 0 <= a < f0.len() && #[trigger] f0[a] == dd;
                            assert(f0[a] != f0[c - 1] && f0[a] != f0[k1 - 1]);
                            assert forall|x: int| idx_ok(x) implies #[trigger] ent(mc, dd, x) == ent(ma, dd, x) by {
                                lemma_write_reads(mb, n, l as int, v, dd, x);
                                lemma_copy_reads(ma, mb, src, d, dd, x);
                            }
                            lemma_taken_widen(f0, c, k1 - 1, c - 1, k1 - 1, dd);
                        }
                    } else {
                        assert(taken_in(f0, c - 1, k1 - 1, f0[c - 1]));
                        assert forall|x: int| idx_ok(x) implies #[trigger] ent(mc, d, x) == ent(m0, src, x) by {
                            lemma_write_reads(mb, n, l as int, v, d, x);
                            lemma_copy_reads(ma, mb, src, d, d, x);
                            assert(ent(ma, src, x) == ent(m1, src, x));
                        }
                    }
                }
                assert forall|l2: int| l < l2 < 512 implies #[trigger] ent(mc, n, l2) == 0 by {
                    lemma_write_reads(mb, n, l as int, v, n, l2);
                    lemma_copy_reads(ma, mb, src, d, n, l2);
                }
            }
            proof {
                let ghost o1 = oa;
                lemma_not_taken(f0, c - 1, c, k1);
                oa = oa.insert(d, leaf_pos(i, j, l as int));
                assert forall|t: u64| #[trigger] oa.contains_key(t) implies taken_in(f0, c - 1, k1, t) by {
                    if t != d {
                        lemma_taken_widen(f0, c, k1, c - 1, k1, t);
                    }
                }
                assert forall|l2: int| 0 <= l2 <= l implies #[trigger] l0_owned_slot(mc, oa, n, i, j, l2) by {
                    lemma_write_reads(mb, n, l as int, v, n, l2);
                    lemma_copy_reads(ma, mb, src, d, n, l2);
                    if l2 < l {
                        assert(l0_owned_slot(ma, o1, n, i, j, l2));
                    }
                }
            }
        } else {
            proof {
                assert(l0_slot(ma, n, m0, s, f0, c, k1 - 1, l as int));
                lemma_pte_bits();
            }
        }
        l = l + 1;
    }
    proof {
        let c = frames@.len() as int;
        lemma_kept_trans(m0, m1, mem@, f0, c, k1, f0.len() as int);
        assert(taken_in(f0, c, k1, f0[k1 - 1]));
        assert forall|l2: int| idx_ok(l2) implies #[trigger] l0_slot(mem@, n, m0, s, f0, c, k1, l2) by {
            assert(l0_slot(mem@, n, m0, s, f0, c, k1 - 1, l2));
            if valid(ent(m0, s, l2)) {
                lemma_taken_widen(f0, c, k1 - 1, c, k1, pa(ent(mem@, n, l2)));
            }
        }
    }
    (Some(n), Ghost(oa))
}

/// Copy the L1 table `s` of `m0`: a new table from the last free frame, then
/// per slot: empty stays empty, a leaf (2 MiB page) is shared, an L0 table is copied.
#[verifier::spinoff_prover]
fn clone_l1(
    mem: &mut PhysMem,
    frames: &mut FrameAllocator,
    s: u64,
    Ghost(m0): Ghost<Seq<u64>>,
    Ghost(f0): Ghost<Seq<u64>>,
    Ghost(i): Ghost<int>,
) -> (r: (Option<u64>, Ghost<Map<u64, Pos>>))
    requires
        clone_ctx(m0, f0, old(mem)@, old(frames)@),
        src_l1_ok(m0, s, f0),
    ensures
        clone_ctx(m0, f0, final(mem)@, final(frames)@),
        final(frames)@.len() <= old(frames)@.len(),
        kept(old(mem)@, final(mem)@, f0, final(frames)@.len() as int, old(frames)@.len() as int),
        r.0 is None ==> final(frames)@.len() == 0,
        r.0 is None <==> l1_cost(m0, s) > old(frames)@.len(),
        r.0 is Some ==> final(frames)@.len() + l1_cost(m0, s) == old(frames)@.len(),
        r.0 matches Some(n) ==> n == old(frames)@.last() && l1_copy(final(mem)@, n, m0, s, f0, final(frames)@.len() as int, old(frames)@.len() as int),
        r.0 matches Some(n) ==> l1_owned(final(mem)@, r.1@, n, i) && dom_taken(
            r.1@,
            f0,
            final(frames)@.len() as int,
            old(frames)@.len() as int,
        ),
{
    let ghost m1 = mem@;
    let ghost k1 = frames@.len() as int;
    if frames.free.len() == 0 {
        return (None, Ghost(Map::empty()));
    }
    proof {
        lemma_take_last(f0, frames@);
    }
    let n = match frames.alloc_page() {
        None => { return (None, Ghost(Map::empty())); },
        Some(f) => f,
    };
    let ghost mut oa: Map<u64, Pos> = Map::empty().insert(n, (1int, i, 0int));
    proof {
        lemma_kept_write(m1, f0, k1 - 1, 0, 0);
    }
    mem.zero_frame(n);
    proof {
        lemma_kept_widen(m1, mem@, f0, k1 - 1, k1, k1 - 1, k1);
    }
    let mut k: u64 = 0;
    while k < 512
        invariant
            distinct_frames(f0),
            forall|a: int| 0 <= a < f0.len() ==> frame_ok(m0.len(), #[trigger] f0[a]),
            k1 <= f0.len(),
            frames@.len() < k1,
            frames@ == f0.take(frames@.len() as int),
            kept(m0, m1, f0, k1, f0.len() as int),
            kept(m1, mem@, f0, frames@.len() as int, k1),
            m1.len() == m0.len(),
            m1 == old(mem)@,
            k1 == old(frames)@.len(),
            n == f0[k1 - 1],
            src_l1_ok(m0, s, f0),
            k <= 512,
            (k1 - frames@.len()) + l1_rest(m0, s, k as int) == l1_cost(m0, s),
            forall|k2: int| 0 <= k2 < k ==> #[trigger] l1_slot(mem@, n, m0, s, f0, frames@.len() as int, k1 - 1, k2),
            oa.contains_key(n) && oa[n] == (1int, i, 0int),
            dom_taken(oa, f0, frames@.len() as int, k1),
            forall|k2: int| 0 <= k2 < k ==> #[trigger] l1_owned_slot(mem@, oa, n, i, k2),
            forall|k2: int| k <= k2 < 512 ==> #[trigger] ent(mem@, n, k2) == 0,
        decreases 512 - k,
    {
        let ghost ma = mem@;
        let ghost c = frames@.len() as int;
        assert(frame_ok(m0.len(), n));
        let se = mem.read_entry(s, k);
        assert(se == ent(m0, s, k as int));
        if se & PAGE_V != 0 {
            if se & LEAF_BITS != 0 {
                mem.write_entry(n, k, se);
                let ghost mc = mem@;
                proof {
                    lemma_kept_write(ma, f0, k1 - 1, k as int, se);
                    lemma_kept_widen(ma, mc, f0, k1 - 1, k1, c, k1);
                    lemma_kept_same(m1, ma, mc, f0, c, k1);
                    assert forall|k2: int| 0 <= k2 <= k implies #[trigger] l1_slot(mc, n, m0, s, f0, c, k1 - 1, k2) by {
                        lemma_write_reads(ma, n, k as int, se, n, k2);
                        if k2 < k {
                            assert(l1_slot(ma, n, m0, s, f0, c, k1 - 1, k2));
                            let se2 = ent(m0, s, k2);
                            if valid(se2) && !leaf(se2) {
                                lemma_l0_copy_kept(ma, mc, pa(ent(ma, n, k2)), m0, pa(se2), f0, c, k1 - 1, k1 - 1, k1);
                            }
                        }
                    }
                    assert forall|k2: int| k < k2 < 512 implies #[trigger] ent(mc, n, k2) == 0 by {
                        lemma_write_reads(ma, n, k as int, se, n, k2);
                    }
                    assert(agrees(oa, oa));
                    assert forall|k2: int| 0 <= k2 <= k implies #[trigger] l1_owned_slot(mc, oa, n, i, k2) by {
                        lemma_write_reads(ma, n, k as int, se, n, k2);
                        if k2 < k {
                            assert(l1_owned_slot(ma, oa, n, i, k2));
                            if valid(ent(ma, n, k2)) && !leaf(ent(ma, n, k2)) {
                                let q = pa(ent(ma, n, k2));
                                assert(oa[q] == (0int, i, k2));
                                assert forall|x: int| 0 <= x < 512 implies #[trigger] ent(mc, q, x) == ent(ma, q, x) by {
                                    lemma_write_reads(ma, n, k as int, se, q, x);
                                }
                                lemma_l0_owned_moved(ma, mc, oa, oa, q, i, k2);
                            }
                        }
                    }
                }
            } else {
                let child_src = (se >> 10) << 12;
                proof {
                    lemma_kept_trans(m0, m1, ma, f0, c, k1, f0.len() as int);
                }
                let (r, oc) = clone_l0(mem, frames, child_src, Ghost(m0), Ghost(f0), Ghost(i), Ghost(k as int));
                let ghost mb = mem@;
                let ghost c2 = frames@.len() as int;
                proof {
                    lemma_kept_trans(m1, ma, mb, f0, c2, c, k1);
                }
                match r {
                    None => {
                        proof {
                            lemma_kept_trans(m0, m1, mb, f0, 0, k1, f0.len() as int);
                        }
                        return (None, Ghost(Map::empty()));
                    },
                    Some(child) => {
                        let v = ((child >> 12) << 10) | PAGE_V;
                        assert(v == pte(child, PAGE_V));
                        assert(frame_ok(m0.len(), n));
                        mem.write_entry(n, k, v);
                        let ghost mc = mem@;
                        proof {
                            lemma_pte_bits();
                            lemma_kept_write(mb, f0, k1 - 1, k as int, v);
                            lemma_kept_widen(mb, mc, f0, k1 - 1, k1, c2, k1);
                            lemma_kept_same(m1, mb, mc, f0, c2, k1);
                            lemma_not_taken(f0, k1 - 1, c2, c);
                            assert forall|k2: int| 0 <= k2 <= k implies #[trigger] l1_slot(mc, n, m0, s, f0, c2, k1 - 1, k2) by {
                                lemma_write_reads(mb, n, k as int, v, n, k2);
                                assert(ent(mb, n, k2) == ent(ma, n, k2));
                                if k2 < k {
                                    assert(l1_slot(ma, n, m0, s, f0, c, k1 - 1, k2));
                                    let se2 = ent(m0, s, k2);
                                    if valid(se2) && !leaf(se2) {
                                        let t = pa(ent(ma, n, k2));
                                        lemma_l0_copy_kept(ma, mb, t, m0, pa(se2), f0, c, k1 - 1, c2, c);
                                        lemma_l0_copy_kept(mb, mc, t, m0, pa(se2), f0, c, k1 - 1, k1 - 1, k1);
                                        lemma_l0_copy_widen(mc, t, m0, pa(se2), f0, c, k1 - 1, c2, k1 - 1);
                                    }
                                } else {
                                    lemma_l0_copy_kept(mb, mc, child, m0, pa(se), f0, c2, c, k1 - 1, k1);
                                    lemma_l0_copy_widen(mc, child, m0, pa(se), f0, c2, c, c2, k1 - 1);
                                }
                            }
                            assert forall|k2: int| k < k2 < 512 implies #[trigger] ent(mc, n, k2) == 0 by {
                                lemma_write_reads(mb, n, k as int, v, n, k2);
                                assert(ent(mb, n, k2) == ent(ma, n, k2));
                            }
                        }
                        proof {
                            let ghost o1 = oa;
                            let ghost o2 = oc@;
                            assert(child == f0[c - 1]);
                            assert(f0[c - 1] != f0[k1 - 1]);
                            lemma_join(o1, o2, f0, c2, c, k1);
                            oa = o1.union_prefer_right(o2);
                            assert forall|k2: int| 0 <= k2 <= k implies #[trigger] l1_owned_slot(mc, oa, n, i, k2) by {
                                lemma_write_reads(mb, n, k as int, v, n, k2);
                                assert(ent(mb, n, k2) == ent(ma, n, k2));
                                if k2 < k {
                                    assert(l1_owned_slot(ma, o1, n, i, k2));
                                    if valid(ent(ma, n, k2)) && !leaf(ent(ma, n, k2)) {
                                        let q = pa(ent(ma, n, k2));
                                        assert(o1.contains_key(q) && o1[q] == (0int, i, k2));
                                        lemma_taken_kept(ma, mb, f0, c, k1, c2, c, q);
                                        assert forall|x: int| 0 <= x < 512 implies #[trigger] ent(mc, q, x) == ent(ma, q, x) by {
                                            lemma_write_reads(mb, n, k as int, v, q, x);
                                        }
                                        lemma_l0_owned_moved(ma, mc, o1, oa, q, i, k2);
                                    }
                                } else {
                                    assert forall|x: int| 0 <= x < 512 implies #[trigger] ent(mc, child, x) == ent(mb, child, x) by {
                                        lemma_write_reads(mb, n, k as int, v, child, x);
                                    }
                                    lemma_l0_owned_moved(mb, mc, o2, oa, child, i, k2);
                                }
                            }
                        }
                    },
                }
            }
        } else {
            proof {
                assert(l1_slot(ma, n, m0, s, f0, c, k1 - 1, k as int));
                lemma_pte_bits();
            }
        }
        k = k + 1;
    }
    proof {
        let c = frames@.len() as int;
        lemma_kept_trans(m0, m1, mem@, f0, c, k1, f0.len() as int);
        assert(taken_in(f0, c, k1, f0[k1 - 1]));
        assert forall|k2: int| idx_ok(k2) implies #[trigger] l1_slot(mem@, n, m0, s, f0, c, k1, k2) by {
            assert(l1_slot(mem@, n, m0, s, f0, c, k1 - 1, k2));
            let se2 = ent(m0, s, k2);
            if valid(se2) && !leaf(se2) {
                lemma_l0_copy_widen(mem@, pa(ent(mem@, n, k2)), m0, pa(se2), f0, c, k1 - 1, c, k1);
            }
        }
    }
    (Some(n), Ghost(oa))
}


/// Every 4 KiB page that a user slot (root slot 4 and up) maps is a frame in
/// memory that no free slot lists.
pub open spec fn leaves_ok(m: Seq<u64>, root: u64, free: Seq<u64>) -> bool {
    forall|i: int, j: int, k: int|
        #![trigger e0(m, root, i, j, k)]
        4 <= i && has0(m, root, i, j) && idx_ok(k) && valid(e0(m, root, i, j, k)) ==> frame_ok(
            m.len(),
            pa(e0(m, root, i, j, k)),
        ) && unlisted(free, pa(e0(m, root, i, j, k)))
}

/// Slot `i` of a new root: the kernel slots 0-3 are shared; in user space an
/// empty slot stays empty, a 1 GiB leaf is shared, an L1 table is copied.
pub open spec fn root_slot(m: Seq<u64>, n: u64, ms: Seq<u64>, s: u64, free: Seq<u64>, lo: int, hi: int, i: int) -> bool {
    let se = ent(ms, s, i);
    let ne = ent(m, n, i);
    if i < 4 {
        ne == se
    } else if !valid(se) {
        ne == 0
    } else if leaf(se) {
        ne == se
    } else {
        ne == pte(pa(ne), PAGE_V) && l1_copy(m, pa(ne), ms, pa(se), free, lo, hi)
    }
}

/// What the clone `n` (memory `m`) of the tree `s` (memory `ms`) translates
/// `va` to: the kernel slots as the source does; in user space nothing where
/// the source maps nothing, a 1 GiB or 2 MiB page shared, and a 4 KiB page
/// onto a frame taken from `free` past slot `lo` that holds a copy of the
/// source page, with the source entry's flag bits 9:0.
pub open spec fn cloned_walk(m: Seq<u64>, n: u64, ms: Seq<u64>, s: u64, free: Seq<u64>, lo: int, va: u64) -> bool {
    if vpn2(va) < 4 {
        walk(m, n, va) == walk(ms, s, va)
    } else {
        match walk(ms, s, va) {
            None => walk(m, n, va) is None,
            Some((e, lvl)) => if lvl != 0 {
                walk(m, n, va) == Some((e, lvl))
            } else {
                &&& walk(m, n, va) matches Some((ne, nl))
                &&& nl == 0
                &&& ne == repte(pa(ne), e)
                &&& frame_ok(m.len(), pa(ne))
                &&& taken_in(free, lo, free.len() as int, pa(ne))
                &&& same_frame(m, pa(ne), ms, pa(e))
            },
        }
    }
}

/// The source subtree under a user slot meets what copying it needs.
proof fn lemma_src_ok(m: Seq<u64>, root: u64, free: Seq<u64>, o: Map<u64, Pos>, i: int)
    requires
        owner_ok(m, root, free, o),
        leaves_ok(m, root, free),
        4 <= i < 512,
        valid(e2(m, root, i)),
        !leaf(e2(m, root, i)),
    ensures
        src_l1_ok(m, t1(m, root, i), free),
{
    let p = t1(m, root, i);
    assert(has1(m, root, i));
    assert(o.contains_key(p));
    assert forall|j: int| idx_ok(j) && valid(#[trigger] ent(m, p, j)) && !leaf(ent(m, p, j)) implies src_l0_ok(
        m,
        pa(ent(m, p, j)),
        free,
    ) by {
        let q = t0(m, root, i, j);
        assert(has0(m, root, i, j));
        assert(o.contains_key(q));
        assert forall|k: int| idx_ok(k) && valid(#[trigger] ent(m, q, k)) implies frame_ok(m.len(), pa(ent(m, q, k)))
            && unlisted(free, pa(ent(m, q, k))) by {
            assert(ent(m, q, k) == e0(m, root, i, j, k));
        }
    }
}

/// The entry-level description of a clone gives its translations.
proof fn lemma_cloned_walk(m: Seq<u64>, n: u64, ms: Seq<u64>, s: u64, free: Seq<u64>, o: Map<u64, Pos>, lo: int, va: u64)
    requires
        owner_ok(ms, s, free, o),
        m.len() == ms.len(),
        forall|t: u64, x: int| o.contains_key(t) && idx_ok(x) ==> #[trigger] ent(m, t, x) == ent(ms, t, x),
        forall|i: int| idx_ok(i) ==> #[trigger] root_slot(m, n, ms, s, free, lo, free.len() as int, i),
    ensures
        cloned_walk(m, n, ms, s, free, lo, va),
{
    lemma_pte_bits();
    let hi = free.len() as int;
    let (i, j, k) = (vpn2(va), vpn1(va), vpn0(va));
    assert(root_slot(m, n, ms, s, free, lo, hi, i));
    if i < 4 {
        if has1(ms, s, i) {
            assert(o.contains_key(t1(ms, s, i)));
            assert(e1(m, n, i, j) == e1(ms, s, i, j));
            if has0(ms, s, i, j) {
                assert(o.contains_key(t0(ms, s, i, j)));
                assert(e0(m, n, i, j, k) == e0(ms, s, i, j, k));
            }
        }
        assert(walk(m, n, va) == walk(ms, s, va));
    } else if !valid(e2(ms, s, i)) {
        assert(walk(m, n, va) is None);
    } else if leaf(e2(ms, s, i)) {
        assert(walk(m, n, va) == walk(ms, s, va));
    } else {
        let p = t1(m, n, i);
        let sp = t1(ms, s, i);
        assert(l1_copy(m, p, ms, sp, free, lo, hi));
        assert(valid(e2(m, n, i)) && !leaf(e2(m, n, i)));
        assert(l1_slot(m, p, ms, sp, free, lo, hi, j));
        let se1 = e1(ms, s, i, j);
        assert(e1(m, n, i, j) == ent(m, p, j));
        if !valid(se1) {
            assert(walk(m, n, va) is None);
        } else if leaf(se1) {
            assert(walk(m, n, va) == walk(ms, s, va));
        } else {
            let q = t0(m, n, i, j);
            let sq = t0(ms, s, i, j);
            assert(l0_copy(m, q, ms, sq, free, lo, hi));
            assert(l0_slot(m, q, ms, sq, free, lo, hi, k));
            let se0 = e0(ms, s, i, j, k);
            assert(e0(m, n, i, j, k) == ent(m, q, k));
            if valid(se0) {
                let ne0 = e0(m, n, i, j, k);
                lemma_repte(pa(ne0), se0);
                assert(walk(m, n, va) == Some((ne0, 0int)));
            } else {
                assert(walk(m, n, va) is None);
            }
        }
    }
}

/// A clone is well formed: its root is the last frame of `f0`, its kernel
/// slots are the source's (whose tables are as they were), and `on` places
/// the tables under its user slots, all taken from `f0` between slot `c`
/// and the root's.
proof fn lemma_clone_owner(m: Seq<u64>, n: u64, ms: Seq<u64>, s: u64, f0: Seq<u64>, o: Map<u64, Pos>, on: Map<u64, Pos>, c: int)
    requires
        owner_ok(ms, s, f0, o),
        m.len() == ms.len(),
        forall|t: u64, x: int| o.contains_key(t) && idx_ok(x) ==> #[trigger] ent(m, t, x) == ent(ms, t, x),
        distinct_frames(f0),
        0 <= c < f0.len(),
        n == f0[f0.len() - 1],
        dom_taken(on, f0, c, f0.len() - 1),
        forall|i: int| 0 <= i < 4 ==> #[trigger] ent(m, n, i) == ent(ms, s, i),
        forall|i: int| 4 <= i < 512 ==> #[trigger] root_owned_slot(m, on, n, i),
    ensures
        owner_ok(m, n, f0.take(c), o.union_prefer_right(on).insert(n, (2int, 0int, 0int))),
        pages_placed(m, n, o.union_prefer_right(on).insert(n, (2int, 0int, 0int))),
{
    let k1 = f0.len() as int;
    let fr = f0.take(c);
    let oo = o.union_prefer_right(on).insert(n, (2int, 0int, 0int));
    lemma_not_taken(f0, k1 - 1, c, k1 - 1);
    assert forall|t: u64| #[trigger] o.contains_key(t) implies !on.contains_key(t) && t != n by {
        if on.contains_key(t) {
            let a = choose|a: int| c <= a < k1 - 1 && 0 <= a < f0.len() && #[trigger] f0[a] == t;
            assert(!o.contains_key(f0[a]));
        }
        assert(!o.contains_key(f0[k1 - 1]));
    }
    assert forall|t: u64| #[trigger] on.contains_key(t) implies t != n && frame_ok(m.len(), t) by {
        let a = choose|a: int| c <= a < k1 - 1 && 0 <= a < f0.len() && #[trigger] f0[a] == t;
        assert(f0[a] != f0[k1 - 1]);
    }
    assert forall|t: u64| #[trigger] oo.contains_key(t) implies frame_ok(m.len(), t) by {
        if t != n && !on.contains_key(t) {
            assert(o.contains_key(t));
        }
    }
    assert forall|i: int| #[trigger] has1(m, n, i) implies oo.contains_key(t1(m, n, i)) && oo[t1(m, n, i)] == (
        1int,
        i,
        0int,
    ) by {
        if i < 4 {
            assert(ent(m, n, i) == ent(ms, s, i));
            assert(has1(ms, s, i));
        } else {
            assert(root_owned_slot(m, on, n, i));
        }
    }
    assert forall|i: int, j: int| #[trigger] has0(m, n, i, j) implies oo.contains_key(t0(m, n, i, j)) && oo[t0(
        m,
        n,
        i,
        j,
    )] == (0int, i, j) by {
        if i < 4 {
            assert(ent(m, n, i) == ent(ms, s, i));
            assert(has1(ms, s, i));
            assert(o.contains_key(t1(ms, s, i)));
            assert(e1(m, n, i, j) == e1(ms, s, i, j));
            assert(has0(ms, s, i, j));
        } else {
            assert(root_owned_slot(m, on, n, i));
            assert(l1_owned_slot(m, on, t1(m, n, i), i, j));
        }
    }
    assert forall|a: int| 0 <= a < fr.len() implies frame_ok(m.len(), #[trigger] fr[a]) && !oo.contains_key(fr[a]) by {
        assert(fr[a] == f0[a]);
        assert(frame_ok(ms.len(), f0[a]) && !o.contains_key(f0[a]));
        lemma_not_taken(f0, a, c, k1 - 1);
        assert(f0[a] != f0[k1 - 1]);
    }
    assert forall|i: int, j: int, k: int|
        4 <= i && has0(m, n, i, j) && idx_ok(k) && valid(#[trigger] e0(m, n, i, j, k)) implies oo.contains_key(
        pa(e0(m, n, i, j, k)),
    ) && oo[pa(e0(m, n, i, j, k))] == leaf_pos(i, j, k) by {
        assert(root_owned_slot(m, on, n, i));
        assert(l1_owned_slot(m, on, t1(m, n, i), i, j));
        assert(l0_owned_slot(m, on, t0(m, n, i, j), i, j, k));
    }
    assert forall|a: int, b: int| 0 <= a < fr.len() && 0 <= b < fr.len() && a != b implies #[trigger] fr[a]
        != #[trigger] fr[b] by {
        assert(f0[a] != f0[b]);
    }
}

/// Every 4 KiB page under a user slot of a clone is a frame taken from `f0`
/// past slot `c`, so none that `f0.take(c)` still lists.
proof fn lemma_clone_leaves(m: Seq<u64>, n: u64, ms: Seq<u64>, s: u64, f0: Seq<u64>, c: int)
    requires
        forall|i: int| idx_ok(i) ==> #[trigger] root_slot(m, n, ms, s, f0, c, f0.len() as int, i),
        distinct_frames(f0),
        0 <= c <= f0.len(),
    ensures
        leaves_ok(m, n, f0.take(c)),
{
    let k1 = f0.len() as int;
    let fr = f0.take(c);
    lemma_pte_bits();
    assert forall|i: int, j: int, k: int|
        4 <= i && has0(m, n, i, j) && idx_ok(k) && valid(#[trigger] e0(m, n, i, j, k)) implies frame_ok(
        m.len(),
        pa(e0(m, n, i, j, k)),
    ) && unlisted(fr, pa(e0(m, n, i, j, k))) by {
        assert(root_slot(m, n, ms, s, f0, c, k1, i));
        let p = t1(m, n, i);
        let sp = pa(ent(ms, s, i));
        assert(l1_copy(m, p, ms, sp, f0, c, k1));
        assert(l1_slot(m, p, ms, sp, f0, c, k1, j));
        let q = t0(m, n, i, j);
        let sq = pa(ent(ms, sp, j));
        assert(l0_copy(m, q, ms, sq, f0, c, k1));
        assert(l0_slot(m, q, ms, sq, f0, c, k1, k));
        let d = pa(e0(m, n, i, j, k));
        let a = choose|a: int| c <= a < k1 && 0 <= a < f0.len() && #[trigger] f0[a] == d;
        assert forall|b: int| 0 <= b < fr.len() implies #[trigger] fr[b] != d by {
            assert(fr[b] == f0[b]);
            assert(f0[b] != f0[a]);
        }
    }
}

/// Deep-copy a user address space (for fork): a new root from the last free
/// frame shares the kernel slots 0-3; every user slot holding an L1 table
/// gets a fresh one, every L1 slot holding an L0 table a fresh one, and
/// every 4 KiB page a fresh frame holding a copy of its contents, entered
/// with the source flag bits 9:0; 1 GiB and 2 MiB leaves are shared, and
/// new tables are linked with `V` alone.
///
/// `None` exactly when fewer than `clone_cost` frames are free; frames taken
/// up to then stay taken. On success exactly `clone_cost` frames are taken.
/// Only frames taken from the free list are written, so the source tables
/// and pages keep every word, and the source tree translates what it did. A clone is itself a
/// well-formed tree whose 4 KiB pages no free slot lists: it can be mapped
/// into and cloned in turn.
#[verifier::spinoff_prover]
pub fn clone_user_page_table(mem: &mut PhysMem, frames: &mut FrameAllocator, src_root: u64) -> (r: Option<u64>)
    requires
        pt_inv(old(mem)@, src_root, old(frames)@),
        leaves_ok(old(mem)@, src_root, old(frames)@),
    ensures
        final(mem)@.len() == old(mem)@.len(),
        final(frames)@.len() <= old(frames)@.len(),
        final(frames)@ == old(frames)@.take(final(frames)@.len() as int),
        r is None ==> final(frames)@.len() == 0,
        r is None <==> clone_cost(old(mem)@, src_root) > old(frames)@.len(),
        r is Some ==> final(frames)@.len() + clone_cost(old(mem)@, src_root) == old(frames)@.len(),
        kept(old(mem)@, final(mem)@, old(frames)@, final(frames)@.len() as int, old(frames)@.len() as int),
        r matches Some(n) ==> forall|i: int| idx_ok(i) ==> #[trigger] root_slot(
            final(mem)@,
            n,
            old(mem)@,
            src_root,
            old(frames)@,
            final(frames)@.len() as int,
            old(frames)@.len() as int,
            i,
        ),
        pt_inv(final(mem)@, src_root, final(frames)@),
        forall|va: u64| #[trigger] walk(final(mem)@, src_root, va) == walk(old(mem)@, src_root, va),
        r matches Some(n) ==> n == old(frames)@.last() && forall|va: u64| #[trigger] cloned_walk(
            final(mem)@,
            n,
            old(mem)@,
            src_root,
            old(frames)@,
            final(frames)@.len() as int,
            va,
        ),
        r matches Some(n) ==> pt_inv(final(mem)@, n, final(frames)@) && pages_private(final(mem)@, n, final(frames)@)
            && leaves_ok(final(mem)@, n, final(frames)@),
{
    let ghost m0 = mem@;
    let ghost f0 = frames@;
    let ghost o = choose|o: Map<u64, Pos>| owner_ok(m0, src_root, f0, o);
    proof {
        assert(f0 == f0.take(f0.len() as int));
        lemma_inv_frames(m0, src_root, f0);
        lemma_pte_bits();
    }
    let ghost k1 = f0.len() as int;
    if frames.free.len() == 0 {
        return None;
    }
    proof {
        lemma_take_last(f0, frames@);
    }
    let n = match frames.alloc_page() {
        None => { return None; },
        Some(f) => f,
    };
    proof {
        lemma_kept_write(m0, f0, k1 - 1, 0, 0);
        assert(src_root != n);
    }
    mem.zero_frame(n);
    proof {
        lemma_kept_widen(m0, mem@, f0, k1 - 1, k1, k1 - 1, k1);
    }
    let ghost mut on: Map<u64, Pos> = Map::empty();
    let mut i: u64 = 0;
    while i < 512
        invariant
            distinct_frames(f0),
            forall|a: int| 0 <= a < f0.len() ==> frame_ok(m0.len(), #[trigger] f0[a]),
            k1 == f0.len(),
            frames@.len() < k1,
            frames@ == f0.take(frames@.len() as int),
            kept(m0, mem@, f0, frames@.len() as int, k1),
            m0 == old(mem)@,
            f0 == old(frames)@,
            n == f0[k1 - 1],
            src_root != n,
            owner_ok(m0, src_root, f0, o),
            leaves_ok(m0, src_root, f0),
            i <= 512,
            (k1 - frames@.len()) + root_rest(m0, src_root, i as int) == clone_cost(m0, src_root),
            forall|i2: int| 0 <= i2 < i ==> #[trigger] root_slot(mem@, n, m0, src_root, f0, frames@.len() as int, k1 - 1, i2),
            forall|i2: int| i <= i2 < 512 ==> #[trigger] ent(mem@, n, i2) == 0,
            dom_taken(on, f0, frames@.len() as int, k1 - 1),
            forall|i2: int| 4 <= i2 < i ==> #[trigger] root_owned_slot(mem@, on, n, i2),
        decreases 512 - i,
    {
        let ghost ma = mem@;
        let ghost c = frames@.len() as int;
        assert(frame_ok(m0.len(), n));
        assert(o.contains_key(src_root));
        let se = mem.read_entry(src_root, i);
        assert(se == ent(m0, src_root, i as int));
        if i < 4 || (se & PAGE_V != 0 && se & LEAF_BITS != 0) {
            mem.write_entry(n, i, se);
            let ghost mc = mem@;
            proof {
                lemma_kept_write(ma, f0, k1 - 1, i as int, se);
                lemma_kept_widen(ma, mc, f0, k1 - 1, k1, c, k1);
                lemma_kept_same(m0, ma, mc, f0, c, k1);
                assert forall|i2: int| 0 <= i2 <= i implies #[trigger] root_slot(mc, n, m0, src_root, f0, c, k1 - 1, i2) by {
                    lemma_write_reads(ma, n, i as int, se, n, i2);
                    if i2 < i {
                        assert(root_slot(ma, n, m0, src_root, f0, c, k1 - 1, i2));
                        let se2 = ent(m0, src_root, i2);
                        if i2 >= 4 && valid(se2) && !leaf(se2) {
                            lemma_l1_copy_kept(ma, mc, pa(ent(ma, n, i2)), m0, pa(se2), f0, c, k1 - 1, k1 - 1, k1);
                        }
                    }
                }
                assert forall|i2: int| i < i2 < 512 implies #[trigger] ent(mc, n, i2) == 0 by {
                    lemma_write_reads(ma, n, i as int, se, n, i2);
                }
                lemma_not_taken(f0, k1 - 1, c, k1 - 1);
                assert(agrees(on, on));
                assert forall|t: u64, x: int| on.contains_key(t) && 0 <= on[t].0 <= 1 && 0 <= x < 512 implies #[trigger] ent(
                    mc,
                    t,
                    x,
                ) == ent(ma, t, x) by {
                    lemma_write_reads(ma, n, i as int, se, t, x);
                }
                assert forall|i2: int| 4 <= i2 <= i implies #[trigger] root_owned_slot(mc, on, n, i2) by {
                    lemma_write_reads(ma, n, i as int, se, n, i2);
                    if i2 < i {
                        assert(root_owned_slot(ma, on, n, i2));
                        if valid(ent(ma, n, i2)) && !leaf(ent(ma, n, i2)) {
                            lemma_l1_owned_moved(ma, mc, on, on, pa(ent(ma, n, i2)), i2);
                        }
                    }
                }
            }
        } else if se & PAGE_V != 0 {
            let child_src = (se >> 10) << 12;
            proof {
                lemma_src_ok(m0, src_root, f0, o, i as int);
            }
            let (r, oc) = clone_l1(mem, frames, child_src, Ghost(m0), Ghost(f0), Ghost(i as int));
            let ghost mb = mem@;
            let ghost c2 = frames@.len() as int;
            proof {
                lemma_kept_trans(m0, ma, mb, f0, c2, c, k1);
            }
            match r {
                None => {
                    proof {
                        lemma_kept_widen(m0, mb, f0, c2, k1, 0, k1);
                        assert forall|t: u64, x: int| o.contains_key(t) && idx_ok(x) implies #[trigger] ent(mb, t, x)
                            == ent(m0, t, x) by {
                            assert(frame_ok(m0.len(), t));
                        }
                        lemma_tables_kept(m0, mb, src_root, f0, 0, o);
                    }
                    return None;
                },
                Some(child) => {
                    let v = ((child >> 12) << 10) | PAGE_V;
                    assert(v == pte(child, PAGE_V));
                    mem.write_entry(n, i, v);
                    let ghost mc = mem@;
                    proof {
                        lemma_pte_bits();
                        lemma_kept_write(mb, f0, k1 - 1, i as int, v);
                        lemma_kept_widen(mb, mc, f0, k1 - 1, k1, c2, k1);
                        lemma_kept_same(m0, mb, mc, f0, c2, k1);
                        lemma_not_taken(f0, k1 - 1, c2, c);
                        assert forall|i2: int| 0 <= i2 <= i implies #[trigger] root_slot(mc, n, m0, src_root, f0, c2, k1 - 1, i2) by {
                            lemma_write_reads(mb, n, i as int, v, n, i2);
                            assert(ent(mb, n, i2) == ent(ma, n, i2));
                            if i2 < i {
                                assert(root_slot(ma, n, m0, src_root, f0, c, k1 - 1, i2));
                                let se2 = ent(m0, src_root, i2);
                                if i2 >= 4 && valid(se2) && !leaf(se2) {
                                    let t = pa(ent(ma, n, i2));
                                    lemma_l1_copy_kept(ma, mb, t, m0, pa(se2), f0, c, k1 - 1, c2, c);
                                    lemma_l1_copy_kept(mb, mc, t, m0, pa(se2), f0, c, k1 - 1, k1 - 1, k1);
                                    lemma_l1_copy_widen(mc, t, m0, pa(se2), f0, c, k1 - 1, c2, k1 - 1);
                                }
                            } else {
                                lemma_l1_copy_kept(mb, mc, child, m0, pa(se), f0, c2, c, k1 - 1, k1);
                                lemma_l1_copy_widen(mc, child, m0, pa(se), f0, c2, c, c2, k1 - 1);
                            }
                        }
                        assert forall|i2: int| i < i2 < 512 implies #[trigger] ent(mc, n, i2) == 0 by {
                            lemma_write_reads(mb, n, i as int, v, n, i2);
                            assert(ent(mb, n, i2) == ent(ma, n, i2));
                        }
                    }
                    proof {
                        let ghost o1 = on;
                        let ghost o2 = oc@;
                        assert(child == f0[c - 1]);
                        assert(f0[c - 1] != f0[k1 - 1]);
                        lemma_not_taken(f0, k1 - 1, c2, k1 - 1);
                        lemma_join(o1, o2, f0, c2, c, k1 - 1);
                        on = o1.union_prefer_right(o2);
                        assert forall|t: u64, x: int| o1.contains_key(t) && 0 <= o1[t].0 <= 1 && 0 <= x < 512 implies #[trigger] ent(
                            mc,
                            t,
                            x,
                        ) == ent(ma, t, x) by {
                            lemma_taken_widen(f0, c, k1 - 1, c, k1, t);
                            lemma_taken_kept(ma, mb, f0, c, k1, c2, c, t);
                            lemma_taken_widen(f0, c, k1 - 1, c2, k1 - 1, t);
                            lemma_write_reads(mb, n, i as int, v, t, x);
                        }
                        assert forall|t: u64, x: int| o2.contains_key(t) && 0 <= o2[t].0 <= 1 && 0 <= x < 512 implies #[trigger] ent(
                            mc,
                            t,
                            x,
                        ) == ent(mb, t, x) by {
                            lemma_taken_widen(f0, c2, c, c2, k1 - 1, t);
                            lemma_write_reads(mb, n, i as int, v, t, x);
                        }
                        assert forall|i2: int| 4 <= i2 <= i implies #[trigger] root_owned_slot(mc, on, n, i2) by {
                            lemma_write_reads(mb, n, i as int, v, n, i2);
                            assert(ent(mb, n, i2) == ent(ma, n, i2));
                            if i2 < i {
                                assert(root_owned_slot(ma, o1, n, i2));
                                if valid(ent(ma, n, i2)) && !leaf(ent(ma, n, i2)) {
                                    lemma_l1_owned_moved(ma, mc, o1, on, pa(ent(ma, n, i2)), i2);
                                }
                            } else {
                                lemma_l1_owned_moved(mb, mc, o2, on, child, i2);
                            }
                        }
                    }
                },
            }
        } else {
            proof {
                assert(root_slot(ma, n, m0, src_root, f0, c, k1 - 1, i as int));
                lemma_pte_bits();
                assert(root_owned_slot(ma, on, n, i as int));
            }
        }
        i = i + 1;
    }
    proof {
        let c = frames@.len() as int;
        let m1 = mem@;
        assert forall|i2: int| idx_ok(i2) implies #[trigger] root_slot(m1, n, m0, src_root, f0, c, k1, i2) by {
            assert(root_slot(m1, n, m0, src_root, f0, c, k1 - 1, i2));
            let se2 = ent(m0, src_root, i2);
            if i2 >= 4 && valid(se2) && !leaf(se2) {
                lemma_l1_copy_widen(m1, pa(ent(m1, n, i2)), m0, pa(se2), f0, c, k1 - 1, c, k1);
            }
        }
        assert forall|t: u64, x: int| o.contains_key(t) && idx_ok(x) implies #[trigger] ent(m1, t, x) == ent(m0, t, x) by {
            assert(frame_ok(m0.len(), t));
        }
        lemma_tables_kept(m0, m1, src_root, f0, c, o);
        assert forall|va: u64| #[trigger] cloned_walk(m1, n, m0, src_root, f0, c, va) by {
            lemma_cloned_walk(m1, n, m0, src_root, f0, o, c, va);
        }
        assert forall|i2: int| 0 <= i2 < 4 implies #[trigger] ent(m1, n, i2) == ent(m0, src_root, i2) by {
            assert(root_slot(m1, n, m0, src_root, f0, c, k1, i2));
        }
        lemma_clone_owner(m1, n, m0, src_root, f0, o, on, c);
        lemma_clone_leaves(m1, n, m0, src_root, f0, c);
    }
    Some(n)
}

} // verus!

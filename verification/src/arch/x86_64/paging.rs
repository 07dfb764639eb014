//! x86_64 4-level paging over a model of physical memory: the kernel identity
//! map lives in PML4[0]; user address spaces live in PML4[1..]
//! (VA 0x0000_0080_0000_0000 and up).
//!
//! A table tree is described by the *position* each table frame occupies:
//! the PML4 is at level 4, the PDPT under PML4 slot `i` at `(3, i)`, the PD
//! under `(i, j)` at `(2, i, j)`, and the PT under `(i, j, k)` at
//! `(1, i, j, k)`. The trees this module builds and updates give every table
//! frame one position only, and never use a free frame as a table.
use vstd::prelude::*;
use crate::memory::phys::{PhysMem, FrameAllocator, frame_ok, ent, zeroed, with_entry, lemma_frames_disjoint, lemma_entry_index, lemma_write_reads, taken_in, kept, distinct_frames, lemma_not_taken, lemma_kept_trans, lemma_kept_widen, lemma_kept_same, lemma_kept_write, lemma_kept_copy, lemma_copy_reads, unlisted, same_frame, lemma_taken_widen, lemma_taken_kept, clone_ctx, lemma_take_last};
use crate::arch::prot::{PROT_READ, PROT_WRITE, PROT_EXEC, PROT_USER};

verus! {

pub const PAGE_PRESENT: u64 = 0x1;
pub const PAGE_WRITABLE: u64 = 0x2;
pub const PAGE_USER: u64 = 0x4;
pub const PAGE_HUGE: u64 = 0x80;
/// Bits of an entry that hold the next table's (or the page's) address.
pub const ADDR_MASK: u64 = 0xFFFF_FFFF_FFFF_F000;
/// Flags of an intermediate entry this module creates.
pub const TABLE_FLAGS: u64 = 0x7;

/// Where a table frame sits in the tree: level, then the slot indices
/// leading to it (unused ones are 0).
pub type Pos = (int, int, int, int);

pub open spec fn present(e: u64) -> bool {
    e & PAGE_PRESENT != 0
}

pub open spec fn huge(e: u64) -> bool {
    e & PAGE_HUGE != 0
}

/// Address of the table (or page) an entry points to.
pub open spec fn tbl(e: u64) -> u64 {
    e & ADDR_MASK
}

pub open spec fn l4(va: u64) -> int {
    ((va >> 39u64) & 511) as int
}

pub open spec fn l3(va: u64) -> int {
    ((va >> 30u64) & 511) as int
}

pub open spec fn l2(va: u64) -> int {
    ((va >> 21u64) & 511) as int
}

pub open spec fn l1(va: u64) -> int {
    ((va >> 12u64) & 511) as int
}

pub open spec fn idx_ok(i: int) -> bool {
    0 <= i < 512
}

pub open spec fn e4(m: Seq<u64>, root: u64, i: int) -> u64 {
    ent(m, root, i)
}

/// PDPT under PML4 slot `i`.
pub open spec fn t3(m: Seq<u64>, root: u64, i: int) -> u64 {
    tbl(e4(m, root, i))
}

pub open spec fn e3(m: Seq<u64>, root: u64, i: int, j: int) -> u64 {
    ent(m, t3(m, root, i), j)
}

/// PD under `(i, j)`.
pub open spec fn t2(m: Seq<u64>, root: u64, i: int, j: int) -> u64 {
    tbl(e3(m, root, i, j))
}

pub open spec fn e2(m: Seq<u64>, root: u64, i: int, j: int, k: int) -> u64 {
    ent(m, t2(m, root, i, j), k)
}

/// PT under `(i, j, k)`.
pub open spec fn t1(m: Seq<u64>, root: u64, i: int, j: int, k: int) -> u64 {
    tbl(e2(m, root, i, j, k))
}

pub open spec fn e1(m: Seq<u64>, root: u64, i: int, j: int, k: int, l: int) -> u64 {
    ent(m, t1(m, root, i, j, k), l)
}

/// PML4 slot `i` points to a PDPT.
pub open spec fn has3(m: Seq<u64>, root: u64, i: int) -> bool {
    idx_ok(i) && present(e4(m, root, i))
}

/// PDPT slot `(i, j)` points to a PD.
pub open spec fn has2(m: Seq<u64>, root: u64, i: int, j: int) -> bool {
    has3(m, root, i) && idx_ok(j) && present(e3(m, root, i, j)) && !huge(e3(m, root, i, j))
}

/// PD slot `(i, j, k)` points to a PT.
pub open spec fn has1(m: Seq<u64>, root: u64, i: int, j: int, k: int) -> bool {
    has2(m, root, i, j) && idx_ok(k) && present(e2(m, root, i, j, k)) && !huge(e2(m, root, i, j, k))
}

/// The leaf entry translating `va` and the level it sits at (3: 1 GiB page,
/// 2: 2 MiB page, 1: 4 KiB page), or `None` when `va` is unmapped.
pub open spec fn walk(m: Seq<u64>, root: u64, va: u64) -> Option<(u64, int)> {
    let (i, j, k, l) = (l4(va), l3(va), l2(va), l1(va));
    if !present(e4(m, root, i)) {
        None
    } else if !present(e3(m, root, i, j)) {
        None
    } else if huge(e3(m, root, i, j)) {
        Some((e3(m, root, i, j), 3))
    } else if !present(e2(m, root, i, j, k)) {
        None
    } else if huge(e2(m, root, i, j, k)) {
        Some((e2(m, root, i, j, k), 2))
    } else if !present(e1(m, root, i, j, k, l)) {
        None
    } else {
        Some((e1(m, root, i, j, k, l), 1))
    }
}

/// `o` gives each table frame of the tree rooted at `root` its one position;
/// every such frame lies in memory, and no frame of `free` is one of them.
pub open spec fn owner_ok(m: Seq<u64>, root: u64, free: Seq<u64>, o: Map<u64, Pos>) -> bool {
    &&& o.contains_key(root) && o[root] == (4int, 0int, 0int, 0int)
    &&& forall|t: u64| #[trigger] o.contains_key(t) ==> frame_ok(m.len(), t)
    &&& forall|i: int| #[trigger] has3(m, root, i) ==> o.contains_key(t3(m, root, i))
        && o[t3(m, root, i)] == (3int, i, 0int, 0int)
    &&& forall|i: int, j: int| #[trigger] has2(m, root, i, j) ==> o.contains_key(t2(m, root, i, j))
        && o[t2(m, root, i, j)] == (2int, i, j, 0int)
    &&& forall|i: int, j: int, k: int| #[trigger] has1(m, root, i, j, k) ==> o.contains_key(t1(m, root, i, j, k))
        && o[t1(m, root, i, j, k)] == (1int, i, j, k)
    &&& forall|a: int| 0 <= a < free.len() ==> frame_ok(m.len(), #[trigger] free[a]) && !o.contains_key(free[a])
    &&& forall|a: int, b: int| 0 <= a < free.len() && 0 <= b < free.len() && a != b ==> #[trigger] free[a] != #[trigger] free[b]
}

/// The tree rooted at `root` in memory `m` is well formed with respect to the
/// free frames `free` (see `owner_ok`).
pub open spec fn pt_inv(m: Seq<u64>, root: u64, free: Seq<u64>) -> bool {
    exists|o: Map<u64, Pos>| owner_ok(m, root, free, o)
}

/// Table frames a mapping of `va` still has to create.
pub open spec fn frames_needed(m: Seq<u64>, root: u64, va: u64) -> int {
    let (i, j, k) = (l4(va), l3(va), l2(va));
    if !present(e4(m, root, i)) {
        3
    } else if !present(e3(m, root, i, j)) {
        2
    } else if !present(e2(m, root, i, j, k)) {
        1
    } else {
        0
    }
}

/// The walk to `va` runs into a 1 GiB or 2 MiB page, which a 4 KiB mapping
/// cannot be put under.
pub open spec fn blocked_by_huge(m: Seq<u64>, root: u64, va: u64) -> bool {
    let (i, j, k) = (l4(va), l3(va), l2(va));
    present(e4(m, root, i)) && present(e3(m, root, i, j)) && (huge(e3(m, root, i, j))
        || (present(e2(m, root, i, j, k)) && huge(e2(m, root, i, j, k))))
}

pub open spec fn leaf_flags(prot: u32) -> u64 {
    PAGE_PRESENT | (if prot & PROT_WRITE != 0 { PAGE_WRITABLE } else { 0 }) | (if prot & PROT_USER != 0 {
        PAGE_USER
    } else {
        0
    })
}

/// The 4 KiB leaf entry mapping physical page `pa` with protection `prot`.
pub open spec fn leaf_entry(pa: u64, prot: u32) -> u64 {
    (pa & ADDR_MASK) | leaf_flags(prot)
}

/// `va` and `vb` lie in the same 4 KiB page as far as the walk is concerned.
pub open spec fn same_page(va: u64, vb: u64) -> bool {
    l4(va) == l4(vb) && l3(va) == l3(vb) && l2(va) == l2(vb) && l1(va) == l1(vb)
}

/// A table link as this module writes it: present, writable and open to
/// user mode (`TABLE_FLAGS`), so the leaf's own bits decide the access.
pub open spec fn user_link(e: u64) -> bool {
    e & TABLE_FLAGS == TABLE_FLAGS
}

/// Every table link in the user half (PML4 slots 1-511) of the tree rooted
/// at `root` is a `user_link`.
pub open spec fn user_links(m: Seq<u64>, root: u64) -> bool {
    &&& forall|i: int| 1 <= i && #[trigger] has3(m, root, i) ==> user_link(e4(m, root, i))
    &&& forall|i: int, j: int| 1 <= i && #[trigger] has2(m, root, i, j) ==> user_link(e3(m, root, i, j))
    &&& forall|i: int, j: int, k: int| 1 <= i && #[trigger] has1(m, root, i, j, k) ==> user_link(e2(m, root, i, j, k))
}

/// The PML4, PDPT and PD entries on the walk to `va` are all `user_link`s:
/// the access user mode has to the page is what its leaf entry grants.
pub open spec fn user_path(m: Seq<u64>, root: u64, va: u64) -> bool {
    &&& user_link(e4(m, root, l4(va)))
    &&& user_link(e3(m, root, l4(va), l3(va)))
    &&& user_link(e2(m, root, l4(va), l3(va), l2(va)))
}

pub proof fn lemma_user_link(f: u64)
    ensures
        user_link(f | TABLE_FLAGS),
{
    assert((f | 7u64) & 7u64 == 7u64) by (bit_vector);
}

pub proof fn lemma_indices(va: u64)
    ensures
        idx_ok(l4(va)),
        idx_ok(l3(va)),
        idx_ok(l2(va)),
        idx_ok(l1(va)),
{
    assert((va >> 39u64) & 511 < 512 && (va >> 30u64) & 511 < 512 && (va >> 21u64) & 511 < 512
        && (va >> 12u64) & 511 < 512) by (bit_vector);
}

/// An entry linking a fresh frame `f` as a table is present, not huge, and
/// points back at `f`; a leaf entry is present.
pub proof fn lemma_entry_bits(f: u64, pa: u64, prot: u32)
    requires
        f % 4096 == 0,
    ensures
        present(f | TABLE_FLAGS),
        !huge(f | TABLE_FLAGS),
        tbl(f | TABLE_FLAGS) == f,
        present(leaf_entry(pa, prot)),
        tbl(leaf_entry(pa, prot)) == pa & ADDR_MASK,
        !present(0),
{
    assert((f | 7) & 1 != 0 && (f | 7) & 0x80 == 0 && (f | 7) & 0xFFFF_FFFF_FFFF_F000 == f) by (bit_vector)
        requires
            f % 4096 == 0,
    ;
    let w: u64 = if prot & PROT_WRITE != 0 { PAGE_WRITABLE } else { 0 };
    let u: u64 = if prot & PROT_USER != 0 { PAGE_USER } else { 0 };
    assert(w == 0 || w == 2);
    assert(u == 0 || u == 4);
    assert(((pa & 0xFFFF_FFFF_FFFF_F000) | (1 | w | u)) & 1 != 0
        && ((pa & 0xFFFF_FFFF_FFFF_F000) | (1 | w | u)) & 0xFFFF_FFFF_FFFF_F000 == pa & 0xFFFF_FFFF_FFFF_F000
        && 0u64 & 1 == 0) by (bit_vector)
        requires
            w == 0 || w == 2,
            u == 0 || u == 4,
    ;
}

/// Table addresses taken from entries are frame aligned.
pub proof fn lemma_tbl_aligned(e: u64)
    ensures
        tbl(e) % 4096 == 0,
{
    assert((e & 0xFFFF_FFFF_FFFF_F000) % 4096 == 0) by (bit_vector);
}

/// Memory after linking the fresh frame `f`, cleared, as the table under
/// slot `idx` of table `t`.
pub open spec fn install(m: Seq<u64>, f: u64, t: u64, idx: int) -> Seq<u64> {
    with_entry(zeroed(m, f), t, idx, f | TABLE_FLAGS)
}

proof fn lemma_install_reads(m: Seq<u64>, f: u64, t: u64, idx: int, s: u64, k: int)
    requires
        frame_ok(m.len(), f),
        frame_ok(m.len(), t),
        frame_ok(m.len(), s),
        f != t,
        idx_ok(idx),
        idx_ok(k),
    ensures
        ent(install(m, f, t, idx), s, k) == if s == t && k == idx {
            f | TABLE_FLAGS
        } else if s == f {
            0
        } else {
            ent(m, s, k)
        },
        install(m, f, t, idx).len() == m.len(),
{
    if s != t {
        lemma_frames_disjoint(s, t, k, idx);
    }
    if s != f {
        lemma_frames_disjoint(s, f, k, 0);
    } else {
        lemma_frames_disjoint(f, t, k, idx);
    }
}

/// Linking a fresh table under an empty PML4 slot changes no translation and
/// keeps the tree well formed with one frame fewer free.
proof fn lemma_install_l4(m: Seq<u64>, root: u64, free: Seq<u64>, i0: int)
    requires
        pt_inv(m, root, free),
        free.len() > 0,
        idx_ok(i0),
        !present(e4(m, root, i0)),
    ensures
        ({
            let f = free.last();
            let m2 = install(m, f, root, i0);
            &&& m2.len() == m.len()
            &&& forall|va: u64| #[trigger] walk(m2, root, va) == walk(m, root, va)
            &&& pt_inv(m2, root, free.drop_last())
            &&& has3(m2, root, i0)
            &&& t3(m2, root, i0) == f
            &&& forall|j: int| idx_ok(j) ==> !present(#[trigger] e3(m2, root, i0, j))
            &&& user_links(m, root) ==> user_links(m2, root)
        }),
{
    let o = choose|o: Map<u64, Pos>| owner_ok(m, root, free, o);
    let f = free.last();
    let m2 = install(m, f, root, i0);
    let free2 = free.drop_last();
    assert(frame_ok(m.len(), f) && !o.contains_key(f));
    lemma_entry_bits(f, 0, 0);
    assert forall|i: int| idx_ok(i) implies #[trigger] e4(m2, root, i) == if i == i0 {
        f | TABLE_FLAGS
    } else {
        e4(m, root, i)
    } by {
        lemma_install_reads(m, f, root, i0, root, i);
    }
    assert forall|j: int| idx_ok(j) implies !present(#[trigger] e3(m2, root, i0, j)) by {
        lemma_install_reads(m, f, root, i0, f, j);
    }
    assert forall|i: int, j: int| has3(m, root, i) && idx_ok(j) implies #[trigger] e3(m2, root, i, j)
        == e3(m, root, i, j) && t3(m2, root, i) == t3(m, root, i) by {
        lemma_install_reads(m, f, root, i0, t3(m, root, i), j);
    }
    assert forall|i: int, j: int, k: int| has2(m, root, i, j) && idx_ok(k) implies #[trigger] e2(m2, root, i, j, k)
        == e2(m, root, i, j, k) by {
        lemma_install_reads(m, f, root, i0, t3(m, root, i), j);
        lemma_install_reads(m, f, root, i0, t2(m, root, i, j), k);
    }
    assert forall|i: int, j: int, k: int, l: int| has1(m, root, i, j, k) && idx_ok(l) implies #[trigger] e1(m2, root, i, j, k, l)
        == e1(m, root, i, j, k, l) by {
        lemma_install_reads(m, f, root, i0, t3(m, root, i), j);
        lemma_install_reads(m, f, root, i0, t2(m, root, i, j), k);
        lemma_install_reads(m, f, root, i0, t1(m, root, i, j, k), l);
    }
    assert forall|va: u64| #[trigger] walk(m2, root, va) == walk(m, root, va) by {
        lemma_indices(va);
        let (i, j, k, l) = (l4(va), l3(va), l2(va), l1(va));
        if i != i0 && has3(m, root, i) {
            assert(e3(m2, root, i, j) == e3(m, root, i, j));
            if has2(m, root, i, j) {
                assert(e2(m2, root, i, j, k) == e2(m, root, i, j, k));
                if has1(m, root, i, j, k) {
                    assert(e1(m2, root, i, j, k, l) == e1(m, root, i, j, k, l));
                }
            }
        }
    }
    if user_links(m, root) {
        lemma_user_link(f);
        assert forall|i: int| 1 <= i && #[trigger] has3(m2, root, i) implies user_link(e4(m2, root, i)) by {
            if i != i0 {
                assert(has3(m, root, i));
            }
        }
        assert forall|i: int, j: int| 1 <= i && #[trigger] has2(m2, root, i, j) implies user_link(e3(m2, root, i, j)) by {
            assert(i != i0);
            assert(has3(m, root, i));
            assert(has2(m, root, i, j));
        }
        assert forall|i: int, j: int, k: int| 1 <= i && #[trigger] has1(m2, root, i, j, k) implies user_link(e2(m2, root, i, j, k)) by {
            assert(i != i0);
            assert(has3(m, root, i));
            assert(has2(m, root, i, j));
            assert(has1(m, root, i, j, k));
        }
    }
    let o2 = o.insert(f, (3int, i0, 0int, 0int));
    assert forall|i: int| #[trigger] has3(m2, root, i) implies o2.contains_key(t3(m2, root, i))
        && o2[t3(m2, root, i)] == (3int, i, 0int, 0int) by {
        if i != i0 {
            assert(has3(m, root, i));
        }
    }
    assert forall|i: int, j: int| #[trigger] has2(m2, root, i, j) implies o2.contains_key(t2(m2, root, i, j))
        && o2[t2(m2, root, i, j)] == (2int, i, j, 0int) by {
        assert(i != i0);
        assert(has3(m, root, i));
        assert(has2(m, root, i, j));
    }
    assert forall|i: int, j: int, k: int| #[trigger] has1(m2, root, i, j, k) implies o2.contains_key(t1(m2, root, i, j, k))
        && o2[t1(m2, root, i, j, k)] == (1int, i, j, k) by {
        assert(i != i0);
        assert(has3(m, root, i));
        assert(has2(m, root, i, j));
        assert(has1(m, root, i, j, k));
    }
    assert forall|a: int| 0 <= a < free2.len() implies frame_ok(m2.len(), #[trigger] free2[a]) && !o2.contains_key(free2[a]) by {
        assert(free2[a] == free[a]);
        assert(free[a] != free[free.len() - 1]);
    }
    assert forall|a: int, b: int| 0 <= a < free2.len() && 0 <= b < free2.len() && a != b implies #[trigger] free2[a] != #[trigger] free2[b] by {
        assert(free2[a] == free[a] && free2[b] == free[b]);
    }
    assert(owner_ok(m2, root, free2, o2));
}

/// The frames a well-formed tree is built from lie in memory, and no free
/// frame is its root.
pub proof fn lemma_inv_frames(m: Seq<u64>, root: u64, free: Seq<u64>)
    requires
        pt_inv(m, root, free),
    ensures
        frame_ok(m.len(), root),
        forall|i: int| #[trigger] has3(m, root, i) ==> frame_ok(m.len(), t3(m, root, i)),
        forall|i: int, j: int| #[trigger] has2(m, root, i, j) ==> frame_ok(m.len(), t2(m, root, i, j)),
        forall|i: int, j: int, k: int| #[trigger] has1(m, root, i, j, k) ==> frame_ok(m.len(), t1(m, root, i, j, k)),
        forall|a: int| 0 <= a < free.len() ==> frame_ok(m.len(), #[trigger] free[a]) && free[a] != root,
{
    let o = choose|o: Map<u64, Pos>| owner_ok(m, root, free, o);
    assert forall|i: int| #[trigger] has3(m, root, i) implies frame_ok(m.len(), t3(m, root, i)) by {
        assert(o.contains_key(t3(m, root, i)));
    }
    assert forall|i: int, j: int| #[trigger] has2(m, root, i, j) implies frame_ok(m.len(), t2(m, root, i, j)) by {
        assert(o.contains_key(t2(m, root, i, j)));
    }
    assert forall|i: int, j: int, k: int| #[trigger] has1(m, root, i, j, k) implies frame_ok(m.len(), t1(m, root, i, j, k)) by {
        assert(o.contains_key(t1(m, root, i, j, k)));
    }
}

/// Linking a fresh table under an empty slot `(i0, j0)` of an existing PDPT
/// changes no translation and keeps the tree well formed.
proof fn lemma_install_l3(m: Seq<u64>, root: u64, free: Seq<u64>, i0: int, j0: int)
    requires
        pt_inv(m, root, free),
        free.len() > 0,
        has3(m, root, i0),
        idx_ok(j0),
        !present(e3(m, root, i0, j0)),
    ensures
        ({
            let f = free.last();
            let m2 = install(m, f, t3(m, root, i0), j0);
            &&& m2.len() == m.len()
            &&& forall|va: u64| #[trigger] walk(m2, root, va) == walk(m, root, va)
            &&& pt_inv(m2, root, free.drop_last())
            &&& has2(m2, root, i0, j0)
            &&& t3(m2, root, i0) == t3(m, root, i0)
            &&& t2(m2, root, i0, j0) == f
            &&& forall|k: int| idx_ok(k) ==> !present(#[trigger] e2(m2, root, i0, j0, k))
            &&& user_links(m, root) ==> user_links(m2, root)
        }),
{
    let o = choose|o: Map<u64, Pos>| owner_ok(m, root, free, o);
    let f = free.last();
    let p = t3(m, root, i0);
    let m2 = install(m, f, p, j0);
    let free2 = free.drop_last();
    assert(frame_ok(m.len(), f) && !o.contains_key(f));
    assert(o.contains_key(p) && o[p] == (3int, i0, 0int, 0int));
    lemma_entry_bits(f, 0, 0);
    assert forall|i: int| idx_ok(i) implies #[trigger] e4(m2, root, i) == e4(m, root, i) by {
        lemma_install_reads(m, f, p, j0, root, i);
    }
    assert forall|i: int, j: int| has3(m, root, i) && idx_ok(j) implies #[trigger] e3(m2, root, i, j) == if i
        == i0 && j == j0 {
        f | TABLE_FLAGS
    } else {
        e3(m, root, i, j)
    } by {
        assert(e4(m2, root, i) == e4(m, root, i));
        assert(o.contains_key(t3(m, root, i)));
        lemma_install_reads(m, f, p, j0, t3(m, root, i), j);
    }
    assert forall|k: int| idx_ok(k) implies !present(#[trigger] e2(m2, root, i0, j0, k)) by {
        assert(e3(m2, root, i0, j0) == f | TABLE_FLAGS);
        lemma_install_reads(m, f, p, j0, f, k);
    }
    assert forall|i: int, j: int, k: int| has2(m, root, i, j) && idx_ok(k) implies #[trigger] e2(m2, root, i, j, k)
        == e2(m, root, i, j, k) by {
        assert(e3(m2, root, i, j) == e3(m, root, i, j));
        assert(o.contains_key(t2(m, root, i, j)));
        lemma_install_reads(m, f, p, j0, t2(m, root, i, j), k);
    }
    assert forall|i: int, j: int, k: int, l: int| has1(m, root, i, j, k) && idx_ok(l) implies #[trigger] e1(m2, root, i, j, k, l)
        == e1(m, root, i, j, k, l) by {
        assert(e2(m2, root, i, j, k) == e2(m, root, i, j, k));
        assert(o.contains_key(t1(m, root, i, j, k)));
        lemma_install_reads(m, f, p, j0, t1(m, root, i, j, k), l);
    }
    assert forall|va: u64| #[trigger] walk(m2, root, va) == walk(m, root, va) by {
        lemma_indices(va);
        let (i, j, k, l) = (l4(va), l3(va), l2(va), l1(va));
        assert(e4(m2, root, i) == e4(m, root, i));
        if has3(m, root, i) {
            assert(e3(m2, root, i, j) == if i == i0 && j == j0 { f | TABLE_FLAGS } else { e3(m, root, i, j) });
            if i == i0 && j == j0 {
                assert(!present(e2(m2, root, i, j, k)));
            } else if has2(m, root, i, j) {
                assert(e2(m2, root, i, j, k) == e2(m, root, i, j, k));
                if has1(m, root, i, j, k) {
                    assert(e1(m2, root, i, j, k, l) == e1(m, root, i, j, k, l));
                }
            }
        }
    }
    if user_links(m, root) {
        lemma_user_link(f);
        assert forall|i: int| 1 <= i && #[trigger] has3(m2, root, i) implies user_link(e4(m2, root, i)) by {
            assert(has3(m, root, i));
        }
        assert forall|i: int, j: int| 1 <= i && #[trigger] has2(m2, root, i, j) implies user_link(e3(m2, root, i, j)) by {
            assert(has3(m, root, i));
            assert(e3(m2, root, i, j) == if i == i0 && j == j0 { f | TABLE_FLAGS } else { e3(m, root, i, j) });
            if !(i == i0 && j == j0) {
                assert(has2(m, root, i, j));
            }
        }
        assert forall|i: int, j: int, k: int| 1 <= i && #[trigger] has1(m2, root, i, j, k) implies user_link(e2(m2, root, i, j, k)) by {
            assert(has3(m, root, i));
            assert(e3(m2, root, i, j) == if i == i0 && j == j0 { f | TABLE_FLAGS } else { e3(m, root, i, j) });
            assert(!(i == i0 && j == j0));
            assert(has2(m, root, i, j));
            assert(has1(m, root, i, j, k));
        }
    }
    let o2 = o.insert(f, (2int, i0, j0, 0int));
    assert forall|i: int| #[trigger] has3(m2, root, i) implies o2.contains_key(t3(m2, root, i))
        && o2[t3(m2, root, i)] == (3int, i, 0int, 0int) by {
        assert(has3(m, root, i));
        assert(o.contains_key(t3(m, root, i)));
    }
    assert forall|i: int, j: int| #[trigger] has2(m2, root, i, j) implies o2.contains_key(t2(m2, root, i, j))
        && o2[t2(m2, root, i, j)] == (2int, i, j, 0int) by {
        assert(has3(m, root, i));
        assert(e3(m2, root, i, j) == if i == i0 && j == j0 { f | TABLE_FLAGS } else { e3(m, root, i, j) });
        if !(i == i0 && j == j0) {
            assert(has2(m, root, i, j));
            assert(o.contains_key(t2(m, root, i, j)));
        }
    }
    assert forall|i: int, j: int, k: int| #[trigger] has1(m2, root, i, j, k) implies o2.contains_key(t1(m2, root, i, j, k))
        && o2[t1(m2, root, i, j, k)] == (1int, i, j, k) by {
        assert(has3(m, root, i));
        assert(e3(m2, root, i, j) == if i == i0 && j == j0 { f | TABLE_FLAGS } else { e3(m, root, i, j) });
        assert(!(i == i0 && j == j0));
        assert(has2(m, root, i, j));
        assert(has1(m, root, i, j, k));
        assert(o.contains_key(t1(m, root, i, j, k)));
    }
    assert forall|a: int| 0 <= a < free2.len() implies frame_ok(m2.len(), #[trigger] free2[a]) && !o2.contains_key(free2[a]) by {
        assert(free2[a] == free[a]);
        assert(free[a] != free[free.len() - 1]);
    }
    assert forall|a: int, b: int| 0 <= a < free2.len() && 0 <= b < free2.len() && a != b implies #[trigger] free2[a] != #[trigger] free2[b] by {
        assert(free2[a] == free[a] && free2[b] == free[b]);
    }
    assert(owner_ok(m2, root, free2, o2));
}

/// Linking a fresh table under an empty slot `(i0, j0, k0)` of an existing
/// PD changes no translation and keeps the tree well formed.
proof fn lemma_install_l2(m: Seq<u64>, root: u64, free: Seq<u64>, i0: int, j0: int, k0: int)
    requires
        pt_inv(m, root, free),
        free.len() > 0,
        has2(m, root, i0, j0),
        idx_ok(k0),
        !present(e2(m, root, i0, j0, k0)),
    ensures
        ({
            let f = free.last();
            let m2 = install(m, f, t2(m, root, i0, j0), k0);
            &&& m2.len() == m.len()
            &&& forall|va: u64| #[trigger] walk(m2, root, va) == walk(m, root, va)
            &&& pt_inv(m2, root, free.drop_last())
            &&& has1(m2, root, i0, j0, k0)
            &&& t2(m2, root, i0, j0) == t2(m, root, i0, j0)
            &&& t1(m2, root, i0, j0, k0) == f
            &&& user_links(m, root) ==> user_links(m2, root)
        }),
{
    let o = choose|o: Map<u64, Pos>| owner_ok(m, root, free, o);
    let f = free.last();
    let p = t2(m, root, i0, j0);
    let m2 = install(m, f, p, k0);
    let free2 = free.drop_last();
    assert(frame_ok(m.len(), f) && !o.contains_key(f));
    assert(o.contains_key(p) && o[p] == (2int, i0, j0, 0int));
    lemma_entry_bits(f, 0, 0);
    assert forall|i: int| idx_ok(i) implies #[trigger] e4(m2, root, i) == e4(m, root, i) by {
        lemma_install_reads(m, f, p, k0, root, i);
    }
    assert forall|i: int, j: int| has3(m, root, i) && idx_ok(j) implies #[trigger] e3(m2, root, i, j) == e3(m, root, i, j) by {
        assert(e4(m2, root, i) == e4(m, root, i));
        assert(o.contains_key(t3(m, root, i)));
        lemma_install_reads(m, f, p, k0, t3(m, root, i), j);
    }
    assert forall|i: int, j: int, k: int| has2(m, root, i, j) && idx_ok(k) implies #[trigger] e2(m2, root, i, j, k)
        == if i == i0 && j == j0 && k == k0 {
        f | TABLE_FLAGS
    } else {
        e2(m, root, i, j, k)
    } by {
        assert(e3(m2, root, i, j) == e3(m, root, i, j));
        assert(o.contains_key(t2(m, root, i, j)));
        lemma_install_reads(m, f, p, k0, t2(m, root, i, j), k);
    }
    assert forall|l: int| idx_ok(l) implies !present(#[trigger] e1(m2, root, i0, j0, k0, l)) by {
        assert(e2(m2, root, i0, j0, k0) == f | TABLE_FLAGS);
        lemma_install_reads(m, f, p, k0, f, l);
    }
    assert forall|i: int, j: int, k: int, l: int| has1(m, root, i, j, k) && idx_ok(l) implies #[trigger] e1(m2, root, i, j, k, l)
        == e1(m, root, i, j, k, l) by {
        assert(e2(m2, root, i, j, k) == e2(m, root, i, j, k));
        assert(o.contains_key(t1(m, root, i, j, k)));
        lemma_install_reads(m, f, p, k0, t1(m, root, i, j, k), l);
    }
    assert forall|va: u64| #[trigger] walk(m2, root, va) == walk(m, root, va) by {
        lemma_indices(va);
        let (i, j, k, l) = (l4(va), l3(va), l2(va), l1(va));
        assert(e4(m2, root, i) == e4(m, root, i));
        if has3(m, root, i) {
            assert(e3(m2, root, i, j) == e3(m, root, i, j));
            if has2(m, root, i, j) {
                assert(e2(m2, root, i, j, k) == if i == i0 && j == j0 && k == k0 { f | TABLE_FLAGS } else { e2(m, root, i, j, k) });
                if i == i0 && j == j0 && k == k0 {
                    assert(!present(e1(m2, root, i, j, k, l)));
                } else if has1(m, root, i, j, k) {
                    assert(e1(m2, root, i, j, k, l) == e1(m, root, i, j, k, l));
                }
            }
        }
    }
    if user_links(m, root) {
        lemma_user_link(f);
        assert forall|i: int| 1 <= i && #[trigger] has3(m2, root, i) implies user_link(e4(m2, root, i)) by {
            assert(has3(m, root, i));
        }
        assert forall|i: int, j: int| 1 <= i && #[trigger] has2(m2, root, i, j) implies user_link(e3(m2, root, i, j)) by {
            assert(has3(m, root, i));
            assert(e3(m2, root, i, j) == e3(m, root, i, j));
            assert(has2(m, root, i, j));
        }
        assert forall|i: int, j: int, k: int| 1 <= i && #[trigger] has1(m2, root, i, j, k) implies user_link(e2(m2, root, i, j, k)) by {
            assert(has3(m, root, i));
            assert(e3(m2, root, i, j) == e3(m, root, i, j));
            assert(has2(m, root, i, j));
            assert(e2(m2, root, i, j, k) == if i == i0 && j == j0 && k == k0 { f | TABLE_FLAGS } else { e2(m, root, i, j, k) });
            if !(i == i0 && j == j0 && k == k0) {
                assert(has1(m, root, i, j, k));
            }
        }
    }
    let o2 = o.insert(f, (1int, i0, j0, k0));
    assert forall|i: int| #[trigger] has3(m2, root, i) implies o2.contains_key(t3(m2, root, i))
        && o2[t3(m2, root, i)] == (3int, i, 0int, 0int) by {
        assert(has3(m, root, i));
        assert(o.contains_key(t3(m, root, i)));
    }
    assert forall|i: int, j: int| #[trigger] has2(m2, root, i, j) implies o2.contains_key(t2(m2, root, i, j))
        && o2[t2(m2, root, i, j)] == (2int, i, j, 0int) by {
        assert(has3(m, root, i));
        assert(e3(m2, root, i, j) == e3(m, root, i, j));
        assert(has2(m, root, i, j));
        assert(o.contains_key(t2(m, root, i, j)));
    }
    assert forall|i: int, j: int, k: int| #[trigger] has1(m2, root, i, j, k) implies o2.contains_key(t1(m2, root, i, j, k))
        && o2[t1(m2, root, i, j, k)] == (1int, i, j, k) by {
        assert(has3(m, root, i));
        assert(e3(m2, root, i, j) == e3(m, root, i, j));
        assert(has2(m, root, i, j));
        assert(e2(m2, root, i, j, k) == if i == i0 && j == j0 && k == k0 { f | TABLE_FLAGS } else { e2(m, root, i, j, k) });
        if !(i == i0 && j == j0 && k == k0) {
            assert(has1(m, root, i, j, k));
            assert(o.contains_key(t1(m, root, i, j, k)));
        }
    }
    assert forall|a: int| 0 <= a < free2.len() implies frame_ok(m2.len(), #[trigger] free2[a]) && !o2.contains_key(free2[a]) by {
        assert(free2[a] == free[a]);
        assert(free[a] != free[free.len() - 1]);
    }
    assert forall|a: int, b: int| 0 <= a < free2.len() && 0 <= b < free2.len() && a != b implies #[trigger] free2[a] != #[trigger] free2[b] by {
        assert(free2[a] == free[a] && free2[b] == free[b]);
    }
    assert(owner_ok(m2, root, free2, o2));
}

/// Writing a leaf entry into slot `l0` of the PT at `(i0, j0, k0)` changes
/// the translation of that one page only and keeps the tree well formed.
proof fn lemma_write_leaf(m: Seq<u64>, root: u64, free: Seq<u64>, i0: int, j0: int, k0: int, l0: int, v: u64)
    requires
        pt_inv(m, root, free),
        has1(m, root, i0, j0, k0),
        idx_ok(l0),
        present(v),
    ensures
        ({
            let m2 = with_entry(m, t1(m, root, i0, j0, k0), l0, v);
            &&& m2.len() == m.len()
            &&& pt_inv(m2, root, free)
            &&& has1(m2, root, i0, j0, k0)
            &&& t1(m2, root, i0, j0, k0) == t1(m, root, i0, j0, k0)
            &&& user_links(m, root) ==> user_links(m2, root)
            &&& forall|va: u64| #[trigger] walk(m2, root, va) == if l4(va) == i0 && l3(va) == j0 && l2(va)
                == k0 && l1(va) == l0 {
                Some((v, 1int))
            } else {
                walk(m, root, va)
            }
        }),
{
    let o = choose|o: Map<u64, Pos>| owner_ok(m, root, free, o);
    let p = t1(m, root, i0, j0, k0);
    let m2 = with_entry(m, p, l0, v);
    assert(o.contains_key(p) && o[p] == (1int, i0, j0, k0));
    assert forall|i: int| idx_ok(i) implies #[trigger] e4(m2, root, i) == e4(m, root, i) by {
        lemma_write_reads(m, p, l0, v, root, i);
    }
    assert forall|i: int, j: int| has3(m, root, i) && idx_ok(j) implies #[trigger] e3(m2, root, i, j) == e3(m, root, i, j) by {
        assert(e4(m2, root, i) == e4(m, root, i));
        assert(o.contains_key(t3(m, root, i)));
        lemma_write_reads(m, p, l0, v, t3(m, root, i), j);
    }
    assert forall|i: int, j: int, k: int| has2(m, root, i, j) && idx_ok(k) implies #[trigger] e2(m2, root, i, j, k)
        == e2(m, root, i, j, k) by {
        assert(e3(m2, root, i, j) == e3(m, root, i, j));
        assert(o.contains_key(t2(m, root, i, j)));
        lemma_write_reads(m, p, l0, v, t2(m, root, i, j), k);
    }
    assert forall|i: int, j: int, k: int, l: int| has1(m, root, i, j, k) && idx_ok(l) implies #[trigger] e1(m2, root, i, j, k, l)
        == if i == i0 && j == j0 && k == k0 && l == l0 {
        v
    } else {
        e1(m, root, i, j, k, l)
    } by {
        assert(e2(m2, root, i, j, k) == e2(m, root, i, j, k));
        assert(o.contains_key(t1(m, root, i, j, k)));
        lemma_write_reads(m, p, l0, v, t1(m, root, i, j, k), l);
    }
    assert forall|va: u64| #[trigger] walk(m2, root, va) == if l4(va) == i0 && l3(va) == j0 && l2(va) == k0
        && l1(va) == l0 {
        Some((v, 1int))
    } else {
        walk(m, root, va)
    } by {
        lemma_indices(va);
        let (i, j, k, l) = (l4(va), l3(va), l2(va), l1(va));
        assert(e4(m2, root, i) == e4(m, root, i));
        if has3(m, root, i) {
            assert(e3(m2, root, i, j) == e3(m, root, i, j));
            if has2(m, root, i, j) {
                assert(e2(m2, root, i, j, k) == e2(m, root, i, j, k));
                if has1(m, root, i, j, k) {
                    assert(e1(m2, root, i, j, k, l) == if i == i0 && j == j0 && k == k0 && l == l0 {
                        v
                    } else {
                        e1(m, root, i, j, k, l)
                    });
                }
            }
        }
    }
    assert forall|i: int| #[trigger] has3(m2, root, i) implies o.contains_key(t3(m2, root, i))
        && o[t3(m2, root, i)] == (3int, i, 0int, 0int) by {
        assert(has3(m, root, i));
    }
    assert forall|i: int, j: int| #[trigger] has2(m2, root, i, j) implies o.contains_key(t2(m2, root, i, j))
        && o[t2(m2, root, i, j)] == (2int, i, j, 0int) by {
        assert(has3(m, root, i));
        assert(e3(m2, root, i, j) == e3(m, root, i, j));
        assert(has2(m, root, i, j));
    }
    assert forall|i: int, j: int, k: int| #[trigger] has1(m2, root, i, j, k) implies o.contains_key(t1(m2, root, i, j, k))
        && o[t1(m2, root, i, j, k)] == (1int, i, j, k) by {
        assert(has3(m, root, i));
        assert(e3(m2, root, i, j) == e3(m, root, i, j));
        assert(has2(m, root, i, j));
        assert(e2(m2, root, i, j, k) == e2(m, root, i, j, k));
        assert(has1(m, root, i, j, k));
    }
    if user_links(m, root) {
        assert forall|i: int| 1 <= i && #[trigger] has3(m2, root, i) implies user_link(e4(m2, root, i)) by {
            assert(has3(m, root, i));
        }
        assert forall|i: int, j: int| 1 <= i && #[trigger] has2(m2, root, i, j) implies user_link(e3(m2, root, i, j)) by {
            assert(has3(m, root, i));
            assert(e3(m2, root, i, j) == e3(m, root, i, j));
            assert(has2(m, root, i, j));
        }
        assert forall|i: int, j: int, k: int| 1 <= i && #[trigger] has1(m2, root, i, j, k) implies user_link(e2(m2, root, i, j, k)) by {
            assert(has3(m, root, i));
            assert(e3(m2, root, i, j) == e3(m, root, i, j));
            assert(has2(m, root, i, j));
            assert(e2(m2, root, i, j, k) == e2(m, root, i, j, k));
            assert(has1(m, root, i, j, k));
        }
    }
    assert(owner_ok(m2, root, free, o));
    assert(e4(m2, root, i0) == e4(m, root, i0));
    assert(e3(m2, root, i0, j0) == e3(m, root, i0, j0));
    assert(e2(m2, root, i0, j0, k0) == e2(m, root, i0, j0, k0));
}

/// Free frames `map_user_page` uses up out of `avail`: the tables the walk
/// to `va` lacks, or every free frame when there are too few.
pub open spec fn frames_taken(m: Seq<u64>, root: u64, va: u64, avail: int) -> int {
    if l4(va) == 0 || blocked_by_huge(m, root, va) {
        0
    } else if frames_needed(m, root, va) <= avail {
        frames_needed(m, root, va)
    } else {
        avail
    }
}

/// Map the 4 KiB page at `va` to physical page `pa` in the tree rooted at
/// `pml4_phys`, creating missing PDPT, PD and PT tables from `frames`.
///
/// Fails for the kernel slot PML4[0], under a 1 GiB or 2 MiB page, and when
/// the frames run out; tables created before running out stay linked, and a
/// failure that took no frame writes nothing. No other page's translation
/// changes, in success or failure. New tables are linked present, writable
/// and user (`TABLE_FLAGS`): in a tree whose user-half links all are
/// (`user_links`), they all stay so, and every link on the walk to the
/// mapped page is one.
#[verifier::spinoff_prover]
pub fn map_user_page(mem: &mut PhysMem, frames: &mut FrameAllocator, pml4_phys: u64, va: u64, pa: u64, prot: u32) -> (ok: bool)
    requires
        pt_inv(old(mem)@, pml4_phys, old(frames)@),
    ensures
        final(mem)@.len() == old(mem)@.len(),
        pt_inv(final(mem)@, pml4_phys, final(frames)@),
        ok == (l4(va) != 0 && !blocked_by_huge(old(mem)@, pml4_phys, va) && frames_needed(old(mem)@, pml4_phys, va)
            <= old(frames)@.len()),
        forall|vb: u64| #[trigger] walk(final(mem)@, pml4_phys, vb) == if ok && same_page(va, vb) {
            Some((leaf_entry(pa, prot), 1int))
        } else {
            walk(old(mem)@, pml4_phys, vb)
        },
        final(frames)@ == old(frames)@.take(
            old(frames)@.len() - frames_taken(old(mem)@, pml4_phys, va, old(frames)@.len() as int),
        ),
        !ok && frames_taken(old(mem)@, pml4_phys, va, old(frames)@.len() as int) == 0 ==> final(mem)@ == old(mem)@,
        user_links(old(mem)@, pml4_phys) ==> user_links(final(mem)@, pml4_phys),
        ok && user_links(old(mem)@, pml4_phys) ==> user_path(final(mem)@, pml4_phys, va),
        ok && frames_needed(old(mem)@, pml4_phys, va) == 0 ==> final(mem)@ == with_entry(
            old(mem)@,
            t1(old(mem)@, pml4_phys, l4(va), l3(va), l2(va)),
            l1(va),
            leaf_entry(pa, prot),
        ),
{
    let ghost m0 = mem@;
    let ghost fr0 = frames@;
    let root = pml4_phys;
    let i: u64 = (va >> 39u64) & 511;
    let j: u64 = (va >> 30u64) & 511;
    let k: u64 = (va >> 21u64) & 511;
    let l: u64 = (va >> 12u64) & 511;
    proof {
        lemma_indices(va);
        lemma_inv_frames(m0, root, fr0);
        assert(fr0.take(fr0.len() as int) =~= fr0);
    }
    if i == 0 {
        return false;
    }
    let w: u64 = if prot & PROT_WRITE != 0 { PAGE_WRITABLE } else { 0 };
    let u: u64 = if prot & PROT_USER != 0 { PAGE_USER } else { 0 };
    let leaf = (pa & ADDR_MASK) | (PAGE_PRESENT | w | u);
    proof {
        lemma_entry_bits(0, pa, prot);
    }

    // PML4 slot: the PDPT.
    let e = mem.read_entry(root, i);
    let pdpt: u64;
    if e & PAGE_PRESENT != 0 {
        pdpt = e & ADDR_MASK;
    } else {
        let ghost fr = frames@;
        match frames.alloc_page() {
            None => {
                return false;
            },
            Some(f) => {
                proof {
                    lemma_install_l4(m0, root, fr0, i as int);
                    lemma_entry_bits(f, 0, 0);
                    assert(fr0.take(fr0.len() - 1) =~= fr0.drop_last());
                }
                mem.zero_frame(f);
                mem.write_entry(root, i, f | TABLE_FLAGS);
                pdpt = f;
            },
        }
    }
    let ghost m1 = mem@;
    let ghost fr1 = frames@;
    let ghost n1: int = if present(e4(m0, root, i as int)) { 0 } else { 1 };
    assert(pt_inv(m1, root, fr1));
    assert(forall|vb: u64| #[trigger] walk(m1, root, vb) == walk(m0, root, vb));
    assert(has3(m1, root, i as int) && t3(m1, root, i as int) == pdpt);
    assert(fr1 == fr0.take(fr0.len() - n1));
    assert(present(e4(m0, root, i as int)) ==> m1 == m0);
    assert(!present(e4(m0, root, i as int)) ==> forall|jj: int| idx_ok(jj) ==> !present(#[trigger] e3(m1, root, i as int, jj)));

    // PDPT slot: the PD.
    proof {
        lemma_inv_frames(m1, root, fr1);
    }
    let e = mem.read_entry(pdpt, j);
    let pd: u64;
    if e & PAGE_PRESENT != 0 {
        if e & PAGE_HUGE != 0 {
            return false;
        }
        pd = e & ADDR_MASK;
    } else {
        match frames.alloc_page() {
            None => {
                return false;
            },
            Some(f) => {
                proof {
                    lemma_install_l3(m1, root, fr1, i as int, j as int);
                    lemma_entry_bits(f, 0, 0);
                    assert(fr0.take(fr0.len() - n1 - 1) =~= fr1.drop_last());
                }
                mem.zero_frame(f);
                mem.write_entry(pdpt, j, f | TABLE_FLAGS);
                pd = f;
            },
        }
    }
    let ghost m2 = mem@;
    let ghost fr2 = frames@;
    let ghost n2: int = if present(e3(m1, root, i as int, j as int)) { n1 } else { n1 + 1 };
    assert(pt_inv(m2, root, fr2));
    assert(forall|vb: u64| #[trigger] walk(m2, root, vb) == walk(m0, root, vb));
    assert(has2(m2, root, i as int, j as int) && t2(m2, root, i as int, j as int) == pd);
    assert(fr2 == fr0.take(fr0.len() - n2));
    assert(present(e3(m1, root, i as int, j as int)) ==> m2 == m1);
    assert(!present(e3(m1, root, i as int, j as int)) ==> forall|kk: int| idx_ok(kk) ==> !present(#[trigger] e2(m2, root, i as int, j as int, kk)));

    // PD slot: the PT.
    proof {
        lemma_inv_frames(m2, root, fr2);
    }
    let e = mem.read_entry(pd, k);
    let pt: u64;
    if e & PAGE_PRESENT != 0 {
        if e & PAGE_HUGE != 0 {
            return false;
        }
        pt = e & ADDR_MASK;
    } else {
        match frames.alloc_page() {
            None => {
                return false;
            },
            Some(f) => {
                proof {
                    lemma_install_l2(m2, root, fr2, i as int, j as int, k as int);
                    lemma_entry_bits(f, 0, 0);
                    assert(fr0.take(fr0.len() - n2 - 1) =~= fr2.drop_last());
                }
                mem.zero_frame(f);
                mem.write_entry(pd, k, f | TABLE_FLAGS);
                pt = f;
            },
        }
    }
    let ghost m3 = mem@;
    proof {
        lemma_inv_frames(m3, root, frames@);
        lemma_write_leaf(m3, root, frames@, i as int, j as int, k as int, l as int, leaf);
    }
    mem.write_entry(pt, l, leaf);
    proof {
        if user_links(m0, root) {
            assert(has1(mem@, root, i as int, j as int, k as int));
            assert(has2(mem@, root, i as int, j as int));
            assert(has3(mem@, root, i as int));
        }
    }
    true
}

/// Mapping a page again exactly as it is mapped needs no frame and stores
/// the word already there: with `map_user_page`'s contract, a second call
/// with the same arguments succeeds, takes no frame and leaves every word of
/// memory as it was.
pub proof fn remap_changes_nothing(m: Seq<u64>, root: u64, free: Seq<u64>, va: u64, pa: u64, prot: u32)
    requires
        pt_inv(m, root, free),
        l4(va) != 0,
        walk(m, root, va) == Some((leaf_entry(pa, prot), 1int)),
    ensures
        frames_needed(m, root, va) == 0,
        !blocked_by_huge(m, root, va),
        frames_taken(m, root, va, free.len() as int) == 0,
        with_entry(m, t1(m, root, l4(va), l3(va), l2(va)), l1(va), leaf_entry(pa, prot)) == m,
{
    lemma_indices(va);
    lemma_inv_frames(m, root, free);
    let (i, j, k, l) = (l4(va), l3(va), l2(va), l1(va));
    assert(has1(m, root, i, j, k));
    let t = t1(m, root, i, j, k);
    assert(frame_ok(m.len(), t));
    assert(ent(m, t, l) == leaf_entry(pa, prot));
    assert(with_entry(m, t, l, leaf_entry(pa, prot)) =~= m);
}

/// Where the first user code page and the stack page sit in the tree.
proof fn lemma_user_vas()
    ensures
        l4(USER_CODE_VA) == 1 && l3(USER_CODE_VA) == 0 && l2(USER_CODE_VA) == 0 && l1(USER_CODE_VA) == 1,
        l4(USER_STACK_PAGE_VA) == 1 && l3(USER_STACK_PAGE_VA) == 0 && l2(USER_STACK_PAGE_VA) == 0 && l1(
            USER_STACK_PAGE_VA,
        ) == 15,
{
    assert((USER_CODE_VA >> 39u64) & 511 == 1 && (USER_CODE_VA >> 30u64) & 511 == 0 && (USER_CODE_VA >> 21u64)
        & 511 == 0 && (USER_CODE_VA >> 12u64) & 511 == 1 && (USER_STACK_PAGE_VA >> 39u64) & 511 == 1
        && (USER_STACK_PAGE_VA >> 30u64) & 511 == 0 && (USER_STACK_PAGE_VA >> 21u64) & 511 == 0
        && (USER_STACK_PAGE_VA >> 12u64) & 511 == 15) by (bit_vector);
}

/// An empty address space (what `create_empty_process_page_table` gives)
/// into which `map_user_page` maps the 4 KiB-aligned code page at
/// `USER_CODE_VA` and then the aligned stack page at `USER_STACK_PAGE_VA`,
/// both read, write, execute as asked, and user, translates every address
/// exactly as the space `create_process_page_table` builds for the same
/// pages. Both pages lie in user slots, where mapping is allowed.
pub proof fn mapped_empty_space_is_process_space(
    m0: Seq<u64>,
    kroot: u64,
    m1: Seq<u64>,
    m2: Seq<u64>,
    m3: Seq<u64>,
    root: u64,
    code: u64,
    stack: u64,
)
    requires
        code % 4096 == 0,
        stack % 4096 == 0,
        forall|va: u64| #[trigger] walk(m1, root, va) == if l4(va) == 0 { walk(m0, kroot, va) } else { None },
        forall|va: u64| #[trigger] walk(m2, root, va) == if same_page(USER_CODE_VA, va) {
            Some((leaf_entry(code, PROT_READ | PROT_WRITE | PROT_EXEC | PROT_USER), 1int))
        } else {
            walk(m1, root, va)
        },
        forall|va: u64| #[trigger] walk(m3, root, va) == if same_page(USER_STACK_PAGE_VA, va) {
            Some((leaf_entry(stack, PROT_READ | PROT_WRITE | PROT_USER), 1int))
        } else {
            walk(m2, root, va)
        },
    ensures
        l4(USER_CODE_VA) != 0,
        l4(USER_STACK_PAGE_VA) != 0,
        forall|va: u64| #[trigger] walk(m3, root, va) == process_walk(m0, kroot, code, stack, va),
{
    lemma_user_vas();
    assert((1u32 | 2u32 | 4u32 | 8u32) == 15u32 && (15u32 & 2u32) != 0 && (15u32 & 8u32) != 0 && (1u32 | 2u32 | 8u32)
        == 11u32 && (11u32 & 2u32) != 0 && (11u32 & 8u32) != 0) by (bit_vector);
    assert((code & 0xFFFF_FFFF_FFFF_F000) | (1u64 | 2u64 | 4u64) == code | 1u64 | 2u64 | 4u64 && (stack
        & 0xFFFF_FFFF_FFFF_F000) | (1u64 | 2u64 | 4u64) == stack | 1u64 | 2u64 | 4u64) by (bit_vector)
        requires
            code % 4096 == 0,
            stack % 4096 == 0,
    ;
    assert(leaf_entry(code, PROT_READ | PROT_WRITE | PROT_EXEC | PROT_USER) == user_leaf(code));
    assert(leaf_entry(stack, PROT_READ | PROT_WRITE | PROT_USER) == user_leaf(stack));
    assert forall|va: u64| #[trigger] walk(m3, root, va) == process_walk(m0, kroot, code, stack, va) by {
        assert(walk(m1, root, va) == if l4(va) == 0 { walk(m0, kroot, va) } else { None });
        assert(walk(m2, root, va) == if same_page(USER_CODE_VA, va) {
            Some((leaf_entry(code, PROT_READ | PROT_WRITE | PROT_EXEC | PROT_USER), 1int))
        } else {
            walk(m1, root, va)
        });
    }
}

/// One 4 KiB table of 512 entries.
pub struct PageTable {
    pub entries: [u64; 512],
}

impl PageTable {
    /// A table with every entry cleared.
    pub fn empty() -> (t: PageTable)
        ensures
            forall|i: int| 0 <= i < 512 ==> #[trigger] t.entries[i] == 0,
    {
        PageTable { entries: [0u64; 512] }
    }
}

/// The kernel's own tables: one PML4, one PDPT and four PDs that together
/// identity-map the first 4 GiB with 2 MiB pages (no `PAGE_USER`).
pub struct KernelTables {
    pub pml4: u64,
    pub pdpt: u64,
    pub pd: [u64; 4],
}

impl KernelTables {
    /// Six distinct frames inside memory of `n` words.
    pub open spec fn wf(&self, n: nat) -> bool {
        &&& frame_ok(n, self.pml4)
        &&& frame_ok(n, self.pdpt)
        &&& self.pml4 != self.pdpt
        &&& forall|g: int| 0 <= g < 4 ==> frame_ok(n, #[trigger] self.pd[g]) && self.pd[g] != self.pml4 && self.pd[g]
            != self.pdpt
        &&& forall|g: int, h: int| 0 <= g < 4 && 0 <= h < 4 && g != h ==> #[trigger] self.pd[g] != #[trigger] self.pd[h]
    }
}

/// PD entry `m` of PD `g` in the kernel map: the 2 MiB page at
/// `g GiB + m * 2 MiB`, present, writable, huge.
pub open spec fn kernel_pd_entry(g: u64, m: u64) -> u64 {
    ((g << 30u64) | (m << 21u64)) | PAGE_PRESENT | PAGE_WRITABLE | PAGE_HUGE
}

/// What the kernel map holds once built: PML4[0] → PDPT, PDPT[g] → PD g for
/// g < 4, and every PD entry the identity 2 MiB page.
pub open spec fn kernel_map_built(m: Seq<u64>, k: KernelTables) -> bool {
    &&& ent(m, k.pml4, 0) == k.pdpt | PAGE_PRESENT | PAGE_WRITABLE
    &&& forall|g: int| 0 <= g < 4 ==> #[trigger] ent(m, k.pdpt, g) == k.pd[g] | PAGE_PRESENT | PAGE_WRITABLE
    &&& forall|g: int, x: int| 0 <= g < 4 && idx_ok(x) ==> #[trigger] ent(m, k.pd[g], x) == kernel_pd_entry(
        g as u64,
        x as u64,
    )
}

/// Whether word `w` is one that building the kernel map writes.
pub open spec fn kernel_map_word(k: KernelTables, w: int) -> bool {
    ||| w == k.pml4 / 8
    ||| (k.pdpt / 8 <= w < k.pdpt / 8 + 4)
    ||| exists|g: int| 0 <= g < 4 && #[trigger] (k.pd[g] / 8) <= w < k.pd[g] / 8 + 512
}

proof fn lemma_identity_walk(m: Seq<u64>, k: KernelTables, va: u64)
    requires
        k.wf(m.len()),
        kernel_map_built(m, k),
        va < 0x1_0000_0000,
    ensures
        walk(m, k.pml4, va) == Some((((va >> 21u64) << 21u64) | 0x83, 2int)),
{
    let g = (va >> 30u64) & 511;
    let x = (va >> 21u64) & 511;
    assert((va >> 39u64) & 511 == 0 && g < 4 && x < 512) by (bit_vector)
        requires
            va < 0x1_0000_0000,
            g == (va >> 30u64) & 511,
            x == (va >> 21u64) & 511,
    ;
    assert(frame_ok(m.len(), k.pd[g as int]));
    let pdpt = k.pdpt;
    let pd = k.pd[g as int];
    assert(pdpt % 4096 == 0 && pd % 4096 == 0);
    assert((pdpt | 1 | 2) & 1 != 0 && (pdpt | 1 | 2) & 0x80 == 0 && (pdpt | 1 | 2) & 0xFFFF_FFFF_FFFF_F000 == pdpt
        && (pd | 1 | 2) & 1 != 0 && (pd | 1 | 2) & 0x80 == 0 && (pd | 1 | 2) & 0xFFFF_FFFF_FFFF_F000 == pd)
        by (bit_vector)
        requires
            pdpt % 4096 == 0,
            pd % 4096 == 0,
    ;
    assert(((g << 30u64) | (x << 21u64)) | 1 | 2 | 0x80 == ((va >> 21u64) << 21u64) | 0x83
        && (((g << 30u64) | (x << 21u64)) | 1 | 2 | 0x80) & 1 != 0
        && (((g << 30u64) | (x << 21u64)) | 1 | 2 | 0x80) & 0x80 != 0) by (bit_vector)
        requires
            va < 0x1_0000_0000,
            g == (va >> 30u64) & 511,
            x == (va >> 21u64) & 511,
    ;
    assert(ent(m, k.pd[g as int], x as int) == kernel_pd_entry((g as int) as u64, (x as int) as u64));
}

/// Build the kernel identity map of the first 4 GiB in `k`'s frames.
///
/// Every address below 4 GiB then translates through a present, writable
/// 2 MiB page onto itself; no word outside the entries written changes.
pub fn init(mem: &mut PhysMem, k: &KernelTables)
    requires
        k.wf(old(mem)@.len()),
    ensures
        final(mem)@.len() == old(mem)@.len(),
        kernel_map_built(final(mem)@, *k),
        forall|w: int| 0 <= w < old(mem)@.len() && !kernel_map_word(*k, w) ==> #[trigger] final(mem)@[w] == old(mem)@[w],
        forall|va: u64| va < 0x1_0000_0000 ==> #[trigger] walk(final(mem)@, k.pml4, va) == Some(
            (((va >> 21u64) << 21u64) | 0x83, 2int),
        ),
{
    let ghost m0 = mem@;
    mem.write_entry(k.pml4, 0, k.pdpt | PAGE_PRESENT | PAGE_WRITABLE);
    let mut g: usize = 0;
    while g < 4
        invariant
            k.wf(m0.len()),
            g <= 4,
            mem@.len() == m0.len(),
            ent(mem@, k.pml4, 0) == k.pdpt | PAGE_PRESENT | PAGE_WRITABLE,
            forall|h: int| 0 <= h < g ==> #[trigger] ent(mem@, k.pdpt, h) == k.pd[h] | PAGE_PRESENT | PAGE_WRITABLE,
            forall|w: int| 0 <= w < m0.len() && w != k.pml4 / 8 && !(k.pdpt / 8 <= w < k.pdpt / 8 + g) ==> #[trigger] mem@[w] == m0[w],
        decreases 4 - g,
    {
        let ghost before = mem@;
        mem.write_entry(k.pdpt, g as u64, k.pd[g] | PAGE_PRESENT | PAGE_WRITABLE);
        proof {
            lemma_write_reads(before, k.pdpt, g as int, k.pd[g as int] | PAGE_PRESENT | PAGE_WRITABLE, k.pml4, 0);
            assert forall|h: int| 0 <= h < g + 1 implies #[trigger] ent(mem@, k.pdpt, h) == k.pd[h] | PAGE_PRESENT
                | PAGE_WRITABLE by {
                lemma_write_reads(before, k.pdpt, g as int, k.pd[g as int] | PAGE_PRESENT | PAGE_WRITABLE, k.pdpt, h);
            }
        }
        g = g + 1;
    }
    let mut g: usize = 0;
    while g < 4
        invariant
            k.wf(m0.len()),
            g <= 4,
            mem@.len() == m0.len(),
            ent(mem@, k.pml4, 0) == k.pdpt | PAGE_PRESENT | PAGE_WRITABLE,
            forall|h: int| 0 <= h < 4 ==> #[trigger] ent(mem@, k.pdpt, h) == k.pd[h] | PAGE_PRESENT | PAGE_WRITABLE,
            forall|h: int, x: int| 0 <= h < g && idx_ok(x) ==> #[trigger] ent(mem@, k.pd[h], x) == kernel_pd_entry(
                h as u64,
                x as u64,
            ),
            forall|w: int| 0 <= w < m0.len() && w != k.pml4 / 8 && !(k.pdpt / 8 <= w < k.pdpt / 8 + 4)
                && !(exists|h: int| 0 <= h < g && #[trigger] (k.pd[h] / 8) <= w < k.pd[h] / 8 + 512)
                ==> #[trigger] mem@[w] == m0[w],
        decreases 4 - g,
    {
        let pd = k.pd[g];
        let mut x: usize = 0;
        while x < 512
            invariant
                k.wf(m0.len()),
                    g < 4,
                pd == k.pd[g as int],
                x <= 512,
                mem@.len() == m0.len(),
                ent(mem@, k.pml4, 0) == k.pdpt | PAGE_PRESENT | PAGE_WRITABLE,
                forall|h: int| 0 <= h < 4 ==> #[trigger] ent(mem@, k.pdpt, h) == k.pd[h] | PAGE_PRESENT | PAGE_WRITABLE,
                forall|h: int, y: int| 0 <= h < g && idx_ok(y) ==> #[trigger] ent(mem@, k.pd[h], y) == kernel_pd_entry(
                    h as u64,
                    y as u64,
                ),
                forall|y: int| 0 <= y < x ==> #[trigger] ent(mem@, pd, y) == kernel_pd_entry(g as u64, y as u64),
                forall|w: int| 0 <= w < m0.len() && w != k.pml4 / 8 && !(k.pdpt / 8 <= w < k.pdpt / 8 + 4)
                    && !(exists|h: int| 0 <= h < g && #[trigger] (k.pd[h] / 8) <= w < k.pd[h] / 8 + 512)
                    && !(pd / 8 <= w < pd / 8 + x) ==> #[trigger] mem@[w] == m0[w],
            decreases 512 - x,
        {
            let phys: u64 = ((g as u64) << 30u64) | ((x as u64) << 21u64);
            let ghost before = mem@;
            mem.write_entry(pd, x as u64, phys | PAGE_PRESENT | PAGE_WRITABLE | PAGE_HUGE);
            proof {
                let v = phys | PAGE_PRESENT | PAGE_WRITABLE | PAGE_HUGE;
                assert forall|h: int, y: int| 0 <= h < g && idx_ok(y) implies #[trigger] ent(mem@, k.pd[h], y)
                    == kernel_pd_entry(h as u64, y as u64) by {
                    lemma_write_reads(before, pd, x as int, v, k.pd[h], y);
                }
                assert forall|h: int| 0 <= h < 4 implies #[trigger] ent(mem@, k.pdpt, h) == k.pd[h] | PAGE_PRESENT
                    | PAGE_WRITABLE by {
                    lemma_write_reads(before, pd, x as int, v, k.pdpt, h);
                }
                assert forall|y: int| 0 <= y < x + 1 implies #[trigger] ent(mem@, pd, y) == kernel_pd_entry(
                    g as u64,
                    y as u64,
                ) by {
                    lemma_write_reads(before, pd, x as int, v, pd, y);
                }
                lemma_write_reads(before, pd, x as int, v, k.pml4, 0);
            }
            x = x + 1;
        }
        g = g + 1;
    }
    proof {
        assert forall|w: int| 0 <= w < old(mem)@.len() && !kernel_map_word(*k, w) implies #[trigger] mem@[w] == old(mem)@[w] by {
            if exists|h: int| 0 <= h < 4 && #[trigger] (k.pd[h] / 8) <= w < k.pd[h] / 8 + 512 {
                assert(kernel_map_word(*k, w));
            }
        }
        assert forall|va: u64| va < 0x1_0000_0000 implies #[trigger] walk(mem@, k.pml4, va) == Some(
            (((va >> 21u64) << 21u64) | 0x83, 2int),
        ) by {
            lemma_identity_walk(mem@, *k, va);
        }
    }
}

/// Root of the kernel's own tree.
pub fn kernel_page_table_phys(k: &KernelTables) -> (r: u64)
    ensures
        r == k.pml4,
{
    k.pml4
}

/// The CR3 value that switches to the tree rooted at `pml4` (loading it
/// flushes the non-global TLB entries).
pub fn switch_address_space(pml4: u64) -> (cr3: u64)
    ensures
        cr3 == pml4,
{
    pml4
}

/// A change of memory that leaves every entry of every table of the tree
/// alone changes no translation and keeps the tree well formed with any
/// smaller free list.
proof fn lemma_tables_kept(m: Seq<u64>, m2: Seq<u64>, root: u64, free: Seq<u64>, n: int, o: Map<u64, Pos>)
    requires
        owner_ok(m, root, free, o),
        m2.len() == m.len(),
        0 <= n <= free.len(),
        forall|t: u64, x: int| o.contains_key(t) && idx_ok(x) ==> #[trigger] ent(m2, t, x) == ent(m, t, x),
    ensures
        forall|va: u64| #[trigger] walk(m2, root, va) == walk(m, root, va),
        owner_ok(m2, root, free.take(n), o),
        forall|i: int, j: int| #[trigger] has2(m, root, i, j) ==> has2(m2, root, i, j) && t2(m2, root, i, j) == t2(m, root, i, j),
{
    let free2 = free.take(n);
    assert forall|i: int| idx_ok(i) implies #[trigger] e4(m2, root, i) == e4(m, root, i) by {
        assert(ent(m2, root, i) == ent(m, root, i));
    }
    assert forall|i: int, j: int| has3(m, root, i) && idx_ok(j) implies #[trigger] e3(m2, root, i, j) == e3(m, root, i, j) by {
        assert(e4(m2, root, i) == e4(m, root, i));
        assert(o.contains_key(t3(m, root, i)));
        assert(ent(m2, t3(m, root, i), j) == ent(m, t3(m, root, i), j));
    }
    assert forall|i: int, j: int, k: int| has2(m, root, i, j) && idx_ok(k) implies #[trigger] e2(m2, root, i, j, k)
        == e2(m, root, i, j, k) by {
        assert(e3(m2, root, i, j) == e3(m, root, i, j));
        assert(o.contains_key(t2(m, root, i, j)));
        assert(ent(m2, t2(m, root, i, j), k) == ent(m, t2(m, root, i, j), k));
    }
    assert forall|i: int, j: int, k: int, l: int| has1(m, root, i, j, k) && idx_ok(l) implies #[trigger] e1(m2, root, i, j, k, l)
        == e1(m, root, i, j, k, l) by {
        assert(e2(m2, root, i, j, k) == e2(m, root, i, j, k));
        assert(o.contains_key(t1(m, root, i, j, k)));
        assert(ent(m2, t1(m, root, i, j, k), l) == ent(m, t1(m, root, i, j, k), l));
    }
    assert forall|va: u64| #[trigger] walk(m2, root, va) == walk(m, root, va) by {
        lemma_indices(va);
        let (i, j, k, l) = (l4(va), l3(va), l2(va), l1(va));
        assert(e4(m2, root, i) == e4(m, root, i));
        if has3(m, root, i) {
            assert(e3(m2, root, i, j) == e3(m, root, i, j));
            if has2(m, root, i, j) {
                assert(e2(m2, root, i, j, k) == e2(m, root, i, j, k));
                if has1(m, root, i, j, k) {
                    assert(e1(m2, root, i, j, k, l) == e1(m, root, i, j, k, l));
                }
            }
        }
    }
    assert forall|i: int, j: int| #[trigger] has2(m, root, i, j) implies has2(m2, root, i, j) && t2(m2, root, i, j)
        == t2(m, root, i, j) by {
        assert(e4(m2, root, i) == e4(m, root, i));
        assert(e3(m2, root, i, j) == e3(m, root, i, j));
    }
    assert forall|i: int| #[trigger] has3(m2, root, i) implies o.contains_key(t3(m2, root, i))
        && o[t3(m2, root, i)] == (3int, i, 0int, 0int) by {
        assert(e4(m2, root, i) == e4(m, root, i));
        assert(has3(m, root, i));
    }
    assert forall|i: int, j: int| #[trigger] has2(m2, root, i, j) implies o.contains_key(t2(m2, root, i, j))
        && o[t2(m2, root, i, j)] == (2int, i, j, 0int) by {
        assert(e4(m2, root, i) == e4(m, root, i));
        assert(has3(m, root, i));
        assert(e3(m2, root, i, j) == e3(m, root, i, j));
        assert(has2(m, root, i, j));
    }
    assert forall|i: int, j: int, k: int| #[trigger] has1(m2, root, i, j, k) implies o.contains_key(t1(m2, root, i, j, k))
        && o[t1(m2, root, i, j, k)] == (1int, i, j, k) by {
        assert(e4(m2, root, i) == e4(m, root, i));
        assert(has3(m, root, i));
        assert(e3(m2, root, i, j) == e3(m, root, i, j));
        assert(has2(m, root, i, j));
        assert(e2(m2, root, i, j, k) == e2(m, root, i, j, k));
        assert(has1(m, root, i, j, k));
    }
    assert forall|a: int| 0 <= a < free2.len() implies frame_ok(m2.len(), #[trigger] free2[a]) && !o.contains_key(free2[a]) by {
        assert(free2[a] == free[a]);
    }
    assert forall|a: int, b: int| 0 <= a < free2.len() && 0 <= b < free2.len() && a != b implies #[trigger] free2[a] != #[trigger] free2[b] by {
        assert(free2[a] == free[a] && free2[b] == free[b]);
    }
}

/// A PML4 entry with `PAGE_USER` cleared points where the entry did and is
/// present, or huge, exactly when it was.
proof fn lemma_clear_user(e: u64)
    ensures
        present(e & !PAGE_USER) == present(e),
        huge(e & !PAGE_USER) == huge(e),
        tbl(e & !PAGE_USER) == tbl(e),
{
    assert(((e & !4u64) & 1 != 0) == (e & 1 != 0) && ((e & !4u64) & 0x80 != 0) == (e & 0x80 != 0) && (e & !4u64)
        & 0xFFFF_FFFF_FFFF_F000 == e & 0xFFFF_FFFF_FFFF_F000) by (bit_vector);
}

/// Memory after setting up a fresh root `f` that shares the kernel's PML4
/// slot 0 (without `PAGE_USER`) and has every other slot empty.
pub open spec fn fresh_root(m: Seq<u64>, kroot: u64, f: u64) -> Seq<u64> {
    with_entry(zeroed(m, f), f, 0, ent(m, kroot, 0) & !PAGE_USER)
}

/// Setting up a fresh root from the last free frame leaves the kernel tree
/// as it was, and the new tree translates exactly what the kernel's slot 0
/// translates.
pub proof fn lemma_fresh_root(m: Seq<u64>, kroot: u64, free: Seq<u64>)
    requires
        pt_inv(m, kroot, free),
        free.len() > 0,
    ensures
        ({
            let f = free.last();
            let m2 = fresh_root(m, kroot, f);
            &&& m2.len() == m.len()
            &&& pt_inv(m2, kroot, free.drop_last())
            &&& forall|va: u64| #[trigger] walk(m2, kroot, va) == walk(m, kroot, va)
            &&& pt_inv(m2, f, free.drop_last())
            &&& forall|x: int| idx_ok(x) && x != 0 ==> !present(#[trigger] e4(m2, f, x))
            &&& forall|va: u64| #[trigger] walk(m2, f, va) == if l4(va) == 0 {
                walk(m, kroot, va)
            } else {
                None
            }
        }),
{
    let o = choose|o: Map<u64, Pos>| owner_ok(m, kroot, free, o);
    let f = free.last();
    let v = ent(m, kroot, 0) & !PAGE_USER;
    let m2 = fresh_root(m, kroot, f);
    let free2 = free.drop_last();
    assert(frame_ok(m.len(), f) && !o.contains_key(f));
    assert forall|t: u64, x: int| o.contains_key(t) && idx_ok(x) implies #[trigger] ent(m2, t, x) == ent(m, t, x) by {
        lemma_frames_disjoint(t, f, x, 0);
    }
    lemma_tables_kept(m, m2, kroot, free, free.len() - 1, o);
    assert(free.take(free.len() - 1) =~= free.drop_last());
    assert forall|x: int| idx_ok(x) implies #[trigger] e4(m2, f, x) == if x == 0 { v } else { 0 } by {
        lemma_entry_index(f, x, 0);
    }
    lemma_clear_user(ent(m, kroot, 0));
    lemma_entry_bits(0, 0, 0);
    // Below slot 0 the new tree reads the kernel's own tables.
    assert forall|i: int| #[trigger] has3(m2, f, i) implies i == 0 && has3(m, kroot, 0) && t3(m2, f, i) == t3(m, kroot, 0) by {
        assert(e4(m2, f, i) == if i == 0 { v } else { 0 });
    }
    assert(has3(m, kroot, 0) ==> has3(m2, f, 0) && t3(m2, f, 0) == t3(m, kroot, 0)) by {
        assert(e4(m2, f, 0) == v);
    }
    assert forall|j: int| has3(m, kroot, 0) && idx_ok(j) implies #[trigger] e3(m2, f, 0, j) == e3(m, kroot, 0, j) by {
        assert(e4(m2, f, 0) == v);
        assert(o.contains_key(t3(m, kroot, 0)));
        assert(ent(m2, t3(m, kroot, 0), j) == ent(m, t3(m, kroot, 0), j));
    }
    assert forall|j: int, k: int| has2(m, kroot, 0, j) && idx_ok(k) implies #[trigger] e2(m2, f, 0, j, k) == e2(m, kroot, 0, j, k) by {
        assert(e3(m2, f, 0, j) == e3(m, kroot, 0, j));
        assert(o.contains_key(t2(m, kroot, 0, j)));
        assert(ent(m2, t2(m, kroot, 0, j), k) == ent(m, t2(m, kroot, 0, j), k));
    }
    assert forall|j: int, k: int, l: int| has1(m, kroot, 0, j, k) && idx_ok(l) implies #[trigger] e1(m2, f, 0, j, k, l)
        == e1(m, kroot, 0, j, k, l) by {
        assert(e2(m2, f, 0, j, k) == e2(m, kroot, 0, j, k));
        assert(o.contains_key(t1(m, kroot, 0, j, k)));
        assert(ent(m2, t1(m, kroot, 0, j, k), l) == ent(m, t1(m, kroot, 0, j, k), l));
    }
    assert forall|va: u64| #[trigger] walk(m2, f, va) == if l4(va) == 0 { walk(m, kroot, va) } else { None } by {
        lemma_indices(va);
        let (i, j, k, l) = (l4(va), l3(va), l2(va), l1(va));
        assert(e4(m2, f, i) == if i == 0 { v } else { 0 });
        if i == 0 && has3(m, kroot, 0) {
            assert(e3(m2, f, 0, j) == e3(m, kroot, 0, j));
            if has2(m, kroot, 0, j) {
                assert(e2(m2, f, 0, j, k) == e2(m, kroot, 0, j, k));
                if has1(m, kroot, 0, j, k) {
                    assert(e1(m2, f, 0, j, k, l) == e1(m, kroot, 0, j, k, l));
                }
            }
        }
    }
    let o2 = o.insert(f, (4int, 0int, 0int, 0int));
    assert forall|i: int| #[trigger] has3(m2, f, i) implies o2.contains_key(t3(m2, f, i)) && o2[t3(m2, f, i)] == (
    3int, i, 0int, 0int) by {
        assert(has3(m, kroot, 0));
        assert(o.contains_key(t3(m, kroot, 0)));
    }
    assert forall|i: int, j: int| #[trigger] has2(m2, f, i, j) implies o2.contains_key(t2(m2, f, i, j)) && o2[t2(
        m2,
        f,
        i,
        j,
    )] == (2int, i, j, 0int) by {
        assert(has3(m2, f, i));
        assert(i == 0 && has3(m, kroot, 0));
        assert(e3(m2, f, 0, j) == e3(m, kroot, 0, j));
        assert(has2(m, kroot, 0, j));
        assert(o.contains_key(t2(m, kroot, 0, j)));
    }
    assert forall|i: int, j: int, k: int| #[trigger] has1(m2, f, i, j, k) implies o2.contains_key(t1(m2, f, i, j, k))
        && o2[t1(m2, f, i, j, k)] == (1int, i, j, k) by {
        assert(has3(m2, f, i));
        assert(i == 0 && has3(m, kroot, 0));
        assert(e3(m2, f, 0, j) == e3(m, kroot, 0, j));
        assert(has2(m, kroot, 0, j));
        assert(e2(m2, f, 0, j, k) == e2(m, kroot, 0, j, k));
        assert(has1(m, kroot, 0, j, k));
        assert(o.contains_key(t1(m, kroot, 0, j, k)));
    }
    assert forall|t: u64| #[trigger] o2.contains_key(t) implies frame_ok(m2.len(), t) by {
        if t != f {
            assert(o.contains_key(t));
        }
    }
    assert forall|a: int| 0 <= a < free2.len() implies frame_ok(m2.len(), #[trigger] free2[a]) && !o2.contains_key(free2[a]) by {
        assert(free2[a] == free[a]);
        assert(free[a] != free[free.len() - 1]);
    }
    assert forall|a: int, b: int| 0 <= a < free2.len() && 0 <= b < free2.len() && a != b implies #[trigger] free2[a] != #[trigger] free2[b] by {
        assert(free2[a] == free[a] && free2[b] == free[b]);
    }
    assert(owner_ok(m2, f, free2, o2));
}

/// Create an empty user address space: a fresh PML4 whose slot 0 shares the
/// kernel map (without `PAGE_USER`) and whose other slots are empty.
/// `None` when no frame is free.
pub fn create_empty_process_page_table(mem: &mut PhysMem, frames: &mut FrameAllocator, kernel_pml4: u64) -> (r: Option<
    u64,
>)
    requires
        pt_inv(old(mem)@, kernel_pml4, old(frames)@),
    ensures
        old(frames)@.len() == 0 ==> r is None && final(mem)@ == old(mem)@ && final(frames)@ == old(frames)@,
        old(frames)@.len() > 0 ==> {
            &&& r == Some(old(frames)@.last())
            &&& final(frames)@ == old(frames)@.drop_last()
            &&& final(mem)@ == fresh_root(old(mem)@, kernel_pml4, old(frames)@.last())
        },
        pt_inv(final(mem)@, kernel_pml4, final(frames)@),
        forall|va: u64| #[trigger] walk(final(mem)@, kernel_pml4, va) == walk(old(mem)@, kernel_pml4, va),
        r matches Some(root) ==> pt_inv(final(mem)@, root, final(frames)@) && forall|va: u64| #[trigger] walk(
            final(mem)@,
            root,
            va,
        ) == if l4(va) == 0 {
            walk(old(mem)@, kernel_pml4, va)
        } else {
            None
        },
        r matches Some(root) ==> user_links(final(mem)@, root),
{
    let ghost m0 = mem@;
    let ghost fr0 = frames@;
    proof {
        lemma_inv_frames(m0, kernel_pml4, fr0);
    }
    match frames.alloc_page() {
        None => None,
        Some(f) => {
            proof {
                lemma_fresh_root(m0, kernel_pml4, fr0);
                lemma_frames_disjoint(kernel_pml4, f, 0, 0);
            }
            mem.zero_frame(f);
            let ke = mem.read_entry(kernel_pml4, 0);
            mem.write_entry(f, 0, ke & !PAGE_USER);
            assert(user_links(mem@, f));
            Some(f)
        },
    }
}

/// A well-formed tree stays well formed with a prefix of its free list.
pub proof fn lemma_inv_prefix(m: Seq<u64>, root: u64, free: Seq<u64>, n: int)
    requires
        pt_inv(m, root, free),
        0 <= n <= free.len(),
    ensures
        pt_inv(m, root, free.take(n)),
{
    let o = choose|o: Map<u64, Pos>| owner_ok(m, root, free, o);
    lemma_tables_kept(m, m, root, free, n, o);
}

/// First user code page: PML4[1], PDPT[0], PD[0], PT[1].
pub const USER_CODE_VA: u64 = 0x0000_0080_0000_1000;
/// Initial user stack pointer; the stack grows down from here.
pub const USER_STACK_TOP: u64 = 0x0000_0080_0001_0000;
/// The stack page just below `USER_STACK_TOP`: PT[15].
pub const USER_STACK_PAGE_VA: u64 = 0x0000_0080_0000_F000;

/// Leaf entry of a user page created with a new address space.
pub open spec fn user_leaf(p: u64) -> u64 {
    p | PAGE_PRESENT | PAGE_WRITABLE | PAGE_USER
}

/// What a new process address space translates: the kernel's slot 0, its
/// code page and its stack page, and nothing else.
pub open spec fn process_walk(m: Seq<u64>, kroot: u64, code: u64, stack: u64, va: u64) -> Option<(u64, int)> {
    if l4(va) == 0 {
        walk(m, kroot, va)
    } else if same_page(va, USER_CODE_VA) {
        Some((user_leaf(code), 1int))
    } else if same_page(va, USER_STACK_PAGE_VA) {
        Some((user_leaf(stack), 1int))
    } else {
        None
    }
}

/// The words of the four tables of a new process address space: the PML4
/// shares the kernel's slot 0 word `k0` without `PAGE_USER` and links the
/// PDPT at slot 1, which links the PD at slot 0, which links the PT at slot
/// 0 (links present, writable, user); the PT maps the code page at slot 1
/// and the stack page at slot 15; every other word is 0.
pub open spec fn process_tables(m: Seq<u64>, k0: u64, pml4: u64, pdpt: u64, pd: u64, pt: u64, code: u64, stack: u64) -> bool {
    &&& forall|x: int| idx_ok(x) ==> #[trigger] ent(m, pml4, x) == if x == 0 {
        k0 & !PAGE_USER
    } else if x == 1 {
        pdpt | TABLE_FLAGS
    } else {
        0
    }
    &&& forall|x: int| idx_ok(x) ==> #[trigger] ent(m, pdpt, x) == if x == 0 { pd | TABLE_FLAGS } else { 0 }
    &&& forall|x: int| idx_ok(x) ==> #[trigger] ent(m, pd, x) == if x == 0 { pt | TABLE_FLAGS } else { 0 }
    &&& forall|x: int| idx_ok(x) ==> #[trigger] ent(m, pt, x) == if x == 1 {
        user_leaf(code)
    } else if x == 15 {
        user_leaf(stack)
    } else {
        0
    }
}

proof fn lemma_process_words(m0: Seq<u64>, kroot: u64, pml4: u64, pdpt: u64, pd: u64, pt: u64, code: u64, stack: u64)
    requires
        frame_ok(m0.len(), kroot),
        frame_ok(m0.len(), pml4),
        frame_ok(m0.len(), pdpt),
        frame_ok(m0.len(), pd),
        frame_ok(m0.len(), pt),
        pml4 != pdpt && pml4 != pd && pml4 != pt && pdpt != pd && pdpt != pt && pd != pt,
    ensures
        process_tables(
            with_entry(
                with_entry(
                    install(install(install(fresh_root(m0, kroot, pml4), pdpt, pml4, 1), pd, pdpt, 0), pt, pd, 0),
                    pt,
                    1,
                    user_leaf(code),
                ),
                pt,
                15,
                user_leaf(stack),
            ),
            ent(m0, kroot, 0),
            pml4,
            pdpt,
            pd,
            pt,
            code,
            stack,
        ),
{
    let z = zeroed(m0, pml4);
    let m1 = fresh_root(m0, kroot, pml4);
    let m2 = install(m1, pdpt, pml4, 1);
    let m3 = install(m2, pd, pdpt, 0);
    let m4 = install(m3, pt, pd, 0);
    let m5 = with_entry(m4, pt, 1, user_leaf(code));
    let m6 = with_entry(m5, pt, 15, user_leaf(stack));
    assert forall|t: u64, x: int| (t == pml4 || t == pdpt || t == pd || t == pt) && idx_ok(x) implies #[trigger] ent(m6, t, x)
        == if t == pml4 {
        if x == 0 {
            ent(m0, kroot, 0) & !PAGE_USER
        } else if x == 1 {
            pdpt | TABLE_FLAGS
        } else {
            0
        }
    } else if t == pdpt {
        if x == 0 { pd | TABLE_FLAGS } else { 0 }
    } else if t == pd {
        if x == 0 { pt | TABLE_FLAGS } else { 0 }
    } else if x == 1 {
        user_leaf(code)
    } else if x == 15 {
        user_leaf(stack)
    } else {
        0
    } by {
        if t != pml4 {
            lemma_frames_disjoint(t, pml4, x, 0);
        }
        assert(ent(z, t, x) == if t == pml4 { 0 } else { ent(m0, t, x) });
        lemma_write_reads(z, pml4, 0, ent(m0, kroot, 0) & !PAGE_USER, t, x);
        lemma_install_reads(m1, pdpt, pml4, 1, t, x);
        lemma_install_reads(m2, pd, pdpt, 0, t, x);
        lemma_install_reads(m3, pt, pd, 0, t, x);
        lemma_write_reads(m4, pt, 1, user_leaf(code), t, x);
        lemma_write_reads(m5, pt, 15, user_leaf(stack), t, x);
    }
    assert forall|x: int| idx_ok(x) implies #[trigger] ent(m6, pml4, x) == if x == 0 {
        ent(m0, kroot, 0) & !PAGE_USER
    } else if x == 1 {
        pdpt | TABLE_FLAGS
    } else {
        0
    } by {
        assert(ent(m6, pml4, x) == ent(m6, pml4, x));
    }
}

/// Create an isolated address space for one user process: a PML4 sharing
/// the kernel's slot 0, and a PDPT, PD and PT under slot 1 mapping the code
/// page at `USER_CODE_VA` and the stack page below `USER_STACK_TOP`.
///
/// Takes four frames; with fewer free, `None`, memory untouched and the
/// free frames used up. The kernel's own translations never change.
#[verifier::spinoff_prover]
#[verifier::rlimit(30)]
pub fn create_process_page_table(
    mem: &mut PhysMem,
    frames: &mut FrameAllocator,
    kernel_pml4: u64,
    code_phys: u64,
    stack_phys: u64,
) -> (r: Option<u64>)
    requires
        pt_inv(old(mem)@, kernel_pml4, old(frames)@),
    ensures
        final(mem)@.len() == old(mem)@.len(),
        old(frames)@.len() < 4 ==> r is None && final(mem)@ == old(mem)@ && final(frames)@.len() == 0,
        old(frames)@.len() >= 4 ==> r == Some(old(frames)@.last()) && final(frames)@ == old(frames)@.take(
            old(frames)@.len() - 4,
        ),
        pt_inv(final(mem)@, kernel_pml4, final(frames)@),
        forall|va: u64| #[trigger] walk(final(mem)@, kernel_pml4, va) == walk(old(mem)@, kernel_pml4, va),
        r matches Some(root) ==> pt_inv(final(mem)@, root, final(frames)@) && forall|va: u64| #[trigger] walk(
            final(mem)@,
            root,
            va,
        ) == process_walk(old(mem)@, kernel_pml4, code_phys, stack_phys, va),
        r matches Some(root) ==> process_tables(
            final(mem)@,
            ent(old(mem)@, kernel_pml4, 0),
            root,
            old(frames)@[old(frames)@.len() - 2],
            old(frames)@[old(frames)@.len() - 3],
            old(frames)@[old(frames)@.len() - 4],
            code_phys,
            stack_phys,
        ) && user_links(final(mem)@, root),
{
    let ghost m0 = mem@;
    let ghost fr0 = frames@;
    proof {
        lemma_inv_frames(m0, kernel_pml4, fr0);
        lemma_inv_prefix(m0, kernel_pml4, fr0, 0);
        assert(fr0.take(0) =~= Seq::<u64>::empty());
    }
    let pml4 = match frames.alloc_page() {
        None => {
            assert(frames@ =~= fr0.take(0));
            return None;
        },
        Some(f) => f,
    };
    let pdpt = match frames.alloc_page() {
        None => {
            assert(frames@ =~= fr0.take(0));
            return None;
        },
        Some(f) => f,
    };
    let pd = match frames.alloc_page() {
        None => {
            assert(frames@ =~= fr0.take(0));
            return None;
        },
        Some(f) => f,
    };
    let pt = match frames.alloc_page() {
        None => {
            assert(frames@ =~= fr0.take(0));
            return None;
        },
        Some(f) => f,
    };
    let ghost f1 = fr0.drop_last();
    let ghost f2 = f1.drop_last();
    let ghost f3 = f2.drop_last();
    let ghost f4 = f3.drop_last();
    assert(f4 =~= fr0.take(fr0.len() - 4));
    assert(pml4 == fr0[fr0.len() - 1] && pdpt == fr0[fr0.len() - 2] && pd == fr0[fr0.len() - 3] && pt == fr0[fr0.len() - 4]);
    let ghost o = choose|o: Map<u64, Pos>| owner_ok(m0, kernel_pml4, fr0, o);

    // The PML4, sharing the kernel's slot 0.
    proof {
        lemma_fresh_root(m0, kernel_pml4, fr0);
        lemma_frames_disjoint(kernel_pml4, pml4, 0, 0);
    }
    mem.zero_frame(pml4);
    let ke = mem.read_entry(kernel_pml4, 0);
    mem.write_entry(pml4, 0, ke & !PAGE_USER);
    let ghost m1 = mem@;
    assert(m1 == fresh_root(m0, kernel_pml4, pml4));

    // Slot 1 → PDPT → PD → PT.
    proof {
        lemma_entry_bits(0, 0, 0);
        lemma_indices(USER_CODE_VA);
        assert(!present(e4(m1, pml4, 1)));
        lemma_install_l4(m1, pml4, f1, 1);
        lemma_inv_frames(m1, pml4, f1);
    }
    mem.zero_frame(pdpt);
    mem.write_entry(pml4, 1, pdpt | TABLE_FLAGS);
    let ghost m2 = mem@;
    assert(m2 == install(m1, pdpt, pml4, 1));
    proof {
        lemma_install_l3(m2, pml4, f2, 1, 0);
        lemma_inv_frames(m2, pml4, f2);
    }
    mem.zero_frame(pd);
    mem.write_entry(pdpt, 0, pd | TABLE_FLAGS);
    let ghost m3 = mem@;
    assert(m3 == install(m2, pd, pdpt, 0));
    proof {
        lemma_install_l2(m3, pml4, f3, 1, 0, 0);
        lemma_inv_frames(m3, pml4, f3);
    }
    mem.zero_frame(pt);
    mem.write_entry(pd, 0, pt | TABLE_FLAGS);
    let ghost m4 = mem@;
    assert(m4 == install(m3, pt, pd, 0));

    // The code and stack pages.
    let code = code_phys | PAGE_PRESENT | PAGE_WRITABLE | PAGE_USER;
    let stack = stack_phys | PAGE_PRESENT | PAGE_WRITABLE | PAGE_USER;
    proof {
        assert((code_phys | 1 | 2 | 4) & 1 != 0 && (stack_phys | 1 | 2 | 4) & 1 != 0) by (bit_vector);
        lemma_inv_frames(m4, pml4, f4);
        lemma_write_leaf(m4, pml4, f4, 1, 0, 0, 1, code);
    }
    mem.write_entry(pt, 1, code);
    let ghost m5 = mem@;
    proof {
        lemma_write_leaf(m5, pml4, f4, 1, 0, 0, 15, stack);
    }
    mem.write_entry(pt, 15, stack);
    proof {
        let m6 = mem@;
        assert(m5 == with_entry(m4, pt, 1, user_leaf(code_phys)));
        assert(m6 == with_entry(m5, pt, 15, user_leaf(stack_phys)));
        lemma_process_words(m0, kernel_pml4, pml4, pdpt, pd, pt, code_phys, stack_phys);
        assert(user_links(m1, pml4));
        assert(user_links(m6, pml4));
        lemma_user_vas();
        assert forall|va: u64| #[trigger] walk(m6, pml4, va) == process_walk(m0, kernel_pml4, code_phys, stack_phys, va) by {
            assert(walk(m6, pml4, va) == if l4(va) == 1 && l3(va) == 0 && l2(va) == 0 && l1(va) == 15 {
                Some((stack, 1int))
            } else {
                walk(m5, pml4, va)
            });
            assert(walk(m5, pml4, va) == if l4(va) == 1 && l3(va) == 0 && l2(va) == 0 && l1(va) == 1 {
                Some((code, 1int))
            } else {
                walk(m4, pml4, va)
            });
            assert(walk(m4, pml4, va) == walk(m1, pml4, va));
        }
        // The kernel tree: only words of the four new frames changed.
        assert forall|t: u64, x: int| o.contains_key(t) && idx_ok(x) implies #[trigger] ent(m6, t, x) == ent(m0, t, x) by {
            assert(!o.contains_key(fr0[fr0.len() - 1]) && !o.contains_key(fr0[fr0.len() - 2]));
            assert(!o.contains_key(fr0[fr0.len() - 3]) && !o.contains_key(fr0[fr0.len() - 4]));
            assert(frame_ok(m0.len(), t));
            lemma_frames_disjoint(t, pml4, x, 0);
            lemma_frames_disjoint(t, pdpt, x, 0);
            lemma_frames_disjoint(t, pd, x, 0);
            lemma_frames_disjoint(t, pt, x, 0);
        }
        lemma_tables_kept(m0, m6, kernel_pml4, fr0, fr0.len() - 4, o);
    }
    Some(pml4)
}

// ── Cloning a user address space ────────────────────────────────────────

/// The entry for frame `f` that carries the flag bits 11:0 of `e`.
pub open spec fn relink(f: u64, e: u64) -> u64 {
    (f & ADDR_MASK) | (e & 0xFFF)
}

pub proof fn lemma_relink(f: u64, e: u64)
    requires
        f % 4096 == 0,
    ensures
        tbl(relink(f, e)) == f,
        present(relink(f, e)) == present(e),
        huge(relink(f, e)) == huge(e),
        relink(f, e) & 0xFFF == e & 0xFFF,
{
    assert({
        let r = (f & 0xFFFF_FFFF_FFFF_F000) | (e & 0xFFF);
        &&& r & 0xFFFF_FFFF_FFFF_F000 == f
        &&& (r & 1 != 0) == (e & 1 != 0)
        &&& (r & 0x80 != 0) == (e & 0x80 != 0)
        &&& r & 0xFFF == e & 0xFFF
    }) by (bit_vector)
        requires
            f % 4096 == 0,
    ;
}

/// The source page table `s` lies in memory, is no free frame, and every
/// page it maps is a frame in memory that is not free either.
pub open spec fn src_pt_ok(ms: Seq<u64>, s: u64, free: Seq<u64>) -> bool {
    &&& frame_ok(ms.len(), s)
    &&& unlisted(free, s)
    &&& forall|l: int| idx_ok(l) && present(#[trigger] ent(ms, s, l)) ==> frame_ok(ms.len(), tbl(ent(ms, s, l)))
        && unlisted(free, tbl(ent(ms, s, l)))
}

pub open spec fn src_pd_ok(ms: Seq<u64>, s: u64, free: Seq<u64>) -> bool {
    &&& frame_ok(ms.len(), s)
    &&& unlisted(free, s)
    &&& forall|k: int| idx_ok(k) && present(#[trigger] ent(ms, s, k)) && !huge(ent(ms, s, k)) ==> src_pt_ok(
        ms,
        tbl(ent(ms, s, k)),
        free,
    )
}

pub open spec fn src_pdpt_ok(ms: Seq<u64>, s: u64, free: Seq<u64>) -> bool {
    &&& frame_ok(ms.len(), s)
    &&& unlisted(free, s)
    &&& forall|j: int| idx_ok(j) && present(#[trigger] ent(ms, s, j)) && !huge(ent(ms, s, j)) ==> src_pd_ok(
        ms,
        tbl(ent(ms, s, j)),
        free,
    )
}

/// Slot `l` of the new page table `n` (memory `m`) copies slot `l` of the
/// source page table `s` (memory `ms`): an empty slot stays empty, a page
/// gets a frame taken from slots `lo..hi` of `free` that holds the source
/// page's contents, entered with the source entry's flag bits.
pub open spec fn pt_slot(m: Seq<u64>, n: u64, ms: Seq<u64>, s: u64, free: Seq<u64>, lo: int, hi: int, l: int) -> bool {
    let se = ent(ms, s, l);
    let ne = ent(m, n, l);
    if !present(se) {
        ne == 0
    } else {
        &&& ne == relink(tbl(ne), se)
        &&& frame_ok(m.len(), tbl(ne))
        &&& taken_in(free, lo, hi, tbl(ne))
        &&& same_frame(m, tbl(ne), ms, tbl(se))
    }
}

pub open spec fn pt_copy(m: Seq<u64>, n: u64, ms: Seq<u64>, s: u64, free: Seq<u64>, lo: int, hi: int) -> bool {
    &&& frame_ok(m.len(), n)
    &&& taken_in(free, lo, hi, n)
    &&& forall|l: int| idx_ok(l) ==> #[trigger] pt_slot(m, n, ms, s, free, lo, hi, l)
}

/// Slot `k` of a new directory copies slot `k` of the source: empty stays
/// empty, a 2 MiB page is shared as it is, a page table is copied.
pub open spec fn pd_slot(m: Seq<u64>, n: u64, ms: Seq<u64>, s: u64, free: Seq<u64>, lo: int, hi: int, k: int) -> bool {
    let se = ent(ms, s, k);
    let ne = ent(m, n, k);
    if !present(se) {
        ne == 0
    } else if huge(se) {
        ne == se
    } else {
        ne == relink(tbl(ne), se) && pt_copy(m, tbl(ne), ms, tbl(se), free, lo, hi)
    }
}

pub open spec fn pd_copy(m: Seq<u64>, n: u64, ms: Seq<u64>, s: u64, free: Seq<u64>, lo: int, hi: int) -> bool {
    &&& frame_ok(m.len(), n)
    &&& taken_in(free, lo, hi, n)
    &&& forall|k: int| idx_ok(k) ==> #[trigger] pd_slot(m, n, ms, s, free, lo, hi, k)
}

/// Slot `j` of a new PDPT: empty stays empty, a 1 GiB page is shared, a
/// directory is copied.
pub open spec fn pdpt_slot(m: Seq<u64>, n: u64, ms: Seq<u64>, s: u64, free: Seq<u64>, lo: int, hi: int, j: int) -> bool {
    let se = ent(ms, s, j);
    let ne = ent(m, n, j);
    if !present(se) {
        ne == 0
    } else if huge(se) {
        ne == se
    } else {
        ne == relink(tbl(ne), se) && pd_copy(m, tbl(ne), ms, tbl(se), free, lo, hi)
    }
}

pub open spec fn pdpt_copy(m: Seq<u64>, n: u64, ms: Seq<u64>, s: u64, free: Seq<u64>, lo: int, hi: int) -> bool {
    &&& frame_ok(m.len(), n)
    &&& taken_in(free, lo, hi, n)
    &&& forall|j: int| idx_ok(j) ==> #[trigger] pdpt_slot(m, n, ms, s, free, lo, hi, j)
}

/// Pages mapped by slots `l..512` of the source page table `s`.
pub open spec fn pt_pages_from(ms: Seq<u64>, s: u64, l: int) -> nat
    decreases 512 - l,
{
    if l >= 512 {
        0
    } else {
        (if present(ent(ms, s, l)) { 1nat } else { 0nat }) + pt_pages_from(ms, s, l + 1)
    }
}

/// Frames a copy of the page table `s` takes: the table and one per page.
pub open spec fn pt_cost(ms: Seq<u64>, s: u64) -> nat {
    1 + pt_pages_from(ms, s, 0)
}

/// Frames the copies of the page tables under slots `k..512` of the source
/// directory `s` take (2 MiB pages are shared and take none).
pub open spec fn pd_rest(ms: Seq<u64>, s: u64, k: int) -> nat
    decreases 512 - k,
{
    if k >= 512 {
        0
    } else {
        (if present(ent(ms, s, k)) && !huge(ent(ms, s, k)) { pt_cost(ms, tbl(ent(ms, s, k))) } else { 0nat })
            + pd_rest(ms, s, k + 1)
    }
}

/// Frames a copy of the directory `s` takes.
pub open spec fn pd_cost(ms: Seq<u64>, s: u64) -> nat {
    1 + pd_rest(ms, s, 0)
}

/// Frames the copies of the directories under slots `j..512` of the source
/// PDPT `s` take (1 GiB pages are shared and take none).
pub open spec fn pdpt_rest(ms: Seq<u64>, s: u64, j: int) -> nat
    decreases 512 - j,
{
    if j >= 512 {
        0
    } else {
        (if present(ent(ms, s, j)) && !huge(ent(ms, s, j)) { pd_cost(ms, tbl(ent(ms, s, j))) } else { 0nat })
            + pdpt_rest(ms, s, j + 1)
    }
}

/// Frames a copy of the PDPT `s` takes.
pub open spec fn pdpt_cost(ms: Seq<u64>, s: u64) -> nat {
    1 + pdpt_rest(ms, s, 0)
}

/// Frames the copies of the PDPTs under user slots `i..512` of the source
/// PML4 `s` take.
pub open spec fn root_rest(ms: Seq<u64>, s: u64, i: int) -> nat
    decreases 512 - i,
{
    if i >= 512 {
        0
    } else {
        (if present(ent(ms, s, i)) { pdpt_cost(ms, tbl(ent(ms, s, i))) } else { 0nat }) + root_rest(ms, s, i + 1)
    }
}

/// Free frames a clone of the user address space rooted at `s` takes: the
/// new PML4, one frame per copied PDPT, directory and page table, and one per
/// 4 KiB page.
pub open spec fn clone_cost(ms: Seq<u64>, s: u64) -> nat {
    1 + root_rest(ms, s, 1)
}

proof fn lemma_pt_copy_kept(m: Seq<u64>, m2: Seq<u64>, n: u64, ms: Seq<u64>, s: u64, free: Seq<u64>, lo: int, hi: int, lo2: int, hi2: int)
    requires
        pt_copy(m, n, ms, s, free, lo, hi),
        kept(m, m2, free, lo2, hi2),
        hi2 <= lo || hi <= lo2,
        distinct_frames(free),
    ensures
        pt_copy(m2, n, ms, s, free, lo, hi),
{
    lemma_taken_kept(m, m2, free, lo, hi, lo2, hi2, n);
    assert forall|l: int| idx_ok(l) implies #[trigger] pt_slot(m2, n, ms, s, free, lo, hi, l) by {
        assert(pt_slot(m, n, ms, s, free, lo, hi, l));
        assert(ent(m2, n, l) == ent(m, n, l));
        if present(ent(ms, s, l)) {
            lemma_taken_kept(m, m2, free, lo, hi, lo2, hi2, tbl(ent(m, n, l)));
        }
    }
}

proof fn lemma_pt_copy_widen(m: Seq<u64>, n: u64, ms: Seq<u64>, s: u64, free: Seq<u64>, lo: int, hi: int, lo2: int, hi2: int)
    requires
        pt_copy(m, n, ms, s, free, lo, hi),
        lo2 <= lo,
        hi <= hi2,
    ensures
        pt_copy(m, n, ms, s, free, lo2, hi2),
{
    lemma_taken_widen(free, lo, hi, lo2, hi2, n);
    assert forall|l: int| idx_ok(l) implies #[trigger] pt_slot(m, n, ms, s, free, lo2, hi2, l) by {
        assert(pt_slot(m, n, ms, s, free, lo, hi, l));
        if present(ent(ms, s, l)) {
            lemma_taken_widen(free, lo, hi, lo2, hi2, tbl(ent(m, n, l)));
        }
    }
}

proof fn lemma_pd_copy_kept(m: Seq<u64>, m2: Seq<u64>, n: u64, ms: Seq<u64>, s: u64, free: Seq<u64>, lo: int, hi: int, lo2: int, hi2: int)
    requires
        pd_copy(m, n, ms, s, free, lo, hi),
        kept(m, m2, free, lo2, hi2),
        hi2 <= lo || hi <= lo2,
        distinct_frames(free),
    ensures
        pd_copy(m2, n, ms, s, free, lo, hi),
{
    lemma_taken_kept(m, m2, free, lo, hi, lo2, hi2, n);
    assert forall|k: int| idx_ok(k) implies #[trigger] pd_slot(m2, n, ms, s, free, lo, hi, k) by {
        assert(pd_slot(m, n, ms, s, free, lo, hi, k));
        assert(ent(m2, n, k) == ent(m, n, k));
        let se = ent(ms, s, k);
        if present(se) && !huge(se) {
            lemma_pt_copy_kept(m, m2, tbl(ent(m, n, k)), ms, tbl(se), free, lo, hi, lo2, hi2);
        }
    }
}

proof fn lemma_pd_copy_widen(m: Seq<u64>, n: u64, ms: Seq<u64>, s: u64, free: Seq<u64>, lo: int, hi: int, lo2: int, hi2: int)
    requires
        pd_copy(m, n, ms, s, free, lo, hi),
        lo2 <= lo,
        hi <= hi2,
    ensures
        pd_copy(m, n, ms, s, free, lo2, hi2),
{
    lemma_taken_widen(free, lo, hi, lo2, hi2, n);
    assert forall|k: int| idx_ok(k) implies #[trigger] pd_slot(m, n, ms, s, free, lo2, hi2, k) by {
        assert(pd_slot(m, n, ms, s, free, lo, hi, k));
        let se = ent(ms, s, k);
        if present(se) && !huge(se) {
            lemma_pt_copy_widen(m, tbl(ent(m, n, k)), ms, tbl(se), free, lo, hi, lo2, hi2);
        }
    }
}

proof fn lemma_pdpt_copy_kept(m: Seq<u64>, m2: Seq<u64>, n: u64, ms: Seq<u64>, s: u64, free: Seq<u64>, lo: int, hi: int, lo2: int, hi2: int)
    requires
        pdpt_copy(m, n, ms, s, free, lo, hi),
        kept(m, m2, free, lo2, hi2),
        hi2 <= lo || hi <= lo2,
        distinct_frames(free),
    ensures
        pdpt_copy(m2, n, ms, s, free, lo, hi),
{
    lemma_taken_kept(m, m2, free, lo, hi, lo2, hi2, n);
    assert forall|j: int| idx_ok(j) implies #[trigger] pdpt_slot(m2, n, ms, s, free, lo, hi, j) by {
        assert(pdpt_slot(m, n, ms, s, free, lo, hi, j));
        assert(ent(m2, n, j) == ent(m, n, j));
        let se = ent(ms, s, j);
        if present(se) && !huge(se) {
            lemma_pd_copy_kept(m, m2, tbl(ent(m, n, j)), ms, tbl(se), free, lo, hi, lo2, hi2);
        }
    }
}

proof fn lemma_pdpt_copy_widen(m: Seq<u64>, n: u64, ms: Seq<u64>, s: u64, free: Seq<u64>, lo: int, hi: int, lo2: int, hi2: int)
    requires
        pdpt_copy(m, n, ms, s, free, lo, hi),
        lo2 <= lo,
        hi <= hi2,
    ensures
        pdpt_copy(m, n, ms, s, free, lo2, hi2),
{
    lemma_taken_widen(free, lo, hi, lo2, hi2, n);
    assert forall|j: int| idx_ok(j) implies #[trigger] pdpt_slot(m, n, ms, s, free, lo2, hi2, j) by {
        assert(pdpt_slot(m, n, ms, s, free, lo, hi, j));
        let se = ent(ms, s, j);
        if present(se) && !huge(se) {
            lemma_pd_copy_widen(m, tbl(ent(m, n, j)), ms, tbl(se), free, lo, hi, lo2, hi2);
        }
    }
}

/// Every table frame `o` places lies in slots `lo..hi` of `free`.
pub open spec fn dom_taken(o: Map<u64, Pos>, free: Seq<u64>, lo: int, hi: int) -> bool {
    forall|t: u64| #[trigger] o.contains_key(t) ==> taken_in(free, lo, hi, t)
}

/// `o2` places every frame `o` places where `o` does.
pub open spec fn agrees(o: Map<u64, Pos>, o2: Map<u64, Pos>) -> bool {
    forall|t: u64| #[trigger] o.contains_key(t) ==> o2.contains_key(t) && o2[t] == o[t]
}

/// Where `o` places the 4 KiB page in slot `l` of the page table at
/// `(i, j, k)`: below every table level, one position per slot.
pub open spec fn leaf_pos(i: int, j: int, k: int, l: int) -> Pos {
    (-1 - l, i, j, k)
}

/// Slot `l` of page table `n` at `(i, j, k)`: a page there is placed at its
/// own position by `o`.
pub open spec fn pt_owned_slot(m: Seq<u64>, o: Map<u64, Pos>, n: u64, i: int, j: int, k: int, l: int) -> bool {
    present(ent(m, n, l)) ==> o.contains_key(tbl(ent(m, n, l))) && o[tbl(ent(m, n, l))] == leaf_pos(i, j, k, l)
}

/// `o` places page table `n` at `(1, i, j, k)` and each of its pages below.
pub open spec fn pt_owned(m: Seq<u64>, o: Map<u64, Pos>, n: u64, i: int, j: int, k: int) -> bool {
    &&& o.contains_key(n) && o[n] == (1int, i, j, k)
    &&& forall|l: int| idx_ok(l) ==> #[trigger] pt_owned_slot(m, o, n, i, j, k, l)
}

/// Slot `k` of directory `n` at `(i, j)`: a page table there is placed by
/// `o` with its pages.
pub open spec fn pd_owned_slot(m: Seq<u64>, o: Map<u64, Pos>, n: u64, i: int, j: int, k: int) -> bool {
    present(ent(m, n, k)) && !huge(ent(m, n, k)) ==> pt_owned(m, o, tbl(ent(m, n, k)), i, j, k)
}

/// `o` places directory `n` at `(2, i, j)` and everything below it.
pub open spec fn pd_owned(m: Seq<u64>, o: Map<u64, Pos>, n: u64, i: int, j: int) -> bool {
    &&& o.contains_key(n) && o[n] == (2int, i, j, 0int)
    &&& forall|k: int| idx_ok(k) ==> #[trigger] pd_owned_slot(m, o, n, i, j, k)
}

/// Slot `j` of PDPT `n` at `i`: a directory there is placed by `o` with
/// everything below it.
pub open spec fn pdpt_owned_slot(m: Seq<u64>, o: Map<u64, Pos>, n: u64, i: int, j: int) -> bool {
    present(ent(m, n, j)) && !huge(ent(m, n, j)) ==> pd_owned(m, o, tbl(ent(m, n, j)), i, j)
}

/// `o` places PDPT `n` at `(3, i)` and everything below it.
pub open spec fn pdpt_owned(m: Seq<u64>, o: Map<u64, Pos>, n: u64, i: int) -> bool {
    &&& o.contains_key(n) && o[n] == (3int, i, 0int, 0int)
    &&& forall|j: int| idx_ok(j) ==> #[trigger] pdpt_owned_slot(m, o, n, i, j)
}

/// The tables `o` places at levels `lo..=hi` read the same in `m2` as in
/// `m`.
pub open spec fn tables_same(m: Seq<u64>, m2: Seq<u64>, o: Map<u64, Pos>, lo: int, hi: int) -> bool {
    forall|t: u64, x: int| o.contains_key(t) && lo <= o[t].0 <= hi && 0 <= x < 512 ==> #[trigger] ent(m2, t, x)
        == ent(m, t, x)
}

/// Placing a page table's pages depends on its entries only, and survives a
/// map that agrees.
proof fn lemma_pt_owned_moved(m: Seq<u64>, m2: Seq<u64>, o: Map<u64, Pos>, o2: Map<u64, Pos>, n: u64, i: int, j: int, k: int)
    requires
        pt_owned(m, o, n, i, j, k),
        agrees(o, o2),
        forall|x: int| 0 <= x < 512 ==> #[trigger] ent(m2, n, x) == ent(m, n, x),
    ensures
        pt_owned(m2, o2, n, i, j, k),
{
    assert forall|l: int| idx_ok(l) implies #[trigger] pt_owned_slot(m2, o2, n, i, j, k, l) by {
        assert(pt_owned_slot(m, o, n, i, j, k, l));
        assert(ent(m2, n, l) == ent(m, n, l));
    }
}

/// A directory's placement survives changes that leave its tables alone,
/// and a map that agrees.
proof fn lemma_pd_owned_moved(m: Seq<u64>, m2: Seq<u64>, o: Map<u64, Pos>, o2: Map<u64, Pos>, n: u64, i: int, j: int)
    requires
        pd_owned(m, o, n, i, j),
        agrees(o, o2),
        tables_same(m, m2, o, 1, 2),
    ensures
        pd_owned(m2, o2, n, i, j),
{
    assert forall|k: int| idx_ok(k) implies #[trigger] pd_owned_slot(m2, o2, n, i, j, k) by {
        assert(pd_owned_slot(m, o, n, i, j, k));
        assert(ent(m2, n, k) == ent(m, n, k));
        if present(ent(m, n, k)) && !huge(ent(m, n, k)) {
            let q = tbl(ent(m, n, k));
            assert forall|x: int| 0 <= x < 512 implies #[trigger] ent(m2, q, x) == ent(m, q, x) by {
                assert(ent(m2, q, x) == ent(m, q, x));
            }
            lemma_pt_owned_moved(m, m2, o, o2, q, i, j, k);
        }
    }
}

/// A PDPT's placement survives changes that leave its tables alone, and a
/// map that agrees.
proof fn lemma_pdpt_owned_moved(m: Seq<u64>, m2: Seq<u64>, o: Map<u64, Pos>, o2: Map<u64, Pos>, n: u64, i: int)
    requires
        pdpt_owned(m, o, n, i),
        agrees(o, o2),
        tables_same(m, m2, o, 1, 3),
    ensures
        pdpt_owned(m2, o2, n, i),
{
    assert forall|j: int| idx_ok(j) implies #[trigger] pdpt_owned_slot(m2, o2, n, i, j) by {
        assert(pdpt_owned_slot(m, o, n, i, j));
        assert(ent(m2, n, j) == ent(m, n, j));
        if present(ent(m, n, j)) && !huge(ent(m, n, j)) {
            lemma_pd_owned_moved(m, m2, o, o2, tbl(ent(m, n, j)), i, j);
        }
    }
}

/// `o` gives every 4 KiB page under a user slot of the tree at `root` its
/// own position, below every table level.
pub open spec fn pages_placed(m: Seq<u64>, root: u64, o: Map<u64, Pos>) -> bool {
    forall|i: int, j: int, k: int, l: int|
        #![trigger e1(m, root, i, j, k, l)]
        1 <= i && has1(m, root, i, j, k) && idx_ok(l) && present(e1(m, root, i, j, k, l)) ==> o.contains_key(
            tbl(e1(m, root, i, j, k, l)),
        ) && o[tbl(e1(m, root, i, j, k, l))] == leaf_pos(i, j, k, l)
}

/// The tree at `root` is well formed, and every 4 KiB page under its user
/// slots is a frame of its own: no other such page and no table of the tree
/// is that frame.
pub open spec fn pages_private(m: Seq<u64>, root: u64, free: Seq<u64>) -> bool {
    exists|o: Map<u64, Pos>| owner_ok(m, root, free, o) && pages_placed(m, root, o)
}

/// Two user pages at different slots of a tree whose pages are private are
/// different frames.
pub proof fn private_pages_distinct(
    m: Seq<u64>,
    root: u64,
    free: Seq<u64>,
    i: int,
    j: int,
    k: int,
    l: int,
    i2: int,
    j2: int,
    k2: int,
    l2: int,
)
    requires
        pages_private(m, root, free),
        1 <= i && has1(m, root, i, j, k) && idx_ok(l) && present(e1(m, root, i, j, k, l)),
        1 <= i2 && has1(m, root, i2, j2, k2) && idx_ok(l2) && present(e1(m, root, i2, j2, k2, l2)),
        (i, j, k, l) != (i2, j2, k2, l2),
    ensures
        tbl(e1(m, root, i, j, k, l)) != tbl(e1(m, root, i2, j2, k2, l2)),
{
    let o = choose|o: Map<u64, Pos>| owner_ok(m, root, free, o) && pages_placed(m, root, o);
    assert(o[tbl(e1(m, root, i, j, k, l))] == leaf_pos(i, j, k, l));
    assert(o[tbl(e1(m, root, i2, j2, k2, l2))] == leaf_pos(i2, j2, k2, l2));
}

/// A user page of a tree whose pages are private is none of the tree's
/// tables.
pub proof fn private_page_not_table(m: Seq<u64>, root: u64, free: Seq<u64>, i: int, j: int, k: int, l: int)
    requires
        pages_private(m, root, free),
        1 <= i && has1(m, root, i, j, k) && idx_ok(l) && present(e1(m, root, i, j, k, l)),
    ensures
        tbl(e1(m, root, i, j, k, l)) != root,
        forall|i2: int| #[trigger] has3(m, root, i2) ==> tbl(e1(m, root, i, j, k, l)) != t3(m, root, i2),
        forall|i2: int, j2: int| #[trigger] has2(m, root, i2, j2) ==> tbl(e1(m, root, i, j, k, l)) != t2(m, root, i2, j2),
        forall|i2: int, j2: int, k2: int| #[trigger] has1(m, root, i2, j2, k2) ==> tbl(e1(m, root, i, j, k, l)) != t1(
            m,
            root,
            i2,
            j2,
            k2,
        ),
{
    let o = choose|o: Map<u64, Pos>| owner_ok(m, root, free, o) && pages_placed(m, root, o);
    assert(o[tbl(e1(m, root, i, j, k, l))] == leaf_pos(i, j, k, l));
}

/// PML4 slot `i` of `n`: a PDPT there is placed by `o` with its tables.
pub open spec fn root_owned_slot(m: Seq<u64>, o: Map<u64, Pos>, n: u64, i: int) -> bool {
    present(ent(m, n, i)) ==> pdpt_owned(m, o, tbl(ent(m, n, i)), i)
}

/// A clone is well formed: its root is the last frame of `f0`, its kernel
/// slot is the source's (whose tables are as they were), and `on` places
/// the tables under its user slots, all taken from `f0` between slot `c`
/// and the root's.
proof fn lemma_clone_owner(m: Seq<u64>, n: u64, ms: Seq<u64>, s: u64, f0: Seq<u64>, o: Map<u64, Pos>, on: Map<u64, Pos>, c: int)
    requires
        owner_ok(ms, s, f0, o),
        m.len() == ms.len(),
        forall|t: u64, x: int| o.contains_key(t) && idx_ok(x) ==> #[trigger] ent(m, t, x) == ent(ms, t, x),
        distinct_frames(f0),
        0 <= c < f0.len(),
        n == f0[f0.len() - 1],
        dom_taken(on, f0, c, f0.len() - 1),
        ent(m, n, 0) == ent(ms, s, 0),
        forall|i: int| 1 <= i < 512 ==> #[trigger] root_owned_slot(m, on, n, i),
    ensures
        owner_ok(m, n, f0.take(c), o.union_prefer_right(on).insert(n, (4int, 0int, 0int, 0int))),
        pages_placed(m, n, o.union_prefer_right(on).insert(n, (4int, 0int, 0int, 0int))),
{
    let k1 = f0.len() as int;
    let fr = f0.take(c);
    let oo = o.union_prefer_right(on).insert(n, (4int, 0int, 0int, 0int));
    lemma_not_taken(f0, k1 - 1, c, k1 - 1);
    // Source tables are listed nowhere in `f0`, so neither `on` nor the root
    // is one of them.
    assert forall|t: u64| #[trigger] o.contains_key(t) implies !on.contains_key(t) && t != n by {
        if on.contains_key(t) {
            let a = choose|a: int| c <= a < k1 - 1 && 0 <= a < f0.len() && #[trigger] f0[a] == t;
            assert(!o.contains_key(f0[a]));
        }
        assert(!o.contains_key(f0[k1 - 1]));
    }
    assert forall|t: u64| #[trigger] on.contains_key(t) implies t != n && frame_ok(m.len(), t) by {
        let a = choose|a: int| c <= a < k1 - 1 && 0 <= a < f0.len() && #[trigger] f0[a] == t;
        assert(f0[a] != f0[k1 - 1]);
    }
    assert forall|t: u64| #[trigger] oo.contains_key(t) implies frame_ok(m.len(), t) by {
        if t != n && !on.contains_key(t) {
            assert(o.contains_key(t));
        }
    }
    assert forall|i: int| #[trigger] has3(m, n, i) implies oo.contains_key(t3(m, n, i)) && oo[t3(m, n, i)] == (
        3int,
        i,
        0int,
        0int,
    ) by {
        if i == 0 {
            assert(has3(ms, s, 0));
            assert(t3(m, n, 0) == t3(ms, s, 0));
        } else {
            assert(root_owned_slot(m, on, n, i));
        }
    }
    assert forall|i: int, j: int| #[trigger] has2(m, n, i, j) implies oo.contains_key(t2(m, n, i, j)) && oo[t2(
        m,
        n,
        i,
        j,
    )] == (2int, i, j, 0int) by {
        if i == 0 {
            assert(has3(ms, s, 0));
            assert(o.contains_key(t3(ms, s, 0)));
            assert(e3(m, n, 0, j) == e3(ms, s, 0, j));
            assert(has2(ms, s, 0, j));
        } else {
            assert(root_owned_slot(m, on, n, i));
            assert(pdpt_owned_slot(m, on, t3(m, n, i), i, j));
        }
    }
    assert forall|i: int, j: int, k: int| #[trigger] has1(m, n, i, j, k) implies oo.contains_key(t1(m, n, i, j, k))
        && oo[t1(m, n, i, j, k)] == (1int, i, j, k) by {
        if i == 0 {
            assert(has3(ms, s, 0));
            assert(o.contains_key(t3(ms, s, 0)));
            assert(e3(m, n, 0, j) == e3(ms, s, 0, j));
            assert(has2(ms, s, 0, j));
            assert(o.contains_key(t2(ms, s, 0, j)));
            assert(e2(m, n, 0, j, k) == e2(ms, s, 0, j, k));
            assert(has1(ms, s, 0, j, k));
        } else {
            assert(root_owned_slot(m, on, n, i));
            assert(pdpt_owned_slot(m, on, t3(m, n, i), i, j));
            assert(pd_owned_slot(m, on, t2(m, n, i, j), i, j, k));
        }
    }
    assert forall|a: int| 0 <= a < fr.len() implies frame_ok(m.len(), #[trigger] fr[a]) && !oo.contains_key(fr[a]) by {
        assert(fr[a] == f0[a]);
        assert(frame_ok(ms.len(), f0[a]) && !o.contains_key(f0[a]));
        lemma_not_taken(f0, a, c, k1 - 1);
        assert(f0[a] != f0[k1 - 1]);
    }
    assert forall|i: int, j: int, k: int, l: int|
        1 <= i && has1(m, n, i, j, k) && idx_ok(l) && present(#[trigger] e1(m, n, i, j, k, l)) implies oo.contains_key(
        tbl(e1(m, n, i, j, k, l)),
    ) && oo[tbl(e1(m, n, i, j, k, l))] == leaf_pos(i, j, k, l) by {
        assert(root_owned_slot(m, on, n, i));
        assert(pdpt_owned_slot(m, on, t3(m, n, i), i, j));
        assert(pd_owned_slot(m, on, t2(m, n, i, j), i, j, k));
        assert(pt_owned_slot(m, on, t1(m, n, i, j, k), i, j, k, l));
    }
    assert forall|a: int, b: int| 0 <= a < fr.len() && 0 <= b < fr.len() && a != b implies #[trigger] fr[a]
        != #[trigger] fr[b] by {
        assert(f0[a] != f0[b]);
    }
}

/// Every 4 KiB page under a user slot of a clone is a frame taken from `f0`
/// past slot `c`, so none that `f0.take(c)` still lists.
proof fn lemma_clone_leaves(m: Seq<u64>, n: u64, ms: Seq<u64>, s: u64, f0: Seq<u64>, c: int)
    requires
        forall|i: int| idx_ok(i) ==> #[trigger] root_slot(m, n, ms, s, f0, c, f0.len() as int, i),
        distinct_frames(f0),
        0 <= c <= f0.len(),
    ensures
        leaves_ok(m, n, f0.take(c)),
{
    let k1 = f0.len() as int;
    let fr = f0.take(c);
    lemma_entry_bits(0, 0, 0);
    assert forall|i: int, j: int, k: int, l: int|
        1 <= i && has1(m, n, i, j, k) && idx_ok(l) && present(#[trigger] e1(m, n, i, j, k, l)) implies frame_ok(
        m.len(),
        tbl(e1(m, n, i, j, k, l)),
    ) && unlisted(fr, tbl(e1(m, n, i, j, k, l))) by {
        assert(root_slot(m, n, ms, s, f0, c, k1, i));
        let p = t3(m, n, i);
        let sp = tbl(ent(ms, s, i));
        assert(pdpt_copy(m, p, ms, sp, f0, c, k1));
        assert(pdpt_slot(m, p, ms, sp, f0, c, k1, j));
        let q = t2(m, n, i, j);
        let sq = tbl(ent(ms, sp, j));
        assert(pd_copy(m, q, ms, sq, f0, c, k1));
        assert(pd_slot(m, q, ms, sq, f0, c, k1, k));
        let r = t1(m, n, i, j, k);
        let sr = tbl(ent(ms, sq, k));
        assert(pt_copy(m, r, ms, sr, f0, c, k1));
        assert(pt_slot(m, r, ms, sr, f0, c, k1, l));
        let d = tbl(e1(m, n, i, j, k, l));
        let a = choose|a: int| c <= a < k1 && 0 <= a < f0.len() && #[trigger] f0[a] == d;
        assert forall|b: int| 0 <= b < fr.len() implies #[trigger] fr[b] != d by {
            assert(fr[b] == f0[b]);
            assert(f0[b] != f0[a]);
        }
    }
}

/// Joining a map whose frames come from a range disjoint from those of `o`
/// keeps every placement of `o`, and the frames of both lie in the union of
/// the ranges.
proof fn lemma_join(o: Map<u64, Pos>, oc: Map<u64, Pos>, free: Seq<u64>, lo: int, mid: int, hi: int)
    requires
        dom_taken(o, free, mid, hi),
        dom_taken(oc, free, lo, mid),
        distinct_frames(free),
        lo <= mid <= hi,
    ensures
        agrees(o, o.union_prefer_right(oc)),
        agrees(oc, o.union_prefer_right(oc)),
        dom_taken(o.union_prefer_right(oc), free, lo, hi),
{
    let u = o.union_prefer_right(oc);
    assert forall|t: u64| #[trigger] o.contains_key(t) implies u.contains_key(t) && u[t] == o[t] by {
        let a = choose|a: int| mid <= a < hi && 0 <= a < free.len() && #[trigger] free[a] == t;
        lemma_not_taken(free, a, lo, mid);
    }
    assert forall|t: u64| #[trigger] u.contains_key(t) implies taken_in(free, lo, hi, t) by {
        if o.contains_key(t) {
            lemma_taken_widen(free, mid, hi, lo, hi, t);
        } else {
            lemma_taken_widen(free, lo, mid, lo, hi, t);
        }
    }
}

/// Copy the page table `s` of `m0`: a new table from the last free frame,
/// then a fresh frame per mapped page holding a copy of it. `None` when the
/// frames run out (what was taken stays taken).
#[verifier::spinoff_prover]
fn clone_pt(
    mem: &mut PhysMem,
    frames: &mut FrameAllocator,
    s: u64,
    Ghost(m0): Ghost<Seq<u64>>,
    Ghost(f0): Ghost<Seq<u64>>,
    Ghost(i): Ghost<int>,
    Ghost(j): Ghost<int>,
    Ghost(k): Ghost<int>,
) -> (r: (Option<u64>, Ghost<Map<u64, Pos>>))
    requires
        clone_ctx(m0, f0, old(mem)@, old(frames)@),
        src_pt_ok(m0, s, f0),
    ensures
        clone_ctx(m0, f0, final(mem)@, final(frames)@),
        final(frames)@.len() <= old(frames)@.len(),
        kept(old(mem)@, final(mem)@, f0, final(frames)@.len() as int, old(frames)@.len() as int),
        r.0 is None ==> final(frames)@.len() == 0,
        r.0 is None <==> pt_cost(m0, s) > old(frames)@.len(),
        r.0 is Some ==> final(frames)@.len() + pt_cost(m0, s) == old(frames)@.len(),
        r.0 matches Some(n) ==> n == old(frames)@.last() && pt_copy(final(mem)@, n, m0, s, f0, final(frames)@.len() as int, old(frames)@.len() as int),
        r.0 matches Some(n) ==> pt_owned(final(mem)@, r.1@, n, i, j, k) && dom_taken(
            r.1@,
            f0,
            final(frames)@.len() as int,
            old(frames)@.len() as int,
        ),
{
    let ghost m1 = mem@;
    let ghost k1 = frames@.len() as int;
    if frames.free.len() == 0 {
        return (None, Ghost(Map::empty()));
    }
    proof {
        lemma_take_last(f0, frames@);
    }
    let n = match frames.alloc_page() {
        None => { return (None, Ghost(Map::empty())); },
        Some(f) => f,
    };
    let ghost mut oa: Map<u64, Pos> = Map::empty().insert(n, (1int, i, j, k));
    proof {
        lemma_kept_write(m1, f0, k1 - 1, 0, 0);
    }
    mem.zero_frame(n);
    proof {
        lemma_kept_widen(m1, mem@, f0, k1 - 1, k1, k1 - 1, k1);
    }
    let mut l: u64 = 0;
    while l < 512
        invariant
            distinct_frames(f0),
            forall|a: int| 0 <= a < f0.len() ==> frame_ok(m0.len(), #[trigger] f0[a]),
            k1 <= f0.len(),
            frames@.len() < k1,
            frames@ == f0.take(frames@.len() as int),
            kept(m0, m1, f0, k1, f0.len() as int),
            kept(m1, mem@, f0, frames@.len() as int, k1),
            m1.len() == m0.len(),
            m1 == old(mem)@,
            k1 == old(frames)@.len(),
            n == f0[k1 - 1],
            src_pt_ok(m0, s, f0),
            l <= 512,
            (k1 - frames@.len()) + pt_pages_from(m0, s, l as int) == pt_cost(m0, s),
            forall|l2: int| 0 <= l2 < l ==> #[trigger] pt_slot(mem@, n, m0, s, f0, frames@.len() as int, k1 - 1, l2),
            oa.contains_key(n) && oa[n] == (1int, i, j, k),
            dom_taken(oa, f0, frames@.len() as int, k1),
            forall|l2: int| 0 <= l2 < l ==> #[trigger] pt_owned_slot(mem@, oa, n, i, j, k, l2),
            forall|l2: int| l <= l2 < 512 ==> #[trigger] ent(mem@, n, l2) == 0,
        decreases 512 - l,
    {
        let ghost ma = mem@;
        let ghost c = frames@.len() as int;
        assert(frame_ok(m0.len(), n));
        let se = mem.read_entry(s, l);
        assert(se == ent(m0, s, l as int));
        if se & PAGE_PRESENT != 0 {
            if frames.free.len() == 0 {
                proof {
                    lemma_kept_widen(m1, mem@, f0, c, k1, 0, k1);
                    lemma_kept_trans(m0, m1, mem@, f0, 0, k1, f0.len() as int);
                }
                return (None, Ghost(Map::empty()));
            }
            proof {
                lemma_take_last(f0, frames@);
            }
            let d = match frames.alloc_page() {
                None => { return (None, Ghost(Map::empty())); },
                Some(f) => f,
            };
            assert(d == f0[c - 1]);
            let src = se & ADDR_MASK;
            assert(src == tbl(se));
            assert(frame_ok(m0.len(), src) && unlisted(f0, src));
            assert(src != d);
            mem.copy_frame(src, d);
            let ghost mb = mem@;
            proof {
                lemma_kept_copy(ma, mb, src, f0, c - 1);
            }
            let v = (d & ADDR_MASK) | (se & 0xFFF);
            assert(v == relink(d, se));
            mem.write_entry(n, l, v);
            let ghost mc = mem@;
            proof {
                lemma_relink(d, se);
                lemma_kept_write(mb, f0, k1 - 1, l as int, v);
                lemma_kept_widen(mb, mc, f0, k1 - 1, k1, c - 1, k1);
                lemma_kept_widen(ma, mb, f0, c - 1, c, c - 1, k1);
                lemma_kept_same(ma, mb, mc, f0, c - 1, k1);
                lemma_kept_widen(m1, ma, f0, c, k1, c - 1, k1);
                lemma_kept_same(m1, ma, mc, f0, c - 1, k1);
                assert(n != d);
                assert forall|l2: int| 0 <= l2 <= l implies #[trigger] pt_slot(mc, n, m0, s, f0, c - 1, k1 - 1, l2) by {
                    lemma_write_reads(mb, n, l as int, v, n, l2);
                    lemma_copy_reads(ma, mb, src, d, n, l2);
                    if l2 < l {
                        assert(pt_slot(ma, n, m0, s, f0, c, k1 - 1, l2));
                        if present(ent(m0, s, l2)) {
                            let dd = tbl(ent(ma, n, l2));
                            let a = choose|a: int| c <= a < k1 - 1 && 0 <= a < f0.len() && #[trigger] f0[a] == dd;
                            assert(f0[a] != f0[c - 1] && f0[a] != f0[k1 - 1]);
                            assert forall|x: int| idx_ok(x) implies #[trigger] ent(mc, dd, x) == ent(ma, dd, x) by {
                                lemma_write_reads(mb, n, l as int, v, dd, x);
                                lemma_copy_reads(ma, mb, src, d, dd, x);
                            }
                            lemma_taken_widen(f0, c, k1 - 1, c - 1, k1 - 1, dd);
                        }
                    } else {
                        assert(taken_in(f0, c - 1, k1 - 1, f0[c - 1]));
                        assert forall|x: int| idx_ok(x) implies #[trigger] ent(mc, d, x) == ent(m0, src, x) by {
                            lemma_write_reads(mb, n, l as int, v, d, x);
                            lemma_copy_reads(ma, mb, src, d, d, x);
                            assert(ent(ma, src, x) == ent(m1, src, x));
                        }
                    }
                }
                assert forall|l2: int| l < l2 < 512 implies #[trigger] ent(mc, n, l2) == 0 by {
                    lemma_write_reads(mb, n, l as int, v, n, l2);
                    lemma_copy_reads(ma, mb, src, d, n, l2);
                }
            }
            proof {
                let ghost o1 = oa;
                lemma_not_taken(f0, c - 1, c, k1);
                oa = oa.insert(d, leaf_pos(i, j, k, l as int));
                assert forall|t: u64| #[trigger] oa.contains_key(t) implies taken_in(f0, c - 1, k1, t) by {
                    if t != d {
                        lemma_taken_widen(f0, c, k1, c - 1, k1, t);
                    }
                }
                assert forall|l2: int| 0 <= l2 <= l implies #[trigger] pt_owned_slot(mc, oa, n, i, j, k, l2) by {
                    lemma_write_reads(mb, n, l as int, v, n, l2);
                    lemma_copy_reads(ma, mb, src, d, n, l2);
                    if l2 < l {
                        assert(pt_owned_slot(ma, o1, n, i, j, k, l2));
                    }
                }
            }
        } else {
            proof {
                assert(pt_slot(ma, n, m0, s, f0, c, k1 - 1, l as int));
                lemma_entry_bits(0, 0, 0);
            }
        }
        l = l + 1;
    }
    proof {
        let c = frames@.len() as int;
        lemma_kept_trans(m0, m1, mem@, f0, c, k1, f0.len() as int);
        assert(taken_in(f0, c, k1, f0[k1 - 1]));
        assert forall|l2: int| idx_ok(l2) implies #[trigger] pt_slot(mem@, n, m0, s, f0, c, k1, l2) by {
            assert(pt_slot(mem@, n, m0, s, f0, c, k1 - 1, l2));
            if present(ent(m0, s, l2)) {
                lemma_taken_widen(f0, c, k1 - 1, c, k1, tbl(ent(mem@, n, l2)));
            }
        }
    }
    (Some(n), Ghost(oa))
}

/// Copy the page directory `s` of `m0`: a new table from the last free frame, then
/// per slot: empty stays empty, a huge page is shared, a pt is copied.
#[verifier::spinoff_prover]
fn clone_pd(
    mem: &mut PhysMem,
    frames: &mut FrameAllocator,
    s: u64,
    Ghost(m0): Ghost<Seq<u64>>,
    Ghost(f0): Ghost<Seq<u64>>,
    Ghost(i): Ghost<int>,
    Ghost(j): Ghost<int>,
) -> (r: (Option<u64>, Ghost<Map<u64, Pos>>))
    requires
        clone_ctx(m0, f0, old(mem)@, old(frames)@),
        src_pd_ok(m0, s, f0),
    ensures
        clone_ctx(m0, f0, final(mem)@, final(frames)@),
        final(frames)@.len() <= old(frames)@.len(),
        kept(old(mem)@, final(mem)@, f0, final(frames)@.len() as int, old(frames)@.len() as int),
        r.0 is None ==> final(frames)@.len() == 0,
        r.0 is None <==> pd_cost(m0, s) > old(frames)@.len(),
        r.0 is Some ==> final(frames)@.len() + pd_cost(m0, s) == old(frames)@.len(),
        r.0 matches Some(n) ==> n == old(frames)@.last() && pd_copy(final(mem)@, n, m0, s, f0, final(frames)@.len() as int, old(frames)@.len() as int),
        r.0 matches Some(n) ==> pd_owned(final(mem)@, r.1@, n, i, j) && dom_taken(
            r.1@,
            f0,
            final(frames)@.len() as int,
            old(frames)@.len() as int,
        ),
{
    let ghost m1 = mem@;
    let ghost k1 = frames@.len() as int;
    if frames.free.len() == 0 {
        return (None, Ghost(Map::empty()));
    }
    proof {
        lemma_take_last(f0, frames@);
    }
    let n = match frames.alloc_page() {
        None => { return (None, Ghost(Map::empty())); },
        Some(f) => f,
    };
    let ghost mut oa: Map<u64, Pos> = Map::empty().insert(n, (2int, i, j, 0int));
    proof {
        lemma_kept_write(m1, f0, k1 - 1, 0, 0);
    }
    mem.zero_frame(n);
    proof {
        lemma_kept_widen(m1, mem@, f0, k1 - 1, k1, k1 - 1, k1);
    }
    let mut k: u64 = 0;
    while k < 512
        invariant
            distinct_frames(f0),
            forall|a: int| 0 <= a < f0.len() ==> frame_ok(m0.len(), #[trigger] f0[a]),
            k1 <= f0.len(),
            frames@.len() < k1,
            frames@ == f0.take(frames@.len() as int),
            kept(m0, m1, f0, k1, f0.len() as int),
            kept(m1, mem@, f0, frames@.len() as int, k1),
            m1.len() == m0.len(),
            m1 == old(mem)@,
            k1 == old(frames)@.len(),
            n == f0[k1 - 1],
            src_pd_ok(m0, s, f0),
            k <= 512,
            (k1 - frames@.len()) + pd_rest(m0, s, k as int) == pd_cost(m0, s),
            forall|k2: int| 0 <= k2 < k ==> #[trigger] pd_slot(mem@, n, m0, s, f0, frames@.len() as int, k1 - 1, k2),
            oa.contains_key(n) && oa[n] == (2int, i, j, 0int),
            dom_taken(oa, f0, frames@.len() as int, k1),
            forall|k2: int| 0 <= k2 < k ==> #[trigger] pd_owned_slot(mem@, oa, n, i, j, k2),
            forall|k2: int| k <= k2 < 512 ==> #[trigger] ent(mem@, n, k2) == 0,
        decreases 512 - k,
    {
        let ghost ma = mem@;
        let ghost c = frames@.len() as int;
        assert(frame_ok(m0.len(), n));
        let se = mem.read_entry(s, k);
        assert(se == ent(m0, s, k as int));
        if se & PAGE_PRESENT != 0 {
            if se & PAGE_HUGE != 0 {
                mem.write_entry(n, k, se);
                let ghost mc = mem@;
                proof {
                    lemma_kept_write(ma, f0, k1 - 1, k as int, se);
                    lemma_kept_widen(ma, mc, f0, k1 - 1, k1, c, k1);
                    lemma_kept_same(m1, ma, mc, f0, c, k1);
                    assert forall|k2: int| 0 <= k2 <= k implies #[trigger] pd_slot(mc, n, m0, s, f0, c, k1 - 1, k2) by {
                        lemma_write_reads(ma, n, k as int, se, n, k2);
                        if k2 < k {
                            assert(pd_slot(ma, n, m0, s, f0, c, k1 - 1, k2));
                            let se2 = ent(m0, s, k2);
                            if present(se2) && !huge(se2) {
                                lemma_pt_copy_kept(ma, mc, tbl(ent(ma, n, k2)), m0, tbl(se2), f0, c, k1 - 1, k1 - 1, k1);
                            }
                        }
                    }
                    assert forall|k2: int| k < k2 < 512 implies #[trigger] ent(mc, n, k2) == 0 by {
                        lemma_write_reads(ma, n, k as int, se, n, k2);
                    }
                    assert(agrees(oa, oa));
                    assert forall|k2: int| 0 <= k2 <= k implies #[trigger] pd_owned_slot(mc, oa, n, i, j, k2) by {
                        lemma_write_reads(ma, n, k as int, se, n, k2);
                        if k2 < k {
                            assert(pd_owned_slot(ma, oa, n, i, j, k2));
                            if present(ent(ma, n, k2)) && !huge(ent(ma, n, k2)) {
                                let q = tbl(ent(ma, n, k2));
                                assert(oa[q] == (1int, i, j, k2));
                                assert forall|x: int| 0 <= x < 512 implies #[trigger] ent(mc, q, x) == ent(ma, q, x) by {
                                    lemma_write_reads(ma, n, k as int, se, q, x);
                                }
                                lemma_pt_owned_moved(ma, mc, oa, oa, q, i, j, k2);
                            }
                        }
                    }
                }
            } else {
                let child_src = se & ADDR_MASK;
                proof {
                    lemma_kept_trans(m0, m1, ma, f0, c, k1, f0.len() as int);
                }
                let (r, oc) = clone_pt(mem, frames, child_src, Ghost(m0), Ghost(f0), Ghost(i), Ghost(j), Ghost(k as int));
                let ghost mb = mem@;
                let ghost c2 = frames@.len() as int;
                proof {
                    lemma_kept_trans(m1, ma, mb, f0, c2, c, k1);
                }
                match r {
                    None => {
                        proof {
                            lemma_kept_trans(m0, m1, mb, f0, 0, k1, f0.len() as int);
                        }
                        return (None, Ghost(Map::empty()));
                    },
                    Some(child) => {
                        let v = (child & ADDR_MASK) | (se & 0xFFF);
                        assert(v == relink(child, se));
                        assert(frame_ok(m0.len(), n));
                        mem.write_entry(n, k, v);
                        let ghost mc = mem@;
                        proof {
                            lemma_relink(child, se);
                            lemma_kept_write(mb, f0, k1 - 1, k as int, v);
                            lemma_kept_widen(mb, mc, f0, k1 - 1, k1, c2, k1);
                            lemma_kept_same(m1, mb, mc, f0, c2, k1);
                            lemma_not_taken(f0, k1 - 1, c2, c);
                            assert forall|k2: int| 0 <= k2 <= k implies #[trigger] pd_slot(mc, n, m0, s, f0, c2, k1 - 1, k2) by {
                                lemma_write_reads(mb, n, k as int, v, n, k2);
                                assert(ent(mb, n, k2) == ent(ma, n, k2));
                                if k2 < k {
                                    assert(pd_slot(ma, n, m0, s, f0, c, k1 - 1, k2));
                                    let se2 = ent(m0, s, k2);
                                    if present(se2) && !huge(se2) {
                                        let t = tbl(ent(ma, n, k2));
                                        lemma_pt_copy_kept(ma, mb, t, m0, tbl(se2), f0, c, k1 - 1, c2, c);
                                        lemma_pt_copy_kept(mb, mc, t, m0, tbl(se2), f0, c, k1 - 1, k1 - 1, k1);
                                        lemma_pt_copy_widen(mc, t, m0, tbl(se2), f0, c, k1 - 1, c2, k1 - 1);
                                    }
                                } else {
                                    lemma_pt_copy_kept(mb, mc, child, m0, tbl(se), f0, c2, c, k1 - 1, k1);
                                    lemma_pt_copy_widen(mc, child, m0, tbl(se), f0, c2, c, c2, k1 - 1);
                                }
                            }
                            assert forall|k2: int| k < k2 < 512 implies #[trigger] ent(mc, n, k2) == 0 by {
                                lemma_write_reads(mb, n, k as int, v, n, k2);
                                assert(ent(mb, n, k2) == ent(ma, n, k2));
                            }
                        }
                        proof {
                            let ghost o1 = oa;
                            let ghost o2 = oc@;
                            assert(child == f0[c - 1]);
                            assert(f0[c - 1] != f0[k1 - 1]);
                            lemma_join(o1, o2, f0, c2, c, k1);
                            oa = o1.union_prefer_right(o2);
                            assert forall|k2: int| 0 <= k2 <= k implies #[trigger] pd_owned_slot(mc, oa, n, i, j, k2) by {
                                lemma_write_reads(mb, n, k as int, v, n, k2);
                                assert(ent(mb, n, k2) == ent(ma, n, k2));
                                if k2 < k {
                                    assert(pd_owned_slot(ma, o1, n, i, j, k2));
                                    if present(ent(ma, n, k2)) && !huge(ent(ma, n, k2)) {
                                        let q = tbl(ent(ma, n, k2));
                                        assert(o1.contains_key(q) && o1[q] == (1int, i, j, k2));
                                        lemma_taken_kept(ma, mb, f0, c, k1, c2, c, q);
                                        assert forall|x: int| 0 <= x < 512 implies #[trigger] ent(mc, q, x) == ent(ma, q, x) by {
                                            lemma_write_reads(mb, n, k as int, v, q, x);
                                        }
                                        lemma_pt_owned_moved(ma, mc, o1, oa, q, i, j, k2);
                                    }
                                } else {
                                    assert forall|x: int| 0 <= x < 512 implies #[trigger] ent(mc, child, x) == ent(mb, child, x) by {
                                        lemma_write_reads(mb, n, k as int, v, child, x);
                                    }
                                    lemma_pt_owned_moved(mb, mc, o2, oa, child, i, j, k2);
                                }
                            }
                        }
                    },
                }
            }
        } else {
            proof {
                assert(pd_slot(ma, n, m0, s, f0, c, k1 - 1, k as int));
                lemma_entry_bits(0, 0, 0);
            }
        }
        k = k + 1;
    }
    proof {
        let c = frames@.len() as int;
        lemma_kept_trans(m0, m1, mem@, f0, c, k1, f0.len() as int);
        assert(taken_in(f0, c, k1, f0[k1 - 1]));
        assert forall|k2: int| idx_ok(k2) implies #[trigger] pd_slot(mem@, n, m0, s, f0, c, k1, k2) by {
            assert(pd_slot(mem@, n, m0, s, f0, c, k1 - 1, k2));
            let se2 = ent(m0, s, k2);
            if present(se2) && !huge(se2) {
                lemma_pt_copy_widen(mem@, tbl(ent(mem@, n, k2)), m0, tbl(se2), f0, c, k1 - 1, c, k1);
            }
        }
    }
    (Some(n), Ghost(oa))
}

/// Copy the PDPT `s` of `m0`: a new table from the last free frame, then
/// per slot: empty stays empty, a huge page is shared, a pt is copied.
#[verifier::spinoff_prover]
fn clone_pdpt(
    mem: &mut PhysMem,
    frames: &mut FrameAllocator,
    s: u64,
    Ghost(m0): Ghost<Seq<u64>>,
    Ghost(f0): Ghost<Seq<u64>>,
    Ghost(i): Ghost<int>,
) -> (r: (Option<u64>, Ghost<Map<u64, Pos>>))
    requires
        clone_ctx(m0, f0, old(mem)@, old(frames)@),
        src_pdpt_ok(m0, s, f0),
    ensures
        clone_ctx(m0, f0, final(mem)@, final(frames)@),
        final(frames)@.len() <= old(frames)@.len(),
        kept(old(mem)@, final(mem)@, f0, final(frames)@.len() as int, old(frames)@.len() as int),
        r.0 is None ==> final(frames)@.len() == 0,
        r.0 is None <==> pdpt_cost(m0, s) > old(frames)@.len(),
        r.0 is Some ==> final(frames)@.len() + pdpt_cost(m0, s) == old(frames)@.len(),
        r.0 matches Some(n) ==> n == old(frames)@.last() && pdpt_copy(final(mem)@, n, m0, s, f0, final(frames)@.len() as int, old(frames)@.len() as int),
        r.0 matches Some(n) ==> pdpt_owned(final(mem)@, r.1@, n, i) && dom_taken(
            r.1@,
            f0,
            final(frames)@.len() as int,
            old(frames)@.len() as int,
        ),
{
    let ghost m1 = mem@;
    let ghost k1 = frames@.len() as int;
    if frames.free.len() == 0 {
        return (None, Ghost(Map::empty()));
    }
    proof {
        lemma_take_last(f0, frames@);
    }
    let n = match frames.alloc_page() {
        None => { return (None, Ghost(Map::empty())); },
        Some(f) => f,
    };
    let ghost mut oa: Map<u64, Pos> = Map::empty().insert(n, (3int, i, 0int, 0int));
    proof {
        lemma_kept_write(m1, f0, k1 - 1, 0, 0);
    }
    mem.zero_frame(n);
    proof {
        lemma_kept_widen(m1, mem@, f0, k1 - 1, k1, k1 - 1, k1);
    }
    let mut k: u64 = 0;
    while k < 512
        invariant
            distinct_frames(f0),
            forall|a: int| 0 <= a < f0.len() ==> frame_ok(m0.len(), #[trigger] f0[a]),
            k1 <= f0.len(),
            frames@.len() < k1,
            frames@ == f0.take(frames@.len() as int),
            kept(m0, m1, f0, k1, f0.len() as int),
            kept(m1, mem@, f0, frames@.len() as int, k1),
            m1.len() == m0.len(),
            m1 == old(mem)@,
            k1 == old(frames)@.len(),
            n == f0[k1 - 1],
            src_pdpt_ok(m0, s, f0),
            k <= 512,
            (k1 - frames@.len()) + pdpt_rest(m0, s, k as int) == pdpt_cost(m0, s),
            forall|k2: int| 0 <= k2 < k ==> #[trigger] pdpt_slot(mem@, n, m0, s, f0, frames@.len() as int, k1 - 1, k2),
            oa.contains_key(n) && oa[n] == (3int, i, 0int, 0int),
            dom_taken(oa, f0, frames@.len() as int, k1),
            forall|k2: int| 0 <= k2 < k ==> #[trigger] pdpt_owned_slot(mem@, oa, n, i, k2),
            forall|k2: int| k <= k2 < 512 ==> #[trigger] ent(mem@, n, k2) == 0,
        decreases 512 - k,
    {
        let ghost ma = mem@;
        let ghost c = frames@.len() as int;
        assert(frame_ok(m0.len(), n));
        let se = mem.read_entry(s, k);
        assert(se == ent(m0, s, k as int));
        if se & PAGE_PRESENT != 0 {
            if se & PAGE_HUGE != 0 {
                mem.write_entry(n, k, se);
                let ghost mc = mem@;
                proof {
                    lemma_kept_write(ma, f0, k1 - 1, k as int, se);
                    lemma_kept_widen(ma, mc, f0, k1 - 1, k1, c, k1);
                    lemma_kept_same(m1, ma, mc, f0, c, k1);
                    assert forall|k2: int| 0 <= k2 <= k implies #[trigger] pdpt_slot(mc, n, m0, s, f0, c, k1 - 1, k2) by {
                        lemma_write_reads(ma, n, k as int, se, n, k2);
                        if k2 < k {
                            assert(pdpt_slot(ma, n, m0, s, f0, c, k1 - 1, k2));
                            let se2 = ent(m0, s, k2);
                            if present(se2) && !huge(se2) {
                                lemma_pd_copy_kept(ma, mc, tbl(ent(ma, n, k2)), m0, tbl(se2), f0, c, k1 - 1, k1 - 1, k1);
                            }
                        }
                    }
                    assert forall|k2: int| k < k2 < 512 implies #[trigger] ent(mc, n, k2) == 0 by {
                        lemma_write_reads(ma, n, k as int, se, n, k2);
                    }
                    assert(agrees(oa, oa));
                    assert forall|t: u64, x: int| oa.contains_key(t) && 1 <= oa[t].0 <= 2 && 0 <= x < 512 implies #[trigger] ent(
                        mc,
                        t,
                        x,
                    ) == ent(ma, t, x) by {
                        lemma_write_reads(ma, n, k as int, se, t, x);
                    }
                    assert forall|k2: int| 0 <= k2 <= k implies #[trigger] pdpt_owned_slot(mc, oa, n, i, k2) by {
                        lemma_write_reads(ma, n, k as int, se, n, k2);
                        if k2 < k {
                            assert(pdpt_owned_slot(ma, oa, n, i, k2));
                            if present(ent(ma, n, k2)) && !huge(ent(ma, n, k2)) {
                                lemma_pd_owned_moved(ma, mc, oa, oa, tbl(ent(ma, n, k2)), i, k2);
                            }
                        }
                    }
                }
            } else {
                let child_src = se & ADDR_MASK;
                proof {
                    lemma_kept_trans(m0, m1, ma, f0, c, k1, f0.len() as int);
                }
                let (r, oc) = clone_pd(mem, frames, child_src, Ghost(m0), Ghost(f0), Ghost(i), Ghost(k as int));
                let ghost mb = mem@;
                let ghost c2 = frames@.len() as int;
                proof {
                    lemma_kept_trans(m1, ma, mb, f0, c2, c, k1);
                }
                match r {
                    None => {
                        proof {
                            lemma_kept_trans(m0, m1, mb, f0, 0, k1, f0.len() as int);
                        }
                        return (None, Ghost(Map::empty()));
                    },
                    Some(child) => {
                        let v = (child & ADDR_MASK) | (se & 0xFFF);
                        assert(v == relink(child, se));
                        assert(frame_ok(m0.len(), n));
                        mem.write_entry(n, k, v);
                        let ghost mc = mem@;
                        proof {
                            lemma_relink(child, se);
                            lemma_kept_write(mb, f0, k1 - 1, k as int, v);
                            lemma_kept_widen(mb, mc, f0, k1 - 1, k1, c2, k1);
                            lemma_kept_same(m1, mb, mc, f0, c2, k1);
                            lemma_not_taken(f0, k1 - 1, c2, c);
                            assert forall|k2: int| 0 <= k2 <= k implies #[trigger] pdpt_slot(mc, n, m0, s, f0, c2, k1 - 1, k2) by {
                                lemma_write_reads(mb, n, k as int, v, n, k2);
                                assert(ent(mb, n, k2) == ent(ma, n, k2));
                                if k2 < k {
                                    assert(pdpt_slot(ma, n, m0, s, f0, c, k1 - 1, k2));
                                    let se2 = ent(m0, s, k2);
                                    if present(se2) && !huge(se2) {
                                        let t = tbl(ent(ma, n, k2));
                                        lemma_pd_copy_kept(ma, mb, t, m0, tbl(se2), f0, c, k1 - 1, c2, c);
                                        lemma_pd_copy_kept(mb, mc, t, m0, tbl(se2), f0, c, k1 - 1, k1 - 1, k1);
                                        lemma_pd_copy_widen(mc, t, m0, tbl(se2), f0, c, k1 - 1, c2, k1 - 1);
                                    }
                                } else {
                                    lemma_pd_copy_kept(mb, mc, child, m0, tbl(se), f0, c2, c, k1 - 1, k1);
                                    lemma_pd_copy_widen(mc, child, m0, tbl(se), f0, c2, c, c2, k1 - 1);
                                }
                            }
                            assert forall|k2: int| k < k2 < 512 implies #[trigger] ent(mc, n, k2) == 0 by {
                                lemma_write_reads(mb, n, k as int, v, n, k2);
                                assert(ent(mb, n, k2) == ent(ma, n, k2));
                            }
                        }
                        proof {
                            let ghost o1 = oa;
                            let ghost o2 = oc@;
                            assert(child == f0[c - 1]);
                            assert(f0[c - 1] != f0[k1 - 1]);
                            lemma_join(o1, o2, f0, c2, c, k1);
                            oa = o1.union_prefer_right(o2);
                            assert forall|t: u64, x: int| o1.contains_key(t) && 1 <= o1[t].0 <= 2 && 0 <= x < 512 implies #[trigger] ent(
                                mc,
                                t,
                                x,
                            ) == ent(ma, t, x) by {
                                lemma_taken_kept(ma, mb, f0, c, k1, c2, c, t);
                                lemma_write_reads(mb, n, k as int, v, t, x);
                            }
                            assert forall|t: u64, x: int| o2.contains_key(t) && 1 <= o2[t].0 <= 2 && 0 <= x < 512 implies #[trigger] ent(
                                mc,
                                t,
                                x,
                            ) == ent(mb, t, x) by {
                                lemma_write_reads(mb, n, k as int, v, t, x);
                            }
                            assert forall|k2: int| 0 <= k2 <= k implies #[trigger] pdpt_owned_slot(mc, oa, n, i, k2) by {
                                lemma_write_reads(mb, n, k as int, v, n, k2);
                                assert(ent(mb, n, k2) == ent(ma, n, k2));
                                if k2 < k {
                                    assert(pdpt_owned_slot(ma, o1, n, i, k2));
                                    if present(ent(ma, n, k2)) && !huge(ent(ma, n, k2)) {
                                        lemma_pd_owned_moved(ma, mc, o1, oa, tbl(ent(ma, n, k2)), i, k2);
                                    }
                                } else {
                                    lemma_pd_owned_moved(mb, mc, o2, oa, child, i, k2);
                                }
                            }
                        }
                    },
                }
            }
        } else {
            proof {
                assert(pdpt_slot(ma, n, m0, s, f0, c, k1 - 1, k as int));
                lemma_entry_bits(0, 0, 0);
            }
        }
        k = k + 1;
    }
    proof {
        let c = frames@.len() as int;
        lemma_kept_trans(m0, m1, mem@, f0, c, k1, f0.len() as int);
        assert(taken_in(f0, c, k1, f0[k1 - 1]));
        assert forall|k2: int| idx_ok(k2) implies #[trigger] pdpt_slot(mem@, n, m0, s, f0, c, k1, k2) by {
            assert(pdpt_slot(mem@, n, m0, s, f0, c, k1 - 1, k2));
            let se2 = ent(m0, s, k2);
            if present(se2) && !huge(se2) {
                lemma_pd_copy_widen(mem@, tbl(ent(mem@, n, k2)), m0, tbl(se2), f0, c, k1 - 1, c, k1);
            }
        }
    }
    (Some(n), Ghost(oa))
}

/// Every 4 KiB page that a user slot (PML4 slot 1 and up) maps is a frame in
/// memory that no free slot lists.
pub open spec fn leaves_ok(m: Seq<u64>, root: u64, free: Seq<u64>) -> bool {
    forall|i: int, j: int, k: int, l: int|
        #![trigger e1(m, root, i, j, k, l)]
        1 <= i && has1(m, root, i, j, k) && idx_ok(l) && present(e1(m, root, i, j, k, l)) ==> frame_ok(
            m.len(),
            tbl(e1(m, root, i, j, k, l)),
        ) && unlisted(free, tbl(e1(m, root, i, j, k, l)))
}

/// Slot `i` of a new PML4: slot 0, the kernel's, is shared; an empty user
/// slot stays empty; a PDPT is copied.
pub open spec fn root_slot(m: Seq<u64>, n: u64, ms: Seq<u64>, s: u64, free: Seq<u64>, lo: int, hi: int, i: int) -> bool {
    let se = ent(ms, s, i);
    let ne = ent(m, n, i);
    if i == 0 {
        ne == se
    } else if !present(se) {
        ne == 0
    } else {
        ne == relink(tbl(ne), se) && pdpt_copy(m, tbl(ne), ms, tbl(se), free, lo, hi)
    }
}

/// What the clone `n` (memory `m`) of the tree `s` (memory `ms`) translates
/// `va` to: the kernel slot as the source does; in user space nothing where
/// the source maps nothing, a 1 GiB or 2 MiB page shared, and a 4 KiB page
/// onto a frame taken from `free` past slot `lo` that holds a copy of the
/// source page, with the source entry's flag bits.
pub open spec fn cloned_walk(m: Seq<u64>, n: u64, ms: Seq<u64>, s: u64, free: Seq<u64>, lo: int, va: u64) -> bool {
    if l4(va) == 0 {
        walk(m, n, va) == walk(ms, s, va)
    } else {
        match walk(ms, s, va) {
            None => walk(m, n, va) is None,
            Some((e, lvl)) => if lvl != 1 {
                walk(m, n, va) == Some((e, lvl))
            } else {
                &&& walk(m, n, va) matches Some((ne, nl))
                &&& nl == 1
                &&& ne == relink(tbl(ne), e)
                &&& frame_ok(m.len(), tbl(ne))
                &&& taken_in(free, lo, free.len() as int, tbl(ne))
                &&& same_frame(m, tbl(ne), ms, tbl(e))
            },
        }
    }
}

/// The source subtree under a user slot meets what copying it needs.
proof fn lemma_src_ok(m: Seq<u64>, root: u64, free: Seq<u64>, o: Map<u64, Pos>, i: int)
    requires
        owner_ok(m, root, free, o),
        leaves_ok(m, root, free),
        1 <= i < 512,
        present(e4(m, root, i)),
    ensures
        src_pdpt_ok(m, t3(m, root, i), free),
{
    let p = t3(m, root, i);
    assert(has3(m, root, i));
    assert(o.contains_key(p));
    assert forall|j: int| idx_ok(j) && present(#[trigger] ent(m, p, j)) && !huge(ent(m, p, j)) implies src_pd_ok(
        m,
        tbl(ent(m, p, j)),
        free,
    ) by {
        let q = t2(m, root, i, j);
        assert(has2(m, root, i, j));
        assert(o.contains_key(q));
        assert forall|k: int| idx_ok(k) && present(#[trigger] ent(m, q, k)) && !huge(ent(m, q, k)) implies src_pt_ok(
            m,
            tbl(ent(m, q, k)),
            free,
        ) by {
            let r = t1(m, root, i, j, k);
            assert(has1(m, root, i, j, k));
            assert(o.contains_key(r));
            assert forall|l: int| idx_ok(l) && present(#[trigger] ent(m, r, l)) implies frame_ok(m.len(), tbl(ent(m, r, l)))
                && unlisted(free, tbl(ent(m, r, l))) by {
                assert(ent(m, r, l) == e1(m, root, i, j, k, l));
            }
        }
    }
}

/// The entry-level description of a clone gives its translations.
proof fn lemma_cloned_walk(m: Seq<u64>, n: u64, ms: Seq<u64>, s: u64, free: Seq<u64>, o: Map<u64, Pos>, lo: int, va: u64)
    requires
        owner_ok(ms, s, free, o),
        m.len() == ms.len(),
        forall|t: u64, x: int| o.contains_key(t) && idx_ok(x) ==> #[trigger] ent(m, t, x) == ent(ms, t, x),
        forall|i: int| idx_ok(i) ==> #[trigger] root_slot(m, n, ms, s, free, lo, free.len() as int, i),
    ensures
        cloned_walk(m, n, ms, s, free, lo, va),
{
    lemma_indices(va);
    let hi = free.len() as int;
    let (i, j, k, l) = (l4(va), l3(va), l2(va), l1(va));
    assert(root_slot(m, n, ms, s, free, lo, hi, i));
    if i == 0 {
        if has3(ms, s, 0) {
            assert(o.contains_key(t3(ms, s, 0)));
            assert(e3(m, n, 0, j) == e3(ms, s, 0, j));
            if has2(ms, s, 0, j) {
                assert(o.contains_key(t2(ms, s, 0, j)));
                assert(e2(m, n, 0, j, k) == e2(ms, s, 0, j, k));
                if has1(ms, s, 0, j, k) {
                    assert(o.contains_key(t1(ms, s, 0, j, k)));
                    assert(e1(m, n, 0, j, k, l) == e1(ms, s, 0, j, k, l));
                }
            }
        }
        assert(walk(m, n, va) == walk(ms, s, va));
    } else if !present(e4(ms, s, i)) {
        assert(ent(m, n, i) == 0);
        lemma_entry_bits(0, 0, 0);
        assert(walk(m, n, va) is None);
    } else {
        let p = t3(m, n, i);
        let sp = t3(ms, s, i);
        assert(pdpt_copy(m, p, ms, sp, free, lo, hi));
        lemma_relink(p, e4(ms, s, i));
        lemma_entry_bits(0, 0, 0);
        assert(present(e4(m, n, i)));
        assert(pdpt_slot(m, p, ms, sp, free, lo, hi, j));
        let se3 = e3(ms, s, i, j);
        assert(e3(m, n, i, j) == ent(m, p, j));
        if !present(se3) {
            assert(walk(m, n, va) is None);
        } else if huge(se3) {
            assert(walk(m, n, va) == walk(ms, s, va));
        } else {
            let q = t2(m, n, i, j);
            let sq = t2(ms, s, i, j);
            assert(pd_copy(m, q, ms, sq, free, lo, hi));
            lemma_relink(q, se3);
            assert(pd_slot(m, q, ms, sq, free, lo, hi, k));
            let se2 = e2(ms, s, i, j, k);
            assert(e2(m, n, i, j, k) == ent(m, q, k));
            if !present(se2) {
                assert(walk(m, n, va) is None);
            } else if huge(se2) {
                assert(walk(m, n, va) == walk(ms, s, va));
            } else {
                let r = t1(m, n, i, j, k);
                let sr = t1(ms, s, i, j, k);
                assert(pt_copy(m, r, ms, sr, free, lo, hi));
                lemma_relink(r, se2);
                assert(pt_slot(m, r, ms, sr, free, lo, hi, l));
                let se1 = e1(ms, s, i, j, k, l);
                assert(e1(m, n, i, j, k, l) == ent(m, r, l));
                if present(se1) {
                    let ne1 = e1(m, n, i, j, k, l);
                    lemma_relink(tbl(ne1), se1);
                    assert(walk(m, n, va) == Some((ne1, 1int)));
                } else {
                    assert(walk(m, n, va) is None);
                }
            }
        }
    }
}

proof fn lemma_relink_user(f: u64, e: u64)
    ensures
        user_link(relink(f, e)) == user_link(e),
{
    assert((((f & 0xFFFF_FFFF_FFFF_F000) | (e & 0xFFF)) & 7 == 7) == (e & 7 == 7)) by (bit_vector);
}

/// A copy built slot by slot (`root_slot`) carries the source's link flags,
/// so the links of its user half open to user mode as the source's do.
proof fn lemma_clone_user_links(m: Seq<u64>, n: u64, ms: Seq<u64>, s: u64, free: Seq<u64>, lo: int, hi: int)
    requires
        forall|i: int| idx_ok(i) ==> #[trigger] root_slot(m, n, ms, s, free, lo, hi, i),
        user_links(ms, s),
    ensures
        user_links(m, n),
{
    assert forall|i: int| 1 <= i && #[trigger] has3(m, n, i) implies user_link(e4(m, n, i)) by {
        assert(root_slot(m, n, ms, s, free, lo, hi, i));
        let se = ent(ms, s, i);
        if !present(se) {
            lemma_entry_bits(0, 0, 0);
        }
        assert(has3(ms, s, i));
        lemma_relink_user(tbl(ent(m, n, i)), se);
    }
    assert forall|i: int, j: int| 1 <= i && #[trigger] has2(m, n, i, j) implies user_link(e3(m, n, i, j)) by {
        assert(root_slot(m, n, ms, s, free, lo, hi, i));
        let se = ent(ms, s, i);
        if !present(se) {
            lemma_entry_bits(0, 0, 0);
        }
        assert(has3(ms, s, i));
        let p = tbl(ent(m, n, i));
        assert(pdpt_copy(m, p, ms, tbl(se), free, lo, hi));
        assert(pdpt_slot(m, p, ms, tbl(se), free, lo, hi, j));
        let se3 = ent(ms, tbl(se), j);
        if !present(se3) {
            lemma_entry_bits(0, 0, 0);
        }
        assert(has2(ms, s, i, j));
        lemma_relink_user(tbl(ent(m, p, j)), se3);
    }
    assert forall|i: int, j: int, k: int| 1 <= i && #[trigger] has1(m, n, i, j, k) implies user_link(e2(m, n, i, j, k)) by {
        assert(root_slot(m, n, ms, s, free, lo, hi, i));
        let se = ent(ms, s, i);
        if !present(se) {
            lemma_entry_bits(0, 0, 0);
        }
        assert(has3(ms, s, i));
        let p = tbl(ent(m, n, i));
        assert(pdpt_copy(m, p, ms, tbl(se), free, lo, hi));
        assert(pdpt_slot(m, p, ms, tbl(se), free, lo, hi, j));
        let se3 = ent(ms, tbl(se), j);
        if !present(se3) {
            lemma_entry_bits(0, 0, 0);
        }
        assert(has2(ms, s, i, j));
        let q = tbl(ent(m, p, j));
        assert(pd_copy(m, q, ms, tbl(se3), free, lo, hi));
        assert(pd_slot(m, q, ms, tbl(se3), free, lo, hi, k));
        let se2 = ent(ms, tbl(se3), k);
        if !present(se2) {
            lemma_entry_bits(0, 0, 0);
        }
        assert(has1(ms, s, i, j, k));
        lemma_relink_user(tbl(ent(m, q, k)), se2);
    }
}

/// Deep-copy a user address space (for fork): a new PML4 from the last free
/// frame shares slot 0, the kernel's; every present user slot gets a fresh
/// PDPT, every present non-huge PDPT slot a fresh directory, every present
/// non-huge directory slot a fresh page table, and every 4 KiB page a fresh
/// frame holding a copy of its contents; 1 GiB and 2 MiB pages are shared.
/// New entries keep the source entries' flag bits 11:0.
///
/// `None` exactly when fewer than `clone_cost` frames are free; frames taken
/// up to then stay taken. On success exactly `clone_cost` frames are taken.
/// Only frames taken from the free list are written, so the source tables
/// and pages keep every word, and the source tree translates what it did. A clone is itself a
/// well-formed tree whose 4 KiB pages no free slot lists: it can be mapped
/// into and cloned in turn.
#[verifier::spinoff_prover]
pub fn clone_user_page_table(mem: &mut PhysMem, frames: &mut FrameAllocator, src_pml4: u64) -> (r: Option<u64>)
    requires
        pt_inv(old(mem)@, src_pml4, old(frames)@),
        leaves_ok(old(mem)@, src_pml4, old(frames)@),
    ensures
        final(mem)@.len() == old(mem)@.len(),
        final(frames)@.len() <= old(frames)@.len(),
        final(frames)@ == old(frames)@.take(final(frames)@.len() as int),
        r is None ==> final(frames)@.len() == 0,
        r is None <==> clone_cost(old(mem)@, src_pml4) > old(frames)@.len(),
        r is Some ==> final(frames)@.len() + clone_cost(old(mem)@, src_pml4) == old(frames)@.len(),
        kept(old(mem)@, final(mem)@, old(frames)@, final(frames)@.len() as int, old(frames)@.len() as int),
        r matches Some(n) ==> forall|i: int| idx_ok(i) ==> #[trigger] root_slot(
            final(mem)@,
            n,
            old(mem)@,
            src_pml4,
            old(frames)@,
            final(frames)@.len() as int,
            old(frames)@.len() as int,
            i,
        ),
        pt_inv(final(mem)@, src_pml4, final(frames)@),
        forall|va: u64| #[trigger] walk(final(mem)@, src_pml4, va) == walk(old(mem)@, src_pml4, va),
        r matches Some(n) ==> n == old(frames)@.last() && forall|va: u64| #[trigger] cloned_walk(
            final(mem)@,
            n,
            old(mem)@,
            src_pml4,
            old(frames)@,
            final(frames)@.len() as int,
            va,
        ),
        r matches Some(n) ==> pt_inv(final(mem)@, n, final(frames)@) && pages_private(final(mem)@, n, final(frames)@)
            && leaves_ok(final(mem)@, n, final(frames)@),
        r matches Some(n) ==> (user_links(old(mem)@, src_pml4) ==> user_links(final(mem)@, n)),
{
    let ghost m0 = mem@;
    let ghost f0 = frames@;
    let ghost o = choose|o: Map<u64, Pos>| owner_ok(m0, src_pml4, f0, o);
    proof {
        assert(f0 == f0.take(f0.len() as int));
        lemma_inv_frames(m0, src_pml4, f0);
    }
    let ghost k1 = f0.len() as int;
    if frames.free.len() == 0 {
        return None;
    }
    proof {
        lemma_take_last(f0, frames@);
    }
    let n = match frames.alloc_page() {
        None => { return None; },
        Some(f) => f,
    };
    proof {
        lemma_kept_write(m0, f0, k1 - 1, 0, 0);
    }
    mem.zero_frame(n);
    let ghost mz = mem@;
    proof {
        assert(src_pml4 != n);
    }
    let e0 = mem.read_entry(src_pml4, 0);
    mem.write_entry(n, 0, e0);
    proof {
        lemma_kept_write(mz, f0, k1 - 1, 0, e0);
        lemma_kept_same(m0, mz, mem@, f0, k1 - 1, k1);
        lemma_kept_widen(m0, mem@, f0, k1 - 1, k1, k1 - 1, k1);
        assert forall|i2: int| 1 <= i2 < 512 implies #[trigger] ent(mem@, n, i2) == 0 by {
            lemma_write_reads(mz, n, 0, e0, n, i2);
        }
        lemma_write_reads(mz, n, 0, e0, n, 0);
    }
    let ghost mut on: Map<u64, Pos> = Map::empty();
    let mut i: u64 = 1;
    while i < 512
        invariant
            distinct_frames(f0),
            forall|a: int| 0 <= a < f0.len() ==> frame_ok(m0.len(), #[trigger] f0[a]),
            k1 == f0.len(),
            frames@.len() < k1,
            frames@ == f0.take(frames@.len() as int),
            kept(m0, mem@, f0, frames@.len() as int, k1),
            m0 == old(mem)@,
            f0 == old(frames)@,
            n == f0[k1 - 1],
            owner_ok(m0, src_pml4, f0, o),
            leaves_ok(m0, src_pml4, f0),
            1 <= i <= 512,
            (k1 - frames@.len()) + root_rest(m0, src_pml4, i as int) == clone_cost(m0, src_pml4),
            forall|i2: int| 0 <= i2 < i ==> #[trigger] root_slot(mem@, n, m0, src_pml4, f0, frames@.len() as int, k1 - 1, i2),
            forall|i2: int| i <= i2 < 512 ==> #[trigger] ent(mem@, n, i2) == 0,
            dom_taken(on, f0, frames@.len() as int, k1 - 1),
            forall|i2: int| 1 <= i2 < i ==> #[trigger] root_owned_slot(mem@, on, n, i2),
        decreases 512 - i,
    {
        let ghost ma = mem@;
        let ghost c = frames@.len() as int;
        assert(frame_ok(m0.len(), n));
        assert(o.contains_key(src_pml4));
        let se = mem.read_entry(src_pml4, i);
        assert(se == ent(m0, src_pml4, i as int));
        if se & PAGE_PRESENT != 0 {
            let child_src = se & ADDR_MASK;
            proof {
                lemma_src_ok(m0, src_pml4, f0, o, i as int);
                lemma_kept_widen(m0, ma, f0, c, k1, c, k1);
            }
            let (r, oc) = clone_pdpt(mem, frames, child_src, Ghost(m0), Ghost(f0), Ghost(i as int));
            let ghost mb = mem@;
            let ghost c2 = frames@.len() as int;
            proof {
                lemma_kept_trans(m0, ma, mb, f0, c2, c, k1);
            }
            match r {
                None => {
                    proof {
                        lemma_kept_widen(m0, mb, f0, c2, k1, 0, k1);
                        assert forall|t: u64, x: int| o.contains_key(t) && idx_ok(x) implies #[trigger] ent(mb, t, x)
                            == ent(m0, t, x) by {
                            assert(frame_ok(m0.len(), t));
                        }
                        lemma_tables_kept(m0, mb, src_pml4, f0, 0, o);
                    }
                    return None;
                },
                Some(child) => {
                    let v = (child & ADDR_MASK) | (se & 0xFFF);
                    assert(v == relink(child, se));
                    mem.write_entry(n, i, v);
                    let ghost mc = mem@;
                    proof {
                        lemma_relink(child, se);
                        lemma_kept_write(mb, f0, k1 - 1, i as int, v);
                        lemma_kept_widen(mb, mc, f0, k1 - 1, k1, c2, k1);
                        lemma_kept_same(m0, mb, mc, f0, c2, k1);
                        lemma_not_taken(f0, k1 - 1, c2, c);
                        assert forall|i2: int| 0 <= i2 <= i implies #[trigger] root_slot(mc, n, m0, src_pml4, f0, c2, k1 - 1, i2) by {
                            lemma_write_reads(mb, n, i as int, v, n, i2);
                            assert(ent(mb, n, i2) == ent(ma, n, i2));
                            if i2 < i {
                                assert(root_slot(ma, n, m0, src_pml4, f0, c, k1 - 1, i2));
                                let se2 = ent(m0, src_pml4, i2);
                                if i2 != 0 && present(se2) {
                                    let t = tbl(ent(ma, n, i2));
                                    lemma_pdpt_copy_kept(ma, mb, t, m0, tbl(se2), f0, c, k1 - 1, c2, c);
                                    lemma_pdpt_copy_kept(mb, mc, t, m0, tbl(se2), f0, c, k1 - 1, k1 - 1, k1);
                                    lemma_pdpt_copy_widen(mc, t, m0, tbl(se2), f0, c, k1 - 1, c2, k1 - 1);
                                }
                            } else {
                                lemma_pdpt_copy_kept(mb, mc, child, m0, tbl(se), f0, c2, c, k1 - 1, k1);
                                lemma_pdpt_copy_widen(mc, child, m0, tbl(se), f0, c2, c, c2, k1 - 1);
                            }
                        }
                        assert forall|i2: int| i < i2 < 512 implies #[trigger] ent(mc, n, i2) == 0 by {
                            lemma_write_reads(mb, n, i as int, v, n, i2);
                            assert(ent(mb, n, i2) == ent(ma, n, i2));
                        }
                    }
                    proof {
                        let ghost o1 = on;
                        let ghost o2 = oc@;
                        assert(child == f0[c - 1]);
                        assert(f0[c - 1] != f0[k1 - 1]);
                        lemma_not_taken(f0, k1 - 1, c2, k1 - 1);
                        lemma_join(o1, o2, f0, c2, c, k1 - 1);
                        on = o1.union_prefer_right(o2);
                        assert forall|t: u64, x: int| o1.contains_key(t) && 0 <= x < 512 implies #[trigger] ent(mc, t, x)
                            == ent(ma, t, x) by {
                            lemma_taken_widen(f0, c, k1 - 1, c, k1, t);
                            lemma_taken_kept(ma, mb, f0, c, k1, c2, c, t);
                            lemma_taken_widen(f0, c, k1 - 1, c2, k1 - 1, t);
                            lemma_write_reads(mb, n, i as int, v, t, x);
                        }
                        assert forall|t: u64, x: int| o2.contains_key(t) && 0 <= x < 512 implies #[trigger] ent(mc, t, x)
                            == ent(mb, t, x) by {
                            lemma_taken_widen(f0, c2, c, c2, k1 - 1, t);
                            lemma_write_reads(mb, n, i as int, v, t, x);
                        }
                        assert forall|i2: int| 1 <= i2 <= i implies #[trigger] root_owned_slot(mc, on, n, i2) by {
                            lemma_write_reads(mb, n, i as int, v, n, i2);
                            assert(ent(mb, n, i2) == ent(ma, n, i2));
                            if i2 < i {
                                assert(root_owned_slot(ma, o1, n, i2));
                                if present(ent(ma, n, i2)) {
                                    lemma_pdpt_owned_moved(ma, mc, o1, on, tbl(ent(ma, n, i2)), i2);
                                }
                            } else {
                                lemma_pdpt_owned_moved(mb, mc, o2, on, child, i2);
                            }
                        }
                    }
                },
            }
        } else {
            proof {
                assert(root_slot(ma, n, m0, src_pml4, f0, c, k1 - 1, i as int));
                lemma_entry_bits(0, 0, 0);
                assert(root_owned_slot(ma, on, n, i as int));
            }
        }
        i = i + 1;
    }
    proof {
        let c = frames@.len() as int;
        let m1 = mem@;
        assert forall|i2: int| idx_ok(i2) implies #[trigger] root_slot(m1, n, m0, src_pml4, f0, c, k1, i2) by {
            assert(root_slot(m1, n, m0, src_pml4, f0, c, k1 - 1, i2));
            let se2 = ent(m0, src_pml4, i2);
            if i2 != 0 && present(se2) {
                lemma_pdpt_copy_widen(m1, tbl(ent(m1, n, i2)), m0, tbl(se2), f0, c, k1 - 1, c, k1);
            }
        }
        assert forall|t: u64, x: int| o.contains_key(t) && idx_ok(x) implies #[trigger] ent(m1, t, x) == ent(m0, t, x) by {
            assert(frame_ok(m0.len(), t));
        }
        lemma_tables_kept(m0, m1, src_pml4, f0, c, o);
        assert forall|va: u64| #[trigger] cloned_walk(m1, n, m0, src_pml4, f0, c, va) by {
            lemma_cloned_walk(m1, n, m0, src_pml4, f0, o, c, va);
        }
        assert(root_slot(m1, n, m0, src_pml4, f0, c, k1, 0));
        lemma_clone_owner(m1, n, m0, src_pml4, f0, o, on, c);
        lemma_clone_leaves(m1, n, m0, src_pml4, f0, c);
        if user_links(m0, src_pml4) {
            lemma_clone_user_links(m1, n, m0, src_pml4, f0, c, k1);
        }
    }
    Some(n)
}

// ── Guard pages in the kernel map ───────────────────────────────────────

/// Flags of the kernel map's 4 KiB pages and of the tables split from its
/// 2 MiB pages: present, writable.
pub const KERNEL_PAGE: u64 = 0x3;

/// The 4 KiB identity leaf (present, writable) for page `y` of the 2 MiB
/// slot `x` of GiB `g`.
pub open spec fn id_leaf(g: u64, x: u64, y: u64) -> u64 {
    ((g << 30u64) | (x << 21u64) | (y << 12u64)) | 3
}

/// Slot (`g`, `x`) of the kernel directories: the 2 MiB identity page, or
/// a page table split from it whose entries are each the 4 KiB identity
/// page or empty (a guard page).
pub open spec fn kslot_ok(m: Seq<u64>, k: KernelTables, free: Seq<u64>, g: int, x: int) -> bool {
    let e = ent(m, k.pd[g], x);
    ||| e == kernel_pd_entry(g as u64, x as u64)
    ||| {
        &&& e == tbl(e) | 3
        &&& frame_ok(m.len(), tbl(e))
        &&& tbl(e) != k.pml4 && tbl(e) != k.pdpt
        &&& forall|h: int| 0 <= h < 4 ==> tbl(e) != #[trigger] k.pd[h]
        &&& unlisted(free, tbl(e))
        &&& forall|y: int| idx_ok(y) ==> #[trigger] ent(m, tbl(e), y) == 0 || ent(m, tbl(e), y) == id_leaf(
            g as u64,
            x as u64,
            y as u64,
        )
    }
}

/// Slot (`g`, `x`) holds a page table rather than the 2 MiB page.
pub open spec fn is_split(m: Seq<u64>, k: KernelTables, g: int, x: int) -> bool {
    ent(m, k.pd[g], x) != kernel_pd_entry(g as u64, x as u64)
}

/// The kernel map covers the first 4 GiB with identity pages, some 2 MiB
/// slots split into 4 KiB pages of which some are guard pages; the split
/// tables are distinct, none of the map's frames is free, and the free
/// frames are distinct frames in memory.
pub open spec fn kmap_ok(m: Seq<u64>, k: KernelTables, free: Seq<u64>) -> bool {
    &&& k.wf(m.len())
    &&& ent(m, k.pml4, 0) == k.pdpt | 3
    &&& forall|g: int| 0 <= g < 4 ==> #[trigger] ent(m, k.pdpt, g) == k.pd[g] | 3
    &&& forall|g: int, x: int| 0 <= g < 4 && idx_ok(x) ==> #[trigger] kslot_ok(m, k, free, g, x)
    &&& forall|g: int, x: int, g2: int, x2: int|
        #![trigger is_split(m, k, g, x), is_split(m, k, g2, x2)]
        0 <= g < 4 && 0 <= g2 < 4 && idx_ok(x) && idx_ok(x2) && (g != g2 || x != x2) && is_split(m, k, g, x)
            && is_split(m, k, g2, x2) ==> tbl(ent(m, k.pd[g], x)) != tbl(ent(m, k.pd[g2], x2))
    &&& unlisted(free, k.pml4) && unlisted(free, k.pdpt)
    &&& forall|h: int| 0 <= h < 4 ==> unlisted(free, #[trigger] k.pd[h])
    &&& distinct_frames(free)
    &&& forall|a: int| 0 <= a < free.len() ==> frame_ok(m.len(), #[trigger] free[a])
}

/// `va` translates onto itself: through the 2 MiB page or a 4 KiB page.
pub open spec fn kmapped(m: Seq<u64>, k: KernelTables, va: u64) -> bool {
    ||| walk(m, k.pml4, va) == Some((((va >> 21u64) << 21u64) | 0x83, 2int))
    ||| walk(m, k.pml4, va) == Some((((va >> 12u64) << 12u64) | 3, 1int))
}

/// Bit facts about kernel-map addresses and entries, for the values given.
proof fn lemma_guard_bits(va: u64, vb: u64, f: u64, g: u64, x: u64, y: u64, phys: u64, i: u64)
    ensures
        va < 0x1_0000_0000 ==> {
            &&& (va >> 39u64) & 511 == 0
            &&& (va >> 30u64) & 511 < 4
            &&& (va >> 30u64) & 3 == (va >> 30u64) & 511
            &&& ((va >> 12u64) << 12u64) | 3 == id_leaf((va >> 30u64) & 511, (va >> 21u64) & 511, (va >> 12u64) & 511)
            &&& ((va >> 21u64) << 21u64) | 0x83 == kernel_pd_entry((va >> 30u64) & 511, (va >> 21u64) & 511)
        },
        va < 0x1_0000_0000 && vb < 0x1_0000_0000 ==> ((va >> 12u64 == vb >> 12u64) == ((va >> 30u64) & 511 == (vb
            >> 30u64) & 511 && (va >> 21u64) & 511 == (vb >> 21u64) & 511 && (va >> 12u64) & 511 == (vb >> 12u64) & 511)),
        f % 4096 == 0 ==> (f | 3) & 1 != 0 && (f | 3) & 0x80 == 0 && (f | 3) & 0xFFFF_FFFF_FFFF_F000 == f,
        (f | 1) | 2 == f | 3,
        g < 4 && x < 512 && y < 512 ==> id_leaf(g, x, y) & 1 != 0,
        g < 4 && x < 512 ==> kernel_pd_entry(g, x) & 1 != 0 && kernel_pd_entry(g, x) & 0x80 != 0,
        phys < 0x1_0000_0000 && i < 512 ==> (phys & !0x1F_FFFFu64) + i * 4096 <= u64::MAX && (((phys & !0x1F_FFFFu64)
            + i * 4096) as u64) | 3 == id_leaf((phys >> 30u64) & 511, (phys >> 21u64) & 511, i),
{
    assert({
        &&& va < 0x1_0000_0000 ==> {
            &&& (va >> 39u64) & 511 == 0
            &&& (va >> 30u64) & 511 < 4
            &&& (va >> 30u64) & 3 == (va >> 30u64) & 511
            &&& ((va >> 12u64) << 12u64) | 3 == ((((va >> 30u64) & 511) << 30u64) | (((va >> 21u64) & 511) << 21u64) | (((va
                >> 12u64) & 511) << 12u64)) | 3
            &&& ((va >> 21u64) << 21u64) | 0x83 == ((((va >> 30u64) & 511) << 30u64) | (((va >> 21u64) & 511) << 21u64))
                | 1 | 2 | 0x80
        }
        &&& va < 0x1_0000_0000 && vb < 0x1_0000_0000 ==> ((va >> 12u64 == vb >> 12u64) == ((va >> 30u64) & 511 == (vb
            >> 30u64) & 511 && (va >> 21u64) & 511 == (vb >> 21u64) & 511 && (va >> 12u64) & 511 == (vb >> 12u64) & 511))
        &&& f % 4096 == 0 ==> (f | 3) & 1 != 0 && (f | 3) & 0x80 == 0 && (f | 3) & 0xFFFF_FFFF_FFFF_F000 == f
        &&& (f | 1) | 2 == f | 3
        &&& g < 4 && x < 512 && y < 512 ==> (((g << 30u64) | (x << 21u64) | (y << 12u64)) | 3) & 1 != 0
        &&& g < 4 && x < 512 ==> (((g << 30u64) | (x << 21u64)) | 1 | 2 | 0x80) & 1 != 0 && (((g << 30u64) | (x
            << 21u64)) | 1 | 2 | 0x80) & 0x80 != 0
        &&& phys < 0x1_0000_0000 && i < 512 ==> (phys & !0x1F_FFFFu64) + i * 4096 <= 0xFFFF_FFFF_FFFF_FFFFu64 && (((phys
            & !0x1F_FFFFu64) + i * 4096) as u64) | 3 == ((((phys >> 30u64) & 511) << 30u64) | (((phys >> 21u64) & 511)
            << 21u64) | (i << 12u64)) | 3
    }) by (bit_vector);
}

/// In a kernel map as `kmap_ok` describes, an address below 4 GiB is
/// identity-mapped unless its 2 MiB slot is split and its 4 KiB entry empty.
proof fn lemma_kmapped(m: Seq<u64>, k: KernelTables, free: Seq<u64>, va: u64)
    requires
        kmap_ok(m, k, free),
        va < 0x1_0000_0000,
    ensures
        kmapped(m, k, va) == (!is_split(m, k, l3(va), l2(va)) || ent(m, tbl(ent(m, k.pd[l3(va)], l2(va))), l1(va))
            != 0),
{
    lemma_entry_bits(0, 0, 0);
    lemma_indices(va);
    let (g, x, y) = (l3(va), l2(va), l1(va));
    lemma_guard_bits(va, va, k.pdpt, g as u64, x as u64, y as u64, 0, 0);
    lemma_guard_bits(va, va, k.pd[g], g as u64, x as u64, y as u64, 0, 0);
    assert(frame_ok(m.len(), k.pdpt) && frame_ok(m.len(), k.pd[g]));
    assert(e4(m, k.pml4, 0) == k.pdpt | 3);
    assert(t3(m, k.pml4, 0) == k.pdpt);
    assert(e3(m, k.pml4, 0, g) == k.pd[g] | 3);
    assert(t2(m, k.pml4, 0, g) == k.pd[g]);
    assert(kslot_ok(m, k, free, g, x));
    let e = ent(m, k.pd[g], x);
    if is_split(m, k, g, x) {
        let p = tbl(e);
        lemma_guard_bits(va, va, p, g as u64, x as u64, y as u64, 0, 0);
        assert(t1(m, k.pml4, 0, g, x) == p);
    }
}

/// The kernel map `init` builds is one `kmap_ok` describes, for any free
/// list of distinct frames in memory that holds none of its tables.
pub proof fn lemma_init_kmap_ok(m: Seq<u64>, k: KernelTables, free: Seq<u64>)
    requires
        k.wf(m.len()),
        kernel_map_built(m, k),
        unlisted(free, k.pml4),
        unlisted(free, k.pdpt),
        forall|h: int| 0 <= h < 4 ==> unlisted(free, #[trigger] k.pd[h]),
        distinct_frames(free),
        forall|a: int| 0 <= a < free.len() ==> frame_ok(m.len(), #[trigger] free[a]),
    ensures
        kmap_ok(m, k, free),
{
    lemma_guard_bits(0, 0, k.pdpt, 0, 0, 0, 0, 0);
    assert forall|g: int| 0 <= g < 4 implies #[trigger] ent(m, k.pdpt, g) == k.pd[g] | 3 by {
        lemma_guard_bits(0, 0, k.pd[g], 0, 0, 0, 0, 0);
    }
    assert forall|g: int, x: int| 0 <= g < 4 && idx_ok(x) implies #[trigger] kslot_ok(m, k, free, g, x) by {
        assert(ent(m, k.pd[g], x) == kernel_pd_entry(g as u64, x as u64));
    }
}

/// A kernel map as `kmap_ok` describes (the one `init` builds, with any
/// guard pages since), whose PML4 slots past the first and PDPT slots past
/// the fourth are empty, is a well-formed tree: processes can be made from
/// it.
pub proof fn kernel_map_is_tree(m: Seq<u64>, k: KernelTables, free: Seq<u64>)
    requires
        kmap_ok(m, k, free),
        forall|i: int| 1 <= i < 512 ==> #[trigger] ent(m, k.pml4, i) == 0,
        forall|j: int| 4 <= j < 512 ==> #[trigger] ent(m, k.pdpt, j) == 0,
    ensures
        pt_inv(m, k.pml4, free),
{
    lemma_entry_bits(0, 0, 0);
    lemma_guard_bits(0, 0, k.pdpt, 0, 0, 0, 0, 0);
    let sp = |t: u64, g: int, x: int| 0 <= g < 4 && idx_ok(x) && is_split(m, k, g, x) && tbl(ent(m, k.pd[g], x)) == t;
    let splits = Map::<u64, Pos>::new(
        |t: u64| exists|g: int, x: int| #[trigger] sp(t, g, x),
        |t: u64|
            {
                let (g, x) = choose|g: int, x: int| #[trigger] sp(t, g, x);
                (1int, 0int, g, x)
            },
    );
    let o = splits.insert(k.pd[0], (2int, 0int, 0int, 0int)).insert(k.pd[1], (2int, 0int, 1int, 0int)).insert(
        k.pd[2],
        (2int, 0int, 2int, 0int),
    ).insert(k.pd[3], (2int, 0int, 3int, 0int)).insert(k.pdpt, (3int, 0int, 0int, 0int)).insert(
        k.pml4,
        (4int, 0int, 0int, 0int),
    );
    // A split table is a table of one slot only, and none of the map's
    // top-level frames.
    assert forall|t: u64, g: int, x: int| #[trigger] sp(t, g, x) implies splits.contains_key(t) && splits[t] == (
        1int,
        0int,
        g,
        x,
    ) && t != k.pml4 && t != k.pdpt && t != k.pd[0] && t != k.pd[1] && t != k.pd[2] && t != k.pd[3] && frame_ok(
        m.len(),
        t,
    ) && unlisted(free, t) by {
        assert(kslot_ok(m, k, free, g, x));
        let (g2, x2) = choose|g2: int, x2: int| #[trigger] sp(t, g2, x2);
        assert(sp(t, g2, x2));
        if g2 != g || x2 != x {
            assert(is_split(m, k, g, x) && is_split(m, k, g2, x2));
        }
    }
    assert forall|t: u64| #[trigger] o.contains_key(t) implies frame_ok(m.len(), t) by {
        if splits.contains_key(t) && t != k.pml4 && t != k.pdpt && t != k.pd[0] && t != k.pd[1] && t != k.pd[2] && t
            != k.pd[3] {
            let (g, x) = choose|g: int, x: int| #[trigger] sp(t, g, x);
        }
    }
    assert forall|i: int| #[trigger] has3(m, k.pml4, i) implies o.contains_key(t3(m, k.pml4, i)) && o[t3(m, k.pml4, i)]
        == (3int, i, 0int, 0int) by {
        if i != 0 {
            assert(ent(m, k.pml4, i) == 0);
        }
    }
    assert forall|i: int, j: int| #[trigger] has2(m, k.pml4, i, j) implies o.contains_key(t2(m, k.pml4, i, j))
        && o[t2(m, k.pml4, i, j)] == (2int, i, j, 0int) by {
        if i != 0 {
            assert(ent(m, k.pml4, i) == 0);
        }
        assert(t3(m, k.pml4, 0) == k.pdpt);
        if j >= 4 {
            assert(ent(m, k.pdpt, j) == 0);
        }
        lemma_guard_bits(0, 0, k.pd[j], 0, 0, 0, 0, 0);
    }
    assert forall|i: int, j: int, x: int| #[trigger] has1(m, k.pml4, i, j, x) implies o.contains_key(t1(
        m,
        k.pml4,
        i,
        j,
        x,
    )) && o[t1(m, k.pml4, i, j, x)] == (1int, i, j, x) by {
        if i != 0 {
            assert(ent(m, k.pml4, i) == 0);
        }
        assert(t3(m, k.pml4, 0) == k.pdpt);
        if j >= 4 {
            assert(ent(m, k.pdpt, j) == 0);
        }
        lemma_guard_bits(0, 0, k.pd[j], j as u64, x as u64, 0, 0, 0);
        assert(t2(m, k.pml4, 0, j) == k.pd[j]);
        assert(kslot_ok(m, k, free, j, x));
        assert(is_split(m, k, j, x));
        assert(sp(tbl(ent(m, k.pd[j], x)), j, x));
    }
    assert forall|a: int| 0 <= a < free.len() implies frame_ok(m.len(), #[trigger] free[a]) && !o.contains_key(
        free[a],
    ) by {
        assert(unlisted(free, k.pd[0]) && unlisted(free, k.pd[1]) && unlisted(free, k.pd[2]) && unlisted(free, k.pd[3]));
        if splits.contains_key(free[a]) {
            let (g, x) = choose|g: int, x: int| #[trigger] sp(free[a], g, x);
        }
    }
    assert(owner_ok(m, k.pml4, free, o));
}

/// Memory with frame `pt` filled with the 4 KiB identity leaves of slot
/// (`g`, `x`).
pub open spec fn filled(m: Seq<u64>, pt: u64, g: u64, x: u64) -> Seq<u64> {
    Seq::new(m.len(), |i: int| if pt / 8 <= i < pt / 8 + 512 { id_leaf(g, x, (i - pt / 8) as u64) } else { m[i] })
}

/// Splitting the 2 MiB slot (`g`, `x`) into the page table `pt`, taken last
/// from the free frames, keeps the map well formed and identity-maps the
/// same addresses.
proof fn lemma_split(m: Seq<u64>, k: KernelTables, free: Seq<u64>, g: int, x: int)
    requires
        kmap_ok(m, k, free),
        0 <= g < 4,
        idx_ok(x),
        !is_split(m, k, g, x),
        free.len() > 0,
    ensures
        ({
            let pt = free.last();
            let m2 = with_entry(filled(m, pt, g as u64, x as u64), k.pd[g], x, pt | 3);
            &&& m2.len() == m.len()
            &&& kmap_ok(m2, k, free.drop_last())
            &&& is_split(m2, k, g, x)
            &&& tbl(ent(m2, k.pd[g], x)) == pt
            &&& forall|va: u64| va < 0x1_0000_0000 ==> #[trigger] kmapped(m2, k, va) == kmapped(m, k, va)
        }),
{
    lemma_entry_bits(0, 0, 0);
    let pt = free.last();
    let f2 = free.drop_last();
    lemma_guard_bits(0, 0, pt, g as u64, x as u64, 0, 0, 0);
    let mf = filled(m, pt, g as u64, x as u64);
    let m2 = with_entry(mf, k.pd[g], x, pt | 3);
    assert(free[free.len() - 1] == pt);
    assert(frame_ok(m.len(), pt));
    assert(pt != k.pml4 && pt != k.pdpt);
    assert forall|h: int| 0 <= h < 4 implies pt != #[trigger] k.pd[h] by {
        assert(unlisted(free, k.pd[h]));
    }
    // Reading the new memory, frame by frame.
    assert forall|t: u64, z: int| frame_ok(m.len(), t) && idx_ok(z) implies #[trigger] ent(m2, t, z) == if t == k.pd[g]
        && z == x {
        pt | 3
    } else if t == pt {
        id_leaf(g as u64, x as u64, z as u64)
    } else {
        ent(m, t, z)
    } by {
        lemma_write_reads(mf, k.pd[g], x, pt | 3, t, z);
        if t != pt {
            lemma_frames_disjoint(t, pt, z, 0);
        }
    }
    assert(pt | 3 == pt | 3);
    assert(ent(m2, k.pml4, 0) == ent(m, k.pml4, 0));
    assert forall|h: int| 0 <= h < 4 implies #[trigger] ent(m2, k.pdpt, h) == k.pd[h] | 3 by {
        assert(ent(m2, k.pdpt, h) == ent(m, k.pdpt, h));
    }
    assert(kernel_pd_entry(g as u64, x as u64) & 0x80 != 0);
    assert(is_split(m2, k, g, x));
    assert forall|g2: int, x2: int| 0 <= g2 < 4 && idx_ok(x2) implies #[trigger] kslot_ok(m2, k, f2, g2, x2) by {
        assert(kslot_ok(m, k, free, g2, x2));
        if g2 == g && x2 == x {
            assert forall|y: int| idx_ok(y) implies #[trigger] ent(m2, pt, y) == 0 || ent(m2, pt, y) == id_leaf(
                g2 as u64,
                x2 as u64,
                y as u64,
            ) by {
                assert(ent(m2, pt, y) == id_leaf(g as u64, x as u64, y as u64));
            }
            assert forall|a: int| 0 <= a < f2.len() implies #[trigger] f2[a] != pt by {
                assert(f2[a] == free[a]);
            }
        } else {
            assert(ent(m2, k.pd[g2], x2) == ent(m, k.pd[g2], x2)) by {
                if k.pd[g2] == k.pd[g] {
                    assert(g2 == g);
                }
            }
            if is_split(m, k, g2, x2) {
                let p2 = tbl(ent(m, k.pd[g2], x2));
                assert(p2 != pt);
                assert forall|y: int| idx_ok(y) implies #[trigger] ent(m2, p2, y) == ent(m, p2, y) by {}
                assert forall|a: int| 0 <= a < f2.len() implies #[trigger] f2[a] != p2 by {
                    assert(f2[a] == free[a]);
                }
            }
        }
    }
    assert forall|g1: int, x1: int, g2: int, x2: int|
        #![trigger is_split(m2, k, g1, x1), is_split(m2, k, g2, x2)]
        0 <= g1 < 4 && 0 <= g2 < 4 && idx_ok(x1) && idx_ok(x2) && (g1 != g2 || x1 != x2) && is_split(m2, k, g1, x1)
            && is_split(m2, k, g2, x2) implies tbl(ent(m2, k.pd[g1], x1)) != tbl(ent(m2, k.pd[g2], x2)) by {
        assert(kslot_ok(m, k, free, g1, x1) && kslot_ok(m, k, free, g2, x2));
        if g1 != g || x1 != x {
            if k.pd[g1] == k.pd[g] {
                assert(g1 == g);
            }
            assert(ent(m2, k.pd[g1], x1) == ent(m, k.pd[g1], x1));
        }
        if g2 != g || x2 != x {
            if k.pd[g2] == k.pd[g] {
                assert(g2 == g);
            }
            assert(ent(m2, k.pd[g2], x2) == ent(m, k.pd[g2], x2));
        }
        if (g1 != g || x1 != x) && (g2 != g || x2 != x) {
            assert(is_split(m, k, g1, x1) && is_split(m, k, g2, x2));
        }
    }
    assert forall|a: int| 0 <= a < f2.len() implies frame_ok(m2.len(), #[trigger] f2[a]) by {
        assert(f2[a] == free[a]);
    }
    assert(unlisted(f2, k.pml4) && unlisted(f2, k.pdpt)) by {
        assert forall|a: int| 0 <= a < f2.len() implies #[trigger] f2[a] != k.pml4 && f2[a] != k.pdpt by {
            assert(f2[a] == free[a]);
        }
    }
    assert forall|h: int| 0 <= h < 4 implies unlisted(f2, #[trigger] k.pd[h]) by {
        assert forall|a: int| 0 <= a < f2.len() implies #[trigger] f2[a] != k.pd[h] by {
            assert(f2[a] == free[a]);
            assert(unlisted(free, k.pd[h]));
        }
    }
    assert forall|a: int, b: int| 0 <= a < f2.len() && 0 <= b < f2.len() && a != b implies #[trigger] f2[a] != #[trigger] f2[b] by {
        assert(f2[a] == free[a] && f2[b] == free[b]);
    }
    assert(kmap_ok(m2, k, f2));
    assert forall|va: u64| va < 0x1_0000_0000 implies #[trigger] kmapped(m2, k, va) == kmapped(m, k, va) by {
        lemma_kmapped(m, k, free, va);
        lemma_kmapped(m2, k, f2, va);
        lemma_indices(va);
        let (g1, x1, y1) = (l3(va), l2(va), l1(va));
        lemma_guard_bits(va, va, pt, g as u64, x as u64, y1 as u64, 0, 0);
        if g1 != g || x1 != x {
            if k.pd[g1] == k.pd[g] {
                assert(g1 == g);
            }
            assert(ent(m2, k.pd[g1], x1) == ent(m, k.pd[g1], x1));
            assert(kslot_ok(m, k, free, g1, x1));
            if is_split(m, k, g1, x1) {
                let p1 = tbl(ent(m, k.pd[g1], x1));
                assert(p1 != pt);
                assert(ent(m2, p1, y1) == ent(m, p1, y1));
            }
        } else {
            assert(id_leaf(g as u64, x as u64, y1 as u64) & 1 != 0);
        }
    }
}

/// Emptying entry `y` of the page table of the split slot (`g`, `x`) keeps
/// the map well formed and unmaps exactly that page.
proof fn lemma_guard_write(m: Seq<u64>, k: KernelTables, free: Seq<u64>, g: int, x: int, y: int)
    requires
        kmap_ok(m, k, free),
        0 <= g < 4,
        idx_ok(x),
        idx_ok(y),
        is_split(m, k, g, x),
    ensures
        ({
            let p = tbl(ent(m, k.pd[g], x));
            let m2 = with_entry(m, p, y, 0);
            &&& m2.len() == m.len()
            &&& kmap_ok(m2, k, free)
            &&& forall|va: u64| va < 0x1_0000_0000 ==> #[trigger] kmapped(m2, k, va) == (kmapped(m, k, va) && !(l3(va)
                == g && l2(va) == x && l1(va) == y))
        }),
{
    lemma_entry_bits(0, 0, 0);
    assert(kslot_ok(m, k, free, g, x));
    let p = tbl(ent(m, k.pd[g], x));
    let m2 = with_entry(m, p, y, 0);
    assert(frame_ok(m.len(), p));
    assert forall|t: u64, z: int| frame_ok(m.len(), t) && idx_ok(z) implies #[trigger] ent(m2, t, z) == if t == p && z
        == y {
        0
    } else {
        ent(m, t, z)
    } by {
        lemma_write_reads(m, p, y, 0, t, z);
    }
    assert(ent(m2, k.pml4, 0) == ent(m, k.pml4, 0));
    assert forall|h: int| 0 <= h < 4 implies #[trigger] ent(m2, k.pdpt, h) == k.pd[h] | 3 by {
        assert(ent(m2, k.pdpt, h) == ent(m, k.pdpt, h));
    }
    assert forall|g2: int, x2: int| 0 <= g2 < 4 && idx_ok(x2) implies #[trigger] ent(m2, k.pd[g2], x2) == ent(m, k.pd[g2], x2) by {
        assert(p != k.pd[g2]);
    }
    assert forall|g2: int, x2: int| 0 <= g2 < 4 && idx_ok(x2) implies #[trigger] kslot_ok(m2, k, free, g2, x2) by {
        assert(kslot_ok(m, k, free, g2, x2));
        assert(ent(m2, k.pd[g2], x2) == ent(m, k.pd[g2], x2));
        if is_split(m, k, g2, x2) {
            let p2 = tbl(ent(m, k.pd[g2], x2));
            assert forall|y2: int| idx_ok(y2) implies #[trigger] ent(m2, p2, y2) == 0 || ent(m2, p2, y2) == id_leaf(
                g2 as u64,
                x2 as u64,
                y2 as u64,
            ) by {
                assert(ent(m, p2, y2) == 0 || ent(m, p2, y2) == id_leaf(g2 as u64, x2 as u64, y2 as u64));
            }
        }
    }
    assert forall|g1: int, x1: int, g2: int, x2: int|
        #![trigger is_split(m2, k, g1, x1), is_split(m2, k, g2, x2)]
        0 <= g1 < 4 && 0 <= g2 < 4 && idx_ok(x1) && idx_ok(x2) && (g1 != g2 || x1 != x2) && is_split(m2, k, g1, x1)
            && is_split(m2, k, g2, x2) implies tbl(ent(m2, k.pd[g1], x1)) != tbl(ent(m2, k.pd[g2], x2)) by {
        assert(ent(m2, k.pd[g1], x1) == ent(m, k.pd[g1], x1));
        assert(ent(m2, k.pd[g2], x2) == ent(m, k.pd[g2], x2));
        assert(is_split(m, k, g1, x1) && is_split(m, k, g2, x2));
    }
    assert(kmap_ok(m2, k, free));
    assert forall|va: u64| va < 0x1_0000_0000 implies #[trigger] kmapped(m2, k, va) == (kmapped(m, k, va) && !(l3(va)
        == g && l2(va) == x && l1(va) == y)) by {
        lemma_kmapped(m, k, free, va);
        lemma_kmapped(m2, k, free, va);
        lemma_indices(va);
        let (g1, x1, y1) = (l3(va), l2(va), l1(va));
        lemma_guard_bits(va, va, 0, 0, 0, 0, 0, 0);
        assert(ent(m2, k.pd[g1], x1) == ent(m, k.pd[g1], x1));
        assert(kslot_ok(m, k, free, g1, x1));
        if is_split(m, k, g1, x1) {
            let p1 = tbl(ent(m, k.pd[g1], x1));
            if g1 != g || x1 != x {
                assert(p1 != p);
            }
        }
    }
}

/// Turn the 4 KiB page at `phys` (below 4 GiB, in the kernel map) into a
/// guard page: split its 2 MiB slot into a page table of identity pages
/// first if needed (taking the last free frame), then empty its entry.
///
/// Fails, changing nothing, for an address at or above 4 GiB, or when a
/// split is needed and no frame is free. Otherwise the kernel map stays
/// well formed and identity-maps exactly what it did less that page.
#[verifier::spinoff_prover]
pub fn protect_guard_page(mem: &mut PhysMem, frames: &mut FrameAllocator, k: &KernelTables, phys: u64) -> (ok: bool)
    requires
        kmap_ok(old(mem)@, *k, old(frames)@),
    ensures
        final(mem)@.len() == old(mem)@.len(),
        kmap_ok(final(mem)@, *k, final(frames)@),
        ok == (phys < 0x1_0000_0000 && (is_split(old(mem)@, *k, l3(phys), l2(phys)) || old(frames)@.len() > 0)),
        !ok ==> final(mem)@ == old(mem)@ && final(frames)@ == old(frames)@,
        ok ==> final(frames)@ == if is_split(old(mem)@, *k, l3(phys), l2(phys)) {
            old(frames)@
        } else {
            old(frames)@.drop_last()
        },
        forall|va: u64| va < 0x1_0000_0000 ==> #[trigger] kmapped(final(mem)@, *k, va) == (kmapped(old(mem)@, *k, va)
            && !(ok && va >> 12u64 == phys >> 12u64)),
{
    let ghost m0 = mem@;
    let ghost f0 = frames@;
    proof {
        lemma_entry_bits(0, 0, 0);
    }
    if phys >= 0x1_0000_0000 {
        return false;
    }
    let g: u64 = (phys >> 30) & 3;
    let x: u64 = (phys >> 21) & 511;
    let y: u64 = (phys >> 12) & 511;
    proof {
        lemma_indices(phys);
        lemma_guard_bits(phys, phys, 0, g, x, y, phys, 0);
        assert(g as int == l3(phys) && x as int == l2(phys) && y as int == l1(phys));
    }
    let pd = k.pd[g as usize];
    assert(frame_ok(m0.len(), pd));
    let e = mem.read_entry(pd, x);
    if e & PAGE_HUGE != 0 {
        proof {
            assert(kslot_ok(m0, *k, f0, g as int, x as int));
            if is_split(m0, *k, g as int, x as int) {
                let p = tbl(e);
                lemma_tbl_aligned(e);
                lemma_guard_bits(phys, phys, p, g, x, y, phys, 0);
            }
        }
        if frames.free.len() == 0 {
            return false;
        }
        let pt = match frames.alloc_page() {
            None => { return false; },
            Some(f) => f,
        };
        proof {
            assert(frame_ok(m0.len(), pt));
        }
        let base = phys & !0x1F_FFFFu64;
        let mut i: u64 = 0;
        while i < 512
            invariant
                frame_ok(m0.len(), pt),
                base == phys & !0x1F_FFFFu64,
                phys < 0x1_0000_0000,
                g as int == l3(phys) && x as int == l2(phys),
                mem@.len() == m0.len(),
                i <= 512,
                forall|w: int| 0 <= w < m0.len() ==> #[trigger] mem@[w] == if pt / 8 <= w < pt / 8 + i {
                    id_leaf(g, x, (w - pt / 8) as u64)
                } else {
                    m0[w]
                },
            decreases 512 - i,
        {
            proof {
                lemma_guard_bits(phys, phys, 0, g, x, 0, phys, i);
            }
            let v = (base + i * 4096) | KERNEL_PAGE;
            assert(v == id_leaf(g, x, i));
            let ghost before = mem@;
            mem.write_entry(pt, i, v);
            i = i + 1;
        }
        assert(mem@ =~= filled(m0, pt, g, x));
        proof {
            lemma_split(m0, *k, f0, g as int, x as int);
        }
        mem.write_entry(pd, x, pt | KERNEL_PAGE);
    }
    let ghost ms = mem@;
    let ghost fs = frames@;
    let e2 = mem.read_entry(pd, x);
    let ptb = e2 & ADDR_MASK;
    proof {
        assert(kmap_ok(ms, *k, fs));
        assert(is_split(ms, *k, g as int, x as int));
        assert(kslot_ok(ms, *k, fs, g as int, x as int));
        lemma_guard_write(ms, *k, fs, g as int, x as int, y as int);
    }
    mem.write_entry(ptb, y, 0);
    proof {
        assert forall|va: u64| va < 0x1_0000_0000 implies #[trigger] kmapped(mem@, *k, va) == (kmapped(m0, *k, va)
            && !(va >> 12u64 == phys >> 12u64)) by {
            lemma_indices(va);
            lemma_guard_bits(va, phys, 0, 0, 0, 0, 0, 0);
        }
    }
    true
}

} // verus!

//! Physical memory as the page-table code sees it: 64-bit words addressed by
//! physical byte address, and the supply of free 4 KiB frames it draws new
//! tables from.
use vstd::prelude::*;

verus! {

pub const PAGE_SIZE: u64 = 4096;
/// 64-bit entries per 4 KiB table.
pub const ENTRIES: u64 = 512;

/// Physical memory from address 0: word `i` holds bytes `[8i, 8i + 8)`.
pub struct PhysMem {
    pub words: Vec<u64>,
}

impl View for PhysMem {
    type V = Seq<u64>;

    open spec fn view(&self) -> Seq<u64> {
        self.words@
    }
}

/// `f` is the address of a 4 KiB frame lying inside memory of `n` words.
pub open spec fn frame_ok(n: nat, f: u64) -> bool {
    f % 4096 == 0 && f / 8 + 512 <= n
}

/// Entry `i` of the table in frame `t`.
pub open spec fn ent(m: Seq<u64>, t: u64, i: int) -> u64 {
    m[t / 8 + i]
}

/// `m` with every word of frame `f` cleared.
pub open spec fn zeroed(m: Seq<u64>, f: u64) -> Seq<u64> {
    Seq::new(m.len(), |i: int| if f / 8 <= i < f / 8 + 512 { 0u64 } else { m[i] })
}

/// `m` with entry `i` of table `t` set to `v`.
pub open spec fn with_entry(m: Seq<u64>, t: u64, i: int, v: u64) -> Seq<u64> {
    m.update(t / 8 + i, v)
}

/// Entries of distinct frames never alias: a write to one table, or clearing
/// one frame, leaves every entry of any other frame as it was.
pub proof fn lemma_frames_disjoint(t: u64, f: u64, i: int, k: int)
    requires
        t % 4096 == 0,
        f % 4096 == 0,
        t != f,
        0 <= i < 512,
        0 <= k < 512,
    ensures
        t / 8 + i != f / 8 + k,
        !(f / 8 <= t / 8 + i < f / 8 + 512),
{
}

/// A write to one entry leaves every other entry of every frame as it was.
pub proof fn lemma_write_reads(m: Seq<u64>, t: u64, idx: int, v: u64, s: u64, k: int)
    requires
        frame_ok(m.len(), t),
        frame_ok(m.len(), s),
        0 <= idx < 512,
        0 <= k < 512,
    ensures
        ent(with_entry(m, t, idx, v), s, k) == if s == t && k == idx { v } else { ent(m, s, k) },
        with_entry(m, t, idx, v).len() == m.len(),
{
    if s != t {
        lemma_frames_disjoint(s, t, k, idx);
    }
}

/// Same-frame entries coincide exactly when their indices do.
pub proof fn lemma_entry_index(t: u64, i: int, k: int)
    ensures
        (t / 8 + i == t / 8 + k) == (i == k),
{
}

/// Free-list slots `lo..hi` hold frame `t`.
pub open spec fn taken_in(free: Seq<u64>, lo: int, hi: int, t: u64) -> bool {
    exists|a: int| lo <= a < hi && 0 <= a < free.len() && #[trigger] free[a] == t
}

/// From `m` to `m2` only frames listed in slots `lo..hi` of `free` changed.
pub open spec fn kept(m: Seq<u64>, m2: Seq<u64>, free: Seq<u64>, lo: int, hi: int) -> bool {
    &&& m2.len() == m.len()
    &&& forall|t: u64, x: int| frame_ok(m.len(), t) && 0 <= x < 512 && !taken_in(free, lo, hi, t)
        ==> #[trigger] ent(m2, t, x) == ent(m, t, x)
}

/// No frame is listed twice.
pub open spec fn distinct_frames(free: Seq<u64>) -> bool {
    forall|a: int, b: int| 0 <= a < free.len() && 0 <= b < free.len() && a != b ==> #[trigger] free[a]
        != #[trigger] free[b]
}

/// A frame listed in slot `a` is not listed in any other range of a list
/// without repeats.
pub proof fn lemma_not_taken(free: Seq<u64>, a: int, lo: int, hi: int)
    requires
        distinct_frames(free),
        0 <= a < free.len(),
        !(lo <= a < hi),
    ensures
        !taken_in(free, lo, hi, free[a]),
{
    if taken_in(free, lo, hi, free[a]) {
        let b = choose|b: int| lo <= b < hi && 0 <= b < free.len() && #[trigger] free[b] == free[a];
        assert(free[b] != free[a]);
    }
}

/// Changes confined to two adjacent ranges are confined to their union; a
/// wider range confines them too.
pub proof fn lemma_kept_trans(m0: Seq<u64>, m1: Seq<u64>, m2: Seq<u64>, free: Seq<u64>, lo: int, mid: int, hi: int)
    requires
        kept(m0, m1, free, mid, hi),
        kept(m1, m2, free, lo, mid),
        lo <= mid <= hi,
    ensures
        kept(m0, m2, free, lo, hi),
{
    assert forall|t: u64, x: int| frame_ok(m0.len(), t) && 0 <= x < 512 && !taken_in(free, lo, hi, t) implies #[trigger] ent(
        m2,
        t,
        x,
    ) == ent(m0, t, x) by {
        if taken_in(free, mid, hi, t) {
            let a = choose|a: int| mid <= a < hi && 0 <= a < free.len() && #[trigger] free[a] == t;
            assert(taken_in(free, lo, hi, t));
        }
        if taken_in(free, lo, mid, t) {
            let a = choose|a: int| lo <= a < mid && 0 <= a < free.len() && #[trigger] free[a] == t;
            assert(taken_in(free, lo, hi, t));
        }
        assert(ent(m1, t, x) == ent(m0, t, x));
    }
}

pub proof fn lemma_kept_widen(m: Seq<u64>, m2: Seq<u64>, free: Seq<u64>, lo: int, hi: int, lo2: int, hi2: int)
    requires
        kept(m, m2, free, lo, hi),
        lo2 <= lo,
        hi <= hi2,
    ensures
        kept(m, m2, free, lo2, hi2),
{
    assert forall|t: u64, x: int| frame_ok(m.len(), t) && 0 <= x < 512 && !taken_in(free, lo2, hi2, t) implies #[trigger] ent(
        m2,
        t,
        x,
    ) == ent(m, t, x) by {
        if taken_in(free, lo, hi, t) {
            let a = choose|a: int| lo <= a < hi && 0 <= a < free.len() && #[trigger] free[a] == t;
            assert(taken_in(free, lo2, hi2, t));
        }
    }
}

/// Two steps that each change only frames of one range change only those.
pub proof fn lemma_kept_same(m0: Seq<u64>, m1: Seq<u64>, m2: Seq<u64>, free: Seq<u64>, lo: int, hi: int)
    requires
        kept(m0, m1, free, lo, hi),
        kept(m1, m2, free, lo, hi),
    ensures
        kept(m0, m2, free, lo, hi),
{
    assert forall|t: u64, x: int| frame_ok(m0.len(), t) && 0 <= x < 512 && !taken_in(free, lo, hi, t) implies #[trigger] ent(
        m2,
        t,
        x,
    ) == ent(m0, t, x) by {
        assert(ent(m1, t, x) == ent(m0, t, x));
    }
}

/// Copying into the frame in free-list slot `a` changes that frame only.
pub proof fn lemma_kept_copy(m: Seq<u64>, m2: Seq<u64>, src: u64, free: Seq<u64>, a: int)
    requires
        0 <= a < free.len(),
        frame_ok(m.len(), src),
        frame_ok(m.len(), free[a]),
        m2.len() == m.len(),
        forall|i: int| 0 <= i < m.len() ==> #[trigger] m2[i] == if free[a] / 8 <= i < free[a] / 8 + 512 {
            m[i - free[a] / 8 + src / 8]
        } else {
            m[i]
        },
    ensures
        kept(m, m2, free, a, a + 1),
{
    assert forall|t: u64, x: int| frame_ok(m.len(), t) && 0 <= x < 512 && !taken_in(free, a, a + 1, t) implies #[trigger] ent(
        m2,
        t,
        x,
    ) == ent(m, t, x) by {
        assert(taken_in(free, a, a + 1, free[a]));
        lemma_copy_reads(m, m2, src, free[a], t, x);
    }
}

/// Writing one entry of, or clearing, the frame in free-list slot `a`
/// changes that frame only.
pub proof fn lemma_kept_write(m: Seq<u64>, free: Seq<u64>, a: int, i: int, v: u64)
    requires
        0 <= a < free.len(),
        frame_ok(m.len(), free[a]),
        0 <= i < 512,
    ensures
        kept(m, with_entry(m, free[a], i, v), free, a, a + 1),
        kept(m, zeroed(m, free[a]), free, a, a + 1),
{
    let f = free[a];
    assert forall|t: u64, x: int| frame_ok(m.len(), t) && 0 <= x < 512 && !taken_in(free, a, a + 1, t) implies #[trigger] ent(
        with_entry(m, f, i, v),
        t,
        x,
    ) == ent(m, t, x) && ent(zeroed(m, f), t, x) == ent(m, t, x) by {
        assert(taken_in(free, a, a + 1, f));
        lemma_frames_disjoint(t, f, x, i);
    }
}

/// Entry-level reading of a frame copy: the destination frame now holds the
/// source frame's entries, every other frame its own.
pub proof fn lemma_copy_reads(m: Seq<u64>, m2: Seq<u64>, src: u64, dst: u64, t: u64, x: int)
    requires
        frame_ok(m.len(), src),
        frame_ok(m.len(), dst),
        frame_ok(m.len(), t),
        0 <= x < 512,
        m2.len() == m.len(),
        forall|i: int| 0 <= i < m.len() ==> #[trigger] m2[i] == if dst / 8 <= i < dst / 8 + 512 {
            m[i - dst / 8 + src / 8]
        } else {
            m[i]
        },
    ensures
        ent(m2, t, x) == if t == dst { ent(m, src, x) } else { ent(m, t, x) },
{
    if t != dst {
        lemma_frames_disjoint(t, dst, x, 0);
    }
    assert(m2[t / 8 + x] == m2[t / 8 + x]);
}

/// No slot of `free` holds `t`.
pub open spec fn unlisted(free: Seq<u64>, t: u64) -> bool {
    forall|a: int| 0 <= a < free.len() ==> #[trigger] free[a] != t
}

/// Frame `d` of `m` holds what frame `s` of `ms` holds.
pub open spec fn same_frame(m: Seq<u64>, d: u64, ms: Seq<u64>, s: u64) -> bool {
    forall|x: int| 0 <= x < 512 ==> #[trigger] ent(m, d, x) == ent(ms, s, x)
}

/// A frame taken from slots `lo..hi` is taken from any wider range.
pub proof fn lemma_taken_widen(free: Seq<u64>, lo: int, hi: int, lo2: int, hi2: int, t: u64)
    requires
        taken_in(free, lo, hi, t),
        lo2 <= lo,
        hi <= hi2,
    ensures
        taken_in(free, lo2, hi2, t),
{
    let a = choose|a: int| lo <= a < hi && 0 <= a < free.len() && #[trigger] free[a] == t;
    assert(free[a] == t);
}

/// A frame taken from slots `lo..hi` is untouched by changes confined to a
/// disjoint range.
pub proof fn lemma_taken_kept(m: Seq<u64>, m2: Seq<u64>, free: Seq<u64>, lo: int, hi: int, lo2: int, hi2: int, t: u64)
    requires
        taken_in(free, lo, hi, t),
        kept(m, m2, free, lo2, hi2),
        hi2 <= lo || hi <= lo2,
        distinct_frames(free),
        frame_ok(m.len(), t),
    ensures
        forall|x: int| 0 <= x < 512 ==> #[trigger] ent(m2, t, x) == ent(m, t, x),
{
    let a = choose|a: int| lo <= a < hi && 0 <= a < free.len() && #[trigger] free[a] == t;
    lemma_not_taken(free, a, lo2, hi2);
}

/// Cloning from `f0` into memory that started as `m0`: `f0` lists distinct
/// frames in memory, `cur` is what is left of it, and only frames taken
/// from it have changed.
pub open spec fn clone_ctx(m0: Seq<u64>, f0: Seq<u64>, m: Seq<u64>, cur: Seq<u64>) -> bool {
    &&& distinct_frames(f0)
    &&& forall|a: int| 0 <= a < f0.len() ==> frame_ok(m0.len(), #[trigger] f0[a])
    &&& cur.len() <= f0.len()
    &&& cur == f0.take(cur.len() as int)
    &&& kept(m0, m, f0, cur.len() as int, f0.len() as int)
}

/// Taking the last frame of `cur` leaves the prefix one shorter.
pub proof fn lemma_take_last(f0: Seq<u64>, cur: Seq<u64>)
    requires
        cur == f0.take(cur.len() as int),
        0 < cur.len() <= f0.len(),
    ensures
        cur.drop_last() == f0.take(cur.len() - 1),
        cur.last() == f0[cur.len() - 1],
{
    assert(cur.drop_last() =~= f0.take(cur.len() - 1));
}

impl PhysMem {
    /// Memory of `n` words, all zero.
    pub fn new(n: usize) -> (m: PhysMem)
        ensures
            m@.len() == n,
            forall|i: int| 0 <= i < n ==> #[trigger] m@[i] == 0,
    {
        let mut words: Vec<u64> = Vec::new();
        let mut k: usize = 0;
        while k < n
            invariant
                k <= n,
                words@.len() == k,
                forall|i: int| 0 <= i < k ==> #[trigger] words@[i] == 0,
            decreases n - k,
        {
            words.push(0);
            k = k + 1;
        }
        PhysMem { words }
    }

    /// Entry `i` of the table in frame `t`.
    pub fn read_entry(&self, t: u64, i: u64) -> (e: u64)
        requires
            frame_ok(self@.len(), t),
            i < 512,
        ensures
            e == ent(self@, t, i as int),
    {
        let _n = self.words.len();
        self.words[(t / 8 + i) as usize]
    }

    /// Set entry `i` of the table in frame `t`.
    pub fn write_entry(&mut self, t: u64, i: u64, v: u64)
        requires
            frame_ok(old(self)@.len(), t),
            i < 512,
        ensures
            final(self)@ == with_entry(old(self)@, t, i as int, v),
    {
        let _n = self.words.len();
        self.words.set((t / 8 + i) as usize, v);
    }

    /// Clear every word of frame `f`.
    pub fn zero_frame(&mut self, f: u64)
        requires
            frame_ok(old(self)@.len(), f),
        ensures
            final(self)@ == zeroed(old(self)@, f),
    {
        let _n = self.words.len();
        let base = (f / 8) as usize;
        let mut k: usize = 0;
        while k < 512
            invariant
                base == f / 8,
                frame_ok(old(self)@.len(), f),
                k <= 512,
                self@.len() == old(self)@.len(),
                forall|i: int| 0 <= i < self@.len() ==> #[trigger] self@[i] == if base <= i < base + k {
                    0u64
                } else {
                    old(self)@[i]
                },
            decreases 512 - k,
        {
            self.words.set(base + k, 0);
            k = k + 1;
        }
        assert(self@ =~= zeroed(old(self)@, f));
    }

    /// Copy the 4 KiB frame `src` into frame `dst`.
    pub fn copy_frame(&mut self, src: u64, dst: u64)
        requires
            frame_ok(old(self)@.len(), src),
            frame_ok(old(self)@.len(), dst),
            src != dst,
        ensures
            final(self)@.len() == old(self)@.len(),
            forall|i: int| 0 <= i < old(self)@.len() ==> #[trigger] final(self)@[i] == if dst / 8 <= i < dst / 8 + 512 {
                old(self)@[i - dst / 8 + src / 8]
            } else {
                old(self)@[i]
            },
    {
        let _n = self.words.len();
        let s = (src / 8) as usize;
        let d = (dst / 8) as usize;
        let mut k: usize = 0;
        while k < 512
            invariant
                s == src / 8,
                d == dst / 8,
                src != dst,
                src % 4096 == 0,
                dst % 4096 == 0,
                s + 512 <= old(self)@.len(),
                d + 512 <= old(self)@.len(),
                k <= 512,
                self@.len() == old(self)@.len(),
                forall|i: int| 0 <= i < self@.len() ==> #[trigger] self@[i] == if d <= i < d + k {
                    old(self)@[i - d + s]
                } else {
                    old(self)@[i]
                },
            decreases 512 - k,
        {
            proof {
                lemma_frames_disjoint(src, dst, k as int, 0);
                assert(!(d <= s + k < d + 512));
            }
            let w = self.words[s + k];
            self.words.set(d + k, w);
            k = k + 1;
        }
    }
}

/// Free 4 KiB frames; the next frame handed out is the last one listed.
pub struct FrameAllocator {
    pub free: Vec<u64>,
}

impl View for FrameAllocator {
    type V = Seq<u64>;

    open spec fn view(&self) -> Seq<u64> {
        self.free@
    }
}

impl FrameAllocator {
    /// Take one frame, or `None` when none is left.
    pub fn alloc_page(&mut self) -> (r: Option<u64>)
        ensures
            old(self)@.len() == 0 ==> r is None && final(self)@ == old(self)@,
            old(self)@.len() > 0 ==> r == Some(old(self)@.last()) && final(self)@ == old(self)@.drop_last(),
    {
        self.free.pop()
    }
}

} // verus!

//! riscv64 (S-mode) support: console and timer through OpenSBI, the PLIC,
//! traps, context set-up and Sv39 paging.
use vstd::prelude::*;
use crate::mmio::{MmioWrite, mw};
use crate::memory::phys::{PhysMem, FrameAllocator};
use crate::boards::qemu_virt_riscv64::sbi::{SbiCall, EXT_TIME};
use crate::boards::qemu_virt_riscv64 as board;
use crate::arch::riscv64::paging::{
    pt_inv, walk, vpn2, blocked_by_leaf, frames_needed, same_page, pte, leaf_flags, frames_taken, process_walk,
    leaves_ok, cloned_walk, spec_satp,
};

pub mod console;
pub mod context;
pub mod fdt;
pub mod paging;
pub mod plic;
pub mod trap;

verus! {

/// Early bring-up: the `stvec` value for the trap entry; the board itself
/// needs nothing configured.
pub fn early_init(trap_entry: u64) -> (stvec: u64)
    ensures
        stvec == trap_entry,
{
    let v = trap::init(trap_entry);
    board::init();
    v
}

/// `sstatus.SIE`: supervisor interrupts on.
pub const SSTATUS_SIE: u64 = 0x2;
/// `sstatus.SUM`: S-mode may touch U-mode pages.
pub const SSTATUS_SUM: u64 = 0x4_0000;
/// `sie.STIE | sie.SEIE`: timer and external interrupts.
pub const SIE_TIMER_EXTERNAL: u64 = 0x220;

/// What enabling interrupts does, in order: route the UART in the PLIC, set
/// `sstatus` bits, set `sie` bits, and arm the first timer tick.
pub struct IrqSetup {
    pub plic: Vec<MmioWrite>,
    pub sstatus_set: u64,
    pub sie_set: u64,
    pub first_timer: SbiCall,
}

/// Interrupt bring-up, given the PLIC enable word read back and the `time`
/// CSR: the first tick is `trap::TICK_INTERVAL` cycles away.
pub fn interrupts_init(enabled: u32, time: u64) -> (s: IrqSetup)
    requires
        time + trap::TICK_INTERVAL <= u64::MAX,
    ensures
        s.plic@ == seq![
            mw(plic::spec_priority_reg(10), 1),
            mw(plic::spec_enable_reg(1, 10), enabled | 0x400),
            mw(plic::spec_threshold_reg(1), 0),
        ],
        s.sstatus_set == SSTATUS_SIE | SSTATUS_SUM,
        s.sie_set == SIE_TIMER_EXTERNAL,
        s.first_timer == (SbiCall { ext: EXT_TIME, fid: 0, a0: (time + trap::TICK_INTERVAL) as u64, a1: 0, a2: 0 }),
{
    let plic = board::interrupts_init(enabled);
    let t = trap::next_timer(time);
    IrqSetup {
        plic,
        sstatus_set: SSTATUS_SIE | SSTATUS_SUM,
        sie_set: SIE_TIMER_EXTERNAL,
        first_timer: crate::boards::qemu_virt_riscv64::sbi::set_timer(t),
    }
}

/// The `sscratch` value for a task with kernel stack `sp`.
pub fn set_kernel_stack(sp: u64) -> (sscratch: u64)
    ensures
        sscratch == sp,
{
    context::set_kernel_stack(sp)
}

/// See `paging::create_process_page_table`.
pub fn create_process_page_table(
    mem: &mut PhysMem,
    frames: &mut FrameAllocator,
    kernel_root: u64,
    code_phys: u64,
    stack_phys: u64,
) -> (r: Option<u64>)
    requires
        pt_inv(old(mem)@, kernel_root, old(frames)@),
    ensures
        final(mem)@.len() == old(mem)@.len(),
        old(frames)@.len() < 3 ==> r is None && final(mem)@ == old(mem)@ && final(frames)@.len() == 0,
        old(frames)@.len() >= 3 ==> r == Some(old(frames)@.last()) && final(frames)@ == old(frames)@.take(
            old(frames)@.len() - 3,
        ),
        pt_inv(final(mem)@, kernel_root, final(frames)@),
        forall|va: u64| #[trigger] walk(final(mem)@, kernel_root, va) == walk(old(mem)@, kernel_root, va),
        r matches Some(root) ==> pt_inv(final(mem)@, root, final(frames)@) && forall|va: u64| #[trigger] walk(
            final(mem)@,
            root,
            va,
        ) == process_walk(old(mem)@, kernel_root, code_phys, stack_phys, va),
{
    paging::create_process_page_table(mem, frames, kernel_root, code_phys, stack_phys)
}

/// See `paging::create_empty_process_page_table`.
pub fn create_empty_process_page_table(mem: &mut PhysMem, frames: &mut FrameAllocator, kernel_root: u64) -> (r: Option<
    u64,
>)
    requires
        pt_inv(old(mem)@, kernel_root, old(frames)@),
    ensures
        final(mem)@.len() == old(mem)@.len(),
        old(frames)@.len() == 0 ==> r is None && final(mem)@ == old(mem)@ && final(frames)@ == old(frames)@,
        old(frames)@.len() > 0 ==> r == Some(old(frames)@.last()) && final(frames)@ == old(frames)@.drop_last(),
        pt_inv(final(mem)@, kernel_root, final(frames)@),
        forall|va: u64| #[trigger] walk(final(mem)@, kernel_root, va) == walk(old(mem)@, kernel_root, va),
        r matches Some(root) ==> pt_inv(final(mem)@, root, final(frames)@) && forall|va: u64| #[trigger] walk(
            final(mem)@,
            root,
            va,
        ) == if vpn2(va) < 4 {
            walk(old(mem)@, kernel_root, va)
        } else {
            None
        },
        r matches Some(root) ==> forall|x: int| paging::idx_ok(x) ==> #[trigger] crate::memory::phys::ent(final(mem)@, root, x) == if x < 4 {
            crate::memory::phys::ent(old(mem)@, kernel_root, x)
        } else {
            0
        },
        r matches Some(root) ==> forall|t: u64, x: int| crate::memory::phys::frame_ok(old(mem)@.len(), t) && t != root && paging::idx_ok(x)
            ==> #[trigger] crate::memory::phys::ent(final(mem)@, t, x) == crate::memory::phys::ent(old(mem)@, t, x),
{
    paging::create_empty_process_page_table(mem, frames, kernel_root)
}

/// See `paging::clone_user_page_table`.
pub fn clone_user_page_table(mem: &mut PhysMem, frames: &mut FrameAllocator, src_root: u64) -> (r: Option<u64>)
    requires
        pt_inv(old(mem)@, src_root, old(frames)@),
        leaves_ok(old(mem)@, src_root, old(frames)@),
    ensures
        final(mem)@.len() == old(mem)@.len(),
        final(frames)@.len() <= old(frames)@.len(),
        final(frames)@ == old(frames)@.take(final(frames)@.len() as int),
        r is None ==> final(frames)@.len() == 0,
        r is None <==> paging::clone_cost(old(mem)@, src_root) > old(frames)@.len(),
        r is Some ==> final(frames)@.len() + paging::clone_cost(old(mem)@, src_root) == old(frames)@.len(),
        crate::memory::phys::kept(old(mem)@, final(mem)@, old(frames)@, final(frames)@.len() as int, old(frames)@.len() as int),
        r matches Some(n) ==> forall|i: int| paging::idx_ok(i) ==> #[trigger] paging::root_slot(
            final(mem)@,
            n,
            old(mem)@,
            src_root,
            old(frames)@,
            final(frames)@.len() as int,
            old(frames)@.len() as int,
            i,
        ),
        pt_inv(final(mem)@, src_root, final(frames)@),
        forall|va: u64| #[trigger] walk(final(mem)@, src_root, va) == walk(old(mem)@, src_root, va),
        r matches Some(n) ==> n == old(frames)@.last() && forall|va: u64| #[trigger] cloned_walk(
            final(mem)@,
            n,
            old(mem)@,
            src_root,
            old(frames)@,
            final(frames)@.len() as int,
            va,
        ),
        r matches Some(n) ==> pt_inv(final(mem)@, n, final(frames)@) && paging::pages_private(final(mem)@, n, final(frames)@)
            && leaves_ok(final(mem)@, n, final(frames)@),
{
    paging::clone_user_page_table(mem, frames, src_root)
}

/// See `paging::map_user_page`.
pub fn map_user_page(mem: &mut PhysMem, frames: &mut FrameAllocator, root_phys: u64, va: u64, pa_: u64, prot: u32) -> (ok: bool)
    requires
        pt_inv(old(mem)@, root_phys, old(frames)@),
    ensures
        final(mem)@.len() == old(mem)@.len(),
        pt_inv(final(mem)@, root_phys, final(frames)@),
        ok == (vpn2(va) >= 4 && !blocked_by_leaf(old(mem)@, root_phys, va) && frames_needed(old(mem)@, root_phys, va)
            <= old(frames)@.len()),
        forall|vb: u64| #[trigger] walk(final(mem)@, root_phys, vb) == if ok && same_page(va, vb) {
            Some((pte(pa_, leaf_flags(prot)), 0int))
        } else {
            walk(old(mem)@, root_phys, vb)
        },
        final(frames)@ == old(frames)@.take(
            old(frames)@.len() - frames_taken(old(mem)@, root_phys, va, old(frames)@.len() as int),
        ),
        !ok && frames_taken(old(mem)@, root_phys, va, old(frames)@.len() as int) == 0 ==> final(mem)@ == old(mem)@,
        ok && frames_needed(old(mem)@, root_phys, va) == 0 ==> final(mem)@ == crate::memory::phys::with_entry(
            old(mem)@,
            paging::t0(old(mem)@, root_phys, paging::vpn2(va), paging::vpn1(va)),
            paging::vpn0(va),
            pte(pa_, leaf_flags(prot)),
        ),
{
    paging::map_user_page(mem, frames, root_phys, va, pa_, prot)
}

/// Root of the kernel's own tree.
pub fn kernel_page_table_phys(root: u64) -> (r: u64)
    ensures
        r == root,
{
    paging::kernel_page_table_phys(root)
}

/// The SATP value for switching to the tree rooted at `root`.
pub fn switch_address_space(root: u64) -> (v: u64)
    ensures
        v == spec_satp(root),
{
    paging::switch_address_space(root)
}

} // verus!

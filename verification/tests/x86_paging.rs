use ferrugem::memory::phys::{PhysMem, FrameAllocator};
use ferrugem::arch::x86_64::paging::{
    KernelTables, init, create_process_page_table, create_empty_process_page_table, map_user_page,
    clone_user_page_table, protect_guard_page, kernel_page_table_phys, switch_address_space, USER_CODE_VA,
    USER_STACK_PAGE_VA,
};
use ferrugem::arch::prot::{PROT_READ, PROT_WRITE, PROT_USER};

const PML4: u64 = 0x1000;

fn kernel() -> KernelTables {
    KernelTables { pml4: 0x1000, pdpt: 0x2000, pd: [0x3000, 0x4000, 0x5000, 0x6000] }
}

/// 64 frames of memory with the kernel map built, frames 16..32 free.
fn setup() -> (PhysMem, FrameAllocator) {
    let mut mem = PhysMem::new(64 * 512);
    init(&mut mem, &kernel());
    let free: Vec<u64> = (16u64..32).map(|f| f * 4096).collect();
    (mem, FrameAllocator { free })
}

/// The leaf entry translating `va` and its level, read the way the MMU does.
fn walk(mem: &PhysMem, root: u64, va: u64) -> Option<(u64, u8)> {
    let a = 0xFFFF_FFFF_FFFF_F000u64;
    let e4 = mem.read_entry(root, (va >> 39) & 511);
    if e4 & 1 == 0 {
        return None;
    }
    let e3 = mem.read_entry(e4 & a, (va >> 30) & 511);
    if e3 & 1 == 0 {
        return None;
    }
    if e3 & 0x80 != 0 {
        return Some((e3, 3));
    }
    let e2 = mem.read_entry(e3 & a, (va >> 21) & 511);
    if e2 & 1 == 0 {
        return None;
    }
    if e2 & 0x80 != 0 {
        return Some((e2, 2));
    }
    let e1 = mem.read_entry(e2 & a, (va >> 12) & 511);
    if e1 & 1 == 0 {
        return None;
    }
    Some((e1, 1))
}

#[test]
fn kernel_map_identity_maps_first_4gib() {
    let (mem, _) = setup();
    assert_eq!(mem.read_entry(PML4, 0), 0x2000 | 3);
    assert_eq!(mem.read_entry(0x2000, 2), 0x5000 | 3);
    assert_eq!(walk(&mem, PML4, 0x1234_5678), Some((0x1220_0083, 2)));
    assert_eq!(walk(&mem, PML4, 0xFFFF_FFFF), Some((0xFFE0_0083, 2)));
    assert_eq!(walk(&mem, PML4, 0x1_0000_0000), None);
    assert_eq!(kernel_page_table_phys(&kernel()), PML4);
    assert_eq!(switch_address_space(0x1F000), 0x1F000);
}

#[test]
fn process_table_maps_code_stack_and_kernel() {
    let (mut mem, mut frames) = setup();
    let r = create_process_page_table(&mut mem, &mut frames, PML4, 0x20000, 0x21000);
    assert_eq!(r, Some(31 * 4096));
    assert_eq!(frames.free.len(), 12);
    let root = r.unwrap();
    assert_eq!(walk(&mem, root, USER_CODE_VA), Some((0x20000 | 7, 1)));
    assert_eq!(walk(&mem, root, USER_STACK_PAGE_VA), Some((0x21000 | 7, 1)));
    assert_eq!(walk(&mem, root, USER_CODE_VA + 0x2000), None);
    assert_eq!(walk(&mem, root, 0x0040_0000), Some((0x0040_0083, 2)));
    // The kernel's own tree translates what it did.
    assert_eq!(walk(&mem, PML4, 0x0040_0000), Some((0x0040_0083, 2)));
}

#[test]
fn process_table_needs_four_frames() {
    let (mut mem, _) = setup();
    let mut frames = FrameAllocator { free: vec![0x10000, 0x11000, 0x12000] };
    let before = walk(&mem, PML4, 0x1000);
    assert_eq!(create_process_page_table(&mut mem, &mut frames, PML4, 0x20000, 0x21000), None);
    assert_eq!(frames.free.len(), 0);
    assert_eq!(walk(&mem, PML4, 0x1000), before);
}

#[test]
fn empty_table_shares_kernel_slot_only() {
    let (mut mem, mut frames) = setup();
    let root = create_empty_process_page_table(&mut mem, &mut frames, PML4).unwrap();
    assert_eq!(root, 31 * 4096);
    assert_eq!(mem.read_entry(root, 0), 0x2000 | 3);
    assert_eq!(walk(&mem, root, 0x0080_0000), Some((0x0080_0083, 2)));
    assert_eq!(walk(&mem, root, USER_CODE_VA), None);
    let mut none = FrameAllocator { free: vec![] };
    assert_eq!(create_empty_process_page_table(&mut mem, &mut none, PML4), None);
}

#[test]
fn map_user_page_maps_exactly_one_page() {
    let (mut mem, mut frames) = setup();
    let root = create_empty_process_page_table(&mut mem, &mut frames, PML4).unwrap();
    let va = 0x0000_0080_4020_3000u64;
    assert!(map_user_page(&mut mem, &mut frames, root, va, 0x0012_3456, PROT_READ | PROT_WRITE | PROT_USER));
    // PDPT, PD and PT created: three frames.
    assert_eq!(frames.free.len(), 15 - 3);
    assert_eq!(walk(&mem, root, va), Some((0x0012_3000 | 7, 1)));
    assert_eq!(walk(&mem, root, va + 0xFFF), Some((0x0012_3000 | 7, 1)));
    assert_eq!(walk(&mem, root, va + 0x1000), None);
    // Read-only, kernel-only page: present bit alone.
    assert!(map_user_page(&mut mem, &mut frames, root, va + 0x1000, 0x0045_6000, PROT_READ));
    assert_eq!(frames.free.len(), 12);
    assert_eq!(walk(&mem, root, va + 0x1000), Some((0x0045_6000 | 1, 1)));
}

#[test]
fn map_user_page_refuses_kernel_slot_and_exhaustion() {
    let (mut mem, mut frames) = setup();
    let root = create_empty_process_page_table(&mut mem, &mut frames, PML4).unwrap();
    assert!(!map_user_page(&mut mem, &mut frames, root, 0x0000_0000_0010_0000, 0x5000, PROT_WRITE));
    let mut one = FrameAllocator { free: vec![0x3F000] };
    assert!(!map_user_page(&mut mem, &mut one, root, 0x0000_0100_0000_0000, 0x5000, PROT_WRITE));
    // The frame it took stays linked; none is left.
    assert_eq!(one.free.len(), 0);
    assert_eq!(walk(&mem, root, 0x0000_0100_0000_0000), None);
}

#[test]
fn clone_copies_user_pages_and_keeps_source() {
    let (mut mem, mut frames) = setup();
    let src = create_process_page_table(&mut mem, &mut frames, PML4, 0x20000, 0x21000).unwrap();
    mem.write_entry(0x20000, 5, 0xDEAD_BEEF);
    let clone = clone_user_page_table(&mut mem, &mut frames, src).unwrap();
    assert_eq!(clone, 27 * 4096);
    let (e, level) = walk(&mem, clone, USER_CODE_VA).unwrap();
    assert_eq!(level, 1);
    assert_eq!(e & 0xFFF, 7);
    let copy = e & !0xFFF;
    assert_ne!(copy, 0x20000);
    assert_eq!(mem.read_entry(copy, 5), 0xDEAD_BEEF);
    // Writing the copy leaves the source page alone.
    mem.write_entry(copy, 5, 1);
    assert_eq!(mem.read_entry(0x20000, 5), 0xDEAD_BEEF);
    assert_eq!(walk(&mem, src, USER_CODE_VA), Some((0x20000 | 7, 1)));
    assert_eq!(walk(&mem, clone, 0x0040_0000), Some((0x0040_0083, 2)));
    assert_eq!(walk(&mem, clone, USER_CODE_VA + 0x2000), None);
}

#[test]
fn clone_pages_are_private_and_clone_clones() {
    let (mut mem, mut frames) = setup();
    let src = create_process_page_table(&mut mem, &mut frames, PML4, 0x20000, 0x21000).unwrap();
    let clone = clone_user_page_table(&mut mem, &mut frames, src).unwrap();
    let a = 0xFFFF_FFFF_FFFF_F000u64;
    let code = walk(&mem, clone, USER_CODE_VA).unwrap().0 & a;
    let stack = walk(&mem, clone, USER_STACK_PAGE_VA).unwrap().0 & a;
    assert_ne!(code, stack);
    let pdpt = mem.read_entry(clone, 1) & a;
    let pd = mem.read_entry(pdpt, 0) & a;
    let pt = mem.read_entry(pd, 0) & a;
    for t in [clone, pdpt, pd, pt] {
        assert_ne!(code, t);
        assert_ne!(stack, t);
    }
    // The clone can be mapped into and cloned again.
    assert!(map_user_page(&mut mem, &mut frames, clone, USER_CODE_VA + 0x1000, 0x3F000, PROT_READ | PROT_USER));
    let mut more = FrameAllocator { free: (40u64..56).map(|f| f * 4096).collect() };
    let grandchild = clone_user_page_table(&mut mem, &mut more, clone).unwrap();
    let g_code = walk(&mem, grandchild, USER_CODE_VA).unwrap().0 & a;
    assert_ne!(g_code, code);
    assert_eq!(walk(&mem, grandchild, USER_CODE_VA + 0x1000).unwrap().1, 1);
}

#[test]
fn clone_without_frames_fails() {
    let (mut mem, mut frames) = setup();
    let src = create_process_page_table(&mut mem, &mut frames, PML4, 0x20000, 0x21000).unwrap();
    let mut few = FrameAllocator { free: vec![0x3E000, 0x3F000] };
    assert_eq!(clone_user_page_table(&mut mem, &mut few, src), None);
    assert_eq!(few.free.len(), 0);
    assert_eq!(walk(&mem, src, USER_STACK_PAGE_VA), Some((0x21000 | 7, 1)));
}

#[test]
fn guard_page_unmaps_one_kernel_page() {
    let (mut mem, mut frames) = setup();
    assert!(protect_guard_page(&mut mem, &mut frames, &kernel(), 0x0030_1000));
    assert_eq!(frames.free.len(), 15);
    assert_eq!(walk(&mem, PML4, 0x0030_1000), None);
    assert_eq!(walk(&mem, PML4, 0x0030_1FFF), None);
    assert_eq!(walk(&mem, PML4, 0x0030_2000), Some((0x0030_2003, 1)));
    assert_eq!(walk(&mem, PML4, 0x0030_0000), Some((0x0030_0003, 1)));
    assert_eq!(walk(&mem, PML4, 0x0050_0000), Some((0x0040_0083, 2)));
    // A second guard page in the same 2 MiB slot takes no frame.
    assert!(protect_guard_page(&mut mem, &mut frames, &kernel(), 0x0030_5000));
    assert_eq!(frames.free.len(), 15);
    assert_eq!(walk(&mem, PML4, 0x0030_5000), None);
    assert_eq!(walk(&mem, PML4, 0x0030_2000), Some((0x0030_2003, 1)));
}

#[test]
fn guard_page_refusals() {
    let (mut mem, _) = setup();
    let mut none = FrameAllocator { free: vec![] };
    assert!(!protect_guard_page(&mut mem, &mut none, &kernel(), 0x1_0000_0000));
    assert!(!protect_guard_page(&mut mem, &mut none, &kernel(), 0x0030_1000));
    assert_eq!(walk(&mem, PML4, 0x0030_1000), Some((0x0020_0083, 2)));
}

#[test]
fn clone_succeeds_exactly_with_enough_frames() {
    // A process tree: one PDPT, one PD, one PT and two pages; a clone takes
    // a root, a PDPT, a PD, a PT and two page copies: six frames.
    let (mut mem, mut frames) = setup();
    let src = create_process_page_table(&mut mem, &mut frames, PML4, 0x20000, 0x21000).unwrap();
    let before = mem.words.clone();
    let mut five = FrameAllocator { free: (40u64..45).map(|f| f * 4096).collect() };
    assert_eq!(clone_user_page_table(&mut mem, &mut five, src), None);
    assert_eq!(five.free.len(), 0);
    // Only the five frames taken were written.
    for f in 0u64..64 {
        if (40..45).contains(&f) {
            continue;
        }
        for x in 0..512 {
            assert_eq!(mem.read_entry(f * 4096, x), before[(f * 512 + x) as usize]);
        }
    }
    let mut six = FrameAllocator { free: (40u64..46).map(|f| f * 4096).collect() };
    assert_eq!(clone_user_page_table(&mut mem, &mut six, src), Some(45 * 4096));
    assert_eq!(six.free.len(), 0);
    // The kernel slot is copied word for word, the user link keeps the
    // source flags, and the source tables are untouched.
    assert_eq!(mem.read_entry(45 * 4096, 0), mem.read_entry(src, 0));
    assert_eq!(mem.read_entry(45 * 4096, 1) & 0xFFF, mem.read_entry(src, 1) & 0xFFF);
    for x in 0..512 {
        assert_eq!(mem.read_entry(src, x), before[(src / 8 + x) as usize]);
    }
}

#[test]
fn new_process_tables_hold_exact_words() {
    let (mut mem, mut frames) = setup();
    let root = create_process_page_table(&mut mem, &mut frames, PML4, 0x20000, 0x21000).unwrap();
    let (pdpt, pd, pt) = (30 * 4096u64, 29 * 4096u64, 28 * 4096u64);
    for x in 0..512u64 {
        let want = match x {
            0 => (0x2000 | 3) & !4,
            1 => pdpt | 7,
            _ => 0,
        };
        assert_eq!(mem.read_entry(root, x), want);
        assert_eq!(mem.read_entry(pdpt, x), if x == 0 { pd | 7 } else { 0 });
        assert_eq!(mem.read_entry(pd, x), if x == 0 { pt | 7 } else { 0 });
        let leaf = match x {
            1 => 0x20000 | 7,
            15 => 0x21000 | 7,
            _ => 0,
        };
        assert_eq!(mem.read_entry(pt, x), leaf);
    }
}

#[test]
fn map_user_page_links_tables_for_user_mode() {
    let (mut mem, mut frames) = setup();
    let root = create_empty_process_page_table(&mut mem, &mut frames, PML4).unwrap();
    let va = 0x0000_0080_4020_3000u64;
    assert!(map_user_page(&mut mem, &mut frames, root, va, 0x0012_3000, PROT_READ | PROT_USER));
    let a = 0xFFFF_FFFF_FFFF_F000u64;
    let e4 = mem.read_entry(root, (va >> 39) & 511);
    let e3 = mem.read_entry(e4 & a, (va >> 30) & 511);
    let e2 = mem.read_entry(e3 & a, (va >> 21) & 511);
    assert_eq!(e4 & 7, 7);
    assert_eq!(e3 & 7, 7);
    assert_eq!(e2 & 7, 7);
}

#[test]
fn map_user_page_refusal_writes_nothing_and_remap_is_a_no_op() {
    let (mut mem, mut frames) = setup();
    let root = create_empty_process_page_table(&mut mem, &mut frames, PML4).unwrap();
    let before = mem.words.clone();
    assert!(!map_user_page(&mut mem, &mut frames, root, 0x0000_0000_0010_0000, 0x5000, PROT_WRITE));
    assert_eq!(mem.words, before);
    let va = 0x0000_0080_0000_5000u64;
    assert!(map_user_page(&mut mem, &mut frames, root, va, 0x7000, PROT_WRITE | PROT_USER));
    let once = mem.words.clone();
    let left = frames.free.len();
    assert!(map_user_page(&mut mem, &mut frames, root, va, 0x7000, PROT_WRITE | PROT_USER));
    assert_eq!(mem.words, once);
    assert_eq!(frames.free.len(), left);
}

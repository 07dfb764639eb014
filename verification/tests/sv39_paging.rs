use ferrugem::memory::phys::{PhysMem, FrameAllocator};
use ferrugem::arch::riscv64::paging::{
    init, create_process_page_table, create_empty_process_page_table, map_user_page, clone_user_page_table,
    protect_guard_page, switch_address_space, USER_CODE_VA, USER_STACK_PAGE_VA,
};
use ferrugem::arch::prot::{PROT_READ, PROT_WRITE, PROT_EXEC, PROT_USER};

const ROOT: u64 = 0x1000;

fn setup() -> (PhysMem, FrameAllocator) {
    let mut mem = PhysMem::new(64 * 512);
    let satp = init(&mut mem, ROOT);
    assert_eq!(satp, 0x8000_0000_0000_0001);
    let free: Vec<u64> = (16u64..32).map(|f| f * 4096).collect();
    (mem, FrameAllocator { free })
}

fn walk(mem: &PhysMem, root: u64, va: u64) -> Option<(u64, u8)> {
    let pa = |e: u64| (e >> 10) << 12;
    let e2 = mem.read_entry(root, (va >> 30) & 0x1FF);
    if e2 & 1 == 0 {
        return None;
    }
    if e2 & 0xE != 0 {
        return Some((e2, 2));
    }
    let e1 = mem.read_entry(pa(e2), (va >> 21) & 0x1FF);
    if e1 & 1 == 0 {
        return None;
    }
    if e1 & 0xE != 0 {
        return Some((e1, 1));
    }
    let e0 = mem.read_entry(pa(e1), (va >> 12) & 0x1FF);
    if e0 & 1 == 0 {
        return None;
    }
    Some((e0, 0))
}

#[test]
fn sv39_kernel_leaves_cover_first_4gib() {
    let (mem, _) = setup();
    assert_eq!(mem.read_entry(ROOT, 1), 0x1000_00CF);
    assert_eq!(walk(&mem, ROOT, 0x4000_1234), Some((0x1000_00CF, 2)));
    assert_eq!(walk(&mem, ROOT, 0xC000_0000), Some((0x3000_00CF, 2)));
    assert_eq!(walk(&mem, ROOT, 0x1_0000_0000), None);
    assert_eq!(switch_address_space(0x8_0000), 0x8000_0000_0000_0080);
}

#[test]
fn sv39_process_table_maps_code_and_stack() {
    let (mut mem, mut frames) = setup();
    let root = create_process_page_table(&mut mem, &mut frames, ROOT, 0x20000, 0x21000).unwrap();
    assert_eq!(root, 31 * 4096);
    assert_eq!(frames.free.len(), 13);
    assert_eq!(walk(&mem, root, USER_CODE_VA), Some((0x80DF, 0)));
    assert_eq!(walk(&mem, root, USER_STACK_PAGE_VA), Some((0x84D7, 0)));
    assert_eq!(walk(&mem, root, USER_CODE_VA + 0x1000), None);
    assert_eq!(walk(&mem, root, 0x4000_0000), Some((0x1000_00CF, 2)));
    let mut two = FrameAllocator { free: vec![0x3E000, 0x3F000] };
    assert_eq!(create_process_page_table(&mut mem, &mut two, ROOT, 0x20000, 0x21000), None);
}

#[test]
fn sv39_map_user_page_and_refusals() {
    let (mut mem, mut frames) = setup();
    let root = create_empty_process_page_table(&mut mem, &mut frames, ROOT).unwrap();
    assert_eq!(walk(&mem, root, 0x8000_0000), Some((0x2000_00CF, 2)));
    let va = 0x2_0000_3000u64;
    assert!(map_user_page(&mut mem, &mut frames, root, va, 0x12_3000, PROT_READ | PROT_WRITE | PROT_USER));
    assert_eq!(frames.free.len(), 13);
    assert_eq!(walk(&mem, root, va), Some((0x4_8CD7, 0)));
    assert!(map_user_page(&mut mem, &mut frames, root, va + 0x1000, 0x45_6000, PROT_READ | PROT_EXEC));
    assert_eq!(walk(&mem, root, va + 0x1000), Some(((0x456 << 10) | 0xCB, 0)));
    assert!(!map_user_page(&mut mem, &mut frames, root, 0x4000_0000, 0x5000, PROT_READ));
    let mut none = FrameAllocator { free: vec![] };
    assert!(!map_user_page(&mut mem, &mut none, root, 0x3_0000_0000, 0x5000, PROT_READ));
    assert_eq!(walk(&mem, root, 0x3_0000_0000), None);
}

#[test]
fn sv39_clone_pages_are_private_and_clone_clones() {
    let (mut mem, mut frames) = setup();
    let src = create_process_page_table(&mut mem, &mut frames, ROOT, 0x20000, 0x21000).unwrap();
    let clone = clone_user_page_table(&mut mem, &mut frames, src).unwrap();
    let pa = |e: u64| (e >> 10) << 12;
    let code = pa(walk(&mem, clone, USER_CODE_VA).unwrap().0);
    let stack = pa(walk(&mem, clone, USER_STACK_PAGE_VA).unwrap().0);
    assert_ne!(code, stack);
    let l1 = pa(mem.read_entry(clone, (USER_CODE_VA >> 30) & 0x1FF));
    let l0 = pa(mem.read_entry(l1, (USER_CODE_VA >> 21) & 0x1FF));
    for t in [clone, l1, l0] {
        assert_ne!(code, t);
        assert_ne!(stack, t);
    }
    assert!(map_user_page(&mut mem, &mut frames, clone, USER_CODE_VA + 0x1000, 0x3F000, PROT_READ | PROT_USER));
    let mut more = FrameAllocator { free: (40u64..56).map(|f| f * 4096).collect() };
    let grandchild = clone_user_page_table(&mut mem, &mut more, clone).unwrap();
    let g_code = pa(walk(&mem, grandchild, USER_CODE_VA).unwrap().0);
    assert_ne!(g_code, code);
    assert_eq!(walk(&mem, grandchild, USER_CODE_VA + 0x1000).unwrap().1, 0);
}

#[test]
fn sv39_clone_copies_pages() {
    let (mut mem, mut frames) = setup();
    let src = create_process_page_table(&mut mem, &mut frames, ROOT, 0x20000, 0x21000).unwrap();
    mem.write_entry(0x21000, 7, 42);
    let clone = clone_user_page_table(&mut mem, &mut frames, src).unwrap();
    assert_eq!(clone, 28 * 4096);
    let (e, level) = walk(&mem, clone, USER_STACK_PAGE_VA).unwrap();
    assert_eq!(level, 0);
    assert_eq!(e & 0x3FF, 0xD7);
    let copy = (e >> 10) << 12;
    assert_ne!(copy, 0x21000);
    assert_eq!(mem.read_entry(copy, 7), 42);
    assert_eq!(walk(&mem, src, USER_STACK_PAGE_VA), Some((0x84D7, 0)));
    assert_eq!(walk(&mem, clone, 0x4000_0000), Some((0x1000_00CF, 2)));
    let mut one = FrameAllocator { free: vec![0x3F000] };
    assert_eq!(clone_user_page_table(&mut mem, &mut one, src), None);
    assert!(!protect_guard_page(0x30_1000));
}

#[test]
fn sv39_clone_succeeds_exactly_with_enough_frames() {
    // Root, L1, L0 and two pages: a clone takes five frames.
    let (mut mem, mut frames) = setup();
    let src = create_process_page_table(&mut mem, &mut frames, ROOT, 0x20000, 0x21000).unwrap();
    let before = mem.words.clone();
    let mut four = FrameAllocator { free: (40u64..44).map(|f| f * 4096).collect() };
    assert_eq!(clone_user_page_table(&mut mem, &mut four, src), None);
    assert_eq!(four.free.len(), 0);
    for f in 0u64..64 {
        if (40..44).contains(&f) {
            continue;
        }
        for x in 0..512 {
            assert_eq!(mem.read_entry(f * 4096, x), before[(f * 512 + x) as usize]);
        }
    }
    let mut five = FrameAllocator { free: (40u64..45).map(|f| f * 4096).collect() };
    assert_eq!(clone_user_page_table(&mut mem, &mut five, src), Some(44 * 4096));
    assert_eq!(five.free.len(), 0);
    for x in 0..4 {
        assert_eq!(mem.read_entry(44 * 4096, x), mem.read_entry(src, x));
    }
}

#[test]
fn sv39_empty_root_holds_kernel_slots_only() {
    let (mut mem, mut frames) = setup();
    let root = create_empty_process_page_table(&mut mem, &mut frames, ROOT).unwrap();
    for x in 0..512u64 {
        let want = if x < 4 { mem.read_entry(ROOT, x) } else { 0 };
        assert_eq!(mem.read_entry(root, x), want);
    }
}

#[test]
fn sv39_remap_is_a_no_op_and_refusal_writes_nothing() {
    let (mut mem, mut frames) = setup();
    let root = create_empty_process_page_table(&mut mem, &mut frames, ROOT).unwrap();
    let before = mem.words.clone();
    assert!(!map_user_page(&mut mem, &mut frames, root, 0x1000_0000, 0x5000, PROT_READ));
    assert_eq!(mem.words, before);
    let va = 0x1_0000_5000u64 * 4;
    assert!(map_user_page(&mut mem, &mut frames, root, va, 0x7000, PROT_READ | PROT_WRITE | PROT_USER));
    let once = mem.words.clone();
    let left = frames.free.len();
    assert!(map_user_page(&mut mem, &mut frames, root, va, 0x7000, PROT_READ | PROT_WRITE | PROT_USER));
    assert_eq!(mem.words, once);
    assert_eq!(frames.free.len(), left);
}

use xxos::address::{PhysicalMemoryAddress, VirtualMemoryAddress};
use xxos::frame::FramePool;
use xxos::pagetable::{PageTableErr, PageTableFrame};
use xxos::sv39::{PTE_FLAG_R, PTE_FLAG_V, PTE_FLAG_W, PTE_FLAG_X};

fn pool() -> FramePool {
    FramePool::new(0x9000_0000, 0x9010_0000)
}

fn va(x: u64) -> VirtualMemoryAddress {
    VirtualMemoryAddress(x)
}

fn pa(x: u64) -> PhysicalMemoryAddress {
    PhysicalMemoryAddress(x)
}

#[test]
fn map_walk_unmap_scenario() {
    let mut pool = pool();
    let mut t = PageTableFrame::new(&mut pool).unwrap();
    let flags = PTE_FLAG_V | PTE_FLAG_R;
    let written = t.map(va(0x1000), pa(0x8000_1000), flags, &mut pool).unwrap().bits();
    assert_eq!(written, (0x80001 << 10) | 0x3);
    {
        let pte = t.walk(va(0x1000), false, &mut pool).unwrap();
        assert!(pte.is_v());
        assert!(pte.is_r());
        assert!(!pte.is_w());
        assert_eq!(pte.to_ppn().0, 0x80001);
        assert_eq!(pte.to_pma().0, 0x8000_1000);
    }
    let again = t.map(va(0x1000), pa(0x8000_5000), PTE_FLAG_V | PTE_FLAG_W, &mut pool);
    assert!(matches!(again, Err(PageTableErr::AlreadyMap)));
    assert_eq!(t.unmap(va(0x1000)), Ok(()));
    let pte = t.walk(va(0x1000), false, &mut pool).unwrap();
    assert!(!pte.is_v());
    assert_eq!(pte.bits(), 0);
}

#[test]
fn map_then_walk_round_trip() {
    let mut pool = pool();
    let mut t = PageTableFrame::new(&mut pool).unwrap();
    let flags = PTE_FLAG_V | PTE_FLAG_R | PTE_FLAG_W | PTE_FLAG_X;
    t.map(va(0x3f_1234_5000), pa(0x8765_4000), flags, &mut pool).unwrap();
    let pte = t.walk(va(0x3f_1234_5678), false, &mut pool).unwrap();
    assert_eq!(pte.to_ppn().0, 0x87654);
    assert_eq!(pte.bits() & 0x3ff, flags);
}

#[test]
fn map_twice_keeps_first_mapping() {
    let mut pool = pool();
    let mut t = PageTableFrame::new(&mut pool).unwrap();
    t.map(va(0x2000), pa(0x8000_2000), PTE_FLAG_V | PTE_FLAG_R, &mut pool).unwrap();
    let before = pool.available_frames();
    let r = t.map(va(0x2000), pa(0x8000_9000), PTE_FLAG_V | PTE_FLAG_X, &mut pool);
    assert!(matches!(r, Err(PageTableErr::AlreadyMap)));
    assert_eq!(pool.available_frames(), before);
    let pte = t.walk(va(0x2000), false, &mut pool).unwrap();
    assert_eq!(pte.bits(), (0x80002 << 10) | 0x3);
}

#[test]
fn unmap_never_mapped_is_noop() {
    let mut pool = pool();
    let mut t = PageTableFrame::new(&mut pool).unwrap();
    assert_eq!(t.unmap(va(0x5000)), Err(PageTableErr::NeverMap));
    t.map(va(0x6000), pa(0x8000_6000), PTE_FLAG_V | PTE_FLAG_R, &mut pool).unwrap();
    // same leaf table, other entry
    assert_eq!(t.unmap(va(0x7000)), Err(PageTableErr::NeverMap));
    let pte = t.walk(va(0x6000), false, &mut pool).unwrap();
    assert!(pte.is_v());
    assert!(matches!(t.walk(va(0x7000), false, &mut pool), Ok(p) if p.bits() == 0));
}

#[test]
fn map_unmap_map_reflects_second_mapping() {
    let mut pool = pool();
    let mut t = PageTableFrame::new(&mut pool).unwrap();
    t.map(va(0x4000), pa(0x8000_4000), PTE_FLAG_V | PTE_FLAG_R, &mut pool).unwrap();
    assert_eq!(t.unmap(va(0x4000)), Ok(()));
    let before = pool.available_frames();
    let flags2 = PTE_FLAG_V | PTE_FLAG_W | PTE_FLAG_R;
    let e = t.map(va(0x4000), pa(0x8123_4000), flags2, &mut pool).unwrap().bits();
    assert_eq!(e, (0x81234 << 10) | flags2);
    assert_eq!(pool.available_frames(), before);
    let pte = t.walk(va(0x4000), false, &mut pool).unwrap();
    assert_eq!(pte.to_ppn().0, 0x81234);
    assert_eq!(pte.bits() & 0x3ff, flags2);
}

#[test]
fn mappages_maps_each_page() {
    let mut pool = pool();
    let mut t = PageTableFrame::new(&mut pool).unwrap();
    let flags = PTE_FLAG_V | PTE_FLAG_R | PTE_FLAG_W;
    // [0x10_0800, 0x10_3801) touches four pages
    assert_eq!(t.mappages(va(0x10_0800), pa(0x8040_0000), 0x3001, flags, &mut pool), Ok(()));
    for i in 0..4u64 {
        let pte = t.walk(va(0x10_0000 + i * 0x1000), false, &mut pool).unwrap();
        assert!(pte.is_v());
        assert_eq!(pte.to_ppn().0, 0x80400 + i);
        assert_eq!(pte.bits() & 0x3ff, flags);
    }
    assert!(matches!(t.walk(va(0x10_4000), false, &mut pool), Ok(p) if !p.is_v()));
    assert!(matches!(t.walk(va(0xf_f000), false, &mut pool), Ok(p) if !p.is_v()));
}

#[test]
fn mappages_over_mapped_page_fails() {
    let mut pool = pool();
    let mut t = PageTableFrame::new(&mut pool).unwrap();
    t.map(va(0x22_2000), pa(0x8000_0000), PTE_FLAG_V | PTE_FLAG_R, &mut pool).unwrap();
    let r = t.mappages(va(0x22_0000), pa(0x8100_0000), 0x4000, PTE_FLAG_V | PTE_FLAG_R, &mut pool);
    assert_eq!(r, Err(PageTableErr::AlreadyMap));
    // the pages before the mapped one stay mapped
    assert!(t.walk(va(0x22_1000), false, &mut pool).unwrap().is_v());
    assert!(!t.walk(va(0x22_3000), false, &mut pool).unwrap().is_v());
}

#[test]
fn unmappages_clears_range() {
    let mut pool = pool();
    let mut t = PageTableFrame::new(&mut pool).unwrap();
    t.mappages(va(0x30_0000), pa(0x8000_0000), 0x5000, PTE_FLAG_V | PTE_FLAG_R, &mut pool).unwrap();
    assert_eq!(t.unmappages(va(0x30_1000), 0x2000), Ok(()));
    assert!(t.walk(va(0x30_0000), false, &mut pool).unwrap().is_v());
    assert!(!t.walk(va(0x30_1000), false, &mut pool).unwrap().is_v());
    assert!(!t.walk(va(0x30_2000), false, &mut pool).unwrap().is_v());
    assert!(t.walk(va(0x30_3000), false, &mut pool).unwrap().is_v());
    assert_eq!(t.unmappages(va(0x7f_ffff_f000), 0x2000), Err(PageTableErr::OutOfRange));
}

#[test]
fn walk_without_tables_is_not_found() {
    let mut pool = pool();
    let mut t = PageTableFrame::new(&mut pool).unwrap();
    let before = pool.available_frames();
    assert!(matches!(t.walk(va(0x1234_5000), false, &mut pool), Err(PageTableErr::NotFound)));
    assert_eq!(pool.available_frames(), before);
    assert!(matches!(t.walk(va(0x1234_5000), true, &mut pool), Ok(p) if p.bits() == 0));
    assert_eq!(pool.available_frames(), before - 2);
}

#[test]
fn walk_hands_out_writable_entry() {
    let mut pool = pool();
    let mut t = PageTableFrame::new(&mut pool).unwrap();
    {
        let pte = t.walk(va(0x9000), true, &mut pool).unwrap();
        pte.set(PhysicalMemoryAddress(0x8000_9000).to_pte(PTE_FLAG_V | PTE_FLAG_R));
    }
    let pte = t.walk(va(0x9000), false, &mut pool).unwrap();
    assert_eq!(pte.to_ppn().0, 0x80009);
    assert!(matches!(
        t.map(va(0x9000), pa(0x8000_a000), PTE_FLAG_V, &mut pool),
        Err(PageTableErr::AlreadyMap)
    ));
}

#[test]
fn out_of_memory_reported() {
    // room for the root table and one more
    let mut pool = FramePool::new(0x9000_0000, 0x9000_2000);
    let mut t = PageTableFrame::new(&mut pool).unwrap();
    let r = t.map(va(0x1000), pa(0x8000_1000), PTE_FLAG_V | PTE_FLAG_R, &mut pool);
    assert!(matches!(r, Err(PageTableErr::OutOfMemory)));
    assert_eq!(t.unmap(va(0x1000)), Err(PageTableErr::NeverMap));
    let r = t.mappages(va(0x1000), pa(0x8000_1000), 0x1000, PTE_FLAG_V, &mut pool);
    assert_eq!(r, Err(PageTableErr::OutOfMemory));
}

#[test]
fn out_of_range_reported() {
    let mut pool = pool();
    let mut t = PageTableFrame::new(&mut pool).unwrap();
    let before = pool.available_frames();
    assert!(matches!(
        t.map(va(0x80_0000_0000), pa(0x8000_0000), PTE_FLAG_V, &mut pool),
        Err(PageTableErr::OutOfRange)
    ));
    assert!(matches!(t.walk(va(0xffff_ffff_ffff_f000), true, &mut pool), Err(PageTableErr::OutOfRange)));
    assert_eq!(t.unmap(va(0x80_0000_0000)), Err(PageTableErr::OutOfRange));
    assert_eq!(
        t.mappages(va(0x7f_ffff_f000), pa(0x8000_0000), 0x2000, PTE_FLAG_V, &mut pool),
        Err(PageTableErr::OutOfRange)
    );
    assert_eq!(
        t.mappages(va(0x1000), pa(0x00ff_ffff_ffff_f000), 0x2000, PTE_FLAG_V, &mut pool),
        Err(PageTableErr::OutOfRange)
    );
    assert_eq!(
        t.mappages(va(0x1000), pa(0x1000), u64::MAX, PTE_FLAG_V, &mut pool),
        Err(PageTableErr::OutOfRange)
    );
    assert_eq!(pool.available_frames(), before);
}

#[test]
fn root_is_first_frame() {
    let mut pool = pool();
    let t = PageTableFrame::new(&mut pool).unwrap();
    assert_eq!(t.root().0, 0x9000_0000);
}

#[test]
fn proc_stacks_mapped() {
    let mut pool = pool();
    let mut t = PageTableFrame::new(&mut pool).unwrap();
    assert_eq!(t.map_proc_stacks(&mut pool), Ok(()));
    let base = 0x3f_ffff_9000u64; // kstack(0)
    for i in 0..3u64 {
        let pte = t.walk(va(base + i * 0x1000), false, &mut pool).unwrap();
        assert_eq!(pte.to_ppn().0, 0x87ff2 + i);
        assert_eq!(pte.bits() & 0x3ff, 0xf);
    }
    // guard page below the stack of task 0 stays unmapped
    assert!(!t.walk(va(base + 0x3000), false, &mut pool).unwrap().is_v());
    let last = 0x3f_ffff_9000u64 - 31 * 0x4000;
    assert!(t.walk(va(last), false, &mut pool).unwrap().is_v());
    assert_eq!(t.map_proc_stacks(&mut pool), Err(PageTableErr::AlreadyMap));
}

#[test]
fn tree_frames_are_reachable() {
    let mut pool = pool();
    let mut t = PageTableFrame::new(&mut pool).unwrap();
    assert_eq!(t.frames_len(), 1);
    assert_eq!(t.frame(0).address().0, t.root().0);
    t.map(va(0x1000), pa(0x8000_1000), PTE_FLAG_V | PTE_FLAG_R, &mut pool).unwrap();
    assert_eq!(t.frames_len(), 3);
    // the root's entry points at the second frame, with V alone
    let root_entry = t.frame(0).entry(0).bits();
    assert_eq!(root_entry & 0x3ff, PTE_FLAG_V);
    assert_eq!((root_entry >> 10) << 12, t.frame(1).address().0);
    let leaf = t.frame(2).entry(1).bits();
    assert_eq!(leaf, (0x80001 << 10) | 0x3);
}

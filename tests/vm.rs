use xxos::address::VirtualMemoryAddress;
use xxos::frame::FramePool;
use xxos::layout::{HEAP_TOP, TRAMPOLINE, TRAPFRAME};
use xxos::pagetable::PageTableErr;
use xxos::vm::{KernelLayout, Kvm, Uvm};

fn layout() -> KernelLayout {
    KernelLayout {
        stext: 0x8020_0000,
        etext: 0x8020_3000,
        srodata: 0x8020_3000,
        erodata: 0x8020_4800,
        sdata: 0x8020_5000,
        edata: 0x8020_6000,
        strampsec: 0x8020_2000,
    }
}

#[test]
fn kernel_space_is_identity_mapped() {
    let mut pool = FramePool::new(0x9000_0000, 0x9020_0000);
    let mut kvm = Kvm::new(&mut pool).unwrap();
    assert_eq!(kvm.init(&layout(), &mut pool), Ok(()));
    let root = kvm.pagetables().root().0;
    assert_eq!(kvm.as_satp().bits(), (8u64 << 60) | (root >> 12));
    let mut other = Kvm::new(&mut pool).unwrap();
    assert_eq!(other.as_satp().bits() >> 60, 8);
    assert_ne!(other.pagetables().root().0, root);
    assert_eq!(other.init(&layout(), &mut pool), Ok(()));
}

#[test]
fn kernel_space_entries() {
    let mut pool = FramePool::new(0x9000_0000, 0x9020_0000);
    let mut kvm = Kvm::new(&mut pool).unwrap();
    kvm.init(&layout(), &mut pool).unwrap();
    // walks that may not create tables never draw from the pool
    let mut tree_pool = FramePool::new(0, 0);
    let t = kvm.pagetables_mut();
    let text = t.walk(VirtualMemoryAddress(0x8020_1000), false, &mut tree_pool).unwrap().bits();
    assert_eq!(text, (0x80201 << 10) | 0xf);
    let tramp = t.walk(VirtualMemoryAddress(TRAMPOLINE), false, &mut tree_pool).unwrap().bits();
    assert_eq!(tramp, (0x80202 << 10) | 0xb);
    let rodata = t.walk(VirtualMemoryAddress(0x8020_4000), false, &mut tree_pool).unwrap().bits();
    assert_eq!(rodata, (0x80204 << 10) | 0x7);
    let heap = t.walk(VirtualMemoryAddress(HEAP_TOP - 0x1000), false, &mut tree_pool).unwrap().bits();
    assert_eq!(heap, (((HEAP_TOP - 0x1000) >> 12) << 10) | 0x7);
    assert!(!t.walk(VirtualMemoryAddress(HEAP_TOP), false, &mut tree_pool).unwrap().is_v());
    let stack = t.walk(VirtualMemoryAddress(0x3f_ffff_9000), false, &mut tree_pool).unwrap().bits();
    assert_eq!(stack, (0x87ff2 << 10) | 0xf);
}

#[test]
fn kernel_space_overlapping_segments_fail() {
    let mut pool = FramePool::new(0x9000_0000, 0x9020_0000);
    let mut kvm = Kvm::new(&mut pool).unwrap();
    let mut l = layout();
    l.srodata = 0x8020_2800;
    assert_eq!(kvm.init(&l, &mut pool), Err(PageTableErr::AlreadyMap));
}

#[test]
fn user_space_trap_pages() {
    let mut pool = FramePool::new(0x9000_0000, 0x9001_0000);
    let mut uvm = Uvm::new(&mut pool).unwrap();
    assert_eq!(uvm.map_trap(0x8700_0000, 0x8020_2000, &mut pool), Ok(()));
    let mut none = FramePool::new(0, 0);
    let t = uvm.pagetables_mut();
    let tf = t.walk(VirtualMemoryAddress(TRAPFRAME), false, &mut none).unwrap().bits();
    assert_eq!(tf, (0x87000 << 10) | 0xf);
    let tr = t.walk(VirtualMemoryAddress(TRAMPOLINE), false, &mut none).unwrap().bits();
    assert_eq!(tr, (0x80202 << 10) | 0xb);
    assert_eq!(uvm.map_trap(0x8700_0000, 0x8020_2000, &mut pool), Err(PageTableErr::AlreadyMap));
}

#[test]
fn user_space_satp() {
    let mut pool = FramePool::new(0x9000_0000, 0x9001_0000);
    let uvm = Uvm::new(&mut pool).unwrap();
    assert_eq!(uvm.as_satp().bits(), (8u64 << 60) | 0x90000);
}

#[test]
fn spaces_need_a_root_frame() {
    let mut pool = FramePool::new(0x9000_0000, 0x9000_0000);
    assert!(Kvm::new(&mut pool).is_none());
    assert!(Uvm::new(&mut pool).is_none());
}

#[test]
fn user_program_pages_get_fresh_frames() {
    let mut pool = FramePool::new(0x9000_0000, 0x9010_0000);
    let mut uvm = Uvm::new(&mut pool).unwrap();
    let flags = 0x1f; // U | X | W | R | V
    assert_eq!(uvm.mappages(0x1800, 0x2000, flags, &mut pool), Ok(()));
    let mut none = FramePool::new(0, 0);
    let t = uvm.pagetables_mut();
    let mut seen = Vec::new();
    for i in 0..3u64 {
        let pte = t.walk(VirtualMemoryAddress(0x1000 + i * 0x1000), false, &mut none).unwrap();
        assert!(pte.is_v() && pte.is_u());
        assert_eq!(pte.bits() & 0x3ff, flags);
        let frame = pte.to_pma().0;
        assert!(frame >= 0x9000_0000 && frame < 0x9010_0000);
        assert_eq!(frame % 0x1000, 0);
        assert!(t.root().0 != frame);
        assert!(!seen.contains(&frame));
        seen.push(frame);
    }
    assert!(!t.walk(VirtualMemoryAddress(0x4000), false, &mut none).unwrap().is_v());
    assert_eq!(uvm.mappages(0x2000, 0x1000, flags, &mut pool), Err(PageTableErr::AlreadyMap));
    assert_eq!(uvm.mappages(0x7f_ffff_f000, 0x2000, flags, &mut pool), Err(PageTableErr::OutOfRange));
}

#[test]
fn user_program_pages_out_of_memory() {
    // root table, two tables and nothing for the page itself
    let mut pool = FramePool::new(0x9000_0000, 0x9000_3000);
    let mut uvm = Uvm::new(&mut pool).unwrap();
    assert_eq!(uvm.mappages(0, 0x1000, 0x1f, &mut pool), Err(PageTableErr::OutOfMemory));
}

#[test]
fn user_code_pages_hold_the_image() {
    let mut pool = FramePool::new(0x9000_0000, 0x9010_0000);
    let mut uvm = Uvm::new(&mut pool).unwrap();
    let code: Vec<u8> = (0..5000u32).map(|i| (i % 251) as u8).collect();
    assert_eq!(uvm.map_code(0x10_0100, &code, 0x1f, &mut pool), Ok(()));
    let mut none = FramePool::new(0, 0);
    let t = uvm.pagetables_mut();
    let p0 = t.walk(VirtualMemoryAddress(0x10_0000), false, &mut none).unwrap().to_pma().0;
    let p1 = t.walk(VirtualMemoryAddress(0x10_1000), false, &mut none).unwrap().to_pma().0;
    assert_ne!(p0, p1);
    assert!(!t.walk(VirtualMemoryAddress(0x10_2000), false, &mut none).unwrap().is_v());
    assert_eq!(uvm.map_code(0x7f_ffff_f800, &code, 0x1f, &mut pool), Err(PageTableErr::OutOfRange));
}

#[test]
fn released_space_returns_every_frame() {
    let mut pool = FramePool::new(0x9000_0000, 0x9010_0000);
    let before = pool.available_frames();
    let mut uvm = Uvm::new(&mut pool).unwrap();
    uvm.mappages(0, 0x3000, 0x1f, &mut pool).unwrap();
    uvm.map_trap(0x8700_0000, 0x8020_2000, &mut pool).unwrap();
    assert!(pool.available_frames() < before);
    uvm.release(&mut pool);
    assert_eq!(pool.available_frames(), before);
}

use xxos::frame::{alloc_page, FrameAllocator, FramePool, PageFrame, StackFrame};

#[test]
fn pool_rounds_to_whole_pages() {
    let pool = FramePool::new(0x8000_0800, 0x8000_3800);
    assert_eq!(pool.available_frames(), 2);
    let empty = FramePool::new(0x8000_0800, 0x8000_0900);
    assert_eq!(empty.available_frames(), 0);
    let clipped = FramePool::new(0x00ff_ffff_ffff_e000, u64::MAX);
    assert_eq!(clipped.available_frames(), 2);
}

#[test]
fn frames_are_zeroed_distinct_and_aligned() {
    let mut pool = FramePool::new(0x8000_0000, 0x8000_4000);
    let a = pool.allocate().unwrap();
    let b = alloc_page(&mut pool).unwrap();
    assert_eq!(a.address().0, 0x8000_0000);
    assert_eq!(b.to_pma().0, 0x8000_1000);
    for k in 0..512 {
        assert_eq!(a.entry(k).bits(), 0);
        assert_eq!(b.table().get(k).bits(), 0);
    }
    assert_eq!(pool.available_frames(), 2);
}

#[test]
fn exhausted_pool_gives_none() {
    let mut pool = FramePool::new(0x8000_0000, 0x8000_1000);
    assert!(pool.allocate().is_some());
    assert!(pool.allocate().is_none());
    assert!(<PageFrame as FrameAllocator>::allocate(&mut pool).is_none());
    assert!(StackFrame::new(&mut pool).is_none());
}

#[test]
fn released_frame_comes_back() {
    let mut pool = FramePool::new(0x8000_0000, 0x8000_1000);
    let mut a = pool.allocate().unwrap();
    *a.entry_mut(3) = xxos::sv39::PageTableEntry { bits: 7 };
    assert_eq!(a.entry(3).bits(), 7);
    assert_eq!(pool.available_frames(), 0);
    pool.release(a);
    assert_eq!(pool.available_frames(), 1);
    let b = pool.allocate().unwrap();
    assert_eq!(b.address().0, 0x8000_0000);
    assert_eq!(b.entry(3).bits(), 0);
}

#[test]
fn stack_frame_takes_a_page() {
    let mut pool = FramePool::new(0x8000_0000, 0x8000_2000);
    let s = StackFrame::new(&mut pool).unwrap();
    assert_eq!(s.base().0, 0x8000_0000);
    assert_eq!(pool.available_frames(), 1);
}

#[test]
fn page_bytes_read_and_write() {
    let mut pool = FramePool::new(0x8000_0000, 0x8000_1000);
    let mut page = pool.allocate().unwrap();
    assert_eq!(page.read_byte(100), 0);
    page.write_byte(9, 0xab);
    assert_eq!(page.read_byte(9), 0xab);
    assert_eq!(page.entry(1).bits(), 0xab00);
    page.write_bytes(4094, &[1, 2]);
    assert_eq!(page.read_byte(4094), 1);
    assert_eq!(page.read_byte(4095), 2);
    assert_eq!(page.read_byte(9), 0xab);
    assert_eq!(page.entry(511).bits(), 0x0201_0000_0000_0000);
}

#[test]
fn page_zero_is_never_handed_out() {
    let mut pool = FramePool::new(0, 0x3000);
    assert_eq!(pool.available_frames(), 2);
    let a = pool.allocate().unwrap();
    let b = pool.allocate().unwrap();
    assert_eq!(a.address().0, 0x1000);
    assert_eq!(b.address().0, 0x2000);
    assert!(pool.allocate().is_none());
    assert_eq!(FramePool::new(0, 0x1000).available_frames(), 0);
}

#[test]
fn trait_allocation_counts_frames() {
    let mut pool = FramePool::new(0x8000_0000, 0x8000_2000);
    let f = <PageFrame as FrameAllocator>::allocate(&mut pool).unwrap();
    assert_eq!(f.address().0, 0x8000_0000);
    assert_eq!(pool.available_frames(), 1);
}

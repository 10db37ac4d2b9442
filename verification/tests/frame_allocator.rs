use rcore_os::mm::address::PhysPageNum;
use rcore_os::mm::frame_allocator::{
    frame_alloc, frame_dealloc, init_frame_allocator, FrameTracker, StackFrameAllocator,
};

#[test]
fn fresh_allocator_has_nothing() {
    let mut a = StackFrameAllocator::new();
    assert_eq!(a.allocate(), None);
}

#[test]
fn hands_out_the_range_in_order_then_fails() {
    let mut a = StackFrameAllocator::new();
    a.init(PhysPageNum(10), PhysPageNum(13));
    assert_eq!(a.allocate(), Some(PhysPageNum(10)));
    assert_eq!(a.allocate(), Some(PhysPageNum(11)));
    assert_eq!(a.allocate(), Some(PhysPageNum(12)));
    assert_eq!(a.allocate(), None);
}

#[test]
fn given_back_frames_come_first_last_in_first_out() {
    let mut a = StackFrameAllocator::new();
    a.init(PhysPageNum(10), PhysPageNum(20));
    let f0 = a.allocate().unwrap();
    let f1 = a.allocate().unwrap();
    a.dealloc(f0);
    a.dealloc(f1);
    assert_eq!(a.allocate(), Some(f1));
    assert_eq!(a.allocate(), Some(f0));
    assert_eq!(a.allocate(), Some(PhysPageNum(12)));
}

#[test]
fn dealloc_then_alloc_gives_the_same_frame() {
    let mut a = StackFrameAllocator::new();
    a.init(PhysPageNum(0), PhysPageNum(4));
    let f = frame_alloc(&mut a).unwrap();
    frame_dealloc(&mut a, f);
    assert_eq!(frame_alloc(&mut a), Some(f));
}

#[test]
fn consecutive_allocations_differ() {
    let mut a = StackFrameAllocator::new();
    a.init(PhysPageNum(100), PhysPageNum(200));
    let mut seen = Vec::new();
    for _ in 0..50 {
        let f = a.allocate().unwrap();
        assert!(!seen.contains(&f.0));
        seen.push(f.0);
    }
}

#[test]
fn init_frame_allocator_covers_kernel_end_to_memory_end() {
    let mut a = StackFrameAllocator::new();
    init_frame_allocator(&mut a, 0x8023_4567);
    assert_eq!(a.allocate(), Some(PhysPageNum(0x80235)));
    let mut b = StackFrameAllocator::new();
    init_frame_allocator(&mut b, 0x87ff_f000);
    assert_eq!(b.allocate(), Some(PhysPageNum(0x87fff)));
    assert_eq!(b.allocate(), None);
}

#[test]
fn frame_tracker_clears_its_page() {
    let mut page = vec![0xabu8; 4096];
    let t = FrameTracker::new(PhysPageNum(3), &mut page);
    assert_eq!(t.ppn, PhysPageNum(3));
    assert!(page.iter().all(|b| *b == 0));
    assert_eq!(page.len(), 4096);
}

#[test]
fn is_allocated_tracks_frames_in_use() {
    let mut a = StackFrameAllocator::new();
    a.init(PhysPageNum(10), PhysPageNum(20));
    let f = a.allocate().unwrap();
    assert!(a.is_allocated(f));
    assert!(!a.is_allocated(PhysPageNum(11)));
    a.dealloc(f);
    assert!(!a.is_allocated(f));
}

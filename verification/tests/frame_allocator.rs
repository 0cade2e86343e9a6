use os_kernel::address::{PhysAddr, PhysPageNum};
use os_kernel::config::MEMORY_END;
use os_kernel::frame_allocator::{
    frame_alloc, frame_dealloc, init_frame_allocator, FrameTracker, StackFrameAllocator,
};

fn allocator_over(l: usize, r: usize) -> StackFrameAllocator {
    let mut a = StackFrameAllocator::new();
    a.init(PhysPageNum(l), PhysPageNum(r));
    a
}

#[test]
fn new_allocator_has_nothing_to_hand_out() {
    let mut a = StackFrameAllocator::new();
    assert_eq!(a.alloc_frame(), None);
}

#[test]
fn bump_allocation_in_order_then_exhausted() {
    let mut a = allocator_over(10, 13);
    assert_eq!(a.alloc_frame(), Some(PhysPageNum(10)));
    assert_eq!(a.alloc_frame(), Some(PhysPageNum(11)));
    assert_eq!(a.alloc_frame(), Some(PhysPageNum(12)));
    assert_eq!(a.alloc_frame(), None);
    assert_eq!(a.alloc_frame(), None);
}

#[test]
fn dealloc_then_alloc_reuses_the_frame() {
    let mut a = allocator_over(10, 20);
    let f1 = a.alloc_frame().unwrap();
    let f2 = a.alloc_frame().unwrap();
    assert_ne!(f1, f2);
    a.dealloc(f1);
    assert_eq!(a.alloc_frame(), Some(f1));
    assert_eq!(a.alloc_frame(), Some(PhysPageNum(12)));
}

#[test]
fn recycled_frames_come_back_most_recent_first() {
    let mut a = allocator_over(0, 3);
    let f0 = a.alloc_frame().unwrap();
    let f1 = a.alloc_frame().unwrap();
    let f2 = a.alloc_frame().unwrap();
    a.dealloc(f0);
    a.dealloc(f2);
    a.dealloc(f1);
    assert_eq!(a.alloc_frame(), Some(f1));
    assert_eq!(a.alloc_frame(), Some(f2));
    assert_eq!(a.alloc_frame(), Some(f0));
    assert_eq!(a.alloc_frame(), None);
}

#[test]
fn recycled_frame_served_even_when_range_exhausted() {
    let mut a = allocator_over(5, 6);
    let f = a.alloc_frame().unwrap();
    assert_eq!(a.alloc_frame(), None);
    a.dealloc(f);
    assert_eq!(a.alloc_frame(), Some(PhysPageNum(5)));
}

#[test]
fn is_allocated_matches_dealloc_check() {
    let mut a = allocator_over(10, 20);
    assert!(!a.is_allocated(PhysPageNum(10)));
    let f = a.alloc_frame().unwrap();
    assert!(a.is_allocated(f));
    assert!(!a.is_allocated(PhysPageNum(11)));
    a.dealloc(f);
    assert!(!a.is_allocated(f));
    // frames below the range start were never handed out, yet the check accepts them
    assert!(a.is_allocated(PhysPageNum(3)));
}

#[test]
fn frame_alloc_wraps_in_tracker() {
    let mut a = allocator_over(7, 8);
    let t = frame_alloc(&mut a).unwrap();
    assert_eq!(t.ppn, PhysPageNum(7));
    assert!(frame_alloc(&mut a).is_none());
    frame_dealloc(&mut a, t.ppn);
    assert_eq!(frame_alloc(&mut a).map(|t| t.ppn), Some(PhysPageNum(7)));
}

#[test]
fn frame_tracker_keeps_page_number() {
    let t = FrameTracker::new(PhysPageNum(42));
    assert_eq!(t.ppn, PhysPageNum(42));
}

#[test]
fn init_frame_allocator_covers_kernel_end_to_memory_end() {
    let mut a = StackFrameAllocator::new();
    init_frame_allocator(&mut a, 0x8020_0001);
    assert_eq!(a.alloc_frame(), Some(PhysPageNum(0x80201)));
    let mut b = StackFrameAllocator::new();
    init_frame_allocator(&mut b, 0x8020_0000);
    assert_eq!(b.alloc_frame(), Some(PhysPageNum(0x80200)));
    let mut c = StackFrameAllocator::new();
    init_frame_allocator(&mut c, MEMORY_END - 4096);
    assert_eq!(c.alloc_frame(), Some(PhysPageNum(MEMORY_END / 4096 - 1)));
    assert_eq!(c.alloc_frame(), None);
}

#[test]
fn page_floor_and_ceil() {
    assert_eq!(PhysAddr(0).floor(), PhysPageNum(0));
    assert_eq!(PhysAddr(0).ceil(), PhysPageNum(0));
    assert_eq!(PhysAddr(4095).floor(), PhysPageNum(0));
    assert_eq!(PhysAddr(4095).ceil(), PhysPageNum(1));
    assert_eq!(PhysAddr(4096).floor(), PhysPageNum(1));
    assert_eq!(PhysAddr(4096).ceil(), PhysPageNum(1));
    assert_eq!(PhysAddr(4097).ceil(), PhysPageNum(2));
    assert_eq!(PhysAddr(usize::MAX).ceil(), PhysPageNum(usize::MAX / 4096 + 1));
}

use os_core::mm::address::PhysPageNum;
use os_core::mm::frame_allocator::{frame_alloc, frame_dealloc, StackFrameAllocator};

#[test]
fn frame_allocator_recycles_in_lifo_order() {
    let mut allocator = StackFrameAllocator::new();
    allocator.init(PhysPageNum(0x100), PhysPageNum(0x110));
    let mut first = Vec::new();
    for _ in 0..5 {
        first.push(frame_alloc(&mut allocator).unwrap());
    }
    let first_ppns: Vec<u64> = first.iter().map(|f| f.ppn.0).collect();
    assert_eq!(first_ppns, vec![0x100, 0x101, 0x102, 0x103, 0x104]);
    for frame in first {
        frame_dealloc(&mut allocator, frame.ppn);
    }
    let mut second = Vec::new();
    for _ in 0..5 {
        second.push(frame_alloc(&mut allocator).unwrap());
    }
    let second_ppns: Vec<u64> = second.iter().map(|f| f.ppn.0).collect();
    assert_eq!(second_ppns, vec![0x104, 0x103, 0x102, 0x101, 0x100]);
}

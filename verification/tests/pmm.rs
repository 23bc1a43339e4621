use kwast::arch::address::PhysAddr;
use kwast::mem::{FrameAllocator as EarlyFrameAllocator, MappingError};
use kwast::mm::mapper::MemoryError;
use kwast::mm::pmm::FrameAllocator;

#[test]
fn frame_stack_pops_what_was_pushed() {
    let mut pmm = FrameAllocator::empty();
    assert_eq!(pmm.pop_top(|_| PhysAddr::new(0)), Err(MemoryError::OOM));
    assert_eq!(pmm.push_top(PhysAddr::new(0x1000)), PhysAddr::null());
    assert_eq!(pmm.push_top(PhysAddr::new(0x2000)), PhysAddr::new(0x1000));
    let mut seen = Vec::new();
    assert_eq!(
        pmm.pop_top(|top| {
            seen.push(top);
            PhysAddr::new(0x1000)
        }),
        Ok(())
    );
    assert_eq!(seen, vec![PhysAddr::new(0x2000)]);
    assert_eq!(pmm.top, PhysAddr::new(0x1000));
}

#[test]
fn consume_and_move_top_fails_when_empty() {
    let mut early = EarlyFrameAllocator::empty();
    assert_eq!(early.consume_and_move_top(|_| PhysAddr::new(0x3000)), Err(MappingError::OOM));
    early.move_top(PhysAddr::new(0x4000));
    assert_eq!(early.consume_and_move_top(|p| PhysAddr::new(p.as_usize() + 0x1000)), Ok(()));
    assert_eq!(early.top, PhysAddr::new(0x5000));
}

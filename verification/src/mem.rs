//! Physical memory management: the frame allocator and the mapper interface it serves.
use vstd::prelude::*;
use crate::arch::address::{PhysAddr, VirtAddr};
use crate::arch::paging::EntryFlags;

verus! {

/// Error during mapping request.
#[derive(Debug, Clone, Copy, PartialEq, Eq, Structural)]
pub enum MappingError {
    /// Out of memory.
    OOM,
}

/// Map result.
pub type MappingResult = Result<(), MappingError>;

/// Trait for memory mapper: maps a physical address to a virtual address.
pub trait MemoryMapper {
    /// Translate a virtual address to a physical address (if mapped).
    fn translate(&self, addr: VirtAddr) -> Option<PhysAddr>;

    /// Gets a single physical page and maps it to a given virtual address.
    fn get_and_map_single(&mut self, vaddr: VirtAddr, flags: EntryFlags) -> MappingResult;

    /// Maps a single page.
    fn map_single(&mut self, vaddr: VirtAddr, paddr: PhysAddr, flags: EntryFlags) -> MappingResult;
}

/// The default frame allocator.
///
/// How does this allocator work?
/// Instead of having a fixed area in the memory to keep the stack,
/// we let each free frame contain a pointer to the next free frame on the stack.
/// This limits the amount of virtual memory we need to reserve.
///
/// When we allocate a frame, we map it to the virtual memory and read the pointer.
/// Then we move the head. There is no unnecessary mapping happening here.
///
/// It is likely that, for an allocation, the data will be accessed anyway after the mapping.
/// For a free, it is likely that the data was already accessed.
#[derive(Debug)]
pub struct FrameAllocator {
    pub reserved_end: PhysAddr,
    pub top: PhysAddr,
}

impl FrameAllocator {
    /// Empty, uninitialized allocator.
    pub fn empty() -> (r: Self)
        ensures
            r.reserved_end@ == 0,
            r.top@ == 0,
    {
        FrameAllocator { reserved_end: PhysAddr::null(), top: PhysAddr::null() }
    }

    /// Moves the top of the stack to `next`, the link read from the old top frame.
    pub fn move_top(&mut self, next: PhysAddr)
        ensures
            final(self).top == next,
            final(self).reserved_end == old(self).reserved_end,
    {
        self.top = next;
    }

    /// Consumes the top and moves it. `f` is given the top frame: it puts the frame to use and
    /// reads the link it holds, the new top. This function is used internally for memory
    /// management: it allows the paging component to get the top directly and let it move.
    pub fn consume_and_move_top<F: FnOnce(PhysAddr) -> PhysAddr>(&mut self, f: F) -> (r: MappingResult)
        requires
            old(self).top@ != 0 ==> call_requires(f, (old(self).top,)),
        ensures
            final(self).reserved_end == old(self).reserved_end,
            old(self).top@ == 0 ==> r == Err::<(), MappingError>(MappingError::OOM) && final(self).top == old(self).top,
            old(self).top@ != 0 ==> r is Ok && call_ensures(f, (old(self).top,), final(self).top),
    {
        if self.top.is_null() {
            return Err(MappingError::OOM);
        }
        let next = f(self.top);
        self.move_top(next);
        Ok(())
    }
}

} // verus!

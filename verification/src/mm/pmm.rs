//! Physical frame allocator: a stack of free frames, linked through the frames themselves.
use vstd::prelude::*;
use crate::arch::address::PhysAddr;
use crate::mm::mapper::{MemoryError, MemoryResult};

verus! {

/// The default frame allocator.
///
/// How does this allocator work?
/// Instead of having a fixed area in the memory to keep the stack,
/// we let each free frame contain a pointer to the next free frame on the stack.
/// This limits the amount of virtual memory we need to reserve.
///
/// When we allocate a frame, we map it to the virtual memory and read the pointer.
/// Then we move the head. There is no unnecessary mapping happening here.
/// There is no additional mapping compared to the classical stack approach:
/// * When a page is being allocated it'll need to be mapped anyway.
/// * When a page is being freed it was already mapped.
#[derive(Debug)]
pub struct FrameAllocator {
    pub top: PhysAddr,
}

impl FrameAllocator {
    /// Empty, uninitialized allocator.
    pub fn empty() -> (r: Self)
        ensures
            r.top@ == 0,
    {
        FrameAllocator { top: PhysAddr::null() }
    }

    /// Pops the top frame. `next` is given the top frame; it maps it and reads the link it
    /// holds: the frame that becomes the new top. Out of memory when the stack is empty.
    pub fn pop_top<F: FnOnce(PhysAddr) -> PhysAddr>(&mut self, next: F) -> (r: MemoryResult)
        requires
            old(self).top@ != 0 ==> call_requires(next, (old(self).top,)),
        ensures
            old(self).top@ == 0 ==> r == Err::<(), MemoryError>(MemoryError::OOM) && final(self).top == old(self).top,
            old(self).top@ != 0 ==> r is Ok && call_ensures(next, (old(self).top,), final(self).top),
    {
        if self.top.is_null() {
            return Err(MemoryError::OOM);
        }
        // Read and set the next top address.
        self.top = next(self.top);
        Ok(())
    }

    /// Pushes frame `paddr` on the stack. Returns the link to store in the frame: the previous
    /// top.
    pub fn push_top(&mut self, paddr: PhysAddr) -> (r: PhysAddr)
        ensures
            r == old(self).top,
            final(self).top == paddr,
    {
        let link = self.top;
        self.top = paddr;
        link
    }
}

} // verus!

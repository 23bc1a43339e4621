//! Memory management.
pub mod avl_interval_tree;
pub mod buddy;
pub mod heap;
pub mod pmm;
pub mod process_heap_assigner;
pub mod slab;
pub mod tcb_alloc;
pub mod mapper;
pub mod vma_allocator;

use vstd::prelude::*;
use crate::arch::address::{VirtAddr, spec_align_down};
use crate::mm::mapper::MemoryMapper;
use crate::tasking::thread::Thread;

verus! {

/// Start of the user part of the address space: 512 GiB, the second top-level entry.
pub const USER_START: u64 = 0x80_0000_0000;

/// What comes of a page fault.
#[derive(Debug, Clone, Copy, PartialEq, Eq, Structural)]
pub enum PageFaultOutcome {
    /// The page was mapped in the thread's heap; it is to be cleared before the thread goes on.
    Handled(VirtAddr),
    /// The kernel faulted: the address or the instruction lies below the user part.
    KernelFault,
    /// The thread faulted where it may not; it is to be killed.
    KillThread,
}

/// Page fault handler for the running thread: its heap may map the page; otherwise a fault at
/// a kernel address or from kernel code is a kernel fault, and any other kills the thread.
pub fn page_fault<M: MemoryMapper>(thread: &mut Thread, mapping: &mut M, fault_addr: VirtAddr, ip: VirtAddr) -> (r: PageFaultOutcome)
    requires
        old(thread).spec_heap().spec_vma().spec_start()@ + old(thread).spec_heap().spec_allocated_size() <= usize::MAX,
    ensures
        final(thread).spec_heap() == old(thread).spec_heap(),
        final(thread).spec_status() == old(thread).spec_status(),
        r matches PageFaultOutcome::Handled(page) ==> page@ == spec_align_down(fault_addr@ as int)
            && old(thread).spec_heap().spec_vma().spec_start()@ <= fault_addr@
            < old(thread).spec_heap().spec_vma().spec_start()@ + old(thread).spec_heap().spec_allocated_size(),
        !(r is Handled) ==> (r == if fault_addr@ < USER_START || ip@ < USER_START {
            PageFaultOutcome::KernelFault
        } else {
            PageFaultOutcome::KillThread
        }),
        !(old(thread).spec_heap().spec_vma().spec_start()@ <= fault_addr@
            < old(thread).spec_heap().spec_vma().spec_start()@ + old(thread).spec_heap().spec_allocated_size())
            ==> !(r is Handled),
{
    let handled = thread.page_fault(mapping, fault_addr);
    page_fault_outcome(handled, fault_addr, ip)
}

/// What a page fault comes to once the thread's heap answered it (`handled`, the page that was
/// mapped, if any): handled, or a kernel fault when the address or the instruction lies below
/// the user part, or else the thread is killed.
pub fn page_fault_outcome(handled: Option<VirtAddr>, fault_addr: VirtAddr, ip: VirtAddr) -> (r: PageFaultOutcome)
    ensures
        handled matches Some(page) ==> r == PageFaultOutcome::Handled(page),
        handled is None ==> r == if fault_addr@ < USER_START || ip@ < USER_START {
            PageFaultOutcome::KernelFault
        } else {
            PageFaultOutcome::KillThread
        },
{
    match handled {
        Some(page) => PageFaultOutcome::Handled(page),
        None => {
            if fault_addr.as_u64() < USER_START || ip.as_u64() < USER_START {
                PageFaultOutcome::KernelFault
            } else {
                PageFaultOutcome::KillThread
            }
        },
    }
}

} // verus!

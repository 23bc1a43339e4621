//! Where thread control blocks live: a fixed area in which a thread id picks a page and a slot
//! of that page, so that an id leads straight to its block.
use vstd::prelude::*;
use crate::arch::address::{PAGE_SIZE, VirtAddr, spec_align_down};
use crate::arch::paging::EntryFlags;
use crate::mm::mapper::{MemoryError, MemoryMapper, MemoryResult};
use crate::tasking::thread::ThreadId;

verus! {

/// Start of the area of thread control blocks: 1 GiB, the second entry of the first
/// third-level table.
pub const TCB_START: usize = 0x4000_0000;

/// Length of the area of thread control blocks: 1 GiB, a whole third-level entry.
pub const TCB_LEN: usize = 0x4000_0000;

/// Converts a thread id to the address of the page that holds its block and the slot of the
/// block in that page, when `tcb_count` blocks fit in a page.
pub fn tid_to_addr(tid: ThreadId, tcb_count: usize) -> (r: (usize, usize))
    requires
        tcb_count > 0,
        TCB_START + (tid.spec_id() as int / tcb_count as int) * PAGE_SIZE <= usize::MAX,
    ensures
        r.0 == TCB_START + (tid.spec_id() as int / tcb_count as int) * PAGE_SIZE,
        r.1 == tid.spec_id() as int % tcb_count as int,
        r.1 < tcb_count,
{
    let page_nr = (tid.as_u32() as usize) / tcb_count;
    (TCB_START + page_nr * PAGE_SIZE, tid.as_u32() as usize % tcb_count)
}

/// Two ids lead to the same block only when they have the same number.
pub proof fn lemma_tid_slots_distinct(a: ThreadId, b: ThreadId, tcb_count: usize)
    requires
        tcb_count > 0,
        a.spec_id() != b.spec_id(),
    ensures
        TCB_START + (a.spec_id() as int / tcb_count as int) * PAGE_SIZE != TCB_START + (b.spec_id() as int / tcb_count as int) * PAGE_SIZE
            || a.spec_id() as int % tcb_count as int != b.spec_id() as int % tcb_count as int,
{
    let (x, y, n) = (a.spec_id() as int, b.spec_id() as int, tcb_count as int);
    vstd::arithmetic::div_mod::lemma_fundamental_div_mod(x, n);
    vstd::arithmetic::div_mod::lemma_fundamental_div_mod(y, n);
}

/// The bookkeeping of a page of thread control blocks: one bit per slot, set while the slot is
/// free.
pub struct TcbPageMeta {
    free: u16,
}

impl View for TcbPageMeta {
    type V = u16;

    closed spec fn view(&self) -> u16 {
        self.free
    }
}

impl TcbPageMeta {
    /// A page that was just mapped: every slot is free.
    pub fn new() -> (r: Self)
        ensures
            r@ == u16::MAX,
    {
        TcbPageMeta { free: u16::MAX }
    }

    /// A block was placed in slot `offset`: its bit flips.
    pub fn take_slot(&mut self, offset: usize)
        requires
            offset < 16,
        ensures
            final(self)@ == old(self)@ ^ (1u16 << offset as u16),
    {
        self.free = self.free ^ (1u16 << offset as u16);
    }

    /// The block of slot `offset` goes: its bit is set. Returns whether the slot was in use
    /// (its bit was clear; only then is there a block to drop), and whether the page is then
    /// wholly free, so that it can be unmapped.
    pub fn release_slot(&mut self, offset: usize) -> (r: (bool, bool))
        requires
            offset < 16,
        ensures
            final(self)@ == old(self)@ | (1u16 << offset as u16),
            r.0 == (old(self)@ & (1u16 << offset as u16) == 0),
            r.1 == (r.0 && old(self)@ | (1u16 << offset as u16) == u16::MAX),
    {
        let bit = 1u16 << offset as u16;
        let old_free = self.free;
        self.free = old_free | bit;
        if old_free & bit == 0 {
            (true, old_free | bit == u16::MAX)
        } else {
            (false, false)
        }
    }
}

/// Page fault in the area of thread control blocks: maps a fresh page at the faulting page,
/// present, no-execute, writable and global, unless it is mapped already (another processor
/// mapped it meanwhile). Returns the page that was mapped, which is to be cleared and to get
/// fresh bookkeeping, `None` when it was mapped already, or the error of the mapping.
pub fn pagefault_tcb_alloc<M: MemoryMapper>(mapping: &mut M, fault_addr: VirtAddr, write: bool) -> (r: Result<Option<VirtAddr>, MemoryError>)
    requires
        write,
    ensures
        r matches Ok(Some(p)) ==> p@ == spec_align_down(fault_addr@ as int),
{
    let (fault_addr, flags) = tcb_fault_request(fault_addr);

    // Once we get this lock, the page might've been already mapped by another CPU.
    if mapping.translate(fault_addr).is_some() {
        return Ok(None);
    }

    let mapped = mapping.get_and_map_single(fault_addr, flags);
    tcb_fault_result(fault_addr, mapped)
}

/// The request a page fault in the area of thread control blocks hands the mapper: the
/// faulting page, present, no-execute, writable and global.
pub fn tcb_fault_request(fault_addr: VirtAddr) -> (r: (VirtAddr, EntryFlags))
    ensures
        r.0@ == spec_align_down(fault_addr@ as int),
        r.1@ == 0x8000_0000_0000_0103u64,
{
    let flags = EntryFlags::present().union(EntryFlags::nx()).union(EntryFlags::writable()).union(EntryFlags::global());
    proof {
        assert(((1u64 | 0x8000_0000_0000_0000u64) | 2u64) | 0x100u64 == 0x8000_0000_0000_0103u64) by (bit_vector);
    }
    (fault_addr.align_down(), flags)
}

/// What a page fault in the area of thread control blocks comes to once the mapper answered
/// the request to map the faulting page `page`: the page, to be cleared and to get fresh
/// bookkeeping, when the mapping succeeded, and the mapper's error otherwise.
pub fn tcb_fault_result(page: VirtAddr, mapped: MemoryResult) -> (r: Result<Option<VirtAddr>, MemoryError>)
    ensures
        mapped is Ok ==> r == Ok::<Option<VirtAddr>, MemoryError>(Some(page)),
        mapped matches Err(e) ==> r == Err::<Option<VirtAddr>, MemoryError>(e),
{
    match mapped {
        Ok(()) => Ok(Some(page)),
        Err(e) => Err(e),
    }
}

} // verus!

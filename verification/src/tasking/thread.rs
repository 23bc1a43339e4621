//! Thread identifiers, thread states and thread stacks.
use vstd::prelude::*;
use crate::arch::address::{VirtAddr, is_canonical};
use crate::arch::paging::EntryFlags;
use crate::mm::mapper::MemoryMapper;
use crate::mm::vma_allocator::{LazilyMappedVma, MappableVma, MappedVma, canonical_range, lemma_canonical_range};
use crate::tasking::{push_writes, INITIAL_RFLAGS};
use crate::tasking::file::{FileDescriptor, FileDescriptorTable, RESERVED_FILES};
use crate::tasking::scheme::ReplyDataTcb;
use crate::tasking::scheme_container::SchemeId;

verus! {

/// Identifies a thread. Identifiers may be reused; the generation tells reuses apart.
#[derive(Debug, Copy, Clone, PartialEq, Eq, Structural)]
pub struct ThreadId {
    /// We want to reuse thread ids, but we don't want a full 64-bit number,
    /// because that would not work well with our thread id addressing system.
    /// When threads are reused, we want to be careful that we don't accidentally identify
    /// the wrong thread: a thread may be gone, but its id could be reused.
    /// This is where the generation comes in: an id can be used 2^32 - 1 times.
    generation: u32,
    id: u32,
}

impl ThreadId {
    /// The generation of the identifier.
    pub closed spec fn spec_generation(self) -> u32 {
        self.generation
    }

    /// The raw number.
    pub closed spec fn spec_id(self) -> u32 {
        self.id
    }

    /// Create new thread id: takes the next number from the counter `next`, which moves on
    /// by one (wrapping around).
    pub fn new(next: &mut u32) -> (r: Self)
        ensures
            r.spec_generation() == 0,
            r.spec_id() == *old(next),
            *final(next) == if *old(next) == u32::MAX {
                0
            } else {
                (*old(next) + 1) as u32
            },
    {
        let id = *next;
        *next = next.wrapping_add(1);
        Self { generation: 0, id }
    }

    /// Thread id 0 of generation 0.
    pub closed spec fn spec_zero() -> Self {
        Self { generation: 0, id: 0 }
    }

    /// Thread id 0, useful for markers / sentinels if you know that thread id 0 won't be used.
    #[verifier::when_used_as_spec(spec_zero)]
    pub fn zero() -> (r: Self)
        ensures
            r == Self::spec_zero(),
            r.spec_generation() == 0,
            r.spec_id() == 0,
    {
        Self { generation: 0, id: 0 }
    }

    /// Gets the raw number.
    #[inline]
    pub fn as_u32(&self) -> (r: u32)
        ensures
            r == self.spec_id(),
    {
        self.id
    }
}

/// Two thread ids with the same generation and number are the same id.
pub proof fn lemma_thread_id_eq(a: ThreadId, b: ThreadId)
    ensures
        (a.spec_generation() == b.spec_generation() && a.spec_id() == b.spec_id()) == (a == b),
{
}

/// State of a thread.
#[derive(Debug, Copy, Clone, PartialEq, Eq, Structural)]
pub enum ThreadStatus {
    Runnable,
    Blocked,
    Exit(u32),
}

/// The stack of a thread.
pub struct Stack {
    vma: MappedVma,
    current_location: VirtAddr,
}

impl Stack {
    /// The area of the stack.
    pub closed spec fn spec_vma(&self) -> MappedVma {
        self.vma
    }

    /// The current stack pointer.
    pub closed spec fn spec_current_location(&self) -> VirtAddr {
        self.current_location
    }

    /// Creates a new stack from given parameters: the stack pointer starts at the end of the area.
    pub fn new(vma: MappedVma) -> (r: Self)
        requires
            vma.spec_address()@ + vma.spec_size() <= usize::MAX,
            is_canonical((vma.spec_address()@ + vma.spec_size()) as usize),
        ensures
            r.spec_vma() == vma,
            r.spec_current_location()@ == vma.spec_address()@ + vma.spec_size(),
    {
        let current_location = vma.address().add(vma.size());
        Self { vma, current_location }
    }

    /// Gets the current location.
    #[inline]
    pub fn get_current_location(&self) -> (r: VirtAddr)
        ensures
            r == self.spec_current_location(),
    {
        self.current_location
    }

    /// Sets the current location.
    #[inline]
    pub fn set_current_location(&mut self, location: VirtAddr)
        ensures
            final(self).spec_current_location() == location,
            final(self).spec_vma() == old(self).spec_vma(),
    {
        self.current_location = location;
    }

    /// Pushes a value on the stack: moves the stack pointer down by 8 bytes; returns where the
    /// value is to be written (the new stack pointer), and the value.
    pub fn push(&mut self, value: u64) -> (r: (VirtAddr, u64))
        requires
            old(self).spec_current_location()@ >= 8,
            canonical_range(old(self).spec_current_location()@ - 8, 8),
        ensures
            final(self).spec_current_location()@ == old(self).spec_current_location()@ - 8,
            final(self).spec_vma() == old(self).spec_vma(),
            r.0 == final(self).spec_current_location(),
            r.1 == value,
    {
        proof {
            lemma_canonical_range(self.current_location@ - 8, 8, (self.current_location@ - 8) as usize);
        }
        let current = self.get_current_location().sub(8);
        self.set_current_location(current);
        (current, value)
    }

    /// Prepares the stack to execute the trampoline at `trampoline` and go to `entry` with
    /// `first_arg`: pushes the trampoline, the initial flags, then the registers the trampoline
    /// pops (the entry in rbx, the argument in rbp, and zeroed r12 to r15). Returns the writes
    /// to perform, in order.
    pub fn prepare_trampoline(&mut self, trampoline: u64, entry: VirtAddr, first_arg: usize) -> (r: Vec<(VirtAddr, u64)>)
        requires
            old(self).spec_current_location()@ >= 64,
            canonical_range(old(self).spec_current_location()@ - 64, 64),
        ensures
            final(self).spec_current_location()@ == old(self).spec_current_location()@ - 64,
            final(self).spec_vma() == old(self).spec_vma(),
            r@.len() == 8,
            forall|i: int| 0 <= i < 8 ==> (#[trigger] r@[i]).0@ == push_writes(
                old(self).spec_current_location()@ as int,
                seq![trampoline, INITIAL_RFLAGS, entry@ as u64, first_arg as u64, 0, 0, 0, 0],
            )[i].0 && r@[i].1 == push_writes(
                old(self).spec_current_location()@ as int,
                seq![trampoline, INITIAL_RFLAGS, entry@ as u64, first_arg as u64, 0, 0, 0, 0],
            )[i].1,
    {
        let ghost top = self.current_location@ as int;
        let values: [u64; 8] = [trampoline, INITIAL_RFLAGS, entry.as_u64(), first_arg as u64, 0, 0, 0, 0];
        let ghost vs = seq![trampoline, INITIAL_RFLAGS, entry@ as u64, first_arg as u64, 0u64, 0u64, 0u64, 0u64];
        assert(values@ =~= vs);
        let mut writes: Vec<(VirtAddr, u64)> = Vec::new();
        let mut i: usize = 0;
        while i < 8
            invariant
                i <= 8,
                values@ == vs,
                self.spec_current_location()@ == top - 8 * i,
                self.spec_vma() == old(self).spec_vma(),
                top >= 64,
                canonical_range(top - 64, 64),
                writes@.len() == i,
                forall|j: int| 0 <= j < i ==> (#[trigger] writes@[j]).0@ == push_writes(top, vs)[j].0
                    && writes@[j].1 == push_writes(top, vs)[j].1,
            decreases 8 - i,
        {
            proof {
                assert(canonical_range(self.spec_current_location()@ - 8, 8));
            }
            let w = self.push(values[i]);
            writes.push(w);
            i = i + 1;
        }
        writes
    }
}

/// Size of a WebAssembly page in bytes.
pub const WASM_PAGE_SIZE: usize = 65536;

/// A thread: its stack, identity, heap, state, open files and IPC bookkeeping.
pub struct Thread {
    stack: Stack,
    id: ThreadId,
    heap: LazilyMappedVma,
    status: ThreadStatus,
    file_descriptor_table: FileDescriptorTable,
    reply: ReplyDataTcb,
    ipc_blocked_on: SchemeId,
}

impl Thread {
    /// The stack of the thread.
    pub closed spec fn spec_stack(&self) -> Stack {
        self.stack
    }

    /// The identifier of the thread.
    pub closed spec fn spec_id(&self) -> ThreadId {
        self.id
    }

    /// The identifier of the thread.
    pub fn id(&self) -> (r: ThreadId)
        ensures
            r == self.spec_id(),
    {
        self.id
    }

    /// The stack of the thread.
    pub fn stack(&mut self) -> (r: &mut Stack)
        ensures
            *r == old(self).spec_stack(),
            final(self).spec_stack() == *final(r),
            final(self).spec_id() == old(self).spec_id(),
            final(self).spec_heap() == old(self).spec_heap(),
            final(self).spec_status() == old(self).spec_status(),
    {
        &mut self.stack
    }

    /// The thread stops running with its stack pointer at `old_stack`: the stack pointer is
    /// saved, unless the thread exited.
    pub fn save_stack_on_switch(&mut self, old_stack: VirtAddr)
        ensures
            !(old(self).spec_status() is Exit) ==> final(self).spec_stack().spec_current_location() == old_stack,
            old(self).spec_status() is Exit ==> final(self).spec_stack() == old(self).spec_stack(),
            final(self).spec_stack().spec_vma() == old(self).spec_stack().spec_vma(),
            final(self).spec_id() == old(self).spec_id(),
            final(self).spec_status() == old(self).spec_status(),
            final(self).spec_heap() == old(self).spec_heap(),
            final(self).spec_files() == old(self).spec_files(),
            final(self).spec_ipc_blocked_on() == old(self).spec_ipc_blocked_on(),
            final(self).spec_reply() == old(self).spec_reply(),
    {
        if !matches!(self.status, ThreadStatus::Exit(_)) {
            self.stack.set_current_location(old_stack);
        }
    }

    /// Whether the state of the thread (its stack pointer, its SIMD registers) is saved when
    /// it stops running: always, unless it exited.
    pub fn keeps_state_on_switch(&self) -> (r: bool)
        ensures
            r == !(self.spec_status() is Exit),
    {
        !matches!(self.status, ThreadStatus::Exit(_))
    }

    /// The stack pointer saved for the thread.
    pub fn stack_location(&self) -> (r: VirtAddr)
        ensures
            r == self.spec_stack().spec_current_location(),
    {
        self.stack.get_current_location()
    }

    /// Where the reply to this thread's request is stored.
    pub fn reply(&mut self) -> (r: &mut ReplyDataTcb)
        ensures
            *r == old(self).spec_reply(),
            final(self).spec_reply() == *final(r),
            final(self).spec_id() == old(self).spec_id(),
            final(self).spec_heap() == old(self).spec_heap(),
            final(self).spec_status() == old(self).spec_status(),
    {
        &mut self.reply
    }

    /// The reply to this thread's request.
    pub closed spec fn spec_reply(&self) -> ReplyDataTcb {
        self.reply
    }

    /// The heap of the thread.
    pub closed spec fn spec_heap(&self) -> LazilyMappedVma {
        self.heap
    }

    /// The state of the thread.
    pub closed spec fn spec_status(&self) -> ThreadStatus {
        self.status
    }

    /// The open files of the thread.
    pub closed spec fn spec_files(&self) -> FileDescriptorTable {
        self.file_descriptor_table
    }

    /// The scheme the thread waits on for a reply.
    pub closed spec fn spec_ipc_blocked_on(&self) -> SchemeId {
        self.ipc_blocked_on
    }

    /// Creates a runnable thread. `self_file`, the thread's own scheme, is opened first, as the
    /// pre-opened directory ".".
    pub fn new(stack: Stack, id: ThreadId, self_file: FileDescriptor) -> (r: Self)
        ensures
            r.spec_stack() == stack,
            r.spec_id() == id,
            r.spec_status() == ThreadStatus::Runnable,
            r.spec_ipc_blocked_on() == SchemeId(0),
            r.spec_reply().spec_status() == usize::MAX,
            r.spec_reply().spec_value() == 0,
            r.spec_heap().spec_allocated_size() == 0,
            r.spec_heap().spec_vma().spec_size() == 0,
            r.spec_files().wf(),
            r.spec_files().spec_used().len() == RESERVED_FILES + 1,
            ({
                let f = r.spec_files().spec_file(RESERVED_FILES as int);
                &&& f matches Some(fd)
                &&& fd.spec_scheme() == self_file.spec_scheme()
                &&& fd.spec_handle() == self_file.spec_handle()
                &&& fd.spec_pre_open_path() == Some(seq![46u8])
            }),
    {
        let mut fdt = FileDescriptorTable::new();
        let mut tmp = self_file;
        let mut path: Vec<u8> = Vec::new();
        path.push(46u8);
        proof {
            assert(path@ =~= seq![46u8]);
        }
        tmp.set_pre_open_path(path);
        fdt.insert_lowest(tmp);
        Self {
            stack,
            heap: LazilyMappedVma::dummy(),
            id,
            status: ThreadStatus::Runnable,
            file_descriptor_table: fdt,
            reply: ReplyDataTcb::new(),
            ipc_blocked_on: SchemeId::sentinel(),
        }
    }

    /// Hands out the memory areas of the thread, its stack's and its heap, so that they can be
    /// unmapped once the thread exited; the thread keeps dummy areas in their place.
    pub fn take_memory(&mut self) -> (r: (MappedVma, LazilyMappedVma))
        ensures
            r.0 == old(self).spec_stack().spec_vma(),
            r.1 == old(self).spec_heap(),
            final(self).spec_stack().spec_vma().spec_vma().spec_start()@ == 0,
            final(self).spec_stack().spec_vma().spec_vma().spec_size() == 0,
            final(self).spec_stack().spec_current_location() == old(self).spec_stack().spec_current_location(),
            final(self).spec_heap().spec_vma().spec_start()@ == 0,
            final(self).spec_heap().spec_vma().spec_size() == 0,
            final(self).spec_heap().spec_allocated_size() == 0,
            final(self).spec_id() == old(self).spec_id(),
            final(self).spec_status() == old(self).spec_status(),
            final(self).spec_files() == old(self).spec_files(),
            final(self).spec_ipc_blocked_on() == old(self).spec_ipc_blocked_on(),
            final(self).spec_reply() == old(self).spec_reply(),
    {
        let mut stack_vma = MappedVma::dummy();
        core::mem::swap(&mut stack_vma, &mut self.stack.vma);
        let mut heap = LazilyMappedVma::dummy();
        core::mem::swap(&mut heap, &mut self.heap);
        (stack_vma, heap)
    }

    /// Sets the heap of the thread (when its WebAssembly module is loaded).
    pub fn set_heap(&mut self, heap_vma: LazilyMappedVma)
        ensures
            final(self).spec_heap() == heap_vma,
            final(self).spec_status() == old(self).spec_status(),
            final(self).spec_files() == old(self).spec_files(),
            final(self).spec_ipc_blocked_on() == old(self).spec_ipc_blocked_on(),
            final(self).spec_stack() == old(self).spec_stack(),
            final(self).spec_id() == old(self).spec_id(),
    {
        self.heap = heap_vma;
    }

    /// The file descriptor table.
    pub fn file_descriptor_table(&mut self) -> (r: &mut FileDescriptorTable)
        ensures
            *r == old(self).spec_files(),
            final(self).spec_files() == *final(r),
            final(self).spec_heap() == old(self).spec_heap(),
            final(self).spec_status() == old(self).spec_status(),
            final(self).spec_ipc_blocked_on() == old(self).spec_ipc_blocked_on(),
    {
        &mut self.file_descriptor_table
    }

    /// Heap size in bytes.
    pub fn heap_size(&self) -> (r: usize)
        ensures
            r == self.spec_heap().spec_allocated_size(),
    {
        self.heap.size()
    }

    /// Grows the heap by `wasm_pages` WebAssembly pages. Returns the former size in pages, or
    /// `u32::MAX` when the heap cannot grow that much.
    pub fn heap_grow(&mut self, wasm_pages: u32) -> (r: u32)
        requires
            wasm_pages * WASM_PAGE_SIZE <= usize::MAX,
            old(self).spec_heap().spec_allocated_size() + wasm_pages * WASM_PAGE_SIZE <= usize::MAX,
        ensures
            ({
                let heap = old(self).spec_heap();
                let amount = wasm_pages * WASM_PAGE_SIZE;
                &&& heap.spec_allocated_size() + amount > heap.spec_vma().spec_size() ==> r == u32::MAX
                    && final(self).spec_heap().spec_allocated_size() == heap.spec_allocated_size()
                &&& heap.spec_allocated_size() + amount <= heap.spec_vma().spec_size() ==> r
                    == (heap.spec_allocated_size() / WASM_PAGE_SIZE) as u32
                    && final(self).spec_heap().spec_allocated_size() == heap.spec_allocated_size() + amount
                &&& final(self).spec_heap().spec_vma() == heap.spec_vma()
                &&& final(self).spec_heap().spec_flags() == heap.spec_flags()
            }),
            final(self).spec_status() == old(self).spec_status(),
            final(self).spec_files() == old(self).spec_files(),
    {
        let amount = (wasm_pages as usize) * WASM_PAGE_SIZE;
        match self.heap.expand(amount) {
            Ok(x) => {
                assert(x == old(self).spec_heap().spec_allocated_size());
                let pages = x / WASM_PAGE_SIZE;
                #[verifier::truncate]
                (pages as u32)
            },
            Err(_) => u32::MAX,
        }
    }

    /// Handles a page fault in the heap of the thread; returns the page that was mapped and must
    /// be cleared, if any.
    pub fn page_fault<M: MemoryMapper>(&mut self, mapping: &mut M, fault_addr: VirtAddr) -> (r: Option<VirtAddr>)
        requires
            old(self).spec_heap().spec_vma().spec_start()@ + old(self).spec_heap().spec_allocated_size() <= usize::MAX,
        ensures
            final(self).spec_heap() == old(self).spec_heap(),
            final(self).spec_status() == old(self).spec_status(),
            !(old(self).spec_heap().spec_vma().spec_start()@ <= fault_addr@ < old(self).spec_heap().spec_vma().spec_start()@
                + old(self).spec_heap().spec_allocated_size()) ==> r is None,
            r matches Some(page) ==> page@ == crate::arch::address::spec_align_down(fault_addr@ as int),
    {
        self.heap.try_handle_page_fault(mapping, fault_addr)
    }

    /// The request a page fault at `fault_addr` hands the mapper: when the address lies in the
    /// allocated part of the heap, its page, to be mapped with the heap's flags.
    pub fn fault_request(&self, fault_addr: VirtAddr) -> (r: Option<(VirtAddr, EntryFlags)>)
        requires
            self.spec_heap().spec_vma().spec_start()@ + self.spec_heap().spec_allocated_size() <= usize::MAX,
        ensures
            r is Some <==> self.spec_heap().spec_vma().spec_start()@ <= fault_addr@
                < self.spec_heap().spec_vma().spec_start()@ + self.spec_heap().spec_allocated_size(),
            r matches Some(q) ==> q.0@ == crate::arch::address::spec_align_down(fault_addr@ as int)
                && q.1 == self.spec_heap().spec_flags(),
    {
        self.heap.fault_request(fault_addr)
    }

    /// Sets the state.
    pub fn set_status(&mut self, new_status: ThreadStatus)
        ensures
            final(self).spec_status() == new_status,
            final(self).spec_heap() == old(self).spec_heap(),
            final(self).spec_files() == old(self).spec_files(),
            final(self).spec_ipc_blocked_on() == old(self).spec_ipc_blocked_on(),
    {
        self.status = new_status;
    }

    /// Wakes the thread up: a blocked thread becomes runnable. Returns whether it was blocked
    /// (then the scheduler puts it in front of its queue).
    pub fn wakeup(&mut self) -> (r: bool)
        ensures
            r == (old(self).spec_status() == ThreadStatus::Blocked),
            r ==> final(self).spec_status() == ThreadStatus::Runnable,
            !r ==> final(self).spec_status() == old(self).spec_status(),
            final(self).spec_heap() == old(self).spec_heap(),
            final(self).spec_files() == old(self).spec_files(),
            final(self).spec_ipc_blocked_on() == old(self).spec_ipc_blocked_on(),
    {
        if self.status == ThreadStatus::Blocked {
            self.status = ThreadStatus::Runnable;
            true
        } else {
            false
        }
    }

    /// The state.
    pub fn status(&self) -> (r: ThreadStatus)
        ensures
            r == self.spec_status(),
    {
        self.status
    }

    /// Sets the scheme the thread waits on.
    pub fn set_ipc_blocked_on(&mut self, blocked_on: SchemeId)
        ensures
            final(self).spec_ipc_blocked_on() == blocked_on,
            final(self).spec_status() == old(self).spec_status(),
            final(self).spec_heap() == old(self).spec_heap(),
            final(self).spec_files() == old(self).spec_files(),
    {
        self.ipc_blocked_on = blocked_on;
    }

    /// The scheme the thread waits on.
    pub fn ipc_blocked_on(&self) -> (r: SchemeId)
        ensures
            r == self.spec_ipc_blocked_on(),
    {
        self.ipc_blocked_on
    }
}

} // verus!

use kwast::arch::address::{PhysAddr, VirtAddr};
use kwast::arch::paging::{CpuPageMapping, EntryFlags};
use kwast::ds::nibble_array::NibbleArray;
use kwast::mm::mapper::{MemoryError, MemoryMapper, MemoryResult};
use kwast::mm::vma_allocator::{fault_page_result, LazilyMappedVma, MappableVma, MappedVma, VMAAllocator, Vma};
use kwast::tasking::file::{FileDescriptor, FileDescriptorTable, FileHandle, InnerFileHandle, MAX_FILES};
use kwast::tasking::scheduler::{next_page_mapping, switch_target, Scheduler};
use kwast::arch::cpu_data::CpuData;
use kwast::mm::vma_allocator::MapRequest;
use kwast::mm::tcb_alloc::tcb_fault_request;
use kwast::mm::page_fault_outcome;
use kwast::tasking::scheme::{CommandData, ReplyData, ReplyDataTcb, Scheme};
use kwast::arch::asid::{Asid, AsidManager};
use kwast::mm::tcb_alloc::{pagefault_tcb_alloc, tcb_fault_result, tid_to_addr, TcbPageMeta, TCB_LEN, TCB_START};
use kwast::mm::{page_fault, PageFaultOutcome, USER_START};
use kwast::tasking::protection_domain::ProtectionDomain;
use kwast::tasking::scheme_container::{Errno, SchemeContainer, SchemeId, SchemeInsertionError};
use kwast::tasking::thread::{Stack, Thread, ThreadId, ThreadStatus, WASM_PAGE_SIZE};

fn tid(n: u32) -> ThreadId {
    let mut counter = n;
    ThreadId::new(&mut counter)
}

#[test]
fn thread_ids_come_from_a_counter() {
    let mut counter: u32 = 41;
    let a = ThreadId::new(&mut counter);
    assert_eq!(a.as_u32(), 41);
    assert_eq!(counter, 42);
    let mut last: u32 = u32::MAX;
    let b = ThreadId::new(&mut last);
    assert_eq!(b.as_u32(), u32::MAX);
    assert_eq!(last, 0);
    assert_eq!(ThreadId::zero().as_u32(), 0);
}

#[test]
fn scheduler_runs_threads_round_robin() {
    let idle = tid(0);
    let mut s = Scheduler::new(idle);
    assert_eq!(s.current_thread(), idle);
    s.queue_thread(tid(1));
    s.queue_thread(tid(2));
    assert_eq!(s.pick_next(ThreadStatus::Runnable), (tid(1), None));
    assert_eq!(s.pick_next(ThreadStatus::Runnable), (tid(2), None));
    assert_eq!(s.pick_next(ThreadStatus::Runnable), (tid(1), None));
    // A blocked thread leaves the queue.
    assert_eq!(s.pick_next(ThreadStatus::Blocked), (tid(2), None));
    assert_eq!(s.pick_next(ThreadStatus::Runnable), (tid(2), None));
    // An exited thread becomes garbage.
    assert_eq!(s.pick_next(ThreadStatus::Exit(3)), (idle, Some(tid(2))));
    assert_eq!(s.take_garbage(), Some(tid(2)));
    assert_eq!(s.take_garbage(), None);
    // The idle thread is not queued.
    assert_eq!(s.pick_next(ThreadStatus::Runnable), (idle, None));
    s.move_wakeup(tid(1));
    assert_eq!(s.pick_next(ThreadStatus::Runnable), (tid(1), None));
    assert_eq!(s.current_thread(), tid(1));
    // The running thread, not the idle one.
    assert_eq!(s.current_thread_id(), tid(1));
    assert_eq!(s.idle_thread_id(), idle);
}

#[test]
fn woken_thread_runs_first() {
    let mut s = Scheduler::new(tid(0));
    s.queue_thread(tid(1));
    s.move_wakeup(tid(2));
    assert_eq!(s.pick_next(ThreadStatus::Blocked), (tid(2), None));
}

#[test]
fn page_mapping_switch_only_when_different() {
    let a = CpuPageMapping::from_raw(0x1000);
    let b = CpuPageMapping::from_raw(0x2000);
    assert_eq!(next_page_mapping(a, a), CpuPageMapping::sentinel());
    assert_eq!(next_page_mapping(a, b), b);
}

fn fd(n: u64) -> FileDescriptor {
    FileDescriptor::from(SchemeId(7), FileHandle::Inner(InnerFileHandle(n)))
}

#[test]
fn file_table_uses_lowest_free_slot_after_the_reserved_ones() {
    let mut table = FileDescriptorTable::new();
    assert_eq!(table.insert_lowest(fd(1)), Some(3));
    assert_eq!(table.insert_lowest(fd(2)), Some(4));
    assert!(table.get(0).is_none());
    let (scheme, handle) = table.get(4).unwrap().scheme_and_handle();
    assert_eq!(scheme, SchemeId(7));
    assert_eq!(handle, FileHandle::Inner(InnerFileHandle(2)));
    assert!(table.get(100).is_none());
}

#[test]
fn file_table_is_bounded() {
    let mut table = FileDescriptorTable::new();
    for i in 3..MAX_FILES {
        assert_eq!(table.insert_lowest(fd(i as u64)), Some(i));
    }
    assert_eq!(table.insert_lowest(fd(99)), None);
}

#[test]
fn file_descriptor_pre_open_path() {
    let mut f = FileDescriptor::from(SchemeId::sentinel(), FileHandle::Own);
    assert_eq!(f.pre_open_path(), None);
    f.set_pre_open_path(b"/data".to_vec());
    assert_eq!(f.pre_open_path(), Some(&b"/data"[..]));
    assert_eq!(f.scheme_and_handle(), (SchemeId(0), FileHandle::Own));
}

#[test]
fn reply_data_round_trip() {
    let mut tcb = ReplyDataTcb::new();
    assert_eq!(ReplyData::from(&tcb), ReplyData { status: usize::MAX, value: 0 });
    tcb.store(ReplyData { status: 0, value: 42 });
    assert_eq!(ReplyData::from(&tcb), ReplyData { status: 0, value: 42 });
}

#[test]
fn nibbles_are_read_back() {
    let mut n = NibbleArray::from_entries([0x21u8, 0x43]);
    assert_eq!(n.get_nibble_at(0), 1);
    assert_eq!(n.get_nibble_at(1), 2);
    assert_eq!(n.get_nibble_at(3), 4);
    n.set_nibble_at(2, 0xf);
    assert_eq!(n.get_nibble_at(2), 0xf);
    assert_eq!(n.get_nibble_at(3), 4);
    assert_eq!(NibbleArray::<2>::get_shift(5), 4);
    assert_eq!(NibbleArray::<2>::get_shift(4), 0);
}

struct Mapper {
    fail: bool,
    mapped: Vec<(usize, usize)>,
}

impl MemoryMapper for Mapper {
    fn translate(&self, _addr: VirtAddr) -> Option<PhysAddr> {
        None
    }
    fn get_and_map_single(&mut self, vaddr: VirtAddr, _flags: EntryFlags) -> MemoryResult {
        if self.fail {
            Err(MemoryError::OOM)
        } else {
            self.mapped.push((vaddr.as_usize(), 4096));
            Ok(())
        }
    }
    fn free_and_unmap_single(&mut self, _vaddr: VirtAddr) {}
    fn map_single(&mut self, _vaddr: VirtAddr, _paddr: PhysAddr, _flags: EntryFlags) -> MemoryResult {
        Ok(())
    }
    fn unmap_single(&mut self, _vaddr: VirtAddr) {}
    fn map_range_physical(&mut self, _vaddr: VirtAddr, _paddr: PhysAddr, _size: usize, _flags: EntryFlags) -> MemoryResult {
        Ok(())
    }
    fn map_range(&mut self, vaddr: VirtAddr, size: usize, _flags: EntryFlags) -> MemoryResult {
        if self.fail {
            Err(MemoryError::OOM)
        } else {
            self.mapped.push((vaddr.as_usize(), size));
            Ok(())
        }
    }
    fn unmap_range(&mut self, _vaddr: VirtAddr, _size: usize) {}
    fn free_and_unmap_range(&mut self, _vaddr: VirtAddr, _size: usize) {}
    fn change_flags_range(&mut self, _vaddr: VirtAddr, _size: usize, _flags: EntryFlags) -> MemoryResult {
        Ok(())
    }
}

#[test]
fn vma_allocator_takes_from_the_end_of_a_region() {
    let mut allocator = VMAAllocator::new();
    allocator.insert_region(VirtAddr::new(0x10_0000), 0x10_0000);
    assert_eq!(allocator.alloc_region(0x1000), Some(VirtAddr::new(0x1f_f000)));
    let vma = Vma::create(&mut allocator, 0x2000).unwrap();
    assert_eq!(vma.address(), VirtAddr::new(0x1f_d000));
    assert_eq!(vma.size(), 0x2000);
    assert!(Vma::create(&mut allocator, 0x20_0000).is_err());
    assert_eq!(allocator.tree_height(), 1);
}

#[test]
fn vma_mapping_checks_its_range() {
    let mut allocator = VMAAllocator::new();
    allocator.insert_region(VirtAddr::new(0x10_0000), 0x10_0000);
    let mut mapper = Mapper { fail: false, mapped: Vec::new() };
    let vma = Vma::create(&mut allocator, 0x4000).unwrap();
    let start = vma.address().as_usize();
    assert!(matches!(vma.map(&mut mapper, &mut allocator, 0x4000, 0x1000, EntryFlags::present()), Err(MemoryError::InvalidRange)));
    let vma = Vma::create(&mut allocator, 0x4000).unwrap();
    let start2 = vma.address().as_usize();
    let mapped: MappedVma = vma.map(&mut mapper, &mut allocator, 0x1000, 0x2000, EntryFlags::present()).unwrap();
    assert_eq!(mapper.mapped, vec![(start2 + 0x1000, 0x2000)]);
    assert_eq!(mapped.address().as_usize(), start2);
    assert_eq!(mapped.size(), 0x4000);
    assert!(!mapped.is_dummy());
    assert!(MappedVma::dummy().is_dummy());
    // The area refused for its range went back to the allocator, and was taken again.
    assert_eq!(start, start2);
    let mut failing = Mapper { fail: true, mapped: Vec::new() };
    let vma = Vma::create(&mut allocator, 0x1000).unwrap();
    let failed_at = vma.address();
    assert!(matches!(vma.map(&mut failing, &mut allocator, 0, 0x1000, EntryFlags::present()), Err(MemoryError::OOM)));
    // A failed mapping gives the area back too.
    assert_eq!(Vma::create(&mut allocator, 0x1000).unwrap().address(), failed_at);
    let vma = Vma::create(&mut allocator, 0x1000).unwrap();
    let at = vma.address();
    assert!(matches!(MappedVma::from_mapping(vma, &mut allocator, Err(MemoryError::OOM)), Err(MemoryError::OOM)));
    let vma = Vma::create(&mut allocator, 0x1000).unwrap();
    assert_eq!(vma.address(), at);
    assert_eq!(MappedVma::from_mapping(vma, &mut allocator, Ok(())).ok().unwrap().address(), at);
}

#[test]
fn lazily_mapped_vma_grows_and_handles_faults() {
    let mut allocator = VMAAllocator::new();
    allocator.insert_region(VirtAddr::new(0x10_0000), 0x10_0000);
    let mut mapper = Mapper { fail: false, mapped: Vec::new() };
    let vma = Vma::create(&mut allocator, 0x8000).unwrap();
    let start = vma.address().as_usize();
    let mut lazy: LazilyMappedVma = vma.map_lazily(&mut mapper, 0, EntryFlags::present()).unwrap();
    assert_eq!(lazy.size(), 0);
    assert_eq!(lazy.expand(0x2000), Ok(0));
    assert_eq!(lazy.expand(0x2000), Ok(0x2000));
    assert_eq!(lazy.expand(0x8000), Err(MemoryError::InvalidRange));
    assert_eq!(lazy.size(), 0x4000);
    assert_eq!(lazy.flags(), EntryFlags::present());
    assert!(lazy.is_contained(VirtAddr::new(start + 0x3fff)));
    assert!(!lazy.is_contained(VirtAddr::new(start + 0x4000)));
    assert_eq!(lazy.try_handle_page_fault(&mut mapper, VirtAddr::new(start + 0x1234)), Some(VirtAddr::new(start + 0x1000)));
    assert_eq!(lazy.try_handle_page_fault(&mut mapper, VirtAddr::new(start + 0x5000)), None);
    let mut failing = Mapper { fail: true, mapped: Vec::new() };
    assert_eq!(lazy.try_handle_page_fault(&mut failing, VirtAddr::new(start)), None);
    assert_eq!(LazilyMappedVma::dummy().size(), 0);
}

#[test]
fn thread_stack_starts_at_the_end_of_its_area() {
    let mut allocator = VMAAllocator::new();
    allocator.insert_region(VirtAddr::new(0x10_0000), 0x10_0000);
    let mut mapper = Mapper { fail: false, mapped: Vec::new() };
    let vma = Vma::create(&mut allocator, 0x4000).unwrap();
    let end = vma.address().as_usize() + 0x4000;
    let mapped = vma.map(&mut mapper, &mut allocator, 0, 0x4000, EntryFlags::present()).unwrap();
    let mut stack = Stack::new(mapped);
    assert_eq!(stack.get_current_location().as_usize(), end);
    stack.set_current_location(VirtAddr::new(end - 0x100));
    assert_eq!(stack.get_current_location().as_usize(), end - 0x100);
}

#[test]
fn thread_stack_push_and_trampoline_frame() {
    let mut allocator = VMAAllocator::new();
    allocator.insert_region(VirtAddr::new(0x10_0000), 0x10_0000);
    let mut mapper = Mapper { fail: false, mapped: Vec::new() };
    let vma = Vma::create(&mut allocator, 0x4000).unwrap();
    let end = vma.address().as_usize() + 0x4000;
    let mapped = vma.map(&mut mapper, &mut allocator, 0, 0x4000, EntryFlags::present()).unwrap();
    let mut stack = Stack::new(mapped);
    assert_eq!(stack.push(7), (VirtAddr::new(end - 8), 7));
    assert_eq!(stack.get_current_location().as_usize(), end - 8);

    let top = end - 8;
    let writes = stack.prepare_trampoline(0xdead_0000, VirtAddr::new(0x40_1000), 42);
    let expected: Vec<(VirtAddr, u64)> = [0xdead_0000u64, 0x202, 0x40_1000, 42, 0, 0, 0, 0]
        .iter()
        .enumerate()
        .map(|(i, v)| (VirtAddr::new(top - 8 * (i + 1)), *v))
        .collect();
    assert_eq!(writes, expected);
    assert_eq!(stack.get_current_location().as_usize(), top - 64);
}

#[test]
fn thread_control_block_slots() {
    assert_eq!(TCB_START, 1 << 30);
    assert_eq!(TCB_LEN, 1 << 30);
    assert_eq!(tid_to_addr(tid(0), 8), (TCB_START, 0));
    assert_eq!(tid_to_addr(tid(7), 8), (TCB_START, 7));
    assert_eq!(tid_to_addr(tid(8), 8), (TCB_START + 4096, 0));
    assert_eq!(tid_to_addr(tid(21), 8), (TCB_START + 2 * 4096, 5));
    assert_eq!(tid_to_addr(tid(21), 16), (TCB_START + 4096, 5));
}

#[test]
fn scheme_container_names_are_unique() {
    let mut schemes = SchemeContainer::new();
    assert_eq!(schemes.insert(b"self".to_vec()), Ok(()));
    assert_eq!(schemes.insert(b"net".to_vec()), Ok(()));
    assert_eq!(schemes.insert(b"self".to_vec()), Err(SchemeInsertionError::NameAlreadyTaken));
    // Identifiers start at 1; 0 is the sentinel.
    let fd = schemes.open_self(b"net").ok().unwrap();
    assert_eq!(fd.scheme_and_handle(), (SchemeId(2), FileHandle::Own));
    assert!(fd.pre_open_path().is_none());
    let fd = schemes.open_self(b"self").ok().unwrap();
    assert_eq!(fd.scheme_and_handle(), (SchemeId(1), FileHandle::Own));
    assert!(matches!(schemes.open_self(b"disk"), Err(Errno::NoDev)));
    // A refused name does not use up an identifier.
    assert_eq!(schemes.insert(b"disk".to_vec()), Ok(()));
    assert_eq!(schemes.open_self(b"disk").ok().unwrap().scheme_and_handle(), (SchemeId(3), FileHandle::Own));
}

#[test]
fn thread_starts_runnable_with_its_own_scheme_open() {
    let mut t = Thread::new(Stack::new(MappedVma::dummy()), tid(3), FileDescriptor::from(SchemeId(0), FileHandle::Own));
    assert_eq!(t.id(), tid(3));
    assert_eq!(t.status(), ThreadStatus::Runnable);
    assert_eq!(t.ipc_blocked_on(), SchemeId(0));
    assert_eq!(t.heap_size(), 0);
    let table = t.file_descriptor_table();
    let fd = table.get(3).unwrap();
    assert_eq!(fd.scheme_and_handle(), (SchemeId(0), FileHandle::Own));
    assert_eq!(fd.pre_open_path(), Some(&b"."[..]));
    assert!(table.get(0).is_none());

    // Only a blocked thread is woken up.
    assert!(!t.wakeup());
    t.set_status(ThreadStatus::Blocked);
    assert!(t.wakeup());
    assert_eq!(t.status(), ThreadStatus::Runnable);
    t.set_ipc_blocked_on(SchemeId(4));
    assert_eq!(t.ipc_blocked_on(), SchemeId(4));

    // Growing a thread's heap is counted in WebAssembly pages.
    let mut allocator = VMAAllocator::new();
    allocator.insert_region(VirtAddr::new(0x100_0000), 0x100_0000);
    let mut mapper = Mapper { fail: false, mapped: Vec::new() };
    let vma = Vma::create(&mut allocator, 4 * WASM_PAGE_SIZE).unwrap();
    t.set_heap(vma.map_lazily(&mut mapper, 0, EntryFlags::present()).unwrap());
    assert_eq!(t.heap_grow(1), 0);
    assert_eq!(t.heap_grow(2), 1);
    assert_eq!(t.heap_size(), 3 * WASM_PAGE_SIZE);
    assert_eq!(t.heap_grow(2), u32::MAX);

    // No reply yet; a stored reply is read back.
    assert_eq!(ReplyData::from(t.reply()), ReplyData { status: usize::MAX, value: 0 });
    t.reply().store(ReplyData { status: 0, value: 99 });
    assert_eq!(ReplyData::from(t.reply()), ReplyData { status: 0, value: 99 });
}

#[test]
fn scheme_serves_commands_in_order() {
    let mut scheme = Scheme::new();
    assert_eq!(scheme.test(0), None);
    scheme.send_blocking(CommandData::Open, tid(4));
    scheme.send_blocking(CommandData::Open, tid(9));
    assert_eq!(scheme.test(0), Some(tid(4)));
    assert_eq!(scheme.test(0), Some(tid(9)));
    assert_eq!(scheme.test(0), None);
}

#[test]
fn scheme_open_reply_gives_handle_or_status() {
    assert_eq!(Scheme::open(ReplyData { status: 0, value: 17 }), Ok(FileHandle::Inner(InnerFileHandle(17))));
    assert_eq!(Scheme::open(ReplyData { status: 5, value: 17 }), Err(5));
}

#[test]
fn page_fault_maps_heap_pages_and_sorts_out_the_rest() {
    let mut t = Thread::new(Stack::new(MappedVma::dummy()), tid(1), FileDescriptor::from(SchemeId(1), FileHandle::Own));
    let mut allocator = VMAAllocator::new();
    let user = USER_START as usize;
    allocator.insert_region(VirtAddr::new(user), 0x100_0000);
    let mut mapper = Mapper { fail: false, mapped: Vec::new() };
    let vma = Vma::create(&mut allocator, 0x4000).unwrap();
    let heap_start = vma.address().as_usize();
    t.set_heap(vma.map_lazily(&mut mapper, 0x2000, EntryFlags::present()).unwrap());
    let ip = VirtAddr::new(user + 0x10);
    assert_eq!(
        page_fault(&mut t, &mut mapper, VirtAddr::new(heap_start + 0x1008), ip),
        PageFaultOutcome::Handled(VirtAddr::new(heap_start + 0x1000))
    );
    // Past what the heap has grown to: the thread is killed.
    assert_eq!(page_fault(&mut t, &mut mapper, VirtAddr::new(heap_start + 0x3000), ip), PageFaultOutcome::KillThread);
    // A kernel address, or kernel code: a kernel fault.
    assert_eq!(page_fault(&mut t, &mut mapper, VirtAddr::new(0x1000), ip), PageFaultOutcome::KernelFault);
    assert_eq!(page_fault(&mut t, &mut mapper, VirtAddr::new(heap_start + 0x3000), VirtAddr::new(0x20_0000)), PageFaultOutcome::KernelFault);
    // Mapping may fail: then the fault is not handled either.
    let mut failing = Mapper { fail: true, mapped: Vec::new() };
    assert_eq!(page_fault(&mut t, &mut failing, VirtAddr::new(heap_start), ip), PageFaultOutcome::KillThread);
}

#[test]
fn protection_domain_takes_an_asid_when_its_own_is_stale() {
    let mut domain = ProtectionDomain::from_existing_mapping(CpuPageMapping::from_raw(0x5000));
    // No valid identifier yet: the plain mapping.
    assert_eq!(domain.cpu_page_mapping(), CpuPageMapping::from_raw(0x5000));
    let mut manager = AsidManager::new();
    // Generation 0 is the manager's too: the null identifier counts as valid there.
    assert_eq!(domain.assign_asid_if_necessary(&mut manager), None);
    assert_eq!(domain.cpu_page_mapping(), CpuPageMapping::from_raw(0x5000));
    assert_eq!(domain.vma_allocator().tree_height(), 0);
    // Use up generation 0, and start generation 1 (its first call takes number 0 back).
    for _ in 0..4096 {
        manager.allocate(Asid::null());
    }
    let (first, _) = manager.allocate(Asid::null());
    assert_eq!((first.generation(), first.as_u64()), (1, 0));
    // The domain's identifier is stale now: it gets the lowest free one, to be invalidated.
    assert_eq!(domain.assign_asid_if_necessary(&mut manager), Some(1));
    assert_eq!(domain.cpu_page_mapping(), CpuPageMapping::from_raw(0x8000_0000_0000_5001));
    // And keeps it while it is valid.
    assert_eq!(domain.assign_asid_if_necessary(&mut manager), None);
}

/// A mapper that records what it is asked to do.
struct Recorder {
    calls: Vec<String>,
}

impl MemoryMapper for Recorder {
    fn translate(&self, _addr: VirtAddr) -> Option<PhysAddr> {
        None
    }
    fn get_and_map_single(&mut self, vaddr: VirtAddr, _flags: EntryFlags) -> MemoryResult {
        self.calls.push(format!("get_and_map_single {:#x}", vaddr.as_usize()));
        Ok(())
    }
    fn free_and_unmap_single(&mut self, vaddr: VirtAddr) {
        self.calls.push(format!("free_and_unmap_single {:#x}", vaddr.as_usize()));
    }
    fn map_single(&mut self, vaddr: VirtAddr, paddr: PhysAddr, _flags: EntryFlags) -> MemoryResult {
        self.calls.push(format!("map_single {:#x} {:#x}", vaddr.as_usize(), paddr.as_usize()));
        Ok(())
    }
    fn unmap_single(&mut self, vaddr: VirtAddr) {
        self.calls.push(format!("unmap_single {:#x}", vaddr.as_usize()));
    }
    fn map_range_physical(&mut self, vaddr: VirtAddr, paddr: PhysAddr, size: usize, flags: EntryFlags) -> MemoryResult {
        self.calls.push(format!("map_range_physical {:#x} {:#x} {:#x} {:#x}", vaddr.as_usize(), paddr.as_usize(), size, flags.bits()));
        Ok(())
    }
    fn map_range(&mut self, vaddr: VirtAddr, size: usize, _flags: EntryFlags) -> MemoryResult {
        self.calls.push(format!("map_range {:#x} {:#x}", vaddr.as_usize(), size));
        Ok(())
    }
    fn unmap_range(&mut self, vaddr: VirtAddr, size: usize) {
        self.calls.push(format!("unmap_range {:#x} {:#x}", vaddr.as_usize(), size));
    }
    fn free_and_unmap_range(&mut self, vaddr: VirtAddr, size: usize) {
        self.calls.push(format!("free_and_unmap_range {:#x} {:#x}", vaddr.as_usize(), size));
    }
    fn change_flags_range(&mut self, _vaddr: VirtAddr, _size: usize, _flags: EntryFlags) -> MemoryResult {
        Ok(())
    }
}

#[test]
fn areas_go_back_when_destroyed() {
    let mut allocator = VMAAllocator::new();
    allocator.insert_region(VirtAddr::new(0x10_0000), 0x10_0000);
    let mut rec = Recorder { calls: Vec::new() };

    let vma = Vma::create(&mut allocator, 0x2000).unwrap();
    vma.destroy(&mut allocator);
    Vma::dummy().destroy(&mut allocator);

    let mapped = Vma::create(&mut allocator, 0x4000).unwrap().map(&mut rec, &mut allocator, 0, 0x4000, EntryFlags::present()).unwrap();
    mapped.destroy(&mut rec, &mut allocator);

    let mut lazy = Vma::create(&mut allocator, 0x8000).unwrap().map_lazily(&mut rec, 0, EntryFlags::present()).unwrap();
    assert_eq!(lazy.expand(0x3000), Ok(0));
    lazy.destroy(&mut rec, &mut allocator);

    assert_eq!(
        rec.calls,
        vec![
            "map_range 0x1fc000 0x4000".to_string(),
            "free_and_unmap_range 0x1fc000 0x4000".to_string(),
            "map_range 0x1f8000 0x0".to_string(),
            "free_and_unmap_range 0x1f8000 0x3000".to_string(),
        ]
    );
    // Everything came back: the whole region is free again, in one piece.
    assert_eq!(allocator.alloc_region(0x10_0000), Some(VirtAddr::new(0x10_0000)));
}

#[test]
fn destroyed_domain_frees_its_top_level_table() {
    let mut current = VMAAllocator::new();
    current.insert_region(VirtAddr::new(0x10_0000), 0x10_0000);
    let mut rec = Recorder { calls: Vec::new() };
    let domain = ProtectionDomain::from_existing_mapping(CpuPageMapping::from_raw(0x8000_0000_0005_0000));
    domain.destroy(&mut current, &mut rec);
    assert_eq!(
        rec.calls,
        vec![
            "map_range_physical 0x1ff000 0x50000 0x1000 0x8000000000000003".to_string(),
            "free_and_unmap_single 0x1ff000".to_string(),
        ]
    );
    // The page it was mapped at stays taken.
    assert_eq!(current.alloc_region(0x10_0000), None);
    assert_eq!(current.alloc_region(0xff000), Some(VirtAddr::new(0x10_0000)));
}

#[test]
fn tcb_page_slots_are_tracked_by_bits() {
    let mut meta = TcbPageMeta::new();
    meta.take_slot(0);
    meta.take_slot(3);
    // A slot that holds no block has nothing to drop.
    assert_eq!(meta.release_slot(5), (false, false));
    assert_eq!(meta.release_slot(3), (true, false));
    // The last block leaves: the page can go.
    assert_eq!(meta.release_slot(0), (true, true));
    assert_eq!(meta.release_slot(0), (false, false));
}

#[test]
fn tcb_page_fault_maps_the_faulting_page_once() {
    let mut mapper = Mapper { fail: false, mapped: Vec::new() };
    assert_eq!(pagefault_tcb_alloc(&mut mapper, VirtAddr::new(TCB_START + 0x1234), true), Ok(Some(VirtAddr::new(TCB_START + 0x1000))));
    assert_eq!(mapper.mapped, vec![(TCB_START + 0x1000, 4096)]);
    let mut failing = Mapper { fail: true, mapped: Vec::new() };
    assert_eq!(pagefault_tcb_alloc(&mut failing, VirtAddr::new(TCB_START), true), Err(MemoryError::OOM));
}

#[test]
fn mapper_answers_decide_fault_results() {
    let page = VirtAddr::new(0x40_1000);
    assert_eq!(fault_page_result(page, Ok(())), Some(page));
    assert_eq!(fault_page_result(page, Err(MemoryError::OOM)), None);
    assert_eq!(tcb_fault_result(page, Ok(())), Ok(Some(page)));
    assert_eq!(tcb_fault_result(page, Err(MemoryError::OOM)), Err(MemoryError::OOM));

    let mut allocator = VMAAllocator::new();
    allocator.insert_region(VirtAddr::new(0x10_0000), 0x10_0000);
    let vma = Vma::create(&mut allocator, 0x4000).unwrap();
    let start = vma.address();
    let lazy = LazilyMappedVma::from_mapping(vma, 0x1000, EntryFlags::present(), Ok(())).ok().unwrap();
    assert_eq!((lazy.address(), lazy.size(), lazy.flags()), (start, 0x1000, EntryFlags::present()));
    let vma = Vma::create(&mut allocator, 0x4000).unwrap();
    assert!(matches!(LazilyMappedVma::from_mapping(vma, 0x1000, EntryFlags::present(), Err(MemoryError::OOM)), Err(MemoryError::OOM)));
}

#[test]
fn switch_saves_the_stack_and_picks_the_next_thread() {
    let idle = tid(0);
    let self_fd = || FileDescriptor::from(SchemeId(1), FileHandle::Own);
    let mut s = Scheduler::new(idle);
    let mut idle_thread = Thread::new(Stack::new(MappedVma::dummy()), idle, self_fd());
    let mut other = Thread::new(Stack::new(MappedVma::dummy()), tid(1), self_fd());
    other.stack().set_current_location(VirtAddr::new(0x7000));
    s.queue_thread(tid(1));
    // The idle thread stops at 0x5000; thread 1 runs next, in another address space.
    assert_eq!(s.switch_from(&mut idle_thread, VirtAddr::new(0x5000)), (tid(1), None));
    assert_eq!(idle_thread.stack_location(), VirtAddr::new(0x5000));
    let (a, b) = (CpuPageMapping::from_raw(0x1000), CpuPageMapping::from_raw(0x2000));
    assert_eq!(switch_target(&other, a, b), (VirtAddr::new(0x7000), b));
    assert_eq!(switch_target(&other, a, a), (VirtAddr::new(0x7000), CpuPageMapping::sentinel()));
    // An exited thread keeps its stack pointer and becomes garbage.
    assert!(other.keeps_state_on_switch());
    other.set_status(ThreadStatus::Exit(0));
    assert!(!other.keeps_state_on_switch());
    assert_eq!(s.switch_from(&mut other, VirtAddr::new(0x6000)), (idle, Some(tid(1))));
    assert_eq!(other.stack_location(), VirtAddr::new(0x7000));
    assert_eq!(s.current_thread_id(), idle);
}

/// An area at `start` of `size` bytes, cut from an allocator of its own.
fn area(start: usize, size: usize) -> Vma {
    let mut other = VMAAllocator::new();
    other.insert_region(VirtAddr::new(start), size);
    Vma::create(&mut other, size).unwrap()
}

#[test]
fn vma_allocator_takes_back_only_areas_that_are_not_free() {
    let mut allocator = VMAAllocator::new();
    allocator.insert_region(VirtAddr::new(0x10_0000), 0x10_0000);
    // Overlapping the free region, at either end or inside.
    assert!(!allocator.takes_back(&area(0x1f_f000, 0x2000)));
    assert!(!allocator.takes_back(&area(0xf_f000, 0x2000)));
    assert!(!allocator.takes_back(&area(0x15_0000, 0x1000)));
    // Right before or after it: fine.
    assert!(allocator.takes_back(&area(0xf_f000, 0x1000)));
    assert!(allocator.takes_back(&area(0x20_0000, 0x3000)));
    assert!(allocator.takes_back(&area(0xffff_8000_0000_0000, 0x2000)));
    // The dummy area.
    assert!(allocator.takes_back(&Vma::dummy()));
}

#[test]
fn exited_thread_hands_out_its_memory() {
    let mut allocator = VMAAllocator::new();
    allocator.insert_region(VirtAddr::new(0x10_0000), 0x10_0000);
    let vma = Vma::create(&mut allocator, 0x4000).unwrap();
    let stack_start = vma.address();
    let stack_vma = MappedVma::from_mapping(vma, &mut allocator, Ok(())).ok().unwrap();
    let self_fd = FileDescriptor::from(SchemeId(1), FileHandle::Own);
    let mut t = Thread::new(Stack::new(stack_vma), tid(5), self_fd);
    let heap_vma = Vma::create(&mut allocator, 0x2000).unwrap();
    let heap_start = heap_vma.address();
    let heap = LazilyMappedVma::from_mapping(heap_vma, 0x1000, EntryFlags::present(), Ok(())).ok().unwrap();
    t.set_heap(heap);
    let location = t.stack_location();
    let (stack, heap) = t.take_memory();
    assert_eq!((stack.address(), stack.size()), (stack_start, 0x4000));
    assert_eq!((heap.address(), heap.size()), (heap_start, 0x1000));
    assert_eq!(heap.vma().size(), 0x2000);
    assert_eq!(t.heap_size(), 0);
    assert_eq!(t.stack_location(), location);
    // Both areas can go back: they are not free.
    assert!(allocator.takes_back(stack.vma()));
    let mut mapper = Mapper { fail: false, mapped: Vec::new() };
    stack.destroy(&mut mapper, &mut allocator);
    assert!(allocator.takes_back(heap.vma()));
    heap.destroy(&mut mapper, &mut allocator);
    // Everything is free again: one region.
    assert_eq!(Vma::create(&mut allocator, 0x10_0000).unwrap().address(), VirtAddr::new(0x10_0000));
}

#[test]
fn next_thread_state_saves_picks_and_returns_where_to_go() {
    let idle = tid(0);
    let self_fd = || FileDescriptor::from(SchemeId(1), FileHandle::Own);
    let mut s = Scheduler::new(idle);
    let mut threads = vec![
        Thread::new(Stack::new(MappedVma::dummy()), idle, self_fd()),
        Thread::new(Stack::new(MappedVma::dummy()), tid(1), self_fd()),
    ];
    threads[1].stack().set_current_location(VirtAddr::new(0x7000));
    let mut domains = vec![
        ProtectionDomain::from_existing_mapping(CpuPageMapping::from_raw(0x1000)),
        ProtectionDomain::from_existing_mapping(CpuPageMapping::from_raw(0x2000)),
    ];
    let mut cpu = CpuData::new();
    s.queue_thread(tid(1));
    // The idle thread stops at 0x5000; thread 1 runs next, in another address space.
    let out = s.next_thread_state(&mut threads, &mut domains, &mut cpu, VirtAddr::new(0x5000)).unwrap();
    assert_eq!(out.next, tid(1));
    assert_eq!((out.stack, out.mapping), (VirtAddr::new(0x7000), CpuPageMapping::from_raw(0x2000)));
    assert_eq!((out.garbage, out.exited, out.invalidate), (None, None, None));
    assert!(out.save_old_state);
    assert_eq!(threads[0].stack_location(), VirtAddr::new(0x5000));
    assert_eq!(s.current_thread_id(), tid(1));
    // Thread 1 exits: back to the idle thread; thread 1 is the garbage of the next switch.
    threads[1].set_status(ThreadStatus::Exit(0));
    let out = s.next_thread_state(&mut threads, &mut domains, &mut cpu, VirtAddr::new(0x6000)).unwrap();
    assert_eq!((out.next, out.exited, out.garbage), (idle, Some(tid(1)), None));
    assert!(!out.save_old_state);
    assert_eq!((out.stack, out.mapping), (VirtAddr::new(0x5000), CpuPageMapping::from_raw(0x1000)));
    assert_eq!(threads[1].stack_location(), VirtAddr::new(0x7000));
    // The idle thread goes on in the same address space: the sentinel; the garbage is handed out.
    let out = s.next_thread_state(&mut threads, &mut domains, &mut cpu, VirtAddr::new(0x4000)).unwrap();
    assert_eq!((out.next, out.garbage), (idle, Some(tid(1))));
    assert_eq!((out.stack, out.mapping), (VirtAddr::new(0x4000), CpuPageMapping::sentinel()));
    // A running thread that the table does not hold: nothing happens.
    let mut empty_threads: Vec<Thread> = Vec::new();
    let mut empty_domains: Vec<ProtectionDomain> = Vec::new();
    assert!(s.next_thread_state(&mut empty_threads, &mut empty_domains, &mut cpu, VirtAddr::new(0x4000)).is_none());
    assert_eq!(s.current_thread_id(), idle);
}

#[test]
fn mapper_requests_name_the_pages_to_map() {
    let mut allocator = VMAAllocator::new();
    allocator.insert_region(VirtAddr::new(0x10_0000), 0x10_0000);
    let vma = Vma::create(&mut allocator, 0x4000).unwrap();
    let start = vma.address().as_usize();
    let flags = EntryFlags::present().union(EntryFlags::writable());
    assert_eq!(
        vma.map_request(0x1000, 0x2000, flags),
        Ok(MapRequest { vaddr: VirtAddr::new(start + 0x1000), size: 0x2000, flags })
    );
    assert_eq!(vma.map_request(0x4000, 0, flags), Err(MemoryError::InvalidRange));
    assert_eq!(vma.map_request(0x2000, 0x3000, flags), Err(MemoryError::InvalidRange));
    assert_eq!(vma.lazy_map_request(0x1000, flags), MapRequest { vaddr: VirtAddr::new(start), size: 0x1000, flags });
    let heap = LazilyMappedVma::from_mapping(vma, 0x2000, flags, Ok(())).ok().unwrap();
    assert_eq!(heap.fault_request(VirtAddr::new(start + 0x1234)), Some((VirtAddr::new(start + 0x1000), flags)));
    assert_eq!(heap.fault_request(VirtAddr::new(start + 0x2000)), None);
    let (page, tcb_flags) = tcb_fault_request(VirtAddr::new(0x1234_5678));
    assert_eq!(page, VirtAddr::new(0x1234_5000));
    assert_eq!(tcb_flags.bits(), 0x8000_0000_0000_0103);
}

#[test]
fn page_fault_outcome_follows_the_heap_answer() {
    let user = VirtAddr::new(USER_START as usize + 0x1000);
    let kernel = VirtAddr::new(0x1000);
    assert_eq!(page_fault_outcome(Some(VirtAddr::new(0x5000)), kernel, kernel), PageFaultOutcome::Handled(VirtAddr::new(0x5000)));
    assert_eq!(page_fault_outcome(None, kernel, user), PageFaultOutcome::KernelFault);
    assert_eq!(page_fault_outcome(None, user, kernel), PageFaultOutcome::KernelFault);
    assert_eq!(page_fault_outcome(None, user, user), PageFaultOutcome::KillThread);
}

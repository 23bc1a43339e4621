//! Hardware memory protection domains: an address space, the allocator of its areas, and the
//! address space identifier it last ran under.
use vstd::prelude::*;
use crate::arch::asid::{
    Asid, AsidManager, asid_count, reuses, rolled_free, rolled_fresh, rolled_generation,
};
use crate::arch::paging::CpuPageMapping;
use crate::arch::address::PAGE_SIZE;
use crate::arch::paging::EntryFlags;
use crate::mm::avl_interval_tree::carve;
use crate::mm::mapper::MemoryMapper;
use crate::mm::vma_allocator::VMAAllocator;

verus! {

/// What giving a domain an address space identifier does: `prev` is the identifier it had,
/// `a` the one it has after, `m` and `m2` the manager before and after, `r` the identifier bit
/// whose stale translations must be invalidated. An identifier of the manager's generation is
/// kept; otherwise the manager rolls over to the next generation when its numbers ran out, and
/// the domain gets its previous number back when nobody took it in the meantime, or else the
/// lowest free number.
pub open spec fn asid_assignment(prev: Asid, a: Asid, m: AsidManager, m2: AsidManager, r: Option<u64>) -> bool {
    &&& prev.spec_generation() == m.spec_generation() ==> a == prev && r is None && m2 == m
    &&& prev.spec_generation() != m.spec_generation() ==> {
        &&& a.spec_generation() == rolled_generation(m)
        &&& m2.spec_generation() == rolled_generation(m)
        &&& rolled_free(m).contains(a.spec_number() as int)
        &&& !m2.free_set().contains(a.spec_number() as int)
        &&& reuses(m, prev) ==> a.spec_number() == prev.spec_number() && r is None
            && m2.free_set() == rolled_free(m).remove(prev.spec_number() as int)
            && m2.fresh_set() == rolled_fresh(m).remove(prev.spec_number() as int)
        &&& !reuses(m, prev) ==> (forall|n: int| #[trigger] rolled_free(m).contains(n) ==> a.spec_number() <= n)
            && r == Some((a.spec_number() % 64) as u64)
            && m2.free_set() == rolled_free(m).remove(a.spec_number() as int)
            && m2.fresh_set() == rolled_fresh(m).remove(a.spec_number() as int)
    }
}

/// Within one generation no number is handed out twice: when one domain got a new identifier
/// and then another domain got a new identifier of the same generation from the same manager,
/// the two numbers differ.
pub proof fn lemma_new_asids_differ(
    prev1: Asid,
    a1: Asid,
    prev2: Asid,
    a2: Asid,
    m0: AsidManager,
    m1: AsidManager,
    m2: AsidManager,
    r1: Option<u64>,
    r2: Option<u64>,
)
    requires
        prev1.spec_generation() != m0.spec_generation(),
        asid_assignment(prev1, a1, m0, m1, r1),
        prev2.spec_generation() != m1.spec_generation(),
        asid_assignment(prev2, a2, m1, m2, r2),
        a1.spec_generation() == a2.spec_generation(),
    ensures
        a1.spec_number() != a2.spec_number(),
{
    if m1.free_set() == Set::<int>::empty() {
        assert(rolled_generation(m1) != m1.spec_generation());
    }
}

/// Hardware memory protection domain.
pub struct ProtectionDomain {
    vma_allocator: VMAAllocator,
    mapping: CpuPageMapping,
    current_asid: Asid,
}

impl ProtectionDomain {
    /// The page mapping of the domain, without an address space identifier.
    pub closed spec fn spec_mapping(&self) -> CpuPageMapping {
        self.mapping
    }

    /// The address space identifier the domain last got.
    pub closed spec fn spec_asid(&self) -> Asid {
        self.current_asid
    }

    /// The allocator of the domain's areas.
    pub closed spec fn spec_vma_allocator(&self) -> VMAAllocator {
        self.vma_allocator
    }

    /// The identifier of the domain is a proper one, and its allocator is well formed.
    pub closed spec fn wf(&self) -> bool {
        &&& self.current_asid.spec_number() < asid_count()
        &&& self.vma_allocator.wf()
    }

    /// Creates a domain from an existing cpu page mapping: no areas yet, and the null
    /// identifier, whose generation is never a valid one.
    pub fn from_existing_mapping(mapping: CpuPageMapping) -> (r: Self)
        ensures
            r.wf(),
            r.spec_mapping() == mapping,
            r.spec_asid().spec_generation() == 0,
            r.spec_asid().spec_number() == 0,
            r.spec_vma_allocator()@ == Map::<usize, usize>::empty(),
    {
        Self { vma_allocator: VMAAllocator::new(), mapping, current_asid: Asid::null() }
    }

    /// Gives the domain a new address space identifier when the one it has is from another
    /// generation. Returns the identifier bit whose stale translations must be invalidated,
    /// if any.
    pub fn assign_asid_if_necessary(&mut self, asid_manager: &mut AsidManager) -> (r: Option<u64>)
        requires
            old(self).wf(),
            old(asid_manager).wf(),
        ensures
            final(self).wf(),
            final(asid_manager).wf(),
            final(self).spec_mapping() == old(self).spec_mapping(),
            final(self).spec_vma_allocator() == old(self).spec_vma_allocator(),
            asid_assignment(old(self).spec_asid(), final(self).spec_asid(), *old(asid_manager), *final(asid_manager), r),
    {
        if !asid_manager.is_valid(self.current_asid) {
            let (asid, invalidate) = asid_manager.allocate(self.current_asid);
            proof {
                assert(asid.spec_number() < asid_count());
            }
            self.current_asid = asid;
            invalidate
        } else {
            None
        }
    }

    /// The value of the cpu page mapping: with the no-flush bit and the domain's address space
    /// identifier once it has one of a generation past the first.
    pub open spec fn spec_cpu_page_mapping(&self) -> u64 {
        if self.spec_asid().spec_generation() > 0 {
            0x8000_0000_0000_0000u64 | self.spec_mapping()@ | (self.spec_asid().spec_number() as u64)
        } else {
            self.spec_mapping()@
        }
    }

    /// Gets the cpu page mapping: with the domain's address space identifier once it has a
    /// valid one.
    #[inline]
    pub fn cpu_page_mapping(&self) -> (r: CpuPageMapping)
        ensures
            r@ == self.spec_cpu_page_mapping(),
            self.spec_asid().spec_generation() > 0 ==> r@ == 0x8000_0000_0000_0000u64 | self.spec_mapping()@
                | (self.spec_asid().spec_number() as u64),
            self.spec_asid().spec_generation() == 0 ==> r == self.spec_mapping(),
    {
        if self.current_asid.generation() > 0 {
            self.mapping.with_asid(self.current_asid)
        } else {
            self.mapping
        }
    }

    /// Frees the domain's top-level table, working in the domain that runs now (its area
    /// allocator `current_vma` and its `mapping`): the frame of the table is mapped at a free
    /// page and unmapped again with the frame going back to the frame allocator, which links
    /// free frames through their virtual addresses. This is what dropping the domain does.
    pub fn destroy<M: MemoryMapper>(self, current_vma: &mut VMAAllocator, mapping: &mut M)
        requires
            old(current_vma).wf(),
            self.spec_mapping()@ & 0x7ff0_0000_0000_0000 == 0,
        ensures
            final(current_vma).wf(),
            (forall|k: usize| #[trigger] old(current_vma)@.contains_key(k) ==> old(current_vma)@[k] < PAGE_SIZE)
                ==> final(current_vma)@ == old(current_vma)@,
            !(forall|k: usize| #[trigger] old(current_vma)@.contains_key(k) ==> old(current_vma)@[k] < PAGE_SIZE)
                ==> exists|k: usize|
                #![trigger old(current_vma)@.contains_key(k)]
                old(current_vma)@.contains_key(k) && old(current_vma)@[k] >= PAGE_SIZE
                    && final(current_vma)@ == carve(old(current_vma)@, k, PAGE_SIZE as int),
    {
        let paddr = self.mapping.as_phys_addr();
        if let Some(vaddr) = current_vma.alloc_region(PAGE_SIZE) {
            let flags = EntryFlags::present().union(EntryFlags::nx()).union(EntryFlags::writable());
            if mapping.map_range_physical(vaddr, paddr, PAGE_SIZE, flags).is_ok() {
                mapping.free_and_unmap_single(vaddr);
            }
        }
    }

    /// The allocator of the domain's areas, to work on it together with the domain's mapping.
    pub fn vma_allocator(&mut self) -> (r: &mut VMAAllocator)
        ensures
            *r == old(self).spec_vma_allocator(),
            final(self).spec_vma_allocator() == *final(r),
            final(self).spec_mapping() == old(self).spec_mapping(),
            final(self).spec_asid() == old(self).spec_asid(),
    {
        &mut self.vma_allocator
    }
}

} // verus!

//! Per-CPU data.
use vstd::prelude::*;
use crate::arch::asid::{AsidManager, asid_count};
use crate::tasking::protection_domain::{ProtectionDomain, asid_assignment};

verus! {

/// Per-CPU data.
pub struct CpuData {
    /// Self reference.
    reference: usize,
    /// Preemption disable count. Zero means enabled.
    preempt_count: u32,
    /// Should schedule flag.
    should_schedule: u32,
    /// Address Space Identifier stuff.
    asid_enable: bool,
    asid_manager: AsidManager,
}

impl CpuData {
    /// The address this data was registered at (zero before registration).
    pub closed spec fn spec_reference(&self) -> usize {
        self.reference
    }

    /// The preemption disable count.
    pub closed spec fn spec_preempt_count(&self) -> u32 {
        self.preempt_count
    }

    /// The should-schedule flag.
    pub closed spec fn spec_should_schedule(&self) -> u32 {
        self.should_schedule
    }

    /// Whether address space identifiers are used on this CPU.
    pub closed spec fn spec_asid_enable(&self) -> bool {
        self.asid_enable
    }

    /// The address space identifier manager of this CPU.
    pub closed spec fn spec_asid_manager(&self) -> AsidManager {
        self.asid_manager
    }

    /// Creates a new empty per-CPU data.
    pub fn new() -> (r: Self)
        ensures
            r.spec_reference() == 0,
            r.spec_preempt_count() == 0,
            r.spec_should_schedule() == 0,
            !r.spec_asid_enable(),
            r.spec_asid_manager().wf(),
            r.spec_asid_manager().spec_generation() == 0,
            r.spec_asid_manager().free_set() == Set::new(|n: int| 0 <= n < asid_count()),
            r.spec_asid_manager().fresh_set() == Set::new(|n: int| 0 <= n < asid_count()),
    {
        Self {
            // Need to fill in once we know the address.
            reference: 0,
            preempt_count: 0,
            should_schedule: 0,
            asid_enable: false,
            asid_manager: AsidManager::new(),
        }
    }

    /// Offset of field `preempt_count`.
    pub fn preempt_count_offset() -> (r: usize)
        ensures
            r == 8,
    {
        8
    }

    /// Gets the `preempt_count`.
    pub fn preempt_count(&self) -> (r: u32)
        ensures
            r == self.spec_preempt_count(),
    {
        self.preempt_count
    }

    /// Disables preemption once more: the count goes up by one.
    pub fn preempt_disable(&mut self)
        requires
            old(self).spec_preempt_count() < u32::MAX,
        ensures
            final(self).spec_preempt_count() == old(self).spec_preempt_count() + 1,
            final(self).spec_reference() == old(self).spec_reference(),
            final(self).spec_should_schedule() == old(self).spec_should_schedule(),
            final(self).spec_asid_enable() == old(self).spec_asid_enable(),
            final(self).spec_asid_manager() == old(self).spec_asid_manager(),
    {
        self.preempt_count = self.preempt_count + 1;
    }

    /// Undoes one `preempt_disable`: the count goes down by one; preemption is enabled again
    /// once it is zero.
    pub fn preempt_enable(&mut self)
        requires
            old(self).spec_preempt_count() > 0,
        ensures
            final(self).spec_preempt_count() == old(self).spec_preempt_count() - 1,
            final(self).spec_reference() == old(self).spec_reference(),
            final(self).spec_should_schedule() == old(self).spec_should_schedule(),
            final(self).spec_asid_enable() == old(self).spec_asid_enable(),
            final(self).spec_asid_manager() == old(self).spec_asid_manager(),
    {
        self.preempt_count = self.preempt_count - 1;
    }

    /// Gives `domain` an address space identifier of this CPU when identifiers are in use here
    /// and the one it has is stale. Returns the identifier bit whose stale translations must be
    /// invalidated, if any.
    pub fn assign_asid(&mut self, domain: &mut ProtectionDomain) -> (r: Option<u64>)
        requires
            old(self).spec_asid_manager().wf(),
            old(domain).wf(),
        ensures
            final(self).spec_asid_manager().wf(),
            final(domain).wf(),
            final(domain).spec_mapping() == old(domain).spec_mapping(),
            final(domain).spec_vma_allocator() == old(domain).spec_vma_allocator(),
            final(self).spec_reference() == old(self).spec_reference(),
            final(self).spec_preempt_count() == old(self).spec_preempt_count(),
            final(self).spec_should_schedule() == old(self).spec_should_schedule(),
            final(self).spec_asid_enable() == old(self).spec_asid_enable(),
            old(self).spec_asid_enable() ==> asid_assignment(
                old(domain).spec_asid(),
                final(domain).spec_asid(),
                old(self).spec_asid_manager(),
                final(self).spec_asid_manager(),
                r,
            ),
            !old(self).spec_asid_enable() ==> r is None && *final(domain) == *old(domain)
                && *final(self) == *old(self),
    {
        if self.asid_enable {
            domain.assign_asid_if_necessary(&mut self.asid_manager)
        } else {
            None
        }
    }

    /// Prepare to set the per-CPU data, which lives at `self_address`.
    pub fn prepare_to_set(&mut self, self_address: usize, asid_enable: bool)
        requires
            old(self).spec_reference() == 0,
        ensures
            final(self).spec_reference() == self_address,
            final(self).spec_asid_enable() == asid_enable,
            final(self).spec_preempt_count() == old(self).spec_preempt_count(),
            final(self).spec_asid_manager() == old(self).spec_asid_manager(),
    {
        self.reference = self_address;
        self.asid_enable = asid_enable;
    }

    /// Gets the asid manager, when address space identifiers are enabled.
    pub fn asid_manager(&self) -> (r: Option<&AsidManager>)
        ensures
            self.spec_asid_enable() ==> r == Some(&self.spec_asid_manager()),
            !self.spec_asid_enable() ==> r is None,
    {
        if self.asid_enable {
            Some(&self.asid_manager)
        } else {
            None
        }
    }
}

} // verus!

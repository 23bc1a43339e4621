//! Tasking: threads, their scheduling, and the files they open.
pub mod file;
pub mod protection_domain;
pub mod scheduler;
pub mod scheme;
pub mod scheme_container;
pub mod thread;

use vstd::prelude::*;
use crate::arch::address::VirtAddr;
use crate::mm::vma_allocator::{canonical_range, lemma_canonical_range};

verus! {

/// Flags register a new thread starts with: interrupts enabled, and the bit that is always set.
pub const INITIAL_RFLAGS: u64 = 0x202;

/// A stack of 64-bit values that grows down from its location.
pub struct Stack {
    location: VirtAddr,
}

/// The writes that push `values` in turn on a stack at `top`: the first value goes right below
/// `top`, each next one 8 bytes lower.
pub open spec fn push_writes(top: int, values: Seq<u64>) -> Seq<(int, u64)> {
    Seq::new(values.len(), |i: int| (top - 8 * (i + 1), values[i]))
}

impl Stack {
    /// The stack pointer.
    pub closed spec fn spec_location(&self) -> int {
        self.location@ as int
    }

    /// Creates a new stack on a given location.
    pub fn new(location: VirtAddr) -> (r: Self)
        ensures
            r.spec_location() == location@,
    {
        Self { location }
    }

    /// As a virtual address.
    #[inline]
    pub fn as_virt_addr(&self) -> (r: VirtAddr)
        ensures
            r@ == self.spec_location(),
    {
        self.location
    }

    /// Pushes a value on the stack: moves the stack pointer down by 8 bytes; the value is to be
    /// written at the new stack pointer, which is returned.
    pub fn push(&mut self, value: u64) -> (r: (VirtAddr, u64))
        requires
            old(self).spec_location() >= 8,
            canonical_range(old(self).spec_location() - 8, 8),
        ensures
            final(self).spec_location() == old(self).spec_location() - 8,
            r.0@ == final(self).spec_location(),
            r.1 == value,
    {
        proof {
            lemma_canonical_range(self.location@ - 8, 8, (self.location@ - 8) as usize);
        }
        self.location = self.location.sub(8);
        (self.location, value)
    }

    /// Prepares the stack to execute at `entry`: pushes the entry, the flags and six zeroed
    /// callee-saved registers. Returns the writes to perform, in order.
    pub fn prepare(&mut self, entry: VirtAddr) -> (r: Vec<(VirtAddr, u64)>)
        requires
            old(self).spec_location() >= 64,
            canonical_range(old(self).spec_location() - 64, 64),
        ensures
            final(self).spec_location() == old(self).spec_location() - 64,
            r@.len() == 8,
            forall|i: int| 0 <= i < 8 ==> (#[trigger] r@[i]).0@ == push_writes(
                old(self).spec_location(),
                seq![entry@ as u64, INITIAL_RFLAGS, 0, 0, 0, 0, 0, 0],
            )[i].0 && r@[i].1 == push_writes(
                old(self).spec_location(),
                seq![entry@ as u64, INITIAL_RFLAGS, 0, 0, 0, 0, 0, 0],
            )[i].1,
    {
        let ghost top = self.spec_location();
        let values: [u64; 8] = [entry.as_u64(), INITIAL_RFLAGS, 0, 0, 0, 0, 0, 0];
        let ghost vs = seq![entry@ as u64, INITIAL_RFLAGS, 0u64, 0u64, 0u64, 0u64, 0u64, 0u64];
        assert(values@ =~= vs);
        let mut writes: Vec<(VirtAddr, u64)> = Vec::new();
        let mut i: usize = 0;
        while i < 8
            invariant
                i <= 8,
                values@ == vs,
                self.spec_location() == top - 8 * i,
                top >= 64,
                canonical_range(top - 64, 64),
                writes@.len() == i,
                forall|j: int| 0 <= j < i ==> (#[trigger] writes@[j]).0@ == push_writes(top, vs)[j].0
                    && writes@[j].1 == push_writes(top, vs)[j].1,
            decreases 8 - i,
        {
            proof {
                assert(canonical_range(self.spec_location() - 8, 8));
            }
            let w = self.push(values[i]);
            writes.push(w);
            i = i + 1;
        }
        writes
    }
}

} // verus!

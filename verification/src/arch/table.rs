//! Page tables and their levels. The tables are reached through the recursive entry of the
//! top-level table, so the address of a next-level table follows from the address of its
//! parent table and the index of the entry.
use vstd::prelude::*;
use core::marker::PhantomData;
use crate::arch::paging::{Entry, EntryFlags, spec_present, spec_phys_bits, spec_flag_bits, USED_COUNT_MASK};
use crate::arch::address::PhysAddr;

verus! {

/// A level of the page table hierarchy.
pub trait Level {}

/// A level that has a next level below it.
pub trait HierarchicalLevel: Level {
    type NextLevel: Level;
}

/// The top level.
pub struct Level4;

/// The third level.
pub struct Level3;

/// The second level.
pub struct Level2;

/// The lowest level, whose entries map pages.
pub struct Level1;

impl Level for Level4 {}

impl Level for Level3 {}

impl Level for Level2 {}

impl Level for Level1 {}

impl HierarchicalLevel for Level4 {
    type NextLevel = Level3;
}

impl HierarchicalLevel for Level3 {
    type NextLevel = Level2;
}

impl HierarchicalLevel for Level2 {
    type NextLevel = Level1;
}

/// A page table: 512 entries.
pub struct Table<L: Level> {
    pub entries: [Entry; 512],
    _phantom: PhantomData<L>,
}

/// The address of the next-level table of entry `index` of the table at `table_addr`: the
/// table address shifted up by 9 bits (its top 9 bits fall off), with the index as page number.
pub open spec fn next_table_addr(table_addr: usize, index: usize) -> int {
    (table_addr << 9usize) + index * 4096
}

/// The flags of an entry hold its present bit.
proof fn lemma_flags_present(raw: u64)
    ensures
        ((raw & 0x8000_0000_0000_019bu64) & 1u64 == 1u64) == spec_present(raw),
{
    assert((raw & 0x8000_0000_0000_019bu64) & 1u64 == 1u64 <==> raw & 1u64 == 1u64) by (bit_vector);
}

impl<L: Level> Table<L> {
    /// The entries of the table.
    pub closed spec fn spec_entries(&self) -> Seq<Entry> {
        self.entries@
    }

    /// A table with the given entries.
    pub fn new(entries: [Entry; 512]) -> (r: Self)
        ensures
            r.spec_entries() == entries@,
    {
        Table { entries, _phantom: PhantomData }
    }
}

impl<L: Level> Table<L> {
    /// Amount of entries in use: kept in the ignored bits of the first entry.
    pub open spec fn spec_used_count(&self) -> u64 {
        crate::arch::paging::spec_used_count(self.spec_entries()[0]@)
    }

    /// Gets the amount of entries in use.
    pub fn used_count(&self) -> (r: u64)
        ensures
            r == self.spec_used_count(),
    {
        self.entries[0].used_count()
    }

    /// One more entry is in use.
    pub fn increase_used_count(&mut self)
        requires
            old(self).spec_used_count() < 512,
        ensures
            final(self).spec_used_count() == old(self).spec_used_count() + 1,
            final(self).spec_entries().len() == old(self).spec_entries().len(),
            forall|i: int| 0 <= i < 512 ==> #[trigger] spec_phys_bits(final(self).spec_entries()[i]@)
                == spec_phys_bits(old(self).spec_entries()[i]@),
            forall|i: int| 0 <= i < 512 ==> #[trigger] spec_flag_bits(final(self).spec_entries()[i]@)
                == spec_flag_bits(old(self).spec_entries()[i]@),
    {
        let count = self.entries[0].used_count();
        self.entries[0].set_used_count(count + 1);
    }

    /// One entry less is in use.
    pub fn decrease_used_count(&mut self)
        requires
            0 < old(self).spec_used_count() <= 512,
        ensures
            final(self).spec_used_count() == old(self).spec_used_count() - 1,
            final(self).spec_entries().len() == old(self).spec_entries().len(),
            forall|i: int| 0 <= i < 512 ==> #[trigger] spec_phys_bits(final(self).spec_entries()[i]@)
                == spec_phys_bits(old(self).spec_entries()[i]@),
            forall|i: int| 0 <= i < 512 ==> #[trigger] spec_flag_bits(final(self).spec_entries()[i]@)
                == spec_flag_bits(old(self).spec_entries()[i]@),
    {
        let count = self.entries[0].used_count();
        self.entries[0].set_used_count(count - 1);
    }

    /// Entry `index` holds no physical address.
    pub open spec fn spec_entry_unused(&self, index: int) -> bool {
        spec_phys_bits(self.spec_entries()[index]@) == 0
    }

    /// Entry `index` is about to be set: when it is unused, the used count goes up by one;
    /// otherwise the table stays as it is.
    pub fn use_entry(&mut self, index: usize)
        requires
            index < 512,
            old(self).spec_entry_unused(index as int) ==> old(self).spec_used_count() < 512,
        ensures
            old(self).spec_entry_unused(index as int) ==> final(self).spec_used_count()
                == old(self).spec_used_count() + 1,
            !old(self).spec_entry_unused(index as int) ==> final(self).spec_entries()
                == old(self).spec_entries(),
            final(self).spec_entries().len() == old(self).spec_entries().len(),
            forall|i: int| 0 <= i < 512 ==> #[trigger] spec_phys_bits(final(self).spec_entries()[i]@)
                == spec_phys_bits(old(self).spec_entries()[i]@),
            forall|i: int| 0 <= i < 512 ==> #[trigger] spec_flag_bits(final(self).spec_entries()[i]@)
                == spec_flag_bits(old(self).spec_entries()[i]@),
    {
        if self.entries[index].is_unused() {
            self.increase_used_count();
        }
    }

    /// Entry `index` is given up: it is cleared and the used count goes down by one. The
    /// result says whether no entry of the table is in use any more, so that the table itself
    /// can be given up.
    pub fn release_entry(&mut self, index: usize) -> (r: bool)
        requires
            index < 512,
            0 < old(self).spec_used_count() <= 512,
        ensures
            final(self).spec_used_count() == old(self).spec_used_count() - 1,
            r == (final(self).spec_used_count() == 0),
            final(self).spec_entries().len() == old(self).spec_entries().len(),
            spec_phys_bits(final(self).spec_entries()[index as int]@) == 0,
            spec_flag_bits(final(self).spec_entries()[index as int]@) == 0,
            forall|i: int| 0 <= i < 512 && i != index ==> #[trigger] spec_phys_bits(
                final(self).spec_entries()[i]@,
            ) == spec_phys_bits(old(self).spec_entries()[i]@),
            forall|i: int| 0 <= i < 512 && i != index ==> #[trigger] spec_flag_bits(
                final(self).spec_entries()[i]@,
            ) == spec_flag_bits(old(self).spec_entries()[i]@),
    {
        self.entries[index].clear();
        self.decrease_used_count();
        self.used_count() == 0
    }
}

impl Table<Level4> {
    /// Sets up a fresh top-level table that lies at `own_address`: every entry cleared, but the
    /// first, which is the kernel's first entry copied from the running top-level table, with a
    /// used count of 2, and the last, which points back at the table itself (present,
    /// no-execute, writable).
    pub fn init_new_root(&mut self, kernel_entry: Entry, own_address: PhysAddr)
        ensures
            final(self).spec_entries().len() == 512,
            final(self).spec_entries()[0]@ == (kernel_entry@ & !USED_COUNT_MASK) | (2u64 << 52u64),
            final(self).spec_used_count() == 2,
            final(self).spec_entries()[511]@ == ((1u64 | 0x8000_0000_0000_0000u64) | 2u64) | (own_address@ as u64),
            forall|i: int| 1 <= i < 511 ==> #[trigger] final(self).spec_entries()[i]@ == 0,
    {
        let mut i: usize = 0;
        while i < 512
            invariant
                i <= 512,
                self.entries@.len() == 512,
                forall|j: int| 0 <= j < i ==> #[trigger] self.entries@[j]@ == 0,
            decreases 512 - i,
        {
            self.entries[i] = Entry::new(0);
            i = i + 1;
        }
        self.entries[0].set_raw(kernel_entry.get_raw());
        self.entries[0].set_used_count(2);
        let flags = EntryFlags::present().union(EntryFlags::nx()).union(EntryFlags::writable());
        self.entries[511].set(own_address, flags);
        assert((0u64 & 0x3ff0_0000_0000_0000u64) | ((1u64 | 0x8000_0000_0000_0000u64) | 2u64) | (own_address@ as u64)
            == ((1u64 | 0x8000_0000_0000_0000u64) | 2u64) | (own_address@ as u64)) by (bit_vector);
    }
}

impl<L: HierarchicalLevel> Table<L> {
    /// Gets the next table address (unchecked).
    fn next_table_address_unchecked(table_addr: usize, index: usize) -> (r: usize)
        requires
            table_addr % 4096 == 0,
            index < 512,
        ensures
            r as int == next_table_addr(table_addr, index),
    {
        assert((table_addr << 9usize) | (index << 12usize) == (table_addr << 9usize) + index * 4096) by (bit_vector)
            requires
                table_addr % 4096 == 0,
                index < 512;
        (table_addr << 9) | (index << 12)
    }

    /// Gets the next table address: only when the entry is present.
    pub fn next_table_address(&self, table_addr: usize, index: usize) -> (r: Option<usize>)
        requires
            table_addr % 4096 == 0,
            index < 512,
        ensures
            !spec_present(self.spec_entries()[index as int]@) ==> r is None,
            spec_present(self.spec_entries()[index as int]@) ==> (r matches Some(a) && a as int == next_table_addr(table_addr, index)),
    {
        proof {
            lemma_flags_present(self.entries@[index as int]@);
        }
        if self.entries[index].flags().contains(crate::arch::paging::EntryFlags::present()) {
            Some(Self::next_table_address_unchecked(table_addr, index))
        } else {
            None
        }
    }
}

} // verus!

verus! {

/// Entry modifier helper: changes one entry of a table, and tells which page's stale
/// translation must then be invalidated.
pub struct EntryModifier<'a> {
    pub entry: &'a mut Entry,
    pub addr: u64,
}

impl<'a> EntryModifier<'a> {
    /// A modifier of `entry`, which maps the page at virtual address `addr`.
    pub fn new(entry: &'a mut Entry, addr: u64) -> (r: Self)
        ensures
            *r.entry == *old(entry),
            *final(r.entry) == *final(entry),
            r.addr == addr,
    {
        EntryModifier { entry, addr }
    }

    /// Sets the entry. When the entry was present, returns the address of the page whose
    /// translation must be invalidated.
    pub fn set(&mut self, addr: PhysAddr, flags: EntryFlags) -> (r: Option<u64>)
        ensures
            final(self).addr == old(self).addr,
            *final(final(self).entry) == *final(old(self).entry),
            (*final(self).entry)@ == ((*old(self).entry)@ & USED_COUNT_MASK) | flags@ | (addr@ as u64),
            r == (if spec_present((*old(self).entry)@) { Some(old(self).addr) } else { None::<u64> }),
    {
        proof {
            lemma_flags_present((*self.entry)@);
        }
        let was_present = self.entry.flags().contains(EntryFlags::present());
        self.entry.set(addr, flags);
        // See Intel Volume 3: "4.10.4.3 Optional Invalidation" (and footnote)
        if was_present {
            Some(self.addr)
        } else {
            None
        }
    }
    /// Sets the entry flags, keeping its address. When the entry was present, returns the
    /// address of the page whose translation must be invalidated.
    pub fn set_flags(&mut self, flags: EntryFlags) -> (r: Option<u64>)
        ensures
            final(self).addr == old(self).addr,
            *final(final(self).entry) == *final(old(self).entry),
            (*final(self).entry)@ == ((*old(self).entry)@ & USED_COUNT_MASK) | flags@ | ((spec_phys_bits((*old(self).entry)@) as usize) as u64),
            r == (if spec_present((*old(self).entry)@) { Some(old(self).addr) } else { None::<u64> }),
    {
        proof {
            lemma_flags_present((*self.entry)@);
        }
        let was_present = self.entry.flags().contains(EntryFlags::present());
        self.entry.set_flags(flags);
        if was_present {
            Some(self.addr)
        } else {
            None
        }
    }
}

} // verus!

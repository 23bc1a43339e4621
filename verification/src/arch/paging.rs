//! Page table entries, their flags, and the value of the page table base register.
use vstd::prelude::*;
use crate::arch::address::{PhysAddr, phys_limit};
use crate::arch::asid::Asid;

verus! {

/// Bits of an entry that hold the physical address.
pub const ADDRESS_MASK: u64 = 0x000f_ffff_ffff_f000;

/// Bits 52..61 are ignored by the hardware; the used count of a table lives there.
pub const USED_COUNT_MASK: u64 = 0x3ff0_0000_0000_0000;

/// All the flag bits the entry flags know of.
pub const ALL_FLAGS: u64 = 0x8000_0000_0000_019b;

/// Flags of a page table entry.
#[derive(Debug, Clone, Copy, PartialEq, Eq, Structural)]
pub struct EntryFlags {
    bits: u64,
}

impl View for EntryFlags {
    type V = u64;

    closed spec fn view(&self) -> u64 {
        self.bits
    }
}

/// The known flag bits, and how they combine: each constant flag is one of them, a union of
/// known flags holds only known flags, and truncating to the known flags is idempotent.
proof fn lemma_flag_bits()
    by (bit_vector)
    ensures
        1u64 & 0x8000_0000_0000_019bu64 == 1u64,
        2u64 & 0x8000_0000_0000_019bu64 == 2u64,
        8u64 & 0x8000_0000_0000_019bu64 == 8u64,
        0x10u64 & 0x8000_0000_0000_019bu64 == 0x10u64,
        0x18u64 & 0x8000_0000_0000_019bu64 == 0x18u64,
        0x80u64 & 0x8000_0000_0000_019bu64 == 0x80u64,
        0x88u64 & 0x8000_0000_0000_019bu64 == 0x88u64,
        0x100u64 & 0x8000_0000_0000_019bu64 == 0x100u64,
        0x8000_0000_0000_0000u64 & 0x8000_0000_0000_019bu64 == 0x8000_0000_0000_0000u64,
        0u64 & 0x8000_0000_0000_019bu64 == 0u64,
        forall|a: u64, b: u64| #![trigger a | b]
            a & 0x8000_0000_0000_019bu64 == a && b & 0x8000_0000_0000_019bu64 == b
                ==> (a | b) & 0x8000_0000_0000_019bu64 == a | b,
        forall|x: u64| #![trigger x & 0x8000_0000_0000_019bu64]
            (x & 0x8000_0000_0000_019bu64) & 0x8000_0000_0000_019bu64 == x & 0x8000_0000_0000_019bu64,
{
}

impl EntryFlags {
    /// Only known flag bits are ever set.
    #[verifier::type_invariant]
    spec fn known_bits(self) -> bool {
        self.bits & ALL_FLAGS == self.bits
    }

    /// Present.
    pub fn present() -> (r: Self)
        ensures
            r@ == 1,
    {
        proof {
            lemma_flag_bits();
        }
        EntryFlags { bits: 1 }
    }

    /// Writable.
    pub fn writable() -> (r: Self)
        ensures
            r@ == 2,
    {
        proof {
            lemma_flag_bits();
        }
        EntryFlags { bits: 2 }
    }

    /// Huge page (2 MiB at the second level).
    pub fn huge_page() -> (r: Self)
        ensures
            r@ == 0x80,
    {
        proof {
            lemma_flag_bits();
        }
        EntryFlags { bits: 0x80 }
    }

    /// Global: kept in the TLB across address space switches.
    pub fn global() -> (r: Self)
        ensures
            r@ == 0x100,
    {
        proof {
            lemma_flag_bits();
        }
        EntryFlags { bits: 0x100 }
    }

    /// No execute.
    pub fn nx() -> (r: Self)
        ensures
            r@ == 0x8000_0000_0000_0000,
    {
        proof {
            lemma_flag_bits();
        }
        EntryFlags { bits: 0x8000_0000_0000_0000 }
    }

    /// Write-back caching (see PAT in boot assembly).
    pub fn cache_wb() -> (r: Self)
        ensures
            r@ == 0,
    {
        proof {
            lemma_flag_bits();
        }
        EntryFlags { bits: 0 }
    }

    /// Write-through caching.
    pub fn cache_wt() -> (r: Self)
        ensures
            r@ == 8,
    {
        proof {
            lemma_flag_bits();
        }
        EntryFlags { bits: 8 }
    }

    /// Uncached.
    pub fn uncached() -> (r: Self)
        ensures
            r@ == 0x10,
    {
        proof {
            lemma_flag_bits();
        }
        EntryFlags { bits: 0x10 }
    }

    /// Uncachable.
    pub fn uncachable() -> (r: Self)
        ensures
            r@ == 0x18,
    {
        proof {
            lemma_flag_bits();
        }
        EntryFlags { bits: 0x18 }
    }

    /// Write-combining caching.
    pub fn cache_wc() -> (r: Self)
        ensures
            r@ == 0x80,
    {
        proof {
            lemma_flag_bits();
        }
        EntryFlags { bits: 0x80 }
    }

    /// Write-protected caching.
    pub fn cache_wp() -> (r: Self)
        ensures
            r@ == 0x88,
    {
        proof {
            lemma_flag_bits();
        }
        EntryFlags { bits: 0x88 }
    }

    /// No flags.
    pub fn empty() -> (r: Self)
        ensures
            r@ == 0,
    {
        proof {
            lemma_flag_bits();
        }
        EntryFlags { bits: 0 }
    }

    /// The raw bits.
    pub fn bits(self) -> (r: u64)
        ensures
            r == self@,
            r & ALL_FLAGS == r,
    {
        proof {
            use_type_invariant(self);
        }
        self.bits
    }

    /// Flags from raw bits, dropping the bits that are no known flag.
    pub fn from_bits_truncate(bits: u64) -> (r: Self)
        ensures
            r@ == bits & ALL_FLAGS,
    {
        proof {
            lemma_flag_bits();
        }
        EntryFlags { bits: bits & ALL_FLAGS }
    }

    /// All flags of `other` are set in `self`.
    pub fn contains(self, other: EntryFlags) -> (r: bool)
        ensures
            r == (self@ & other@ == other@),
    {
        self.bits & other.bits == other.bits
    }

    /// The flags of both (the `|` operator of the flags).
    pub fn union(self, other: EntryFlags) -> (r: Self)
        ensures
            r@ == self@ | other@,
    {
        proof {
            use_type_invariant(self);
            use_type_invariant(other);
            lemma_flag_bits();
        }
        EntryFlags { bits: self.bits | other.bits }
    }
}

/// Page table entry.
#[derive(Debug, Clone, Copy, PartialEq, Eq, Structural)]
pub struct Entry(u64);

impl View for Entry {
    type V = u64;

    closed spec fn view(&self) -> u64 {
        self.0
    }
}

/// The used count kept in the ignored bits of an entry.
pub open spec fn spec_used_count(raw: u64) -> u64 {
    (raw & USED_COUNT_MASK) >> 52u64
}

/// The physical address bits of an entry.
pub open spec fn spec_phys_bits(raw: u64) -> u64 {
    raw & ADDRESS_MASK
}

/// The flag bits of an entry.
pub open spec fn spec_flag_bits(raw: u64) -> u64 {
    raw & ALL_FLAGS
}

/// A page aligned physical address.
pub open spec fn page_address(a: int) -> bool {
    0 <= a < phys_limit() && a % 4096 == 0
}

proof fn lemma_page_address_bits(a: u64)
    requires
        page_address(a as int),
    ensures
        a & ADDRESS_MASK == a,
{
    assert(a & 0x000f_ffff_ffff_f000u64 == a) by (bit_vector)
        requires a < 0x10_0000_0000_0000u64, a % 4096 == 0;
}

/// An entry value is present when its present bit is set.
pub open spec fn spec_present(raw: u64) -> bool {
    raw & 1 == 1
}

proof fn lemma_used_count_parts(raw: u64, count: u64)
    requires
        count <= 512,
    ensures
        spec_used_count((raw & !USED_COUNT_MASK) | (count << 52u64)) == count,
        spec_phys_bits((raw & !USED_COUNT_MASK) | (count << 52u64)) == spec_phys_bits(raw),
        spec_flag_bits((raw & !USED_COUNT_MASK) | (count << 52u64)) == spec_flag_bits(raw),
        spec_used_count(raw) < 1024,
{
    assert(((raw & 0x3ff0_0000_0000_0000u64) >> 52u64) < 1024
        && ((((raw & !0x3ff0_0000_0000_0000u64) | (count << 52u64)) & 0x3ff0_0000_0000_0000u64) >> 52u64) == count
        && ((raw & !0x3ff0_0000_0000_0000u64) | (count << 52u64)) & 0x000f_ffff_ffff_f000u64 == raw & 0x000f_ffff_ffff_f000u64
        && ((raw & !0x3ff0_0000_0000_0000u64) | (count << 52u64)) & 0x8000_0000_0000_019bu64 == raw & 0x8000_0000_0000_019bu64)
        by (bit_vector)
        requires count <= 512;
}

/// Rebuilding an entry from its used count, flags and a page aligned address keeps each part.
pub proof fn lemma_entry_set_parts(raw: u64, flags: u64, addr: u64)
    requires
        addr & ADDRESS_MASK == addr,
    ensures
        spec_used_count((raw & USED_COUNT_MASK) | (flags & ALL_FLAGS) | addr) == spec_used_count(raw),
        spec_phys_bits((raw & USED_COUNT_MASK) | (flags & ALL_FLAGS) | addr) == addr,
        spec_flag_bits((raw & USED_COUNT_MASK) | (flags & ALL_FLAGS) | addr) == flags & ALL_FLAGS,
{
    assert(((((raw & 0x3ff0_0000_0000_0000u64) | (flags & 0x8000_0000_0000_019bu64) | addr) & 0x3ff0_0000_0000_0000u64) >> 52u64) == ((raw & 0x3ff0_0000_0000_0000u64) >> 52u64)
        && ((raw & 0x3ff0_0000_0000_0000u64) | (flags & 0x8000_0000_0000_019bu64) | addr) & 0x000f_ffff_ffff_f000u64 == addr
        && ((raw & 0x3ff0_0000_0000_0000u64) | (flags & 0x8000_0000_0000_019bu64) | addr) & 0x8000_0000_0000_019bu64 == flags & 0x8000_0000_0000_019bu64)
        by (bit_vector)
        requires addr & 0x000f_ffff_ffff_f000u64 == addr;
}

impl Entry {
    /// An entry with the given raw value.
    pub fn new(value: u64) -> (r: Self)
        ensures
            r@ == value,
    {
        Entry(value)
    }

    /// Gets the used count part of this entry.
    /// We keep the used count in the first entry available bits.
    pub fn used_count(&self) -> (r: u64)
        ensures
            r == spec_used_count(self@),
            r < 1024,
    {
        proof {
            lemma_used_count_parts(self.0, 0);
        }
        (self.0 & USED_COUNT_MASK) >> 52
    }

    /// Raw used count part of this entry.
    pub fn used_count_raw(&self) -> (r: u64)
        ensures
            r == self@ & USED_COUNT_MASK,
    {
        self.0 & USED_COUNT_MASK
    }

    /// Sets the used count part of this entry.
    pub fn set_used_count(&mut self, count: u64)
        requires
            count <= 512,
        ensures
            final(self)@ == (old(self)@ & !USED_COUNT_MASK) | (count << 52u64),
            spec_used_count(final(self)@) == count,
            spec_phys_bits(final(self)@) == spec_phys_bits(old(self)@),
            spec_flag_bits(final(self)@) == spec_flag_bits(old(self)@),
    {
        proof {
            lemma_used_count_parts(self.0, count);
        }
        self.0 = (self.0 & !USED_COUNT_MASK) | (count << 52);
    }

    /// Sets the raw value.
    pub fn set_raw(&mut self, value: u64)
        ensures
            final(self)@ == value,
    {
        self.0 = value;
    }

    /// Gets the raw value.
    pub fn get_raw(&self) -> (r: u64)
        ensures
            r == self@,
    {
        self.0
    }

    /// Returns true if this entry is unused.
    pub fn is_unused(&self) -> (r: bool)
        ensures
            r == (spec_phys_bits(self@) == 0),
    {
        self.0 & ADDRESS_MASK == 0
    }

    /// Clears the entry (the used count stays).
    #[inline]
    pub fn clear(&mut self)
        ensures
            final(self)@ == old(self)@ & USED_COUNT_MASK,
            spec_used_count(final(self)@) == spec_used_count(old(self)@),
            spec_phys_bits(final(self)@) == 0,
            spec_flag_bits(final(self)@) == 0,
    {
        proof {
            lemma_used_count_parts(self.0, 0);
            let raw = self.0;
            assert((raw & 0x3ff0_0000_0000_0000u64) & 0x000f_ffff_ffff_f000u64 == 0
                && (raw & 0x3ff0_0000_0000_0000u64) & 0x8000_0000_0000_019bu64 == 0
                && ((raw & 0x3ff0_0000_0000_0000u64) & 0x3ff0_0000_0000_0000u64) == raw & 0x3ff0_0000_0000_0000u64)
                by (bit_vector);
        }
        self.0 = self.used_count_raw();
    }

    /// Sets the physical address of this entry, keeps flags.
    #[inline]
    pub fn set_phys_addr(&mut self, addr: PhysAddr)
        ensures
            final(self)@ == (old(self)@ & USED_COUNT_MASK) | (old(self)@ & ALL_FLAGS) | (addr@ as u64),
    {
        self.0 = self.used_count_raw() | self.flags().bits() | addr.as_u64();
    }

    /// Sets the flags, keeps the physical address.
    #[inline]
    pub fn set_flags(&mut self, flags: EntryFlags)
        ensures
            final(self)@ == (old(self)@ & USED_COUNT_MASK) | flags@ | ((spec_phys_bits(old(self)@) as usize) as u64),
            spec_flag_bits(final(self)@) == flags@,
            spec_phys_bits(final(self)@) == (spec_phys_bits(old(self)@) as usize) as u64,
            spec_used_count(final(self)@) == spec_used_count(old(self)@),
    {
        proof {
            use_type_invariant(flags);
            let raw = self.0;
            let f = flags@;
            let q = ((raw & 0x000f_ffff_ffff_f000u64) as usize) as u64;
            assert({
                let v = (raw & 0x3ff0_0000_0000_0000u64) | f | q;
                &&& v & 0x8000_0000_0000_019bu64 == f
                &&& v & 0x000f_ffff_ffff_f000u64 == q
                &&& (v & 0x3ff0_0000_0000_0000u64) >> 52u64 == (raw & 0x3ff0_0000_0000_0000u64) >> 52u64
            }) by (bit_vector)
                requires
                    f & 0x8000_0000_0000_019bu64 == f,
                    q == ((raw & 0x000f_ffff_ffff_f000u64) as usize) as u64;
        }
        self.0 = self.used_count_raw() | flags.bits() | self.phys_addr_unchecked().as_u64();
    }

    /// Sets the entry to the given address and flags.
    #[inline]
    pub fn set(&mut self, addr: PhysAddr, flags: EntryFlags)
        ensures
            final(self)@ == (old(self)@ & USED_COUNT_MASK) | flags@ | (addr@ as u64),
            page_address(addr@ as int) ==> spec_phys_bits(
                final(self)@,
            ) == addr@ && spec_flag_bits(final(self)@) == flags@ && spec_used_count(final(self)@)
                == spec_used_count(old(self)@),
    {
        proof {
            use_type_invariant(flags);
            if page_address(addr@ as int) {
                lemma_page_address_bits(addr@ as u64);
                lemma_entry_set_parts(self.0, flags@, addr@ as u64);
            }
        }
        self.0 = self.used_count_raw() | flags.bits() | addr.as_u64();
    }

    /// Gets the flags of this entry.
    #[inline]
    pub fn flags(&self) -> (r: EntryFlags)
        ensures
            r@ == spec_flag_bits(self@),
    {
        EntryFlags::from_bits_truncate(self.0)
    }

    /// Gets the physical address from page entry.
    pub fn phys_addr(&self) -> (r: Option<PhysAddr>)
        ensures
            spec_present(self@) ==> (r matches Some(a) && a@ == spec_phys_bits(self@) as usize),
            !spec_present(self@) ==> r is None,
    {
        proof {
            let raw = self.0;
            assert((raw & 0x8000_0000_0000_019bu64) & 1u64 == 1u64 <==> raw & 1u64 == 1u64) by (bit_vector);
        }
        if self.flags().contains(EntryFlags::present()) {
            Some(self.phys_addr_unchecked())
        } else {
            None
        }
    }

    /// Gets the physical address from page entry (unchecked).
    pub fn phys_addr_unchecked(&self) -> (r: PhysAddr)
        ensures
            r@ == spec_phys_bits(self@) as usize,
    {
        let raw = self.0;
        let bits = raw & ADDRESS_MASK;
        let a = bits as usize;
        proof {
            assert(bits <= 0x000f_ffff_ffff_f000u64 && (bits as usize) as u64 <= bits) by (bit_vector)
                requires bits == raw & 0x000f_ffff_ffff_f000u64;
        }
        PhysAddr::new(a)
    }
}

/// The value of the page table base register (CR3): the physical address of the top level
/// table, possibly with an address space identifier and the no-flush bit.
#[derive(Debug, Copy, Clone, PartialEq, Eq, Structural)]
pub struct CpuPageMapping(u64);

impl View for CpuPageMapping {
    type V = u64;

    closed spec fn view(&self) -> u64 {
        self.0
    }
}

/// Two cpu page mappings with the same value are the same mapping.
pub proof fn lemma_cpu_page_mapping_view_injective(a: CpuPageMapping, b: CpuPageMapping)
    ensures
        a@ == b@ <==> a == b,
{
}

impl CpuPageMapping {
    /// A mapping with the given raw register value.
    pub fn from_raw(value: u64) -> (r: Self)
        ensures
            r@ == value,
    {
        CpuPageMapping(value)
    }

    /// The raw register value.
    pub fn as_u64(self) -> (r: u64)
        ensures
            r == self@,
    {
        self.0
    }

    /// Cpu page mapping as physical address representation.
    #[inline]
    pub fn as_phys_addr(self) -> (r: PhysAddr)
        requires
            self@ & 0x7ff0_0000_0000_0000 == 0,
        ensures
            r@ == (self@ & !0x8000_0000_0000_0fffu64) as usize,
    {
        let bits = self.0 & !((1u64 << 63) | 0xfff);
        proof {
            let x = self.0;
            assert(((1u64 << 63u64) | 0xfffu64) == 0x8000_0000_0000_0fffu64
                && (x & 0x7ff0_0000_0000_0000u64 == 0 ==> x & !0x8000_0000_0000_0fffu64 < 0x10_0000_0000_0000u64)
                && (bits as usize) as u64 <= bits) by (bit_vector)
                requires bits == x & !((1u64 << 63u64) | 0xfffu64);
        }
        PhysAddr::new(bits as usize)
    }

    /// Sentinel value.
    #[inline]
    pub fn sentinel() -> (r: CpuPageMapping)
        ensures
            r@ == 0,
    {
        CpuPageMapping(0)
    }

    /// Applies an Asid to a cpu page mapping.
    #[inline]
    pub fn with_asid(self, asid: Asid) -> (r: CpuPageMapping)
        ensures
            r@ == 0x8000_0000_0000_0000u64 | self@ | (asid.spec_number() as u64),
    {
        proof {
            assert((1u64 << 63u64) == 0x8000_0000_0000_0000u64) by (bit_vector);
        }
        CpuPageMapping(1u64 << 63 | self.0 | asid.as_u64())
    }
}

} // verus!

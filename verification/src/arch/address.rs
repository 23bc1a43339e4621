//! Physical and virtual addresses of the x86-64 architecture.
use vstd::prelude::*;

verus! {

/// The page size on this architecture.
pub const PAGE_SIZE: usize = 0x1000;

/// Largest physical address plus one: physical addresses have at most 52 bits.
pub open spec fn phys_limit() -> int {
    0x10_0000_0000_0000
}

/// An address is in canonical form when bits 47..63 are all equal.
pub open spec fn is_canonical(addr: usize) -> bool {
    ((addr as u64) >> 47u64) == 0 || ((addr as u64) >> 47u64) == 0x1ffff
}

/// Page-aligned rounding down, as a mathematical statement.
pub open spec fn spec_align_down(value: int) -> int {
    value - value % (PAGE_SIZE as int)
}

/// Page-aligned rounding up, as a mathematical statement.
pub open spec fn spec_align_up(value: int) -> int {
    if value % (PAGE_SIZE as int) == 0 {
        value
    } else {
        value - value % (PAGE_SIZE as int) + PAGE_SIZE as int
    }
}

/// A 64-bit physical address.
#[derive(Debug, Clone, Copy, PartialEq, Eq, Structural)]
pub struct PhysAddr(usize);

/// A canonical form, 64-bit virtual address.
#[derive(Debug, Clone, Copy, PartialEq, Eq, Structural)]
pub struct VirtAddr(usize);

impl View for PhysAddr {
    type V = usize;

    closed spec fn view(&self) -> usize {
        self.0
    }
}

impl View for VirtAddr {
    type V = usize;

    closed spec fn view(&self) -> usize {
        self.0
    }
}

/// Two physical addresses with the same value are the same address.
pub proof fn lemma_phys_addr_view_injective(a: PhysAddr, b: PhysAddr)
    ensures
        a@ == b@ ==> a == b,
{
}

/// Two virtual addresses with the same value are the same address.
pub proof fn lemma_virt_addr_view_injective(a: VirtAddr, b: VirtAddr)
    ensures
        a@ == b@ ==> a == b,
{
}

proof fn lemma_align_up_bits(value: usize)
    requires
        value + 0xfff <= usize::MAX,
    ensures
        ((value + 0xfff) as usize) & !0xfffusize == spec_align_up(value as int),
{
    let x = (value + 0xfff) as usize;
    assert(x & !0xfffusize == x - x % 0x1000) by (bit_vector);
}

proof fn lemma_and_low_mask_is_mod(x: usize)
    ensures
        x & 0xfffusize == x % 0x1000,
        x & 0x1f_ffffusize == x % 0x20_0000,
        x & !0xfffusize == x - x % 0x1000,
{
    assert(x & 0xfffusize == x % 0x1000 && x & 0x1f_ffffusize == x % 0x20_0000
        && x & !0xfffusize == x - x % 0x1000) by (bit_vector);
}

impl PhysAddr {
    /// Creates a new physical address (at most 52 bits wide, as the architecture defines).
    #[inline]
    pub fn new(addr: usize) -> (r: Self)
        requires
            addr < phys_limit(),
        ensures
            r@ == addr,
    {
        PhysAddr(addr)
    }

    /// Creates a new physical address that points to null.
    pub fn null() -> (r: Self)
        ensures
            r@ == 0,
    {
        PhysAddr(0)
    }

    /// Checks if the address is null.
    pub fn is_null(self) -> (r: bool)
        ensures
            r == (self@ == 0),
    {
        self.0 == 0
    }

    /// Checks if the address is page aligned.
    pub fn is_page_aligned(self) -> (r: bool)
        ensures
            r == (self@ % 0x1000 == 0),
    {
        proof {
            lemma_and_low_mask_is_mod(self.0);
        }
        self.0 & (PAGE_SIZE - 1) == 0
    }

    /// Checks if the address is 2M aligned.
    pub fn is_2m_aligned(self) -> (r: bool)
        ensures
            r == (self@ % 0x20_0000 == 0),
    {
        proof {
            lemma_and_low_mask_is_mod(self.0);
        }
        self.0 & 0x1f_ffff == 0
    }

    /// Converts the physical address to a usize.
    #[inline]
    pub fn as_usize(self) -> (r: usize)
        ensures
            r == self@,
    {
        self.0
    }

    /// Converts the physical address to a u64.
    #[inline]
    pub fn as_u64(self) -> (r: u64)
        ensures
            r == self@,
    {
        self.0 as u64
    }

    /// Aligns a memory address down.
    pub fn align_down(self) -> (r: Self)
        ensures
            r@ == spec_align_down(self@ as int),
    {
        PhysAddr(align_down(self.0))
    }

    /// Aligns a memory address up.
    pub fn align_up(self) -> (r: Self)
        requires
            self@ + PAGE_SIZE <= usize::MAX + 1,
        ensures
            r@ == spec_align_up(self@ as int),
    {
        PhysAddr(align_up(self.0))
    }

    /// Adds an offset to the address (the `+` operator of the address type).
    pub fn add(self, rhs: usize) -> (r: Self)
        requires
            self@ + rhs < phys_limit(),
            self@ + rhs <= usize::MAX,
        ensures
            r@ == self@ + rhs,
    {
        PhysAddr::new(self.0 + rhs)
    }

    /// Adds an offset to the address in place (the `+=` operator of the address type).
    pub fn add_assign(&mut self, rhs: usize)
        requires
            old(self)@ + rhs <= usize::MAX,
        ensures
            final(self)@ == old(self)@ + rhs,
    {
        self.0 = self.0 + rhs;
    }
}

impl VirtAddr {
    /// Creates a canonical form, virtual address.
    #[inline]
    pub fn new(addr: usize) -> (r: Self)
        requires
            is_canonical(addr),
        ensures
            r@ == addr,
    {
        VirtAddr(addr)
    }

    /// Creates a new virtual address that points to null.
    pub fn null() -> (r: Self)
        ensures
            r@ == 0,
    {
        VirtAddr(0)
    }

    /// Checks if the address is null.
    pub fn is_null(self) -> (r: bool)
        ensures
            r == (self@ == 0),
    {
        self.0 == 0
    }

    /// Converts the virtual address to a usize.
    #[inline]
    pub fn as_usize(self) -> (r: usize)
        ensures
            r == self@,
    {
        self.0
    }

    /// Converts the virtual address to a u64.
    #[inline]
    pub fn as_u64(self) -> (r: u64)
        ensures
            r == self@,
    {
        self.0 as u64
    }

    /// Checks if the address is page aligned.
    pub fn is_page_aligned(self) -> (r: bool)
        ensures
            r == (self@ % 0x1000 == 0),
    {
        proof {
            lemma_and_low_mask_is_mod(self.0);
        }
        self.0 & (PAGE_SIZE - 1) == 0
    }

    /// Checks if the address is 2M aligned.
    pub fn is_2m_aligned(self) -> (r: bool)
        ensures
            r == (self@ % 0x20_0000 == 0),
    {
        proof {
            lemma_and_low_mask_is_mod(self.0);
        }
        self.0 & 0x1f_ffff == 0
    }

    /// Gets the level 4 index for paging.
    pub fn p4_index(self) -> (r: usize)
        ensures
            r == (self@ as int / 0x80_0000_0000int) % 512,
            r < 512,
    {
        let x: u64 = self.0 as u64;
        assert((x >> 39u64) & 511u64 == (x / 0x80_0000_0000) % 512 && (x >> 39u64) & 511u64 < 512) by (bit_vector);
        ((x >> 39) & 511) as usize
    }

    /// Gets the level 3 index for paging.
    pub fn p3_index(self) -> (r: usize)
        ensures
            r == (self@ as int / 0x4000_0000int) % 512,
            r < 512,
    {
        let x: u64 = self.0 as u64;
        assert((x >> 30u64) & 511u64 == (x / 0x4000_0000) % 512 && (x >> 30u64) & 511u64 < 512) by (bit_vector);
        ((x >> 30) & 511) as usize
    }

    /// Gets the level 2 index for paging.
    pub fn p2_index(self) -> (r: usize)
        ensures
            r == (self@ as int / 0x20_0000int) % 512,
            r < 512,
    {
        let x: u64 = self.0 as u64;
        assert((x >> 21u64) & 511u64 == (x / 0x20_0000) % 512 && (x >> 21u64) & 511u64 < 512) by (bit_vector);
        ((x >> 21) & 511) as usize
    }

    /// Gets the level 1 index for paging.
    pub fn p1_index(self) -> (r: usize)
        ensures
            r == (self@ as int / 0x1000int) % 512,
            r < 512,
    {
        let x: u64 = self.0 as u64;
        assert((x >> 12u64) & 511u64 == (x / 0x1000) % 512 && (x >> 12u64) & 511u64 < 512) by (bit_vector);
        ((x >> 12) & 511) as usize
    }

    /// Aligns a memory address down.
    pub fn align_down(self) -> (r: Self)
        ensures
            r@ == spec_align_down(self@ as int),
    {
        VirtAddr(align_down(self.0))
    }

    /// Aligns a memory address up.
    pub fn align_up(self) -> (r: Self)
        requires
            self@ + PAGE_SIZE <= usize::MAX + 1,
        ensures
            r@ == spec_align_up(self@ as int),
    {
        VirtAddr(align_up(self.0))
    }

    /// Adds an offset to the address (the `+` operator of the address type).
    pub fn add(self, rhs: usize) -> (r: Self)
        requires
            self@ + rhs <= usize::MAX,
            is_canonical((self@ + rhs) as usize),
        ensures
            r@ == self@ + rhs,
    {
        VirtAddr::new(self.0 + rhs)
    }

    /// Subtracts an offset from the address (the `-` operator of the address type).
    pub fn sub(self, rhs: usize) -> (r: Self)
        requires
            self@ >= rhs,
            is_canonical((self@ - rhs) as usize),
        ensures
            r@ == self@ - rhs,
    {
        VirtAddr::new(self.0 - rhs)
    }

    /// Adds an offset to the address in place (the `+=` operator of the address type).
    pub fn add_assign(&mut self, rhs: usize)
        requires
            old(self)@ + rhs <= usize::MAX,
        ensures
            final(self)@ == old(self)@ + rhs,
    {
        self.0 = self.0 + rhs;
    }

    /// Subtracts an offset from the address in place (the `-=` operator of the address type).
    pub fn sub_assign(&mut self, rhs: usize)
        requires
            old(self)@ >= rhs,
        ensures
            final(self)@ == old(self)@ - rhs,
    {
        self.0 = self.0 - rhs;
    }
}

/// Align the value down to page size multiple.
pub fn align_down(value: usize) -> (r: usize)
    ensures
        r == spec_align_down(value as int),
        r <= value,
        r % 0x1000 == 0,
{
    proof {
        lemma_and_low_mask_is_mod(value);
    }
    value & !(PAGE_SIZE - 1)
}

/// Align the value up to page size multiple.
pub fn align_up(value: usize) -> (r: usize)
    requires
        value + PAGE_SIZE <= usize::MAX + 1,
    ensures
        r == spec_align_up(value as int),
        r >= value,
        r % 0x1000 == 0,
{
    let x: usize = value + (PAGE_SIZE - 1);
    proof {
        lemma_align_up_bits(value);
    }
    x & !(PAGE_SIZE - 1)
}

} // verus!

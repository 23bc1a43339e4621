//! ACPI tables: the pieces of them the kernel reads.
pub mod hpet;
pub mod sdt;

use vstd::prelude::*;
use crate::arch::address::PhysAddr;
use crate::arch::acpi::hpet::HpetData;

verus! {

/// What was found in the ACPI tables.
#[derive(Debug)]
pub struct ParsedData {
    pub hpet: Option<HpetData>,
}

/// The root table: 32-bit entries (RSDT) or 64-bit entries (XSDT).
#[derive(Debug, Clone, Copy, PartialEq, Eq, Structural)]
pub enum RootSdt {
    Rsdt(PhysAddr),
    Xsdt(PhysAddr),
}

impl RootSdt {
    /// The physical address of the root table and the size of its entries in bytes.
    pub fn address_and_entry_size(&self) -> (r: (PhysAddr, usize))
        ensures
            self matches RootSdt::Rsdt(a) ==> r.0 == *a && r.1 == 4,
            self matches RootSdt::Xsdt(a) ==> r.0 == *a && r.1 == 8,
    {
        match self {
            RootSdt::Rsdt(r) => (*r, 4),
            RootSdt::Xsdt(r) => (*r, 8),
        }
    }
}

/// Address space of a generic address.
#[derive(Debug, Clone, Copy, PartialEq, Eq, Structural)]
pub enum AddressSpace {
    SystemMemory,
    SystemIO,
}

/// Generic address structure.
pub struct AcpiAddress {
    pub address_space: AddressSpace,
    pub reg_bit_width: u8,
    pub reg_bit_offset: u8,
    pub reserved: u8,
    pub address: u64,
}

} // verus!

//! High precision event timer table and counter conversion.
use vstd::prelude::*;
use crate::arch::acpi::sdt::SdtHeader;
use crate::arch::acpi::AcpiAddress;
use crate::arch::address::{PhysAddr, VirtAddr, phys_limit};

verus! {

/// What the kernel keeps of the timer table.
#[derive(Debug)]
pub struct HpetData {
    address: PhysAddr,
}

impl HpetData {
    /// The physical address of the timer registers.
    pub closed spec fn spec_address(&self) -> PhysAddr {
        self.address
    }

    /// The physical address of the timer registers.
    pub fn address(&self) -> (r: PhysAddr)
        ensures
            r == self.spec_address(),
    {
        self.address
    }
}

/// A mapped high precision event timer.
pub struct Hpet {
    address: VirtAddr,
    clock_period: u64,
}

/// The high precision event timer table.
pub struct HpetTable {
    pub sdt_header: SdtHeader,
    pub event_timer_block_id: u32,
    pub address: AcpiAddress,
    pub hpet_nr: u8,
    pub min_clock_tick_in_periodic_mode: u16,
    pub attributes: u8,
}

/// Parses a Hpet table.
pub fn parse_hpet(table: &HpetTable) -> (r: HpetData)
    requires
        table.address.address <= usize::MAX,
        table.address.address < phys_limit(),
    ensures
        r.spec_address()@ == table.address.address,
{
    let address = PhysAddr::new(table.address.address as usize);
    HpetData { address }
}

impl Hpet {
    /// A timer whose registers are mapped at `address` and that ticks every `clock_period`
    /// femtoseconds.
    pub fn new(address: VirtAddr, clock_period: u64) -> (r: Self)
        ensures
            r.spec_address() == address,
            r.spec_clock_period() == clock_period,
    {
        Hpet { address, clock_period }
    }

    /// Where the registers are mapped.
    pub closed spec fn spec_address(&self) -> VirtAddr {
        self.address
    }

    /// The tick period in femtoseconds.
    pub closed spec fn spec_clock_period(&self) -> u64 {
        self.clock_period
    }

    /// Where the registers are mapped.
    pub fn address(&self) -> (r: VirtAddr)
        ensures
            r == self.spec_address(),
    {
        self.address
    }

    /// Convert a counter value to nanoseconds.
    pub fn counter_to_ns(&self, val: u64) -> (r: u64)
        requires
            (val / 1000) * (self.spec_clock_period() / 1000) <= u64::MAX,
        ensures
            r == (val / 1000) * (self.spec_clock_period() / 1000),
    {
        (val / 1000) * (self.clock_period / 1000)
    }
}

} // verus!

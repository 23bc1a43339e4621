use kwast::arch::acpi::hpet::{parse_hpet, Hpet, HpetTable};
use kwast::arch::acpi::sdt::{is_hpet, sdt_entries, validate_sdt, SdtFixedMapping, SdtHeader, SDT_HEADER_SIZE};
use kwast::arch::acpi::{AcpiAddress, AddressSpace, RootSdt};
use kwast::arch::address::{align_down, align_up, PhysAddr, VirtAddr};
use kwast::arch::asid::{Asid, AsidManager};
use kwast::arch::cpu_data::CpuData;
use kwast::arch::interrupts::EntryFlags as IdtFlags;
use kwast::arch::interrupts::IDT;
use kwast::arch::paging::{CpuPageMapping, Entry, EntryFlags};
use kwast::arch::simd::{simd_config, SimdSaveMethod};
use kwast::tasking::protection_domain::ProtectionDomain;
use kwast::mm::mapper::{MemoryMapper, MemoryResult};

#[test]
fn address_alignment() {
    assert_eq!(align_down(0x1234), 0x1000);
    assert_eq!(align_up(0x1234), 0x2000);
    assert_eq!(align_up(0x2000), 0x2000);
    assert!(PhysAddr::new(0x20_0000).is_2m_aligned());
    assert!(!PhysAddr::new(0x20_1000).is_2m_aligned());
    assert!(PhysAddr::new(0x3000).is_page_aligned());
    assert_eq!(PhysAddr::new(0x1001).align_up(), PhysAddr::new(0x2000));
    assert_eq!(VirtAddr::new(0x1fff).align_down().as_usize(), 0x1000);
    assert!(PhysAddr::null().is_null());
    assert!(VirtAddr::null().is_null());
}

#[test]
fn virtual_address_table_indices() {
    let a = VirtAddr::new(0x0000_7f12_3456_7890);
    assert_eq!(a.p4_index(), 0xfe);
    assert_eq!(a.p3_index(), 0x48);
    assert_eq!(a.p2_index(), 0x1a2);
    assert_eq!(a.p1_index(), 0x167);
    // The indices and the page offset rebuild the address.
    let rebuilt = (a.p4_index() << 39) | (a.p3_index() << 30) | (a.p2_index() << 21) | (a.p1_index() << 12) | 0x890;
    assert_eq!(rebuilt, a.as_usize());
}

#[test]
fn address_arithmetic() {
    let mut v = VirtAddr::new(0x5000);
    v.add_assign(0x1000);
    assert_eq!(v.as_usize(), 0x6000);
    v.sub_assign(0x2000);
    assert_eq!(v.as_usize(), 0x4000);
    assert_eq!(v.add(8).as_u64(), 0x4008);
    assert_eq!(v.sub(8).as_usize(), 0x3ff8);
    let mut p = PhysAddr::new(0x1000);
    p.add_assign(0x10);
    assert_eq!(p.as_u64(), 0x1010);
    assert_eq!(p.add(0x10).as_usize(), 0x1020);
}

#[test]
fn asid_allocation_takes_the_lowest_free_number() {
    let mut manager = AsidManager::new();
    let (a, inv_a) = manager.allocate(Asid::null());
    assert_eq!((a.as_u64(), a.generation(), inv_a), (0, 0, Some(0)));
    let (b, inv_b) = manager.allocate(Asid::null());
    assert_eq!((b.as_u64(), inv_b), (1, Some(1)));
    assert!(manager.is_valid(a));
    manager.free(a);
    let (c, inv_c) = manager.allocate(b);
    assert_eq!((c.as_u64(), inv_c), (0, Some(0)));
}

#[test]
fn asid_generation_rolls_over_when_all_are_used() {
    let mut manager = AsidManager::new();
    let mut last = Asid::null();
    for i in 0..4096u64 {
        let (a, _) = manager.allocate(Asid::null());
        assert_eq!(a.as_u64(), i);
        last = a;
    }
    assert_eq!(last.generation(), 0);
    // Every number is in use: the next allocation starts a new generation.
    let (next, _) = manager.allocate(Asid::null());
    assert_eq!(next.generation(), 1);
    assert!(!manager.is_valid(last));
    assert!(manager.is_valid(next));
}

#[test]
fn page_table_entry_parts() {
    let mut e = Entry::new(0);
    assert!(e.is_unused());
    e.set(PhysAddr::new(0x1234_5000), EntryFlags::present().union(EntryFlags::writable()).union(EntryFlags::nx()));
    assert_eq!(e.phys_addr(), Some(PhysAddr::new(0x1234_5000)));
    assert_eq!(e.flags().bits(), 0x8000_0000_0000_0003);
    e.set_used_count(7);
    assert_eq!(e.used_count(), 7);
    assert_eq!(e.phys_addr_unchecked(), PhysAddr::new(0x1234_5000));
    e.set_flags(EntryFlags::present());
    assert_eq!(e.flags().bits(), 1);
    assert_eq!(e.used_count(), 7);
    e.set_phys_addr(PhysAddr::new(0x9000));
    assert_eq!(e.phys_addr(), Some(PhysAddr::new(0x9000)));
    assert!(!e.is_unused());
    e.clear();
    assert_eq!(e.phys_addr(), None);
    assert_eq!(e.used_count(), 7);
    assert!(e.is_unused());
    assert_eq!(e.get_raw(), 7 << 52);
}

#[test]
fn entry_flags_operations() {
    let f = EntryFlags::present().union(EntryFlags::huge_page());
    assert!(f.contains(EntryFlags::present()));
    assert!(!f.contains(EntryFlags::writable()));
    assert_eq!(EntryFlags::from_bits_truncate(0xffff_ffff_ffff_ffff).bits(), 0x8000_0000_0000_019b);
    assert_eq!(EntryFlags::empty().bits(), 0);
}

#[test]
fn cpu_page_mapping_with_asid() {
    let m = CpuPageMapping::from_raw(0x0000_0000_0012_3000);
    assert_eq!(m.as_phys_addr(), PhysAddr::new(0x12_3000));
    let mut manager = AsidManager::new();
    manager.allocate(Asid::null());
    let (asid, _) = manager.allocate(Asid::null());
    let tagged = m.with_asid(asid);
    assert_eq!(tagged.as_u64(), 0x8000_0000_0012_3001);
    assert_eq!(tagged.as_phys_addr(), PhysAddr::new(0x12_3000));
    assert_eq!(CpuPageMapping::sentinel().as_u64(), 0);
}

fn header(name: [u8; 4], length: u32) -> SdtHeader {
    SdtHeader {
        name,
        length,
        revision: 1,
        checksum: 0,
        oem_id: [0; 6],
        oem_table_id: [0; 8],
        oem_revision: 0,
        creator_id: 0,
        creator_revision: 0,
    }
}

#[test]
fn sdt_checksum_and_entries() {
    let mut table = vec![0u8; SDT_HEADER_SIZE];
    table.extend_from_slice(&[0x00, 0x10, 0x00, 0x00, 0x78, 0x56, 0x34, 0x12]);
    assert_eq!(sdt_entries(&table, 4), vec![0x1000, 0x1234_5678]);
    assert_eq!(sdt_entries(&table, 8), vec![0x1234_5678_0000_1000]);
    let sum: u32 = table.iter().map(|b| *b as u32).sum();
    assert!(!validate_sdt(&table));
    table[9] = (256 - (sum % 256)) as u8;
    assert!(validate_sdt(&table));
}

#[test]
fn hpet_table_recognised_and_parsed() {
    assert!(is_hpet(&header(*b"HPET", 56)));
    assert!(!is_hpet(&header(*b"APIC", 56)));
    let table = HpetTable {
        sdt_header: header(*b"HPET", 56),
        event_timer_block_id: 0,
        address: AcpiAddress {
            address_space: AddressSpace::SystemMemory,
            reg_bit_width: 64,
            reg_bit_offset: 0,
            reserved: 0,
            address: 0xfed0_0000,
        },
        hpet_nr: 0,
        min_clock_tick_in_periodic_mode: 0,
        attributes: 0,
    };
    assert_eq!(parse_hpet(&table).address(), PhysAddr::new(0xfed0_0000));
    let hpet = Hpet::new(VirtAddr::new(0x1000), 10_000_000);
    assert_eq!(hpet.counter_to_ns(123_456), 123 * 10_000);
    assert_eq!(hpet.address().as_usize(), 0x1000);
}

#[test]
fn root_table_entry_sizes() {
    assert_eq!(RootSdt::Rsdt(PhysAddr::new(0x1000)).address_and_entry_size(), (PhysAddr::new(0x1000), 4));
    assert_eq!(RootSdt::Xsdt(PhysAddr::new(0x2000)).address_and_entry_size(), (PhysAddr::new(0x2000), 8));
}

struct RecordingMapper {
    unmapped: Vec<(usize, usize)>,
    fail: bool,
    mapped: Vec<(usize, usize)>,
}

impl MemoryMapper for RecordingMapper {
    fn translate(&self, _addr: VirtAddr) -> Option<PhysAddr> {
        None
    }
    fn get_and_map_single(&mut self, vaddr: VirtAddr, _flags: EntryFlags) -> MemoryResult {
        if self.fail {
            Err(kwast::mm::mapper::MemoryError::OOM)
        } else {
            self.mapped.push((vaddr.as_usize(), 4096));
            Ok(())
        }
    }
    fn free_and_unmap_single(&mut self, _vaddr: VirtAddr) {}
    fn map_single(&mut self, _vaddr: VirtAddr, _paddr: PhysAddr, _flags: EntryFlags) -> MemoryResult {
        Ok(())
    }
    fn unmap_single(&mut self, _vaddr: VirtAddr) {}
    fn map_range_physical(&mut self, _vaddr: VirtAddr, _paddr: PhysAddr, _size: usize, _flags: EntryFlags) -> MemoryResult {
        Ok(())
    }
    fn map_range(&mut self, vaddr: VirtAddr, size: usize, _flags: EntryFlags) -> MemoryResult {
        if self.fail {
            Err(kwast::mm::mapper::MemoryError::OOM)
        } else {
            self.mapped.push((vaddr.as_usize(), size));
            Ok(())
        }
    }
    fn unmap_range(&mut self, vaddr: VirtAddr, size: usize) {
        self.unmapped.push((vaddr.as_usize(), size));
    }
    fn free_and_unmap_range(&mut self, _vaddr: VirtAddr, _size: usize) {}
    fn change_flags_range(&mut self, _vaddr: VirtAddr, _size: usize, _flags: EntryFlags) -> MemoryResult {
        Ok(())
    }
}

#[test]
fn sdt_mapping_size_and_release() {
    assert_eq!(SdtFixedMapping::required_size(PhysAddr::new(0x1_0ff0), 0x20), Some(0x2000));
    assert_eq!(SdtFixedMapping::required_size(PhysAddr::new(0x1_0000), 0x100), Some(0x1000));
    assert_eq!(SdtFixedMapping::required_size(PhysAddr::new(0x1_0000), 0x40_0000), Some(0x40_0000));
    assert_eq!(SdtFixedMapping::required_size(PhysAddr::new(0x1_0010), 0x40_0000), None);
    let mut mapper = RecordingMapper { unmapped: Vec::new(), fail: false, mapped: Vec::new() };
    let m = SdtFixedMapping { sdt: VirtAddr::new(0x5_0010), size: 0x2000 };
    m.unmap(&mut mapper);
    assert_eq!(mapper.unmapped, vec![(0x5_0000, 0x2000)]);
}

#[test]
fn idt_flags() {
    assert_eq!(IdtFlags::present().bits(), 0x80);
    assert_eq!(IdtFlags::present().union(IdtFlags::int_gate()).bits(), 0x8e);
    assert_eq!(IdtFlags::present().union(IdtFlags::trap_gate()).bits(), 0x8f);
    assert_eq!(IdtFlags::empty().bits(), 0);
}

#[test]
fn cpu_data_registration() {
    let mut data = CpuData::new();
    assert_eq!(data.preempt_count(), 0);
    assert!(data.asid_manager().is_none());
    data.prepare_to_set(0xdead_0000, true);
    let manager = data.asid_manager().unwrap();
    // A fresh manager: generation 0, every identifier free.
    assert!(manager.is_valid(Asid::null()));
    assert_eq!(CpuData::preempt_count_offset(), 8);
}

#[test]
fn kernel_idt_routes_vectors() {
    let exceptions: Vec<usize> = (0..32).map(|n| 0xffff_ffff_8010_0000 + n * 0x10).collect();
    let idt = IDT::kernel(&exceptions, 0xffff_ffff_8020_0000, 0xffff_ffff_8030_0000);
    for n in 0..32 {
        let e = idt.entry(n);
        assert_eq!(e.handler(), 0xffff_ffff_8010_0000 + n as u64 * 0x10);
        assert_eq!(e.type_attr(), 0x8e);
        assert_eq!(e.selector(), 0x08);
        let own_stack = n == 2 || n == 8 || n == 13 || n == 14;
        assert_eq!(e.ist(), if own_stack { 1 } else { 0 });
    }
    assert_eq!(idt.entry(32).handler(), 0xffff_ffff_8020_0000);
    assert_eq!(idt.entry(32).ist(), 0);
    for n in 33..48 {
        assert_eq!(idt.entry(n).handler(), 0xffff_ffff_8030_0000);
        assert_eq!(idt.entry(n).type_attr(), 0x8e);
    }
    for n in 48..64 {
        assert_eq!(idt.entry(n).handler(), 0);
        assert_eq!(idt.entry(n).type_attr(), 0);
    }
}

#[test]
fn asid_is_not_reused_once_another_domain_took_it() {
    let mut manager = AsidManager::new();
    let mut kept = Asid::null();
    for i in 0..4096u64 {
        let (a, _) = manager.allocate(Asid::null());
        if i == 5 {
            kept = a;
        }
    }
    // Generation 1 starts; numbers 0 to 5 go to other domains.
    for n in 0..6u64 {
        let (a, _) = manager.allocate(Asid::null());
        assert_eq!((a.generation(), a.as_u64()), (1, n));
    }
    // Number 5 of generation 0 is taken in generation 1 already: its domain gets a new one.
    let (again, inv) = manager.allocate(kept);
    assert_eq!((again.generation(), again.as_u64(), inv), (1, 6, Some(6)));
}

#[test]
fn asid_is_reused_when_nobody_took_it() {
    let mut manager = AsidManager::new();
    let mut kept = Asid::null();
    for i in 0..4096u64 {
        let (a, _) = manager.allocate(Asid::null());
        if i == 9 {
            kept = a;
        }
    }
    let (first, _) = manager.allocate(Asid::null());
    assert_eq!(first.as_u64(), 0);
    // Number 9 is still unused in generation 1: its domain keeps it, nothing to invalidate.
    let (again, inv) = manager.allocate(kept);
    assert_eq!((again.generation(), again.as_u64(), inv), (1, 9, None));
}

#[test]
fn simd_config_with_xsave_picks_the_best_save_instruction() {
    let c = simd_config(true, true, true, true, 832);
    assert_eq!(c.cr4_bits, (1 << 9) | (1 << 10) | (1 << 18));
    assert_eq!(c.xcr0, Some(0b111));
    assert_eq!(c.method, SimdSaveMethod::Xsaves);
    assert_eq!(c.save_size, 832);
    assert_eq!(c.save_align, 64);

    let c = simd_config(true, false, false, true, 576);
    assert_eq!(c.xcr0, Some(0b11));
    assert_eq!(c.method, SimdSaveMethod::Xsaveopt);
    assert_eq!(c.save_size, 576);

    let c = simd_config(true, false, false, false, 576);
    assert_eq!(c.method, SimdSaveMethod::Xsave);
}

#[test]
fn simd_config_without_xsave_uses_fxsave() {
    let c = simd_config(false, true, true, true, 0);
    assert_eq!(c.cr4_bits, (1 << 9) | (1 << 10));
    assert_eq!(c.xcr0, None);
    assert_eq!(c.method, SimdSaveMethod::Fxsave);
    assert_eq!(c.save_size, 512);
    assert_eq!(c.save_align, 16);
}

#[test]
fn cpu_data_assigns_asids_only_when_they_are_in_use() {
    let mapping = CpuPageMapping::from_raw(0x5000);
    let mut domain = ProtectionDomain::from_existing_mapping(mapping);
    let mut data = CpuData::new();
    // Not in use on this processor: the domain keeps its plain mapping.
    assert_eq!(data.assign_asid(&mut domain), None);
    assert_eq!(domain.cpu_page_mapping(), mapping);
    data.prepare_to_set(0xdead_0000, true);
    // In use, but the domain's identifier is of the manager's generation: kept.
    assert_eq!(data.assign_asid(&mut domain), None);
    assert_eq!(domain.cpu_page_mapping(), mapping);
    assert!(data.asid_manager().unwrap().is_valid(Asid::null()));
}

#[test]
fn cpu_data_counts_preemption() {
    let mut data = CpuData::new();
    data.preempt_disable();
    data.preempt_disable();
    assert_eq!(data.preempt_count(), 2);
    data.preempt_enable();
    assert_eq!(data.preempt_count(), 1);
    data.preempt_enable();
    assert_eq!(data.preempt_count(), 0);
}

use kwast::arch::acpi::RootSdt;
use kwast::arch::address::{PhysAddr, VirtAddr};
use kwast::arch::boot::{frame_link_slot, modules_range, reserved_end, root_sdt, section_flags, usable_area, Range};

#[test]
fn modules_range_spans_all_modules() {
    assert_eq!(modules_range(&[]), None);
    let r = modules_range(&[(0x20_0000, 0x21_0000), (0x10_0000, 0x10_8000), (0x30_0000, 0x30_1000)]).unwrap();
    assert_eq!(r.start.as_usize(), 0x10_0000);
    assert_eq!(r.len, 0x20_1000);
    let r = modules_range(&[(0x5000, 0x6000)]).unwrap();
    assert_eq!((r.start.as_usize(), r.len), (0x5000, 0x1000));
}

#[test]
fn reserved_end_is_the_furthest_end() {
    assert_eq!(reserved_end(0x10_0000, 0x20_0000, None), 0x20_0000);
    assert_eq!(reserved_end(0x30_0000, 0x20_0000, None), 0x30_0000);
    let modules = Some(Range { start: VirtAddr::new(0x40_0000), len: 0x1000 });
    assert_eq!(reserved_end(0x30_0000, 0x20_0000, modules), 0x40_1000);
    let modules = Some(Range { start: VirtAddr::new(0x1000), len: 0x1000 });
    assert_eq!(reserved_end(0x30_0000, 0x20_0000, modules), 0x30_0000);
}

#[test]
fn section_flags_follow_the_section() {
    assert_eq!(section_flags(false, true).bits(), 0x101);
    assert_eq!(section_flags(true, true).bits(), 0x103);
    assert_eq!(section_flags(false, false).bits(), 0x8000_0000_0000_0101);
    assert_eq!(section_flags(true, false).bits(), 0x8000_0000_0000_0103);
}

#[test]
fn usable_area_shrinks_to_pages_and_skips_reserved() {
    let reserved = PhysAddr::new(0x10_0000);
    // Above the reserved end: rounded inwards to whole pages.
    let (s, e) = usable_area(0x20_0010, 0x30_0ff0, reserved).unwrap();
    assert_eq!((s.as_usize(), e.as_usize()), (0x20_1000, 0x30_0000));
    // Starting below the reserved end: starts at the reserved end.
    let (s, e) = usable_area(0x1000, 0x20_0000, reserved).unwrap();
    assert_eq!((s.as_usize(), e.as_usize()), (0x10_0000, 0x20_0000));
    // Entirely below the reserved end: skipped.
    assert_eq!(usable_area(0x1000, 0x9_f000, reserved), None);
    assert_eq!(usable_area(0x1000, 0x10_0000, reserved), None);
}

#[test]
fn frame_link_slot_uses_the_temporary_mapping() {
    assert_eq!(frame_link_slot(0x20_0000), 0x3fe0_0000);
    assert_eq!(frame_link_slot(0x12_3456_7000), 0x3ff6_7000);
}

#[test]
fn root_sdt_prefers_the_xsdt() {
    assert_eq!(root_sdt(Some(0x1000), Some(0x2000)), Some(RootSdt::Xsdt(PhysAddr::new(0x1000))));
    assert_eq!(root_sdt(None, Some(0x2000)), Some(RootSdt::Rsdt(PhysAddr::new(0x2000))));
    assert_eq!(root_sdt(None, None), None);
}

use kwast::arch::address::PhysAddr;
use kwast::arch::paging::{Entry, EntryFlags};
use kwast::arch::table::{EntryModifier, Level4, Level2, Table};

#[test]
fn next_table_address_follows_the_recursive_entry() {
    let mut entries = [Entry::new(0); 512];
    entries[3] = Entry::new(0x5000 | 1);
    let p4: Table<Level4> = Table::new(entries);
    let p4_addr = 0xffff_ffff_ffff_f000usize;
    assert_eq!(p4.next_table_address(p4_addr, 3), Some(0xffff_ffff_ffe0_3000));
    assert_eq!(p4.next_table_address(p4_addr, 4), None);

    let p2: Table<Level2> = Table::new(entries);
    assert_eq!(p2.next_table_address(0xffff_ffff_c000_0000, 3), Some(0xffff_ff80_0000_3000));
}

#[test]
fn entry_modifier_reports_stale_translations() {
    let mut entry = Entry::new(0);
    {
        let mut m = EntryModifier::new(&mut entry, 0x40_0000);
        // Not present before: nothing to invalidate.
        assert_eq!(m.set(PhysAddr::new(0x7000), EntryFlags::present().union(EntryFlags::writable())), None);
    }
    assert_eq!(entry.get_raw(), 0x7003);
    {
        let mut m = EntryModifier::new(&mut entry, 0x40_0000);
        // Present before: the page must be invalidated.
        assert_eq!(m.set_flags(EntryFlags::present()), Some(0x40_0000));
    }
    assert_eq!(entry.get_raw(), 0x7001);
}

#[test]
fn new_root_shares_the_kernel_entry_and_maps_itself() {
    let mut entries = [Entry::new(0x1234_5678_9000 | 0x3); 512];
    entries[5] = Entry::new(0xffff);
    let mut p4: Table<Level4> = Table::new(entries);
    // The running table's first entry, with a used count of 7 in its ignored bits.
    let kernel_entry = Entry::new((7u64 << 52) | 0x20_0000 | 0x3);
    p4.init_new_root(kernel_entry, PhysAddr::new(0x9_9000));
    assert_eq!(p4.entries[0].get_raw(), (2u64 << 52) | 0x20_0000 | 0x3);
    assert_eq!(p4.used_count(), 2);
    assert_eq!(p4.entries[511].get_raw(), 0x8000_0000_0000_0003 | 0x9_9000);
    assert!(p4.entries[1..511].iter().all(|e| e.get_raw() == 0));
}

#[test]
fn table_counts_the_entries_in_use() {
    let mut t: Table<Level2> = Table::new([Entry::new(0); 512]);
    t.use_entry(7);
    assert_eq!(t.used_count(), 1);
    t.entries[7] = Entry::new(0x9000 | 1);
    // Already in use: no change.
    t.use_entry(7);
    assert_eq!(t.used_count(), 1);
    t.use_entry(0);
    assert_eq!(t.used_count(), 2);
    // Giving entries up: the table is unused once the count is zero.
    assert!(!t.release_entry(7));
    assert!(t.entries[7].is_unused());
    assert_eq!(t.entries[7].flags(), EntryFlags::empty());
    assert_eq!(t.used_count(), 1);
    assert!(t.release_entry(0));
    assert_eq!(t.used_count(), 0);
}

//! Boot-time decisions: where the reserved memory ends, how kernel sections are mapped,
//! which parts of the memory map become free frames, and which ACPI root table is used.
use vstd::prelude::*;
use crate::arch::address::{PhysAddr, VirtAddr, phys_limit, spec_align_up, spec_align_down, PAGE_SIZE};
use crate::arch::paging::EntryFlags;
use crate::arch::acpi::RootSdt;

verus! {

/// A range of memory.
#[derive(Debug, Clone, Copy, PartialEq, Eq, Structural)]
pub struct Range {
    pub start: VirtAddr,
    pub len: usize,
}

/// A module loaded by the boot loader.
#[derive(Debug, Clone, Copy, PartialEq, Eq, Structural)]
pub struct BootModule {
    pub range: Range,
}

/// The smallest start among the modules.
pub open spec fn min_start(modules: Seq<(u32, u32)>) -> int
    decreases modules.len(),
{
    if modules.len() <= 1 {
        modules[0].0 as int
    } else {
        let rest = min_start(modules.drop_last());
        if (modules.last().0 as int) < rest { modules.last().0 as int } else { rest }
    }
}

/// The largest end among the modules.
pub open spec fn max_end(modules: Seq<(u32, u32)>) -> int
    decreases modules.len(),
{
    if modules.len() <= 1 {
        modules[0].1 as int
    } else {
        let rest = max_end(modules.drop_last());
        if (modules.last().1 as int) > rest { modules.last().1 as int } else { rest }
    }
}

proof fn lemma_min_max(modules: Seq<(u32, u32)>)
    requires
        modules.len() >= 1,
    ensures
        exists|i: int| 0 <= i < modules.len() && min_start(modules) == modules[i].0,
        exists|i: int| 0 <= i < modules.len() && max_end(modules) == modules[i].1,
        forall|i: int| 0 <= i < modules.len() ==> min_start(modules) <= #[trigger] modules[i].0,
        forall|i: int| 0 <= i < modules.len() ==> max_end(modules) >= #[trigger] modules[i].1,
    decreases modules.len(),
{
    if modules.len() > 1 {
        let rest = modules.drop_last();
        lemma_min_max(rest);
        let a = choose|i: int| 0 <= i < rest.len() && min_start(rest) == rest[i].0;
        let b = choose|i: int| 0 <= i < rest.len() && max_end(rest) == rest[i].1;
        assert(modules[a] == rest[a]);
        assert(modules[b] == rest[b]);
        assert(modules[modules.len() - 1] == modules.last());
        assert forall|i: int| 0 <= i < modules.len() implies min_start(modules) <= #[trigger] modules[i].0 by {
            if i < modules.len() - 1 {
                assert(rest[i] == modules[i]);
            }
        }
        assert forall|i: int| 0 <= i < modules.len() implies max_end(modules) >= #[trigger] modules[i].1 by {
            if i < modules.len() - 1 {
                assert(rest[i] == modules[i]);
            }
        }
    } else {
        assert(modules[0] == modules[0]);
    }
}

/// The range covering all boot modules, given as `(start, end)` pairs: from the lowest start
/// to the highest end. `None` without modules.
pub fn modules_range(modules: &[(u32, u32)]) -> (r: Option<Range>)
    requires
        forall|i: int| 0 <= i < modules@.len() ==> (#[trigger] modules@[i]).0 <= modules@[i].1,
    ensures
        modules@.len() == 0 <==> r is None,
        r matches Some(range) ==> range.start@ == min_start(modules@) && range.len == max_end(modules@)
            - min_start(modules@),
{
    if modules.len() == 0 {
        return None;
    }
    let mut lowest: u32 = modules[0].0;
    let mut highest: u32 = modules[0].1;
    let mut i: usize = 1;
    while i < modules.len()
        invariant
            1 <= i <= modules@.len(),
            lowest == min_start(modules@.subrange(0, i as int)),
            highest == max_end(modules@.subrange(0, i as int)),
        decreases modules@.len() - i,
    {
        proof {
            assert(modules@.subrange(0, i as int + 1).drop_last() =~= modules@.subrange(0, i as int));
        }
        if modules[i].0 < lowest {
            lowest = modules[i].0;
        }
        if modules[i].1 > highest {
            highest = modules[i].1;
        }
        i = i + 1;
    }
    proof {
        assert(modules@.subrange(0, modules@.len() as int) =~= modules@);
        lemma_min_max(modules@);
        let k = choose|k: int| 0 <= k < modules@.len() && min_start(modules@) == modules@[k].0;
        assert(modules@[k].0 <= modules@[k].1);
        crate::mm::vma_allocator::lemma_canonical_range(0, 0x1_0000_0000, lowest as usize);
    }
    Some(Range { start: VirtAddr::new(lowest as usize), len: (highest - lowest) as usize })
}

/// Put the reserved end after the kernel, the boot information and the modules.
pub fn reserved_end(kernel_end: usize, mboot_end: usize, modules: Option<Range>) -> (r: usize)
    requires
        modules matches Some(range) ==> range.start@ + range.len <= usize::MAX,
    ensures
        r >= kernel_end,
        r >= mboot_end,
        modules matches Some(range) ==> r >= range.start@ + range.len,
        r == kernel_end || r == mboot_end || (modules matches Some(range) && r == range.start@ + range.len),
{
    let mut reserved_end = if kernel_end >= mboot_end { kernel_end } else { mboot_end };
    if let Some(range) = modules {
        let end = range.start.as_usize() + range.len;
        if end > reserved_end {
            reserved_end = end;
        }
    }
    reserved_end
}

/// The page flags of a kernel section: present and global, writable only when the section is,
/// and not executable unless the section is.
pub fn section_flags(writable: bool, executable: bool) -> (r: EntryFlags)
    ensures
        r@ == (if writable {
            if executable { 0x103u64 } else { 0x8000_0000_0000_0103u64 }
        } else {
            if executable { 0x101u64 } else { 0x8000_0000_0000_0101u64 }
        }),
{
    let mut paging_flags = EntryFlags::present().union(EntryFlags::global());
    if writable {
        paging_flags = paging_flags.union(EntryFlags::writable());
    }
    if !executable {
        paging_flags = paging_flags.union(EntryFlags::nx());
    }
    proof {
        assert(1u64 | 0x100u64 == 0x101u64 && 0x101u64 | 2u64 == 0x103u64
            && 0x101u64 | 0x8000_0000_0000_0000u64 == 0x8000_0000_0000_0101u64
            && 0x103u64 | 0x8000_0000_0000_0000u64 == 0x8000_0000_0000_0103u64) by (bit_vector);
    }
    paging_flags
}

/// The frames of a memory map area that become free: the area shrunk to whole pages, and
/// starting no lower than the reserved end. `None` when the reserved end swallows the area.
/// Otherwise the frame at the returned start is used first, and then each next frame below
/// the returned end.
pub fn usable_area(start: usize, end: usize, reserved_end: PhysAddr) -> (r: Option<(PhysAddr, PhysAddr)>)
    requires
        start + PAGE_SIZE < phys_limit(),
        start + PAGE_SIZE <= usize::MAX,
        end < phys_limit(),
    ensures
        r is None <==> spec_align_up(start as int) < reserved_end@ && reserved_end@ >= spec_align_down(end as int),
        r matches Some(area) ==> area.0@ == (if spec_align_up(start as int) < reserved_end@ {
            reserved_end@ as int
        } else {
            spec_align_up(start as int)
        }) && area.1@ == spec_align_down(end as int),
{
    let mut start = PhysAddr::new(start).align_up();
    let end = PhysAddr::new(end).align_down();

    // Adjust for reserved area
    if start.as_usize() < reserved_end.as_usize() {
        start = reserved_end;
        if start.as_usize() >= end.as_usize() {
            return None;
        }
    }
    Some((start, end))
}

/// The address through which the link of frame `current` is written: frames are reached through
/// a temporary 2 MiB mapping in the last entry of the second level.
pub fn frame_link_slot(current: usize) -> (r: usize)
    ensures
        r == 511 * 0x20_0000 + current % 0x20_0000,
{
    assert((0x3fe0_0000usize | (current & 0x1f_ffffusize)) == 0x3fe0_0000usize + current % 0x20_0000usize)
        by (bit_vector);
    (511 * 0x200_000) | (current & 0x1ff_fff)
}

/// The root table to use: the XSDT when the boot loader gave one, else the RSDT.
pub fn root_sdt(xsdt: Option<usize>, rsdt: Option<usize>) -> (r: Option<RootSdt>)
    requires
        xsdt matches Some(a) ==> a < phys_limit(),
        rsdt matches Some(a) ==> a < phys_limit(),
    ensures
        xsdt matches Some(a) ==> r matches Some(RootSdt::Xsdt(p)) && p@ == a,
        xsdt is None ==> (rsdt matches Some(a) ==> r matches Some(RootSdt::Rsdt(p)) && p@ == a),
        xsdt is None && rsdt is None ==> r is None,
{
    if let Some(a) = xsdt {
        Some(RootSdt::Xsdt(PhysAddr::new(a)))
    } else if let Some(a) = rsdt {
        Some(RootSdt::Rsdt(PhysAddr::new(a)))
    } else {
        None
    }
}

} // verus!

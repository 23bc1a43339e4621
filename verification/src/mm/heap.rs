//! Kernel heap bookkeeping: size classes, slab cache geometry and slab colouring, and the
//! space manager that hands out page blocks from the buddy tree.
use vstd::prelude::*;
use vstd::arithmetic::power2::{pow2, lemma2_to64, lemma_pow2_pos};
use vstd::bits::{lemma_u64_shl_is_mul, lemma_u64_pow2_no_overflow};
use vstd::std_specs::bits::axiom_u64_leading_zeros;
use crate::arch::address::{PAGE_SIZE, VirtAddr, spec_align_up};
use crate::mm::buddy::{Tree, NODE_COUNT, MAX_OFFSET, valid_block, block_node, free};
use crate::mm::vma_allocator::{canonical_range, lemma_canonical_range};

verus! {

/// The size class an allocation is served from.
#[derive(Debug, Clone, Copy, PartialEq, Eq, Structural)]
pub enum AllocType {
    C32,
    C64,
    C128,
    C256,
    C512,
    C1024,
    C2048,
    C4096,
    C8192,
    BIG,
}

/// The object size of a cached size class (`0` for big allocations).
pub open spec fn class_size(t: AllocType) -> int {
    match t {
        AllocType::C32 => 32,
        AllocType::C64 => 64,
        AllocType::C128 => 128,
        AllocType::C256 => 256,
        AllocType::C512 => 512,
        AllocType::C1024 => 1024,
        AllocType::C2048 => 2048,
        AllocType::C4096 => 4096,
        AllocType::C8192 => 8192,
        AllocType::BIG => 0,
    }
}

/// The smallest size class whose objects hold `size` bytes at alignment `align`.
pub open spec fn size_class(size: int, align: int) -> AllocType {
    if size <= 32 && align <= 32 {
        AllocType::C32
    } else if size <= 64 && align <= 64 {
        AllocType::C64
    } else if size <= 128 && align <= 128 {
        AllocType::C128
    } else if size <= 256 && align <= 256 {
        AllocType::C256
    } else if size <= 512 && align <= 512 {
        AllocType::C512
    } else if size <= 1024 && align <= 1024 {
        AllocType::C1024
    } else if size <= 2048 && align <= 2048 {
        AllocType::C2048
    } else if size <= 4096 && align <= 4096 {
        AllocType::C4096
    } else if size <= 8192 && align <= 8192 {
        AllocType::C8192
    } else {
        AllocType::BIG
    }
}

/// `2^k` is at least `x`, and `k` is the smallest such exponent.
pub open spec fn is_ceil_log2(x: int, k: nat) -> bool {
    &&& x <= pow2(k)
    &&& k == 0 || pow2((k - 1) as nat) < x
}

/// A block of `2^k` pages holds `size` bytes, and `k` is the smallest such order.
pub open spec fn is_page_order(size: int, k: nat) -> bool {
    &&& size <= PAGE_SIZE * pow2(k)
    &&& k == 0 || PAGE_SIZE * pow2((k - 1) as nat) < size
}

/// The page order of an allocation of `size` bytes: the least `k` with
/// `PAGE_SIZE << k >= size`.
pub open spec fn page_order(size: int) -> nat {
    choose|k: nat| #[trigger] is_page_order(size, k)
}

proof fn lemma_page_order(size: int, k: nat)
    requires
        is_page_order(size, k),
    ensures
        page_order(size) == k,
{
    let c = page_order(size);
    assert(is_page_order(size, c));
    if c < k {
        if c < (k - 1) as nat {
            vstd::arithmetic::power2::lemma_pow2_strictly_increases(c, (k - 1) as nat);
        }
    } else if k < c {
        if k < (c - 1) as nat {
            vstd::arithmetic::power2::lemma_pow2_strictly_increases(k, (c - 1) as nat);
        }
    }
}

/// `size` bytes take `pages` pages, rounded up; the least power of two of at least that many
/// pages is the page order.
proof fn lemma_ceil_pages(size: int, pages: int, k: nat)
    requires
        size >= 1,
        pages == (size - 1) / PAGE_SIZE as int + 1,
        is_ceil_log2(pages, k),
    ensures
        is_page_order(size, k),
{
    let p = pow2(k) as int;
    assert(size <= PAGE_SIZE * p) by (nonlinear_arith)
        requires
            pages == (size - 1) / 4096 + 1,
            pages <= p,
            size >= 1;
    if k > 0 {
        let q = pow2((k - 1) as nat) as int;
        assert(PAGE_SIZE * q < size) by (nonlinear_arith)
            requires
                pages == (size - 1) / 4096 + 1,
                q < pages,
                size >= 1;
    }
}

/// Size of a slab's header: two links and two counters.
pub const SLAB_HEADER_SIZE: usize = 24;

/// Highest slab order that is considered for a cache.
pub const MAX_SLAB_ORDER: usize = 5;

/// `x` rounded up to a multiple of `a`.
pub open spec fn align_to(x: int, a: int) -> int {
    ((x + a - 1) / a) * a
}

/// Bytes in a slab of order `i`.
pub open spec fn slab_span(i: int) -> int {
    PAGE_SIZE * pow2(i as nat)
}

/// Bytes left for objects in a slab of order `i` after its header.
pub open spec fn slab_room(i: int, hdr: int) -> int {
    slab_span(i) - hdr
}

/// Objects that fit in a slab of order `i`.
pub open spec fn slab_slots(i: int, obj: int, hdr: int) -> int {
    slab_room(i, hdr) / obj
}

/// Bytes wasted at the end of a slab of order `i`.
pub open spec fn slab_waste(i: int, obj: int, hdr: int) -> int {
    slab_room(i, hdr) % obj
}

/// A slab of order `i` holds the header, and more than one object.
pub open spec fn slab_usable(i: int, obj: int, hdr: int) -> bool {
    &&& 0 <= i <= MAX_SLAB_ORDER
    &&& slab_span(i) >= obj + hdr
    &&& slab_slots(i, obj, hdr) > 1
}

/// Order `o` wastes the least among the usable orders (the smallest such order on a tie), and
/// wastes less than a page.
pub open spec fn best_slab_order(o: int, obj: int, hdr: int) -> bool {
    &&& slab_usable(o, obj, hdr)
    &&& slab_waste(o, obj, hdr) < PAGE_SIZE
    &&& forall|j: int| #[trigger] slab_usable(j, obj, hdr) ==> slab_waste(o, obj, hdr) <= slab_waste(j, obj, hdr)
        && (slab_waste(j, obj, hdr) == slab_waste(o, obj, hdr) ==> o <= j)
}

/// Some usable order wastes less than a page.
pub open spec fn has_slab_order(obj: int, hdr: int) -> bool {
    exists|i: int| #[trigger] slab_usable(i, obj, hdr) && slab_waste(i, obj, hdr) < PAGE_SIZE
}

/// A cache in the slab allocator: the geometry of its slabs and its colouring state.
#[derive(Debug)]
pub struct Cache {
    pub obj_size: u32,
    pub slots_count: u32,
    pub start_offset: u32,
    pub alignment: u32,
    pub color: u16,
    pub max_color: u16,
    pub slab_order: u8,
    pub free_slab_count: u8,
}

/// What the lists of a cache need after an object went back to a slab.
#[derive(Debug, Clone, Copy, PartialEq, Eq, Structural)]
pub enum SlabChange {
    /// The slab was full and now becomes a partial slab.
    BecamePartial,
    /// The slab was partial and now is free; it moves to the free slabs.
    BecameFree,
    /// The slab became free and it is one free slab too many: the oldest free slab goes back.
    BecameFreeAndCleanup,
    /// The slab stays a partial slab.
    StaysPartial,
}

proof fn lemma_slots_monotone(i: int, j: int, obj: int, hdr: int)
    requires
        0 <= i <= j,
        obj > 0,
    ensures
        slab_span(i) <= slab_span(j),
        slab_slots(i, obj, hdr) <= slab_slots(j, obj, hdr),
{
    if i < j {
        vstd::arithmetic::power2::lemma_pow2_strictly_increases(i as nat, j as nat);
    }
    vstd::arithmetic::div_mod::lemma_div_is_ordered(slab_room(i, hdr), slab_room(j, hdr), obj);
}

impl Cache {
    /// Creates a new cache.
    pub fn new(
        obj_size: u32,
        alignment: u32,
        max_color: u16,
        start_offset: u32,
        slots_count: u32,
        slab_order: u8,
    ) -> (r: Self)
        ensures
            r.obj_size == obj_size,
            r.alignment == alignment,
            r.max_color == max_color,
            r.start_offset == start_offset,
            r.slots_count == slots_count,
            r.slab_order == slab_order,
            r.color == 0,
            r.free_slab_count == 0,
    {
        Self {
            obj_size,
            slots_count,
            start_offset,
            alignment,
            color: 0,
            max_color,
            slab_order,
            free_slab_count: 0,
        }
    }

    /// Create cache: picks the slab order (at most `MAX_SLAB_ORDER`) that wastes the least.
    pub fn calculate_and_create(obj_size: usize, alignment: usize) -> (r: Cache)
        requires
            obj_size > 0,
            alignment > 0,
            obj_size + alignment <= usize::MAX,
            SLAB_HEADER_SIZE + alignment <= usize::MAX,
            align_to(obj_size as int, alignment as int) + align_to(SLAB_HEADER_SIZE as int, alignment as int) <= usize::MAX,
            has_slab_order(align_to(obj_size as int, alignment as int), align_to(SLAB_HEADER_SIZE as int, alignment as int)),
        ensures
            ({
                let obj = align_to(obj_size as int, alignment as int);
                let hdr = align_to(SLAB_HEADER_SIZE as int, alignment as int);
                &&& best_slab_order(r.slab_order as int, obj, hdr)
                &&& r.slots_count == slab_slots(r.slab_order as int, obj, hdr) as u32
                &&& r.obj_size == obj as u32
                &&& r.start_offset == hdr as u32
                &&& r.alignment == alignment as u32
                &&& r.max_color == ((slab_waste(r.slab_order as int, obj, hdr) / alignment as int) * alignment as int) as u16
                &&& r.color == 0
                &&& r.free_slab_count == 0
            }),
    {
        let ghost requested = obj_size;
        let obj_size = ((obj_size + alignment - 1) / alignment) * alignment;
        let slab_rounded_up = ((SLAB_HEADER_SIZE + alignment - 1) / alignment) * alignment;
        let ghost obj = obj_size as int;
        let ghost hdr = slab_rounded_up as int;
        proof {
            assert(obj > 0) by (nonlinear_arith)
                requires
                    obj == ((requested + alignment - 1) / alignment as int) * alignment,
                    requested > 0,
                    alignment > 0;
        }

        let mut best_wastage: usize = PAGE_SIZE;
        let mut order: usize = 0;
        let mut slots_count: usize = 0;
        let mut i: usize = 0;
        while i <= MAX_SLAB_ORDER
            invariant
                obj == obj_size,
                hdr == slab_rounded_up,
                obj > 0,
                obj_size + slab_rounded_up <= usize::MAX,
                i <= MAX_SLAB_ORDER + 1,
                best_wastage <= PAGE_SIZE,
                best_wastage == PAGE_SIZE ==> order == 0,
                best_wastage < PAGE_SIZE ==> ({
                    &&& order < i
                    &&& slab_usable(order as int, obj, hdr)
                    &&& slab_waste(order as int, obj, hdr) == best_wastage
                    &&& slots_count == slab_slots(order as int, obj, hdr)
                }),
                forall|j: int| 0 <= j < i && #[trigger] slab_usable(j, obj, hdr) ==> best_wastage <= slab_waste(j, obj, hdr)
                    && (slab_waste(j, obj, hdr) == best_wastage ==> order <= j),
            decreases MAX_SLAB_ORDER + 1 - i,
        {
            proof {
                lemma2_to64();
                vstd::bits::lemma_usize_shl_is_mul(PAGE_SIZE, i);
            }
            let span = PAGE_SIZE << i;
            assert(span == slab_span(i as int));
            if span >= obj_size + slab_rounded_up {
                let size = span - slab_rounded_up;
                let wastage = size % obj_size;
                assert(wastage == slab_waste(i as int, obj, hdr));
                if wastage < best_wastage {
                    let count = size / obj_size;
                    assert(count == slab_slots(i as int, obj, hdr));
                    if count > 1 {
                        best_wastage = wastage;
                        order = i;
                        slots_count = count;
                    } else {
                        proof {
                            if best_wastage < PAGE_SIZE {
                                lemma_slots_monotone(order as int, i as int, obj, hdr);
                            }
                        }
                        slots_count = count;
                    }
                }
            }
            i = i + 1;
        }
        proof {
            let w = choose|w: int| #[trigger] slab_usable(w, obj, hdr) && slab_waste(w, obj, hdr) < PAGE_SIZE;
            assert(best_wastage < PAGE_SIZE);
            lemma_slots_monotone(order as int, MAX_SLAB_ORDER as int, obj, hdr);
            vstd::arithmetic::div_mod::lemma_div_is_ordered(slab_room(order as int, hdr), slab_span(MAX_SLAB_ORDER as int), obj);
            lemma2_to64();
            assert(slots_count <= slab_span(5) / obj);
        }
        proof {
            assert((best_wastage as int / alignment as int) * alignment <= best_wastage) by (nonlinear_arith)
                requires
                    alignment > 0;
        }
        let max_color = (best_wastage / alignment) * alignment;
        Cache::new(
            obj_size as u32,
            alignment as u32,
            max_color as u16,
            slab_rounded_up as u32,
            slots_count as u32,
            order as u8,
        )
    }
}

impl Cache {
    /// The colour stays within its bound.
    pub open spec fn wf(&self) -> bool {
        &&& self.color <= self.max_color
        &&& self.max_color as int + self.alignment <= u16::MAX
    }

    /// Offset of the first object in a new slab: slabs are coloured by shifting their objects by
    /// a multiple of the alignment, cycling up to `max_color`.
    pub fn next_slab_start(&mut self) -> (r: u32)
        requires
            old(self).wf(),
            old(self).start_offset + old(self).color <= u32::MAX,
        ensures
            final(self).wf(),
            r == old(self).start_offset + old(self).color,
            final(self).color == (if old(self).color + old(self).alignment > old(self).max_color {
                0
            } else {
                old(self).color + old(self).alignment
            }),
            final(self).obj_size == old(self).obj_size,
            final(self).slots_count == old(self).slots_count,
            final(self).start_offset == old(self).start_offset,
            final(self).alignment == old(self).alignment,
            final(self).max_color == old(self).max_color,
            final(self).slab_order == old(self).slab_order,
            final(self).free_slab_count == old(self).free_slab_count,
    {
        let start_offset = self.start_offset + self.color as u32;
        self.color = self.color + self.alignment as u16;
        if self.color > self.max_color {
            self.color = 0;
        }
        start_offset
    }

    /// A free slab was taken to allocate from: it is a partial slab now.
    pub fn take_free_slab(&mut self)
        requires
            old(self).free_slab_count > 0,
        ensures
            final(self).free_slab_count == old(self).free_slab_count - 1,
            final(self).obj_size == old(self).obj_size,
            final(self).slots_count == old(self).slots_count,
            final(self).start_offset == old(self).start_offset,
            final(self).alignment == old(self).alignment,
            final(self).color == old(self).color,
            final(self).max_color == old(self).max_color,
            final(self).slab_order == old(self).slab_order,
    {
        self.free_slab_count = self.free_slab_count - 1;
    }

    /// An object went back to a slab that had `old_free_count` free slots: decides how the slab
    /// moves between the lists, and keeps at most one free slab.
    pub fn slab_change_on_dealloc(&mut self, old_free_count: u32) -> (r: SlabChange)
        requires
            old_free_count < old(self).slots_count,
            old(self).free_slab_count < 255,
        ensures
            r == (if old_free_count == 0 {
                SlabChange::BecamePartial
            } else if old_free_count + 1 == old(self).slots_count {
                if old(self).free_slab_count + 1 >= 2 {
                    SlabChange::BecameFreeAndCleanup
                } else {
                    SlabChange::BecameFree
                }
            } else {
                SlabChange::StaysPartial
            }),
            final(self).free_slab_count == (if r == SlabChange::BecameFree {
                old(self).free_slab_count + 1
            } else {
                old(self).free_slab_count as int
            }),
            final(self).obj_size == old(self).obj_size,
            final(self).slots_count == old(self).slots_count,
            final(self).start_offset == old(self).start_offset,
            final(self).alignment == old(self).alignment,
            final(self).color == old(self).color,
            final(self).max_color == old(self).max_color,
            final(self).slab_order == old(self).slab_order,
    {
        if old_free_count == 0 {
            SlabChange::BecamePartial
        } else if old_free_count + 1 == self.slots_count {
            self.free_slab_count = self.free_slab_count + 1;
            if self.free_slab_count >= 2 {
                // Clean up the oldest free slab.
                self.free_slab_count = self.free_slab_count - 1;
                SlabChange::BecameFreeAndCleanup
            } else {
                SlabChange::BecameFree
            }
        } else {
            SlabChange::StaysPartial
        }
    }
}

/// The caches of the generic size classes.
#[derive(Debug)]
pub struct HeapCaches {
    pub cache32: Cache,
    pub cache64: Cache,
    pub cache128: Cache,
    pub cache256: Cache,
    pub cache512: Cache,
    pub cache1024: Cache,
    pub cache2048: Cache,
    pub cache4096: Cache,
    pub cache8192: Cache,
}

/// The cache of object size `size` was made for objects of that size and alignment.
pub open spec fn cache_made_for(c: Cache, size: int) -> bool {
    &&& best_slab_order(c.slab_order as int, size, align_to(SLAB_HEADER_SIZE as int, size))
    &&& c.obj_size == size
    &&& c.alignment == size
    &&& c.start_offset == align_to(SLAB_HEADER_SIZE as int, size)
    &&& c.slots_count == slab_slots(c.slab_order as int, size, align_to(SLAB_HEADER_SIZE as int, size))
}

impl HeapCaches {
    /// The cache that serves size class `t`.
    pub open spec fn cache_of(&self, t: AllocType) -> Cache
        recommends
            t != AllocType::BIG,
    {
        match t {
            AllocType::C32 => self.cache32,
            AllocType::C64 => self.cache64,
            AllocType::C128 => self.cache128,
            AllocType::C256 => self.cache256,
            AllocType::C512 => self.cache512,
            AllocType::C1024 => self.cache1024,
            AllocType::C2048 => self.cache2048,
            AllocType::C4096 => self.cache4096,
            _ => self.cache8192,
        }
    }

    /// Creates the caches, one per size class, each aligned to its object size.
    pub fn new() -> (r: Self)
        ensures
            forall|t: AllocType| t != AllocType::BIG ==> cache_made_for(#[trigger] r.cache_of(t), class_size(t)),
    {
        proof {
            lemma2_to64();
            assert(slab_usable(0, 32, 32) && slab_waste(0, 32, 32) < PAGE_SIZE);
            assert(slab_usable(0, 64, 64) && slab_waste(0, 64, 64) < PAGE_SIZE);
            assert(slab_usable(0, 128, 128) && slab_waste(0, 128, 128) < PAGE_SIZE);
            assert(slab_usable(0, 256, 256) && slab_waste(0, 256, 256) < PAGE_SIZE);
            assert(slab_usable(0, 512, 512) && slab_waste(0, 512, 512) < PAGE_SIZE);
            assert(slab_usable(0, 1024, 1024) && slab_waste(0, 1024, 1024) < PAGE_SIZE);
            assert(slab_usable(1, 2048, 2048) && slab_waste(1, 2048, 2048) < PAGE_SIZE);
            assert(slab_usable(2, 4096, 4096) && slab_waste(2, 4096, 4096) < PAGE_SIZE);
            assert(slab_usable(3, 8192, 8192) && slab_waste(3, 8192, 8192) < PAGE_SIZE);
        }
        HeapCaches {
            cache32: Cache::calculate_and_create(32, 32),
            cache64: Cache::calculate_and_create(64, 64),
            cache128: Cache::calculate_and_create(128, 128),
            cache256: Cache::calculate_and_create(256, 256),
            cache512: Cache::calculate_and_create(512, 512),
            cache1024: Cache::calculate_and_create(1024, 1024),
            cache2048: Cache::calculate_and_create(2048, 2048),
            cache4096: Cache::calculate_and_create(4096, 4096),
            cache8192: Cache::calculate_and_create(8192, 8192),
        }
    }

    /// Converts a size class to its cache.
    pub fn type_to_cache(&mut self, alloc_type: AllocType) -> (r: &mut Cache)
        requires
            alloc_type != AllocType::BIG,
        ensures
            *r == old(self).cache_of(alloc_type),
            final(self).cache_of(alloc_type) == *final(r),
            forall|t: AllocType| t != alloc_type && t != AllocType::BIG ==> #[trigger] final(self).cache_of(t) == old(self).cache_of(t),
    {
        match alloc_type {
            AllocType::C32 => &mut self.cache32,
            AllocType::C64 => &mut self.cache64,
            AllocType::C128 => &mut self.cache128,
            AllocType::C256 => &mut self.cache256,
            AllocType::C512 => &mut self.cache512,
            AllocType::C1024 => &mut self.cache1024,
            AllocType::C2048 => &mut self.cache2048,
            AllocType::C4096 => &mut self.cache4096,
            _ => &mut self.cache8192,
        }
    }

    /// Converts the layout (its size and alignment) to a type: the smallest size class whose
    /// objects hold both, or `BIG` when none does.
    pub fn layout_to_type(size: usize, align: usize) -> (r: AllocType)
        ensures
            r == size_class(size as int, align as int),
            r == AllocType::BIG <==> !(size <= 8192 && align <= 8192),
            r != AllocType::BIG ==> size <= class_size(r) && align <= class_size(r),
            r != AllocType::BIG ==> class_size(r) == 32 || size > class_size(r) / 2 || align > class_size(r) / 2,
    {
        if size <= 32 && align <= 32 {
            AllocType::C32
        } else if size <= 64 && align <= 64 {
            AllocType::C64
        } else if size <= 128 && align <= 128 {
            AllocType::C128
        } else if size <= 256 && align <= 256 {
            AllocType::C256
        } else if size <= 512 && align <= 512 {
            AllocType::C512
        } else if size <= 1024 && align <= 1024 {
            AllocType::C1024
        } else if size <= 2048 && align <= 2048 {
            AllocType::C2048
        } else if size <= 4096 && align <= 4096 {
            AllocType::C4096
        } else if size <= 8192 && align <= 8192 {
            AllocType::C8192
        } else {
            AllocType::BIG
        }
    }
}

/// Bytes of the allocation area that one tree manages: one page per unit.
pub const HEAP_AREA_SIZE: usize = 0x2000_0000;

/// Management for expansion and shrinking: page blocks handed out by a buddy tree.
pub struct SpaceManager {
    /// Tree that can be used to get a contiguous area of pages for the slabs.
    /// Currently there is only one tree, but this can be extended in the future to use multiple.
    tree: Tree,
    /// Allocation area start.
    alloc_area_start: VirtAddr,
}

/// Where the allocation area starts when the tree is placed at `tree_location`.
pub open spec fn area_start_after_tree(tree_location: int) -> int {
    spec_align_up(tree_location + NODE_COUNT)
}

impl SpaceManager {
    /// The blocks the tree has handed out.
    pub closed spec fn spec_tree(&self) -> Set<int> {
        self.tree@
    }

    /// Allocation area start.
    pub closed spec fn spec_start(&self) -> int {
        self.alloc_area_start@ as int
    }

    /// The tree is well formed, and the whole area, its end included, is page aligned and
    /// canonical.
    pub closed spec fn wf(&self) -> bool {
        &&& self.tree.wf()
        &&& self.alloc_area_start@ % 4096 == 0
        &&& self.alloc_area_start@ + HEAP_AREA_SIZE <= usize::MAX
        &&& canonical_range(self.alloc_area_start@ as int, HEAP_AREA_SIZE + 1)
    }

    /// Creates a new manager whose tree is placed at `tree_location`; the allocation area
    /// starts at the first page after the tree.
    pub fn new(tree_location: VirtAddr) -> (r: Self)
        requires
            tree_location@ + NODE_COUNT + PAGE_SIZE <= usize::MAX,
            area_start_after_tree(tree_location@ as int) + HEAP_AREA_SIZE <= usize::MAX,
            canonical_range(area_start_after_tree(tree_location@ as int), HEAP_AREA_SIZE + 1),
        ensures
            r.wf(),
            r.spec_tree() == Set::<int>::empty(),
            r.spec_start() == area_start_after_tree(tree_location@ as int),
    {
        let end = tree_location.as_usize() + NODE_COUNT;
        let start = crate::arch::address::align_up(end);
        proof {
            lemma_canonical_range(start as int, HEAP_AREA_SIZE + 1, start);
        }
        Self { tree: Tree::new(), alloc_area_start: VirtAddr::new(start) }
    }

    /// Allocation area start.
    pub fn alloc_area_start(&self) -> (r: VirtAddr)
        ensures
            r@ == self.spec_start(),
    {
        self.alloc_area_start
    }

    /// Offset to address.
    pub fn offset_to_addr(&self, offset: usize) -> (r: VirtAddr)
        requires
            self.wf(),
            offset <= MAX_OFFSET + 1,
        ensures
            r@ == self.spec_start() + offset * PAGE_SIZE,
    {
        let a = self.alloc_area_start.as_usize() + offset * PAGE_SIZE;
        proof {
            lemma_canonical_range(self.alloc_area_start@ as int, HEAP_AREA_SIZE + 1, a);
        }
        VirtAddr::new(a)
    }

    /// The start of the slab of order `slab_order` that holds `addr`: slabs are aligned, from the
    /// start of the area, at a multiple of their size.
    pub fn slab_of(&self, addr: VirtAddr, slab_order: u8) -> (r: VirtAddr)
        requires
            self.wf(),
            self.spec_start() <= addr@ < self.spec_start() + HEAP_AREA_SIZE,
            slab_order <= MAX_SLAB_ORDER,
        ensures
            r@ == self.spec_start() + ((addr@ - self.spec_start()) / slab_span(slab_order as int))
                * slab_span(slab_order as int),
    {
        let start = self.alloc_area_start.as_usize();
        let off = addr.as_usize() - start;
        proof {
            lemma2_to64();
            vstd::bits::lemma_usize_shl_is_mul(PAGE_SIZE, slab_order as usize);
            if slab_order < 5 {
                vstd::arithmetic::power2::lemma_pow2_strictly_increases(slab_order as nat, 5);
            }
        }
        let span = PAGE_SIZE << (slab_order as usize);
        assert(span == slab_span(slab_order as int));
        let q = off / span;
        proof {
            assert(q * span <= off) by (nonlinear_arith)
                requires
                    q == off / span,
                    span > 0;
        }
        let a = start + q * span;
        proof {
            lemma_canonical_range(self.alloc_area_start@ as int, HEAP_AREA_SIZE + 1, a);
        }
        VirtAddr::new(a)
    }

    /// Maximum end address of the heap.
    pub fn max_end(&self) -> (r: VirtAddr)
        requires
            self.wf(),
        ensures
            r@ == self.spec_start() + HEAP_AREA_SIZE,
    {
        // We currently only maintain one tree. This could be extended in the future for more.
        self.offset_to_addr(MAX_OFFSET + 1)
    }

    /// Allocate big chunk: hands out the lowest free block of `2^order` pages and returns its
    /// address (the caller maps it).
    pub fn alloc_big(&mut self, order: usize) -> (r: Option<VirtAddr>)
        requires
            old(self).wf(),
            order < 255,
        ensures
            final(self).wf(),
            final(self).spec_start() == old(self).spec_start(),
            r is None <==> forall|off: int|
                valid_block(order as int, off) ==> !#[trigger] free(old(self).spec_tree(), block_node(order as int, off)),
            r is None ==> final(self).spec_tree() == old(self).spec_tree(),
            r matches Some(a) ==> (exists|off: int| {
                &&& valid_block(order as int, off)
                &&& a@ == old(self).spec_start() + off * PAGE_SIZE
                &&& free(old(self).spec_tree(), block_node(order as int, off))
                &&& final(self).spec_tree() == old(self).spec_tree().insert(block_node(order as int, off))
                &&& forall|o: int| valid_block(order as int, o) && o < off ==> !#[trigger] free(old(self).spec_tree(), block_node(order as int, o))
            }),
    {
        let ghost before = self.tree@;
        match self.tree.allocate(order) {
            Some(offset) => {
                proof {
                    lemma2_to64();
                    assert(valid_block(order as int, offset as int));
                    assert(free(before, block_node(order as int, offset as int)));
                    assert(before == old(self).spec_tree());
                    assert(free(old(self).spec_tree(), block_node(order as int, offset as int)));
                }
                let a = self.offset_to_addr(offset);
                proof {
                    assert(valid_block(order as int, offset as int) && a@ == old(self).spec_start() + offset * PAGE_SIZE);
                }
                Some(a)
            },
            None => {
                proof {
                    assert(forall|off: int|
                        valid_block(order as int, off) ==> !#[trigger] free(before, block_node(order as int, off)));
                }
                None
            },
        }
    }

    /// Deallocate big chunk: takes back the block of `2^order` pages at `addr` (the caller
    /// unmaps it).
    pub fn dealloc_big(&mut self, order: usize, addr: VirtAddr)
        requires
            old(self).wf(),
            old(self).spec_start() <= addr@,
            (addr@ - old(self).spec_start()) % (PAGE_SIZE as int) == 0,
            valid_block(order as int, (addr@ - old(self).spec_start()) / PAGE_SIZE as int),
            old(self).spec_tree().contains(block_node(order as int, (addr@ - old(self).spec_start()) / PAGE_SIZE as int)),
        ensures
            final(self).wf(),
            final(self).spec_start() == old(self).spec_start(),
            final(self).spec_tree() == old(self).spec_tree().remove(
                block_node(order as int, (addr@ - old(self).spec_start()) / PAGE_SIZE as int),
            ),
    {
        let offset = (addr.as_usize() - self.alloc_area_start.as_usize()) / PAGE_SIZE;
        self.tree.dealloc(order, offset);
    }
}

/// Where an allocation is served from.
#[derive(Debug, Clone, Copy, PartialEq, Eq, Structural)]
pub enum HeapAlloc {
    /// A block of pages straight from the tree (its address, if one was free); the caller maps it.
    Big(Option<VirtAddr>),
    /// An object of the cache of this size class.
    FromCache(AllocType),
}

/// The heap.
pub struct Heap {
    /// Management for expansion and shrinking.
    pub space_manager: SpaceManager,
    /// Caches.
    pub caches: HeapCaches,
}

impl Heap {
    /// Creates a new heap whose tree is placed at `tree_location`.
    pub fn new(tree_location: VirtAddr) -> (r: Self)
        requires
            tree_location@ + NODE_COUNT + PAGE_SIZE <= usize::MAX,
            area_start_after_tree(tree_location@ as int) + HEAP_AREA_SIZE <= usize::MAX,
            canonical_range(area_start_after_tree(tree_location@ as int), HEAP_AREA_SIZE + 1),
        ensures
            r.space_manager.wf(),
            r.space_manager.spec_tree() == Set::<int>::empty(),
            r.space_manager.spec_start() == area_start_after_tree(tree_location@ as int),
            forall|t: AllocType| t != AllocType::BIG ==> cache_made_for(#[trigger] r.caches.cache_of(t), class_size(t)),
    {
        Heap { space_manager: SpaceManager::new(tree_location), caches: HeapCaches::new() }
    }

    /// Maximum end address of the heap.
    pub fn max_end(&self) -> (r: VirtAddr)
        requires
            self.space_manager.wf(),
        ensures
            r@ == self.space_manager.spec_start() + HEAP_AREA_SIZE,
    {
        self.space_manager.max_end()
    }

    /// Converts a size to a page order: the least order whose block of pages holds `size` bytes.
    pub fn size_to_order(size: usize) -> (r: usize)
        requires
            size >= PAGE_SIZE,
        ensures
            is_page_order(size as int, r as nat),
            r == page_order(size as int),
    {
        let pages: u64 = ((size - 1) / PAGE_SIZE + 1) as u64;
        assert(pages < 0x8000_0000_0000_0000u64) by {
            assert((size - 1) as int / PAGE_SIZE as int <= usize::MAX as int / 4096);
        }
        let y: u64 = pages - 1;
        let s1: u64 = y | (y >> 1);
        let s2: u64 = s1 | (s1 >> 2);
        let s3: u64 = s2 | (s2 >> 4);
        let s4: u64 = s3 | (s3 >> 8);
        let s5: u64 = s4 | (s4 >> 16);
        let s6: u64 = s5 | (s5 >> 32);
        assert(s6 >= y && s6 < 0x8000_0000_0000_0000u64) by (bit_vector)
            requires
                y < 0x8000_0000_0000_0000u64,
                s1 == y | (y >> 1u64),
                s2 == s1 | (s1 >> 2u64),
                s3 == s2 | (s2 >> 4u64),
                s4 == s3 | (s3 >> 8u64),
                s5 == s4 | (s4 >> 16u64),
                s6 == s5 | (s5 >> 32u64),
        ;
        let p: u64 = s6 + 1;
        assert(p & s6 == 0 && (y >= 1 ==> (p >> 1u64) <= y) && (y == 0 ==> p == 1)) by (bit_vector)
            requires
                y < 0x8000_0000_0000_0000u64,
                s1 == y | (y >> 1u64),
                s2 == s1 | (s1 >> 2u64),
                s3 == s2 | (s2 >> 4u64),
                s4 == s3 | (s3 >> 8u64),
                s5 == s4 | (s4 >> 16u64),
                s6 == s5 | (s5 >> 32u64),
                p == s6 + 1,
        ;
        let lz = p.leading_zeros();
        proof {
            axiom_u64_leading_zeros(p);
            let k = (63 - lz) as u64;
            assert(p == 1u64 << k) by (bit_vector)
                requires
                    p & s6 == 0,
                    p == s6 + 1,
                    p != 0,
                    k < 64,
                    (p >> k) & 1u64 != 0,
            ;
            lemma2_to64();
            lemma_u64_pow2_no_overflow(k as nat);
            lemma_u64_shl_is_mul(1, k);
            assert(p / 2 == p >> 1u64) by (bit_vector);
            if k > 0 {
                vstd::arithmetic::power2::lemma_pow2_unfold(k as nat);
            }
            lemma_ceil_pages(size as int, pages as int, k as nat);
            lemma_page_order(size as int, k as nat);
        }
        63 - lz as usize
    }

    /// Allocate: big allocations get a block of pages from the tree; the others are served by
    /// the cache of their size class.
    pub fn allocate(&mut self, size: usize, align: usize) -> (r: HeapAlloc)
        requires
            old(self).space_manager.wf(),
            size_class(size as int, align as int) == AllocType::BIG ==> size >= PAGE_SIZE,
        ensures
            final(self).space_manager.wf(),
            final(self).space_manager.spec_start() == old(self).space_manager.spec_start(),
            final(self).caches == old(self).caches,
            r matches HeapAlloc::FromCache(t) ==> t == size_class(size as int, align as int) && t != AllocType::BIG
                && final(self).space_manager.spec_tree() == old(self).space_manager.spec_tree(),
            r is Big <==> size_class(size as int, align as int) == AllocType::BIG,
            r matches HeapAlloc::Big(a) ==> (a is None <==> forall|off: int|
                valid_block(page_order(size as int) as int, off) ==> !#[trigger] free(
                    old(self).space_manager.spec_tree(),
                    block_node(page_order(size as int) as int, off),
                )),
            r matches HeapAlloc::Big(a) ==> (a is None ==> final(self).space_manager.spec_tree()
                == old(self).space_manager.spec_tree()),
            r matches HeapAlloc::Big(a) ==> (a matches Some(addr) ==> (exists|off: int|
                #![trigger valid_block(page_order(size as int) as int, off)]
            {
                let order = page_order(size as int) as int;
                &&& valid_block(order, off)
                &&& addr@ == old(self).space_manager.spec_start() + off * PAGE_SIZE
                &&& free(old(self).space_manager.spec_tree(), block_node(order, off))
                &&& final(self).space_manager.spec_tree() == old(self).space_manager.spec_tree().insert(block_node(order, off))
                &&& forall|o: int| valid_block(order, o) && o < off ==> !#[trigger] free(old(self).space_manager.spec_tree(), block_node(order, o))
            })),
    {
        let alloc_type = HeapCaches::layout_to_type(size, align);
        if alloc_type == AllocType::BIG {
            let order = Self::size_to_order(size);
            proof {
                lemma2_to64();
                assert(order < 255) by {
                    if order >= 255 {
                        vstd::arithmetic::power2::lemma_pow2_strictly_increases(64, (order - 1) as nat);
                    }
                }
            }
            let a = self.space_manager.alloc_big(order);
            proof {
                assert(order as int == page_order(size as int) as int);
                if let Some(addr) = a {
                    let off = choose|off: int| {
                        &&& valid_block(order as int, off)
                        &&& addr@ == old(self).space_manager.spec_start() + off * PAGE_SIZE
                        &&& free(old(self).space_manager.spec_tree(), block_node(order as int, off))
                        &&& self.space_manager.spec_tree() == old(self).space_manager.spec_tree().insert(block_node(order as int, off))
                        &&& forall|o: int| valid_block(order as int, o) && o < off ==> !#[trigger] free(old(self).space_manager.spec_tree(), block_node(order as int, o))
                    };
                    assert(valid_block(page_order(size as int) as int, off));
                }
            }
            HeapAlloc::Big(a)
        } else {
            HeapAlloc::FromCache(alloc_type)
        }
    }
    /// Deallocate: a big allocation goes back to the tree; for the others, returns the size
    /// class whose cache takes the object back.
    pub fn dealloc(&mut self, addr: VirtAddr, size: usize, align: usize) -> (r: Option<AllocType>)
        requires
            old(self).space_manager.wf(),
            size_class(size as int, align as int) == AllocType::BIG ==> ({
                let start = old(self).space_manager.spec_start();
                let order = page_order(size as int) as int;
                let off = (addr@ - start) / PAGE_SIZE as int;
                &&& size >= PAGE_SIZE
                &&& start <= addr@
                &&& (addr@ - start) % (PAGE_SIZE as int) == 0
                &&& valid_block(order, off)
                &&& old(self).space_manager.spec_tree().contains(block_node(order, off))
            }),
        ensures
            final(self).space_manager.wf(),
            final(self).space_manager.spec_start() == old(self).space_manager.spec_start(),
            final(self).caches == old(self).caches,
            r is None <==> size_class(size as int, align as int) == AllocType::BIG,
            r matches Some(t) ==> t == size_class(size as int, align as int)
                && final(self).space_manager.spec_tree() == old(self).space_manager.spec_tree(),
            r is None ==> final(self).space_manager.spec_tree() == old(self).space_manager.spec_tree().remove(
                block_node(
                    page_order(size as int) as int,
                    (addr@ - old(self).space_manager.spec_start()) / PAGE_SIZE as int,
                ),
            ),
    {
        let alloc_type = HeapCaches::layout_to_type(size, align);
        if alloc_type == AllocType::BIG {
            let order = Self::size_to_order(size);
            self.space_manager.dealloc_big(order, addr);
            None
        } else {
            Some(alloc_type)
        }
    }
}

} // verus!

//! Allocator used to split an address space domain into virtual memory areas.
use vstd::prelude::*;
use crate::arch::address::{VirtAddr, PAGE_SIZE, is_canonical};
use crate::arch::paging::EntryFlags;
use crate::mm::avl_interval_tree::{
    AVLIntervalTree,
    carve,
    disjoint_from_all,
    end_key,
    has_end,
    returned,
    valid_intervals,
};
use crate::mm::mapper::{MemoryError, MemoryMapper, MemoryResult};

verus! {

/// Every address of `[s, s + len)` is canonical: the range lies in the lower or in the upper
/// half of the address space.
pub open spec fn canonical_range(s: int, len: int) -> bool {
    s + len <= 0x8000_0000_0000 || (0xffff_8000_0000_0000 <= s && s + len
        <= 0x1_0000_0000_0000_0000)
}

/// An interval the allocator may hold: page aligned and canonical.
pub open spec fn region_ok(s: int, len: int) -> bool {
    s % 4096 == 0 && len % 4096 == 0 && canonical_range(s, len)
}

/// Every address inside a canonical range is canonical.
pub proof fn lemma_canonical_range(s: int, len: int, a: usize)
    requires
        canonical_range(s, len),
        s <= a < s + len,
    ensures
        is_canonical(a),
{
    let x = a as u64;
    assert(x < 0x8000_0000_0000u64 ==> (x >> 47u64) == 0) by (bit_vector);
    assert(x >= 0xffff_8000_0000_0000u64 ==> (x >> 47u64) == 0x1ffff) by (bit_vector);
}

/// Virtual memory allocator.
pub struct VMAAllocator {
    tree: AVLIntervalTree,
}

impl View for VMAAllocator {
    type V = Map<usize, usize>;

    /// The free regions, as a map from start to length.
    closed spec fn view(&self) -> Map<usize, usize> {
        self.tree@
    }
}

/// Giving back a page aligned canonical region keeps every free region page aligned and
/// canonical.
proof fn lemma_returned_regions_ok(m: Map<usize, usize>, s: int, len: int)
    requires
        valid_intervals(m),
        forall|k: usize| #[trigger] m.contains_key(k) ==> region_ok(k as int, m[k] as int),
        region_ok(s, len),
        len > 0,
        0 <= s,
        s + len <= usize::MAX,
        disjoint_from_all(m, s, len),
    ensures
        forall|k: usize| #[trigger]
            returned(m, s, len).contains_key(k) ==> region_ok(
                k as int,
                returned(m, s, len)[k] as int,
            ),
{
    let e = (s + len) as usize;
    let l1 = if m.contains_key(e) {
        len + m[e]
    } else {
        len
    };
    let m1 = m.remove(e);
    assert(region_ok(s, l1)) by {
        if m.contains_key(e) {
            assert(region_ok(e as int, m[e] as int));
        }
    }
    let res = returned(m, s, len);
    assert forall|k: usize| #[trigger] res.contains_key(k) implies region_ok(k as int, res[k] as int) by {
        if has_end(m1, s) {
            let j = end_key(m1, s);
            assert(m1.contains_key(j) && j + m1[j] == s);
            assert(m.contains_key(j));
            if k != j {
                assert(m1.contains_key(k));
            }
        } else {
            if k != s as usize {
                assert(m1.contains_key(k));
            }
        }
    }
}

impl VMAAllocator {
    /// Well-formedness: a well formed tree whose free regions are page aligned and canonical.
    pub closed spec fn wf(&self) -> bool {
        &&& self.tree.wf()
        &&& forall|k: usize| #[trigger] self@.contains_key(k) ==> region_ok(k as int, self@[k] as int)
    }

    /// The height field at the root of the tree of free regions.
    pub closed spec fn spec_height(&self) -> int {
        self.tree.spec_height()
    }

    /// Where a region of `len` bytes is taken when one is asked for: the fit the tree of
    /// free regions picks.
    pub closed spec fn spec_fit(&self, len: int) -> int {
        self.tree.spec_fit(len)
    }

    /// A well formed allocator holds non-empty, pairwise disjoint regions.
    pub proof fn lemma_valid(&self)
        requires
            self.wf(),
        ensures
            valid_intervals(self@),
    {
        self.tree.lemma_valid();
    }

    /// Creates a new VMA allocator.
    pub fn new() -> (r: Self)
        ensures
            r.wf(),
            r@ == Map::<usize, usize>::empty(),
            r.spec_height() == 0,
    {
        Self { tree: AVLIntervalTree::new() }
    }

    /// The height field at the root of the tree of free regions.
    pub fn tree_height(&self) -> (r: u8)
        ensures
            r == self.spec_height(),
    {
        self.tree.height()
    }

    /// Whether the area `vma` can go back to this allocator, as the `destroy` functions of the
    /// areas ask: the tree has room to grow, the area is canonical, and, unless it is the
    /// dummy area at 0, it is page aligned, not empty and overlaps no free region.
    pub fn takes_back(&self, vma: &Vma) -> (r: bool)
        requires
            self.wf(),
        ensures
            r == (self.spec_height() < 255 && vma.wf() && (vma.spec_start()@ != 0
                ==> vma.spec_start()@ % 4096 == 0 && vma.spec_size() % 4096 == 0 && vma.spec_size() > 0
                && disjoint_from_all(self@, vma.spec_start()@ as int, vma.spec_size() as int))),
    {
        let s = vma.start.as_usize();
        let size = vma.size;
        if self.tree.height() >= 255 || s > usize::MAX - size {
            return false;
        }
        let end = s + size;
        let canonical = (end as u64) <= 0x8000_0000_0000u64 || (s as u64) >= 0xffff_8000_0000_0000u64;
        if !canonical {
            return false;
        }
        if s == 0 {
            return true;
        }
        s % 4096 == 0 && size % 4096 == 0 && size > 0 && !self.tree.overlaps(s, size)
    }

    /// Inserts a region.
    pub fn insert_region(&mut self, addr: VirtAddr, len: usize)
        requires
            old(self).wf(),
            old(self).spec_height() < 255,
            addr@ % 4096 == 0,
            len % 4096 == 0,
            len > 0,
            addr@ + len <= usize::MAX,
            canonical_range(addr@ as int, len as int),
            disjoint_from_all(old(self)@, addr@ as int, len as int),
        ensures
            final(self).wf(),
            final(self)@ == returned(old(self)@, addr@ as int, len as int),
            final(self).spec_height() <= old(self).spec_height() + 1,
    {
        proof {
            self.tree.lemma_valid();
            lemma_returned_regions_ok(self@, addr@ as int, len as int);
        }
        self.tree.return_interval(addr.as_usize(), len);
    }

    /// Allocates a region, taken from the end of a free region that is long enough.
    pub fn alloc_region(&mut self, len: usize) -> (r: Option<VirtAddr>)
        requires
            old(self).wf(),
            len % 4096 == 0,
            len > 0,
        ensures
            final(self).wf(),
            final(self).spec_height() <= old(self).spec_height(),
            r is None <==> forall|k: usize| #[trigger]
                old(self)@.contains_key(k) ==> old(self)@[k] < len,
            r is None ==> final(self)@ == old(self)@,
            r matches Some(a) ==> a@ == old(self).spec_fit(len as int) as usize,
            r matches Some(a) ==> a@ % 4096 == 0 && canonical_range(a@ as int, len as int)
                && exists|k: usize|
                #![trigger old(self)@.contains_key(k)]
                old(self)@.contains_key(k) && old(self)@[k] >= len && a@ == k + old(self)@[k] - len
                    && final(self)@ == carve(old(self)@, k, len as int),
    {
        proof {
            self.tree.lemma_valid();
        }
        let ghost m = self@;
        match self.tree.find_len(len) {
            None => None,
            Some(start) => {
                proof {
                    let k = choose|k: usize|
                        #![trigger m.contains_key(k)]
                        m.contains_key(k) && m[k] >= len && Some(start) == Some(
                            (k + m[k] - len) as usize,
                        ) && self@ == carve(m, k, len as int);
                    assert(region_ok(k as int, m[k] as int));
                    lemma_canonical_range(k as int, m[k] as int, start);
                    assert forall|j: usize| #[trigger] self@.contains_key(j) implies region_ok(j as int, self@[j] as int) by {
                        assert(m.contains_key(j));
                    }
                }
                Some(VirtAddr::new(start))
            },
        }
    }
}


/// What a page fault in a lazily mapped area comes to once the mapper answered the request to
/// map the faulting page `page`: the page, to be cleared, when the mapping succeeded.
pub fn fault_page_result(page: VirtAddr, mapped: MemoryResult) -> (r: Option<VirtAddr>)
    ensures
        mapped is Ok ==> r == Some(page),
        mapped is Err ==> r is None,
{
    match mapped {
        Ok(()) => Some(page),
        Err(_) => None,
    }
}

/// What an area asks of the memory mapper: map `size` bytes from `vaddr` on, with `flags`.
#[derive(Debug, Clone, Copy, PartialEq, Eq, Structural)]
pub struct MapRequest {
    pub vaddr: VirtAddr,
    pub size: usize,
    pub flags: EntryFlags,
}

/// The free regions after the area `v` went back: unchanged for the dummy area (at 0).
pub open spec fn given_back(m: Map<usize, usize>, v: Vma) -> Map<usize, usize> {
    if v.spec_start()@ == 0 {
        m
    } else {
        returned(m, v.spec_start()@ as int, v.spec_size() as int)
    }
}

/// Virtual memory area.
#[derive(Debug, PartialEq, Eq, Structural)]
pub struct Vma {
    start: VirtAddr,
    size: usize,
}

pub trait MappableVma {
    /// The starting address.
    spec fn spec_address(&self) -> VirtAddr;

    /// The size.
    spec fn spec_size(&self) -> usize;

    /// Gets the starting address.
    fn address(&self) -> (r: VirtAddr)
        ensures
            r == self.spec_address(),
    ;

    /// Gets the size.
    fn size(&self) -> (r: usize)
        ensures
            r == self.spec_size(),
    ;

    /// Checks if the address is contained within the area.
    fn is_contained(&self, addr: VirtAddr) -> (r: bool)
        requires
            self.spec_address()@ + self.spec_size() <= usize::MAX,
            is_canonical((self.spec_address()@ + self.spec_size()) as usize),
        ensures
            r == (self.spec_address()@ <= addr@ < self.spec_address()@ + self.spec_size()),
    {
        self.address().as_usize() <= addr.as_usize() && self.address().add(self.size()).as_usize()
            > addr.as_usize()
    }
}

/// Mapped of a Vma (may be partially).
#[derive(Debug, PartialEq, Eq, Structural)]
pub struct MappedVma {
    vma: Vma,
}

/// Lazily mapped Vma, mapped on access.
pub struct LazilyMappedVma {
    vma: Vma,
    /// The flags to use when mapping the memory.
    flags: EntryFlags,
    /// The size of the real mapped part.
    allocated_size: usize,
}

impl Vma {
    /// Every address of the area is canonical.
    pub closed spec fn wf(&self) -> bool {
        canonical_range(self.start@ as int, self.size as int) && self.start@ + self.size <= usize::MAX
    }

    /// The starting address.
    pub closed spec fn spec_start(&self) -> VirtAddr {
        self.start
    }

    /// The length.
    pub closed spec fn spec_size(&self) -> usize {
        self.size
    }

    /// Dummy Vma.
    pub fn dummy() -> (r: Self)
        ensures
            r.wf(),
            r.spec_start()@ == 0,
            r.spec_size() == 0,
    {
        Self { start: VirtAddr::null(), size: 0 }
    }

    /// Creates a new Vma of the requested size, taken from the allocator.
    pub fn create(allocator: &mut VMAAllocator, size: usize) -> (r: Result<Self, MemoryError>)
        requires
            old(allocator).wf(),
            size % 4096 == 0,
            size > 0,
        ensures
            final(allocator).wf(),
            final(allocator).spec_height() <= old(allocator).spec_height(),
            r is Err <==> forall|k: usize| #[trigger]
                old(allocator)@.contains_key(k) ==> old(allocator)@[k] < size,
            r is Err ==> r == Err::<Self, MemoryError>(MemoryError::NoMoreVMA) && final(allocator)@
                == old(allocator)@,
            r matches Ok(v) ==> v.spec_start()@ == old(allocator).spec_fit(size as int) as usize,
            r matches Ok(v) ==> v.wf() && v.spec_size() == size && v.spec_start()@ % 4096 == 0
                && exists|k: usize|
                #![trigger old(allocator)@.contains_key(k)]
                old(allocator)@.contains_key(k) && old(allocator)@[k] >= size && v.spec_start()@
                    == k + old(allocator)@[k] - size && final(allocator)@ == carve(
                    old(allocator)@,
                    k,
                    size as int,
                ),
    {
        proof {
            allocator.lemma_valid();
        }
        match allocator.alloc_region(size) {
            Some(start) => Ok(Self { start, size }),
            None => Err(MemoryError::NoMoreVMA),
        }
    }

    /// Convert to mapped Vma: maps `map_size` bytes from offset `map_off` of the area. When
    /// that fails, the area goes back to `allocator`, as dropping it does.
    pub fn map<M: MemoryMapper>(
        self,
        mapping: &mut M,
        allocator: &mut VMAAllocator,
        map_off: usize,
        map_size: usize,
        flags: EntryFlags,
    ) -> (r: Result<MappedVma, MemoryError>)
        requires
            self.wf(),
            map_off % 4096 == 0,
            map_size % 4096 == 0,
            map_off + map_size <= usize::MAX,
            old(allocator).wf(),
            old(allocator).spec_height() < 255,
            self.spec_start()@ != 0 ==> self.spec_start()@ % 4096 == 0 && self.spec_size() % 4096 == 0
                && self.spec_size() > 0 && disjoint_from_all(
                old(allocator)@,
                self.spec_start()@ as int,
                self.spec_size() as int,
            ),
        ensures
            final(allocator).wf(),
            map_off >= self.spec_size() || map_off + map_size > self.spec_size() ==> r == Err::<
                MappedVma,
                MemoryError,
            >(MemoryError::InvalidRange),
            r matches Ok(m) ==> m.spec_vma() == self && final(allocator)@ == old(allocator)@,
            r is Err ==> final(allocator)@ == given_back(old(allocator)@, self),
    {
        match self.map_request(map_off, map_size, flags) {
            Err(e) => {
                self.destroy(allocator);
                Err(e)
            },
            Ok(request) => {
                let mapped = mapping.map_range(request.vaddr, request.size, request.flags);
                MappedVma::from_mapping(self, allocator, mapped)
            },
        }
    }

    /// The request `map` hands the mapper: the `map_size` bytes from `map_off` into the area,
    /// with `flags`; `InvalidRange` exactly when that part does not lie inside the area.
    pub fn map_request(&self, map_off: usize, map_size: usize, flags: EntryFlags) -> (r: Result<MapRequest, MemoryError>)
        requires
            self.wf(),
            map_off + map_size <= usize::MAX,
        ensures
            r is Err <==> map_off >= self.spec_size() || map_off + map_size > self.spec_size(),
            r is Err ==> r == Err::<MapRequest, MemoryError>(MemoryError::InvalidRange),
            r matches Ok(q) ==> q.vaddr@ == self.spec_start()@ + map_off && q.size == map_size
                && q.flags == flags,
    {
        if map_off >= self.size || map_off + map_size > self.size {
            Err(MemoryError::InvalidRange)
        } else {
            proof {
                lemma_canonical_range(self.start@ as int, self.size as int, (self.start@ + map_off) as usize);
            }
            Ok(MapRequest { vaddr: self.start.add(map_off), size: map_size, flags })
        }
    }

    /// The request `map_lazily` hands the mapper: the first `allocated_size` bytes of the area,
    /// with `flags`.
    pub fn lazy_map_request(&self, allocated_size: usize, flags: EntryFlags) -> (r: MapRequest)
        ensures
            r == (MapRequest { vaddr: self.spec_start(), size: allocated_size, flags }),
    {
        MapRequest { vaddr: self.start, size: allocated_size, flags }
    }

    /// Convert to a lazily mapped Vma, of which the first `allocated_size` bytes are mapped now.
    pub fn map_lazily<M: MemoryMapper>(
        self,
        mapping: &mut M,
        allocated_size: usize,
        flags: EntryFlags,
    ) -> (r: Result<LazilyMappedVma, MemoryError>)
        ensures
            r matches Ok(l) ==> l.spec_vma() == self && l.spec_flags() == flags
                && l.spec_allocated_size() == allocated_size,
    {
        let request = self.lazy_map_request(allocated_size, flags);
        let mapped = mapping.map_range(request.vaddr, request.size, request.flags);
        LazilyMappedVma::from_mapping(self, allocated_size, flags, mapped)
    }

    /// Gets the starting address.
    #[inline]
    pub fn address(&self) -> (r: VirtAddr)
        ensures
            r == self.spec_start(),
    {
        self.start
    }

    /// Gets the length.
    #[inline]
    pub fn size(&self) -> (r: usize)
        ensures
            r == self.spec_size(),
    {
        self.size
    }
}

impl Vma {
    /// Gives the area back to `allocator`, which is what dropping the area does; the dummy area
    /// (at address 0) gives nothing back.
    pub fn destroy(self, allocator: &mut VMAAllocator)
        requires
            old(allocator).wf(),
            old(allocator).spec_height() < 255,
            self.wf(),
            self.spec_start()@ != 0 ==> self.spec_start()@ % 4096 == 0 && self.spec_size() % 4096 == 0
                && self.spec_size() > 0 && disjoint_from_all(
                old(allocator)@,
                self.spec_start()@ as int,
                self.spec_size() as int,
            ),
        ensures
            final(allocator).wf(),
            self.spec_start()@ == 0 ==> final(allocator)@ == old(allocator)@,
            self.spec_start()@ != 0 ==> final(allocator)@ == returned(
                old(allocator)@,
                self.spec_start()@ as int,
                self.spec_size() as int,
            ),
    {
        if !self.start.is_null() {
            allocator.insert_region(self.start, self.size);
        }
    }
}

impl MappedVma {
    /// The area that is mapped.
    pub closed spec fn spec_vma(&self) -> Vma {
        self.vma
    }

    /// The area that is mapped.
    pub fn vma(&self) -> (r: &Vma)
        ensures
            *r == self.spec_vma(),
    {
        &self.vma
    }

    /// Dummy Vma.
    pub fn dummy() -> (r: Self)
        ensures
            r.spec_vma().spec_start()@ == 0,
            r.spec_vma().spec_size() == 0,
    {
        Self { vma: Vma::dummy() }
    }

    /// Unmaps the area, its frames going back to the frame allocator, and gives the area back
    /// to `allocator`: what dropping it does.
    pub fn destroy<M: MemoryMapper>(self, mapping: &mut M, allocator: &mut VMAAllocator)
        requires
            old(allocator).wf(),
            old(allocator).spec_height() < 255,
            self.spec_vma().wf(),
            self.spec_vma().spec_start()@ != 0 ==> self.spec_vma().spec_start()@ % 4096 == 0
                && self.spec_vma().spec_size() % 4096 == 0 && self.spec_vma().spec_size() > 0
                && disjoint_from_all(
                old(allocator)@,
                self.spec_vma().spec_start()@ as int,
                self.spec_vma().spec_size() as int,
            ),
        ensures
            final(allocator).wf(),
            self.spec_vma().spec_start()@ == 0 ==> final(allocator)@ == old(allocator)@,
            self.spec_vma().spec_start()@ != 0 ==> final(allocator)@ == returned(
                old(allocator)@,
                self.spec_vma().spec_start()@ as int,
                self.spec_vma().spec_size() as int,
            ),
    {
        mapping.free_and_unmap_range(self.vma.address(), self.vma.size());
        self.vma.destroy(allocator);
    }

    /// What becomes of `vma` once the mapper answered the request to map part of it: the mapped
    /// area when the mapping succeeded; otherwise the mapper's error, and the area goes back
    /// to `allocator`.
    pub fn from_mapping(vma: Vma, allocator: &mut VMAAllocator, mapped: MemoryResult) -> (r: Result<Self, MemoryError>)
        requires
            old(allocator).wf(),
            old(allocator).spec_height() < 255,
            vma.wf(),
            vma.spec_start()@ != 0 ==> vma.spec_start()@ % 4096 == 0 && vma.spec_size() % 4096 == 0
                && vma.spec_size() > 0 && disjoint_from_all(
                old(allocator)@,
                vma.spec_start()@ as int,
                vma.spec_size() as int,
            ),
        ensures
            final(allocator).wf(),
            mapped is Ok ==> (r matches Ok(m) && m.spec_vma() == vma) && final(allocator)@ == old(allocator)@,
            mapped matches Err(e) ==> r == Err::<Self, MemoryError>(e) && final(allocator)@ == given_back(old(allocator)@, vma),
    {
        match mapped {
            Ok(()) => Ok(MappedVma { vma }),
            Err(e) => {
                vma.destroy(allocator);
                Err(e)
            },
        }
    }

    /// Is dummy?
    pub fn is_dummy(&self) -> (r: bool)
        ensures
            r == (self.spec_vma().spec_start()@ == 0 && self.spec_vma().spec_size() == 0),
    {
        let d = Self::dummy();
        proof {
            assert(self.vma.start@ == d.vma.start@ ==> self.vma.start == d.vma.start) by {
                crate::arch::address::lemma_virt_addr_view_injective(self.vma.start, d.vma.start);
            }
        }
        *self == d
    }
}

impl MappableVma for MappedVma {
    open spec fn spec_address(&self) -> VirtAddr {
        self.spec_vma().spec_start()
    }

    open spec fn spec_size(&self) -> usize {
        self.spec_vma().spec_size()
    }

    #[inline]
    fn address(&self) -> (r: VirtAddr) {
        self.vma.address()
    }

    #[inline]
    fn size(&self) -> (r: usize) {
        self.vma.size()
    }
}

impl LazilyMappedVma {
    /// The whole area.
    pub closed spec fn spec_vma(&self) -> Vma {
        self.vma
    }

    /// The whole area, of which a part may be mapped.
    pub fn vma(&self) -> (r: &Vma)
        ensures
            *r == self.spec_vma(),
    {
        &self.vma
    }

    /// The flags to use when mapping the memory.
    pub closed spec fn spec_flags(&self) -> EntryFlags {
        self.flags
    }

    /// The size of the part that is allocated.
    pub closed spec fn spec_allocated_size(&self) -> usize {
        self.allocated_size
    }

    /// What becomes of `vma` once the mapper answered the request to map its first
    /// `allocated_size` bytes with `flags`: the lazily mapped area when the mapping succeeded,
    /// and the mapper's error otherwise.
    pub fn from_mapping(vma: Vma, allocated_size: usize, flags: EntryFlags, mapped: MemoryResult) -> (r: Result<Self, MemoryError>)
        ensures
            mapped is Ok ==> (r matches Ok(l) && l.spec_vma() == vma && l.spec_flags() == flags
                && l.spec_allocated_size() == allocated_size),
            mapped matches Err(e) ==> r == Err::<Self, MemoryError>(e),
    {
        match mapped {
            Ok(()) => Ok(LazilyMappedVma { vma, flags, allocated_size }),
            Err(e) => Err(e),
        }
    }

    /// Dummy mapped Vma.
    pub fn dummy() -> (r: Self)
        ensures
            r.spec_vma().spec_start()@ == 0,
            r.spec_vma().spec_size() == 0,
            r.spec_flags()@ == 0,
            r.spec_allocated_size() == 0,
    {
        Self { vma: Vma::dummy(), flags: EntryFlags::empty(), allocated_size: 0 }
    }

    /// Unmaps the allocated part, its frames going back to the frame allocator, and gives the
    /// area back to `allocator`: what dropping it does.
    pub fn destroy<M: MemoryMapper>(self, mapping: &mut M, allocator: &mut VMAAllocator)
        requires
            old(allocator).wf(),
            old(allocator).spec_height() < 255,
            self.spec_vma().wf(),
            self.spec_vma().spec_start()@ != 0 ==> self.spec_vma().spec_start()@ % 4096 == 0
                && self.spec_vma().spec_size() % 4096 == 0 && self.spec_vma().spec_size() > 0
                && disjoint_from_all(
                old(allocator)@,
                self.spec_vma().spec_start()@ as int,
                self.spec_vma().spec_size() as int,
            ),
        ensures
            final(allocator).wf(),
            self.spec_vma().spec_start()@ == 0 ==> final(allocator)@ == old(allocator)@,
            self.spec_vma().spec_start()@ != 0 ==> final(allocator)@ == returned(
                old(allocator)@,
                self.spec_vma().spec_start()@ as int,
                self.spec_vma().spec_size() as int,
            ),
    {
        mapping.free_and_unmap_range(self.vma.address(), self.allocated_size);
        self.vma.destroy(allocator);
    }

    /// Expands the allocated size.
    /// Returns the old size on success, an error on failure.
    pub fn expand(&mut self, amount: usize) -> (r: Result<usize, MemoryError>)
        requires
            old(self).spec_allocated_size() + amount <= usize::MAX,
        ensures
            final(self).spec_vma() == old(self).spec_vma(),
            final(self).spec_flags() == old(self).spec_flags(),
            old(self).spec_allocated_size() + amount > old(self).spec_vma().spec_size() ==> r
                == Err::<usize, MemoryError>(MemoryError::InvalidRange) && final(self).spec_allocated_size()
                == old(self).spec_allocated_size(),
            old(self).spec_allocated_size() + amount <= old(self).spec_vma().spec_size() ==> r
                == Ok::<usize, MemoryError>(old(self).spec_allocated_size())
                && final(self).spec_allocated_size() == old(self).spec_allocated_size() + amount,
    {
        let old_size = self.allocated_size;
        let new_size = old_size + amount;

        if new_size > self.vma.size {
            Err(MemoryError::InvalidRange)
        } else {
            self.allocated_size = new_size;
            Ok(old_size)
        }
    }

    /// Try handle a page fault: when the address lies in the allocated part, maps its page
    /// with the area's flags and returns the page, which the caller clears (to avoid information
    /// leaks). `None` when the address lies outside, or the mapping failed.
    pub fn try_handle_page_fault<M: MemoryMapper>(&mut self, mapping: &mut M, fault_addr: VirtAddr) -> (r: Option<VirtAddr>)
        requires
            old(self).spec_vma().spec_start()@ + old(self).spec_allocated_size() <= usize::MAX,
        ensures
            *final(self) == *old(self),
            !(old(self).spec_vma().spec_start()@ <= fault_addr@ < old(self).spec_vma().spec_start()@
                + old(self).spec_allocated_size()) ==> r is None,
            r matches Some(page) ==> page@ == crate::arch::address::spec_align_down(fault_addr@ as int)
                && old(self).spec_vma().spec_start()@ <= fault_addr@ < old(self).spec_vma().spec_start()@
                + old(self).spec_allocated_size(),
    {
        match self.fault_request(fault_addr) {
            Some((page, flags)) => {
                let mapped = mapping.get_and_map_single(page, flags);
                fault_page_result(page, mapped)
            },
            None => None,
        }
    }

    /// The request a page fault at `fault_addr` hands the mapper: when the address lies in the
    /// allocated part, its page, to be mapped with the area's flags.
    pub fn fault_request(&self, fault_addr: VirtAddr) -> (r: Option<(VirtAddr, EntryFlags)>)
        requires
            self.spec_vma().spec_start()@ + self.spec_allocated_size() <= usize::MAX,
        ensures
            r is Some <==> self.spec_vma().spec_start()@ <= fault_addr@ < self.spec_vma().spec_start()@
                + self.spec_allocated_size(),
            r matches Some(q) ==> q.0@ == crate::arch::address::spec_align_down(fault_addr@ as int)
                && q.1 == self.spec_flags(),
    {
        let start = self.vma.address().as_usize();
        if start <= fault_addr.as_usize() && fault_addr.as_usize() < start + self.allocated_size {
            Some((fault_addr.align_down(), self.flags))
        } else {
            None
        }
    }

    /// Gets the flags to use when mapping the memory.
    #[inline]
    pub fn flags(&self) -> (r: EntryFlags)
        ensures
            r == self.spec_flags(),
    {
        self.flags
    }
}

impl MappableVma for LazilyMappedVma {
    open spec fn spec_address(&self) -> VirtAddr {
        self.spec_vma().spec_start()
    }

    open spec fn spec_size(&self) -> usize {
        self.spec_allocated_size()
    }

    #[inline]
    fn address(&self) -> (r: VirtAddr) {
        self.vma.address()
    }

    #[inline]
    fn size(&self) -> (r: usize) {
        self.allocated_size
    }
}
} // verus!

use kwast::arch::address::VirtAddr;
use kwast::mm::heap::{AllocType, Cache, Heap, HeapAlloc, HeapCaches, SlabChange, SpaceManager, HEAP_AREA_SIZE};

#[test]
fn size_to_order_rounds_pages_up_to_a_power_of_two() {
    assert_eq!(Heap::size_to_order(4096), 0);
    assert_eq!(Heap::size_to_order(8192), 1);
    assert_eq!(Heap::size_to_order(3 * 4096), 2);
    assert_eq!(Heap::size_to_order(4 * 4096), 2);
    assert_eq!(Heap::size_to_order(5 * 4096), 3);
    assert_eq!(Heap::size_to_order(1 << 30), 18);
    // A partial page needs a whole page: the block holds every byte asked for.
    assert_eq!(Heap::size_to_order(4097), 1);
    assert_eq!(Heap::size_to_order(8193), 2);
    assert_eq!(Heap::size_to_order(2 * 4096 + 100), 2);
    assert_eq!(Heap::size_to_order((1 << 30) + 1), 19);
}

#[test]
fn layout_to_type_picks_the_smallest_class() {
    assert_eq!(HeapCaches::layout_to_type(1, 1), AllocType::C32);
    assert_eq!(HeapCaches::layout_to_type(32, 32), AllocType::C32);
    assert_eq!(HeapCaches::layout_to_type(33, 1), AllocType::C64);
    assert_eq!(HeapCaches::layout_to_type(8, 64), AllocType::C64);
    assert_eq!(HeapCaches::layout_to_type(100, 8), AllocType::C128);
    assert_eq!(HeapCaches::layout_to_type(1000, 8), AllocType::C1024);
    assert_eq!(HeapCaches::layout_to_type(4096, 4096), AllocType::C4096);
    assert_eq!(HeapCaches::layout_to_type(8192, 8192), AllocType::C8192);
    assert_eq!(HeapCaches::layout_to_type(8193, 1), AllocType::BIG);
    assert_eq!(HeapCaches::layout_to_type(1, 16384), AllocType::BIG);
}

#[test]
fn calculate_and_create_small_objects_use_one_page() {
    let c = Cache::calculate_and_create(32, 32);
    assert_eq!(c.obj_size, 32);
    assert_eq!(c.alignment, 32);
    assert_eq!(c.start_offset, 32);
    assert_eq!(c.slab_order, 0);
    assert_eq!(c.slots_count, 127);
    assert_eq!(c.max_color, 0);
    assert_eq!(c.color, 0);
    assert_eq!(c.free_slab_count, 0);
}

#[test]
fn calculate_and_create_large_objects_use_bigger_slabs() {
    let c = Cache::calculate_and_create(2048, 2048);
    assert_eq!((c.slab_order, c.slots_count, c.start_offset), (1, 3, 2048));
    let c = Cache::calculate_and_create(4096, 4096);
    assert_eq!((c.slab_order, c.slots_count, c.start_offset), (2, 3, 4096));
    let c = Cache::calculate_and_create(8192, 8192);
    assert_eq!((c.slab_order, c.slots_count, c.start_offset), (3, 3, 8192));
}

#[test]
fn calculate_and_create_picks_least_waste() {
    // Objects of 100 bytes aligned to 8 take 104 bytes; the header takes 24.
    // Order 5 wastes 8 bytes, less than any smaller order.
    let c = Cache::calculate_and_create(100, 8);
    assert_eq!(c.obj_size, 104);
    assert_eq!(c.start_offset, 24);
    assert_eq!(c.slab_order, 5);
    assert_eq!(c.slots_count, 1260);
    assert_eq!(c.max_color, 8);
}

#[test]
fn next_slab_start_cycles_colours() {
    let mut c = Cache::calculate_and_create(100, 8);
    assert_eq!(c.next_slab_start(), 24);
    assert_eq!(c.color, 8);
    assert_eq!(c.next_slab_start(), 32);
    assert_eq!(c.color, 0);
    assert_eq!(c.next_slab_start(), 24);
}

#[test]
fn slab_change_on_dealloc_moves_slabs_between_lists() {
    let mut c = Cache::calculate_and_create(2048, 2048);
    assert_eq!(c.slots_count, 3);
    assert_eq!(c.slab_change_on_dealloc(0), SlabChange::BecamePartial);
    assert_eq!(c.slab_change_on_dealloc(1), SlabChange::StaysPartial);
    assert_eq!(c.free_slab_count, 0);
    assert_eq!(c.slab_change_on_dealloc(2), SlabChange::BecameFree);
    assert_eq!(c.free_slab_count, 1);
    assert_eq!(c.slab_change_on_dealloc(2), SlabChange::BecameFreeAndCleanup);
    assert_eq!(c.free_slab_count, 1);
    c.take_free_slab();
    assert_eq!(c.free_slab_count, 0);
}

#[test]
fn heap_caches_are_made_per_class() {
    let mut caches = HeapCaches::new();
    assert_eq!(caches.type_to_cache(AllocType::C32).obj_size, 32);
    assert_eq!(caches.type_to_cache(AllocType::C512).obj_size, 512);
    assert_eq!(caches.type_to_cache(AllocType::C8192).obj_size, 8192);
    caches.type_to_cache(AllocType::C64).color = 7;
    assert_eq!(caches.cache64.color, 7);
    assert_eq!(caches.cache128.color, 0);
}

fn tree_location() -> VirtAddr {
    VirtAddr::new(0xffff_8000_0000_0000)
}

#[test]
fn space_manager_hands_out_pages_after_the_tree() {
    let mut manager = SpaceManager::new(tree_location());
    let start = 0xffff_8000_0004_0000usize;
    assert_eq!(manager.max_end().as_usize(), start + HEAP_AREA_SIZE);
    assert_eq!(manager.offset_to_addr(3).as_usize(), start + 3 * 4096);
    let a = manager.alloc_big(2).unwrap();
    assert_eq!(a.as_usize(), start);
    let b = manager.alloc_big(0).unwrap();
    assert_eq!(b.as_usize(), start + 4 * 4096);
    manager.dealloc_big(2, a);
    assert_eq!(manager.alloc_big(1).unwrap().as_usize(), start);
}

#[test]
fn heap_routes_allocations() {
    let mut heap = Heap::new(tree_location());
    let start = 0xffff_8000_0004_0000usize;
    assert_eq!(heap.max_end().as_usize(), start + HEAP_AREA_SIZE);
    assert_eq!(heap.allocate(100, 8), HeapAlloc::FromCache(AllocType::C128));
    let big = heap.allocate(4 * 4096, 8);
    assert_eq!(big, HeapAlloc::Big(Some(VirtAddr::new(start))));
    let next = heap.allocate(2 * 4096 + 1, 8);
    assert_eq!(next, HeapAlloc::Big(Some(VirtAddr::new(start + 4 * 4096))));
    assert_eq!(heap.dealloc(VirtAddr::new(start), 4 * 4096, 8), None);
    assert_eq!(heap.dealloc(VirtAddr::new(0x1000), 100, 8), Some(AllocType::C128));
    let again = heap.allocate(4 * 4096, 4096);
    assert_eq!(again, HeapAlloc::Big(Some(VirtAddr::new(start))));
}

#[test]
fn space_manager_finds_the_slab_of_an_object() {
    let manager = SpaceManager::new(tree_location());
    let start = 0xffff_8000_0004_0000usize;
    let order0 = manager.slab_of(VirtAddr::new(start + 0x1234), 0);
    assert_eq!(order0.as_usize(), start + 0x1000);
    let order2 = manager.slab_of(VirtAddr::new(start + 0x7ff8), 2);
    assert_eq!(order2.as_usize(), start + 0x4000);
    let order3 = manager.slab_of(VirtAddr::new(start + 0x8000), 3);
    assert_eq!(order3.as_usize(), start + 0x8000);
    assert_eq!(manager.slab_of(VirtAddr::new(start), 5).as_usize(), start);
}

#[test]
fn heap_big_block_is_reused_after_it_is_freed() {
    let mut heap = Heap::new(tree_location());
    let big = |r: HeapAlloc| match r {
        HeapAlloc::Big(Some(a)) => a,
        other => panic!("expected a big block, got {:?}", other),
    };
    let v1 = big(heap.allocate(8193, 1));
    let v2 = big(heap.allocate(8193, 1));
    assert_ne!(v1, v2);
    let v3 = big(heap.allocate(8193, 1));
    assert_ne!(v1, v3);
    assert_ne!(v2, v3);
    assert_eq!(heap.dealloc(v3, 8193, 1), None);
    let v4 = big(heap.allocate(8193, 1));
    assert_ne!(v1, v4);
    assert_ne!(v2, v4);
    assert_eq!(v3, v4);
}

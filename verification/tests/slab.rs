use kwast::arch::address::VirtAddr;
use kwast::mm::heap::{AllocType, Heap, HeapAlloc};
use kwast::mm::slab::{allocate, dealloc, free_count, init, is_full, FREE_COUNT_WORD, NEXT_OFFSET_WORD};

fn page_words() -> Vec<u32> {
    vec![0xdead_beef; 4096 / 4]
}

#[test]
fn slab_init_links_slots_in_order() {
    let mut words = page_words();
    init(&mut words, 32, 127, 32);
    assert_eq!(words[NEXT_OFFSET_WORD], 32);
    assert_eq!(words[FREE_COUNT_WORD], 127);
    assert_eq!(words[32 / 4], 64);
    assert_eq!(words[64 / 4], 96);
    assert_eq!(words[(32 + 126 * 32) / 4], 0);
    // Words that hold no link are left alone.
    assert_eq!(words[0], 0xdead_beef);
    assert_eq!(words[(32 + 4) / 4], 0xdead_beef);
    assert_eq!(free_count(&words), 127);
    assert!(!is_full(&words));
}

#[test]
fn slab_allocates_in_address_order_until_full() {
    let mut words = page_words();
    init(&mut words, 64, 3, 1024);
    assert_eq!(allocate(&mut words), 64);
    assert_eq!(allocate(&mut words), 64 + 1024);
    assert_eq!(free_count(&words), 1);
    assert!(!is_full(&words));
    assert_eq!(allocate(&mut words), 64 + 2048);
    assert!(is_full(&words));
    assert_eq!(free_count(&words), 0);
    assert_eq!(words[NEXT_OFFSET_WORD], 0);
}

#[test]
fn slab_given_back_slot_is_handed_out_next() {
    let mut words = page_words();
    init(&mut words, 32, 10, 64);
    let a = allocate(&mut words);
    let b = allocate(&mut words);
    assert_eq!((a, b), (32, 96));
    dealloc(&mut words, a);
    assert_eq!(free_count(&words), 9);
    assert_eq!(words[NEXT_OFFSET_WORD], a);
    assert_eq!(words[a as usize / 4], 160);
    assert_eq!(allocate(&mut words), a);
    assert_eq!(allocate(&mut words), 160);
}

#[test]
fn slab_full_slab_becomes_usable_after_dealloc() {
    let mut words = page_words();
    init(&mut words, 2048, 2, 1024);
    let a = allocate(&mut words);
    let b = allocate(&mut words);
    assert!(is_full(&words));
    dealloc(&mut words, b);
    assert!(!is_full(&words));
    // The slot that comes back ends the list again.
    assert_eq!(words[b as usize / 4], 0);
    assert_eq!(allocate(&mut words), b);
    dealloc(&mut words, a);
    dealloc(&mut words, b);
    assert_eq!(free_count(&words), 2);
    assert_eq!(allocate(&mut words), b);
    assert_eq!(allocate(&mut words), a);
}

#[test]
fn slab_small_objects_lie_one_slot_apart_and_come_back() {
    // Twelve bytes are served by the 32-byte cache; its first slab starts its slots right after
    // the header, rounded up to the alignment.
    let mut heap = Heap::new(VirtAddr::new(0xffff_8000_0000_0000));
    assert_eq!(heap.allocate(12, 1), HeapAlloc::FromCache(AllocType::C32));
    let cache = heap.caches.type_to_cache(AllocType::C32);
    let start = cache.next_slab_start();
    let mut words = vec![0u32; (4096 << cache.slab_order) / 4];
    init(&mut words, start, cache.slots_count, cache.obj_size);
    let a = allocate(&mut words);
    let b = allocate(&mut words);
    let c = allocate(&mut words);
    assert_eq!(a + 32, b);
    assert_eq!(b + 32, c);
    // A slot that is freed is the next one handed out.
    dealloc(&mut words, b);
    assert_eq!(allocate(&mut words), b);
}

use kwast::mm::buddy::{Tree, MAX_LEVEL};

#[test]
fn buddy_test_main() {
    let mut tree = Tree::new();

    assert_eq!(tree.allocate(3), Some(0));
    assert_eq!(tree.allocate(2), Some(8));
    assert_eq!(tree.allocate(3), Some(16));
    assert_eq!(tree.allocate(4), Some(32));
    assert_eq!(tree.allocate(2), Some(12));
    assert_eq!(tree.allocate(3), Some(24));
    assert_eq!(tree.allocate(6), Some(64));
    assert_eq!(tree.allocate(7), Some(128));
    assert_eq!(tree.allocate(MAX_LEVEL), None);

    assert_eq!(tree.allocate(3), Some(48));
    tree.dealloc(3, 0);
    assert_eq!(tree.allocate(3), Some(0));
    tree.dealloc(3, 48);
    assert_eq!(tree.allocate(3), Some(48));
    tree.dealloc(4, 32);
    assert_eq!(tree.allocate(2), Some(32));
    assert_eq!(tree.allocate(2), Some(36));
    assert_eq!(tree.allocate(4), Some(256));
    assert_eq!(tree.allocate(2), Some(40));
    assert_eq!(tree.allocate(2), Some(44));
}

#[test]
fn buddy_whole_region_is_one_block() {
    let mut tree = Tree::new();
    assert_eq!(tree.allocate(MAX_LEVEL - 1), Some(0));
    assert_eq!(tree.allocate(0), None);
    tree.dealloc(MAX_LEVEL - 1, 0);
    assert_eq!(tree.allocate(0), Some(0));
    assert_eq!(tree.allocate(0), Some(1));
}

#[test]
fn buddy_orders_above_the_tree_fail() {
    let mut tree = Tree::new();
    assert_eq!(tree.allocate(MAX_LEVEL), None);
    assert_eq!(tree.allocate(200), None);
    assert_eq!(tree.allocate(254), None);
    // The failed requests changed nothing.
    assert_eq!(tree.allocate(MAX_LEVEL - 1), Some(0));
}

#[test]
fn buddy_allocated_blocks_do_not_overlap() {
    let mut tree = Tree::new();
    let mut blocks: Vec<(usize, usize)> = Vec::new();
    for order in [0usize, 3, 1, 0, 5, 2, 0, 4, 1, 3] {
        let off = tree.allocate(order).unwrap();
        assert_eq!(off % (1 << order), 0);
        blocks.push((off, off + (1 << order)));
    }
    for i in 0..blocks.len() {
        for j in 0..blocks.len() {
            if i != j {
                assert!(blocks[i].1 <= blocks[j].0 || blocks[j].1 <= blocks[i].0);
            }
        }
    }
}

#[test]
fn buddy_freed_block_is_handed_out_again() {
    let mut tree = Tree::new();
    let a = tree.allocate(2).unwrap();
    let b = tree.allocate(2).unwrap();
    assert_eq!((a, b), (0, 4));
    tree.dealloc(2, a);
    assert_eq!(tree.allocate(2), Some(a));
}

#[test]
fn buddy_dealloc_undoes_allocate() {
    let mut tree = Tree::new();
    tree.allocate(1).unwrap();
    let off = tree.allocate(5).unwrap();
    assert_eq!(off, 32);
    tree.dealloc(5, off);
    // The tree is back to its former state: the same requests get the same answers.
    assert_eq!(tree.allocate(1), Some(2));
    assert_eq!(tree.allocate(5), Some(32));
}

#[test]
fn buddy_freed_buddies_merge() {
    let mut tree = Tree::new();
    assert_eq!(tree.allocate(0), Some(0));
    assert_eq!(tree.allocate(0), Some(1));
    assert_eq!(tree.allocate(1), Some(2));
    tree.dealloc(0, 0);
    tree.dealloc(0, 1);
    // Units 0 and 1 merged back into a block of order 1.
    assert_eq!(tree.allocate(1), Some(0));
}

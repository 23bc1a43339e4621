use kwast::mm::avl_interval_tree::{AVLIntervalTree, Node};

#[test]
fn avl_test_main() {
    let mut tree = AVLIntervalTree::new();
    tree.insert(0, 100);
    assert_eq!(tree.find_len(20), Some(80));
    assert_eq!(
        *tree.root(),
        Some(Box::new(Node {
            interval_start: 0,
            interval_len: 80,
            left: None,
            right: None,
            max_len: 80,
            height: 1,
        }))
    );
    tree.return_interval(90, 10);
    assert_eq!(
        *tree.root(),
        Some(Box::new(Node {
            interval_start: 0,
            interval_len: 80,
            left: None,
            right: Some(Box::new(Node {
                interval_start: 90,
                interval_len: 10,
                left: None,
                right: None,
                max_len: 10,
                height: 1,
            })),
            max_len: 80,
            height: 2,
        }))
    );
    assert_eq!(tree.find_len(5), Some(95));
    tree.return_interval(95, 5);
    assert_eq!(
        *tree.root(),
        Some(Box::new(Node {
            interval_start: 0,
            interval_len: 80,
            left: None,
            right: Some(Box::new(Node {
                interval_start: 90,
                interval_len: 10,
                left: None,
                right: None,
                max_len: 10,
                height: 1,
            })),
            max_len: 80,
            height: 2,
        }))
    );
    tree.return_interval(85, 4);
    assert_eq!(
        *tree.root(),
        Some(Box::new(Node {
            interval_start: 85,
            interval_len: 4,
            left: Some(Box::new(Node {
                interval_start: 0,
                interval_len: 80,
                left: None,
                right: None,
                max_len: 80,
                height: 1,
            })),
            right: Some(Box::new(Node {
                interval_start: 90,
                interval_len: 10,
                left: None,
                right: None,
                max_len: 10,
                height: 1,
            })),
            max_len: 80,
            height: 2,
        }))
    );
    tree.return_interval(89, 1);
    assert_eq!(
        *tree.root(),
        Some(Box::new(Node {
            interval_start: 85,
            interval_len: 15,
            left: Some(Box::new(Node {
                interval_start: 0,
                interval_len: 80,
                left: None,
                right: None,
                max_len: 80,
                height: 1,
            })),
            right: None,
            max_len: 80,
            height: 2,
        }))
    );
    tree.return_interval(80, 4);
    assert_eq!(
        *tree.root(),
        Some(Box::new(Node {
            interval_start: 85,
            interval_len: 15,
            left: Some(Box::new(Node {
                interval_start: 0,
                interval_len: 84,
                left: None,
                right: None,
                max_len: 84,
                height: 1,
            })),
            right: None,
            max_len: 84,
            height: 2,
        }))
    );
    tree.return_interval(84, 1);
    assert_eq!(
        *tree.root(),
        Some(Box::new(Node {
            interval_start: 0,
            interval_len: 100,
            left: None,
            right: None,
            max_len: 100,
            height: 1,
        }))
    );
    tree.remove(0);
    assert_eq!(*tree.root(), None);
}

#[test]
fn avl_fragments_test_main() {
    let mut tree = AVLIntervalTree::new();
    tree.insert(0, 100);

    for i in 0..10 {
        let x = 100 - 10 * (i + 1);
        assert_eq!(tree.find_len(10), Some(x));
        tree.return_interval(x + 5, 5);
    }

    assert_eq!(tree.height(), 4);

    assert_eq!(tree.find_len(10), None);
    tree.return_interval(0, 5);
    assert_eq!(tree.find_len(10), Some(0));
    tree.return_interval(0, 10);
    tree.return_interval(10, 5);
    assert_eq!(tree.find_len(20), Some(0));
    assert_eq!(tree.find_len(20), None);
    tree.return_interval(80, 5);
    tree.return_interval(90, 5);
    assert_eq!(tree.find_len(20), Some(80));
    assert_eq!(tree.find_len(20), None);
    assert_eq!(tree.find_len(5), Some(25));
}

#[test]
fn avl_find_then_return_restores_the_intervals() {
    let mut tree = AVLIntervalTree::new();
    tree.insert(1000, 50);
    tree.insert(0, 10);
    let at = tree.find_len(30).unwrap();
    assert_eq!(at, 1020);
    tree.return_interval(at, 30);
    assert_eq!(tree.remove(1000), Some(50));
    assert_eq!(tree.remove(0), Some(10));
    assert_eq!(tree.remove(0), None);
}

#[test]
fn avl_return_merges_neighbours() {
    let mut tree = AVLIntervalTree::new();
    tree.insert(0, 10);
    tree.insert(20, 10);
    tree.return_interval(10, 10);
    assert_eq!(tree.remove(0), Some(30));
    assert_eq!(tree.find_len(1), None);
}

#[test]
fn avl_find_len_takes_the_smallest_fitting_candidate() {
    let mut tree = AVLIntervalTree::new();
    tree.insert(20, 6);
    tree.insert(0, 10);
    tree.insert(40, 30);
    // The node's own interval (6) is smaller than the left (10) and right (30) largest ones.
    assert_eq!(tree.find_len(5), Some(21));
    // Now the root has 1 left: the left subtree (10) is the smallest that fits.
    assert_eq!(tree.find_len(5), Some(5));
    // Equal lengths: the left subtree wins over the right one.
    let mut tie = AVLIntervalTree::new();
    tie.insert(50, 2);
    tie.insert(0, 8);
    tie.insert(100, 8);
    assert_eq!(tie.find_len(4), Some(4));
}

#[test]
fn avl_find_len_in_a_subtree_leaves_the_parent_as_it_was() {
    let mut tree = AVLIntervalTree::new();
    tree.insert(100, 50);
    tree.insert(0, 5);
    tree.insert(200, 50);
    tree.insert(300, 50);
    assert_eq!(tree.height(), 3);
    // The left leaf is the smallest fit and goes away whole; the root is neither rebalanced
    // nor given a new height.
    assert_eq!(tree.find_len(5), Some(0));
    let root = tree.root().as_ref().unwrap();
    assert_eq!((root.interval_start, root.height, root.max_len), (100, 3, 50));
    assert!(root.left.is_none());
    assert_eq!(root.right.as_ref().unwrap().height, 2);
}

#[test]
fn avl_inserts_in_order_stay_balanced() {
    let mut tree = AVLIntervalTree::new();
    for i in 0..1023usize {
        tree.insert(i * 2, 1);
    }
    // 2^10 - 1 intervals inserted in order make a perfect tree.
    assert_eq!(tree.height(), 10);
    for i in 0..1023usize {
        assert_eq!(tree.remove(i * 2), Some(1));
    }
    assert_eq!(tree.height(), 0);
}

#[test]
fn avl_overlaps_finds_any_touching_interval() {
    let mut tree = AVLIntervalTree::new();
    tree.insert(100, 50);
    tree.insert(0, 5);
    tree.insert(200, 50);
    assert!(tree.overlaps(140, 20));
    assert!(tree.overlaps(4, 1));
    assert!(tree.overlaps(249, 10));
    assert!(!tree.overlaps(150, 50));
    assert!(!tree.overlaps(5, 95));
    assert!(!tree.overlaps(250, 1000));
    assert!(!AVLIntervalTree::new().overlaps(0, 10));
}

#[test]
fn avl_find_len_shrinks_the_chosen_node_in_place() {
    let mut tree = AVLIntervalTree::new();
    tree.insert(20, 6);
    tree.insert(0, 10);
    tree.insert(40, 30);
    assert_eq!(tree.find_len(5), Some(21));
    let root = tree.root().as_ref().unwrap();
    assert_eq!((root.interval_start, root.interval_len, root.max_len, root.height), (20, 1, 30, 2));
    assert_eq!(root.left.as_ref().unwrap().interval_start, 0);
    assert_eq!(root.right.as_ref().unwrap().interval_start, 40);
    // Emptied: no root.
    let mut tree = AVLIntervalTree::new();
    tree.insert(0, 100);
    assert_eq!(tree.remove(0), Some(100));
    assert!(tree.root().is_none());
}

use kwast::mm::process_heap_assigner::ProcessHeapAssigner;

#[test]
fn heap_assigner_test_main() {
    let mut assigner = ProcessHeapAssigner::new(6);
    assert_eq!(assigner.assign(), Some(5));
    assert_eq!(assigner.assign(), Some(4));
    assert_eq!(assigner.assign(), Some(3));
    assert_eq!(assigner.holes(), vec![(0, 3)]);
    assigner.unassign(4);
    assert_eq!(assigner.holes(), vec![(0, 3), (4, 1)]);
    assert_eq!(assigner.assign(), Some(4));
    assert_eq!(assigner.holes(), vec![(0, 3)]);
    assigner.unassign(4);
    assert_eq!(assigner.holes(), vec![(0, 3), (4, 1)]);
    assigner.unassign(5);
    assert_eq!(assigner.holes(), vec![(0, 3), (4, 2)]);
    assert_eq!(assigner.assign(), Some(5));
    assert_eq!(assigner.holes(), vec![(0, 3), (4, 1)]);
    assigner.unassign(3);
    assert_eq!(assigner.holes(), vec![(0, 5)]);
}

#[test]
fn heap_assigner_fragments_test_main() {
    let mut assigner = ProcessHeapAssigner::new(10);
    assert_eq!(assigner.holes(), vec![(0, 10)]);
    assert_eq!(assigner.assign(), Some(9));
    assert_eq!(assigner.assign(), Some(8));
    assigner.unassign(9);
    assert_eq!(assigner.holes(), vec![(0, 8), (9, 1)]);
    assert_eq!(assigner.assign(), Some(9));
    assert_eq!(assigner.assign(), Some(7));
    assert_eq!(assigner.assign(), Some(6));
    assert_eq!(assigner.assign(), Some(5));
    assert_eq!(assigner.assign(), Some(4));
    assert_eq!(assigner.assign(), Some(3));
    assert_eq!(assigner.assign(), Some(2));
    assert_eq!(assigner.assign(), Some(1));
    assert_eq!(assigner.assign(), Some(0));
    assert_eq!(assigner.assign(), None);
    assigner.unassign(1);
    assigner.unassign(3);
    assigner.unassign(7);
    assigner.unassign(9);
    assert_eq!(assigner.holes(), vec![(1, 1), (3, 1), (7, 1), (9, 1)]);
    assigner.unassign(6);
    assert_eq!(assigner.holes(), vec![(1, 1), (3, 1), (6, 2), (9, 1)]);
    assigner.unassign(4);
    assert_eq!(assigner.holes(), vec![(1, 1), (3, 2), (6, 2), (9, 1)]);
    assigner.unassign(2);
    assert_eq!(assigner.holes(), vec![(1, 4), (6, 2), (9, 1)]);
    assigner.unassign(5);
    assert_eq!(assigner.holes(), vec![(1, 7), (9, 1)]);
    assigner.unassign(0);
    assert_eq!(assigner.holes(), vec![(0, 8), (9, 1)]);
    assigner.unassign(8);
    assert_eq!(assigner.holes(), vec![(0, 10)]);
}

#[test]
fn heap_assigner_unassign_undoes_assign() {
    let mut assigner = ProcessHeapAssigner::new(4);
    let before = assigner.holes();
    let slot = assigner.assign().unwrap();
    assert_eq!(slot, 3);
    assigner.unassign(slot);
    assert_eq!(assigner.holes(), before);
}

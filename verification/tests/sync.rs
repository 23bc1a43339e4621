use kwast::sync::cond_var_single::CondVarSingle;
use kwast::tasking::thread::ThreadId;

#[test]
fn cond_var_wakes_the_single_waiter_once() {
    let mut counter: u32 = 5;
    let tid = ThreadId::new(&mut counter);
    let mut cv = CondVarSingle::new();
    assert_eq!(cv.notify(), None);
    assert!(cv.try_register(tid));
    let mut counter2: u32 = 9;
    let other = ThreadId::new(&mut counter2);
    assert!(!cv.try_register(other));
    assert_eq!(cv.notify(), Some(tid));
    assert_eq!(cv.notify(), None);
    assert!(cv.try_register(other));
}

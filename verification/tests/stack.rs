use kwast::arch::address::VirtAddr;
use kwast::tasking::{Stack, INITIAL_RFLAGS};

#[test]
fn prepare_pushes_the_entry_and_the_registers() {
    let mut stack = Stack::new(VirtAddr::new(0x10_0000));
    let writes = stack.prepare(VirtAddr::new(0xdead_b000));
    assert_eq!(stack.as_virt_addr().as_usize(), 0x10_0000 - 64);
    assert_eq!(writes.len(), 8);
    assert_eq!(writes[0], (VirtAddr::new(0x10_0000 - 8), 0xdead_b000));
    assert_eq!(writes[1], (VirtAddr::new(0x10_0000 - 16), INITIAL_RFLAGS));
    for i in 2..8 {
        assert_eq!(writes[i], (VirtAddr::new(0x10_0000 - 8 * (i + 1)), 0));
    }
}

#[test]
fn push_moves_down_by_eight() {
    let mut stack = Stack::new(VirtAddr::new(0x2000));
    assert_eq!(stack.push(7), (VirtAddr::new(0x1ff8), 7));
    assert_eq!(stack.as_virt_addr().as_usize(), 0x1ff8);
}

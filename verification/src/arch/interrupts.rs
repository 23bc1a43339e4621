//! Interrupt descriptor table entries.
use vstd::prelude::*;

verus! {

/// Flags for an interrupt descriptor table entry.
#[derive(Debug, Copy, Clone, PartialEq, Eq, Structural)]
pub struct EntryFlags {
    bits: u8,
}

impl View for EntryFlags {
    type V = u8;

    closed spec fn view(&self) -> u8 {
        self.bits
    }
}

impl EntryFlags {
    /// No flags.
    pub fn empty() -> (r: Self)
        ensures
            r@ == 0,
    {
        EntryFlags { bits: 0 }
    }

    /// Specifies whether this entry is present.
    pub fn present() -> (r: Self)
        ensures
            r@ == 0x80,
    {
        EntryFlags { bits: 0x80 }
    }

    /// Interrupt gate.
    pub fn int_gate() -> (r: Self)
        ensures
            r@ == 0b1110,
    {
        EntryFlags { bits: 0b1110 }
    }

    /// Trap gate: same as interrupt gate, but doesn't automatically disable/re-enable interrupts.
    pub fn trap_gate() -> (r: Self)
        ensures
            r@ == 0b1111,
    {
        EntryFlags { bits: 0b1111 }
    }

    /// The flags of both.
    pub fn union(self, other: Self) -> (r: Self)
        ensures
            r@ == self@ | other@,
    {
        EntryFlags { bits: self.bits | other.bits }
    }

    /// The raw bits.
    pub fn bits(self) -> (r: u8)
        ensures
            r == self@,
    {
        self.bits
    }
}

/// An interrupt descriptor.
#[derive(Copy, Clone)]
pub struct Entry {
    offset_1: u16,
    selector: u16,
    ist: u8,
    type_attr: u8,
    offset_2: u16,
    offset_3: u32,
    zero: u32,
}

/// The handler address an entry points to.
pub open spec fn handler_of(offset_1: u16, offset_2: u16, offset_3: u32) -> int {
    offset_1 + offset_2 * 0x1_0000 + offset_3 * 0x1_0000_0000
}

impl Entry {
    /// The handler address this entry points to.
    pub closed spec fn spec_handler(&self) -> int {
        handler_of(self.offset_1, self.offset_2, self.offset_3)
    }

    /// The type and attribute flags of the descriptor.
    pub closed spec fn spec_type_attr(&self) -> u8 {
        self.type_attr
    }

    /// The interrupt stack table index.
    pub closed spec fn spec_ist(&self) -> u8 {
        self.ist
    }

    /// The code segment selector.
    pub closed spec fn spec_selector(&self) -> u16 {
        self.selector
    }

    /// A descriptor for `handler` in the kernel code segment.
    pub fn new(handler: usize, flags: EntryFlags, ist: u8) -> (r: Self)
        requires
            handler < 0x1_0000_0000_0000_0000,
        ensures
            r.spec_handler() == handler,
            r.spec_type_attr() == flags@,
            r.spec_ist() == ist,
            r.spec_selector() == 0x08,
    {
        let h = handler as u64;
        let offset_1 = h as u16;
        let offset_2 = (h >> 16) as u16;
        let offset_3 = (h >> 32) as u32;
        proof {
            assert((h as u16) + ((h >> 16u64) as u16) * 0x1_0000 + ((h >> 32u64) as u32) * 0x1_0000_0000
                == h as int) by (bit_vector);
        }
        Self {
            offset_1,
            selector: 0x08,
            ist,
            type_attr: flags.bits(),
            offset_2,
            offset_3,
            zero: 0,
        }
    }

    /// The handler address this entry points to.
    pub fn handler(&self) -> (r: u64)
        ensures
            r == self.spec_handler(),
    {
        self.offset_1 as u64 + self.offset_2 as u64 * 0x1_0000 + self.offset_3 as u64 * 0x1_0000_0000
    }

    /// The code segment selector.
    pub fn selector(&self) -> (r: u16)
        ensures
            r == self.spec_selector(),
    {
        self.selector
    }

    /// The interrupt stack table index.
    pub fn ist(&self) -> (r: u8)
        ensures
            r == self.spec_ist(),
    {
        self.ist
    }

    /// The type and attribute flags of the descriptor.
    pub fn type_attr(&self) -> (r: u8)
        ensures
            r == self.spec_type_attr(),
    {
        self.type_attr
    }

    /// An empty (not present) descriptor.
    pub fn empty() -> (r: Self)
        ensures
            r.spec_handler() == 0,
            r.spec_type_attr() == 0,
            r.spec_ist() == 0,
    {
        Self::new(0, EntryFlags::empty(), 0)
    }
}

/// Number of entries of the interrupt descriptor table.
pub const ENTRY_COUNT: usize = 64;

/// The interrupt descriptor table.
pub struct IDT {
    entries: [Entry; 64],
}

impl IDT {
    /// The entries.
    pub closed spec fn spec_entries(&self) -> Seq<Entry> {
        self.entries@
    }

    /// A table of empty descriptors.
    pub fn new() -> (r: Self)
        ensures
            r.spec_entries().len() == 64,
            forall|i: int| 0 <= i < 64 ==> #[trigger] r.spec_entries()[i].spec_handler() == 0
                && r.spec_entries()[i].spec_type_attr() == 0,
    {
        let e = Entry::empty();
        let entries = [e; 64];
        Self { entries }
    }

    /// The descriptor of interrupt `n`.
    pub fn entry(&self, n: usize) -> (r: Entry)
        requires
            n < 64,
        ensures
            r == self.spec_entries()[n as int],
    {
        self.entries[n]
    }

    /// Points the descriptor of interrupt `n` at `handler`.
    pub fn set_handler(&mut self, n: usize, handler: usize, flags: EntryFlags, ist: u8)
        requires
            n < 64,
            handler < 0x1_0000_0000_0000_0000,
        ensures
            final(self).spec_entries().len() == 64,
            final(self).spec_entries()[n as int].spec_handler() == handler,
            final(self).spec_entries()[n as int].spec_type_attr() == flags@,
            final(self).spec_entries()[n as int].spec_ist() == ist,
            forall|i: int| 0 <= i < 64 && i != n ==> #[trigger] final(self).spec_entries()[i] == old(self).spec_entries()[i],
    {
        self.entries[n] = Entry::new(handler, flags, ist);
    }
}

/// The exceptions that run on their own stack (the first of the interrupt stack table): the
/// non-maskable interrupt, the double fault, the general protection fault and the page fault.
pub open spec fn spec_exception_ist(n: int) -> u8 {
    if n == 2 || n == 8 || n == 13 || n == 14 {
        1
    } else {
        0
    }
}

/// The interrupt stack table index exception `n` runs on.
fn exception_ist(n: usize) -> (r: u8)
    ensures
        r == spec_exception_ist(n as int),
{
    if n == 2 || n == 8 || n == 13 || n == 14 {
        1
    } else {
        0
    }
}

/// Present interrupt gate.
pub open spec fn kernel_gate() -> u8 {
    0x8e
}

impl IDT {
    /// The kernel's table: the 32 exceptions go to `exception_handlers` (by vector), the timer
    /// interrupt (32) to `irq0` and the other 15 hardware interrupts to `irq`, all as present
    /// interrupt gates; the rest stays empty.
    pub fn kernel(exception_handlers: &[usize], irq0: usize, irq: usize) -> (r: Self)
        requires
            exception_handlers@.len() == 32,
        ensures
            r.spec_entries().len() == 64,
            forall|i: int| 0 <= i < 32 ==> {
                &&& #[trigger] r.spec_entries()[i].spec_handler() == exception_handlers@[i]
                &&& r.spec_entries()[i].spec_type_attr() == kernel_gate()
                &&& r.spec_entries()[i].spec_ist() == spec_exception_ist(i)
            },
            r.spec_entries()[32].spec_handler() == irq0,
            r.spec_entries()[32].spec_type_attr() == kernel_gate(),
            r.spec_entries()[32].spec_ist() == 0,
            forall|i: int| 33 <= i < 48 ==> {
                &&& #[trigger] r.spec_entries()[i].spec_handler() == irq
                &&& r.spec_entries()[i].spec_type_attr() == kernel_gate()
                &&& r.spec_entries()[i].spec_ist() == 0
            },
            forall|i: int| 48 <= i < 64 ==> #[trigger] r.spec_entries()[i].spec_handler() == 0
                && r.spec_entries()[i].spec_type_attr() == 0,
    {
        let exc_flags = EntryFlags::present().union(EntryFlags::int_gate());
        assert(0x80u8 | 0x0eu8 == 0x8eu8) by (bit_vector);
        let mut idt = IDT::new();
        let mut n: usize = 0;
        while n < 32
            invariant
                n <= 32,
                exception_handlers@.len() == 32,
                exc_flags@ == kernel_gate(),
                idt.spec_entries().len() == 64,
                forall|i: int| 0 <= i < n ==> {
                    &&& #[trigger] idt.spec_entries()[i].spec_handler() == exception_handlers@[i]
                    &&& idt.spec_entries()[i].spec_type_attr() == kernel_gate()
                    &&& idt.spec_entries()[i].spec_ist() == spec_exception_ist(i)
                },
                forall|i: int| 32 <= i < 64 ==> #[trigger] idt.spec_entries()[i].spec_handler() == 0
                    && idt.spec_entries()[i].spec_type_attr() == 0,
            decreases 32 - n,
        {
            let ist = exception_ist(n);
            idt.set_handler(n, exception_handlers[n], exc_flags, ist);
            n = n + 1;
        }

        // Timer
        idt.set_handler(32, irq0, exc_flags, 0);

        let mut i: usize = 1;
        while i < 16
            invariant
                1 <= i <= 16,
                exception_handlers@.len() == 32,
                exc_flags@ == kernel_gate(),
                idt.spec_entries().len() == 64,
                forall|k: int| 0 <= k < 32 ==> {
                    &&& #[trigger] idt.spec_entries()[k].spec_handler() == exception_handlers@[k]
                    &&& idt.spec_entries()[k].spec_type_attr() == kernel_gate()
                    &&& idt.spec_entries()[k].spec_ist() == spec_exception_ist(k)
                },
                idt.spec_entries()[32].spec_handler() == irq0,
                idt.spec_entries()[32].spec_type_attr() == kernel_gate(),
                idt.spec_entries()[32].spec_ist() == 0,
                forall|k: int| 33 <= k < 32 + i ==> {
                    &&& #[trigger] idt.spec_entries()[k].spec_handler() == irq
                    &&& idt.spec_entries()[k].spec_type_attr() == kernel_gate()
                    &&& idt.spec_entries()[k].spec_ist() == 0
                },
                forall|k: int| 32 + i <= k < 64 ==> #[trigger] idt.spec_entries()[k].spec_handler() == 0
                    && idt.spec_entries()[k].spec_type_attr() == 0,
            decreases 16 - i,
        {
            let ghost before = idt.spec_entries();
            idt.set_handler(32 + i, irq, exc_flags, 0);
            assert forall|k: int| 0 <= k < 32 implies {
                &&& #[trigger] idt.spec_entries()[k].spec_handler() == exception_handlers@[k]
                &&& idt.spec_entries()[k].spec_type_attr() == kernel_gate()
                &&& idt.spec_entries()[k].spec_ist() == spec_exception_ist(k)
            } by {
                assert(idt.spec_entries()[k] == before[k]);
                assert(before[k].spec_handler() == exception_handlers@[k]);
            }
            assert forall|k: int| 33 <= k < 32 + i + 1 implies {
                &&& #[trigger] idt.spec_entries()[k].spec_handler() == irq
                &&& idt.spec_entries()[k].spec_type_attr() == kernel_gate()
                &&& idt.spec_entries()[k].spec_ist() == 0
            } by {
                if k < 32 + i {
                    assert(idt.spec_entries()[k] == before[k]);
                    assert(before[k].spec_handler() == irq);
                }
            }
            assert forall|k: int| 32 + i + 1 <= k < 64 implies #[trigger] idt.spec_entries()[k].spec_handler() == 0
                && idt.spec_entries()[k].spec_type_attr() == 0 by {
                assert(idt.spec_entries()[k] == before[k]);
                assert(before[k].spec_handler() == 0);
            }
            i = i + 1;
        }
        idt
    }
}

/// Irq flags type. Flags register for the x86 architecture.
#[derive(Copy, Clone)]
pub struct IrqState(pub u64);

} // verus!

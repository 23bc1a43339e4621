# kwast

The core of a small x86-64 kernel that runs WebAssembly programs, written in Verus: the
memory managers, the page table entries and tables, the boot-time decisions, the scheduler and
the bookkeeping of threads, files and schemes, each with a contract that Verus proves.

Layout:

- `src/arch`: addresses, page table entries and tables, address space identifiers, the
  interrupt descriptor table, ACPI tables, per-CPU data, boot information, the SIMD setup and
  the text screen.
- `src/mm`: the buddy tree, the interval tree behind the virtual memory area allocator, the
  kernel heap (size classes, slab geometry, slab free lists, page blocks), the physical frame
  stack, the thread control block area and the page fault decision.
- `src/tasking`: thread identifiers and threads, stacks, the scheduler, file descriptor tables,
  schemes and protection domains.
- `src/sync`, `src/ds`: a single-waiter condition variable and a nibble array.
- `app/`: the kernel around the library. It touches the hardware (registers, port and
  memory-mapped I/O, page tables through the recursive mapping), the multiboot information,
  locks and statics, the SIMD save areas, and the slab lists that link slabs through raw
  memory.
- `tests/`: tests that run the library on concrete values.

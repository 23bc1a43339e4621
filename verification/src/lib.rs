//! Verified core of a small WebAssembly microkernel: addresses, page table entries,
//! memory allocators and scheduling bookkeeping.
pub mod arch;
pub mod mm;
pub mod tasking;
pub mod ds;
pub mod mem;
pub mod sync;

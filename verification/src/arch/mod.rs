//! Architecture specific parts (x86-64).
pub mod address;
pub mod asid;
pub mod paging;
pub mod acpi;
pub mod cpu_data;
pub mod interrupts;
pub mod boot;
pub mod table;
pub mod vga_text;
pub mod simd;

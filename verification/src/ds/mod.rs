//! Small data structures.
pub mod nibble_array;

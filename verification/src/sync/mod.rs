//! Synchronization bookkeeping.
pub mod cond_var_single;

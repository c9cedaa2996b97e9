//! Optimizations of the intermediate representation.
pub mod register_allocation;
pub mod peephole;
pub mod null_check_elision;

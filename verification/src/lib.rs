//! Support libraries of the Onix kernel: memory allocators, terminal colours,
//! and Flattened Devicetree (FDT) parsing, with their behaviour stated and
//! proved in Verus.
pub mod allocator;
pub mod ansi_term;
pub mod devicetree;
pub mod devtree;
pub mod macro_support;


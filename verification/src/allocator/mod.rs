//! Memory allocators that hand out address ranges of heap regions given to
//! them.
//!
//! The allocators keep their bookkeeping in ordinary collections and speak of
//! memory by address: an allocation is an address range `start..start + size`
//! that the allocator will not hand out again until it is deallocated.
pub mod layout;
pub mod linked_list;
pub mod fixed_size_block;

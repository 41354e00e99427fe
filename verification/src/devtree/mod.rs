//! Reading Flattened Devicetree (FDT) blobs.
//!
//! A blob holds a header, a memory reservation block, a structure block of
//! tokens and a strings block of property names. The functions here check a
//! blob's layout, read its blocks and walk the tokens of its structure
//! block. All multi-byte values of a blob are big-endian.
pub mod bytes;
pub mod cursor;
pub mod de;
pub mod debug;
pub mod devicetree;
pub mod error;
pub mod header;
pub mod interrupts;
pub mod item;
pub mod node;
pub mod property;
pub mod reserved_memory;
pub mod struct_block;
pub mod util;

use vstd::prelude::*;

verus! {

/// The byte that separates a node's name from its unit address: `@`.
pub const UNIT_ADDRESS_SEPARATOR: u8 = 64;

/// The byte that separates the components of a node path: `/`.
pub const PATH_SEPARATOR: u8 = 47;

} // verus!

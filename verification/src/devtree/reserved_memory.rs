//! Entries of the memory reservation block.
use core::ops::Range;

use vstd::prelude::*;

use super::util::{be_u32_at, u64_to_be_bytes};

verus! {

use super::util::{be_u64, be_bytes_u64, lemma_be_u64_roundtrip};

/// A reserved memory region: `size` bytes from `address`.
#[derive(Clone, Copy, Debug, PartialEq, Eq, Structural)]
pub struct ReserveEntry {
    address: u64,
    size: u64,
}

/// The entry that the 16 bytes at `off` of `s` encode.
pub open spec fn spec_read_entry(s: Seq<u8>, off: int) -> ReserveEntry {
    ReserveEntry::spec_new(be_u64(s, off), be_u64(s, off + 8))
}

impl ReserveEntry {
    pub closed spec fn spec_new(address: u64, size: u64) -> ReserveEntry {
        ReserveEntry { address, size }
    }

    /// The entry built from an address and a size has that address and size.
    pub broadcast proof fn lemma_spec_new(address: u64, size: u64)
        ensures
            #[trigger] Self::spec_new(address, size).spec_address() == address,
            Self::spec_new(address, size).spec_size() == size,
    {
    }

    pub closed spec fn spec_address(&self) -> u64 {
        self.address
    }

    pub closed spec fn spec_size(&self) -> u64 {
        self.size
    }

    /// The entry ends the memory reservation block: its address and size are
    /// both zero.
    pub open spec fn spec_is_terminator(&self) -> bool {
        self.spec_address() == 0 && self.spec_size() == 0
    }

    /// The entry that ends the memory reservation block.
    pub fn terminator() -> (r: Self)
        ensures
            r.spec_address() == 0,
            r.spec_size() == 0,
    {
        Self::new(0, 0)
    }

    /// Whether this entry ends the memory reservation block.
    pub fn is_terminator(&self) -> (r: bool)
        ensures
            r == self.spec_is_terminator(),
    {
        self.address == 0 && self.size == 0
    }

    /// An entry reserving `size` bytes from `address`.
    pub fn new(address: u64, size: u64) -> (r: Self)
        ensures
            r == Self::spec_new(address, size),
            r.spec_address() == address,
            r.spec_size() == size,
    {
        ReserveEntry { address, size }
    }

    /// The start of the reserved region.
    pub fn address(&self) -> (r: u64)
        ensures
            r == self.spec_address(),
    {
        self.address
    }

    /// The size of the reserved region.
    pub fn size(&self) -> (r: u64)
        ensures
            r == self.spec_size(),
    {
        self.size
    }

    /// The reserved addresses; the end saturates at `u64::MAX`.
    pub fn address_range(&self) -> (r: Range<u64>)
        ensures
            r.start == self.spec_address(),
            r.end == (if self.spec_address() + self.spec_size() > u64::MAX {
                u64::MAX as int
            } else {
                self.spec_address() + self.spec_size()
            }),
    {
        let start = self.address;
        let end = start.saturating_add(self.size);
        start..end
    }

    /// The 16 bytes that encode the entry: address then size, big-endian.
    pub fn as_bytes(&self) -> (r: Vec<u8>)
        ensures
            r@ == be_bytes_u64(self.spec_address()) + be_bytes_u64(self.spec_size()),
    {
        let mut v = u64_to_be_bytes(self.address);
        v.append(&mut u64_to_be_bytes(self.size));
        v
    }

    /// Decodes the entry at `off` of `bytes`.
    pub fn read(bytes: &[u8], off: usize) -> (r: Self)
        requires
            off + 16 <= bytes@.len(),
        ensures
            r == spec_read_entry(bytes@, off as int),
    {
        assert(off + 16 <= bytes.len());
        let a_hi = be_u32_at(bytes, off) as u64;
        let a_lo = be_u32_at(bytes, off + 4) as u64;
        let s_hi = be_u32_at(bytes, off + 8) as u64;
        let s_lo = be_u32_at(bytes, off + 12) as u64;
        ReserveEntry { address: a_hi * 0x1_0000_0000 + a_lo, size: s_hi * 0x1_0000_0000 + s_lo }
    }
}

/// Reading back the 16 bytes that encode an entry gives the same entry.
pub proof fn law_entry_bytes_roundtrip(e: ReserveEntry)
    ensures
        spec_read_entry(be_bytes_u64(e.spec_address()) + be_bytes_u64(e.spec_size()), 0) == e,
{
    let a = be_bytes_u64(e.spec_address());
    let z = be_bytes_u64(e.spec_size());
    let b = a + z;
    assert(b =~= Seq::<u8>::empty() + a + z);
    lemma_be_u64_roundtrip(e.spec_address(), Seq::<u8>::empty(), z);
    assert(b =~= a + z + Seq::<u8>::empty());
    lemma_be_u64_roundtrip(e.spec_size(), a, Seq::<u8>::empty());
}

} // verus!

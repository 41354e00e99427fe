//! The fixed-size records of a blob: its header, the entries of its memory
//! reservation block, structure tokens and property headers.
//!
//! All of them are stored big-endian; here they are held as the numbers
//! they encode.
use vstd::prelude::*;

use crate::devtree::util::be_u32_at;

verus! {

use crate::devtree::util::{be_u32, be_u64};
use super::text::{alt_hex_text, dec_text, push_alt_hex, push_dec};

/// The magic number that starts every blob.
pub const MAGIC: u32 = 0xd00d_feed;

/// The version of the Devicetree Specification that this library reads.
pub const SPEC_VERSION: u32 = 17;

/// The alignment of a blob's header.
pub const HEADER_ALIGNMENT: usize = 8;

/// The alignment of the memory reservation block.
pub const MEM_RSVMAP_ALIGNMENT: usize = 8;

/// The alignment of the structure block and of its tokens.
pub const STRUCTURE_ALIGNMENT: usize = 4;

/// The size of a blob's header in bytes.
pub const HEADER_SIZE: usize = 40;

/// The size of an entry of the memory reservation block in bytes.
pub const RESERVE_ENTRY_SIZE: usize = 16;

/// Why a header, or what it describes, is not a valid blob.
#[derive(Debug, Clone, Copy, PartialEq, Eq, Structural)]
pub enum HeaderValidationError {
    /// The header does not start with the magic number.
    InvalidMagic { magic: u32 },
    /// The blob is of a version this library cannot read.
    IncompatibleVersion { version: u32, last_comp_version: u32 },
    /// The blocks do not lie in order inside the blob, or are misaligned.
    InvalidLayout {
        totalsize: u32,
        off_dt_struct: u32,
        off_dt_strings: u32,
        off_mem_rsvmap: u32,
        size_dt_strings: u32,
        size_dt_struct: u32,
    },
    /// An unknown token at `offset` of the structure block.
    InvalidToken { token: u32, offset: usize },
    /// A string of the structure block is not UTF-8.
    InvalidStringInStructBlock { offset: usize },
    /// A string of the strings block is not UTF-8.
    InvalidStringInStringsBlock { offset: usize },
    /// The structure block ends inside a property header.
    MissingPropHeader { offset: usize },
    /// The structure block ends early.
    UnexpectedEndOfStructBlock { offset: usize },
    /// The strings block ends early.
    UnexpectedEndOfStringsBlock { offset: usize },
}

impl HeaderValidationError {
    /// The text that describes the error.
    pub open spec fn spec_message(&self) -> Seq<char> {
        match *self {
            HeaderValidationError::InvalidMagic { magic } => "invalid magic number: "@ + dec_text(magic as nat),
            HeaderValidationError::IncompatibleVersion { version, last_comp_version } => "incompatible device tree version: version="@ + dec_text(version as nat) + ", last_comp_version="@ + dec_text(last_comp_version as nat),
            HeaderValidationError::InvalidLayout { totalsize, off_dt_struct, off_dt_strings, off_mem_rsvmap, size_dt_strings, size_dt_struct } => "invalid device tree layout: totalsize="@ + alt_hex_text(totalsize as nat) + ", off_dt_struct="@ + alt_hex_text(off_dt_struct as nat) + ", off_dt_strings="@ + alt_hex_text(off_dt_strings as nat) + ", off_mem_rsvmap="@ + alt_hex_text(off_mem_rsvmap as nat) + ", size_dt_strings="@ + alt_hex_text(size_dt_strings as nat) + ", size_dt_struct="@ + alt_hex_text(size_dt_struct as nat),
            HeaderValidationError::InvalidToken { token, offset } => "invalid token: "@ + alt_hex_text(token as nat) + " at offset "@ + dec_text(offset as nat),
            HeaderValidationError::InvalidStringInStructBlock { offset } => "invalid string in structure block at offset "@ + dec_text(offset as nat),
            HeaderValidationError::InvalidStringInStringsBlock { offset } => "invalid string in strings block at offset "@ + dec_text(offset as nat),
            HeaderValidationError::MissingPropHeader { offset } => "missing prop header at offset "@ + dec_text(offset as nat),
            HeaderValidationError::UnexpectedEndOfStructBlock { offset } => "unexpected end of struct block at offset "@ + dec_text(offset as nat),
            HeaderValidationError::UnexpectedEndOfStringsBlock { offset } => "unexpected end of strings block at offset "@ + dec_text(offset as nat),
        }
    }

    /// The text that describes the error.
    pub fn message(&self) -> (r: String)
        ensures
            r@ == self.spec_message(),
    {
        let mut s = String::new();
        match *self {
            HeaderValidationError::InvalidMagic { magic } => {
                s.append("invalid magic number: ");
                push_dec(&mut s, magic as u64);
            },
            HeaderValidationError::IncompatibleVersion { version, last_comp_version } => {
                s.append("incompatible device tree version: version=");
                push_dec(&mut s, version as u64);
                s.append(", last_comp_version=");
                push_dec(&mut s, last_comp_version as u64);
            },
            HeaderValidationError::InvalidLayout { totalsize, off_dt_struct, off_dt_strings, off_mem_rsvmap, size_dt_strings, size_dt_struct } => {
                s.append("invalid device tree layout: totalsize=");
                push_alt_hex(&mut s, totalsize as u64);
                s.append(", off_dt_struct=");
                push_alt_hex(&mut s, off_dt_struct as u64);
                s.append(", off_dt_strings=");
                push_alt_hex(&mut s, off_dt_strings as u64);
                s.append(", off_mem_rsvmap=");
                push_alt_hex(&mut s, off_mem_rsvmap as u64);
                s.append(", size_dt_strings=");
                push_alt_hex(&mut s, size_dt_strings as u64);
                s.append(", size_dt_struct=");
                push_alt_hex(&mut s, size_dt_struct as u64);
            },
            HeaderValidationError::InvalidToken { token, offset } => {
                s.append("invalid token: ");
                push_alt_hex(&mut s, token as u64);
                s.append(" at offset ");
                push_dec(&mut s, offset as u64);
            },
            HeaderValidationError::InvalidStringInStructBlock { offset } => {
                s.append("invalid string in structure block at offset ");
                push_dec(&mut s, offset as u64);
            },
            HeaderValidationError::InvalidStringInStringsBlock { offset } => {
                s.append("invalid string in strings block at offset ");
                push_dec(&mut s, offset as u64);
            },
            HeaderValidationError::MissingPropHeader { offset } => {
                s.append("missing prop header at offset ");
                push_dec(&mut s, offset as u64);
            },
            HeaderValidationError::UnexpectedEndOfStructBlock { offset } => {
                s.append("unexpected end of struct block at offset ");
                push_dec(&mut s, offset as u64);
            },
            HeaderValidationError::UnexpectedEndOfStringsBlock { offset } => {
                s.append("unexpected end of strings block at offset ");
                push_dec(&mut s, offset as u64);
            },
        }
        s
    }
}

/// The header of a blob: where its blocks are and which version it is.
#[derive(Debug, Clone, Copy, PartialEq, Eq, Structural)]
pub struct Header {
    /// `0xd00dfeed`.
    pub magic: u32,
    /// The size of the blob in bytes.
    pub totalsize: u32,
    /// The offset of the structure block.
    pub off_dt_struct: u32,
    /// The offset of the strings block.
    pub off_dt_strings: u32,
    /// The offset of the memory reservation block.
    pub off_mem_rsvmap: u32,
    /// The version of the blob's format.
    pub version: u32,
    /// The oldest version the blob's format is compatible with.
    pub last_comp_version: u32,
    /// The physical id of the boot CPU.
    pub boot_cpuid_phys: u32,
    /// The size of the strings block.
    pub size_dt_strings: u32,
    /// The size of the structure block.
    pub size_dt_struct: u32,
}

/// The header encoded by the first 40 bytes of `b`.
pub open spec fn spec_header_of(b: Seq<u8>) -> Header {
    Header {
        magic: be_u32(b, 0),
        totalsize: be_u32(b, 4),
        off_dt_struct: be_u32(b, 8),
        off_dt_strings: be_u32(b, 12),
        off_mem_rsvmap: be_u32(b, 16),
        version: be_u32(b, 20),
        last_comp_version: be_u32(b, 24),
        boot_cpuid_phys: be_u32(b, 28),
        size_dt_strings: be_u32(b, 32),
        size_dt_struct: be_u32(b, 36),
    }
}

impl Header {
    /// The blocks lie in order inside the blob, without overlapping: the
    /// header, the memory reservation block (which holds at least its
    /// terminating entry), the structure block, the strings block; the
    /// memory reservation block is 8-aligned and the structure block
    /// 4-aligned.
    pub open spec fn spec_layout_valid(&self) -> bool {
        &&& HEADER_SIZE <= self.off_mem_rsvmap
        &&& self.off_mem_rsvmap + RESERVE_ENTRY_SIZE <= self.off_dt_struct
        &&& self.off_dt_struct + self.size_dt_struct <= self.off_dt_strings
        &&& self.off_dt_strings + self.size_dt_strings <= self.totalsize
        &&& self.off_mem_rsvmap % (MEM_RSVMAP_ALIGNMENT as u32) == 0
        &&& self.off_dt_struct % (STRUCTURE_ALIGNMENT as u32) == 0
    }

    /// What checking the header gives: the magic number first, then the
    /// version, then the layout.
    pub open spec fn spec_validate(&self) -> Result<(), HeaderValidationError> {
        if self.magic != MAGIC {
            Err(HeaderValidationError::InvalidMagic { magic: self.magic })
        } else if !(self.version == SPEC_VERSION || self.last_comp_version <= SPEC_VERSION) {
            Err(
                HeaderValidationError::IncompatibleVersion {
                    version: self.version,
                    last_comp_version: self.last_comp_version,
                },
            )
        } else if !self.spec_layout_valid() {
            Err(
                HeaderValidationError::InvalidLayout {
                    totalsize: self.totalsize,
                    off_dt_struct: self.off_dt_struct,
                    off_dt_strings: self.off_dt_strings,
                    off_mem_rsvmap: self.off_mem_rsvmap,
                    size_dt_strings: self.size_dt_strings,
                    size_dt_struct: self.size_dt_struct,
                },
            )
        } else {
            Ok(())
        }
    }

    /// A header validates only when it starts with the magic number, its
    /// memory reservation block is 8-aligned and its structure block
    /// 4-aligned, and the blocks follow the header in order, the memory
    /// reservation block leaving room for an entry and the strings block
    /// ending within the blob. A header with the right magic number and
    /// version whose structure block is misaligned is refused as an invalid
    /// layout.
    pub proof fn law_valid_header_is_aligned(self)
        ensures
            self.spec_validate() is Ok ==> {
                &&& self.magic == 0xd00dfeed
                &&& self.off_mem_rsvmap % 8 == 0
                &&& self.off_dt_struct % 4 == 0
                &&& 40 <= self.off_mem_rsvmap
                &&& self.off_mem_rsvmap + 16 <= self.off_dt_struct
                &&& self.off_dt_struct + self.size_dt_struct <= self.off_dt_strings
                &&& self.off_dt_strings + self.size_dt_strings <= self.totalsize
            },
            self.off_dt_struct % 4 != 0 ==> self.spec_validate() is Err,
            self.off_mem_rsvmap % 8 != 0 ==> self.spec_validate() is Err,
            self.magic == 0xd00dfeed && (self.version == 17 || self.last_comp_version <= 17) && (
            self.off_dt_struct % 4 != 0 || self.off_mem_rsvmap % 8 != 0) ==> self.spec_validate()
                is Err && self.spec_validate()->Err_0 is InvalidLayout,
    {
    }

    /// Whether a header may start at `addr`: it must be 8-aligned.
    pub fn is_valid_header_addr(addr: usize) -> (r: bool)
        ensures
            r == (addr % HEADER_ALIGNMENT == 0),
    {
        addr % HEADER_ALIGNMENT == 0
    }

    /// Checks the magic number, the version and the layout of the blocks.
    pub fn validate(&self) -> (r: Result<(), HeaderValidationError>)
        ensures
            r == self.spec_validate(),
    {
        if self.magic != MAGIC {
            return Err(HeaderValidationError::InvalidMagic { magic: self.magic });
        }
        if !(self.version == SPEC_VERSION || self.last_comp_version <= SPEC_VERSION) {
            return Err(
                HeaderValidationError::IncompatibleVersion {
                    version: self.version,
                    last_comp_version: self.last_comp_version,
                },
            );
        }
        let is_layout_valid = (HEADER_SIZE as u32) <= self.off_mem_rsvmap && (
        self.off_mem_rsvmap as u64) + (RESERVE_ENTRY_SIZE as u64) <= (self.off_dt_struct as u64) && (self.off_dt_struct as u64) + (self.size_dt_struct as u64)
            <= (self.off_dt_strings as u64) && (self.off_dt_strings as u64) + (
        self.size_dt_strings as u64) <= (self.totalsize as u64) && self.off_mem_rsvmap % (
        MEM_RSVMAP_ALIGNMENT as u32) == 0 && self.off_dt_struct % (STRUCTURE_ALIGNMENT as u32) == 0;
        if !is_layout_valid {
            return Err(
                HeaderValidationError::InvalidLayout {
                    totalsize: self.totalsize,
                    off_dt_struct: self.off_dt_struct,
                    off_dt_strings: self.off_dt_strings,
                    off_mem_rsvmap: self.off_mem_rsvmap,
                    size_dt_strings: self.size_dt_strings,
                    size_dt_struct: self.size_dt_struct,
                },
            );
        }
        Ok(())
    }

    /// The header encoded by the first 40 bytes of `bytes`.
    pub fn from_bytes(bytes: &[u8]) -> (r: Header)
        requires
            bytes@.len() >= HEADER_SIZE,
        ensures
            r == spec_header_of(bytes@),
    {
        Header {
            magic: be_u32_at(bytes, 0),
            totalsize: be_u32_at(bytes, 4),
            off_dt_struct: be_u32_at(bytes, 8),
            off_dt_strings: be_u32_at(bytes, 12),
            off_mem_rsvmap: be_u32_at(bytes, 16),
            version: be_u32_at(bytes, 20),
            last_comp_version: be_u32_at(bytes, 24),
            boot_cpuid_phys: be_u32_at(bytes, 28),
            size_dt_strings: be_u32_at(bytes, 32),
            size_dt_struct: be_u32_at(bytes, 36),
        }
    }
}

/// An entry of the memory reservation block: `size` bytes reserved from
/// `address`.
#[derive(Debug, Clone, Copy, PartialEq, Eq, Structural)]
pub struct ReserveEntry {
    /// The first reserved address.
    pub address: u64,
    /// The number of reserved bytes.
    pub size: u64,
}

/// The entry encoded by the 16 bytes at `off` of `b`.
pub open spec fn spec_reserve_entry_at(b: Seq<u8>, off: int) -> ReserveEntry {
    ReserveEntry { address: be_u64(b, off), size: be_u64(b, off + 8) }
}

impl ReserveEntry {
    /// Whether this entry ends the block: address and size both zero.
    pub fn is_terminator(&self) -> (r: bool)
        ensures
            r == (self.address == 0 && self.size == 0),
    {
        self.address == 0 && self.size == 0
    }

    /// The reserved addresses; the end saturates at `usize::MAX`.
    pub fn range(&self) -> (r: core::ops::Range<usize>)
        ensures
            r.start == self.address as usize,
            r.end == (if self.address as usize + self.size as usize > usize::MAX {
                usize::MAX as int
            } else {
                self.address as usize + self.size as usize
            }),
    {
        let start = self.address as usize;
        let end = start.saturating_add(self.size as usize);
        start..end
    }

    /// The entry encoded by the 16 bytes at `off` of `bytes`.
    pub fn from_bytes(bytes: &[u8], off: usize) -> (r: ReserveEntry)
        requires
            off + RESERVE_ENTRY_SIZE <= bytes@.len(),
        ensures
            r == spec_reserve_entry_at(bytes@, off as int),
    {
        assert(off + 16 <= bytes.len());
        let a_hi = be_u32_at(bytes, off) as u64;
        let a_lo = be_u32_at(bytes, off + 4) as u64;
        let s_hi = be_u32_at(bytes, off + 8) as u64;
        let s_lo = be_u32_at(bytes, off + 12) as u64;
        ReserveEntry { address: a_hi * 0x1_0000_0000 + a_lo, size: s_hi * 0x1_0000_0000 + s_lo }
    }
}

/// A token of the structure block.
#[derive(Debug, Clone, Copy, PartialEq, Eq, Structural)]
pub struct StructToken(pub u32);

impl StructToken {
    /// A node begins.
    pub const BEGIN_NODE: u32 = 0x0000_0001;

    /// A node ends.
    pub const END_NODE: u32 = 0x0000_0002;

    /// A property follows.
    pub const PROP: u32 = 0x0000_0003;

    /// Nothing; skipped.
    pub const NOP: u32 = 0x0000_0004;

    /// The structure block ends.
    pub const END: u32 = 0x0000_0009;
}

/// The header of a property in the structure block: the length of its value
/// and the offset of its name in the strings block.
#[derive(Debug, Clone, Copy, PartialEq, Eq, Structural)]
pub struct PropHeader {
    /// The length of the value in bytes.
    pub len: u32,
    /// The offset of the name in the strings block.
    pub nameoff: u32,
}

} // verus!

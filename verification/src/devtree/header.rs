//! The header of a devicetree blob and the checks of its layout.
use vstd::prelude::*;

use super::error::{ReadDevicetreeError, ReadDevicetreeErrorKind};
use super::util::{be_u32_at, slice_address, u32_to_be_bytes};

verus! {

use super::util::{be_u32, be_bytes_u32, lemma_be_u32_roundtrip};

/// The value that a blob's first four bytes hold.
pub const MAGIC: u32 = 0xd00d_feed;
/// The version of the blob format that this reader reads.
pub const LAST_COMPATIBLE_VERSION: u32 = 16;
/// The size of a header in bytes.
pub const HEADER_SIZE: usize = 40;
/// The alignment of a header.
pub const HEADER_ALIGNMENT: usize = 8;
/// The alignment of the memory reservation block.
pub const MEM_RSVMAP_ALIGNMENT: usize = 8;
/// The alignment of the structure block.
pub const STRUCTURE_ALIGNMENT: usize = 4;
/// The alignment of the strings block.
pub const STRINGS_ALIGNMENT: usize = 1;
/// The size of a memory reservation entry in bytes.
pub const RESERVE_ENTRY_SIZE: usize = 16;

/// The header of a devicetree blob: ten big-endian `u32` fields.
#[derive(Clone, Copy, Debug, PartialEq, Eq, Structural)]
pub struct Header {
    pub magic: u32,
    pub total_size: u32,
    pub off_dt_struct: u32,
    pub off_dt_strings: u32,
    pub off_mem_rsvmap: u32,
    pub version: u32,
    pub last_compatible_version: u32,
    pub boot_cpuid_phys: u32,
    pub size_dt_strings: u32,
    pub size_dt_struct: u32,
}

/// The header that the first 40 bytes of `s` encode.
pub open spec fn spec_parse_header(s: Seq<u8>) -> Header {
    Header {
        magic: be_u32(s, 0),
        total_size: be_u32(s, 4),
        off_dt_struct: be_u32(s, 8),
        off_dt_strings: be_u32(s, 12),
        off_mem_rsvmap: be_u32(s, 16),
        version: be_u32(s, 20),
        last_compatible_version: be_u32(s, 24),
        boot_cpuid_phys: be_u32(s, 28),
        size_dt_strings: be_u32(s, 32),
        size_dt_struct: be_u32(s, 36),
    }
}

/// The 40 bytes that encode header `h`.
pub open spec fn spec_header_bytes(h: Header) -> Seq<u8> {
    be_bytes_u32(h.magic) + be_bytes_u32(h.total_size) + be_bytes_u32(h.off_dt_struct)
        + be_bytes_u32(h.off_dt_strings) + be_bytes_u32(h.off_mem_rsvmap) + be_bytes_u32(h.version)
        + be_bytes_u32(h.last_compatible_version) + be_bytes_u32(h.boot_cpuid_phys)
        + be_bytes_u32(h.size_dt_strings) + be_bytes_u32(h.size_dt_struct)
}

/// The fields of header `h`, in the order of the blob.
pub open spec fn header_words(h: Header) -> Seq<u32> {
    seq![
        h.magic,
        h.total_size,
        h.off_dt_struct,
        h.off_dt_strings,
        h.off_mem_rsvmap,
        h.version,
        h.last_compatible_version,
        h.boot_cpuid_phys,
        h.size_dt_strings,
        h.size_dt_struct,
    ]
}

/// The big-endian bytes of the words `ws`, one after another.
pub open spec fn words_bytes(ws: Seq<u32>) -> Seq<u8>
    decreases ws.len(),
{
    if ws.len() == 0 {
        Seq::empty()
    } else {
        words_bytes(ws.drop_last()) + be_bytes_u32(ws.last())
    }
}

/// Word `k` of `ws` reads back from its four bytes in `words_bytes(ws)`.
proof fn lemma_words_bytes_at(ws: Seq<u32>, k: int)
    requires
        0 <= k < ws.len(),
    ensures
        words_bytes(ws).len() == 4 * ws.len(),
        be_u32(words_bytes(ws), 4 * k) == ws[k],
    decreases ws.len(),
{
    let init = ws.drop_last();
    let head = words_bytes(init);
    if k == ws.len() - 1 {
        if init.len() > 0 {
            lemma_words_bytes_at(init, 0);
        }
        assert(head.len() == 4 * init.len());
        assert(words_bytes(ws) =~= head + be_bytes_u32(ws.last()) + Seq::<u8>::empty());
        lemma_be_u32_roundtrip(ws.last(), head, Seq::<u8>::empty());
    } else {
        lemma_words_bytes_at(init, k);
        let w = words_bytes(ws);
        assert(w[4 * k] == head[4 * k] && w[4 * k + 1] == head[4 * k + 1] && w[4 * k + 2] == head[4
            * k + 2] && w[4 * k + 3] == head[4 * k + 3]);
    }
}

/// Reading back the 40 bytes that encode a header gives the same header.
pub proof fn law_header_bytes_roundtrip(h: Header)
    ensures
        spec_parse_header(spec_header_bytes(h)) == h,
{
    let ws = header_words(h);
    let b = spec_header_bytes(h);
    reveal_with_fuel(words_bytes, 11);
    assert(b =~= words_bytes(ws));
    assert forall|k: int| 0 <= k < 10 implies be_u32(b, 4 * k) == #[trigger] ws[k] by {
        lemma_words_bytes_at(ws, k);
    }
    assert(be_u32(b, 4 * 0int) == ws[0] && be_u32(b, 4 * 1int) == ws[1] && be_u32(b, 4 * 2int) == ws[2]
        && be_u32(b, 4 * 3int) == ws[3] && be_u32(b, 4 * 4int) == ws[4] && be_u32(b, 4 * 5int) == ws[5]
        && be_u32(b, 4 * 6int) == ws[6] && be_u32(b, 4 * 7int) == ws[7] && be_u32(b, 4 * 8int) == ws[8]
        && be_u32(b, 4 * 9int) == ws[9]);
}

/// Checks one block: its offset and size must be multiples of its alignment,
/// and it must lie between the end of the previous block and the end of the
/// blob. On success, the end of the block.
pub open spec fn spec_check_block_layout(
    block_name: &'static str,
    block_alignment: usize,
    block_offset: u32,
    block_size: u32,
    prev_block_end: u32,
    whole_block_end: u32,
) -> Result<u32, ReadDevicetreeErrorKind> {
    if !((block_offset as usize).is_multiple_of(block_alignment) && (
    block_size as usize).is_multiple_of(block_alignment)) {
        Err(
            ReadDevicetreeErrorKind::UnalignedBlock {
                block_name,
                block_alignment,
                block_offset,
                block_size,
            },
        )
    } else if !(prev_block_end <= block_offset && block_offset + block_size <= whole_block_end) {
        Err(
            ReadDevicetreeErrorKind::BlockOutOfBounds {
                block_name,
                block_offset,
                block_size,
                valid_range: prev_block_end..whole_block_end,
            },
        )
    } else {
        Ok((block_offset + block_size) as u32)
    }
}

/// The outcome of validating header `h` of a blob that starts at
/// `address`: the checks in order, the first failing one giving the error.
pub open spec fn spec_validate(h: Header, address: int) -> Result<(), ReadDevicetreeErrorKind> {
    if h.magic != MAGIC {
        Err(ReadDevicetreeErrorKind::InvalidMagic { magic: h.magic })
    } else if !(h.total_size >= HEADER_SIZE && address + h.total_size <= usize::MAX) {
        Err(ReadDevicetreeErrorKind::InvalidTotalSize { total_size: h.total_size as usize })
    } else if h.last_compatible_version != LAST_COMPATIBLE_VERSION {
        Err(
            ReadDevicetreeErrorKind::IncompatibleVersion {
                version: h.version,
                last_compatible_version: h.last_compatible_version,
            },
        )
    } else {
        match spec_check_block_layout(
            "memory reservation block",
            MEM_RSVMAP_ALIGNMENT,
            h.off_mem_rsvmap,
            RESERVE_ENTRY_SIZE as u32,
            HEADER_SIZE as u32,
            h.total_size,
        ) {
            Err(e) => Err(e),
            Ok(end1) => match spec_check_block_layout(
                "structure block",
                STRUCTURE_ALIGNMENT,
                h.off_dt_struct,
                h.size_dt_struct,
                end1,
                h.total_size,
            ) {
                Err(e) => Err(e),
                Ok(end2) => match spec_check_block_layout(
                    "strings block",
                    STRINGS_ALIGNMENT,
                    h.off_dt_strings,
                    h.size_dt_strings,
                    end2,
                    h.total_size,
                ) {
                    Err(e) => Err(e),
                    Ok(_) => Ok(()),
                },
            },
        }
    }
}

/// A header whose blocks lie in order inside the blob: the memory
/// reservation block (room for at least one entry), then the structure
/// block, then the strings block, each aligned as the format asks.
pub open spec fn header_layout_ok(h: Header) -> bool {
    &&& h.magic == MAGIC
    &&& h.last_compatible_version == LAST_COMPATIBLE_VERSION
    &&& HEADER_SIZE <= h.off_mem_rsvmap
    &&& h.off_mem_rsvmap % 8 == 0
    &&& h.off_mem_rsvmap + RESERVE_ENTRY_SIZE <= h.off_dt_struct
    &&& h.off_dt_struct % 4 == 0
    &&& h.size_dt_struct % 4 == 0
    &&& h.off_dt_struct + h.size_dt_struct <= h.off_dt_strings
    &&& h.off_dt_strings + h.size_dt_strings <= h.total_size
}

/// Reading a header from `s`, the bytes of a blob that starts at `address`:
/// too few bytes, an unaligned start, or the first failed check of
/// [`spec_validate`]; else the header that the bytes encode.
pub open spec fn spec_header_from_bytes(s: Seq<u8>, address: int) -> Result<
    Header,
    ReadDevicetreeErrorKind,
> {
    if s.len() < HEADER_SIZE {
        Err(
            ReadDevicetreeErrorKind::InsufficientBytes {
                needed: HEADER_SIZE,
                actual: s.len() as usize,
            },
        )
    } else if address % (HEADER_ALIGNMENT as int) != 0 {
        Err(
            ReadDevicetreeErrorKind::UnalignedPointer {
                address: address as usize,
                expected_alignment: HEADER_ALIGNMENT,
            },
        )
    } else {
        match spec_validate(spec_parse_header(s), address) {
            Ok(()) => Ok(spec_parse_header(s)),
            Err(e) => Err(e),
        }
    }
}

/// A header that passed validation has its blocks in order inside the blob.
pub proof fn lemma_validated_layout(h: Header, address: int)
    requires
        spec_validate(h, address) is Ok,
    ensures
        header_layout_ok(h),
        h.total_size >= HEADER_SIZE,
{
}

/// A blob header validates only when it starts with the magic number, its
/// memory reservation block is 8-aligned, its structure block 4-aligned and
/// a whole number of 4-byte words long, and the blocks follow the 40-byte
/// header in order within the blob's total size; a misaligned structure
/// block is refused.
pub proof fn law_validated_header_is_aligned(h: Header, address: int)
    ensures
        spec_validate(h, address) is Ok ==> {
            &&& h.magic == 0xd00dfeed
            &&& h.total_size >= 40
            &&& h.off_mem_rsvmap % 8 == 0
            &&& h.off_dt_struct % 4 == 0
            &&& h.size_dt_struct % 4 == 0
            &&& 40 <= h.off_mem_rsvmap
            &&& h.off_mem_rsvmap + 16 <= h.off_dt_struct
            &&& h.off_dt_struct + h.size_dt_struct <= h.off_dt_strings
            &&& h.off_dt_strings + h.size_dt_strings <= h.total_size
        },
        h.off_dt_struct % 4 != 0 ==> spec_validate(h, address) is Err,
{
    if spec_validate(h, address) is Ok {
        lemma_validated_layout(h, address);
    }
}

/// Checks one block of the layout and moves `prev_block_end` to its end.
pub fn check_block_layout(
    block_name: &'static str,
    block_alignment: usize,
    block_offset: u32,
    block_size: u32,
    prev_block_end: &mut u32,
    whole_block_end: u32,
) -> (r: Result<(), ReadDevicetreeError>)
    ensures
        match spec_check_block_layout(
            block_name,
            block_alignment,
            block_offset,
            block_size,
            *old(prev_block_end),
            whole_block_end,
        ) {
            Ok(end) => r is Ok && *final(prev_block_end) == end,
            Err(e) => r matches Err(err) && err.spec_kind() == e && *final(prev_block_end)
                == *old(prev_block_end),
        },
{
    if !((block_offset as usize).is_multiple_of(block_alignment) && (
    block_size as usize).is_multiple_of(block_alignment)) {
        return Err(
            ReadDevicetreeError::new(
                ReadDevicetreeErrorKind::UnalignedBlock {
                    block_name,
                    block_alignment,
                    block_offset,
                    block_size,
                },
            ),
        );
    }
    let end = block_offset.checked_add(block_size);
    let in_bounds = match end {
        Some(e) => *prev_block_end <= block_offset && e <= whole_block_end,
        None => false,
    };
    if !in_bounds {
        return Err(
            ReadDevicetreeError::new(
                ReadDevicetreeErrorKind::BlockOutOfBounds {
                    block_name,
                    block_offset,
                    block_size,
                    valid_range: *prev_block_end..whole_block_end,
                },
            ),
        );
    }
    *prev_block_end = block_offset + block_size;
    Ok(())
}

impl Header {
    /// Creates a header from its fields.
    pub fn new(
        magic: u32,
        total_size: u32,
        off_dt_struct: u32,
        off_dt_strings: u32,
        off_mem_rsvmap: u32,
        version: u32,
        last_compatible_version: u32,
        boot_cpuid_phys: u32,
        size_dt_strings: u32,
        size_dt_struct: u32,
    ) -> (r: Header)
        ensures
            r == (Header {
                magic,
                total_size,
                off_dt_struct,
                off_dt_strings,
                off_mem_rsvmap,
                version,
                last_compatible_version,
                boot_cpuid_phys,
                size_dt_strings,
                size_dt_struct,
            }),
    {
        Header {
            magic,
            total_size,
            off_dt_struct,
            off_dt_strings,
            off_mem_rsvmap,
            version,
            last_compatible_version,
            boot_cpuid_phys,
            size_dt_strings,
            size_dt_struct,
        }
    }

    /// Decodes the header from the first 40 bytes of `bytes`.
    pub fn parse(bytes: &[u8]) -> (r: Header)
        requires
            bytes@.len() >= HEADER_SIZE,
        ensures
            r == spec_parse_header(bytes@),
    {
        Header {
            magic: be_u32_at(bytes, 0),
            total_size: be_u32_at(bytes, 4),
            off_dt_struct: be_u32_at(bytes, 8),
            off_dt_strings: be_u32_at(bytes, 12),
            off_mem_rsvmap: be_u32_at(bytes, 16),
            version: be_u32_at(bytes, 20),
            last_compatible_version: be_u32_at(bytes, 24),
            boot_cpuid_phys: be_u32_at(bytes, 28),
            size_dt_strings: be_u32_at(bytes, 32),
            size_dt_struct: be_u32_at(bytes, 36),
        }
    }

    /// The 40 bytes that encode the header.
    pub fn to_bytes(&self) -> (r: Vec<u8>)
        ensures
            r@ == spec_header_bytes(*self),
    {
        let mut v = u32_to_be_bytes(self.magic);
        v.append(&mut u32_to_be_bytes(self.total_size));
        v.append(&mut u32_to_be_bytes(self.off_dt_struct));
        v.append(&mut u32_to_be_bytes(self.off_dt_strings));
        v.append(&mut u32_to_be_bytes(self.off_mem_rsvmap));
        v.append(&mut u32_to_be_bytes(self.version));
        v.append(&mut u32_to_be_bytes(self.last_compatible_version));
        v.append(&mut u32_to_be_bytes(self.boot_cpuid_phys));
        v.append(&mut u32_to_be_bytes(self.size_dt_strings));
        v.append(&mut u32_to_be_bytes(self.size_dt_struct));
        v
    }

    /// The magic number.
    pub fn magic(&self) -> (r: u32)
        ensures
            r == self.magic,
    {
        self.magic
    }

    /// The total size of the blob in bytes.
    pub fn total_size(&self) -> (r: usize)
        ensures
            r == self.total_size,
    {
        self.total_size as usize
    }

    /// The version of the blob format.
    pub fn version(&self) -> (r: u32)
        ensures
            r == self.version,
    {
        self.version
    }

    /// The lowest version of the format that can read the blob.
    pub fn last_compatible_version(&self) -> (r: u32)
        ensures
            r == self.last_compatible_version,
    {
        self.last_compatible_version
    }

    /// The physical ID of the boot CPU.
    pub fn boot_cpuid_phys(&self) -> (r: u32)
        ensures
            r == self.boot_cpuid_phys,
    {
        self.boot_cpuid_phys
    }

    /// The offset of the memory reservation block.
    pub fn memory_reservation_block_offset(&self) -> (r: usize)
        ensures
            r == self.off_mem_rsvmap,
    {
        self.off_mem_rsvmap as usize
    }

    /// How many entries fit between the start of the memory reservation
    /// block and the start of the structure block.
    pub fn memory_reservation_block_max_len(&self) -> (r: usize)
        requires
            self.off_mem_rsvmap <= self.off_dt_struct,
        ensures
            r == (self.off_dt_struct - self.off_mem_rsvmap) / (RESERVE_ENTRY_SIZE as int),
    {
        (self.struct_block_offset() - self.memory_reservation_block_offset()) / RESERVE_ENTRY_SIZE
    }

    /// The offset of the structure block.
    pub fn struct_block_offset(&self) -> (r: usize)
        ensures
            r == self.off_dt_struct,
    {
        self.off_dt_struct as usize
    }

    /// The size of the structure block.
    pub fn struct_block_size(&self) -> (r: usize)
        ensures
            r == self.size_dt_struct,
    {
        self.size_dt_struct as usize
    }

    /// The offset of the strings block.
    pub fn strings_block_offset(&self) -> (r: usize)
        ensures
            r == self.off_dt_strings,
    {
        self.off_dt_strings as usize
    }

    /// The size of the strings block.
    pub fn strings_block_size(&self) -> (r: usize)
        ensures
            r == self.size_dt_strings,
    {
        self.size_dt_strings as usize
    }

    /// Reads and validates the header at the start of `bytes`.
    pub fn from_bytes(bytes: &[u8]) -> (r: Result<Header, ReadDevicetreeError>)
        ensures
            bytes@.len() < HEADER_SIZE ==> (r matches Err(e) && e.spec_kind() == (
            ReadDevicetreeErrorKind::InsufficientBytes {
                needed: HEADER_SIZE,
                actual: bytes@.len() as usize,
            })),
            exists|address: usize|
                match #[trigger] spec_header_from_bytes(bytes@, address as int) {
                    Ok(h) => r == Ok::<Header, ReadDevicetreeError>(h),
                    Err(e) => r matches Err(err) && err.spec_kind() == e,
                },
    {
        let address = slice_address(bytes);
        let r = Self::from_bytes_at(bytes, address);
        assert(match spec_header_from_bytes(bytes@, address as int) {
            Ok(h) => r == Ok::<Header, ReadDevicetreeError>(h),
            Err(e) => r matches Err(err) && err.spec_kind() == e,
        });
        r
    }

    /// Reads and validates the header at the start of `bytes`, the bytes of a
    /// blob that starts at `address`.
    pub fn from_bytes_at(bytes: &[u8], address: usize) -> (r: Result<Header, ReadDevicetreeError>)
        ensures
            match spec_header_from_bytes(bytes@, address as int) {
                Ok(h) => r == Ok::<Header, ReadDevicetreeError>(h),
                Err(e) => r matches Err(err) && err.spec_kind() == e,
            },
    {
        if bytes.len() < HEADER_SIZE {
            return Err(
                ReadDevicetreeError::new(
                    ReadDevicetreeErrorKind::InsufficientBytes {
                        needed: HEADER_SIZE,
                        actual: bytes.len(),
                    },
                ),
            );
        }
        if address % HEADER_ALIGNMENT != 0 {
            return Err(
                ReadDevicetreeError::new(
                    ReadDevicetreeErrorKind::UnalignedPointer {
                        address,
                        expected_alignment: HEADER_ALIGNMENT,
                    },
                ),
            );
        }
        let header = Self::parse(bytes);
        header.validate(address)?;
        Ok(header)
    }

    /// Reads and validates the header of a blob in memory at `address`, whose
    /// first bytes are `bytes`: the address must be aligned and not null.
    pub fn from_memory(address: usize, bytes: &[u8]) -> (r: Result<Header, ReadDevicetreeError>)
        requires
            address % HEADER_ALIGNMENT == 0 && address != 0 ==> bytes@.len() >= HEADER_SIZE,
        ensures
            address % HEADER_ALIGNMENT != 0 ==> (r matches Err(e) && e.spec_kind() == (
            ReadDevicetreeErrorKind::UnalignedPointer {
                address,
                expected_alignment: HEADER_ALIGNMENT,
            })),
            address % HEADER_ALIGNMENT == 0 && address == 0 ==> (r matches Err(e)
                && e.spec_kind() == ReadDevicetreeErrorKind::NullPointer),
            address % HEADER_ALIGNMENT == 0 && address != 0 ==> match spec_validate(
                spec_parse_header(bytes@),
                address as int,
            ) {
                Ok(()) => r == Ok::<Header, ReadDevicetreeError>(spec_parse_header(bytes@)),
                Err(e) => r matches Err(err) && err.spec_kind() == e,
            },
    {
        if address % HEADER_ALIGNMENT != 0 {
            return Err(
                ReadDevicetreeError::new(
                    ReadDevicetreeErrorKind::UnalignedPointer {
                        address,
                        expected_alignment: HEADER_ALIGNMENT,
                    },
                ),
            );
        }
        if address == 0 {
            return Err(ReadDevicetreeError::new(ReadDevicetreeErrorKind::NullPointer));
        }
        let header = Self::parse(bytes);
        header.validate(address)?;
        Ok(header)
    }

    /// Validates the header of a blob that starts at `address`: the magic
    /// number, the total size, the version and the layout of the three
    /// blocks, in that order.
    pub fn validate(&self, address: usize) -> (r: Result<(), ReadDevicetreeError>)
        ensures
            match spec_validate(*self, address as int) {
                Ok(()) => r is Ok,
                Err(e) => r matches Err(err) && err.spec_kind() == e,
            },
    {
        let magic = self.magic;
        if magic != MAGIC {
            return Err(ReadDevicetreeError::new(ReadDevicetreeErrorKind::InvalidMagic { magic }));
        }
        let total_size = self.total_size as usize;
        if !(total_size >= HEADER_SIZE && address.checked_add(total_size).is_some()) {
            return Err(
                ReadDevicetreeError::new(ReadDevicetreeErrorKind::InvalidTotalSize { total_size }),
            );
        }
        let version = self.version;
        let last_compatible_version = self.last_compatible_version;
        if last_compatible_version != LAST_COMPATIBLE_VERSION {
            return Err(
                ReadDevicetreeError::new(
                    ReadDevicetreeErrorKind::IncompatibleVersion { version, last_compatible_version },
                ),
            );
        }
        let total_size = self.total_size;
        let mut prev_block_end: u32 = HEADER_SIZE as u32;
        check_block_layout(
            "memory reservation block",
            MEM_RSVMAP_ALIGNMENT,
            self.off_mem_rsvmap,
            RESERVE_ENTRY_SIZE as u32,
            &mut prev_block_end,
            total_size,
        )?;
        check_block_layout(
            "structure block",
            STRUCTURE_ALIGNMENT,
            self.off_dt_struct,
            self.size_dt_struct,
            &mut prev_block_end,
            total_size,
        )?;
        check_block_layout(
            "strings block",
            STRINGS_ALIGNMENT,
            self.off_dt_strings,
            self.size_dt_strings,
            &mut prev_block_end,
            total_size,
        )?;
        Ok(())
    }
}

} // verus!

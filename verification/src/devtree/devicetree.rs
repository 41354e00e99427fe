//! A devicetree blob whose header and memory reservation block were checked.
use vstd::prelude::*;

use super::error::{ReadDevicetreeError, ReadDevicetreeErrorKind};
use super::header::{HEADER_SIZE, RESERVE_ENTRY_SIZE, Header};
use super::reserved_memory::ReserveEntry;
use super::util::{copy_bytes, slice_address};

verus! {

use super::header::{spec_parse_header, spec_header_from_bytes, header_layout_ok, lemma_validated_layout};
use super::reserved_memory::spec_read_entry;

/// The alignment at which a blob must start.
pub const DEVICETREE_ALIGNMENT: usize = 8;

/// The entry `k` of the memory reservation block of blob `s`.
pub open spec fn rsv_entry(s: Seq<u8>, k: int) -> ReserveEntry {
    spec_read_entry(s, spec_parse_header(s).off_mem_rsvmap + RESERVE_ENTRY_SIZE * k)
}

/// How many entries fit in the memory reservation block of blob `s`.
pub open spec fn rsv_max_len(s: Seq<u8>) -> int {
    let h = spec_parse_header(s);
    (h.off_dt_struct - h.off_mem_rsvmap) / (RESERVE_ENTRY_SIZE as int)
}

/// Some entry of the memory reservation block of `s` is the terminator.
pub open spec fn rsvmap_terminated(s: Seq<u8>) -> bool {
    exists|k: int| 0 <= k < rsv_max_len(s) && (#[trigger] rsv_entry(s, k)).spec_is_terminator()
}

/// The bytes of a readable blob: a header whose blocks lie in order, at
/// least `total_size` bytes, and a terminated memory reservation block.
pub open spec fn blob_wf(s: Seq<u8>) -> bool {
    &&& s.len() >= HEADER_SIZE
    &&& header_layout_ok(spec_parse_header(s))
    &&& s.len() >= spec_parse_header(s).total_size
    &&& rsvmap_terminated(s)
}

/// Reading a devicetree from `s`, the bytes of a blob that starts at
/// `address`: the header must be read as [`spec_header_from_bytes`] says, the
/// bytes must hold the whole blob, and the memory reservation block must be
/// terminated.
pub open spec fn spec_devicetree_from_bytes(s: Seq<u8>, address: int) -> Result<(), ReadDevicetreeErrorKind> {
    match spec_header_from_bytes(s, address) {
        Err(e) => Err(e),
        Ok(h) => if s.len() < h.total_size {
            Err(
                ReadDevicetreeErrorKind::InsufficientBytes {
                    needed: h.total_size as usize,
                    actual: s.len() as usize,
                },
            )
        } else if !rsvmap_terminated(s) {
            Err(ReadDevicetreeErrorKind::UnterminatedMemRsvmap)
        } else {
            Ok(())
        },
    }
}

/// A devicetree blob: its header is valid, it holds `total_size` bytes at
/// least, and its memory reservation block is terminated.
#[derive(Clone, Copy, Debug)]
pub struct Devicetree<'a> {
    blob: &'a [u8],
}

impl<'a> Devicetree<'a> {
    #[verifier::type_invariant]
    spec fn inv(&self) -> bool {
        blob_wf(self.blob@)
    }

    /// The bytes of the blob.
    pub closed spec fn spec_bytes(&self) -> Seq<u8> {
        self.blob@
    }

    /// Reads a devicetree from `bytes`: checks the header (see
    /// [`Header::from_bytes`]), that `bytes` hold the whole blob, and that
    /// the memory reservation block is terminated.
    pub fn from_bytes(bytes: &'a [u8]) -> (r: Result<Devicetree<'a>, ReadDevicetreeError>)
        ensures
            exists|address: usize|
                match #[trigger] spec_devicetree_from_bytes(bytes@, address as int) {
                    Ok(()) => r matches Ok(dt) && dt.spec_bytes() == bytes@,
                    Err(e) => r matches Err(err) && err.spec_kind() == e,
                },
    {
        let address = slice_address(bytes);
        let r = Self::from_bytes_at(bytes, address);
        assert(match spec_devicetree_from_bytes(bytes@, address as int) {
            Ok(()) => r matches Ok(dt) && dt.spec_bytes() == bytes@,
            Err(e) => r matches Err(err) && err.spec_kind() == e,
        });
        r
    }

    /// Reads a devicetree from `bytes`, the bytes of a blob that starts at
    /// `address`.
    pub fn from_bytes_at(bytes: &'a [u8], address: usize) -> (r: Result<Devicetree<'a>, ReadDevicetreeError>)
        ensures
            match spec_devicetree_from_bytes(bytes@, address as int) {
                Ok(()) => r matches Ok(dt) && dt.spec_bytes() == bytes@,
                Err(e) => r matches Err(err) && err.spec_kind() == e,
            },
    {
        let header = Header::from_bytes_at(bytes, address)?;
        proof {
            lemma_validated_layout(header, address as int);
        }
        let total_size = header.total_size();
        if bytes.len() < total_size {
            return Err(
                ReadDevicetreeError::new(
                    ReadDevicetreeErrorKind::InsufficientBytes {
                        needed: total_size,
                        actual: bytes.len(),
                    },
                ),
            );
        }
        Self::from_bytes_internal(bytes, &header)
    }

    /// Checks that the memory reservation block of a blob with a validated
    /// header is terminated.
    fn from_bytes_internal(bytes: &'a [u8], header: &Header) -> (r: Result<Devicetree<'a>, ReadDevicetreeError>)
        requires
            bytes@.len() >= HEADER_SIZE,
            *header == spec_parse_header(bytes@),
            header_layout_ok(*header),
            bytes@.len() >= header.total_size,
        ensures
            rsvmap_terminated(bytes@) ==> (r matches Ok(dt) && dt.spec_bytes() == bytes@),
            !rsvmap_terminated(bytes@) ==> (r matches Err(err) && err.spec_kind()
                == ReadDevicetreeErrorKind::UnterminatedMemRsvmap),
    {
        let offset = header.memory_reservation_block_offset();
        let max_len = header.memory_reservation_block_max_len();
        let mut k: usize = 0;
        while k < max_len
            invariant
                bytes@.len() >= HEADER_SIZE,
                *header == spec_parse_header(bytes@),
                header_layout_ok(*header),
                bytes@.len() >= header.total_size,
                offset == header.off_mem_rsvmap,
                max_len == rsv_max_len(bytes@),
                k <= max_len,
                forall|j: int| 0 <= j < k ==> !(#[trigger] rsv_entry(bytes@, j)).spec_is_terminator(),
            decreases max_len - k,
        {
            let ghost h = *header;
            assert(offset + RESERVE_ENTRY_SIZE * k + 16 <= bytes@.len()) by (nonlinear_arith)
                requires
                    k < max_len,
                    max_len == (h.off_dt_struct - h.off_mem_rsvmap) / 16,
                    offset == h.off_mem_rsvmap,
                    h.off_mem_rsvmap <= h.off_dt_struct,
                    h.off_dt_struct <= bytes@.len(),
                    RESERVE_ENTRY_SIZE == 16,
            ;
            let entry = ReserveEntry::read(bytes, offset + RESERVE_ENTRY_SIZE * k);
            if entry.is_terminator() {
                assert(rsv_entry(bytes@, k as int) == entry);
                assert(rsv_entry(bytes@, k as int).spec_is_terminator());
                assert(rsvmap_terminated(bytes@));
                let dt = Devicetree { blob: bytes };
                return Ok(dt);
            }
            k = k + 1;
        }
        Err(ReadDevicetreeError::new(ReadDevicetreeErrorKind::UnterminatedMemRsvmap))
    }

    /// The bytes of the blob.
    pub fn as_bytes(&self) -> (r: &'a [u8])
        ensures
            r@ == self.spec_bytes(),
    {
        self.blob
    }

    /// The header of the blob.
    pub fn header(&self) -> (r: Header)
        ensures
            r == spec_parse_header(self.spec_bytes()),
            header_layout_ok(r),
            blob_wf(self.spec_bytes()),
    {
        proof {
            use_type_invariant(self);
        }
        Header::parse(self.blob)
    }

    /// The entries of the memory reservation block before its terminator.
    pub fn memory_reservation_map(&self) -> (r: Vec<ReserveEntry>)
        ensures
            r@.len() < rsv_max_len(self.spec_bytes()),
            forall|k: int| 0 <= k < r@.len() ==> r@[k] == rsv_entry(self.spec_bytes(), k)
                && !r@[k].spec_is_terminator(),
            rsv_entry(self.spec_bytes(), r@.len() as int).spec_is_terminator(),
    {
        proof {
            use_type_invariant(self);
        }
        let header = self.header();
        let offset = header.memory_reservation_block_offset();
        let max_len = header.memory_reservation_block_max_len();
        let bytes = self.blob;
        let mut entries: Vec<ReserveEntry> = Vec::new();
        let mut k: usize = 0;
        while k < max_len
            invariant
                bytes@ == self.spec_bytes(),
                blob_wf(bytes@),
                header == spec_parse_header(bytes@),
                offset == header.off_mem_rsvmap,
                max_len == rsv_max_len(bytes@),
                k <= max_len,
                entries@.len() == k,
                forall|j: int| 0 <= j < k ==> entries@[j] == rsv_entry(bytes@, j)
                    && !(#[trigger] rsv_entry(bytes@, j)).spec_is_terminator(),
            decreases max_len - k,
        {
            let ghost h = header;
            assert(offset + RESERVE_ENTRY_SIZE * k + 16 <= bytes@.len()) by (nonlinear_arith)
                requires
                    k < max_len,
                    max_len == (h.off_dt_struct - h.off_mem_rsvmap) / 16,
                    offset == h.off_mem_rsvmap,
                    h.off_mem_rsvmap <= h.off_dt_struct,
                    h.off_dt_struct <= bytes@.len(),
                    RESERVE_ENTRY_SIZE == 16,
            ;
            let entry = ReserveEntry::read(bytes, offset + RESERVE_ENTRY_SIZE * k);
            assert(rsv_entry(bytes@, k as int) == entry);
            if entry.is_terminator() {
                return entries;
            }
            entries.push(entry);
            k = k + 1;
        }
        proof {
            let j = choose|j: int| 0 <= j < rsv_max_len(bytes@) && (#[trigger] rsv_entry(bytes@, j)).spec_is_terminator();
            assert(!rsv_entry(bytes@, j).spec_is_terminator());
        }
        entries
    }

    /// The structure block.
    pub fn struct_block(&self) -> (r: &'a [u8])
        ensures
            r@ == self.spec_bytes().subrange(
                spec_parse_header(self.spec_bytes()).off_dt_struct as int,
                spec_parse_header(self.spec_bytes()).off_dt_struct + spec_parse_header(
                    self.spec_bytes(),
                ).size_dt_struct,
            ),
    {
        proof {
            use_type_invariant(self);
        }
        let header = self.header();
        let start = header.struct_block_offset();
        let size = header.struct_block_size();
        &self.blob[start..start + size]
    }

    /// The strings block.
    pub fn strings_block(&self) -> (r: &'a [u8])
        ensures
            r@ == self.spec_bytes().subrange(
                spec_parse_header(self.spec_bytes()).off_dt_strings as int,
                spec_parse_header(self.spec_bytes()).off_dt_strings + spec_parse_header(
                    self.spec_bytes(),
                ).size_dt_strings,
            ),
    {
        proof {
            use_type_invariant(self);
        }
        let header = self.header();
        let start = header.strings_block_offset();
        let size = header.strings_block_size();
        &self.blob[start..start + size]
    }

    /// A copy of the blob that owns its bytes.
    pub fn to_owned(&self) -> (r: OwnedDevicetree)
        ensures
            r.spec_bytes() == self.spec_bytes(),
    {
        proof {
            use_type_invariant(self);
        }
        let buffer = copy_bytes(self.blob);
        OwnedDevicetree { buffer }
    }
}

/// A devicetree blob that owns its bytes.
pub struct OwnedDevicetree {
    buffer: Vec<u8>,
}

impl OwnedDevicetree {
    #[verifier::type_invariant]
    spec fn inv(&self) -> bool {
        blob_wf(self.buffer@)
    }

    /// The bytes of the blob.
    pub closed spec fn spec_bytes(&self) -> Seq<u8> {
        self.buffer@
    }

    /// The blob as a [`Devicetree`].
    pub fn as_devicetree(&self) -> (r: Devicetree<'_>)
        ensures
            r.spec_bytes() == self.spec_bytes(),
    {
        proof {
            use_type_invariant(self);
        }
        Devicetree { blob: self.buffer.as_slice() }
    }

    /// The bytes of the blob.
    pub fn as_bytes(&self) -> (r: &[u8])
        ensures
            r@ == self.spec_bytes(),
    {
        self.buffer.as_slice()
    }
}

impl Clone for OwnedDevicetree {
    /// A deep copy of the blob.
    fn clone(&self) -> (r: Self)
        ensures
            r.spec_bytes() == self.spec_bytes(),
    {
        proof {
            use_type_invariant(self);
        }
        let buffer = copy_bytes(self.buffer.as_slice());
        OwnedDevicetree { buffer }
    }
}

impl<'a> AsRef<[u8]> for Devicetree<'a> {
    /// The bytes of the blob.
    fn as_ref(&self) -> (r: &[u8])
        ensures
            r@ == self.spec_bytes(),
    {
        self.as_bytes()
    }
}

impl AsRef<[u8]> for OwnedDevicetree {
    /// The bytes of the blob.
    fn as_ref(&self) -> (r: &[u8])
        ensures
            r@ == self.spec_bytes(),
    {
        self.as_bytes()
    }
}

} // verus!

//! A checked blob: its header and its blocks.
use vstd::prelude::*;

use super::layout::{Header, HeaderValidationError, ReserveEntry, HEADER_SIZE, RESERVE_ENTRY_SIZE};
use super::node::{Node, ParseStructError};
use super::struct_lexer::StructLexer;

verus! {

use super::layout::{spec_header_of, spec_reserve_entry_at, HEADER_ALIGNMENT};
use super::node::{node_result_is, spec_node_at};
use super::text::{alt_hex_text, push_alt_hex};

/// Why a blob could not be taken.
#[derive(Debug, Clone, Copy, PartialEq, Eq, Structural)]
pub enum CreateError {
    /// The blob does not start at an 8-aligned address.
    InvalidAddressAlignment { addr: usize },
    /// The blob's header is not valid.
    InvalidHeader { source: HeaderValidationError },
}

impl CreateError {
    /// The text that describes the error.
    pub open spec fn spec_message(&self) -> Seq<char> {
        match *self {
            CreateError::InvalidAddressAlignment { addr } => "invalid aligned address: "@
                + alt_hex_text(addr as nat),
            CreateError::InvalidHeader { .. } => "invalid device tree header"@,
        }
    }

    /// The text that describes the error.
    pub fn message(&self) -> (r: String)
        ensures
            r@ == self.spec_message(),
    {
        let mut s = String::new();
        match *self {
            CreateError::InvalidAddressAlignment { addr } => {
                s.append("invalid aligned address: ");
                push_alt_hex(&mut s, addr as u64);
            },
            CreateError::InvalidHeader { .. } => {
                s.append("invalid device tree header");
            },
        }
        s
    }
}

/// The entry `i` of the memory reservation block of blob `b` with header
/// `h`.
pub open spec fn spec_rsv_entry(b: Seq<u8>, h: Header, i: int) -> ReserveEntry {
    spec_reserve_entry_at(b, h.off_mem_rsvmap + RESERVE_ENTRY_SIZE * i)
}

/// The number of entries that fit between the start of the memory
/// reservation block and the structure block.
pub open spec fn spec_rsv_capacity(h: Header) -> int {
    (h.off_dt_struct - h.off_mem_rsvmap) / (RESERVE_ENTRY_SIZE as int)
}

/// `n` is the number of entries of the memory reservation block before its
/// terminator, or all entries that fit when there is none.
pub open spec fn spec_rsv_len(b: Seq<u8>, h: Header, n: int) -> bool {
    &&& 0 <= n <= spec_rsv_capacity(h)
    &&& forall|i: int| 0 <= i < n ==> !(#[trigger] spec_rsv_entry(b, h, i)).spec_is_terminator()
    &&& n < spec_rsv_capacity(h) ==> spec_rsv_entry(b, h, n).spec_is_terminator()
}

impl ReserveEntry {
    /// Address and size are both zero.
    pub open spec fn spec_is_terminator(&self) -> bool {
        self.address == 0 && self.size == 0
    }
}

/// `b` is a whole blob whose header is valid.
pub open spec fn spec_blob_wf(b: Seq<u8>) -> bool {
    &&& b.len() >= HEADER_SIZE
    &&& spec_header_of(b).spec_validate() is Ok
    &&& b.len() == spec_header_of(b).totalsize
}

/// A blob whose header has been checked, with its blocks.
#[derive(Debug, Clone, Copy)]
pub struct Devicetree<'fdt> {
    header: Header,
    blob: &'fdt [u8],
    struct_block: &'fdt [u8],
    string_block: &'fdt [u8],
    rsv_len: usize,
}

impl<'fdt> Devicetree<'fdt> {
    #[verifier::type_invariant]
    spec fn inv(&self) -> bool {
        let b = self.blob@;
        let h = self.header;
        &&& spec_blob_wf(b)
        &&& h == spec_header_of(b)
        &&& self.struct_block@ == b.subrange(
            h.off_dt_struct as int,
            h.off_dt_struct + h.size_dt_struct,
        )
        &&& self.string_block@ == b.subrange(
            h.off_dt_strings as int,
            h.off_dt_strings + h.size_dt_strings,
        )
        &&& spec_rsv_len(b, h, self.rsv_len as int)
    }

    /// The bytes of the blob.
    pub closed spec fn spec_blob(&self) -> Seq<u8> {
        self.blob@
    }

    /// The header of the blob.
    pub closed spec fn spec_header(&self) -> Header {
        self.header
    }

    /// The structure block.
    pub closed spec fn spec_struct_block(&self) -> Seq<u8> {
        self.struct_block@
    }

    /// The strings block.
    pub closed spec fn spec_string_block(&self) -> Seq<u8> {
        self.string_block@
    }

    /// The entries of the memory reservation block before its terminator.
    pub closed spec fn spec_mem_rsvmap(&self) -> Seq<ReserveEntry> {
        Seq::new(self.rsv_len as nat, |i: int| spec_rsv_entry(self.blob@, self.header, i))
    }

    /// The size of the blob that starts with the header in `header_bytes`,
    /// at `addr`: the checks of [`Devicetree::from_addr`] on the header
    /// alone, so that a caller knows how many bytes to hand it.
    pub fn blob_len(addr: usize, header_bytes: &[u8]) -> (r: Result<usize, CreateError>)
        requires
            header_bytes@.len() >= HEADER_SIZE,
        ensures
            addr % HEADER_ALIGNMENT != 0 ==> r == Err::<usize, CreateError>(
                CreateError::InvalidAddressAlignment { addr },
            ),
            addr % HEADER_ALIGNMENT == 0 ==> match spec_header_of(header_bytes@).spec_validate() {
                Ok(_) => r == Ok::<usize, CreateError>(
                    spec_header_of(header_bytes@).totalsize as usize,
                ),
                Err(e) => r == Err::<usize, CreateError>(CreateError::InvalidHeader { source: e }),
            },
    {
        if !Header::is_valid_header_addr(addr) {
            return Err(CreateError::InvalidAddressAlignment { addr });
        }
        let header = Header::from_bytes(header_bytes);
        match header.validate() {
            Ok(()) => Ok(header.totalsize as usize),
            Err(e) => Err(CreateError::InvalidHeader { source: e }),
        }
    }

    /// The blob at `addr`, whose bytes start `memory`: the address must be
    /// 8-aligned and the header valid; the blob is then the first
    /// `totalsize` bytes.
    pub fn from_addr(addr: usize, memory: &'fdt [u8]) -> (r: Result<Self, CreateError>)
        requires
            memory@.len() >= HEADER_SIZE,
            spec_header_of(memory@).spec_validate() is Ok ==> spec_header_of(memory@).totalsize
                <= memory@.len(),
        ensures
            addr % HEADER_ALIGNMENT != 0 ==> r == Err::<Self, CreateError>(
                CreateError::InvalidAddressAlignment { addr },
            ),
            addr % HEADER_ALIGNMENT == 0 ==> match spec_header_of(memory@).spec_validate() {
                Ok(_) => r matches Ok(dt) && dt.spec_blob() == memory@.subrange(
                    0,
                    spec_header_of(memory@).totalsize as int,
                ) && dt.spec_header() == spec_header_of(memory@),
                Err(e) => r == Err::<Self, CreateError>(CreateError::InvalidHeader { source: e }),
            },
    {
        if !Header::is_valid_header_addr(addr) {
            return Err(CreateError::InvalidAddressAlignment { addr });
        }
        let header = Header::from_bytes(memory);
        match header.validate() {
            Ok(()) => {},
            Err(e) => {
                return Err(CreateError::InvalidHeader { source: e });
            },
        }
        let totalsize = header.totalsize as usize;
        let blob = &memory[0..totalsize];
        assert(spec_header_of(blob@) == header) by {
            assert forall|k: int| 0 <= k < HEADER_SIZE implies blob@[k] == memory@[k] by {}
        }
        let struct_start = header.off_dt_struct as usize;
        let struct_len = header.size_dt_struct as usize;
        let struct_block = &blob[struct_start..struct_start + struct_len];
        let string_start = header.off_dt_strings as usize;
        let string_len = header.size_dt_strings as usize;
        let string_block = &blob[string_start..string_start + string_len];
        let rsv_start = header.off_mem_rsvmap as usize;
        let rsv_end = header.off_dt_struct as usize;
        let capacity = (rsv_end - rsv_start) / RESERVE_ENTRY_SIZE;
        let mut n: usize = 0;
        while n < capacity
            invariant
                spec_blob_wf(blob@),
                header == spec_header_of(blob@),
                rsv_start == header.off_mem_rsvmap,
                rsv_end == header.off_dt_struct,
                capacity == spec_rsv_capacity(header),
                n <= capacity,
                forall|i: int| 0 <= i < n ==> !(#[trigger] spec_rsv_entry(blob@, header, i)).spec_is_terminator(),
            ensures
                n <= capacity,
                forall|i: int| 0 <= i < n ==> !(#[trigger] spec_rsv_entry(blob@, header, i)).spec_is_terminator(),
                n < capacity ==> spec_rsv_entry(blob@, header, n as int).spec_is_terminator(),
            decreases capacity - n,
        {
            proof {
                assert(rsv_start + RESERVE_ENTRY_SIZE * n + RESERVE_ENTRY_SIZE <= rsv_end) by (nonlinear_arith)
                    requires
                        n < capacity,
                        capacity == (rsv_end - rsv_start) / 16,
                        rsv_start <= rsv_end,
                        RESERVE_ENTRY_SIZE == 16,
                ;
            }
            let entry = ReserveEntry::from_bytes(blob, rsv_start + RESERVE_ENTRY_SIZE * n);
            if entry.is_terminator() {
                break;
            }
            n = n + 1;
        }
        let dt = Devicetree { header, blob, struct_block, string_block, rsv_len: n };
        Ok(dt)
    }

    /// The bytes of the blob.
    pub fn as_bytes(&self) -> (r: &'fdt [u8])
        ensures
            r@ == self.spec_blob(),
            spec_blob_wf(r@),
            spec_header_of(r@) == self.spec_header(),
    {
        proof {
            use_type_invariant(self);
        }
        self.blob
    }

    /// The header of the blob.
    pub fn header(&self) -> (r: Header)
        ensures
            r == self.spec_header(),
            r.spec_validate() is Ok,
    {
        proof {
            use_type_invariant(self);
        }
        self.header
    }

    /// The size of the blob in bytes.
    pub fn size(&self) -> (r: usize)
        ensures
            r == self.spec_header().totalsize,
            r == self.spec_blob().len(),
    {
        proof {
            use_type_invariant(self);
        }
        self.header.totalsize as usize
    }

    /// The structure block.
    pub(crate) fn struct_block(&self) -> (r: &'fdt [u8])
        ensures
            r@ == self.spec_struct_block(),
            r@.len() <= u32::MAX,
            r@ == self.spec_blob().subrange(
                self.spec_header().off_dt_struct as int,
                self.spec_header().off_dt_struct + self.spec_header().size_dt_struct,
            ),
    {
        proof {
            use_type_invariant(self);
        }
        self.struct_block
    }

    /// The strings block.
    pub(crate) fn string_block(&self) -> (r: &'fdt [u8])
        ensures
            r@ == self.spec_string_block(),
            r@.len() <= u32::MAX,
            r@ == self.spec_blob().subrange(
                self.spec_header().off_dt_strings as int,
                self.spec_header().off_dt_strings + self.spec_header().size_dt_strings,
            ),
    {
        proof {
            use_type_invariant(self);
        }
        self.string_block
    }

    /// The entries of the memory reservation block before its terminator.
    pub fn mem_rsvmap(&self) -> (r: Vec<ReserveEntry>)
        ensures
            r@ == self.spec_mem_rsvmap(),
            forall|i: int| 0 <= i < r@.len() ==> !(#[trigger] r@[i]).spec_is_terminator(),
            forall|i: int|
                0 <= i < r@.len() ==> #[trigger] r@[i] == spec_rsv_entry(
                    self.spec_blob(),
                    self.spec_header(),
                    i,
                ),
            spec_rsv_len(self.spec_blob(), self.spec_header(), r@.len() as int),
    {
        proof {
            use_type_invariant(self);
        }
        let h = self.header;
        let start = h.off_mem_rsvmap as usize;
        let mut v: Vec<ReserveEntry> = Vec::new();
        let mut i: usize = 0;
        while i < self.rsv_len
            invariant
                spec_blob_wf(self.blob@),
                h == spec_header_of(self.blob@),
                h == self.header,
                start == h.off_mem_rsvmap,
                spec_rsv_len(self.blob@, h, self.rsv_len as int),
                i <= self.rsv_len,
                v@ == Seq::new(i as nat, |k: int| spec_rsv_entry(self.blob@, h, k)),
            decreases self.rsv_len - i,
        {
            proof {
                let cap = spec_rsv_capacity(h);
                assert(start + RESERVE_ENTRY_SIZE * i + RESERVE_ENTRY_SIZE <= h.off_dt_struct) by (nonlinear_arith)
                    requires
                        i < self.rsv_len,
                        self.rsv_len <= cap,
                        cap == (h.off_dt_struct - start) / 16,
                        start <= h.off_dt_struct,
                        RESERVE_ENTRY_SIZE == 16,
                ;
            }
            let e = ReserveEntry::from_bytes(self.blob, start + RESERVE_ENTRY_SIZE * i);
            v.push(e);
            i = i + 1;
            assert(v@ =~= Seq::new(i as nat, |k: int| spec_rsv_entry(self.blob@, h, k)));
        }
        v
    }

    /// A lexer at the start of the structure block.
    pub fn struct_lexer<'tree>(&'tree self) -> (r: StructLexer<'fdt, 'tree>)
        ensures
            *r.spec_devicetree() == *self,
            r.spec_offset() == 0,
    {
        StructLexer::new(self)
    }

    /// The root node: the node whose BEGIN_NODE token starts the structure
    /// block.
    pub fn root_node<'tree>(&'tree self) -> (r: Result<Node<'fdt, 'tree>, ParseStructError>)
        ensures
            node_result_is(
                r,
                spec_node_at(self.spec_struct_block(), self.spec_string_block(), 0),
                *self,
            ),
    {
        Node::new(&self.struct_lexer())
    }
}

} // verus!

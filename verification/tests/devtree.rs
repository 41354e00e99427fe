use std::fmt;

use onixlib::devtree::bytes::LazyCStr;
use onixlib::devtree::cursor::{
    ReadBeginNodeTokenError, ReadPropTokenError, ReadTokenError, Token, TokenCursor,
};
use onixlib::devtree::debug::{DebugSlice, SliceDebug};
use onixlib::devtree::devicetree::Devicetree;
use onixlib::devtree::de::{DeserializeErrorKind, DeserializeNodeErrorKind, DeserializePropertyErrorKind};
use onixlib::devtree::error::ReadDevicetreeErrorKind;
use onixlib::devtree::interrupts::{InterruptGeneratingDevice, InterruptParent, PhandleTarget};
use onixlib::devtree::header::{Header, LAST_COMPATIBLE_VERSION, MAGIC};
use onixlib::devtree::item::Item;
use onixlib::devtree::node::Node;
use onixlib::devtree::property::Property;
use onixlib::devtree::reserved_memory::ReserveEntry;
use onixlib::devtree::struct_block::{PropertyHeader, TokenType};

// ---------------------------------------------------------------------------
// Building blobs for the tests: a header, then the memory reservation block,
// the structure block and the strings block, each at its alignment. The bytes
// are placed at an 8-aligned address, as a blob must be.

struct BlobBuilder {
    mem_rsvmap: Vec<ReserveEntry>,
    struct_block: Vec<u8>,
    strings_block: Vec<u8>,
}

struct Blob {
    storage: Vec<u8>,
    start: usize,
    len: usize,
}

impl Blob {
    fn bytes(&self) -> &[u8] {
        &self.storage[self.start..self.start + self.len]
    }
}

fn align_up(x: usize, a: usize) -> usize {
    (x + a - 1) / a * a
}

impl BlobBuilder {
    fn new() -> Self {
        BlobBuilder { mem_rsvmap: Vec::new(), struct_block: Vec::new(), strings_block: Vec::new() }
    }

    fn extend_mem_rsvmap_from_slice(mut self, entries: &[ReserveEntry]) -> Self {
        self.mem_rsvmap.extend_from_slice(entries);
        self
    }

    fn extend_struct_block_from_slice(mut self, bytes: &[u8]) -> Self {
        self.struct_block.extend_from_slice(bytes);
        self
    }

    fn extend_strings_block_from_slice(mut self, bytes: &[u8]) -> Self {
        self.strings_block.extend_from_slice(bytes);
        self
    }

    fn build(self) -> Blob {
        let off_mem_rsvmap = 40usize;
        let off_dt_struct = align_up(off_mem_rsvmap + 16 * self.mem_rsvmap.len(), 4);
        let off_dt_strings = off_dt_struct + self.struct_block.len();
        let total = off_dt_strings + self.strings_block.len();
        let header = Header::new(
            MAGIC,
            total as u32,
            off_dt_struct as u32,
            off_dt_strings as u32,
            off_mem_rsvmap as u32,
            17,
            LAST_COMPATIBLE_VERSION,
            0,
            self.strings_block.len() as u32,
            self.struct_block.len() as u32,
        );
        let mut blob = header.to_bytes();
        for e in &self.mem_rsvmap {
            blob.extend_from_slice(&e.as_bytes());
        }
        blob.resize(off_dt_struct, 0);
        blob.extend_from_slice(&self.struct_block);
        blob.extend_from_slice(&self.strings_block);
        let mut storage = vec![0u8; blob.len() + 8];
        let start = (8 - storage.as_ptr() as usize % 8) % 8;
        storage[start..start + blob.len()].copy_from_slice(&blob);
        Blob { storage, start, len: blob.len() }
    }
}

fn valid_header() -> Header {
    Header::new(MAGIC, 128, 64, 96, 40, 17, LAST_COMPATIBLE_VERSION, 0, 16, 16)
}

fn with(h: Header, f: impl FnOnce(&mut [u32; 10])) -> Header {
    let mut v = [
        h.magic(),
        h.total_size() as u32,
        h.struct_block_offset() as u32,
        h.strings_block_offset() as u32,
        h.memory_reservation_block_offset() as u32,
        h.version(),
        h.last_compatible_version(),
        h.boot_cpuid_phys(),
        h.strings_block_size() as u32,
        h.struct_block_size() as u32,
    ];
    f(&mut v);
    Header::new(v[0], v[1], v[2], v[3], v[4], v[5], v[6], v[7], v[8], v[9])
}

/// An 8-aligned address standing for where a header lies in memory.
const HEADER_ADDR: usize = 0x8000;

fn header_from(header: &Header, addr: usize) -> Result<Header, onixlib::devtree::error::ReadDevicetreeError> {
    Header::from_memory(addr, &header.to_bytes())
}

// ---------------------------------------------------------------------------
// Properties.

#[test]
fn test_property_new_and_accessors() {
    let name = b"test_name";
    let value = b"test_value";
    let prop = Property::new(name, value);
    assert_eq!(prop.name(), name);
    assert_eq!(prop.value(), value);
}

#[test]
fn test_property_name_with_null_separator() {
    let name = b"foo\0bar";
    let value = b"baz";
    let prop = Property::new(name, value);
    assert_eq!(prop.name(), b"foo");
    assert_eq!(prop.value(), value);
}

#[test]
fn test_property_equality() {
    let prop1 = Property::new(b"name", b"value");
    let prop2 = Property::new(b"name", b"value");
    let prop3 = Property::new(b"name", b"other");
    assert_eq!(prop1, prop2);
    assert_ne!(prop1, prop3);
}

// ---------------------------------------------------------------------------
// LazyCStr.

#[test]
fn test_new_and_len() {
    let bytes = b"hello\0world";
    let cstr = LazyCStr::new(bytes);
    assert_eq!(cstr.len(), 5);
    assert_eq!(cstr.as_bytes(), b"hello");
}

#[test]
fn test_no_null_terminator() {
    let bytes = b"hello";
    let cstr = LazyCStr::new(bytes);
    assert_eq!(cstr.len(), 5);
    assert_eq!(cstr.as_bytes(), b"hello");
}

#[test]
fn test_empty() {
    let bytes = b"";
    let cstr = LazyCStr::new(bytes);
    assert_eq!(cstr.len(), 0);
    assert_eq!(cstr.as_bytes(), b"");
}

#[test]
fn test_clone_preserves_len() {
    let bytes = b"abc\0def";
    let cstr = LazyCStr::new(bytes);
    assert_eq!(cstr.len(), 3);
    let cloned = cstr.clone();
    assert_eq!(cloned.len(), 3);
    assert_eq!(cloned.as_bytes(), b"abc");
}

#[test]
fn test_eq_and_ord() {
    let a = LazyCStr::new(b"abc\0def");
    let b = LazyCStr::new(b"abc\0xyz");
    let c = LazyCStr::new(b"abd\0def");
    assert_eq!(a, b);
    assert!(a < c);
    assert!(c > b);
}

#[test]
fn test_partial_eq_with_bytestr() {
    let bytes = b"foo\0bar";
    let cstr = LazyCStr::new(bytes);
    let bs: &[u8] = b"foo";
    assert_eq!(cstr, bs);
    assert_eq!(bs, cstr);

    let bs = b"foo";
    assert_eq!(cstr, bs);
    assert_eq!(bs, cstr);
}

#[test]
fn test_partial_ord_with_bytestr() {
    let bytes = b"abc\0bar";
    let cstr = LazyCStr::new(bytes);
    let bs: &[u8] = b"abd";
    assert!(cstr < bs);
    assert!(bs > cstr);

    let bs = b"abd";
    assert!(cstr < bs);
    assert!(bs > cstr);
}

#[test]
fn test_as_ref_impls() {
    let bytes = b"xyz\0";
    let cstr = LazyCStr::new(bytes);
    let as_self: &LazyCStr = cstr.as_ref();
    assert_eq!(as_self.as_bytes(), b"xyz");
    let as_bytes: &[u8] = cstr.as_ref();
    assert_eq!(as_bytes, b"xyz");
    let as_bytestr: &[u8] = cstr.as_byte_str();
    assert_eq!(as_bytestr, b"xyz");
}

/// How a byte string is shown: as the text it holds.
struct ShowCStr<'a>(LazyCStr<'a>);

impl fmt::Debug for ShowCStr<'_> {
    fn fmt(&self, f: &mut fmt::Formatter<'_>) -> fmt::Result {
        match std::str::from_utf8(self.0.as_bytes()) {
            Ok(s) => fmt::Debug::fmt(s, f),
            Err(_) => fmt::Debug::fmt(self.0.as_bytes(), f),
        }
    }
}

#[test]
fn bytes_test_debug_fmt() {
    let bytes = b"abc\0";
    let cstr = LazyCStr::new(bytes);
    let debug_str = format!("{:?}", ShowCStr(cstr));
    assert_eq!(debug_str, format!("{:?}", "abc"));
}

// ---------------------------------------------------------------------------
// Showing slices in part.

/// How a slice shown in part looks: its first entries, then how many more.
struct Show<'a, T>(DebugSlice<'a, T>);

struct More(usize);

impl fmt::Debug for More {
    fn fmt(&self, f: &mut fmt::Formatter<'_>) -> fmt::Result {
        f.write_str(&format!("...({} more)", self.0))
    }
}

impl<T: fmt::Debug> fmt::Debug for Show<'_, T> {
    fn fmt(&self, f: &mut fmt::Formatter<'_>) -> fmt::Result {
        let mut dl = f.debug_list();
        dl.entries(self.0.shown().iter());
        if let Some(n) = self.0.more() {
            dl.entry(&More(n));
        }
        dl.finish()
    }
}

#[test]
fn test_slice_debug_within_max_len() {
    let arr = [1, 2, 3];
    let dbg = arr.slice_debug(5);
    let s = format!("{:?}", Show(dbg));
    assert_eq!(s, "[1, 2, 3]");
}

#[test]
fn test_slice_debug_exact_max_len() {
    let arr = [1, 2, 3];
    let dbg = arr.slice_debug(3);
    let s = format!("{:?}", Show(dbg));
    assert_eq!(s, "[1, 2, 3]");
}

#[test]
fn test_slice_debug_exceeds_max_len() {
    let arr = [1, 2, 3, 4, 5];
    let dbg = arr.slice_debug(3);
    let s = format!("{:?}", Show(dbg));
    assert_eq!(s, "[1, 2, 3, ...(2 more)]");
}

#[test]
fn test_slice_debug_zero_max_len() {
    let arr = [1, 2, 3];
    let dbg = arr.slice_debug(0);
    let s = format!("{:?}", Show(dbg));
    assert_eq!(s, "[...(3 more)]");
}

#[test]
fn test_slice_debug_empty_slice() {
    let arr: [i32; 0] = [];
    let dbg = arr.slice_debug(3);
    let s = format!("{:?}", Show(dbg));
    assert_eq!(s, "[]");
}

#[test]
fn test_slice_debug_non_integer_type() {
    let arr = ["a", "b", "c", "d"];
    let dbg = arr.slice_debug(2);
    let s = format!("{:?}", Show(dbg));
    assert_eq!(s, r#"["a", "b", ...(2 more)]"#);
}

#[test]
fn test_slice_debug_hex() {
    let arr = [
        0x10, 0x20, 0x30, 0x40, 0x50, 0x60, 0x70, 0x80, 0x90, 0xa0, 0xb0, 0xc0, 0xd0, 0xe0, 0xf0,
    ];
    let dbg = arr.slice_debug(3);
    let s = format!("{:x?}", Show(dbg));
    assert_eq!(s, "[10, 20, 30, ...(12 more)]");
}

#[test]
fn test_slice_debug_hex_pretty() {
    let arr = [
        0x10, 0x20, 0x30, 0x40, 0x50, 0x60, 0x70, 0x80, 0x90, 0xa0, 0xb0, 0xc0, 0xd0, 0xe0, 0xf0,
    ];
    let dbg = arr.slice_debug(3);
    let s = format!("{:#x?}", Show(dbg));
    assert_eq!(s, "[\n    0x10,\n    0x20,\n    0x30,\n    ...(12 more),\n]");
}

// ---------------------------------------------------------------------------
// Items.

#[test]
fn test_into_property() {
    let prop = Property::new(b"prop", b"value");
    let item = Item::Property(prop.clone());
    assert_eq!(item.into_property(), Some(prop));
    let node = Node::new(b"node");
    let item = Item::Node(node);
    assert_eq!(item.into_property(), None);
}

#[test]
fn test_into_node() {
    let node = Node::new(b"node");
    let item = Item::Node(node.clone());
    assert_eq!(item.into_node(), Some(node));
    let prop = Property::new(b"prop", b"value");
    let item = Item::Property(prop);
    assert_eq!(item.into_node(), None);
}

#[test]
fn test_as_property() {
    let prop = Property::new(b"prop", b"value");
    let item = Item::Property(prop.clone());
    assert_eq!(item.as_property(), Some(&prop));
    let node = Node::new(b"node");
    let item = Item::Node(node);
    assert_eq!(item.as_property(), None);
}

#[test]
fn test_as_node() {
    let node = Node::new(b"node");
    let item = Item::Node(node.clone());
    assert_eq!(item.as_node(), Some(&node));
    let prop = Property::new(b"prop", b"value");
    let item = Item::Property(prop);
    assert_eq!(item.as_node(), None);
}

#[test]
fn test_is_property() {
    let prop = Property::new(b"prop", b"value");
    let item = Item::Property(prop);
    assert!(item.is_property());
    let node = Node::new(b"node");
    let item = Item::Node(node);
    assert!(!item.is_property());
}

#[test]
fn test_is_node() {
    let node = Node::new(b"node");
    let item = Item::Node(node);
    assert!(item.is_node());
    let prop = Property::new(b"prop", b"value");
    let item = Item::Property(prop);
    assert!(!item.is_node());
}

// ---------------------------------------------------------------------------
// Nodes.

#[test]
fn test_full_name() {
    let node = Node::new(b"node@123");
    assert_eq!(node.full_name(), b"node@123");
}

#[test]
fn test_split_name_with_unit_address() {
    let node = Node::new(b"node@123");
    let (base, unit) = node.split_name();
    assert_eq!(base, b"node");
    assert_eq!(unit, Some(&b"123"[..]));
}

#[test]
fn test_split_name_without_unit_address() {
    let node = Node::new(b"node");
    let (base, unit) = node.split_name();
    assert_eq!(base, b"node");
    assert_eq!(unit, None);
}

#[test]
fn test_name_method() {
    let node = Node::new(b"abc@456");
    assert_eq!(node.name(), b"abc");
}

#[test]
fn test_unit_address_method_some() {
    let node = Node::new(b"abc@456");
    assert_eq!(node.unit_address(), Some(&b"456"[..]));
}

#[test]
fn test_unit_address_method_none() {
    let node = Node::new(b"abc");
    assert_eq!(node.unit_address(), None);
}

#[test]
fn test_is_root_true() {
    let node = Node::new(b"");
    assert!(node.is_root());
}

#[test]
fn test_is_root_false() {
    let node = Node::new(b"notroot");
    assert!(!node.is_root());
}

// ---------------------------------------------------------------------------
// Memory reservation entries.

#[test]
fn test_reserve_entry_bigendian() {
    let entry = ReserveEntry::new(0x_1234_5678_90ab_cdef, 0x_fedc_ba09_8765_4321);
    assert_eq!(entry.address(), 0x_1234_5678_90ab_cdef);
    assert_eq!(entry.size(), 0x_fedc_ba09_8765_4321);
    assert_eq!(
        entry.as_bytes(),
        &[
            0x12, 0x34, 0x56, 0x78, 0x90, 0xab, 0xcd, 0xef, 0xfe, 0xdc, 0xba, 0x09, 0x87, 0x65,
            0x43, 0x21,
        ]
    );
}

#[test]
fn test_reserve_entry_zero() {
    let entry = ReserveEntry::new(0, 0);
    assert_eq!(entry.address(), 0);
    assert_eq!(entry.size(), 0);
    assert!(entry.is_terminator());
    assert_eq!(entry.address_range(), 0..0);
}

#[test]
fn test_reserve_entry_nonzero() {
    let entry = ReserveEntry::new(0x1000, 0x2000);
    assert_eq!(entry.address(), 0x1000);
    assert_eq!(entry.size(), 0x2000);
    assert!(!entry.is_terminator());
    assert_eq!(entry.address_range(), 0x1000..0x3000);
}

#[test]
fn test_terminator_method() {
    let entry = ReserveEntry::terminator();
    assert_eq!(entry, ReserveEntry::new(0, 0));
    assert!(entry.is_terminator());
}

#[test]
fn test_address_range_saturating_add() {
    let entry = ReserveEntry::new(u64::MAX - 1, 10);
    assert_eq!(entry.address_range(), (u64::MAX - 1)..u64::MAX);
}

#[test]
fn test_equality_and_clone() {
    let entry1 = ReserveEntry::new(0xDEAD_BEEF, 0x1000);
    let entry2 = entry1.clone();
    assert_eq!(entry1, entry2);
    assert_eq!(entry1.address(), entry2.address());
    assert_eq!(entry1.size(), entry2.size());
}

// ---------------------------------------------------------------------------
// Structure block tokens.

#[test]
fn test_token_type_new_and_value() {
    for value in [TokenType::BEGIN_NODE, TokenType::END_NODE, TokenType::PROP, TokenType::NOP, TokenType::END] {
        let token = TokenType::new(value);
        assert_eq!(token.value(), value);
        assert_eq!(token.as_bytes(), value.to_be_bytes());
    }
}

#[test]
fn test_token_type_equality() {
    let t1 = TokenType::new(TokenType::BEGIN_NODE);
    let t2 = TokenType::new(TokenType::BEGIN_NODE);
    let t3 = TokenType::new(TokenType::END_NODE);
    assert_eq!(t1, t2);
    assert_ne!(t1, t3);
}

#[test]
fn test_property_header_new_and_accessors() {
    let len = 42;
    let name_offset = 100;
    let header = PropertyHeader::new(len, name_offset);
    assert_eq!(header.len(), len);
    assert_eq!(header.name_offset(), name_offset);
    assert_eq!(header.as_bytes(), &[0, 0, 0, 42, 0, 0, 0, 100]);
}

#[test]
fn test_property_header_equality() {
    let h1 = PropertyHeader::new(10, 20);
    let h2 = PropertyHeader::new(10, 20);
    let h3 = PropertyHeader::new(30, 40);
    assert_eq!(h1.len(), h2.len());
    assert_eq!(h1.name_offset(), h2.name_offset());
    assert_ne!(h1.len(), h3.len());
    assert_ne!(h1.name_offset(), h3.name_offset());
}

// ---------------------------------------------------------------------------
// Headers.

#[test]
fn test_valid_header() {
    let header = valid_header();
    let _header = header_from(&header, HEADER_ADDR).unwrap();
}

#[test]
fn test_null_pointer() {
    let err = header_from(&valid_header(), 0).unwrap_err();
    assert!(matches!(err.kind(), ReadDevicetreeErrorKind::NullPointer));
}

#[test]
fn test_unaligned_header() {
    let err = header_from(&valid_header(), HEADER_ADDR + 1).unwrap_err();
    assert!(matches!(err.kind(), ReadDevicetreeErrorKind::UnalignedPointer { .. }));
}

#[test]
fn test_invalid_magic() {
    let header = with(valid_header(), |v| v[0] = 0xdead_beef);
    let err = header_from(&header, HEADER_ADDR).unwrap_err();
    assert!(matches!(err.kind(), ReadDevicetreeErrorKind::InvalidMagic { .. }));
}

#[test]
fn test_invalid_total_size() {
    let header = with(valid_header(), |v| v[1] = 10);
    let err = header_from(&header, HEADER_ADDR).unwrap_err();
    assert!(matches!(err.kind(), ReadDevicetreeErrorKind::InvalidTotalSize { .. }));
}

#[test]
fn test_incompatible_version() {
    let header = with(valid_header(), |v| {
        v[5] = LAST_COMPATIBLE_VERSION + 1;
        v[6] = LAST_COMPATIBLE_VERSION + 1;
    });
    let err = header_from(&header, HEADER_ADDR).unwrap_err();
    assert!(matches!(err.kind(), ReadDevicetreeErrorKind::IncompatibleVersion { .. }));
}

#[test]
fn test_unaligned_mem_rsvmap_block() {
    let header = with(valid_header(), |v| v[4] = 41);
    let err = header_from(&header, HEADER_ADDR).unwrap_err();
    assert!(
        matches!(err.kind(), ReadDevicetreeErrorKind::UnalignedBlock { block_name, .. } if *block_name == "memory reservation block")
    );
}

#[test]
fn test_unaligned_struct_block() {
    let header = with(valid_header(), |v| v[2] = 65);
    let err = header_from(&header, HEADER_ADDR).unwrap_err();
    assert!(
        matches!(err.kind(), ReadDevicetreeErrorKind::UnalignedBlock { block_name, .. } if *block_name == "structure block")
    );
}

#[test]
fn test_mem_rsvmap_block_out_of_bounds() {
    let header = with(valid_header(), |v| v[4] = 120);
    let err = header_from(&header, HEADER_ADDR).unwrap_err();
    assert!(
        matches!(err.kind(), ReadDevicetreeErrorKind::BlockOutOfBounds { block_name, .. } if *block_name == "memory reservation block")
    );
}

#[test]
fn test_struct_block_size_out_of_bounds() {
    let header = with(valid_header(), |v| {
        v[2] = 64;
        v[9] = 100;
    });
    let err = header_from(&header, HEADER_ADDR).unwrap_err();
    assert!(
        matches!(err.kind(), ReadDevicetreeErrorKind::BlockOutOfBounds { block_name, .. } if *block_name == "structure block")
    );
}

#[test]
fn test_strings_block_size_out_of_bounds() {
    let header = with(valid_header(), |v| {
        v[3] = 96;
        v[8] = 40;
    });
    let err = header_from(&header, HEADER_ADDR).unwrap_err();
    assert!(
        matches!(err.kind(), ReadDevicetreeErrorKind::BlockOutOfBounds { block_name, .. } if *block_name == "strings block")
    );
}

#[test]
fn test_from_bytes_insufficient() {
    let buf = [0_u8; 8];
    let err = Header::from_bytes(&buf).unwrap_err();
    assert!(matches!(err.kind(), ReadDevicetreeErrorKind::InsufficientBytes { .. }));
}

#[test]
fn test_from_bytes_valid() {
    let header = valid_header();
    let bytes = header.to_bytes();
    let h = Header::from_bytes_at(&bytes, HEADER_ADDR).unwrap();
    assert_eq!(h.magic(), MAGIC);
}

#[test]
fn test_overlapping_struct_block() {
    let overlap_off = 40 + 16 - 4;
    let header = with(valid_header(), |v| v[2] = overlap_off);
    let err = header_from(&header, HEADER_ADDR).unwrap_err();
    assert!(
        matches!(err.kind(), ReadDevicetreeErrorKind::BlockOutOfBounds { block_name, .. } if *block_name == "structure block")
    );
}

#[test]
fn test_zero_sized_struct_block() {
    let off_struct = 40 + 16;
    let header = with(valid_header(), |v| {
        v[2] = off_struct;
        v[9] = 0;
        v[3] = off_struct;
        v[8] = 16;
    });
    let _ = header_from(&header, HEADER_ADDR).unwrap();
}

#[test]
fn test_zero_sized_strings_block() {
    let header = with(valid_header(), |v| v[8] = 0);
    let _ = header_from(&header, HEADER_ADDR).unwrap();
}

#[test]
fn test_accessor_methods() {
    let header = valid_header();
    assert_eq!(header.magic(), MAGIC);
    assert_eq!(header.total_size(), 128);
    assert_eq!(header.version(), 17);
    assert_eq!(header.last_compatible_version(), LAST_COMPATIBLE_VERSION);
    assert_eq!(header.boot_cpuid_phys(), 0);
}

// ---------------------------------------------------------------------------
// Blobs.

#[test]
fn test_devicetree_from_bytes_and_as_bytes() {
    let blob = BlobBuilder::new().extend_mem_rsvmap_from_slice(&[ReserveEntry::terminator()]).build();
    let dt = Devicetree::from_bytes(blob.bytes()).unwrap();
    assert_eq!(dt.as_bytes(), blob.bytes());
}

#[test]
fn test_devicetree_from_ptr() {
    let blob = BlobBuilder::new().extend_mem_rsvmap_from_slice(&[ReserveEntry::terminator()]).build();
    let address = blob.bytes().as_ptr() as usize;
    let dt = Devicetree::from_bytes_at(blob.bytes(), address).unwrap();
    assert_eq!(dt.as_bytes(), blob.bytes());
}

#[test]
fn test_devicetree_header_and_blocks() {
    let blob = BlobBuilder::new()
        .extend_mem_rsvmap_from_slice(&[ReserveEntry::new(0, 10), ReserveEntry::terminator()])
        .extend_struct_block_from_slice(&[1, 2, 3, 4])
        .extend_strings_block_from_slice(b"test\0")
        .build();
    let dt = Devicetree::from_bytes(blob.bytes()).unwrap();
    let header = dt.header();
    assert_eq!(header.total_size(), blob.bytes().len());
    let mem_rsvmap = dt.memory_reservation_map();
    assert_eq!(mem_rsvmap, &[ReserveEntry::new(0, 10)]);
    let struct_block = dt.struct_block();
    assert_eq!(struct_block, &[1, 2, 3, 4]);
    let strings_block = dt.strings_block();
    assert_eq!(strings_block, b"test\0");
}

#[test]
fn test_insufficient_bytes() {
    let blob = BlobBuilder::new()
        .extend_mem_rsvmap_from_slice(&[ReserveEntry::new(0, 10), ReserveEntry::terminator()])
        .extend_struct_block_from_slice(&[1, 2, 3, 4])
        .extend_strings_block_from_slice(b"test\0")
        .build();
    let bytes = blob.bytes();
    let err = Devicetree::from_bytes(&bytes[..bytes.len() - 1]).unwrap_err();
    assert!(matches!(err.kind(), ReadDevicetreeErrorKind::InsufficientBytes { .. }), "err: {err:?}");
}

#[test]
fn test_unterminated_mem_rsvmap() {
    let blob = BlobBuilder::new()
        .extend_mem_rsvmap_from_slice(&[ReserveEntry::new(0, 10), ReserveEntry::new(100, 200)])
        .extend_struct_block_from_slice(&[1, 2, 3, 4])
        .extend_strings_block_from_slice(b"test\0")
        .build();
    let err = Devicetree::from_bytes(blob.bytes()).unwrap_err();
    assert!(matches!(err.kind(), ReadDevicetreeErrorKind::UnterminatedMemRsvmap), "err: {err:?}");
}

#[test]
fn test_entry_after_terminator() {
    let blob = BlobBuilder::new()
        .extend_mem_rsvmap_from_slice(&[
            ReserveEntry::terminator(),
            ReserveEntry::new(0, 10),
            ReserveEntry::new(100, 200),
        ])
        .extend_struct_block_from_slice(&[1, 2, 3, 4])
        .extend_strings_block_from_slice(b"test\0")
        .build();
    let dt = Devicetree::from_bytes(blob.bytes()).unwrap();
    let header = dt.header();
    assert_eq!(header.total_size(), blob.bytes().len());
    let mem_rsvmap = dt.memory_reservation_map();
    assert_eq!(mem_rsvmap, &[]);
    let struct_block = dt.struct_block();
    assert_eq!(struct_block, &[1, 2, 3, 4]);
    let strings_block = dt.strings_block();
    assert_eq!(strings_block, b"test\0");
}

#[test]
fn test_as_ref_trait() {
    let blob = BlobBuilder::new().extend_mem_rsvmap_from_slice(&[ReserveEntry::terminator()]).build();
    let dt = Devicetree::from_bytes(blob.bytes()).unwrap();
    let as_ref_bytes: &[u8] = dt.as_ref();
    assert_eq!(as_ref_bytes, blob.bytes());
}

fn sample_blob() -> Blob {
    BlobBuilder::new()
        .extend_mem_rsvmap_from_slice(&[ReserveEntry::new(0x8000_0000, 0x1000), ReserveEntry::terminator()])
        .extend_struct_block_from_slice(&[0, 0, 0, 1, 0, 0, 0, 0, 0, 0, 0, 2, 0, 0, 0, 9])
        .extend_strings_block_from_slice(b"compatible\0")
        .build()
}

#[test]
fn test_to_owned() {
    let blob = sample_blob();
    let dt = Devicetree::from_bytes(blob.bytes()).unwrap();
    let owned = dt.to_owned();
    assert_eq!(owned.as_bytes(), dt.as_bytes());
}

#[test]
fn test_clone_owned_devicetree() {
    let blob = sample_blob();
    let dt = Devicetree::from_bytes(blob.bytes()).unwrap();
    let owned = dt.to_owned();
    let cloned = owned.clone();
    assert_eq!(cloned.as_bytes(), owned.as_bytes());
    assert_ne!(cloned.as_bytes().as_ptr(), owned.as_bytes().as_ptr());
}

#[test]
fn test_deref_and_borrow() {
    let blob = sample_blob();
    let dt = Devicetree::from_bytes(blob.bytes()).unwrap();
    let owned = dt.to_owned();
    let deref_dt = owned.as_devicetree();
    assert_eq!(deref_dt.as_bytes(), dt.as_bytes());
}

#[test]
fn test_as_ref_slice_and_devicetree() {
    let blob = sample_blob();
    let dt = Devicetree::from_bytes(blob.bytes()).unwrap();
    let owned = dt.to_owned();
    let as_ref_slice: &[u8] = owned.as_ref();
    let as_ref_dt = owned.as_devicetree();
    assert_eq!(as_ref_slice, dt.as_bytes());
    assert_eq!(as_ref_dt.as_bytes(), dt.as_bytes());
}

// ---------------------------------------------------------------------------
// Reading tokens.

#[test]
fn token_cursor_reads_nodes_and_properties() {
    let mut sb = Vec::new();
    sb.extend_from_slice(&1u32.to_be_bytes());
    sb.extend_from_slice(b"\0\0\0\0");
    sb.extend_from_slice(&4u32.to_be_bytes());
    sb.extend_from_slice(&3u32.to_be_bytes());
    sb.extend_from_slice(&4u32.to_be_bytes());
    sb.extend_from_slice(&0u32.to_be_bytes());
    sb.extend_from_slice(&[0xab, 0xcd, 0xef, 0x01]);
    sb.extend_from_slice(&1u32.to_be_bytes());
    sb.extend_from_slice(b"cpu@0\0\0\0");
    sb.extend_from_slice(&2u32.to_be_bytes());
    sb.extend_from_slice(&2u32.to_be_bytes());
    sb.extend_from_slice(&9u32.to_be_bytes());
    let blob = BlobBuilder::new()
        .extend_mem_rsvmap_from_slice(&[ReserveEntry::terminator()])
        .extend_struct_block_from_slice(&sb)
        .extend_strings_block_from_slice(b"reg\0")
        .build();
    let dt = Devicetree::from_bytes(blob.bytes()).unwrap();
    let mut cursor = TokenCursor::new(dt);
    assert!(matches!(cursor.read_token(), Ok(Some(Token::BeginNode { full_name })) if full_name.is_empty()));
    assert!(matches!(
        cursor.read_token(),
        Ok(Some(Token::Property { name_offset: 0, value })) if value == &[0xab, 0xcd, 0xef, 0x01]
    ));
    assert!(matches!(cursor.read_token(), Ok(Some(Token::BeginNode { full_name })) if full_name == b"cpu@0"));
    assert!(matches!(cursor.read_token(), Ok(Some(Token::EndNode))));
    assert!(matches!(cursor.read_token(), Ok(Some(Token::EndNode))));
    assert!(matches!(cursor.read_token(), Ok(None)));
    assert_eq!(cursor.position(), sb.len());
}

// The cursor that the devicetree hands out starts at the beginning of the
// structure block; a cursor left inside a name after an error reads on.
#[test]
fn devicetree_token_cursor_and_reading_after_error() {
    let mut sb = Vec::new();
    sb.extend_from_slice(&1u32.to_be_bytes());
    sb.extend_from_slice(b"a/b\0");
    sb.extend_from_slice(&2u32.to_be_bytes());
    sb.extend_from_slice(&9u32.to_be_bytes());
    let blob = BlobBuilder::new()
        .extend_mem_rsvmap_from_slice(&[ReserveEntry::terminator()])
        .extend_struct_block_from_slice(&sb)
        .extend_strings_block_from_slice(b"")
        .build();
    let dt = Devicetree::from_bytes(blob.bytes()).unwrap();
    let mut cursor = dt.token_cursor();
    assert_eq!(cursor.position(), 0);
    assert_eq!(dt.read_token().position(), 0);
    assert!(matches!(
        cursor.read_token(),
        Err(ReadTokenError::BeginNode { source: ReadBeginNodeTokenError::SlashInName { offset: 8 } })
    ));
    assert_eq!(cursor.position(), 8);
    assert!(matches!(cursor.read_token(), Ok(Some(Token::EndNode))));
    assert!(matches!(cursor.read_token(), Ok(None)));
    let mut unaligned = TokenCursor::from_parts(dt, 1);
    assert_eq!(unaligned.position(), 1);
    assert!(matches!(
        unaligned.read_token(),
        Err(ReadTokenError::Unknown { token: 0x161, offset: 5 })
    ));
    assert_eq!(unaligned.position(), 5);
}

// Each reading error describes itself in words.
#[test]
fn read_error_messages() {
    assert_eq!(
        ReadTokenError::Unknown { token: 7, offset: 12 }.message(),
        "unknown token found in DTB structure block: token=7, offset=12"
    );
    assert_eq!(
        ReadTokenError::BeginNode { source: ReadBeginNodeTokenError::SlashInName { offset: 3 } }
            .message(),
        "failed to read BEGIN_NODE token"
    );
    assert_eq!(
        ReadTokenError::Prop { source: ReadPropTokenError::MissingPropertyHeader { offset: 3 } }
            .message(),
        "failed to read PROP token"
    );
    assert_eq!(
        ReadBeginNodeTokenError::UnterminatedNodeName { offset: 40 }.message(),
        "unterminated node name in DTB structure block: offset=40"
    );
    assert_eq!(
        ReadBeginNodeTokenError::SlashInName { offset: 8 }.message(),
        "node name contains '/' character: offset=8"
    );
    assert_eq!(
        ReadPropTokenError::MissingPropertyHeader { offset: 100 }.message(),
        "missing property header in DTB structure block: offset=100"
    );
    assert_eq!(
        ReadPropTokenError::PropertyNameOffsetExceedingBlock { offset: 16, name_offset: 99 }.message(),
        "property name offset exceeds DTB strings block: offset=16, name_offset=99"
    );
    assert_eq!(
        ReadPropTokenError::PropertyValueExceedingBlock { offset: 0, len: 1234567 }.message(),
        "property value exceeds DTB structure block: offset=0, len=1234567"
    );
    assert_eq!(
        ReadDevicetreeErrorKind::UnalignedPointer { address: 0x1003, expected_alignment: 8 }.message(),
        "unaligned devicetree pointer given: address=0x1003, expected_alignment=8"
    );
    assert_eq!(ReadDevicetreeErrorKind::NullPointer.message(), "null devicetree pointer given");
    assert_eq!(
        ReadDevicetreeErrorKind::InsufficientBytes { needed: 40, actual: 3 }.message(),
        "insufficient length of devicetree blob bytes, needed=40, actual=3"
    );
    assert_eq!(
        ReadDevicetreeErrorKind::InvalidMagic { magic: 0xdeadbeef }.message(),
        "invalid magic number: magic=0xdeadbeef"
    );
    assert_eq!(
        ReadDevicetreeErrorKind::InvalidTotalSize { total_size: 10 }.message(),
        "invalid total size: total_size=10"
    );
    assert_eq!(
        ReadDevicetreeErrorKind::IncompatibleVersion { version: 15, last_compatible_version: 17 }
            .message(),
        "incompatible version: version=15, last_compatible_version=17"
    );
    assert_eq!(
        ReadDevicetreeErrorKind::UnalignedBlock {
            block_name: "struct",
            block_alignment: 4,
            block_offset: 41,
            block_size: 8,
        }
        .message(),
        "unaligned block: block_name=struct, expected_alignment=4, block_offset=41, block_size=8"
    );
    assert_eq!(
        ReadDevicetreeErrorKind::BlockOutOfBounds {
            block_name: "strings",
            block_offset: 200,
            block_size: 10,
            valid_range: 72..100,
        }
        .message(),
        "block out of bounds: block_name=strings, block_offset=200, block_size=10, valid_range=72..100"
    );
    assert_eq!(
        ReadDevicetreeErrorKind::UnterminatedMemRsvmap.message(),
        "unterminated memory reservation block"
    );
}

fn cells(values: &[u32]) -> Vec<u8> {
    let mut v = Vec::new();
    for x in values {
        v.extend_from_slice(&x.to_be_bytes());
    }
    v
}

fn target(phandle: u32, path: &str, interrupt_cells: usize) -> PhandleTarget {
    PhandleTarget { phandle, node: InterruptParent { path: path.to_string(), interrupt_cells } }
}

fn interrupt_list(d: &InterruptGeneratingDevice) -> Vec<(String, Vec<u32>)> {
    d.interrupts().iter().map(|i| (i.parent_path.clone(), i.specifier.clone())).collect()
}

// `interrupts-extended` names a parent for each interrupt; `interrupts`
// takes the parent that `interrupt-parent` names, else the node's parent.
#[test]
fn device_interrupts_from_properties() {
    let targets = vec![target(1, "/intc", 1), target(2, "/gic", 2), target(1, "/other", 3)];
    let ext = cells(&[1, 5, 2, 7, 8]);
    let props = [Property::new(b"interrupts-extended", &ext)];
    let d = InterruptGeneratingDevice::deserialize_node(&props, None, &targets).unwrap();
    assert_eq!(
        interrupt_list(&d),
        vec![("/intc".to_string(), vec![5]), ("/gic".to_string(), vec![7, 8])]
    );

    let ints = cells(&[3, 4, 5, 6]);
    let ip = cells(&[2]);
    let props = [Property::new(b"interrupts", &ints), Property::new(b"interrupt-parent", &ip)];
    let d = InterruptGeneratingDevice::deserialize_node(&props, None, &targets).unwrap();
    assert_eq!(
        interrupt_list(&d),
        vec![("/gic".to_string(), vec![3, 4]), ("/gic".to_string(), vec![5, 6])]
    );

    let parent = InterruptParent { path: "/soc".to_string(), interrupt_cells: 1 };
    let props = [Property::new(b"interrupts", &ints)];
    let d = InterruptGeneratingDevice::deserialize_node(&props, Some(&parent), &targets).unwrap();
    assert_eq!(
        interrupt_list(&d),
        vec![
            ("/soc".to_string(), vec![3]),
            ("/soc".to_string(), vec![4]),
            ("/soc".to_string(), vec![5]),
            ("/soc".to_string(), vec![6]),
        ]
    );
}

// Each way in which the interrupts cannot be decoded gives its error.
#[test]
fn device_interrupts_errors() {
    let targets = vec![target(1, "/intc", 1), target(2, "/gic", 2)];
    let missing = cells(&[9, 1]);
    let props = [Property::new(b"interrupts-extended", &missing)];
    let e = InterruptGeneratingDevice::deserialize_node(&props, None, &targets).unwrap_err();
    assert_eq!(e.kind().message(), "no node with phandle=9");

    let short = cells(&[2, 7]);
    let props = [Property::new(b"interrupts-extended", &short)];
    let e = InterruptGeneratingDevice::deserialize_node(&props, None, &targets).unwrap_err();
    match e.kind() {
        DeserializeErrorKind::DeserializeProperty { source } => assert_eq!(
            source.kind().message(),
            "invalid property value length of `interrupts-extended`"
        ),
        other => panic!("unexpected error {other:?}"),
    }

    let odd = cells(&[1, 2, 3]);
    let ip = cells(&[2]);
    let props = [Property::new(b"interrupt-parent", &ip), Property::new(b"interrupts", &odd)];
    let e = InterruptGeneratingDevice::deserialize_node(&props, None, &targets).unwrap_err();
    match e.kind() {
        DeserializeErrorKind::DeserializeProperty { source } => {
            assert_eq!(source.kind().message(), "invalid property value length of `interrupts`")
        }
        other => panic!("unexpected error {other:?}"),
    }

    let props = [Property::new(b"interrupts", &odd)];
    let e = InterruptGeneratingDevice::deserialize_node(&props, None, &targets).unwrap_err();
    match e.kind() {
        DeserializeErrorKind::DeserializeNode { source } => {
            assert_eq!(source.kind(), &DeserializeNodeErrorKind::MissingParentNode)
        }
        other => panic!("unexpected error {other:?}"),
    }

    let props = [Property::new(b"compatible", b"x\0")];
    let e = InterruptGeneratingDevice::deserialize_node(&props, None, &targets).unwrap_err();
    match e.kind() {
        DeserializeErrorKind::DeserializeNode { source } => assert_eq!(
            source.kind().message(),
            "`interrupts` and `inteterrupts-extended` property is missing"
        ),
        other => panic!("unexpected error {other:?}"),
    }

    let props = [Property::new(b"interrupts", b"12345")];
    let e = InterruptGeneratingDevice::deserialize_node(&props, None, &targets).unwrap_err();
    match e.kind() {
        DeserializeErrorKind::DeserializeProperty { source } => assert_eq!(
            source.kind(),
            &DeserializePropertyErrorKind::ValueLengthMismatch { expected: 8, actual: 5 }
        ),
        other => panic!("unexpected error {other:?}"),
    }

    let props = [Property::new(b"interrupts", &odd), Property::new(b"interrupt-parent", b"abc")];
    let e = InterruptGeneratingDevice::deserialize_node(&props, None, &targets).unwrap_err();
    match e.kind() {
        DeserializeErrorKind::DeserializeProperty { source } => assert_eq!(
            source.kind(),
            &DeserializePropertyErrorKind::ValueLengthMismatch { expected: 4, actual: 3 }
        ),
        other => panic!("unexpected error {other:?}"),
    }
}

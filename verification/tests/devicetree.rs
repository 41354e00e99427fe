use onixlib::devicetree::blob::{CreateError, Devicetree};
use onixlib::devicetree::layout::{Header, HeaderValidationError, ReserveEntry, StructToken};
use onixlib::devicetree::node::{GetPropertyError, ParseStructError};
use onixlib::devicetree::parsed::PropertyError;
use onixlib::devicetree::property::{
    Either, ParsePropertyValueError, Phandle, Property, PropertyValue, Reg, StringList,
};
use onixlib::devicetree::struct_lexer::{StructLexerError, StructTokenWithData};

// ---------------------------------------------------------------------------
// Blobs for the tests.

fn be32(v: &mut Vec<u8>, x: u32) {
    v.extend_from_slice(&x.to_be_bytes());
}

fn pad4(v: &mut Vec<u8>) {
    while v.len() % 4 != 0 {
        v.push(0);
    }
}

/// A structure block and a strings block written token by token.
struct Writer {
    sb: Vec<u8>,
    strings: Vec<u8>,
}

impl Writer {
    fn new() -> Self {
        Writer { sb: Vec::new(), strings: Vec::new() }
    }

    fn begin(&mut self, name: &str) -> &mut Self {
        be32(&mut self.sb, StructToken::BEGIN_NODE);
        self.sb.extend_from_slice(name.as_bytes());
        self.sb.push(0);
        pad4(&mut self.sb);
        self
    }

    fn end(&mut self) -> &mut Self {
        be32(&mut self.sb, StructToken::END_NODE);
        self
    }

    fn nop(&mut self) -> &mut Self {
        be32(&mut self.sb, StructToken::NOP);
        self
    }

    fn prop(&mut self, name: &str, value: &[u8]) -> &mut Self {
        let off = match find(&self.strings, name) {
            Some(off) => off,
            None => {
                let off = self.strings.len();
                self.strings.extend_from_slice(name.as_bytes());
                self.strings.push(0);
                off
            }
        };
        be32(&mut self.sb, StructToken::PROP);
        be32(&mut self.sb, value.len() as u32);
        be32(&mut self.sb, off as u32);
        self.sb.extend_from_slice(value);
        pad4(&mut self.sb);
        self
    }

    fn finish(&mut self) -> &mut Self {
        be32(&mut self.sb, StructToken::END);
        self
    }

    /// The blob: header, a memory reservation block of `rsv` and a
    /// terminator, the structure block, the strings block.
    fn blob(&self, rsv: &[(u64, u64)]) -> Vec<u8> {
        let off_mem_rsvmap = 40u32;
        let off_dt_struct = off_mem_rsvmap + 16 * (rsv.len() as u32 + 1);
        let off_dt_strings = off_dt_struct + self.sb.len() as u32;
        let total = off_dt_strings + self.strings.len() as u32;
        let mut v = Vec::new();
        for x in [
            0xd00d_feed,
            total,
            off_dt_struct,
            off_dt_strings,
            off_mem_rsvmap,
            17,
            16,
            0,
            self.strings.len() as u32,
            self.sb.len() as u32,
        ] {
            be32(&mut v, x);
        }
        for (a, s) in rsv.iter().chain([(0u64, 0u64)].iter()) {
            v.extend_from_slice(&a.to_be_bytes());
            v.extend_from_slice(&s.to_be_bytes());
        }
        v.extend_from_slice(&self.sb);
        v.extend_from_slice(&self.strings);
        v
    }
}

fn find(strings: &[u8], name: &str) -> Option<usize> {
    let mut off = 0;
    for part in strings.split(|b| *b == 0) {
        if part == name.as_bytes() {
            return Some(off);
        }
        off += part.len() + 1;
    }
    None
}

fn sample() -> Vec<u8> {
    let mut w = Writer::new();
    w.begin("")
        .prop("#address-cells", &2u32.to_be_bytes())
        .prop("#size-cells", &1u32.to_be_bytes())
        .prop("compatible", b"acme,board\0acme,soc\0")
        .nop()
        .begin("memory@80000000")
        .prop("device_type", b"memory\0")
        .prop("reg", &[0, 0, 0, 0, 0x80, 0, 0, 0, 0, 0, 0x10, 0])
        .end()
        .begin("cpus")
        .begin("cpu@0")
        .prop("phandle", &1u32.to_be_bytes())
        .prop("interrupt-controller", &[])
        .end()
        .end()
        .end()
        .finish();
    w.blob(&[(0x8000_0000, 0x1000)])
}

const ADDR: usize = 0x4000;

// ---------------------------------------------------------------------------
// Headers.

#[test]
fn header_validation_order() {
    let blob = sample();
    let h = Header::from_bytes(&blob);
    assert_eq!(h.validate(), Ok(()));
    assert!(Header::is_valid_header_addr(0x1000));
    assert!(!Header::is_valid_header_addr(0x1004));

    let mut bad = h;
    bad.magic = 0xdead_beef;
    assert_eq!(bad.validate(), Err(HeaderValidationError::InvalidMagic { magic: 0xdead_beef }));

    let mut old = h;
    old.version = 18;
    old.last_comp_version = 18;
    assert_eq!(
        old.validate(),
        Err(HeaderValidationError::IncompatibleVersion { version: 18, last_comp_version: 18 })
    );

    let mut misaligned = h;
    misaligned.off_mem_rsvmap = 44;
    assert!(matches!(misaligned.validate(), Err(HeaderValidationError::InvalidLayout { .. })));

    // The memory reservation block holds at least its terminator.
    let mut no_room = h;
    no_room.off_mem_rsvmap = 40;
    no_room.off_dt_struct = 40;
    no_room.size_dt_struct = 0;
    no_room.off_dt_strings = 40;
    no_room.size_dt_strings = 0;
    no_room.totalsize = 40;
    assert!(matches!(no_room.validate(), Err(HeaderValidationError::InvalidLayout { .. })));
    no_room.off_dt_struct = 56;
    no_room.off_dt_strings = 56;
    no_room.totalsize = 56;
    assert_eq!(no_room.validate(), Ok(()));
}

#[test]
fn reserve_entries() {
    let e = ReserveEntry { address: 0x1000, size: 0x2000 };
    assert_eq!(e.range(), 0x1000..0x3000);
    assert!(!e.is_terminator());
    assert!(ReserveEntry { address: 0, size: 0 }.is_terminator());
    let big = ReserveEntry { address: u64::MAX - 1, size: 10 };
    assert_eq!(big.range(), (usize::MAX - 1)..usize::MAX);
}

// ---------------------------------------------------------------------------
// Blobs.

#[test]
fn from_addr_checks_alignment_and_header() {
    let blob = sample();
    assert_eq!(Devicetree::blob_len(ADDR + 4, &blob), Err(CreateError::InvalidAddressAlignment { addr: ADDR + 4 }));
    assert_eq!(Devicetree::blob_len(ADDR, &blob), Ok(blob.len()));
    assert!(matches!(
        Devicetree::from_addr(ADDR + 4, &blob),
        Err(CreateError::InvalidAddressAlignment { addr }) if addr == ADDR + 4
    ));
    let mut broken = blob.clone();
    broken[0] = 0;
    assert!(matches!(
        Devicetree::from_addr(ADDR, &broken),
        Err(CreateError::InvalidHeader { source: HeaderValidationError::InvalidMagic { .. } })
    ));
    let dt = Devicetree::from_addr(ADDR, &blob).unwrap();
    assert_eq!(dt.as_bytes(), &blob[..]);
    assert_eq!(dt.size(), blob.len());
    assert_eq!(dt.mem_rsvmap(), vec![ReserveEntry { address: 0x8000_0000, size: 0x1000 }]);
}

#[test]
fn from_addr_takes_totalsize_bytes() {
    let mut blob = sample();
    let n = blob.len();
    blob.extend_from_slice(&[0xff; 32]);
    let dt = Devicetree::from_addr(ADDR, &blob).unwrap();
    assert_eq!(dt.as_bytes().len(), n);
}

// ---------------------------------------------------------------------------
// The lexer.

#[test]
fn lexer_reads_tokens_in_order() {
    let blob = sample();
    let dt = Devicetree::from_addr(ADDR, &blob).unwrap();
    let mut lexer = dt.struct_lexer();
    assert!(matches!(lexer.next(), Some(Ok(StructTokenWithData::BeginNode { name: "", address: None }))));
    match lexer.next() {
        Some(Ok(StructTokenWithData::Prop(p))) => {
            assert_eq!(p.name(), "#address-cells");
            assert_eq!(p.raw_value(), &[0, 0, 0, 2]);
        }
        other => panic!("unexpected {other:?}"),
    }
    assert!(matches!(lexer.next(), Some(Ok(StructTokenWithData::Prop(_)))));
    assert!(matches!(lexer.next(), Some(Ok(StructTokenWithData::Prop(_)))));
    assert!(matches!(lexer.next(), Some(Ok(StructTokenWithData::Nop))));
    assert!(matches!(
        lexer.next(),
        Some(Ok(StructTokenWithData::BeginNode { name: "memory", address: Some("80000000") }))
    ));
    let (token, rest) = lexer.split_token().unwrap().unwrap();
    assert!(matches!(token, StructTokenWithData::Prop(_)));
    assert!(matches!(rest.split_token(), Ok(Some((StructTokenWithData::Prop(_), _)))));
}

#[test]
fn lexer_reports_unknown_token() {
    let mut w = Writer::new();
    be32(&mut w.sb, 7);
    let blob = w.blob(&[]);
    let dt = Devicetree::from_addr(ADDR, &blob).unwrap();
    let mut lexer = dt.struct_lexer();
    assert!(matches!(
        lexer.next(),
        Some(Err(StructLexerError::InvalidToken { token: 7, offset: 4 }))
    ));
}

#[test]
fn lexer_reports_bad_name_offset() {
    let mut w = Writer::new();
    be32(&mut w.sb, StructToken::PROP);
    be32(&mut w.sb, 0);
    be32(&mut w.sb, 100);
    let blob = w.blob(&[]);
    let dt = Devicetree::from_addr(ADDR, &blob).unwrap();
    let mut lexer = dt.struct_lexer();
    assert!(matches!(
        lexer.next(),
        Some(Err(StructLexerError::UnexpectedEndOfStringsBlock { offset: 100 }))
    ));
}

#[test]
fn lexer_stops_at_end_of_block() {
    let mut w = Writer::new();
    w.finish();
    let blob = w.blob(&[]);
    let dt = Devicetree::from_addr(ADDR, &blob).unwrap();
    let mut lexer = dt.struct_lexer();
    assert!(matches!(lexer.next(), Some(Ok(StructTokenWithData::End))));
    assert!(lexer.next().is_none());
}

// ---------------------------------------------------------------------------
// Nodes.

#[test]
fn root_node_and_children() {
    let blob = sample();
    let dt = Devicetree::from_addr(ADDR, &blob).unwrap();
    let root = dt.root_node().unwrap();
    assert_eq!(root.name(), "");
    assert_eq!(root.address(), None);

    let mut props = root.properties();
    let p = props.next().unwrap().unwrap();
    assert_eq!(p.name(), "#address-cells");
    let p = props.next().unwrap().unwrap();
    assert_eq!(p.name(), "#size-cells");
    let p = props.next().unwrap().unwrap();
    assert_eq!(p.name(), "compatible");
    assert!(props.next().is_none());
    assert!(props.next().is_none());

    let mut children = root.children();
    let memory = children.next().unwrap().unwrap();
    assert_eq!(memory.name(), "memory");
    assert_eq!(memory.address(), Some("80000000"));
    let cpus = children.next().unwrap().unwrap();
    assert_eq!(cpus.name(), "cpus");
    assert!(children.next().is_none());

    let first = root.first_child().unwrap().unwrap();
    assert_eq!(first.name(), "memory");
    let second = first.next_sibling().unwrap().unwrap();
    assert_eq!(second.name(), "cpus");
    assert!(second.next_sibling().unwrap().is_none());
    let cpu = second.first_child().unwrap().unwrap();
    assert_eq!(cpu.name(), "cpu");
    assert!(cpu.first_child().unwrap().is_none());
}

#[test]
fn properties_find_and_reg() {
    let blob = sample();
    let dt = Devicetree::from_addr(ADDR, &blob).unwrap();
    let root = dt.root_node().unwrap();
    let props = root.properties();
    assert_eq!(props.address_cells().unwrap(), Some(2));
    assert_eq!(props.size_cells().unwrap(), Some(1));
    assert_eq!(props.find_u32("#address-cells").unwrap(), Some(2));
    assert!(props.find("missing").unwrap().is_none());
    assert!(matches!(
        props.find_u32("compatible"),
        Err(GetPropertyError::ParsePropertyValue { source: ParsePropertyValueError::InvalidValueLength { expected: 4, .. } })
    ));

    let memory = root.first_child().unwrap().unwrap();
    let mut reg = memory.properties().reg(&root).unwrap().unwrap();
    assert_eq!(reg.len(), 1);
    assert_eq!(reg.next(), Some(Reg { address: 0x8000_0000, size: 0x1000 }));
    assert_eq!(reg.next(), None);

    // The root has no parent cells: its own `reg` is absent anyway.
    assert!(root.properties().reg(&memory).unwrap().is_none());
    // A node whose parent lacks #address-cells.
    let cpus = memory.next_sibling().unwrap().unwrap();
    let cpu = cpus.first_child().unwrap().unwrap();
    let mut w = Writer::new();
    w.begin("").begin("dev").prop("reg", &[0, 0, 0, 1]).end().end().finish();
    let blob2 = w.blob(&[]);
    let dt2 = Devicetree::from_addr(ADDR, &blob2).unwrap();
    let root2 = dt2.root_node().unwrap();
    let dev = root2.first_child().unwrap().unwrap();
    assert!(matches!(
        dev.properties().reg(&root2),
        Err(GetPropertyError::MissingParentProperty { name: "#address-cells" })
    ));
    assert_eq!(cpu.name(), "cpu");
}

#[test]
fn unexpected_and_missing_tokens() {
    let mut w = Writer::new();
    w.begin("").begin("a").end().prop("late", &[]).end().finish();
    let blob = w.blob(&[]);
    let dt = Devicetree::from_addr(ADDR, &blob).unwrap();
    let root = dt.root_node().unwrap();
    let a = root.first_child().unwrap().unwrap();
    assert!(matches!(a.next_sibling(), Err(ParseStructError::UnexpectedPropToken)));

    let mut w = Writer::new();
    w.begin("").begin("a").finish();
    let blob = w.blob(&[]);
    let dt = Devicetree::from_addr(ADDR, &blob).unwrap();
    let root = dt.root_node().unwrap();
    let a = root.first_child().unwrap().unwrap();
    assert!(matches!(a.next_sibling(), Err(ParseStructError::MissingEndNodeToken)));

    let mut w = Writer::new();
    w.end().finish();
    let blob = w.blob(&[]);
    let dt = Devicetree::from_addr(ADDR, &blob).unwrap();
    assert!(matches!(dt.root_node(), Err(ParseStructError::MissingBeginNodeToken)));
}

// ---------------------------------------------------------------------------
// Property values.

#[test]
fn property_values_by_name() {
    assert!(matches!(Property::new("interrupt-controller", b"").value(), Ok(PropertyValue::Empty)));
    assert!(matches!(Property::new("#size-cells", &[0, 0, 0, 1]).value(), Ok(PropertyValue::U32(1))));
    assert!(matches!(
        Property::new("#size-cells", &[0, 1]).value(),
        Err(ParsePropertyValueError::InvalidValueLength { expected: 4, actual: 2 })
    ));
    assert!(matches!(Property::new("model", b"acme\0").value(), Ok(PropertyValue::String("acme"))));
    assert!(matches!(
        Property::new("model", b"acme").value(),
        Err(ParsePropertyValueError::MissingNulInString)
    ));
    assert!(matches!(Property::new("status", b"\xff\0").value(), Err(ParsePropertyValueError::Utf8)));
    assert!(matches!(
        Property::new("phandle", &[0, 0, 0, 5]).value(),
        Ok(PropertyValue::Phandle(Phandle(5)))
    ));
    assert!(matches!(Property::new("reg", &[1, 2]).value(), Ok(PropertyValue::PropEncodedArray(&[1, 2]))));
    assert!(matches!(Property::new("ranges", b"").value(), Ok(PropertyValue::Empty)));
    assert!(matches!(Property::new("ranges", &[1]).value(), Ok(PropertyValue::PropEncodedArray(&[1]))));
    assert!(matches!(Property::new("vendor,x", &[9]).value(), Ok(PropertyValue::Unknown(&[9]))));
}

#[test]
fn string_lists() {
    let prop = Property::new("compatible", b"a,b\0c\0");
    let list: StringList = prop.parse_value().unwrap();
    let mut it = list.iter();
    assert_eq!(it.next(), Some("a,b"));
    assert_eq!(it.next(), Some("c"));
    assert_eq!(it.next(), None);
    assert_eq!(it.next(), None);

    let prop = Property::new("compatible", b"x\0\0tail");
    let list: StringList = prop.parse_value().unwrap();
    let mut it = list.iter();
    assert_eq!(it.next(), Some("x"));
    assert_eq!(it.next(), Some(""));
    assert_eq!(it.next(), None);
}

#[test]
fn numbers_and_either() {
    let prop = Property::new("x", &[0, 0, 0, 0, 0, 0, 1, 0]);
    let n: u64 = prop.parse_value().unwrap();
    assert_eq!(n, 256);
    let e: Either<u32, u64> = prop.parse_value().unwrap();
    assert!(matches!(e, Either::Right(256)));
    let prop = Property::new("x", &[0, 0, 0, 7]);
    let e: Either<u32, u64> = prop.parse_value().unwrap();
    assert!(matches!(e, Either::Left(7)));
    let prop = Property::new("x", &[1]);
    let e: Result<Either<u32, u64>, _> = prop.parse_value();
    assert!(matches!(e, Err(ParsePropertyValueError::Either { .. })));
}

#[test]
fn reg_values() {
    let prop = Property::new("reg", &[0, 0, 0, 1, 0, 0, 0, 2, 0, 0, 0, 3, 0, 0, 0, 4]);
    assert!(matches!(
        prop.parse_value_as_reg(3, 0),
        Err(ParsePropertyValueError::InvalidAddressCells { address_cells: 3 })
    ));
    assert!(matches!(
        prop.parse_value_as_reg(1, 3),
        Err(ParsePropertyValueError::InvalidSizeCells { size_cells: 3 })
    ));
    assert!(matches!(
        prop.parse_value_as_reg(2, 1),
        Err(ParsePropertyValueError::ValueLengthIsNotMultipleOf { unit: 3, len: 16 })
    ));
    let mut it = prop.parse_value_as_reg(1, 1).unwrap();
    assert_eq!(it.len(), 2);
    assert_eq!(it.assume_one(), None);
    assert_eq!(it.next_back(), Some(Reg { address: 3, size: 4 }));
    assert_eq!(it.len(), 1);
    assert_eq!(it.assume_one(), Some(Reg { address: 1, size: 2 }));
    assert_eq!(it.next(), Some(Reg { address: 1, size: 2 }));
    assert_eq!(it.next(), None);
    let mut it = prop.parse_value_as_reg(2, 2).unwrap();
    assert_eq!(it.next(), Some(Reg { address: 0x1_0000_0002, size: 0x3_0000_0004 }));
    let mut it = prop.parse_value_as_reg(2, 0).unwrap();
    assert_eq!(it.next(), Some(Reg { address: 0x1_0000_0002, size: 0 }));
    let r = Reg { address: usize::MAX - 1, size: 5 };
    assert_eq!(r.range(), (usize::MAX - 1)..usize::MAX);
}

// ---------------------------------------------------------------------------
// Trees read whole.

fn interrupt_sample() -> Vec<u8> {
    let mut w = Writer::new();
    w.begin("")
        .prop("#address-cells", &1u32.to_be_bytes())
        .prop("#size-cells", &1u32.to_be_bytes())
        .prop("interrupt-parent", &7u32.to_be_bytes())
        .begin("intc@1000")
        .prop("phandle", &7u32.to_be_bytes())
        .prop("interrupt-controller", &[])
        .prop("#interrupt-cells", &2u32.to_be_bytes())
        .end()
        .begin("bridge")
        .prop("interrupt-parent", &7u32.to_be_bytes())
        .prop("phandle", &8u32.to_be_bytes())
        .end()
        .begin("uart@2000")
        .prop("reg", &[0, 0, 0x20, 0, 0, 0, 1, 0])
        .prop("interrupts", &[0, 0, 0, 1, 0, 0, 0, 2, 0, 0, 0, 3, 0, 0, 0, 4])
        .end()
        .begin("dev")
        .prop("interrupts-extended", &[0, 0, 0, 8, 0, 0, 0, 5, 0, 0, 0, 6])
        .end()
        .begin("broken")
        .prop("interrupts", &[0, 0, 0, 1])
        .prop("interrupt-parent", &9u32.to_be_bytes())
        .end()
        .end()
        .finish();
    w.blob(&[])
}

#[test]
fn parse_reads_the_whole_tree() {
    let blob = sample();
    let dt = Devicetree::from_addr(ADDR, &blob).unwrap();
    let tree = dt.parse().unwrap();
    let root = tree.root_node();
    assert_eq!(root.name(), "");
    assert!(root.parent().is_none());
    let props = root.properties();
    assert_eq!(props.len(), 3);
    assert_eq!(props[0].name(), "#address-cells");
    assert_eq!(props[2].raw_value(), b"acme,board\0acme,soc\0");
    let children = root.children();
    assert_eq!(children.len(), 2);
    assert_eq!(children[0].name(), "memory");
    assert_eq!(children[0].address(), Some("80000000"));
    assert_eq!(children[1].name(), "cpus");
    assert_eq!(children[1].address(), None);
    let cpu = children[1].children()[0];
    assert_eq!(cpu.name(), "cpu");
    assert_eq!(cpu.parent().unwrap().name(), "cpus");
    assert_eq!(cpu.parent().unwrap().parent().unwrap().name(), "");
    assert!(cpu.children().is_empty());
}

#[test]
fn parse_reports_broken_structure() {
    let mut w = Writer::new();
    w.begin("").begin("child").end().finish();
    let blob = w.blob(&[]);
    let dt = Devicetree::from_addr(ADDR, &blob).unwrap();
    assert!(matches!(dt.parse(), Err(ParseStructError::MissingEndNodeToken)));
    let mut w = Writer::new();
    w.prop("x", &[]).finish();
    let blob = w.blob(&[]);
    let dt = Devicetree::from_addr(ADDR, &blob).unwrap();
    assert!(matches!(dt.parse(), Err(ParseStructError::MissingBeginNodeToken)));
}

#[test]
fn paths_of_parsed_nodes() {
    let blob = sample();
    let dt = Devicetree::from_addr(ADDR, &blob).unwrap();
    let tree = dt.parse().unwrap();
    let root = tree.root_node();
    assert_eq!(root.path(), "/");
    let children = root.children();
    assert_eq!(children[0].path(), "/memory@80000000");
    let cpu = children[1].children()[0];
    assert_eq!(cpu.path(), "/cpus/cpu@0");
}

#[test]
fn find_nodes_by_path() {
    let blob = sample();
    let dt = Devicetree::from_addr(ADDR, &blob).unwrap();
    let tree = dt.parse().unwrap();
    assert_eq!(tree.find_node_by_path("/").unwrap().path(), "/");
    assert_eq!(tree.find_node_by_path("").unwrap().path(), "/");
    assert_eq!(tree.find_node_by_path("/cpus/cpu@0").unwrap().path(), "/cpus/cpu@0");
    assert_eq!(tree.find_node_by_path("/cpus/./cpu@0/").unwrap().path(), "/cpus/cpu@0");
    assert_eq!(
        tree.find_node_by_path("/cpus/cpu@0/../../memory@80000000").unwrap().path(),
        "/memory@80000000"
    );
    assert!(tree.find_node_by_path("/cpus/cpu").is_none());
    assert!(tree.find_node_by_path("/memory").is_none());
    assert!(tree.find_node_by_path("/..").is_none());
    assert!(tree.find_node_by_path("/nothing").is_none());
}

#[test]
fn parsed_properties_and_phandles() {
    let blob = sample();
    let dt = Devicetree::from_addr(ADDR, &blob).unwrap();
    let tree = dt.parse().unwrap();
    let root = tree.root_node();
    assert_eq!(root.address_cells().unwrap(), 2);
    assert_eq!(root.size_cells().unwrap(), 1);
    assert!(matches!(
        root.interrupt_cells(),
        Err(PropertyError::MissingProperty { name }) if name == "#interrupt-cells"
    ));
    assert!(root.is_compatible_to("acme,soc"));
    assert!(root.is_compatible_to("acme,board"));
    assert!(!root.is_compatible_to("acme"));
    assert!(!root.children()[0].is_compatible_to("acme,soc"));
    assert_eq!(root.fetch_property("compatible").unwrap().name(), "compatible");
    assert!(root.find_property("model").is_none());
    assert!(matches!(
        root.fetch_property_as::<Phandle>("compatible"),
        Err(PropertyError::ParseProperty { name, source: ParsePropertyValueError::InvalidValueLength { expected: 4, actual: 20 } })
            if name == "compatible"
    ));
    assert_eq!(root.find_property_as::<u32>("#size-cells").unwrap(), Some(1));
    assert_eq!(root.find_property_as::<u32>("missing").unwrap(), None);
    let memory = root.children()[0];
    assert_eq!(memory.find_common_property_as::<u32>("#size-cells").unwrap(), Some(1));
    assert_eq!(memory.fetch_common_property_as::<u32>("#address-cells").unwrap(), 2);
    assert!(matches!(
        memory.fetch_common_property_as::<u32>("missing"),
        Err(PropertyError::MissingProperty { name }) if name == "missing"
    ));
    let cpu = tree.get_node_by_phandle(Phandle(1)).unwrap();
    assert_eq!(cpu.path(), "/cpus/cpu@0");
    assert_eq!(cpu.phandle().unwrap(), Phandle(1));
    assert!(cpu.is_interrupt_controller());
    assert!(!memory.is_interrupt_controller());
    assert!(tree.get_node_by_phandle(Phandle(2)).is_none());
    assert!(matches!(memory.phandle(), Err(PropertyError::MissingProperty { .. })));
}

#[test]
fn parsed_reg() {
    let blob = sample();
    let dt = Devicetree::from_addr(ADDR, &blob).unwrap();
    let tree = dt.parse().unwrap();
    let root = tree.root_node();
    let memory = root.children()[0];
    let mut reg = memory.reg().unwrap();
    assert_eq!(reg.next(), Some(Reg { address: 0x8000_0000, size: 0x1000 }));
    assert_eq!(reg.next(), None);
    assert!(matches!(root.reg(), Err(PropertyError::MissingParentNode)));
    let cpus = root.children()[1];
    assert!(matches!(
        cpus.reg(),
        Err(PropertyError::MissingProperty { name }) if name == "reg"
    ));
    let cpu = cpus.children()[0];
    assert!(matches!(
        cpu.reg(),
        Err(PropertyError::MissingProperty { name }) if name == "#address-cells"
    ));
}

#[test]
fn parsed_interrupts() {
    let blob = interrupt_sample();
    let dt = Devicetree::from_addr(ADDR, &blob).unwrap();
    let tree = dt.parse().unwrap();
    let uart = tree.find_node_by_path("/uart@2000").unwrap();
    let mut reg = uart.reg().unwrap();
    assert_eq!(reg.next(), Some(Reg { address: 0x2000, size: 0x100 }));
    let parent = uart.interrupt_parent_node().unwrap().unwrap();
    assert_eq!(parent.path(), "/");
    let interrupts = uart.interrupts().unwrap();
    assert_eq!(interrupts.len(), 2);
    assert_eq!(interrupts[0].interrupt_domain_root.path(), "/intc@1000");
    assert_eq!(interrupts[0].interrupt_parent.path(), "/");
    assert_eq!(interrupts[0].specifier, vec![1, 2]);
    assert_eq!(interrupts[1].specifier, vec![3, 4]);

    let dev = tree.find_node_by_path("/dev").unwrap();
    let interrupts = dev.interrupts().unwrap();
    assert_eq!(interrupts.len(), 1);
    assert_eq!(interrupts[0].interrupt_parent.path(), "/bridge");
    assert_eq!(interrupts[0].interrupt_domain_root.path(), "/intc@1000");
    assert_eq!(interrupts[0].specifier, vec![5, 6]);

    let bridge = tree.find_node_by_path("/bridge").unwrap();
    assert_eq!(bridge.interrupt_parent().unwrap(), Some(Phandle(7)));
    assert!(matches!(
        bridge.interrupts(),
        Err(PropertyError::MissingProperty { name }) if name == "interrupts or interrupts-extended"
    ));

    let broken = tree.find_node_by_path("/broken").unwrap();
    assert!(matches!(
        broken.interrupt_parent_node(),
        Err(PropertyError::InvalidPhandle { phandle: Phandle(9) })
    ));
    assert!(matches!(broken.interrupts(), Err(PropertyError::InvalidPhandle { .. })));
}

#[test]
fn node_text_of_parsed_tree() {
    let blob = sample();
    let dt = Devicetree::from_addr(ADDR, &blob).unwrap();
    let tree = dt.parse().unwrap();
    let text = tree.root_node().to_text().unwrap();
    let expected = "\n/ {\n    #address-cells = <0x02>;\n    #size-cells = <0x01>;\n    \
        compatible = \"acme,board\", \"acme,soc\";\n\n    memory@80000000 {\n        \
        device_type = \"memory\";\n        \
        reg = <0x00 0x00 0x00 0x00 0x80 0x00 0x00 0x00 0x00 0x00 0x10 0x00>;\n    };\n\n    \
        cpus {\n\n        cpu@0 {\n            phandle = <0x01>;\n            \
        interrupt-controller = <empty>;\n        };\n    };\n};\n";
    assert_eq!(text, expected);
    let cpu = tree.get_node_by_phandle(Phandle(1)).unwrap();
    assert_eq!(
        cpu.to_text().unwrap(),
        "\ncpu@0 {\n    phandle = <0x01>;\n    interrupt-controller = <empty>;\n};\n"
    );
}

#[test]
fn node_text_fails_on_bad_value() {
    let mut w = Writer::new();
    w.begin("").prop("#address-cells", &[1, 2]).end().finish();
    let blob = w.blob(&[]);
    let dt = Devicetree::from_addr(ADDR, &blob).unwrap();
    let tree = dt.parse().unwrap();
    assert!(tree.root_node().to_text().is_none());
}

#[test]
fn property_value_text() {
    assert_eq!(PropertyValue::Empty.to_text(), "<empty>");
    assert_eq!(PropertyValue::U32(0x1234).to_text(), "<0x1234>");
    assert_eq!(PropertyValue::U32(0).to_text(), "<0x00>");
    assert_eq!(PropertyValue::U64(0x1_0000_000f).to_text(), "<0x10000000f>");
    assert_eq!(PropertyValue::Phandle(Phandle(0xab)).to_text(), "<0xab>");
    assert_eq!(PropertyValue::String("a\"b").to_text(), "\"a\\\"b\"");
    assert_eq!(PropertyValue::Unknown(&[]).to_text(), "<>");
    assert_eq!(PropertyValue::PropEncodedArray(&[0xde, 0xad, 7]).to_text(), "<0xde 0xad 0x07>");
    let prop = Property::new("compatible", b"x\0y\0");
    let list = prop.parse_value::<StringList>().unwrap();
    assert_eq!(list.to_text(), "\"x\", \"y\"");
    assert_eq!(PropertyValue::StringList(list).to_text(), "\"x\", \"y\"");
}

#[test]
fn every_path_leads_back_to_its_node() {
    let blob = interrupt_sample();
    let dt = Devicetree::from_addr(ADDR, &blob).unwrap();
    let tree = dt.parse().unwrap();
    let mut pending = vec![tree.root_node()];
    let mut seen = 0;
    while let Some(node) = pending.pop() {
        let path = node.path();
        let found = tree.find_node_by_path(&path).unwrap();
        assert_eq!(found.path(), path);
        assert_eq!(found.name(), node.name());
        assert_eq!(found.address(), node.address());
        seen += 1;
        pending.extend(node.children());
    }
    assert_eq!(seen, 6);
}

#[test]
fn reg_entries_read_from_either_end() {
    let bytes: Vec<u8> = (1u32..=6).flat_map(|x| x.to_be_bytes()).collect();
    let prop = Property::new("reg", &bytes);
    let mut front = Vec::new();
    let mut it = prop.parse_value_as_reg(1, 1).unwrap();
    while let Some(r) = it.next() {
        front.push(r);
    }
    let mut back = Vec::new();
    let mut it = prop.parse_value_as_reg(1, 1).unwrap();
    while let Some(r) = it.next_back() {
        back.push(r);
    }
    back.reverse();
    assert_eq!(front, back);
    assert_eq!(front.len(), 3);
    let mut it = prop.parse_value_as_reg(1, 1).unwrap();
    assert_eq!(it.next_back(), Some(Reg { address: 5, size: 6 }));
    assert_eq!(it.next(), Some(Reg { address: 1, size: 2 }));
    assert_eq!(it.len(), 1);
    assert_eq!(it.next_back(), Some(Reg { address: 3, size: 4 }));
    assert_eq!(it.next(), None);
}

// Each error of reading a devicetree describes itself in words.
#[test]
fn devicetree_error_messages() {
    assert_eq!(
        HeaderValidationError::InvalidMagic { magic: 3490578157 }.message(),
        "invalid magic number: 3490578157"
    );
    assert_eq!(
        HeaderValidationError::IncompatibleVersion { version: 1, last_comp_version: 16 }.message(),
        "incompatible device tree version: version=1, last_comp_version=16"
    );
    assert_eq!(
        HeaderValidationError::InvalidLayout {
            totalsize: 0x100,
            off_dt_struct: 0x38,
            off_dt_strings: 0xf0,
            off_mem_rsvmap: 0x28,
            size_dt_strings: 0x10,
            size_dt_struct: 0xb8,
        }
        .message(),
        "invalid device tree layout: totalsize=0x100, off_dt_struct=0x38, off_dt_strings=0xf0, \
         off_mem_rsvmap=0x28, size_dt_strings=0x10, size_dt_struct=0xb8"
    );
    assert_eq!(
        HeaderValidationError::InvalidToken { token: 0xa, offset: 12 }.message(),
        "invalid token: 0xa at offset 12"
    );
    assert_eq!(
        StructLexerError::InvalidToken { token: 0x161, offset: 5 }.message(),
        "invalid token: 0x161 at offset 5"
    );
    assert_eq!(
        StructLexerError::InvalidStringInStructBlock { offset: 4 }.message(),
        "invalid string in structure block at offset 4"
    );
    assert_eq!(
        StructLexerError::InvalidStringInStringsBlock { offset: 0 }.message(),
        "invalid string in strings block at offset 0"
    );
    assert_eq!(
        StructLexerError::MissingPropHeader { offset: 20 }.message(),
        "missing prop header at offset 20"
    );
    assert_eq!(
        StructLexerError::UnexpectedEndOfStructBlock { offset: 8 }.message(),
        "unexpected end of struct block at offset 8"
    );
    assert_eq!(
        StructLexerError::UnexpectedEndOfStringsBlock { offset: 9 }.message(),
        "unexpected end of strings block at offset 9"
    );
    assert_eq!(
        CreateError::InvalidAddressAlignment { addr: 0x8004 }.message(),
        "invalid aligned address: 0x8004"
    );
    assert_eq!(
        CreateError::InvalidHeader { source: HeaderValidationError::InvalidMagic { magic: 0 } }
            .message(),
        "invalid device tree header"
    );
    assert_eq!(
        ParseStructError::Lexer { source: StructLexerError::MissingPropHeader { offset: 20 } }
            .message(),
        "invalid struct token: missing prop header at offset 20"
    );
    assert_eq!(ParseStructError::MissingBeginNodeToken.message(), "missing begin node token");
    assert_eq!(ParseStructError::MissingEndNodeToken.message(), "missing end node token");
    assert_eq!(ParseStructError::UnexpectedPropToken.message(), "unexpected property token");
    assert_eq!(
        GetPropertyError::ParseStruct { source: ParseStructError::MissingEndNodeToken }.message(),
        "invalid struct: missing end node token"
    );
    assert_eq!(
        GetPropertyError::ParsePropertyValue { source: ParsePropertyValueError::ValueLengthIsTooSmall }
            .message(),
        "invalid property value: value length is too small"
    );
    assert_eq!(
        GetPropertyError::MissingParentProperty { name: "#address-cells" }.message(),
        "missing property `#address-cells` in parent node"
    );
    assert_eq!(
        GetPropertyError::InvalidParentProperty { name: "#size-cells" }.message(),
        "invalid property `#size-cells` in parent node"
    );
    assert_eq!(
        GetPropertyError::InvalidValueLength { name: "reg", len: 12 }.message(),
        "invalid `reg` value length: 12"
    );
    assert_eq!(ParsePropertyValueError::MissingNulInString.message(), "missing nul in <string>");
    assert_eq!(ParsePropertyValueError::Utf8.message(), "invalid <string>");
    assert_eq!(
        ParsePropertyValueError::InvalidValueLength { expected: 4, actual: 3 }.message(),
        "invalid value length. expected: 4, actual: 3"
    );
    assert_eq!(
        ParsePropertyValueError::ValueLengthIsNotMultipleOf { unit: 8, len: 12 }.message(),
        "value length is not multiple of `8`: length: 12"
    );
    assert_eq!(ParsePropertyValueError::ValueLengthIsTooLarge.message(), "value length is too large");
    assert_eq!(
        ParsePropertyValueError::InvalidAddressCells { address_cells: 3 }.message(),
        "invalid `#address-cells`: 3"
    );
    assert_eq!(
        ParsePropertyValueError::InvalidSizeCells { size_cells: 0 }.message(),
        "invalid `#size-cells`: 0"
    );
    assert_eq!(
        ParsePropertyValueError::Either {
            left: Box::new(ParsePropertyValueError::ValueLengthIsTooSmall),
            right: Box::new(ParsePropertyValueError::InvalidValueLength { expected: 8, actual: 2 }),
        }
        .message(),
        "value cannot be parsed: value length is too small, invalid value length. expected: 8, actual: 2"
    );
    assert_eq!(
        PropertyError::MissingProperty { name: "compatible".to_string() }.message(),
        "missing property `compatible`"
    );
    assert_eq!(
        PropertyError::ParseProperty {
            name: "reg".to_string(),
            source: ParsePropertyValueError::ValueLengthIsTooSmall,
        }
        .message(),
        "failed to parse property `reg`"
    );
    assert_eq!(PropertyError::MissingParentNode.message(), "missing parent node");
    assert_eq!(
        PropertyError::MissingInterruptParentNode.message(),
        "missing interrupt parent node"
    );
    assert_eq!(
        PropertyError::InvalidPhandle { phandle: Phandle(7) }.message(),
        "invalid phandle `7`"
    );
}

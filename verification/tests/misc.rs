use onixlib::ansi_term::{Color, WithFg};
use onixlib::devtree::de::{
    deserialize_bool_property, deserialize_byte_str_list_property, deserialize_byte_str_property,
    deserialize_empty_property, deserialize_property_as_usize_via_u32, deserialize_status_property,
    deserialize_u32_property, deserialize_u64_or_u32_property, deserialize_u64_property,
    DeserializeError, DeserializeErrorKind, DeserializeNodeError, DeserializeNodeErrorKind,
    DeserializePropertyError, DeserializePropertyErrorKind, ItemDeserializer, NodeCell, PropertyCell,
    Status,
};
use onixlib::devtree::node::Node;
use onixlib::devtree::property::Property;
use onixlib::devicetree::property::Phandle;
use onixlib::macro_support::{
    check_field_kinds, check_lifetime_name, Counter, Fallback, FieldKind, FieldKindsError,
    LifetimeNameError,
};

#[test]
fn colour_codes() {
    assert_eq!(Color::Red.fg(), 31);
    assert_eq!(Color::LightRed.fg(), 91);
    assert_eq!(Color::Purple.fg(), Color::Magenta.fg());
    assert_eq!(Color::LightPurple.fg(), 95);
    assert_eq!(Color::Default.fg(), 39);
    assert_eq!(Color::LightGray.code(), (7, true));
    let w = WithFg::new(Color::Green, "ok");
    assert_eq!(w.start_sequence(), b"\x1b[32;1m");
    assert_eq!(w.end_sequence(), b"\x1b[0m");
    assert_eq!(*w.value(), "ok");
    assert_eq!(w.color(), Color::Green);
    let light = WithFg::new(Color::LightCyan, 1);
    assert_eq!(light.start_sequence(), b"\x1b[96;1m");
}

#[test]
fn counter_counts_up() {
    let mut c = Counter::new();
    assert_eq!(c.get(), 0);
    assert_eq!(c.get(), 1);
    assert_eq!(c.get(), 2);
    let mut d = Counter::default();
    assert_eq!(d.get(), 0);
    assert_eq!(Fallback::default(), Fallback::NoFallback);
}

#[test]
fn lifetime_names() {
    assert_eq!(check_lifetime_name("'blob"), Ok(()));
    assert_eq!(check_lifetime_name("blob"), Err(LifetimeNameError::MissingApostrophe));
    assert_eq!(check_lifetime_name(""), Err(LifetimeNameError::MissingApostrophe));
    assert_eq!(check_lifetime_name("'"), Err(LifetimeNameError::Empty));
}

#[test]
fn error_constructors() {
    let prop = Property::new(b"reg", &[1, 2, 3]);
    let node = Node::new(b"dev@1");
    assert_eq!(
        *DeserializePropertyError::value_length_mismatch(&prop, 8).kind(),
        DeserializePropertyErrorKind::ValueLengthMismatch { expected: 8, actual: 3 }
    );
    assert_eq!(
        *DeserializePropertyError::value_length_is_not_multiple_of(&prop, 2).kind(),
        DeserializePropertyErrorKind::ValueLengthIsNotMultipleOf { expected_unit: 2, actual: 3 }
    );
    assert_eq!(
        *DeserializePropertyError::missing_nul_in_string_value(&prop).kind(),
        DeserializePropertyErrorKind::MissingNulInStringValue
    );
    assert_eq!(
        *DeserializePropertyError::invalid_string_value(&prop).kind(),
        DeserializePropertyErrorKind::InvalidStringValue
    );
    assert_eq!(
        *DeserializePropertyError::custom(&prop, "bad").kind(),
        DeserializePropertyErrorKind::Custom { message: "bad" }
    );
    assert_eq!(
        *DeserializeNodeError::missing_property(&node, "reg").kind(),
        DeserializeNodeErrorKind::MissingProperty { property_name: "reg" }
    );
    assert_eq!(
        *DeserializeNodeError::duplicated_property(&node, "reg").kind(),
        DeserializeNodeErrorKind::DuplicatedProperty { property_name: "reg" }
    );
    assert_eq!(
        *DeserializeNodeError::missing_child(&node, "cpu").kind(),
        DeserializeNodeErrorKind::MissingChild { child_name: "cpu" }
    );
    assert_eq!(
        *DeserializeNodeError::duplicated_child(&node, "cpu").kind(),
        DeserializeNodeErrorKind::DuplicatedChild { child_name: "cpu" }
    );
    assert_eq!(
        *DeserializeNodeError::missing_parent_node(&node).kind(),
        DeserializeNodeErrorKind::MissingParentNode
    );
    assert_eq!(
        *DeserializeNodeError::custom(&node, "x").kind(),
        DeserializeNodeErrorKind::Custom { message: "x" }
    );
    assert_eq!(*DeserializeError::clone_not_supported().kind(), DeserializeErrorKind::CloneNotSupported);
    assert_eq!(
        *DeserializeError::missing_phandle_node(Phandle(3)).kind(),
        DeserializeErrorKind::MissingPhandleNode { phandle: Phandle(3) }
    );
    assert_eq!(*DeserializeError::custom("c").kind(), DeserializeErrorKind::Custom { message: "c" });
    let e: DeserializeError = DeserializeNodeError::missing_parent_node(&node).into();
    assert!(matches!(e.kind(), DeserializeErrorKind::DeserializeNode { .. }));
    let e: DeserializeError = DeserializePropertyError::custom(&prop, "p").into();
    assert!(matches!(e.kind(), DeserializeErrorKind::DeserializeProperty { .. }));
}

#[test]
fn item_deserializer() {
    let p: ItemDeserializer<u8, &str> = ItemDeserializer::Property(1);
    assert!(p.is_property());
    assert!(!p.is_node());
    assert_eq!(p.as_property(), Some(&1));
    assert_eq!(p.as_node(), None);
    assert_eq!(p.into_property(), Some(1));
    let n: ItemDeserializer<u8, &str> = ItemDeserializer::Node("n");
    assert_eq!(n.as_node(), Some(&"n"));
    assert_eq!(n.into_node(), Some("n"));
}

#[test]
fn value_decoding() {
    let flag = Property::new(b"dma-coherent", b"");
    assert_eq!(deserialize_bool_property(&flag), Ok(true));
    assert_eq!(deserialize_empty_property(&flag), Ok(()));
    let four = Property::new(b"n", &[0, 0, 1, 0]);
    assert_eq!(deserialize_u32_property(&four), Ok(256));
    assert_eq!(deserialize_property_as_usize_via_u32(&four), Ok(256));
    assert_eq!(deserialize_u64_or_u32_property(&four), Ok(256));
    assert!(deserialize_bool_property(&four).is_err());
    let eight = Property::new(b"n", &[0, 0, 0, 1, 0, 0, 0, 0]);
    assert_eq!(deserialize_u64_property(&eight), Ok(1 << 32));
    assert_eq!(deserialize_u64_or_u32_property(&eight), Ok(1 << 32));
    assert_eq!(
        deserialize_u32_property(&eight).unwrap_err().kind(),
        &DeserializePropertyErrorKind::ValueLengthMismatch { expected: 4, actual: 8 }
    );
    let odd = Property::new(b"n", &[1, 2, 3]);
    assert_eq!(
        deserialize_u64_or_u32_property(&odd).unwrap_err().kind(),
        &DeserializePropertyErrorKind::Custom { message: "u32 or u64 expected" }
    );
    let s = Property::new(b"model", b"abc\0def\0");
    assert_eq!(deserialize_byte_str_property(&s), Ok(&b"abc"[..]));
    assert_eq!(deserialize_byte_str_list_property(&s), Ok(&b"abc\0def"[..]));
    let no_nul = Property::new(b"model", b"abc");
    assert_eq!(
        deserialize_byte_str_property(&no_nul).unwrap_err().kind(),
        &DeserializePropertyErrorKind::MissingNulInStringValue
    );
}

#[test]
fn status_values() {
    for (bytes, status) in [
        (&b"okay\0"[..], Status::Okay),
        (b"disabled\0", Status::Disabled),
        (b"reserved\0", Status::Reserved),
        (b"fail\0", Status::Fail),
        (b"fail-sss\0", Status::FailSss),
    ] {
        assert_eq!(deserialize_status_property(&Property::new(b"status", bytes)), Ok(status));
    }
    assert_eq!(
        deserialize_status_property(&Property::new(b"status", b"broken\0")).unwrap_err().kind(),
        &DeserializePropertyErrorKind::Custom { message: "invalid status" }
    );
}

#[test]
fn property_cells() {
    let node = Node::new(b"dev");
    let mut cell: PropertyCell<u32> = PropertyCell::new(node, "reg");
    assert!(!cell.has_value());
    assert!(cell.set(1).is_ok());
    assert!(cell.has_value());
    let err = cell.set(2).unwrap_err();
    assert!(matches!(err.kind(), DeserializeErrorKind::DeserializeNode { .. }));
    assert_eq!(cell.finish().unwrap(), 1);
    let empty: PropertyCell<u32> = PropertyCell::new(node, "reg");
    assert!(empty.finish().is_err());
    let empty: PropertyCell<u32> = PropertyCell::new(node, "reg");
    assert_eq!(empty.finish_or(7), 7);
    let empty: PropertyCell<u32> = PropertyCell::new(node, "reg");
    assert_eq!(empty.finish_or_default(), 0);
    let empty: PropertyCell<u32> = PropertyCell::new(node, "reg");
    assert_eq!(empty.finish_or_else(|| 9), 9);
    let mut full: PropertyCell<u32> = PropertyCell::new(node, "reg");
    full.set(3).unwrap();
    assert_eq!(full.finish_or_else(|| 9), 3);
}

#[test]
fn node_cells() {
    let node = Node::new(b"cpus");
    let mut cell: NodeCell<u32> = NodeCell::new(node, "cpus");
    assert!(!cell.has_value());
    assert!(cell.set(4).is_ok());
    assert!(cell.has_value());
    let err = cell.set(5).unwrap_err();
    match err.kind() {
        DeserializeErrorKind::DeserializeNode { source } => assert_eq!(
            *source.kind(),
            DeserializeNodeErrorKind::DuplicatedChild { child_name: "cpus" }
        ),
        _ => panic!("unexpected error"),
    }
    assert_eq!(cell.finish().unwrap(), 4);
    let empty: NodeCell<u32> = NodeCell::new(node, "cpus");
    match empty.finish().unwrap_err().kind() {
        DeserializeErrorKind::DeserializeNode { source } => assert_eq!(
            *source.kind(),
            DeserializeNodeErrorKind::MissingChild { child_name: "cpus" }
        ),
        _ => panic!("unexpected error"),
    }
    let empty: NodeCell<u32> = NodeCell::new(node, "cpus");
    assert_eq!(empty.finish_or_default(), 0);
}

// The errors of decoding describe themselves in words.
#[test]
fn deserialize_error_messages() {
    let p = Property::new(b"reg", b"12345");
    let e = DeserializePropertyError::value_length_is_not_multiple_of(&p, 4);
    assert_eq!(
        e.kind(),
        &DeserializePropertyErrorKind::ValueLengthIsNotMultipleOf { expected_unit: 4, actual: 5 }
    );
    assert_eq!(e.kind().message(), "value length is not multiple of 4, got 5");
    assert_eq!(
        DeserializePropertyError::value_length_mismatch(&p, 8).kind().message(),
        "expected value length is 8, got 5"
    );
    assert_eq!(
        DeserializePropertyError::missing_nul_in_string_value(&p).kind().message(),
        "missing nul character in string value"
    );
    assert_eq!(
        DeserializePropertyError::invalid_string_value(&p).kind().message(),
        "invalid string value"
    );
    assert_eq!(DeserializePropertyError::custom(&p, "odd value").kind().message(), "odd value");
    assert_eq!(
        DeserializeError::clone_not_supported().kind().message(),
        "deserializer does not support cloning"
    );
    assert_eq!(DeserializeError::custom("something else").kind().message(), "something else");
    assert_eq!(
        DeserializeError::missing_phandle_node(Phandle(42)).kind().message(),
        "no node with phandle=42"
    );
    assert_eq!(
        DeserializeError::from(e).kind().message(),
        "failed to deserialize devicetree property"
    );
    assert_eq!(
        DeserializeNodeErrorKind::MissingProperty { property_name: "reg" }.message(),
        "missing property: `reg`"
    );
    assert_eq!(
        DeserializeNodeErrorKind::DuplicatedProperty { property_name: "reg" }.message(),
        "duplicated property: `reg`"
    );
    assert_eq!(
        DeserializeNodeErrorKind::MissingChild { child_name: "cpus" }.message(),
        "missing child: `cpus`"
    );
    assert_eq!(
        DeserializeNodeErrorKind::DuplicatedChild { child_name: "cpus" }.message(),
        "duplicated child: `cpus`"
    );
    assert_eq!(DeserializeNodeErrorKind::MissingParentNode.message(), "no parent node");
    assert_eq!(DeserializeNodeErrorKind::Custom { message: "bad node" }.message(), "bad node");
    assert_eq!(
        DeserializeErrorKind::DeserializeNode {
            source: DeserializeNodeError::new(DeserializeNodeErrorKind::MissingParentNode)
        }
        .message(),
        "failed to deserialize devicetree node"
    );
}

// At most one field takes the remaining properties, and at most one the
// remaining children.
#[test]
fn field_kinds_check() {
    assert_eq!(check_field_kinds(&[]), Ok(()));
    assert_eq!(
        check_field_kinds(&[FieldKind::Node, FieldKind::Property, FieldKind::ExtraProperties, FieldKind::Child, FieldKind::RepeatedChildren, FieldKind::ExtraChildren]),
        Ok(())
    );
    assert_eq!(
        check_field_kinds(&[FieldKind::ExtraProperties, FieldKind::Child, FieldKind::ExtraProperties]),
        Err(FieldKindsError::DuplicateExtraProperties)
    );
    assert_eq!(
        check_field_kinds(&[FieldKind::ExtraChildren, FieldKind::ExtraProperties, FieldKind::ExtraChildren, FieldKind::ExtraProperties]),
        Err(FieldKindsError::DuplicateExtraChildren)
    );
    assert_eq!(
        FieldKindsError::DuplicateExtraProperties.message(),
        "only one field can be marked as extra_properties"
    );
    assert_eq!(
        FieldKindsError::DuplicateExtraChildren.message(),
        "only one field can be marked as extra_children"
    );
}

// A refused lifetime name is described with the string quoted.
#[test]
fn lifetime_name_messages() {
    assert_eq!(check_lifetime_name("blob"), Err(LifetimeNameError::MissingApostrophe));
    assert_eq!(
        LifetimeNameError::MissingApostrophe.message("blob"),
        "lifetime name must start with apostrophe as in \"'blob\", got \"blob\""
    );
    assert_eq!(LifetimeNameError::Empty.message("'"), "lifetime name must not be empty");
}

//! Decoding nodes and properties into values: the errors of decoding, the
//! decoding of property values, and the cells that collect the properties of
//! a node being decoded.
use vstd::prelude::*;

use super::node::Node;
use super::property::Property;
use super::util::{split_once, rsplit_once, be_u32_at, bytes_eq};
use crate::devicetree::property::Phandle;

verus! {

use super::util::{be_u32, be_u64, is_first_index_of, is_last_index_of};
use crate::devicetree::text::{dec_text, push_dec};

/// Why a node could not be decoded.
#[derive(Debug, Clone, Copy, PartialEq, Eq)]
#[non_exhaustive]
pub enum DeserializeNodeErrorKind {
    /// The node lacks the property `property_name`.
    MissingProperty { property_name: &'static str },
    /// The node holds the property `property_name` twice.
    DuplicatedProperty { property_name: &'static str },
    /// The node lacks the child `child_name`.
    MissingChild { child_name: &'static str },
    /// The node holds the child `child_name` twice.
    DuplicatedChild { child_name: &'static str },
    /// The node has no parent.
    MissingParentNode,
    /// Another reason, in words.
    Custom { message: &'static str },
}

/// Why a property value could not be decoded.
#[derive(Debug, Clone, Copy, PartialEq, Eq)]
#[non_exhaustive]
pub enum DeserializePropertyErrorKind {
    /// The value has `actual` bytes where `expected` were needed.
    ValueLengthMismatch { expected: usize, actual: usize },
    /// The value's length `actual` is not a multiple of `expected_unit`.
    ValueLengthIsNotMultipleOf { expected_unit: usize, actual: usize },
    /// A string value has no NUL byte.
    MissingNulInStringValue,
    /// A string value is not UTF-8.
    InvalidStringValue,
    /// Another reason, in words.
    Custom { message: &'static str },
}

impl DeserializeNodeErrorKind {
    /// The text that describes the reason.
    pub open spec fn spec_message(&self) -> Seq<char> {
        match *self {
            DeserializeNodeErrorKind::MissingProperty { property_name } => "missing property: `"@
                + property_name@ + "`"@,
            DeserializeNodeErrorKind::DuplicatedProperty { property_name } =>
                "duplicated property: `"@ + property_name@ + "`"@,
            DeserializeNodeErrorKind::MissingChild { child_name } => "missing child: `"@ + child_name@
                + "`"@,
            DeserializeNodeErrorKind::DuplicatedChild { child_name } => "duplicated child: `"@
                + child_name@ + "`"@,
            DeserializeNodeErrorKind::MissingParentNode => "no parent node"@,
            DeserializeNodeErrorKind::Custom { message } => message@,
        }
    }

    /// The text that describes the reason.
    pub fn message(&self) -> (r: String)
        ensures
            r@ == self.spec_message(),
    {
        let mut s = String::new();
        match *self {
            DeserializeNodeErrorKind::MissingProperty { property_name } => {
                s.append("missing property: `");
                s.append(property_name);
                s.append("`");
            },
            DeserializeNodeErrorKind::DuplicatedProperty { property_name } => {
                s.append("duplicated property: `");
                s.append(property_name);
                s.append("`");
            },
            DeserializeNodeErrorKind::MissingChild { child_name } => {
                s.append("missing child: `");
                s.append(child_name);
                s.append("`");
            },
            DeserializeNodeErrorKind::DuplicatedChild { child_name } => {
                s.append("duplicated child: `");
                s.append(child_name);
                s.append("`");
            },
            DeserializeNodeErrorKind::MissingParentNode => {
                s.append("no parent node");
            },
            DeserializeNodeErrorKind::Custom { message } => {
                s.append(message);
            },
        }
        s
    }
}

impl DeserializePropertyErrorKind {
    /// The text that describes the reason.
    pub open spec fn spec_message(&self) -> Seq<char> {
        match *self {
            DeserializePropertyErrorKind::ValueLengthMismatch { expected, actual } =>
                "expected value length is "@ + dec_text(expected as nat) + ", got "@ + dec_text(
                actual as nat,
            ),
            DeserializePropertyErrorKind::ValueLengthIsNotMultipleOf { expected_unit, actual } =>
                "value length is not multiple of "@ + dec_text(expected_unit as nat) + ", got "@
                + dec_text(actual as nat),
            DeserializePropertyErrorKind::MissingNulInStringValue =>
                "missing nul character in string value"@,
            DeserializePropertyErrorKind::InvalidStringValue => "invalid string value"@,
            DeserializePropertyErrorKind::Custom { message } => message@,
        }
    }

    /// The text that describes the reason.
    pub fn message(&self) -> (r: String)
        ensures
            r@ == self.spec_message(),
    {
        let mut s = String::new();
        match *self {
            DeserializePropertyErrorKind::ValueLengthMismatch { expected, actual } => {
                s.append("expected value length is ");
                push_dec(&mut s, expected as u64);
                s.append(", got ");
                push_dec(&mut s, actual as u64);
            },
            DeserializePropertyErrorKind::ValueLengthIsNotMultipleOf { expected_unit, actual } => {
                s.append("value length is not multiple of ");
                push_dec(&mut s, expected_unit as u64);
                s.append(", got ");
                push_dec(&mut s, actual as u64);
            },
            DeserializePropertyErrorKind::MissingNulInStringValue => {
                s.append("missing nul character in string value");
            },
            DeserializePropertyErrorKind::InvalidStringValue => {
                s.append("invalid string value");
            },
            DeserializePropertyErrorKind::Custom { message } => {
                s.append(message);
            },
        }
        s
    }
}

/// An error of decoding a property value.
#[derive(Debug, Clone, Copy, PartialEq, Eq)]
pub struct DeserializePropertyError {
    kind: DeserializePropertyErrorKind,
}

/// An error of decoding a node.
#[derive(Debug, Clone, Copy, PartialEq, Eq)]
pub struct DeserializeNodeError {
    kind: DeserializeNodeErrorKind,
}

/// Why decoding failed.
#[derive(Debug, Clone, Copy, PartialEq, Eq)]
#[non_exhaustive]
pub enum DeserializeErrorKind {
    /// A property value could not be decoded.
    DeserializeProperty { source: DeserializePropertyError },
    /// A node could not be decoded.
    DeserializeNode { source: DeserializeNodeError },
    /// The deserializer cannot be cloned.
    CloneNotSupported,
    /// No node has the phandle `phandle`.
    MissingPhandleNode { phandle: Phandle },
    /// Another reason, in words.
    Custom { message: &'static str },
}

impl DeserializeErrorKind {
    /// The text that describes the reason; a phandle is written as its
    /// number in decimal.
    pub open spec fn spec_message(&self) -> Seq<char> {
        match *self {
            DeserializeErrorKind::DeserializeProperty { .. } =>
                "failed to deserialize devicetree property"@,
            DeserializeErrorKind::DeserializeNode { .. } => "failed to deserialize devicetree node"@,
            DeserializeErrorKind::CloneNotSupported => "deserializer does not support cloning"@,
            DeserializeErrorKind::MissingPhandleNode { phandle } => "no node with phandle="@
                + dec_text(phandle.0 as nat),
            DeserializeErrorKind::Custom { message } => message@,
        }
    }

    /// The text that describes the reason.
    pub fn message(&self) -> (r: String)
        ensures
            r@ == self.spec_message(),
    {
        let mut s = String::new();
        match *self {
            DeserializeErrorKind::DeserializeProperty { .. } => {
                s.append("failed to deserialize devicetree property");
            },
            DeserializeErrorKind::DeserializeNode { .. } => {
                s.append("failed to deserialize devicetree node");
            },
            DeserializeErrorKind::CloneNotSupported => {
                s.append("deserializer does not support cloning");
            },
            DeserializeErrorKind::MissingPhandleNode { phandle } => {
                s.append("no node with phandle=");
                push_dec(&mut s, phandle.0 as u64);
            },
            DeserializeErrorKind::Custom { message } => {
                s.append(message);
            },
        }
        s
    }
}

/// An error of decoding.
#[derive(Debug, Clone, Copy, PartialEq, Eq)]
pub struct DeserializeError {
    kind: DeserializeErrorKind,
}

impl DeserializeError {
    /// The reason.
    pub closed spec fn spec_kind(&self) -> DeserializeErrorKind {
        self.kind
    }

    /// The error of the reason `kind`.
    pub fn new(kind: DeserializeErrorKind) -> (r: Self)
        ensures
            r.spec_kind() == kind,
    {
        DeserializeError { kind }
    }

    /// The reason.
    pub fn kind(&self) -> (r: &DeserializeErrorKind)
        ensures
            *r == self.spec_kind(),
    {
        &self.kind
    }

    /// The deserializer cannot be cloned.
    pub fn clone_not_supported() -> (r: Self)
        ensures
            r.spec_kind() == DeserializeErrorKind::CloneNotSupported,
    {
        DeserializeError { kind: DeserializeErrorKind::CloneNotSupported }
    }

    /// No node has the phandle `phandle`.
    pub fn missing_phandle_node(phandle: Phandle) -> (r: Self)
        ensures
            r.spec_kind() == (DeserializeErrorKind::MissingPhandleNode { phandle }),
    {
        DeserializeError { kind: DeserializeErrorKind::MissingPhandleNode { phandle } }
    }

    /// Another reason, in words.
    pub fn custom(message: &'static str) -> (r: Self)
        ensures
            r.spec_kind() == (DeserializeErrorKind::Custom { message }),
    {
        DeserializeError { kind: DeserializeErrorKind::Custom { message } }
    }
}

impl From<DeserializePropertyError> for DeserializeError {
    fn from(source: DeserializePropertyError) -> (r: Self) {
        DeserializeError { kind: DeserializeErrorKind::DeserializeProperty { source } }
    }
}

impl vstd::std_specs::convert::FromSpecImpl<DeserializePropertyError> for DeserializeError {
    open spec fn obeys_from_spec() -> bool {
        true
    }

    closed spec fn from_spec(source: DeserializePropertyError) -> Self {
        DeserializeError { kind: DeserializeErrorKind::DeserializeProperty { source } }
    }
}

impl From<DeserializeNodeError> for DeserializeError {
    fn from(source: DeserializeNodeError) -> (r: Self) {
        DeserializeError { kind: DeserializeErrorKind::DeserializeNode { source } }
    }
}

impl vstd::std_specs::convert::FromSpecImpl<DeserializeNodeError> for DeserializeError {
    open spec fn obeys_from_spec() -> bool {
        true
    }

    closed spec fn from_spec(source: DeserializeNodeError) -> Self {
        DeserializeError { kind: DeserializeErrorKind::DeserializeNode { source } }
    }
}

impl DeserializePropertyError {
    /// The reason.
    pub closed spec fn spec_kind(&self) -> DeserializePropertyErrorKind {
        self.kind
    }

    /// The error of the reason `kind`.
    pub fn new(kind: DeserializePropertyErrorKind) -> (r: Self)
        ensures
            r.spec_kind() == kind,
    {
        DeserializePropertyError { kind }
    }

    /// The reason.
    pub fn kind(&self) -> (r: &DeserializePropertyErrorKind)
        ensures
            *r == self.spec_kind(),
    {
        &self.kind
    }

    /// The value of `property` should have `expected` bytes.
    pub fn value_length_mismatch(property: &Property<'_>, expected: usize) -> (r: Self)
        ensures
            r.spec_kind() == (DeserializePropertyErrorKind::ValueLengthMismatch {
                expected,
                actual: property.spec_value().len() as usize,
            }),
    {
        let actual = property.value().len();
        DeserializePropertyError {
            kind: DeserializePropertyErrorKind::ValueLengthMismatch { expected, actual },
        }
    }

    /// The length of the value of `property` should be a multiple of
    /// `expected_unit`.
    pub fn value_length_is_not_multiple_of(property: &Property<'_>, expected_unit: usize) -> (r:
        Self)
        ensures
            r.spec_kind() == (DeserializePropertyErrorKind::ValueLengthIsNotMultipleOf {
                expected_unit,
                actual: property.spec_value().len() as usize,
            }),
    {
        let actual = property.value().len();
        DeserializePropertyError {
            kind: DeserializePropertyErrorKind::ValueLengthIsNotMultipleOf { expected_unit, actual },
        }
    }

    /// The string value of the property has no NUL byte.
    pub fn missing_nul_in_string_value(_property: &Property<'_>) -> (r: Self)
        ensures
            r.spec_kind() == DeserializePropertyErrorKind::MissingNulInStringValue,
    {
        DeserializePropertyError { kind: DeserializePropertyErrorKind::MissingNulInStringValue }
    }

    /// The string value of the property is not UTF-8.
    pub fn invalid_string_value(_property: &Property<'_>) -> (r: Self)
        ensures
            r.spec_kind() == DeserializePropertyErrorKind::InvalidStringValue,
    {
        DeserializePropertyError { kind: DeserializePropertyErrorKind::InvalidStringValue }
    }

    /// Another reason, in words.
    pub fn custom(_property: &Property<'_>, message: &'static str) -> (r: Self)
        ensures
            r.spec_kind() == (DeserializePropertyErrorKind::Custom { message }),
    {
        DeserializePropertyError { kind: DeserializePropertyErrorKind::Custom { message } }
    }
}

impl DeserializeNodeError {
    /// The reason.
    pub closed spec fn spec_kind(&self) -> DeserializeNodeErrorKind {
        self.kind
    }

    /// The error of the reason `kind`.
    pub fn new(kind: DeserializeNodeErrorKind) -> (r: Self)
        ensures
            r.spec_kind() == kind,
    {
        DeserializeNodeError { kind }
    }

    /// The reason.
    pub fn kind(&self) -> (r: &DeserializeNodeErrorKind)
        ensures
            *r == self.spec_kind(),
    {
        &self.kind
    }

    /// The node lacks the property `name`.
    pub fn missing_property(_node: &Node<'_>, name: &'static str) -> (r: Self)
        ensures
            r.spec_kind() == (DeserializeNodeErrorKind::MissingProperty { property_name: name }),
    {
        DeserializeNodeError { kind: DeserializeNodeErrorKind::MissingProperty { property_name: name } }
    }

    /// The node holds the property `name` twice.
    pub fn duplicated_property(_node: &Node<'_>, name: &'static str) -> (r: Self)
        ensures
            r.spec_kind() == (DeserializeNodeErrorKind::DuplicatedProperty { property_name: name }),
    {
        DeserializeNodeError {
            kind: DeserializeNodeErrorKind::DuplicatedProperty { property_name: name },
        }
    }

    /// The node lacks the child `name`.
    pub fn missing_child(_node: &Node<'_>, name: &'static str) -> (r: Self)
        ensures
            r.spec_kind() == (DeserializeNodeErrorKind::MissingChild { child_name: name }),
    {
        DeserializeNodeError { kind: DeserializeNodeErrorKind::MissingChild { child_name: name } }
    }

    /// The node holds the child `name` twice.
    pub fn duplicated_child(_node: &Node<'_>, name: &'static str) -> (r: Self)
        ensures
            r.spec_kind() == (DeserializeNodeErrorKind::DuplicatedChild { child_name: name }),
    {
        DeserializeNodeError { kind: DeserializeNodeErrorKind::DuplicatedChild { child_name: name } }
    }

    /// The node has no parent.
    pub fn missing_parent_node(_node: &Node<'_>) -> (r: Self)
        ensures
            r.spec_kind() == DeserializeNodeErrorKind::MissingParentNode,
    {
        DeserializeNodeError { kind: DeserializeNodeErrorKind::MissingParentNode }
    }

    /// Another reason, in words.
    pub fn custom(_node: &Node<'_>, message: &'static str) -> (r: Self)
        ensures
            r.spec_kind() == (DeserializeNodeErrorKind::Custom { message }),
    {
        DeserializeNodeError { kind: DeserializeNodeErrorKind::Custom { message } }
    }
}

/// What reads the next item of a node: a property or a child node.
#[derive(Debug)]
pub enum ItemDeserializer<PD, ND> {
    Property(PD),
    Node(ND),
}

impl<PD, ND> ItemDeserializer<PD, ND> {
    /// Whether it reads a property.
    pub fn is_property(&self) -> (r: bool)
        ensures
            r == (self is Property),
    {
        match self {
            ItemDeserializer::Property(_) => true,
            ItemDeserializer::Node(_) => false,
        }
    }

    /// Whether it reads a node.
    pub fn is_node(&self) -> (r: bool)
        ensures
            r == (self is Node),
    {
        match self {
            ItemDeserializer::Property(_) => false,
            ItemDeserializer::Node(_) => true,
        }
    }

    /// The property deserializer, if it is one.
    pub fn as_property(&self) -> (r: Option<&PD>)
        ensures
            match self {
                ItemDeserializer::Property(de) => r == Some(de),
                ItemDeserializer::Node(_) => r is None,
            },
    {
        match self {
            ItemDeserializer::Property(de) => Some(de),
            ItemDeserializer::Node(_) => None,
        }
    }

    /// The node deserializer, if it is one.
    pub fn as_node(&self) -> (r: Option<&ND>)
        ensures
            match self {
                ItemDeserializer::Property(_) => r is None,
                ItemDeserializer::Node(de) => r == Some(de),
            },
    {
        match self {
            ItemDeserializer::Property(_) => None,
            ItemDeserializer::Node(de) => Some(de),
        }
    }

    /// The property deserializer, if it is one.
    pub fn into_property(self) -> (r: Option<PD>)
        ensures
            match self {
                ItemDeserializer::Property(de) => r == Some(de),
                ItemDeserializer::Node(_) => r is None,
            },
    {
        match self {
            ItemDeserializer::Property(de) => Some(de),
            ItemDeserializer::Node(_) => None,
        }
    }

    /// The node deserializer, if it is one.
    pub fn into_node(self) -> (r: Option<ND>)
        ensures
            match self {
                ItemDeserializer::Property(_) => r is None,
                ItemDeserializer::Node(de) => r == Some(de),
            },
    {
        match self {
            ItemDeserializer::Property(_) => None,
            ItemDeserializer::Node(de) => Some(de),
        }
    }
}

/// The status of a device, from its `status` property.
#[derive(Debug, Clone, Copy, PartialEq, Eq, Structural)]
pub enum Status {
    /// `okay`: the device works.
    Okay,
    /// `disabled`: the device is not in use.
    Disabled,
    /// `reserved`: the device works but must not be used.
    Reserved,
    /// `fail`: the device has failed.
    Fail,
    /// `fail-sss`: the device has failed, with a code.
    FailSss,
}

/// The bytes of a string value: those before its first NUL.
pub open spec fn spec_until_first_nul(value: Seq<u8>) -> Option<Seq<u8>> {
    if exists|i: int| is_first_index_of(value, 0, i) {
        let i = choose|i: int| is_first_index_of(value, 0, i);
        Some(value.take(i))
    } else {
        None
    }
}

/// The bytes of a string-list value: those before its last NUL.
pub open spec fn spec_until_last_nul(value: Seq<u8>) -> Option<Seq<u8>> {
    if exists|i: int| is_last_index_of(value, 0, i) {
        let i = choose|i: int| is_last_index_of(value, 0, i);
        Some(value.take(i))
    } else {
        None
    }
}

/// The status named by `s`.
pub open spec fn spec_status(s: Seq<u8>) -> Option<Status> {
    if s == seq![0x6fu8, 0x6b, 0x61, 0x79] {
        Some(Status::Okay)
    } else if s == seq![0x64u8, 0x69, 0x73, 0x61, 0x62, 0x6c, 0x65, 0x64] {
        Some(Status::Disabled)
    } else if s == seq![0x72u8, 0x65, 0x73, 0x65, 0x72, 0x76, 0x65, 0x64] {
        Some(Status::Reserved)
    } else if s == seq![0x66u8, 0x61, 0x69, 0x6c] {
        Some(Status::Fail)
    } else if s == seq![0x66u8, 0x61, 0x69, 0x6c, 0x2d, 0x73, 0x73, 0x73] {
        Some(Status::FailSss)
    } else {
        None
    }
}

/// The error of a value whose length is not `expected`.
pub open spec fn length_error(value: Seq<u8>, expected: usize) -> DeserializePropertyErrorKind {
    DeserializePropertyErrorKind::ValueLengthMismatch { expected, actual: value.len() as usize }
}

/// Decodes an empty value: a flag that is set.
pub fn deserialize_bool_property(property: &Property<'_>) -> (r: Result<bool, DeserializePropertyError>)
    ensures
        property.spec_value().len() == 0 ==> r == Ok::<bool, DeserializePropertyError>(true),
        property.spec_value().len() != 0 ==> (r matches Err(e) && e.spec_kind() == length_error(
            property.spec_value(),
            0,
        )),
{
    if property.value().len() != 0 {
        return Err(DeserializePropertyError::value_length_mismatch(property, 0));
    }
    Ok(true)
}

/// Decodes an empty value.
pub fn deserialize_empty_property(property: &Property<'_>) -> (r: Result<(), DeserializePropertyError>)
    ensures
        property.spec_value().len() == 0 ==> r is Ok,
        property.spec_value().len() != 0 ==> (r matches Err(e) && e.spec_kind() == length_error(
            property.spec_value(),
            0,
        )),
{
    if property.value().len() != 0 {
        return Err(DeserializePropertyError::value_length_mismatch(property, 0));
    }
    Ok(())
}

/// Decodes a big-endian `u32` value of exactly four bytes.
pub fn deserialize_u32_property(property: &Property<'_>) -> (r: Result<u32, DeserializePropertyError>)
    ensures
        property.spec_value().len() == 4 ==> r == Ok::<u32, DeserializePropertyError>(
            be_u32(property.spec_value(), 0),
        ),
        property.spec_value().len() != 4 ==> (r matches Err(e) && e.spec_kind() == length_error(
            property.spec_value(),
            4,
        )),
{
    let v = property.value();
    if v.len() != 4 {
        return Err(DeserializePropertyError::value_length_mismatch(property, 4));
    }
    Ok(be_u32_at(v, 0))
}

/// Decodes a big-endian `u64` value of exactly eight bytes.
pub fn deserialize_u64_property(property: &Property<'_>) -> (r: Result<u64, DeserializePropertyError>)
    ensures
        property.spec_value().len() == 8 ==> r == Ok::<u64, DeserializePropertyError>(
            be_u64(property.spec_value(), 0),
        ),
        property.spec_value().len() != 8 ==> (r matches Err(e) && e.spec_kind() == length_error(
            property.spec_value(),
            8,
        )),
{
    let v = property.value();
    if v.len() != 8 {
        return Err(DeserializePropertyError::value_length_mismatch(property, 8));
    }
    let hi = be_u32_at(v, 0) as u64;
    let lo = be_u32_at(v, 4) as u64;
    Ok(hi * 0x1_0000_0000 + lo)
}

/// Decodes a `u32` value as a `usize`.
pub fn deserialize_property_as_usize_via_u32(property: &Property<'_>) -> (r: Result<
    usize,
    DeserializePropertyError,
>)
    ensures
        property.spec_value().len() == 4 ==> r == Ok::<usize, DeserializePropertyError>(
            be_u32(property.spec_value(), 0) as usize,
        ),
        property.spec_value().len() != 4 ==> (r matches Err(e) && e.spec_kind() == length_error(
            property.spec_value(),
            4,
        )),
{
    match deserialize_u32_property(property) {
        Ok(n) => Ok(n as usize),
        Err(e) => Err(e),
    }
}

/// Decodes a value of four or eight big-endian bytes as a `u64`.
pub fn deserialize_u64_or_u32_property(property: &Property<'_>) -> (r: Result<
    u64,
    DeserializePropertyError,
>)
    ensures
        property.spec_value().len() == 4 ==> r == Ok::<u64, DeserializePropertyError>(
            be_u32(property.spec_value(), 0) as u64,
        ),
        property.spec_value().len() == 8 ==> r == Ok::<u64, DeserializePropertyError>(
            be_u64(property.spec_value(), 0),
        ),
        property.spec_value().len() != 4 && property.spec_value().len() != 8 ==> (r matches Err(e)
            && e.spec_kind() == (DeserializePropertyErrorKind::Custom {
            message: "u32 or u64 expected",
        })),
{
    let len = property.value().len();
    if len == 4 {
        match deserialize_u32_property(property) {
            Ok(n) => Ok(n as u64),
            Err(e) => Err(e),
        }
    } else if len == 8 {
        deserialize_u64_property(property)
    } else {
        Err(DeserializePropertyError::custom(property, "u32 or u64 expected"))
    }
}

/// Decodes a string value as the bytes before its first NUL.
pub fn deserialize_byte_str_property<'blob>(property: &Property<'blob>) -> (r: Result<
    &'blob [u8],
    DeserializePropertyError,
>)
    ensures
        match spec_until_first_nul(property.spec_value()) {
            Some(b) => r matches Ok(s) && s@ == b,
            None => r matches Err(e) && e.spec_kind()
                == DeserializePropertyErrorKind::MissingNulInStringValue,
        },
{
    match split_once(property.value(), 0) {
        Some((bytes, _)) => {
            proof {
                let v = property.spec_value();
                let k = choose|i: int| is_first_index_of(v, 0, i);
                if k < bytes@.len() {
                } else if bytes@.len() < k {
                }
            }
            Ok(bytes)
        },
        None => Err(DeserializePropertyError::missing_nul_in_string_value(property)),
    }
}

/// Decodes a string-list value as the bytes before its last NUL.
pub fn deserialize_byte_str_list_property<'blob>(property: &Property<'blob>) -> (r: Result<
    &'blob [u8],
    DeserializePropertyError,
>)
    ensures
        match spec_until_last_nul(property.spec_value()) {
            Some(b) => r matches Ok(s) && s@ == b,
            None => r matches Err(e) && e.spec_kind()
                == DeserializePropertyErrorKind::MissingNulInStringValue,
        },
{
    match rsplit_once(property.value(), 0) {
        Some((bytes, _)) => {
            proof {
                let v = property.spec_value();
                let k = choose|i: int| is_last_index_of(v, 0, i);
                if k < bytes@.len() {
                } else if bytes@.len() < k {
                }
            }
            Ok(bytes)
        },
        None => Err(DeserializePropertyError::missing_nul_in_string_value(property)),
    }
}

/// Decodes a `status` value.
pub fn deserialize_status_property(property: &Property<'_>) -> (r: Result<
    Status,
    DeserializePropertyError,
>)
    ensures
        match spec_until_first_nul(property.spec_value()) {
            None => r matches Err(e) && e.spec_kind()
                == DeserializePropertyErrorKind::MissingNulInStringValue,
            Some(b) => match spec_status(b) {
                Some(s) => r == Ok::<Status, DeserializePropertyError>(s),
                None => r matches Err(e) && e.spec_kind() == (DeserializePropertyErrorKind::Custom {
                    message: "invalid status",
                }),
            },
        },
{
    let s = match deserialize_byte_str_property(property) {
        Ok(s) => s,
        Err(e) => {
            return Err(e);
        },
    };
    let okay: [u8; 4] = [0x6f, 0x6b, 0x61, 0x79];
    let disabled: [u8; 8] = [0x64, 0x69, 0x73, 0x61, 0x62, 0x6c, 0x65, 0x64];
    let reserved: [u8; 8] = [0x72, 0x65, 0x73, 0x65, 0x72, 0x76, 0x65, 0x64];
    let fail: [u8; 4] = [0x66, 0x61, 0x69, 0x6c];
    let fail_sss: [u8; 8] = [0x66, 0x61, 0x69, 0x6c, 0x2d, 0x73, 0x73, 0x73];
    assert(okay@ == seq![0x6fu8, 0x6b, 0x61, 0x79]);
    assert(disabled@ == seq![0x64u8, 0x69, 0x73, 0x61, 0x62, 0x6c, 0x65, 0x64]);
    assert(reserved@ == seq![0x72u8, 0x65, 0x73, 0x65, 0x72, 0x76, 0x65, 0x64]);
    assert(fail@ == seq![0x66u8, 0x61, 0x69, 0x6c]);
    assert(fail_sss@ == seq![0x66u8, 0x61, 0x69, 0x6c, 0x2d, 0x73, 0x73, 0x73]);
    if bytes_eq(s, okay.as_slice()) {
        Ok(Status::Okay)
    } else if bytes_eq(s, disabled.as_slice()) {
        Ok(Status::Disabled)
    } else if bytes_eq(s, reserved.as_slice()) {
        Ok(Status::Reserved)
    } else if bytes_eq(s, fail.as_slice()) {
        Ok(Status::Fail)
    } else if bytes_eq(s, fail_sss.as_slice()) {
        Ok(Status::FailSss)
    } else {
        Err(DeserializePropertyError::custom(property, "invalid status"))
    }
}

/// A property of a node being decoded: empty until the property is met,
/// and an error when it is met twice.
#[derive(Debug)]
pub struct PropertyCell<'blob, T> {
    node: Node<'blob>,
    name: &'static str,
    value: Option<T>,
}

impl<'blob, T> PropertyCell<'blob, T> {
    /// The value held, if any.
    pub closed spec fn spec_value(&self) -> Option<T> {
        self.value
    }

    /// The name of the property.
    pub closed spec fn spec_name(&self) -> &'static str {
        self.name
    }

    /// An empty cell for the property `name` of `node`.
    pub fn new(node: Node<'blob>, name: &'static str) -> (r: Self)
        ensures
            r.spec_value() is None,
            r.spec_name() == name,
    {
        PropertyCell { node, name, value: None }
    }

    /// Whether the property has been met.
    pub fn has_value(&self) -> (r: bool)
        ensures
            r == self.spec_value() is Some,
    {
        self.value.is_some()
    }

    /// Records the value of the property; an error when it was met before.
    pub fn set(&mut self, value: T) -> (r: Result<(), DeserializeError>)
        ensures
            final(self).spec_name() == old(self).spec_name(),
            old(self).spec_value() is None ==> r is Ok && final(self).spec_value() == Some(value),
            old(self).spec_value() is Some ==> {
                &&& final(self).spec_value() == old(self).spec_value()
                &&& r matches Err(e) && e.spec_kind() matches DeserializeErrorKind::DeserializeNode {
                    source,
                } && source.spec_kind() == (DeserializeNodeErrorKind::DuplicatedProperty {
                    property_name: old(self).spec_name(),
                })
            },
    {
        if self.value.is_some() {
            let e = DeserializeNodeError::duplicated_property(&self.node, self.name);
            return Err(DeserializeError::from(e));
        }
        self.value = Some(value);
        Ok(())
    }

    /// The value; an error when the property was not met.
    pub fn finish(self) -> (r: Result<T, DeserializeError>)
        ensures
            self.spec_value() matches Some(v) ==> r == Ok::<T, DeserializeError>(v),
            self.spec_value() is None ==> (r matches Err(e) && e.spec_kind() matches DeserializeErrorKind::DeserializeNode {
                source,
            } && source.spec_kind() == (DeserializeNodeErrorKind::MissingProperty {
                property_name: self.spec_name(),
            })),
    {
        match self.value {
            Some(v) => Ok(v),
            None => {
                let e = DeserializeNodeError::missing_property(&self.node, self.name);
                Err(DeserializeError::from(e))
            },
        }
    }

    /// The value, or `default` when the property was not met.
    pub fn finish_or(self, default: T) -> (r: T)
        ensures
            self.spec_value() matches Some(v) ==> r == v,
            self.spec_value() is None ==> r == default,
    {
        match self.value {
            Some(v) => v,
            None => default,
        }
    }

    /// The value, or `T::default()` when the property was not met. What
    /// `T::default()` gives is up to `T`'s own `Default`.
    pub fn finish_or_default(self) -> (r: T) where T: Default
        ensures
            self.spec_value() matches Some(v) ==> r == v,
    {
        match self.value {
            Some(v) => v,
            None => T::default(),
        }
    }

    /// The value, or what `f` gives when the property was not met.
    pub fn finish_or_else<F: FnOnce() -> T>(self, f: F) -> (r: T)
        requires
            self.spec_value() is None ==> call_requires(f, ()),
        ensures
            self.spec_value() matches Some(v) ==> r == v,
            self.spec_value() is None ==> call_ensures(f, (), r),
    {
        match self.value {
            Some(v) => v,
            None => f(),
        }
    }
}

/// A child of a node being decoded: empty until the child is met, and an
/// error when it is met twice.
#[derive(Debug)]
pub struct NodeCell<'blob, T> {
    node: Node<'blob>,
    name: &'static str,
    value: Option<T>,
}

impl<'blob, T> NodeCell<'blob, T> {
    /// The value held, if any.
    pub closed spec fn spec_value(&self) -> Option<T> {
        self.value
    }

    /// The name of the child.
    pub closed spec fn spec_name(&self) -> &'static str {
        self.name
    }

    /// An empty cell for the child `name` of `node`.
    pub fn new(node: Node<'blob>, name: &'static str) -> (r: Self)
        ensures
            r.spec_value() is None,
            r.spec_name() == name,
    {
        NodeCell { node, name, value: None }
    }

    /// Whether the child has been met.
    pub fn has_value(&self) -> (r: bool)
        ensures
            r == self.spec_value() is Some,
    {
        self.value.is_some()
    }

    /// Records the child; an error when it was met before.
    pub fn set(&mut self, value: T) -> (r: Result<(), DeserializeError>)
        ensures
            final(self).spec_name() == old(self).spec_name(),
            old(self).spec_value() is None ==> r is Ok && final(self).spec_value() == Some(value),
            old(self).spec_value() is Some ==> {
                &&& final(self).spec_value() == old(self).spec_value()
                &&& r matches Err(e) && e.spec_kind() matches DeserializeErrorKind::DeserializeNode {
                    source,
                } && source.spec_kind() == (DeserializeNodeErrorKind::DuplicatedChild {
                    child_name: old(self).spec_name(),
                })
            },
    {
        if self.value.is_some() {
            let e = DeserializeNodeError::duplicated_child(&self.node, self.name);
            return Err(DeserializeError::from(e));
        }
        self.value = Some(value);
        Ok(())
    }

    /// The child; an error when it was not met.
    pub fn finish(self) -> (r: Result<T, DeserializeError>)
        ensures
            self.spec_value() matches Some(v) ==> r == Ok::<T, DeserializeError>(v),
            self.spec_value() is None ==> (r matches Err(e) && e.spec_kind() matches DeserializeErrorKind::DeserializeNode {
                source,
            } && source.spec_kind() == (DeserializeNodeErrorKind::MissingChild {
                child_name: self.spec_name(),
            })),
    {
        match self.value {
            Some(v) => Ok(v),
            None => {
                let e = DeserializeNodeError::missing_child(&self.node, self.name);
                Err(DeserializeError::from(e))
            },
        }
    }

    /// The child, or `T::default()` when it was not met. What `T::default()`
    /// gives is up to `T`'s own `Default`.
    pub fn finish_or_default(self) -> (r: T) where T: Default
        ensures
            self.spec_value() matches Some(v) ==> r == v,
    {
        match self.value {
            Some(v) => v,
            None => T::default(),
        }
    }
}

} // verus!

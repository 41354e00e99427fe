//! Properties of devicetree nodes and the decoding of their values.
//!
//! A property is a name and a value of bytes. What the bytes mean follows
//! from the name: `#address-cells` holds a big-endian `u32`, `compatible` a
//! list of NUL-terminated strings, `reg` an array of address and size cells,
//! and so on.
use vstd::prelude::*;

use super::text::{
    char_index,
    debug_text,
    dec_text,
    push_dec,
    hex_text,
    lemma_char_index,
    lemma_char_index_range,
    lemma_chars_of_bytes,
    push_hex,
    str_debug_text,
    str_eq,
    str_split_once,
    utf8_str,
};
use crate::devtree::util::{position, rposition, be_u32_at};

verus! {

use vstd::utf8::{valid_utf8, decode_utf8};
use vstd::string::{StringExecFns, StringSliceAdditionalSpecFns};
use crate::devtree::util::{be_u32, be_u64, is_first_index_of, is_last_index_of};

/// A reference from one node to another: the value of a `phandle` property.
#[derive(Debug, Clone, Copy, PartialEq, Eq, Structural)]
pub struct Phandle(pub u32);

/// One of two values.
#[derive(Debug, Clone, Copy)]
pub enum Either<L, R> {
    Left(L),
    Right(R),
}

/// Why a property value could not be decoded.
#[derive(Debug)]
pub enum ParsePropertyValueError {
    /// A string value has no NUL byte.
    MissingNulInString,
    /// A string value is not valid UTF-8.
    Utf8,
    /// The value has `actual` bytes where `expected` were needed.
    InvalidValueLength { expected: usize, actual: usize },
    /// The value's length `len` is not a multiple of `unit` cells.
    ValueLengthIsNotMultipleOf { unit: usize, len: usize },
    /// The value is too short.
    ValueLengthIsTooSmall,
    /// The value is too long.
    ValueLengthIsTooLarge,
    /// `#address-cells` is neither 1 nor 2.
    InvalidAddressCells { address_cells: usize },
    /// `#size-cells` is not 0, 1 or 2.
    InvalidSizeCells { size_cells: usize },
    /// Neither of two ways of decoding the value worked.
    Either { left: Box<ParsePropertyValueError>, right: Box<ParsePropertyValueError> },
}

impl ParsePropertyValueError {
    /// The text that describes the error. A UTF-8 error is described
    /// without the position of the bad bytes, which the error does not keep.
    pub open spec fn spec_message(&self) -> Seq<char>
        decreases self,
    {
        match self {
            ParsePropertyValueError::MissingNulInString => "missing nul in <string>"@,
            ParsePropertyValueError::Utf8 => "invalid <string>"@,
            ParsePropertyValueError::InvalidValueLength { expected, actual } =>
                "invalid value length. expected: "@ + dec_text(*expected as nat) + ", actual: "@
                + dec_text(*actual as nat),
            ParsePropertyValueError::ValueLengthIsNotMultipleOf { unit, len } =>
                "value length is not multiple of `"@ + dec_text(*unit as nat) + "`: length: "@
                + dec_text(*len as nat),
            ParsePropertyValueError::ValueLengthIsTooSmall => "value length is too small"@,
            ParsePropertyValueError::ValueLengthIsTooLarge => "value length is too large"@,
            ParsePropertyValueError::InvalidAddressCells { address_cells } =>
                "invalid `#address-cells`: "@ + dec_text(*address_cells as nat),
            ParsePropertyValueError::InvalidSizeCells { size_cells } => "invalid `#size-cells`: "@
                + dec_text(*size_cells as nat),
            ParsePropertyValueError::Either { left, right } => "value cannot be parsed: "@
                + left.spec_message() + ", "@ + right.spec_message(),
        }
    }

    /// The text that describes the error.
    pub fn message(&self) -> (r: String)
        ensures
            r@ == self.spec_message(),
        decreases self,
    {
        let mut s = String::new();
        match self {
            ParsePropertyValueError::MissingNulInString => {
                s.append("missing nul in <string>");
            },
            ParsePropertyValueError::Utf8 => {
                s.append("invalid <string>");
            },
            ParsePropertyValueError::InvalidValueLength { expected, actual } => {
                s.append("invalid value length. expected: ");
                push_dec(&mut s, *expected as u64);
                s.append(", actual: ");
                push_dec(&mut s, *actual as u64);
            },
            ParsePropertyValueError::ValueLengthIsNotMultipleOf { unit, len } => {
                s.append("value length is not multiple of `");
                push_dec(&mut s, *unit as u64);
                s.append("`: length: ");
                push_dec(&mut s, *len as u64);
            },
            ParsePropertyValueError::ValueLengthIsTooSmall => {
                s.append("value length is too small");
            },
            ParsePropertyValueError::ValueLengthIsTooLarge => {
                s.append("value length is too large");
            },
            ParsePropertyValueError::InvalidAddressCells { address_cells } => {
                s.append("invalid `#address-cells`: ");
                push_dec(&mut s, *address_cells as u64);
            },
            ParsePropertyValueError::InvalidSizeCells { size_cells } => {
                s.append("invalid `#size-cells`: ");
                push_dec(&mut s, *size_cells as u64);
            },
            ParsePropertyValueError::Either { left, right } => {
                s.append("value cannot be parsed: ");
                let l = left.message();
                s.append(l.as_str());
                s.append(", ");
                let r = right.message();
                s.append(r.as_str());
            },
        }
        s
    }
}

/// A property: its name and the bytes of its value.
#[derive(Debug, Clone, Copy)]
pub struct Property<'a> {
    name: &'a str,
    value: &'a [u8],
}

/// The bytes of a string value: those before the first NUL, when there is a
/// NUL and they are valid UTF-8.
pub open spec fn spec_string_bytes(value: Seq<u8>) -> Result<Seq<u8>, ParsePropertyValueError> {
    if forall|j: int| 0 <= j < value.len() ==> value[j] != 0 {
        Err(ParsePropertyValueError::MissingNulInString)
    } else {
        let end = choose|i: int| is_first_index_of(value, 0, i);
        let bytes = value.subrange(0, end);
        if valid_utf8(bytes) {
            Ok(bytes)
        } else {
            Err(ParsePropertyValueError::Utf8)
        }
    }
}

/// The bytes of a string-list value: those up to and including the last NUL,
/// when there is a NUL and they are valid UTF-8.
pub open spec fn spec_string_list_bytes(value: Seq<u8>) -> Result<Seq<u8>, ParsePropertyValueError> {
    if forall|j: int| 0 <= j < value.len() ==> value[j] != 0 {
        Err(ParsePropertyValueError::MissingNulInString)
    } else {
        let end = choose|i: int| is_last_index_of(value, 0, i);
        let bytes = value.subrange(0, end + 1);
        if valid_utf8(bytes) {
            Ok(bytes)
        } else {
            Err(ParsePropertyValueError::Utf8)
        }
    }
}

/// A value of exactly `n` bytes, or the length error.
pub open spec fn spec_fixed_len(value: Seq<u8>, n: usize) -> Result<Seq<u8>, ParsePropertyValueError> {
    if value.len() == n {
        Ok(value)
    } else {
        Err(ParsePropertyValueError::InvalidValueLength { expected: n, actual: value.len() as usize })
    }
}

/// A `u32` value: four big-endian bytes.
pub open spec fn spec_parse_u32(value: Seq<u8>) -> Result<u32, ParsePropertyValueError> {
    match spec_fixed_len(value, 4) {
        Ok(v) => Ok(be_u32(v, 0)),
        Err(e) => Err(e),
    }
}

/// A `u64` value: eight big-endian bytes.
pub open spec fn spec_parse_u64(value: Seq<u8>) -> Result<u64, ParsePropertyValueError> {
    match spec_fixed_len(value, 8) {
        Ok(v) => Ok(be_u64(v, 0)),
        Err(e) => Err(e),
    }
}

/// A property value, as plain values; strings by their characters.
pub enum PropertyValueView {
    Empty,
    U32(u32),
    U64(u64),
    String(Seq<char>),
    PropEncodedArray(Seq<u8>),
    Phandle(u32),
    StringList(Seq<char>),
    Unknown(Seq<u8>),
}

/// The value of the property named `name` with bytes `value`, as the names
/// of the Devicetree Specification give it: properties that hold cells, a
/// phandle, a string or a list of strings are decoded, arrays of cells are
/// handed back as bytes, and other properties as unknown bytes.
pub open spec fn spec_property_value(name: Seq<char>, value: Seq<u8>) -> Result<
    PropertyValueView,
    ParsePropertyValueError,
> {
    if name == "interrupt-controller"@ {
        Ok(PropertyValueView::Empty)
    } else if name == "#address-cells"@ || name == "#size-cells"@ || name == "virtual-reg"@
        || name == "#interrupt-cells"@ {
        match spec_parse_u32(value) {
            Ok(n) => Ok(PropertyValueView::U32(n)),
            Err(e) => Err(e),
        }
    } else if name == "compatible"@ {
        match spec_string_list_bytes(value) {
            Ok(b) => Ok(PropertyValueView::StringList(decode_utf8(b))),
            Err(e) => Err(e),
        }
    } else if name == "model"@ || name == "status"@ || name == "name"@ || name == "device_type"@ {
        match spec_string_bytes(value) {
            Ok(b) => Ok(PropertyValueView::String(decode_utf8(b))),
            Err(e) => Err(e),
        }
    } else if name == "phandle"@ || name == "interrupt-parent"@ {
        match spec_parse_u32(value) {
            Ok(n) => Ok(PropertyValueView::Phandle(n)),
            Err(e) => Err(e),
        }
    } else if name == "reg"@ || name == "interrupts"@ || name == "interrupts-extended"@ || name
        == "interrupt-map"@ || name == "interrupt-map-mask"@ {
        Ok(PropertyValueView::PropEncodedArray(value))
    } else if name == "ranges"@ || name == "dma-ranges"@ {
        if value.len() == 0 {
            Ok(PropertyValueView::Empty)
        } else {
            Ok(PropertyValueView::PropEncodedArray(value))
        }
    } else {
        Ok(PropertyValueView::Unknown(value))
    }
}

/// A property that holds a count of cells (`#address-cells`, `#size-cells`,
/// `#interrupt-cells`) or `virtual-reg` decodes a four-byte value as the
/// `U32` of its big-endian number, and refuses a value of any other length.
pub proof fn law_cell_count_values(name: Seq<char>, value: Seq<u8>)
    ensures
        (name == "#address-cells"@ || name == "#size-cells"@ || name == "#interrupt-cells"@ || name
            == "virtual-reg"@) ==> (value.len() == 4 ==> (spec_property_value(name, value) matches Ok(
            PropertyValueView::U32(n)) && n as int == value[0] as int * 0x100_0000 + value[1] as int
            * 0x1_0000 + value[2] as int * 0x100 + value[3] as int)),
        (name == "#address-cells"@ || name == "#size-cells"@ || name == "#interrupt-cells"@ || name
            == "virtual-reg"@) ==> (value.len() != 4 ==> spec_property_value(name, value) is Err),
{
    lemma_be_number(value);
    if name == "#address-cells"@ {
        reveal_strlit("#address-cells");
        reveal_strlit("interrupt-controller");
        assert(name[0] != "interrupt-controller"@[0]);
    } else if name == "#size-cells"@ {
        reveal_strlit("#size-cells");
        reveal_strlit("interrupt-controller");
        assert(name[0] != "interrupt-controller"@[0]);
    } else if name == "#interrupt-cells"@ {
        reveal_strlit("#interrupt-cells");
        reveal_strlit("interrupt-controller");
        assert(name[0] != "interrupt-controller"@[0]);
    } else if name == "virtual-reg"@ {
        reveal_strlit("virtual-reg");
        reveal_strlit("interrupt-controller");
        assert(name[0] != "interrupt-controller"@[0]);
    }
}

/// The big-endian number of four bytes, as `be_u32` reads it.
proof fn lemma_be_number(value: Seq<u8>)
    ensures
        value.len() == 4 ==> be_u32(value, 0) as int == value[0] as int * 0x100_0000 + value[1] as int
            * 0x1_0000 + value[2] as int * 0x100 + value[3] as int,
{
    if value.len() == 4 {
        let x = value[0] as int * 0x100_0000 + value[1] as int * 0x1_0000 + value[2] as int * 0x100
            + value[3] as int;
        assert(0 <= x <= 0xffff_ffff);
    }
}

/// The view of a result of decoding a property value.
pub open spec fn value_result_view(r: Result<PropertyValue, ParsePropertyValueError>) -> Result<
    PropertyValueView,
    ParsePropertyValueError,
> {
    match r {
        Ok(v) => Ok(v@),
        Err(e) => Err(e),
    }
}

impl<'a> Property<'a> {
    /// The name of the property.
    pub closed spec fn spec_name(&self) -> Seq<char> {
        self.name@
    }

    /// The bytes of the value of the property.
    pub closed spec fn spec_value(&self) -> Seq<u8> {
        self.value@
    }

    /// The property `name` with value `value`.
    pub fn new(name: &'a str, value: &'a [u8]) -> (r: Self)
        ensures
            r.spec_name() == name@,
            r.spec_value() == value@,
    {
        Property { name, value }
    }

    /// The name of the property.
    pub fn name(&self) -> (r: &'a str)
        ensures
            r@ == self.spec_name(),
    {
        self.name
    }

    /// The bytes of the value of the property.
    pub fn raw_value(&self) -> (r: &'a [u8])
        ensures
            r@ == self.spec_value(),
    {
        self.value
    }

    /// The value decoded by what the property's name says it holds.
    pub fn value(&self) -> (r: Result<PropertyValue<'a>, ParsePropertyValueError>)
        ensures
            value_result_view(r) == spec_property_value(self.spec_name(), self.spec_value()),
    {
        let name = self.name;
        if str_eq(name, "interrupt-controller") {
            return Ok(PropertyValue::Empty);
        }
        if str_eq(name, "#address-cells") || str_eq(name, "#size-cells") || str_eq(
            name,
            "virtual-reg",
        ) || str_eq(name, "#interrupt-cells") {
            return match self.parse_value::<u32>() {
                Ok(n) => Ok(PropertyValue::U32(n)),
                Err(e) => Err(e),
            };
        }
        if str_eq(name, "compatible") {
            return match self.parse_value::<StringList<'a>>() {
                Ok(l) => Ok(PropertyValue::StringList(l)),
                Err(e) => Err(e),
            };
        }
        if str_eq(name, "model") || str_eq(name, "status") || str_eq(name, "name") || str_eq(
            name,
            "device_type",
        ) {
            return match self.parse_value::<&'a str>() {
                Ok(s) => {
                    proof {
                        lemma_chars_of_bytes(s, s.spec_bytes());
                    }
                    Ok(PropertyValue::String(s))
                },
                Err(e) => Err(e),
            };
        }
        if str_eq(name, "phandle") || str_eq(name, "interrupt-parent") {
            return match self.parse_value::<Phandle>() {
                Ok(p) => Ok(PropertyValue::Phandle(p)),
                Err(e) => Err(e),
            };
        }
        if str_eq(name, "reg") || str_eq(name, "interrupts") || str_eq(name, "interrupts-extended")
            || str_eq(name, "interrupt-map") || str_eq(name, "interrupt-map-mask") {
            return Ok(PropertyValue::PropEncodedArray(self.value));
        }
        if str_eq(name, "ranges") || str_eq(name, "dma-ranges") {
            if self.value.len() == 0 {
                return Ok(PropertyValue::Empty);
            }
            return Ok(PropertyValue::PropEncodedArray(self.value));
        }
        Ok(PropertyValue::Unknown(self.value))
    }

    /// The value decoded as a `T`.
    pub fn parse_value<T: ParsePropertyValue<'a>>(&self) -> (r: Result<T, ParsePropertyValueError>)
        ensures
            T::parses_to(self.spec_value(), r),
    {
        T::parse(self)
    }

    /// The value read as `reg` entries of `address_cells` address cells and
    /// `size_cells` size cells. It fails when `address_cells` is not 1 or 2,
    /// when `size_cells` is not 0, 1 or 2, and when the value is not made of
    /// whole entries.
    pub fn parse_value_as_reg(&self, address_cells: usize, size_cells: usize) -> (r: Result<
        RegIter<'a>,
        ParsePropertyValueError,
    >)
        ensures
            match r {
                Ok(it) => {
                    &&& 1 <= address_cells <= 2
                    &&& size_cells <= 2
                    &&& self.spec_value().len() as int % ((address_cells + size_cells) * 4) == 0
                    &&& it@ == RegIterView {
                        address_cells,
                        size_cells,
                        bytes: self.spec_value(),
                    }
                },
                Err(ParsePropertyValueError::InvalidAddressCells { address_cells: a }) => {
                    &&& !(1 <= address_cells <= 2)
                    &&& a == address_cells
                },
                Err(ParsePropertyValueError::InvalidSizeCells { size_cells: s }) => {
                    &&& 1 <= address_cells <= 2
                    &&& size_cells > 2
                    &&& s == size_cells
                },
                Err(ParsePropertyValueError::ValueLengthIsNotMultipleOf { unit, len }) => {
                    &&& 1 <= address_cells <= 2
                    &&& size_cells <= 2
                    &&& self.spec_value().len() as int % ((address_cells + size_cells) * 4) != 0
                    &&& unit == address_cells + size_cells
                    &&& len == self.spec_value().len()
                },
                Err(_) => false,
            },
    {
        if !(1 <= address_cells && address_cells <= 2) {
            return Err(ParsePropertyValueError::InvalidAddressCells { address_cells });
        }
        if size_cells > 2 {
            return Err(ParsePropertyValueError::InvalidSizeCells { size_cells });
        }
        let unit = address_cells + size_cells;
        if self.value.len() % (unit * 4) != 0 {
            return Err(
                ParsePropertyValueError::ValueLengthIsNotMultipleOf { unit, len: self.value.len() },
            );
        }
        Ok(RegIter { address_cells, size_cells, bytes: self.value })
    }
}

/// Types a property value can be decoded to.
pub trait ParsePropertyValue<'a>: Sized {
    /// Whether `r` is what decoding a value of bytes `value` gives.
    spec fn parses_to(value: Seq<u8>, r: Result<Self, ParsePropertyValueError>) -> bool;

    /// Decodes the value of `prop`.
    fn parse(prop: &Property<'a>) -> (r: Result<Self, ParsePropertyValueError>)
        ensures
            Self::parses_to(prop.spec_value(), r),
    ;
}

/// The big-endian `u32` of the four bytes of `b`.
fn u32_of_bytes(b: &[u8]) -> (r: u32)
    requires
        b@.len() == 4,
    ensures
        r == be_u32(b@, 0),
{
    be_u32_at(b, 0)
}

/// The big-endian `u64` of the eight bytes of `b`.
fn u64_of_bytes(b: &[u8]) -> (r: u64)
    requires
        b@.len() == 8,
    ensures
        r == be_u64(b@, 0),
{
    let hi = be_u32_at(b, 0) as u64;
    let lo = be_u32_at(b, 4) as u64;
    hi * 0x1_0000_0000 + lo
}

impl<'a> ParsePropertyValue<'a> for u32 {
    open spec fn parses_to(value: Seq<u8>, r: Result<u32, ParsePropertyValueError>) -> bool {
        r == spec_parse_u32(value)
    }

    fn parse(prop: &Property<'a>) -> (r: Result<u32, ParsePropertyValueError>) {
        let v = prop.raw_value();
        if v.len() != 4 {
            return Err(ParsePropertyValueError::InvalidValueLength { expected: 4, actual: v.len() });
        }
        Ok(u32_of_bytes(v))
    }
}

impl<'a> ParsePropertyValue<'a> for u64 {
    open spec fn parses_to(value: Seq<u8>, r: Result<u64, ParsePropertyValueError>) -> bool {
        r == spec_parse_u64(value)
    }

    fn parse(prop: &Property<'a>) -> (r: Result<u64, ParsePropertyValueError>) {
        let v = prop.raw_value();
        if v.len() != 8 {
            return Err(ParsePropertyValueError::InvalidValueLength { expected: 8, actual: v.len() });
        }
        Ok(u64_of_bytes(v))
    }
}

impl<'a> ParsePropertyValue<'a> for Phandle {
    open spec fn parses_to(value: Seq<u8>, r: Result<Phandle, ParsePropertyValueError>) -> bool {
        match spec_parse_u32(value) {
            Ok(n) => r == Ok::<Phandle, ParsePropertyValueError>(Phandle(n)),
            Err(e) => r == Err::<Phandle, ParsePropertyValueError>(e),
        }
    }

    fn parse(prop: &Property<'a>) -> (r: Result<Phandle, ParsePropertyValueError>) {
        match prop.parse_value::<u32>() {
            Ok(n) => Ok(Phandle(n)),
            Err(e) => Err(e),
        }
    }
}

impl<'a> ParsePropertyValue<'a> for &'a str {
    open spec fn parses_to(value: Seq<u8>, r: Result<&'a str, ParsePropertyValueError>) -> bool {
        match (spec_string_bytes(value), r) {
            (Ok(b), Ok(s)) => s.spec_bytes() == b,
            (Err(e1), Err(e2)) => e1 == e2,
            _ => false,
        }
    }

    fn parse(prop: &Property<'a>) -> (r: Result<&'a str, ParsePropertyValueError>) {
        let v = prop.raw_value();
        let end = match position(v, 0) {
            Some(end) => end,
            None => {
                return Err(ParsePropertyValueError::MissingNulInString);
            },
        };
        proof {
            let k = choose|i: int| is_first_index_of(v@, 0, i);
            if k < end {
            } else if end < k {
            }
        }
        let bytes = &v[0..end];
        match utf8_str(bytes) {
            Some(s) => Ok(s),
            None => Err(ParsePropertyValueError::Utf8),
        }
    }
}

impl<'a> ParsePropertyValue<'a> for StringList<'a> {
    open spec fn parses_to(value: Seq<u8>, r: Result<StringList<'a>, ParsePropertyValueError>) -> bool {
        match (spec_string_list_bytes(value), r) {
            (Ok(b), Ok(l)) => l@ == decode_utf8(b),
            (Err(e1), Err(e2)) => e1 == e2,
            _ => false,
        }
    }

    fn parse(prop: &Property<'a>) -> (r: Result<StringList<'a>, ParsePropertyValueError>) {
        let v = prop.raw_value();
        let end = match rposition(v, 0) {
            Some(end) => end,
            None => {
                return Err(ParsePropertyValueError::MissingNulInString);
            },
        };
        proof {
            let k = choose|i: int| is_last_index_of(v@, 0, i);
            if k < end {
            } else if end < k {
            }
        }
        assert(end < v.len());
        let bytes = &v[0..end + 1];
        match utf8_str(bytes) {
            Some(s) => {
                proof {
                    lemma_chars_of_bytes(s, bytes@);
                    lemma_last_char_nul(bytes@);
                }
                Ok(StringList { value: s })
            },
            None => Err(ParsePropertyValueError::Utf8),
        }
    }
}

impl<'a, L: ParsePropertyValue<'a>, R: ParsePropertyValue<'a>> ParsePropertyValue<'a> for Either<
    L,
    R,
> {
    open spec fn parses_to(value: Seq<u8>, r: Result<Either<L, R>, ParsePropertyValueError>) -> bool {
        match r {
            Ok(Either::Left(l)) => L::parses_to(value, Ok(l)),
            Ok(Either::Right(x)) => {
                &&& exists|e: ParsePropertyValueError| L::parses_to(value, Err(e))
                &&& R::parses_to(value, Ok(x))
            },
            Err(ParsePropertyValueError::Either { left, right }) => {
                &&& L::parses_to(value, Err(*left))
                &&& R::parses_to(value, Err(*right))
            },
            Err(_) => false,
        }
    }

    fn parse(prop: &Property<'a>) -> (r: Result<Either<L, R>, ParsePropertyValueError>) {
        let left = match L::parse(prop) {
            Ok(value) => {
                return Ok(Either::Left(value));
            },
            Err(e) => e,
        };
        let right = match R::parse(prop) {
            Ok(value) => {
                return Ok(Either::Right(value));
            },
            Err(e) => e,
        };
        Err(ParsePropertyValueError::Either { left: Box::new(left), right: Box::new(right) })
    }
}

/// The last byte of a valid UTF-8 sequence that ends with a NUL decodes to a
/// NUL character.
proof fn lemma_last_char_nul(bytes: Seq<u8>)
    requires
        valid_utf8(bytes),
        bytes.len() > 0,
        bytes.last() == 0,
    ensures
        decode_utf8(bytes).len() > 0,
        decode_utf8(bytes).last() == '\0',
{
    let n = bytes.len() - 1;
    vstd::utf8::is_char_boundary_iff_not_is_continuation_byte(bytes, n);
    vstd::utf8::valid_utf8_split(bytes, n);
    vstd::utf8::decode_utf8_split(bytes, n);
    let tail = bytes.subrange(n, bytes.len() as int);
    assert(tail =~= seq![0u8]);
    let z = seq![0u8];
    assert(vstd::utf8::length_of_first_scalar(z) == 1);
    assert(vstd::utf8::pop_first_scalar(z) =~= Seq::<u8>::empty());
    assert(vstd::utf8::valid_utf8(Seq::<u8>::empty()));
    assert(vstd::utf8::valid_utf8(z));
    assert((0u8 & 0x7Fu8) == 0u8) by (bit_vector);
    assert(vstd::utf8::decode_first_scalar(z) == 0);
    assert(decode_utf8(Seq::<u8>::empty()) =~= Seq::<char>::empty());
    assert(decode_utf8(z) == seq![(0u32) as char] + decode_utf8(Seq::<u8>::empty()));
    vstd::utf8::char_u32_cast('\0', 0u32);
    assert(decode_utf8(z) =~= seq!['\0']);
}

/// A register region: `size` bytes from `address`.
#[derive(Debug, Clone, Copy, PartialEq, Eq, Structural)]
pub struct Reg {
    /// The first address of the region.
    pub address: usize,
    /// The size of the region in bytes.
    pub size: usize,
}

impl Reg {
    /// The addresses of the region; the end saturates at `usize::MAX`.
    pub fn range(&self) -> (r: core::ops::Range<usize>)
        ensures
            r.start == self.address,
            r.end == (if self.address + self.size > usize::MAX {
                usize::MAX as int
            } else {
                self.address + self.size
            }),
    {
        self.address..self.address.saturating_add(self.size)
    }
}

/// A `reg` value as plain values.
pub struct RegIterView {
    pub address_cells: usize,
    pub size_cells: usize,
    pub bytes: Seq<u8>,
}

/// The number held by `cells` 32-bit cells at `off` of `b` (1 or 2 cells).
pub open spec fn spec_cells(b: Seq<u8>, off: int, cells: usize) -> u64 {
    if cells == 1 {
        be_u32(b, off) as u64
    } else {
        be_u64(b, off)
    }
}

/// The entry at `off` of a `reg` value.
pub open spec fn spec_reg_at(b: Seq<u8>, off: int, address_cells: usize, size_cells: usize) -> Reg {
    Reg {
        address: spec_cells(b, off, address_cells) as usize,
        size: if size_cells == 0 {
            0
        } else {
            spec_cells(b, off + address_cells * 4, size_cells) as usize
        },
    }
}

/// A `reg` value that can be read: 1 or 2 address cells, at most 2 size
/// cells, and whole entries.
pub open spec fn reg_iter_wf(v: RegIterView) -> bool {
    &&& 1 <= v.address_cells <= 2
    &&& v.size_cells <= 2
    &&& v.bytes.len() as int % ((v.address_cells + v.size_cells) * 4) == 0
}

/// The entries of a `reg` value, in order.
pub open spec fn spec_regs(v: RegIterView) -> Seq<Reg> {
    let unit = (v.address_cells + v.size_cells) * 4;
    Seq::new(
        (v.bytes.len() as int / unit) as nat,
        |k: int| spec_reg_at(v.bytes, k * unit, v.address_cells, v.size_cells),
    )
}

/// The big-endian number of the four bytes at `off` of `b`.
pub open spec fn word_at(b: Seq<u8>, off: int) -> int {
    b[off] as int * 0x100_0000 + b[off + 1] as int * 0x1_0000 + b[off + 2] as int * 0x100 + b[off
        + 3] as int
}

/// A readable `reg` value holds whole entries of `#address-cells +
/// #size-cells` cells; with one address cell the `k`-th entry's address is
/// the word that starts the entry, with one size cell its size is the word
/// after the address, and with no size cells its size is 0.
pub proof fn law_reg_entry_cells(v: RegIterView, k: int)
    requires
        reg_iter_wf(v),
        0 <= k < spec_regs(v).len(),
    ensures
        spec_regs(v).len() * ((v.address_cells + v.size_cells) * 4) == v.bytes.len(),
        v.address_cells == 1 ==> spec_regs(v)[k].address as int == word_at(
            v.bytes,
            k * ((1 + v.size_cells) * 4),
        ),
        v.size_cells == 0 ==> spec_regs(v)[k].size == 0,
        v.address_cells == 1 && v.size_cells == 1 ==> spec_regs(v)[k].size as int == word_at(
            v.bytes,
            k * 8 + 4,
        ),
{
    let unit = (v.address_cells + v.size_cells) * 4;
    vstd::arithmetic::div_mod::lemma_fundamental_div_mod(v.bytes.len() as int, unit);
    let q = v.bytes.len() as int / unit;
    assert(spec_regs(v).len() == q);
    assert(q * unit == v.bytes.len()) by (nonlinear_arith)
        requires
            v.bytes.len() == unit * q + v.bytes.len() as int % unit,
            v.bytes.len() as int % unit == 0,
    ;
    let off = k * unit;
    lemma_word_fits(v.bytes, off);
    lemma_word_fits(v.bytes, off + 4);
    if v.address_cells == 1 && v.size_cells == 1 {
        assert(k * 8 + 4 == off + 4);
    }
}

/// The big-endian word at `off` is what `be_u32` reads there, and fits in
/// 32 bits.
proof fn lemma_word_fits(b: Seq<u8>, off: int)
    ensures
        0 <= word_at(b, off) <= 0xffff_ffff,
        be_u32(b, off) as int == word_at(b, off),
{
}

/// An entry read within the first `n` bytes, or after the first `u` bytes,
/// reads the same from the whole value.
proof fn lemma_reg_at_sub(b: Seq<u8>, u: int, n: int, off: int, ac: usize, sc: usize)
    requires
        1 <= ac <= 2,
        sc <= 2,
        0 <= u,
        0 <= off,
        u + off + (ac + sc) * 4 <= n <= b.len(),
    ensures
        spec_reg_at(b.subrange(u, n), off, ac, sc) == spec_reg_at(b, u + off, ac, sc),
{
    let c = b.subrange(u, n);
    assert(c[off] == b[u + off] && c[off + 1] == b[u + off + 1] && c[off + 2] == b[u + off + 2]
        && c[off + 3] == b[u + off + 3]);
    if ac == 2 {
        assert(c[off + 4] == b[u + off + 4] && c[off + 5] == b[u + off + 5] && c[off + 6] == b[u
            + off + 6] && c[off + 7] == b[u + off + 7]);
    }
    let a4 = off + ac * 4;
    if sc > 0 {
        assert(c[a4] == b[u + a4] && c[a4 + 1] == b[u + a4 + 1] && c[a4 + 2] == b[u + a4 + 2]
            && c[a4 + 3] == b[u + a4 + 3]);
        if sc == 2 {
            assert(c[a4 + 4] == b[u + a4 + 4] && c[a4 + 5] == b[u + a4 + 5] && c[a4 + 6] == b[u
                + a4 + 6] && c[a4 + 7] == b[u + a4 + 7]);
        }
    }
}

/// Reading one entry from the front or from the back of a readable `reg`
/// value that is not empty takes the first or the last of its entries and
/// leaves the others, in order.
pub proof fn law_reg_entries_from_either_end(v: RegIterView)
    requires
        reg_iter_wf(v),
        v.bytes.len() > 0,
    ensures
        ({
            let u = (v.address_cells + v.size_cells) * 4;
            let front = RegIterView { bytes: v.bytes.skip(u), ..v };
            let back = RegIterView { bytes: v.bytes.take(v.bytes.len() - u), ..v };
            &&& spec_regs(v).len() > 0
            &&& v.bytes.len() >= u
            &&& spec_regs(v)[0] == spec_reg_at(v.bytes, 0, v.address_cells, v.size_cells)
            &&& spec_regs(v).last() == spec_reg_at(
                v.bytes,
                v.bytes.len() - u,
                v.address_cells,
                v.size_cells,
            )
            &&& reg_iter_wf(front)
            &&& reg_iter_wf(back)
            &&& spec_regs(front) == spec_regs(v).drop_first()
            &&& spec_regs(back) == spec_regs(v).drop_last()
        }),
{
    let ac = v.address_cells;
    let sc = v.size_cells;
    let b = v.bytes;
    let n = b.len() as int;
    let u = (ac + sc) * 4;
    let m = n / u;
    assert(m >= 1 && m * u == n && u <= n && (n - u) / u == m - 1 && (n - u) % u == 0) by (nonlinear_arith)
        requires
            n > 0,
            u > 0,
            n % u == 0,
            m == n / u,
    {
        vstd::arithmetic::div_mod::lemma_fundamental_div_mod(n, u);
        vstd::arithmetic::div_mod::lemma_div_multiples_vanish(m - 1, u);
        vstd::arithmetic::div_mod::lemma_mod_multiples_basic(m - 1, u);
        assert(n - u == (m - 1) * u);
    }
    let front = RegIterView { bytes: b.skip(u), ..v };
    let back = RegIterView { bytes: b.take(n - u), ..v };
    assert(b.skip(u) =~= b.subrange(u, n));
    let f = spec_regs(front);
    let g = spec_regs(back);
    let all = spec_regs(v);
    assert(front.bytes.len() == n - u);
    assert(back.bytes.len() == n - u);
    assert(f.len() == m - 1 && g.len() == m - 1 && all.len() == m);
    assert forall|k: int| 0 <= k < m - 1 implies f[k] == all[k + 1] by {
        assert(k * u + u + u <= n && u + k * u == (k + 1) * u) by (nonlinear_arith)
            requires
                0 <= k < m - 1,
                m * u == n,
                u > 0,
        ;
        lemma_reg_at_sub(b, u, n, k * u, ac, sc);
    }
    assert forall|k: int| 0 <= k < m - 1 implies g[k] == all[k] by {
        assert(k * u + u <= n - u && 0 <= k * u) by (nonlinear_arith)
            requires
                0 <= k < m - 1,
                m * u == n,
                u > 0,
        ;
        lemma_reg_at_sub(b, 0, n - u, k * u, ac, sc);
        assert(b.subrange(0, n - u) =~= b.take(n - u));
    }
    assert(f =~= all.drop_first());
    assert(g =~= all.drop_last());
    assert((m - 1) * u == n - u) by (nonlinear_arith)
        requires
            m * u == n,
    ;
    assert(0 * u == 0);
}

/// The entries of a `reg` value, each read by `#address-cells` and
/// `#size-cells`.
#[derive(Debug)]
pub struct RegIter<'a> {
    address_cells: usize,
    size_cells: usize,
    bytes: &'a [u8],
}

impl<'a> View for RegIter<'a> {
    type V = RegIterView;

    closed spec fn view(&self) -> RegIterView {
        RegIterView {
            address_cells: self.address_cells,
            size_cells: self.size_cells,
            bytes: self.bytes@,
        }
    }
}

impl<'a> Clone for RegIter<'a> {
    fn clone(&self) -> (r: Self)
        ensures
            r@ == self@,
    {
        proof {
            use_type_invariant(self);
        }
        RegIter { address_cells: self.address_cells, size_cells: self.size_cells, bytes: self.bytes }
    }
}

impl<'a> RegIter<'a> {
    #[verifier::type_invariant]
    spec fn inv(&self) -> bool {
        &&& 1 <= self.address_cells <= 2
        &&& self.size_cells <= 2
        &&& self.bytes@.len() as int % ((self.address_cells + self.size_cells) * 4) == 0
    }

    /// The entries of `bytes`, each of `address_cells` address cells and
    /// `size_cells` size cells.
    pub(crate) fn from_parts(address_cells: usize, size_cells: usize, bytes: &'a [u8]) -> (r: Self)
        requires
            1 <= address_cells <= 2,
            size_cells <= 2,
            bytes@.len() as int % ((address_cells + size_cells) * 4) == 0,
        ensures
            r@ == (RegIterView { address_cells, size_cells, bytes: bytes@ }),
    {
        RegIter { address_cells, size_cells, bytes }
    }

    /// The number of bytes of one entry.
    pub open spec fn spec_unit(v: RegIterView) -> int {
        (v.address_cells + v.size_cells) * 4
    }

    /// The next entry, read from the front; `None` when none is left.
    pub fn next(&mut self) -> (r: Option<Reg>)
        ensures
            final(self)@.address_cells == old(self)@.address_cells,
            final(self)@.size_cells == old(self)@.size_cells,
            old(self)@.bytes.len() == 0 ==> r is None && final(self)@ == old(self)@,
            old(self)@.bytes.len() > 0 ==> {
                &&& r == Some(
                    spec_reg_at(old(self)@.bytes, 0, old(self)@.address_cells, old(self)@.size_cells),
                )
                &&& final(self)@.bytes == old(self)@.bytes.skip(Self::spec_unit(old(self)@))
            },
            reg_iter_wf(final(self)@),
            r is None <==> spec_regs(old(self)@).len() == 0,
            r matches Some(x) ==> x == spec_regs(old(self)@)[0] && spec_regs(final(self)@)
                == spec_regs(old(self)@).drop_first(),
    {
        proof {
            use_type_invariant(&*self);
            if self.bytes@.len() > 0 {
                law_reg_entries_from_either_end(self@);
            }
        }
        if self.bytes.len() == 0 {
            return None;
        }
        let a = self.address_cells;
        let s = self.size_cells;
        let b = self.bytes;
        proof {
            assert(b@.len() >= (a + s) * 4) by (nonlinear_arith)
                requires
                    b@.len() as int % ((a + s) * 4) == 0,
                    b@.len() > 0,
                    (a + s) * 4 > 0,
            ;
        }
        let address = read_cells(b, 0, a);
        let size = if s == 0 {
            0
        } else {
            read_cells(b, a * 4, s)
        };
        let unit = (a + s) * 4;
        let rest = &b[unit..b.len()];
        proof {
            assert(rest@.len() as int % ((a + s) * 4) == 0) by (nonlinear_arith)
                requires
                    b@.len() as int % ((a + s) * 4) == 0,
                    rest@.len() == b@.len() - (a + s) * 4,
                    (a + s) * 4 > 0,
            ;
        }
        self.bytes = rest;
        Some(Reg { address: address as usize, size: size as usize })
    }

    /// The next entry, read from the back; `None` when none is left.
    pub fn next_back(&mut self) -> (r: Option<Reg>)
        ensures
            final(self)@.address_cells == old(self)@.address_cells,
            final(self)@.size_cells == old(self)@.size_cells,
            old(self)@.bytes.len() == 0 ==> r is None && final(self)@ == old(self)@,
            old(self)@.bytes.len() > 0 ==> {
                &&& r == Some(
                    spec_reg_at(
                        old(self)@.bytes,
                        old(self)@.bytes.len() - Self::spec_unit(old(self)@),
                        old(self)@.address_cells,
                        old(self)@.size_cells,
                    ),
                )
                &&& final(self)@.bytes == old(self)@.bytes.take(
                    old(self)@.bytes.len() - Self::spec_unit(old(self)@),
                )
            },
            reg_iter_wf(final(self)@),
            r is None <==> spec_regs(old(self)@).len() == 0,
            r matches Some(x) ==> x == spec_regs(old(self)@).last() && spec_regs(final(self)@)
                == spec_regs(old(self)@).drop_last(),
    {
        proof {
            use_type_invariant(&*self);
            if self.bytes@.len() > 0 {
                law_reg_entries_from_either_end(self@);
            }
        }
        if self.bytes.len() == 0 {
            return None;
        }
        let a = self.address_cells;
        let s = self.size_cells;
        let b = self.bytes;
        proof {
            assert(b@.len() >= (a + s) * 4) by (nonlinear_arith)
                requires
                    b@.len() as int % ((a + s) * 4) == 0,
                    b@.len() > 0,
                    (a + s) * 4 > 0,
            ;
        }
        let unit = (a + s) * 4;
        let start = b.len() - unit;
        let address = read_cells(b, start, a);
        let size = if s == 0 {
            0
        } else {
            read_cells(b, start + a * 4, s)
        };
        let rest = &b[0..start];
        proof {
            assert(rest@.len() as int % ((a + s) * 4) == 0) by (nonlinear_arith)
                requires
                    b@.len() as int % ((a + s) * 4) == 0,
                    rest@.len() == b@.len() - (a + s) * 4,
                    (a + s) * 4 > 0,
            ;
        }
        self.bytes = rest;
        Some(Reg { address: address as usize, size: size as usize })
    }

    /// The number of entries left.
    pub fn len(&self) -> (r: usize)
        ensures
            r == self@.bytes.len() as int / Self::spec_unit(self@),
            r * Self::spec_unit(self@) == self@.bytes.len(),
            r == spec_regs(self@).len(),
            reg_iter_wf(self@),
    {
        proof {
            use_type_invariant(self);
        }
        let r = self.bytes.len() / (self.address_cells + self.size_cells) / 4;
        proof {
            let n = self.bytes@.len() as int;
            let u = (self.address_cells + self.size_cells) as int;
            assert(n / u / 4 == n / (u * 4) && (n / (u * 4)) * (u * 4) == n) by (nonlinear_arith)
                requires
                    n >= 0,
                    u > 0,
                    n % (u * 4) == 0,
            {
                vstd::arithmetic::div_mod::lemma_div_denominator(n, u, 4);
                vstd::arithmetic::div_mod::lemma_fundamental_div_mod(n, u * 4);
            }
        }
        r
    }

    /// The only entry, or `None` when there is not exactly one.
    pub fn assume_one(&self) -> (r: Option<Reg>)
        ensures
            self@.bytes.len() == Self::spec_unit(self@) ==> r == Some(
                spec_reg_at(self@.bytes, 0, self@.address_cells, self@.size_cells),
            ),
            self@.bytes.len() != Self::spec_unit(self@) ==> r is None,
    {
        proof {
            use_type_invariant(self);
        }
        let mut this = RegIter {
            address_cells: self.address_cells,
            size_cells: self.size_cells,
            bytes: self.bytes,
        };
        let ghost unit = Self::spec_unit(self@);
        assert(this@ == self@);
        proof {
            let n = self.bytes@.len() as int;
            let u = (self.address_cells + self.size_cells) * 4;
            assert(n > 0 ==> n >= u) by (nonlinear_arith)
                requires
                    n % u == 0,
                    n >= 0,
                    u > 0,
            ;
        }
        let reg = match this.next() {
            Some(reg) => reg,
            None => {
                return None;
            },
        };
        if this.next().is_some() {
            return None;
        }
        assert(this@.bytes.len() == 0);
        assert(self@.bytes.len() == unit);
        Some(reg)
    }
}

/// Reads `cells` (1 or 2) big-endian 32-bit cells at `off` of `b`.
fn read_cells(b: &[u8], off: usize, cells: usize) -> (r: u64)
    requires
        1 <= cells <= 2,
        off + cells * 4 <= b@.len(),
    ensures
        r == spec_cells(b@, off as int, cells),
{
    if cells == 1 {
        be_u32_at(b, off) as u64
    } else {
        assert(off + 8 <= b.len());
        let hi = be_u32_at(b, off) as u64;
        let lo = be_u32_at(b, off + 4) as u64;
        hi * 0x1_0000_0000 + lo
    }
}

/// A property value decoded by what the property's name says it holds.
#[derive(Debug, Clone, Copy)]
pub enum PropertyValue<'a> {
    /// No value, or a flag.
    Empty,
    /// A 32-bit number.
    U32(u32),
    /// A 64-bit number.
    U64(u64),
    /// A string.
    String(&'a str),
    /// An array of cells, as bytes.
    PropEncodedArray(&'a [u8]),
    /// A reference to a node.
    Phandle(Phandle),
    /// A list of strings.
    StringList(StringList<'a>),
    /// A value of a property the names do not describe, as bytes.
    Unknown(&'a [u8]),
}

impl<'a> View for PropertyValue<'a> {
    type V = PropertyValueView;

    open spec fn view(&self) -> PropertyValueView {
        match self {
            PropertyValue::Empty => PropertyValueView::Empty,
            PropertyValue::U32(n) => PropertyValueView::U32(*n),
            PropertyValue::U64(n) => PropertyValueView::U64(*n),
            PropertyValue::String(s) => PropertyValueView::String(s@),
            PropertyValue::PropEncodedArray(b) => PropertyValueView::PropEncodedArray(b@),
            PropertyValue::Phandle(p) => PropertyValueView::Phandle(p.0),
            PropertyValue::StringList(l) => PropertyValueView::StringList(l@),
            PropertyValue::Unknown(b) => PropertyValueView::Unknown(b@),
        }
    }
}

/// A list of NUL-terminated strings, such as the value of `compatible`.
#[derive(Debug, Clone, Copy)]
pub struct StringList<'a> {
    value: &'a str,
}

impl<'a> View for StringList<'a> {
    type V = Seq<char>;

    /// The characters of the list, each string followed by its NUL.
    closed spec fn view(&self) -> Seq<char> {
        self.value@
    }
}

impl<'a> StringList<'a> {
    #[verifier::type_invariant]
    spec fn inv(&self) -> bool {
        self.value@.len() > 0 && self.value@.last() == '\0'
    }

    /// The strings of the list, one by one.
    pub fn iter(&self) -> (r: StringListIter<'a>)
        ensures
            r@ == self@,
    {
        proof {
            use_type_invariant(self);
        }
        StringListIter { value: self.value }
    }
}

/// The strings of a list that are left to read.
#[derive(Debug)]
pub struct StringListIter<'a> {
    value: &'a str,
}

impl<'a> View for StringListIter<'a> {
    type V = Seq<char>;

    /// The characters left, each string followed by its NUL.
    closed spec fn view(&self) -> Seq<char> {
        self.value@
    }
}

impl<'a> Clone for StringListIter<'a> {
    fn clone(&self) -> (r: Self)
        ensures
            r@ == self@,
    {
        proof {
            use_type_invariant(self);
        }
        StringListIter { value: self.value }
    }
}

impl<'a> StringListIter<'a> {
    #[verifier::type_invariant]
    spec fn inv(&self) -> bool {
        self.value@.len() == 0 || self.value@.last() == '\0'
    }

    /// The next string of the list, without its NUL; `None` at the end.
    pub fn next(&mut self) -> (r: Option<&'a str>)
        ensures
            old(self)@.len() == 0 ==> r is None && final(self)@ == old(self)@,
            old(self)@.len() > 0 ==> (r matches Some(s) && {
                &&& old(self)@ == s@ + seq!['\0'] + final(self)@
                &&& !s@.contains('\0')
            }),
    {
        proof {
            use_type_invariant(&*self);
        }
        if self.value.is_empty() {
            return None;
        }
        proof {
            assert(self.value@.contains('\0')) by {
                assert(self.value@[self.value@.len() - 1] == '\0');
            }
        }
        match str_split_once(self.value, '\0') {
            Some((s, rest)) => {
                proof {
                    let v = self.value@;
                    assert(rest@.len() == 0 || rest@.last() == v.last()) by {
                        assert(v == s@ + seq!['\0'] + rest@);
                        if rest@.len() > 0 {
                            assert(v[v.len() - 1] == rest@[rest@.len() - 1]);
                        }
                    }
                }
                self.value = rest;
                Some(s)
            },
            None => None,
        }
    }
}

/// The bytes of an array value, each as `{:#04x}` writes it, separated by
/// spaces.
pub open spec fn bytes_items(b: Seq<u8>) -> Seq<char>
    decreases b.len(),
{
    if b.len() == 0 {
        Seq::empty()
    } else if b.len() == 1 {
        hex_text(b[0] as nat)
    } else {
        bytes_items(b.drop_last()) + seq![' '] + hex_text(b.last() as nat)
    }
}

/// The strings of a list of NUL-terminated strings `v`, each as `{:?}`
/// writes it, separated by `, `; `started` when a string came before them.
pub open spec fn list_items(v: Seq<char>, started: bool) -> Seq<char>
    decreases v.len(),
{
    if v.len() == 0 {
        Seq::empty()
    } else {
        let i = char_index(v, '\0');
        proof {
            lemma_char_index_range(v, '\0');
        }
        if i >= v.len() {
            Seq::empty()
        } else {
            (if started {
                seq![',', ' ']
            } else {
                Seq::empty()
            }) + str_debug_text(v.subrange(0, i)) + list_items(
                v.subrange(i + 1, v.len() as int),
                true,
            )
        }
    }
}

/// The text of a property value: `<empty>`, numbers in hexadecimal between
/// `<` and `>`, strings quoted, lists of strings separated by `, `, and
/// arrays of bytes in hexadecimal between `<` and `>`.
pub open spec fn spec_value_text(v: PropertyValueView) -> Seq<char> {
    match v {
        PropertyValueView::Empty => seq!['<', 'e', 'm', 'p', 't', 'y', '>'],
        PropertyValueView::U32(n) => seq!['<'] + hex_text(n as nat) + seq!['>'],
        PropertyValueView::U64(n) => seq!['<'] + hex_text(n as nat) + seq!['>'],
        PropertyValueView::Phandle(n) => seq!['<'] + hex_text(n as nat) + seq!['>'],
        PropertyValueView::String(s) => str_debug_text(s),
        PropertyValueView::StringList(l) => list_items(l, false),
        PropertyValueView::PropEncodedArray(b) => seq!['<'] + bytes_items(b) + seq!['>'],
        PropertyValueView::Unknown(b) => seq!['<'] + bytes_items(b) + seq!['>'],
    }
}

/// Appends the bytes `b` between `<` and `>`, each in hexadecimal.
fn push_bytes(out: &mut String, b: &[u8])
    ensures
        final(out)@ == old(out)@ + seq!['<'] + bytes_items(b@) + seq!['>'],
{
    proof {
        reveal_strlit("<");
    }
    out.append("<");
    let ghost start = out@;
    let mut k: usize = 0;
    while k < b.len()
        invariant
            k <= b@.len(),
            start == old(out)@ + seq!['<'],
            out@ == start + bytes_items(b@.subrange(0, k as int)),
        decreases b@.len() - k,
    {
        proof {
            reveal_strlit(" ");
        }
        if k > 0 {
            out.append(" ");
        }
        push_hex(out, b[k] as u64);
        proof {
            let p = b@.subrange(0, k + 1);
            assert(p.drop_last() =~= b@.subrange(0, k as int));
            if k == 0 {
                assert(b@.subrange(0, 0) =~= Seq::<u8>::empty());
            }
        }
        k += 1;
        assert(out@ =~= start + bytes_items(b@.subrange(0, k as int)));
    }
    proof {
        reveal_strlit(">");
        assert(b@.subrange(0, b@.len() as int) =~= b@);
    }
    out.append(">");
    assert(out@ =~= old(out)@ + seq!['<'] + bytes_items(b@) + seq!['>']);
}

impl<'a> StringList<'a> {
    /// The strings of the list, each quoted as `{:?}` writes it, separated
    /// by `, `.
    pub fn to_text(&self) -> (r: String)
        ensures
            r@ == list_items(self@, false),
    {
        let mut out = String::new();
        let mut it = self.iter();
        let mut started = false;
        assert(out@ + list_items(it@, started) =~= list_items(self@, false));
        loop
            invariant
                list_items(self@, false) == out@ + list_items(it@, started),
            ensures
                list_items(self@, false) == out@,
            decreases it@.len(),
        {
            let ghost before = it@;
            match it.next() {
                None => {
                    assert(out@ + list_items(it@, started) =~= out@);
                    break ;
                },
                Some(s) => {
                    proof {
                        reveal_strlit(", ");
                        lemma_char_index(s@, '\0', it@);
                        assert(before.subrange(0, s@.len() as int) =~= s@);
                        assert(before.subrange(s@.len() + 1int, before.len() as int) =~= it@);
                    }
                    let ghost acc = out@;
                    let ghost was_started = started;
                    if started {
                        out.append(", ");
                    }
                    let t = debug_text(s);
                    out.append(t.as_str());
                    started = true;
                    proof {
                        lemma_char_index_range(before, '\0');
                        assert(list_items(before, was_started) == (if was_started {
                            seq![',', ' ']
                        } else {
                            Seq::empty()
                        }) + str_debug_text(s@) + list_items(it@, true));
                        assert(out@ + list_items(it@, true) =~= acc + list_items(before, was_started));
                    }
                },
            }
        }
        out
    }
}

impl<'a> PropertyValue<'a> {
    /// The text of the value.
    pub fn to_text(&self) -> (r: String)
        ensures
            r@ == spec_value_text(self@),
    {
        let mut out = String::new();
        proof {
            reveal_strlit("<empty>");
            reveal_strlit("<");
            reveal_strlit(">");
        }
        match self {
            PropertyValue::Empty => {
                out.append("<empty>");
            },
            PropertyValue::U32(n) => {
                out.append("<");
                push_hex(&mut out, *n as u64);
                out.append(">");
            },
            PropertyValue::U64(n) => {
                out.append("<");
                push_hex(&mut out, *n);
                out.append(">");
            },
            PropertyValue::Phandle(p) => {
                out.append("<");
                push_hex(&mut out, p.0 as u64);
                out.append(">");
            },
            PropertyValue::String(s) => {
                out = debug_text(s);
            },
            PropertyValue::StringList(l) => {
                out = l.to_text();
            },
            PropertyValue::PropEncodedArray(b) => {
                push_bytes(&mut out, b);
            },
            PropertyValue::Unknown(b) => {
                push_bytes(&mut out, b);
            },
        }
        assert(out@ =~= spec_value_text(self@));
        out
    }
}

} // verus!

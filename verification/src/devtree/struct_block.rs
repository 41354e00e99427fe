//! Tokens and property headers of the structure block.
use vstd::prelude::*;

use super::util::u32_to_be_bytes;

verus! {

use super::util::be_bytes_u32;

/// A token of the structure block.
#[derive(Clone, Copy, Debug, PartialEq, Eq, Structural)]
pub struct TokenType(u32);

/// The token that starts a node.
pub const BEGIN_NODE: u32 = 1;
/// The token that ends a node.
pub const END_NODE: u32 = 2;
/// The token that introduces a property.
pub const PROP: u32 = 3;
/// A token that stands for nothing.
pub const NOP: u32 = 4;
/// The token that ends the structure block.
pub const END: u32 = 9;

impl TokenType {
    /// The token that starts a node.
    pub const BEGIN_NODE: u32 = BEGIN_NODE;

    /// The token that ends a node.
    pub const END_NODE: u32 = END_NODE;

    /// The token that introduces a property.
    pub const PROP: u32 = PROP;

    /// A token that stands for nothing.
    pub const NOP: u32 = NOP;

    /// The token that ends the structure block.
    pub const END: u32 = END;

    pub closed spec fn spec_value(&self) -> u32 {
        self.0
    }

    /// The token with the given value.
    pub fn new(value: u32) -> (r: Self)
        ensures
            r.spec_value() == value,
    {
        TokenType(value)
    }

    /// The value of the token.
    pub fn value(&self) -> (r: u32)
        ensures
            r == self.spec_value(),
    {
        self.0
    }

    /// The four bytes that encode the token, big-endian.
    pub fn as_bytes(&self) -> (r: Vec<u8>)
        ensures
            r@ == be_bytes_u32(self.spec_value()),
    {
        u32_to_be_bytes(self.0)
    }
}

/// The header of a property in the structure block: the length of its value
/// and the offset of its name in the strings block.
#[derive(Clone, Copy, Debug, PartialEq, Eq, Structural)]
pub struct PropertyHeader {
    len: u32,
    name_offset: u32,
}

impl PropertyHeader {
    pub closed spec fn spec_len(&self) -> u32 {
        self.len
    }

    pub closed spec fn spec_name_offset(&self) -> u32 {
        self.name_offset
    }

    /// A header for a value of `len` bytes named at `name_offset`.
    pub fn new(len: u32, name_offset: u32) -> (r: Self)
        ensures
            r.spec_len() == len,
            r.spec_name_offset() == name_offset,
    {
        PropertyHeader { len, name_offset }
    }

    /// The length of the property value.
    pub fn len(&self) -> (r: u32)
        ensures
            r == self.spec_len(),
    {
        self.len
    }

    /// The offset of the property name in the strings block.
    pub fn name_offset(&self) -> (r: u32)
        ensures
            r == self.spec_name_offset(),
    {
        self.name_offset
    }

    /// The eight bytes that encode the header: length then name offset,
    /// big-endian.
    pub fn as_bytes(&self) -> (r: Vec<u8>)
        ensures
            r@ == be_bytes_u32(self.spec_len()) + be_bytes_u32(self.spec_name_offset()),
    {
        let mut v = u32_to_be_bytes(self.len);
        v.append(&mut u32_to_be_bytes(self.name_offset));
        v
    }
}

} // verus!

//! Properties: a name and a value.
use vstd::prelude::*;

use super::bytes::LazyCStr;

verus! {

/// A property of a node: its name (the bytes before the first NUL of the
/// name it was given) and its value.
#[derive(Clone, Copy, Debug, PartialEq, Eq)]
pub struct Property<'a> {
    name: LazyCStr<'a>,
    value: &'a [u8],
}

impl<'a> Property<'a> {
    pub closed spec fn spec_name(&self) -> Seq<u8> {
        self.name@
    }

    pub closed spec fn spec_value(&self) -> Seq<u8> {
        self.value@
    }

    /// The property named by `name` up to its first NUL, with value `value`.
    pub fn new(name: &'a [u8], value: &'a [u8]) -> (r: Self)
        ensures
            super::bytes::cstr_len_ok(name@, r.spec_name().len() as int),
            r.spec_name() == name@.subrange(0, r.spec_name().len() as int),
            r.spec_value() == value@,
    {
        Property { name: LazyCStr::new(name), value }
    }

    /// The name of the property.
    pub fn name(&self) -> (r: &'a [u8])
        ensures
            r@ == self.spec_name(),
    {
        self.name.as_byte_str()
    }

    /// The value of the property.
    pub fn value(&self) -> (r: &'a [u8])
        ensures
            r@ == self.spec_value(),
    {
        self.value
    }
}

} // verus!

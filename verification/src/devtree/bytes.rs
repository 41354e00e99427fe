//! Byte strings that end at their first NUL byte.
use core::cmp::Ordering;

use vstd::prelude::*;

use super::util::{byte_order, position, ByteOrder};

verus! {

use super::util::spec_byte_order;

/// The length of the C string at the start of `s`: the index of its first
/// NUL byte, or the length of `s` when it has none.
pub open spec fn cstr_len_ok(s: Seq<u8>, len: int) -> bool {
    &&& 0 <= len <= s.len()
    &&& len < s.len() ==> s[len] == 0
    &&& forall|j: int| 0 <= j < len ==> s[j] != 0
}

/// Byte strings compared byte by byte; a proper prefix comes first.
pub open spec fn lex_cmp(a: Seq<u8>, b: Seq<u8>) -> Ordering {
    match spec_byte_order(a, b) {
        ByteOrder::Less => Ordering::Less,
        ByteOrder::Equal => Ordering::Equal,
        ByteOrder::Greater => Ordering::Greater,
    }
}

/// Compares two byte strings byte by byte; a proper prefix comes first.
pub fn compare_bytes(a: &[u8], b: &[u8]) -> (r: Ordering)
    ensures
        r == lex_cmp(a@, b@),
{
    match byte_order(a, b) {
        ByteOrder::Less => Ordering::Less,
        ByteOrder::Equal => Ordering::Equal,
        ByteOrder::Greater => Ordering::Greater,
    }
}

/// A byte string read up to its first NUL byte (or to its end when it has
/// none), such as a name in the strings block.
#[derive(Clone, Copy, Debug)]
pub struct LazyCStr<'a> {
    bytes: &'a [u8],
    len: usize,
}

impl<'a> LazyCStr<'a> {
    #[verifier::type_invariant]
    spec fn inv(&self) -> bool {
        cstr_len_ok(self.bytes@, self.len as int)
    }

    /// All the bytes the string was made from, the NUL and what follows it
    /// included.
    pub closed spec fn spec_source(&self) -> Seq<u8> {
        self.bytes@
    }

    /// The string from `bytes`: the bytes before the first NUL.
    pub fn new(bytes: &'a [u8]) -> (r: Self)
        ensures
            r.spec_source() == bytes@,
            r@ == bytes@.subrange(0, r@.len() as int),
            cstr_len_ok(bytes@, r@.len() as int),
    {
        let len = match position(bytes, 0) {
            Some(i) => i,
            None => bytes.len(),
        };
        LazyCStr { bytes, len }
    }

    /// The number of bytes before the first NUL.
    pub fn len(&self) -> (r: usize)
        ensures
            r == self@.len(),
            cstr_len_ok(self.spec_source(), r as int),
    {
        proof {
            use_type_invariant(self);
        }
        self.len
    }

    /// The bytes before the first NUL.
    pub fn as_bytes(&self) -> (r: &'a [u8])
        ensures
            r@ == self@,
            r@ == self.spec_source().subrange(0, r@.len() as int),
            cstr_len_ok(self.spec_source(), r@.len() as int),
    {
        proof {
            use_type_invariant(self);
        }
        &self.bytes[0..self.len]
    }

    /// The bytes before the first NUL, as a byte string.
    pub fn as_byte_str(&self) -> (r: &'a [u8])
        ensures
            r@ == self@,
    {
        self.as_bytes()
    }
}

impl<'a> View for LazyCStr<'a> {
    type V = Seq<u8>;

    /// The bytes before the first NUL.
    closed spec fn view(&self) -> Seq<u8> {
        self.bytes@.subrange(0, self.len as int)
    }
}

impl<'a> PartialEq for LazyCStr<'a> {
    /// Two strings are equal when their bytes before the first NUL are.
    fn eq(&self, other: &Self) -> (r: bool) {
        super::util::bytes_eq(self.as_bytes(), other.as_bytes())
    }
}

impl<'a> vstd::std_specs::cmp::PartialEqSpecImpl for LazyCStr<'a> {
    open spec fn obeys_eq_spec() -> bool {
        true
    }

    open spec fn eq_spec(&self, other: &Self) -> bool {
        self@ == other@
    }
}

impl<'a> Eq for LazyCStr<'a> {
}

impl<'a> PartialOrd for LazyCStr<'a> {
    /// Strings are ordered by their bytes before the first NUL.
    fn partial_cmp(&self, other: &Self) -> (r: Option<Ordering>) {
        Some(compare_bytes(self.as_bytes(), other.as_bytes()))
    }
}

impl<'a> vstd::std_specs::cmp::PartialOrdSpecImpl for LazyCStr<'a> {
    open spec fn obeys_partial_cmp_spec() -> bool {
        true
    }

    open spec fn partial_cmp_spec(&self, other: &Self) -> Option<Ordering> {
        Some(lex_cmp(self@, other@))
    }
}

impl<'a, 'b> PartialEq<&'b [u8]> for LazyCStr<'a> {
    /// Equal when the bytes before the first NUL are `other`.
    fn eq(&self, other: &&'b [u8]) -> (r: bool) {
        super::util::bytes_eq(self.as_bytes(), *other)
    }
}

impl<'a, 'b> vstd::std_specs::cmp::PartialEqSpecImpl<&'b [u8]> for LazyCStr<'a> {
    open spec fn obeys_eq_spec() -> bool {
        true
    }

    open spec fn eq_spec(&self, other: &&'b [u8]) -> bool {
        self@ == other@
    }
}

impl<'a, 'b> PartialEq<LazyCStr<'a>> for &'b [u8] {
    /// Equal when `self` is the bytes before the first NUL of `other`.
    fn eq(&self, other: &LazyCStr<'a>) -> (r: bool) {
        super::util::bytes_eq(*self, other.as_bytes())
    }
}

impl<'a, 'b> vstd::std_specs::cmp::PartialEqSpecImpl<LazyCStr<'a>> for &'b [u8] {
    open spec fn obeys_eq_spec() -> bool {
        true
    }

    open spec fn eq_spec(&self, other: &LazyCStr<'a>) -> bool {
        self@ == other@
    }
}

impl<'a, 'b, const N: usize> PartialEq<&'b [u8; N]> for LazyCStr<'a> {
    /// Equal when the bytes before the first NUL are `other`.
    fn eq(&self, other: &&'b [u8; N]) -> (r: bool) {
        super::util::bytes_eq(self.as_bytes(), other.as_slice())
    }
}

impl<'a, 'b, const N: usize> vstd::std_specs::cmp::PartialEqSpecImpl<&'b [u8; N]> for LazyCStr<'a> {
    open spec fn obeys_eq_spec() -> bool {
        true
    }

    open spec fn eq_spec(&self, other: &&'b [u8; N]) -> bool {
        self@ == other@
    }
}

impl<'a, 'b, const N: usize> PartialEq<LazyCStr<'a>> for &'b [u8; N] {
    /// Equal when `self` is the bytes before the first NUL of `other`.
    fn eq(&self, other: &LazyCStr<'a>) -> (r: bool) {
        super::util::bytes_eq(self.as_slice(), other.as_bytes())
    }
}

impl<'a, 'b, const N: usize> vstd::std_specs::cmp::PartialEqSpecImpl<LazyCStr<'a>> for &'b [u8; N] {
    open spec fn obeys_eq_spec() -> bool {
        true
    }

    open spec fn eq_spec(&self, other: &LazyCStr<'a>) -> bool {
        self@ == other@
    }
}

impl<'a, 'b> PartialOrd<&'b [u8]> for LazyCStr<'a> {
    /// Ordered by the bytes before the first NUL.
    fn partial_cmp(&self, other: &&'b [u8]) -> (r: Option<Ordering>) {
        Some(compare_bytes(self.as_bytes(), *other))
    }
}

impl<'a, 'b> vstd::std_specs::cmp::PartialOrdSpecImpl<&'b [u8]> for LazyCStr<'a> {
    open spec fn obeys_partial_cmp_spec() -> bool {
        true
    }

    open spec fn partial_cmp_spec(&self, other: &&'b [u8]) -> Option<Ordering> {
        Some(lex_cmp(self@, other@))
    }
}

impl<'a, 'b> PartialOrd<LazyCStr<'a>> for &'b [u8] {
    /// Ordered by the bytes before the first NUL.
    fn partial_cmp(&self, other: &LazyCStr<'a>) -> (r: Option<Ordering>) {
        Some(compare_bytes(*self, other.as_bytes()))
    }
}

impl<'a, 'b> vstd::std_specs::cmp::PartialOrdSpecImpl<LazyCStr<'a>> for &'b [u8] {
    open spec fn obeys_partial_cmp_spec() -> bool {
        true
    }

    open spec fn partial_cmp_spec(&self, other: &LazyCStr<'a>) -> Option<Ordering> {
        Some(lex_cmp(self@, other@))
    }
}

impl<'a, 'b, const N: usize> PartialOrd<&'b [u8; N]> for LazyCStr<'a> {
    /// Ordered by the bytes before the first NUL.
    fn partial_cmp(&self, other: &&'b [u8; N]) -> (r: Option<Ordering>) {
        Some(compare_bytes(self.as_bytes(), other.as_slice()))
    }
}

impl<'a, 'b, const N: usize> vstd::std_specs::cmp::PartialOrdSpecImpl<&'b [u8; N]> for LazyCStr<'a> {
    open spec fn obeys_partial_cmp_spec() -> bool {
        true
    }

    open spec fn partial_cmp_spec(&self, other: &&'b [u8; N]) -> Option<Ordering> {
        Some(lex_cmp(self@, other@))
    }
}

impl<'a, 'b, const N: usize> PartialOrd<LazyCStr<'a>> for &'b [u8; N] {
    /// Ordered by the bytes before the first NUL.
    fn partial_cmp(&self, other: &LazyCStr<'a>) -> (r: Option<Ordering>) {
        Some(compare_bytes(self.as_slice(), other.as_bytes()))
    }
}

impl<'a, 'b, const N: usize> vstd::std_specs::cmp::PartialOrdSpecImpl<LazyCStr<'a>> for &'b [u8; N] {
    open spec fn obeys_partial_cmp_spec() -> bool {
        true
    }

    open spec fn partial_cmp_spec(&self, other: &LazyCStr<'a>) -> Option<Ordering> {
        Some(lex_cmp(self@, other@))
    }
}

impl<'a> AsRef<LazyCStr<'a>> for LazyCStr<'a> {
    /// The string itself.
    fn as_ref(&self) -> (r: &LazyCStr<'a>)
        ensures
            same_cstr(r, self),
    {
        self
    }
}

/// `a` and `b` are the same string.
pub open spec fn same_cstr<'a>(a: &LazyCStr<'a>, b: &LazyCStr<'a>) -> bool {
    *a == *b
}

/// The bytes a slice holds.
pub open spec fn slice_bytes(s: &[u8]) -> Seq<u8> {
    s@
}

impl<'a> AsRef<[u8]> for LazyCStr<'a> {
    /// The bytes before the first NUL.
    fn as_ref(&self) -> (r: &[u8])
        ensures
            slice_bytes(r) == self@,
    {
        self.as_bytes()
    }
}

/// Byte strings compare equal exactly when they are equal, and swapping two
/// strings swaps less and greater: the order of [`LazyCStr`] agrees with its
/// equality.
pub proof fn law_order_agrees_with_eq(a: Seq<u8>, b: Seq<u8>)
    ensures
        (lex_cmp(a, b) == Ordering::Equal) <==> a == b,
        (lex_cmp(a, b) == Ordering::Less) <==> (lex_cmp(b, a) == Ordering::Greater),
{
    super::util::law_byte_order_total(a, b);
}

} // verus!

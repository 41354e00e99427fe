//! Nodes of the structure block, known by their full name.
use vstd::prelude::*;

use super::UNIT_ADDRESS_SEPARATOR;
use super::util::split_once;

verus! {

use super::util::{is_first_index_of, lemma_first_index_exists};

/// The name and the unit address of full name `s`: split at its first `@`;
/// without one, the whole name and no unit address.
pub open spec fn spec_split_name(s: Seq<u8>) -> (Seq<u8>, Option<Seq<u8>>) {
    if exists|i: int| 0 <= i < s.len() && s[i] == UNIT_ADDRESS_SEPARATOR {
        let i = choose|i: int| is_first_index_of(s, UNIT_ADDRESS_SEPARATOR, i);
        (s.subrange(0, i), Some(s.subrange(i + 1, s.len() as int)))
    } else {
        (s, None)
    }
}

/// A node of the structure block, known by its full name
/// (`name@unit-address`).
#[derive(Clone, Copy, Debug, PartialEq, Eq)]
pub struct Node<'a> {
    full_name: &'a [u8],
}

impl<'a> Node<'a> {
    pub closed spec fn spec_full_name(&self) -> Seq<u8> {
        self.full_name@
    }

    /// The node with the given full name.
    pub fn new(full_name: &'a [u8]) -> (r: Self)
        ensures
            r.spec_full_name() == full_name@,
    {
        Node { full_name }
    }

    /// The full name: name and unit address.
    pub fn full_name(&self) -> (r: &'a [u8])
        ensures
            r@ == self.spec_full_name(),
    {
        self.full_name
    }

    /// The name and the unit address, split at the first `@`.
    pub fn split_name(&self) -> (r: (&'a [u8], Option<&'a [u8]>))
        ensures
            r.0@ == spec_split_name(self.spec_full_name()).0,
            r.1 is Some == spec_split_name(self.spec_full_name()).1 is Some,
            r.1 matches Some(u) ==> Some(u@) == spec_split_name(self.spec_full_name()).1,
    {
        match split_once(self.full_name, UNIT_ADDRESS_SEPARATOR) {
            Some((name, unit_address)) => {
                proof {
                    let s = self.full_name@;
                    let i = name@.len() as int;
                    let k = choose|k: int| is_first_index_of(s, UNIT_ADDRESS_SEPARATOR, k);
                    if k < i {
                    } else if i < k {
                    }
                    assert(k == i);
                }
                (name, Some(unit_address))
            },
            None => (self.full_name, None),
        }
    }

    /// The name: the part of the full name before the first `@`.
    pub fn name(&self) -> (r: &'a [u8])
        ensures
            r@ == spec_split_name(self.spec_full_name()).0,
    {
        self.split_name().0
    }

    /// The unit address: the part of the full name after the first `@`.
    pub fn unit_address(&self) -> (r: Option<&'a [u8]>)
        ensures
            r is Some == spec_split_name(self.spec_full_name()).1 is Some,
            r matches Some(u) ==> Some(u@) == spec_split_name(self.spec_full_name()).1,
    {
        self.split_name().1
    }

    /// The root node has an empty full name.
    pub fn is_root(&self) -> (r: bool)
        ensures
            r == (self.spec_full_name().len() == 0),
    {
        self.full_name.len() == 0
    }
}

/// A full name is its name, then `@` and the unit address when it has one;
/// the name holds no `@`.
pub proof fn law_split_name_reassembles(s: Seq<u8>)
    ensures
        match spec_split_name(s) {
            (n, Some(a)) => {
                &&& s == n + seq![UNIT_ADDRESS_SEPARATOR] + a
                &&& forall|j: int| 0 <= j < n.len() ==> n[j] != UNIT_ADDRESS_SEPARATOR
            },
            (n, None) => {
                &&& n == s
                &&& forall|j: int| 0 <= j < s.len() ==> s[j] != UNIT_ADDRESS_SEPARATOR
            },
        },
{
    if exists|i: int| 0 <= i < s.len() && s[i] == UNIT_ADDRESS_SEPARATOR {
        let j = choose|i: int| 0 <= i < s.len() && s[i] == UNIT_ADDRESS_SEPARATOR;
        lemma_first_index_exists(s, UNIT_ADDRESS_SEPARATOR, j);
        let i = choose|i: int| is_first_index_of(s, UNIT_ADDRESS_SEPARATOR, i);
        assert(s =~= s.subrange(0, i) + seq![UNIT_ADDRESS_SEPARATOR] + s.subrange(i + 1, s.len() as int));
    }
}

} // verus!

//! The parts of the derive macro for node deserializers that decide
//! something on plain values: counting the symbols it generates, the
//! fallback of a property, the check of a lifetime name, and the check that
//! the fields of a node deserializer go together.
use vstd::prelude::*;

verus! {

use vstd::string::StrSliceExecFns;
use crate::devicetree::text::{debug_text, str_debug_text};

/// A counter that hands out 0, 1, 2, ... to number generated symbols.
#[derive(Debug)]
pub struct Counter(usize);

impl Counter {
    /// The value the counter will hand out next.
    pub closed spec fn spec_value(&self) -> usize {
        self.0
    }

    /// A counter that starts at 0.
    pub fn new() -> (r: Self)
        ensures
            r.spec_value() == 0,
    {
        Counter(0)
    }

    /// Hands out the counter's value and moves it on by one, wrapping around
    /// at `usize::MAX`.
    pub fn get(&mut self) -> (r: usize)
        ensures
            r == old(self).spec_value(),
            final(self).spec_value() == (if old(self).spec_value() == usize::MAX {
                0
            } else {
                old(self).spec_value() + 1
            }),
    {
        let r = self.0;
        self.0 = self.0.wrapping_add(1);
        r
    }
}

impl Default for Counter {
    fn default() -> (r: Self)
        ensures
            r.spec_value() == 0,
    {
        Counter::new()
    }
}

/// Where a property is looked for when the node lacks it.
#[derive(Debug, Clone, Copy, PartialEq, Eq, Structural)]
pub enum Fallback {
    /// Nowhere else.
    NoFallback,
    /// In the parent node.
    Parent,
}

impl Default for Fallback {
    fn default() -> (r: Self)
        ensures
            r == Fallback::NoFallback,
    {
        Fallback::NoFallback
    }
}

/// Why a string is not a lifetime name.
#[derive(Debug, Clone, Copy, PartialEq, Eq, Structural)]
pub enum LifetimeNameError {
    /// It does not start with an apostrophe.
    MissingApostrophe,
    /// It is the apostrophe alone.
    Empty,
}

impl LifetimeNameError {
    /// The text that describes the error for the refused string `value`.
    pub open spec fn spec_message(&self, value: Seq<char>) -> Seq<char> {
        match *self {
            LifetimeNameError::MissingApostrophe =>
                "lifetime name must start with apostrophe as in \"'blob\", got "@ + str_debug_text(
                value,
            ),
            LifetimeNameError::Empty => "lifetime name must not be empty"@,
        }
    }

    /// The text that describes the error for the refused string `value`,
    /// which is quoted as `{:?}` writes it.
    pub fn message(&self, value: &str) -> (r: String)
        ensures
            r@ == self.spec_message(value@),
    {
        let mut s = String::new();
        match *self {
            LifetimeNameError::MissingApostrophe => {
                s.append("lifetime name must start with apostrophe as in \"'blob\", got ");
                let q = debug_text(value);
                s.append(q.as_str());
            },
            LifetimeNameError::Empty => {
                s.append("lifetime name must not be empty");
            },
        }
        s
    }
}

/// Checks that `value` names a lifetime: an apostrophe and at least one
/// more character, as in `'blob`.
pub fn check_lifetime_name(value: &str) -> (r: Result<(), LifetimeNameError>)
    ensures
        !(value@.len() > 0 && value@[0] == '\'') ==> r == Err::<(), LifetimeNameError>(
            LifetimeNameError::MissingApostrophe,
        ),
        value@.len() > 0 && value@[0] == '\'' && value@.len() == 1 ==> r == Err::<
            (),
            LifetimeNameError,
        >(LifetimeNameError::Empty),
        value@.len() > 1 && value@[0] == '\'' ==> r is Ok,
{
    let n = value.unicode_len();
    if n == 0 || value.get_char(0) != '\'' {
        return Err(LifetimeNameError::MissingApostrophe);
    }
    if n == 1 {
        return Err(LifetimeNameError::Empty);
    }
    Ok(())
}

/// What a field of a derived node deserializer is marked as.
#[derive(Debug, Clone, Copy, PartialEq, Eq, Structural)]
pub enum FieldKind {
    /// The node itself.
    Node,
    /// A property of the node.
    Property,
    /// The properties that no other field takes.
    ExtraProperties,
    /// A child of the node.
    Child,
    /// Children of the node that share a name.
    RepeatedChildren,
    /// The children that no other field takes.
    ExtraChildren,
}

/// Why the fields of a derived node deserializer do not go together.
#[derive(Debug, Clone, Copy, PartialEq, Eq, Structural)]
pub enum FieldKindsError {
    /// A second field is marked as taking the remaining properties.
    DuplicateExtraProperties,
    /// A second field is marked as taking the remaining children.
    DuplicateExtraChildren,
}

impl FieldKindsError {
    /// The text that describes the error.
    pub open spec fn spec_message(&self) -> Seq<char> {
        match *self {
            FieldKindsError::DuplicateExtraProperties =>
                "only one field can be marked as extra_properties"@,
            FieldKindsError::DuplicateExtraChildren =>
                "only one field can be marked as extra_children"@,
        }
    }

    /// The text that describes the error.
    pub fn message(&self) -> (r: &'static str)
        ensures
            r@ == self.spec_message(),
    {
        match *self {
            FieldKindsError::DuplicateExtraProperties =>
                "only one field can be marked as extra_properties",
            FieldKindsError::DuplicateExtraChildren =>
                "only one field can be marked as extra_children",
        }
    }
}

/// Checking the fields `kinds`, in order: the first field that is a second
/// one marked as taking the remaining properties, or the remaining
/// children, is refused.
pub open spec fn spec_check_field_kinds(kinds: Seq<FieldKind>) -> Result<(), FieldKindsError>
    decreases kinds.len(),
{
    if kinds.len() == 0 {
        Ok(())
    } else {
        let init = kinds.drop_last();
        match spec_check_field_kinds(init) {
            Err(e) => Err(e),
            Ok(()) => if kinds.last() == FieldKind::ExtraProperties && init.contains(
                FieldKind::ExtraProperties,
            ) {
                Err(FieldKindsError::DuplicateExtraProperties)
            } else if kinds.last() == FieldKind::ExtraChildren && init.contains(
                FieldKind::ExtraChildren,
            ) {
                Err(FieldKindsError::DuplicateExtraChildren)
            } else {
                Ok(())
            },
        }
    }
}

/// At most one of `kinds` is `kind`.
pub open spec fn at_most_one(kinds: Seq<FieldKind>, kind: FieldKind) -> bool {
    forall|i: int, j: int| 0 <= i < j < kinds.len() && kinds[i] == kind ==> kinds[j] != kind
}

/// Checks that at most one field of a derived node deserializer takes the
/// remaining properties and at most one the remaining children.
pub fn check_field_kinds(kinds: &[FieldKind]) -> (r: Result<(), FieldKindsError>)
    ensures
        r == spec_check_field_kinds(kinds@),
        r is Ok <==> at_most_one(kinds@, FieldKind::ExtraProperties) && at_most_one(
            kinds@,
            FieldKind::ExtraChildren,
        ),
{
    let mut seen_properties = false;
    let mut seen_children = false;
    let mut k: usize = 0;
    while k < kinds.len()
        invariant
            k <= kinds@.len(),
            spec_check_field_kinds(kinds@.subrange(0, k as int)) == Ok::<(), FieldKindsError>(()),
            seen_properties == kinds@.subrange(0, k as int).contains(FieldKind::ExtraProperties),
            seen_children == kinds@.subrange(0, k as int).contains(FieldKind::ExtraChildren),
            at_most_one(kinds@.subrange(0, k as int), FieldKind::ExtraProperties),
            at_most_one(kinds@.subrange(0, k as int), FieldKind::ExtraChildren),
        decreases kinds@.len() - k,
    {
        let ghost pre = kinds@.subrange(0, k as int);
        let ghost next = kinds@.subrange(0, k + 1);
        assert(next.drop_last() =~= pre);
        assert(next.last() == kinds@[k as int]);
        let kind = kinds[k];
        if kind == FieldKind::ExtraProperties {
            if seen_properties {
                proof {
                    lemma_check_prefix_err(kinds@, k as int + 1);
                    let i = choose|i: int| 0 <= i < pre.len() && pre[i] == FieldKind::ExtraProperties;
                    assert(kinds@[i] == FieldKind::ExtraProperties);
                }
                return Err(FieldKindsError::DuplicateExtraProperties);
            }
            seen_properties = true;
        }
        if kind == FieldKind::ExtraChildren {
            if seen_children {
                proof {
                    lemma_check_prefix_err(kinds@, k as int + 1);
                    let i = choose|i: int| 0 <= i < pre.len() && pre[i] == FieldKind::ExtraChildren;
                    assert(kinds@[i] == FieldKind::ExtraChildren);
                }
                return Err(FieldKindsError::DuplicateExtraChildren);
            }
            seen_children = true;
        }
        proof {
            assert(next =~= pre.push(kind));
            assert forall|x: FieldKind| next.contains(x) <==> pre.contains(x) || x == kind by {
                if next.contains(x) {
                    let i = choose|i: int| 0 <= i < next.len() && next[i] == x;
                    if i < pre.len() {
                        assert(pre[i] == x);
                    }
                }
                if pre.contains(x) {
                    let i = choose|i: int| 0 <= i < pre.len() && pre[i] == x;
                    assert(next[i] == x);
                }
                if x == kind {
                    assert(next[k as int] == x);
                }
            }
            assert forall|i: int, j: int|
                0 <= i < j < next.len() && next[i] == FieldKind::ExtraProperties implies next[j]
                != FieldKind::ExtraProperties by {
                if j == k {
                    assert(pre[i] == FieldKind::ExtraProperties);
                } else {
                    assert(pre[i] == next[i] && pre[j] == next[j]);
                }
            }
            assert forall|i: int, j: int|
                0 <= i < j < next.len() && next[i] == FieldKind::ExtraChildren implies next[j]
                != FieldKind::ExtraChildren by {
                if j == k {
                    assert(pre[i] == FieldKind::ExtraChildren);
                } else {
                    assert(pre[i] == next[i] && pre[j] == next[j]);
                }
            }
        }
        k += 1;
    }
    proof {
        assert(kinds@.subrange(0, kinds@.len() as int) =~= kinds@);
    }
    Ok(())
}

/// Once a prefix of `kinds` is refused, so are `kinds`, for the same reason.
proof fn lemma_check_prefix_err(kinds: Seq<FieldKind>, n: int)
    requires
        0 <= n <= kinds.len(),
        spec_check_field_kinds(kinds.subrange(0, n)) is Err,
    ensures
        spec_check_field_kinds(kinds) == spec_check_field_kinds(kinds.subrange(0, n)),
    decreases kinds.len() - n,
{
    if n < kinds.len() {
        let next = kinds.subrange(0, n + 1);
        assert(next.drop_last() =~= kinds.subrange(0, n));
        lemma_check_prefix_err(kinds, n + 1);
    } else {
        assert(kinds.subrange(0, n) =~= kinds);
    }
}

} // verus!

use vstd::prelude::*;

verus! {

use vstd::arithmetic::power2::is_pow2;
use vstd::layout::valid_layout;

/// The size and alignment of a block of memory, as `core::alloc::Layout`
/// describes them.
#[derive(Clone, Copy, Debug, PartialEq, Eq, Structural)]
pub struct Layout {
    size: usize,
    align: usize,
}

/// The parameters given to [`Layout::from_size_align`] do not form a valid
/// layout.
#[derive(Clone, Copy, Debug, PartialEq, Eq, Structural)]
pub struct LayoutError;

/// Tests whether `n` is a power of two.
pub fn is_power_of_two(n: usize) -> (r: bool)
    ensures
        r == is_pow2(n as int),
{
    proof {
        reveal(is_pow2);
    }
    if n == 0 {
        return false;
    }
    let mut m: usize = n;
    while m % 2 == 0
        invariant
            m > 0,
            is_pow2(n as int) == is_pow2(m as int),
        decreases m,
    {
        proof {
            reveal(is_pow2);
        }
        m = m / 2;
    }
    assert(is_pow2(m as int) == (m == 1));
    m == 1
}

impl Layout {
    /// Every layout is well formed: its alignment is a power of two and its
    /// size, rounded up to the alignment, does not exceed `isize::MAX`.
    #[verifier::type_invariant]
    spec fn wf(self) -> bool {
        valid_layout(self.size, self.align)
    }

    pub closed spec fn spec_size(&self) -> usize {
        self.size
    }

    pub closed spec fn spec_align(&self) -> usize {
        self.align
    }

    /// Creates a layout of `size` bytes aligned to `align` bytes.
    ///
    /// Fails exactly when `align` is not a power of two or `size`, rounded up
    /// to a multiple of `align`, exceeds `isize::MAX`.
    pub fn from_size_align(size: usize, align: usize) -> (r: Result<Layout, LayoutError>)
        ensures
            r is Ok <==> valid_layout(size, align),
            r matches Ok(l) ==> l.spec_size() == size && l.spec_align() == align,
    {
        if !is_power_of_two(align) {
            return Err(LayoutError);
        }
        assert(align > 0) by {
            reveal(is_pow2);
        }
        let max: usize = isize::MAX as usize;
        assert(max % align <= max) by (nonlinear_arith)
            requires
                align > 0,
        ;
        if size > max - (max % align) {
            return Err(LayoutError);
        }
        Ok(Layout { size, align })
    }

    /// The size of the block in bytes.
    #[verifier::when_used_as_spec(spec_size)]
    pub fn size(&self) -> (r: usize)
        ensures
            r == self.spec_size(),
            valid_layout(self.spec_size(), self.spec_align()),
    {
        proof {
            use_type_invariant(self);
        }
        self.size
    }

    /// The alignment of the block in bytes.
    #[verifier::when_used_as_spec(spec_align)]
    pub fn align(&self) -> (r: usize)
        ensures
            r == self.spec_align(),
            valid_layout(self.spec_size(), self.spec_align()),
    {
        proof {
            use_type_invariant(self);
        }
        self.align
    }
}

} // verus!

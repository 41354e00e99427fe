//! Showing long slices in part: the first entries, then how many more there
//! are.
use vstd::prelude::*;

verus! {

/// Slices that can be shown in part.
pub trait SliceDebug<T> {
    /// A view that shows at most `max_len` entries.
    fn slice_debug(&self, max_len: usize) -> DebugSlice<'_, T>;
}

impl<T> SliceDebug<T> for [T] {
    fn slice_debug(&self, max_len: usize) -> (r: DebugSlice<'_, T>)
        ensures
            r.spec_data() == self@,
            r.spec_max_len() == max_len,
    {
        DebugSlice { data: self, max_len }
    }
}

/// A slice shown in part: its first `max_len` entries, then a note of how
/// many more there are.
pub struct DebugSlice<'a, T> {
    data: &'a [T],
    max_len: usize,
}

impl<'a, T> DebugSlice<'a, T> {
    /// The whole slice.
    pub closed spec fn spec_data(&self) -> Seq<T> {
        self.data@
    }

    /// The most entries shown.
    pub closed spec fn spec_max_len(&self) -> usize {
        self.max_len
    }

    /// The entries shown: the first `max_len`, or all when there are fewer.
    pub fn shown(&self) -> (r: &'a [T])
        ensures
            r@ == self.spec_data().take(
                if self.spec_data().len() < self.spec_max_len() {
                    self.spec_data().len() as int
                } else {
                    self.spec_max_len() as int
                },
            ),
    {
        let n = if self.data.len() < self.max_len {
            self.data.len()
        } else {
            self.max_len
        };
        &self.data[0..n]
    }

    /// How many entries are left out, when some are.
    pub fn more(&self) -> (r: Option<usize>)
        ensures
            self.spec_data().len() > self.spec_max_len() ==> r == Some(
                (self.spec_data().len() - self.spec_max_len()) as usize,
            ),
            self.spec_data().len() <= self.spec_max_len() ==> r is None,
    {
        if self.data.len() > self.max_len {
            Some(self.data.len() - self.max_len)
        } else {
            None
        }
    }
}

} // verus!

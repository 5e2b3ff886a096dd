use vstd::prelude::*;
use vstd::slice::slice_subrange;
use std::rc::Rc;

verus! {

/// Immutable, shareable view over the raw container bytes.
///
/// Cloning yields another handle onto the *same* backing buffer; no byte is
/// ever copied or mutated after construction. All reads are by absolute
/// offset or offset range, and an out-of-range access is reported, never
/// silently truncated.
pub struct Source {
    inner: Rc<Vec<u8>>,
}

impl View for Source {
    type V = Seq<u8>;

    closed spec fn view(&self) -> Seq<u8> {
        self.inner@
    }
}

impl Source {
    pub fn new(inner: Vec<u8>) -> (r: Self)
        ensures
            r@ == inner@,
    {
        Source { inner: Rc::new(inner) }
    }

    pub fn len(&self) -> (r: usize)
        ensures
            r == self@.len(),
    {
        self.inner.len()
    }

    /// Single-byte indexed access.
    pub fn get(&self, index: usize) -> (r: Option<u8>)
        ensures
            index < self@.len() ==> r == Some(self@[index as int]),
            index >= self@.len() ==> r is None,
    {
        if index < self.inner.len() {
            Some(self.inner[index])
        } else {
            None
        }
    }

    /// Single-byte access at an offset the caller has already bounds-checked.
    pub(crate) fn byte_at(&self, index: usize) -> (r: u8)
        requires
            index < self@.len(),
        ensures
            r == self@[index as int],
    {
        self.inner[index]
    }

    /// Bounded-range slice access.
    pub fn get_range(&self, start: usize, end: usize) -> (r: Option<&[u8]>)
        ensures
            start <= end && end <= self@.len() ==> (r matches Some(s) && s@ == self@.subrange(
                start as int,
                end as int,
            )),
            !(start <= end && end <= self@.len()) ==> r is None,
    {
        if start <= end && end <= self.inner.len() {
            Some(slice_subrange((*self.inner).as_slice(), start, end))
        } else {
            None
        }
    }

    /// Open-ended range access: everything from `start` to the end.
    pub fn get_range_from(&self, start: usize) -> (r: Option<&[u8]>)
        ensures
            start <= self@.len() ==> (r matches Some(s) && s@ == self@.subrange(
                start as int,
                self@.len() as int,
            )),
            start > self@.len() ==> r is None,
    {
        if start <= self.inner.len() {
            Some(slice_subrange((*self.inner).as_slice(), start, self.inner.len()))
        } else {
            None
        }
    }
}

impl Clone for Source {
    /// A second handle sharing the same backing storage: both handles
    /// observe identical bytes at every offset, and no mutating access
    /// exists on either.
    fn clone(&self) -> (r: Self)
        ensures
            r@ == self@,
    {
        Source { inner: Rc::clone(&self.inner) }
    }
}

} // verus!

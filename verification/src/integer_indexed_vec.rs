//! A contiguous zero-based buffer read and written through a signed integer
//! index: index `i` reaches physical position `i + offset`, so a buffer
//! wrapped with offset `k` spans the index range `[-k, len - k)`.

use vstd::prelude::*;
use vstd::std_specs::iter::IteratorSpec;

verus! {

broadcast use
    vstd::std_specs::slice::axiom_spec_slice_iter,
    vstd::std_specs::vec::axiom_spec_into_iter,
;

/// A buffer with its index translation.
#[derive(Debug, Clone)]
pub struct IntegerIndexedVec<T> {
    v: Vec<T>,
    offset: usize,
}

impl<T> View for IntegerIndexedVec<T> {
    type V = Seq<T>;

    closed spec fn view(&self) -> Seq<T> {
        self.v@
    }
}

impl<T> IntegerIndexedVec<T> {
    /// The translation added to every index.
    pub closed spec fn spec_offset(&self) -> int {
        self.offset as int
    }

    /// A signed index is in range when its translated physical position lands
    /// in the buffer and the translation arithmetic stays within `i32`.
    pub open spec fn in_range(&self, index: int) -> bool {
        &&& self.spec_offset() <= i32::MAX as int
        &&& 0 <= index + self.spec_offset() < self@.len()
        &&& index + self.spec_offset() <= i32::MAX as int
    }

    /// Wraps a buffer with the given index translation.
    pub fn new(v: Vec<T>, offset: usize) -> (r: Self)
        ensures
            r@ == v@,
            r.spec_offset() == offset,
    {
        IntegerIndexedVec { v, offset }
    }

    /// Iterates over the buffer in physical order.
    pub fn iter(&self) -> (r: std::slice::Iter<'_, T>)
        ensures
            r.remaining() == self@.as_ref(),
    {
        self.v.as_slice().iter()
    }

    /// Hands the buffer out in physical order.
    pub fn into_iter(self) -> (r: std::vec::IntoIter<T>)
        ensures
            r.remaining() == self@,
    {
        self.v.into_iter()
    }

    /// Reads the element at signed index `index`, that is, at physical
    /// position `index + offset`.
    pub fn index(&self, index: i32) -> (r: &T)
        requires
            self.in_range(index as int),
        ensures
            *r == self@[index + self.spec_offset()],
    {
        let actual_index = index + (self.offset as i32);
        &self.v[actual_index as usize]
    }

    /// Borrows the element at signed index `index` for writing; the buffer
    /// afterwards holds whatever was written through the borrow, and nothing
    /// else changes.
    pub fn index_mut(&mut self, index: i32) -> (r: &mut T)
        requires
            old(self).in_range(index as int),
        ensures
            *r == old(self)@[index + old(self).spec_offset()],
            final(self)@ == old(self)@.update(
                index + old(self).spec_offset(),
                *final(r),
            ),
            final(self).spec_offset() == old(self).spec_offset(),
    {
        let actual_index = index + (self.offset as i32);
        &mut self.v[actual_index as usize]
    }
}

/// Conversion of a zero-based collection into an offset-indexed one.
pub trait IntoIntegerIndexedVec: Sized {
    type Output;

    /// The elements the collection holds, in order.
    spec fn spec_elems(&self) -> Seq<Self::Output>;

    /// Wraps the collection so that signed index `i` reaches physical
    /// position `i + offset`.
    fn into_i32_indexed_vec(self, offset: usize) -> (r: IntegerIndexedVec<Self::Output>)
        ensures
            r@ == self.spec_elems(),
            r.spec_offset() == offset,
    ;
}

impl<T> IntoIntegerIndexedVec for Vec<T> {
    type Output = T;

    open spec fn spec_elems(&self) -> Seq<T> {
        self@
    }

    fn into_i32_indexed_vec(self, offset: usize) -> (r: IntegerIndexedVec<T>) {
        IntegerIndexedVec::new(self, offset)
    }
}

} // verus!

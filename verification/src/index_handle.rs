//! Typed index handles for graph resources.
//!
//! A handle is an index tagged with the type it refers to; the largest
//! index is reserved as the invalid handle.

use vstd::prelude::*;

use core::marker::PhantomData;

verus! {

pub struct IndexHandle<T> {
    pub index: usize,
    pub _marker: PhantomData<T>,
}

impl<T> IndexHandle<T> {
    /// The index of the handle.
    pub open spec fn index_s(self) -> usize {
        self.index
    }

    pub fn new(index: usize) -> (r: IndexHandle<T>)
        ensures
            r.index_s() == index,
    {
        IndexHandle { index, _marker: PhantomData }
    }

    /// The reserved invalid handle.
    pub fn invalid() -> (r: IndexHandle<T>)
        ensures
            r.index_s() == usize::MAX,
    {
        IndexHandle { index: usize::MAX, _marker: PhantomData }
    }

    pub fn index(&self) -> (r: usize)
        ensures
            r == self.index_s(),
    {
        self.index
    }

    /// Every index except the reserved one is valid.
    pub fn is_valid(&self) -> (r: bool)
        ensures
            r == (self.index_s() != usize::MAX),
    {
        self.index != usize::MAX
    }
}

impl<T> PartialEq for IndexHandle<T> {
    fn eq(&self, other: &Self) -> (r: bool) {
        self.index == other.index
    }
}

impl<T> vstd::std_specs::cmp::PartialEqSpecImpl for IndexHandle<T> {
    open spec fn obeys_eq_spec() -> bool {
        true
    }

    open spec fn eq_spec(&self, other: &IndexHandle<T>) -> bool {
        self.index == other.index
    }
}

impl<T> Clone for IndexHandle<T> {
    fn clone(&self) -> (r: Self)
        ensures
            r.index_s() == self.index_s(),
    {
        IndexHandle { index: self.index, _marker: PhantomData }
    }
}

impl<T> Default for IndexHandle<T> {
    /// The default handle is the invalid one.
    fn default() -> (r: Self)
        ensures
            r.index_s() == usize::MAX,
    {
        IndexHandle::invalid()
    }
}

} // verus!

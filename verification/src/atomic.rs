//! A cursor field kept in one atomic word.

use vstd::prelude::*;
use std::sync::atomic::{AtomicUsize, Ordering};
use crate::atom_pair::fetch_add_word;
use crate::field::Field;

verus! {

/// A cursor over `index_max` that several workers read and move. What a
/// read returns depends on what the other workers have done by then, so
/// only the capacity of the result is stated. The cursor records the value
/// that it was made with.
pub struct AtomicField {
    index_max: usize,
    inner: AtomicUsize,
    start: Ghost<Field>,
}

impl AtomicField {
    /// The capacity that the cursor indexes.
    pub closed spec fn capacity(&self) -> usize {
        self.index_max
    }

    /// The value that the cursor was made with.
    pub closed spec fn started_at(&self) -> Field {
        self.start@
    }

    /// A cursor that starts at `value`.
    pub fn new(value: Field) -> (field: Self)
        ensures
            field.capacity() == value.capacity(),
            field.started_at() == value,
    {
        Self {
            index_max: value.get_index_max(),
            inner: AtomicUsize::new(value.get_raw_inner()),
            start: Ghost(value),
        }
    }

    /// The cursor as it stands. A read takes no ordering that releases.
    pub fn load(&self, order: Ordering) -> (field: Field)
        requires
            order != Ordering::Release,
            order != Ordering::AcqRel,
        ensures
            field.capacity() == self.capacity(),
    {
        Field::from_raw_parts(self.index_max, self.inner.load(order))
    }

    /// Adds `val` to the cursor's word and returns the cursor as it stood
    /// before.
    pub fn fetch_add(&self, val: usize, order: Ordering) -> (old: Field)
        ensures
            old.capacity() == self.capacity(),
    {
        Field::from_raw_parts(self.index_max, self.inner.fetch_add(val, order))
    }

    /// Adds one to the cursor's word with release ordering, publishing what
    /// was written before.
    pub fn publish_one(&self)
        opens_invariants none
        no_unwind
    {
        fetch_add_word(&self.inner, 1, Ordering::Release);
    }

    /// Raises the cursor to `val` if that is larger and returns the cursor
    /// as it stood before.
    pub fn fetch_max(&self, val: Field, order: Ordering) -> (old: Field)
        ensures
            old.capacity() == self.capacity(),
    {
        Field::from_raw_parts(self.index_max, self.inner.fetch_max(val.get_raw_inner(), order))
    }
}

} // verus!

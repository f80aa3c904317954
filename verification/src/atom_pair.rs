//! The pair of cursors that one stage keeps in one block.
//!
//! `take` moves first, when a worker sets out to work on a slot; `give`
//! moves after the work is done. What a load returns depends on what other
//! workers have done by then, so the contracts here speak of the capacity
//! alone; the rules that read these cursors are stated where the loaded
//! values are arguments. A pair records the value that its cursors were
//! made with.

use vstd::prelude::*;
use std::sync::atomic::{AtomicUsize, Ordering};
use crate::field::Field;

verus! {

/// A wrapper that marks a value as one that many workers write to. It is
/// laid out as the value itself.
pub struct Line128<T>(pub T);

impl<T> Line128<T> {
    pub fn new(value: T) -> (line: Self)
        ensures
            line.0 == value,
    {
        Self(value)
    }

    pub fn get(&self) -> (value: &T)
        ensures
            *value == self.0,
    {
        &self.0
    }
}

/// Adds `val` to `word` with the ordering `order` and returns what it held
/// before. `AtomicUsize::fetch_add` takes every ordering and wraps around
/// when the word is full, so the call never unwinds; nothing is claimed of
/// the value it returns.
#[verifier::external_body]
pub(crate) fn fetch_add_word(word: &AtomicUsize, val: usize, order: Ordering) -> (old: usize)
    opens_invariants none
    no_unwind
{
    word.fetch_add(val, order)
}

/// The `take` and `give` cursors of one stage in one block.
pub struct AtomicPair {
    index_max: usize,
    take: Line128<AtomicUsize>,
    give: Line128<AtomicUsize>,
    start: Ghost<Field>,
}

impl AtomicPair {
    /// The capacity that both cursors index.
    pub closed spec fn capacity(&self) -> usize {
        self.index_max
    }

    /// The value that both cursors were made with.
    pub closed spec fn started_at(&self) -> Field {
        self.start@
    }

    /// A pair whose cursors both start at `value`.
    pub fn from_field(value: Field) -> (pair: Self)
        ensures
            pair.capacity() == value.capacity(),
            pair.started_at() == value,
    {
        proof {
            value.lemma_of_own_word();
        }
        Self::from_raw_parts(value.get_index_max(), value.get_raw_inner())
    }

    /// A pair over `index_max` whose cursors both start at the word `inner`.
    pub fn from_raw_parts(index_max: usize, inner: usize) -> (pair: Self)
        ensures
            pair.capacity() == index_max,
            pair.started_at() == Field::of_word(index_max, inner),
    {
        Self {
            index_max,
            take: Line128::new(AtomicUsize::new(inner)),
            give: Line128::new(AtomicUsize::new(inner)),
            start: Ghost(Field::of_word(index_max, inner)),
        }
    }

    pub fn get_index_max(&self) -> (m: usize)
        ensures
            m == self.capacity(),
    {
        self.index_max
    }

    /// Reads `take`, relaxed.
    pub fn load_take(&self) -> (f: Field)
        ensures
            f.capacity() == self.capacity(),
    {
        Field::from_raw_parts(self.index_max, self.take.get().load(Ordering::Relaxed))
    }

    /// Raises `take` to `val` if that is larger, relaxed, and returns what
    /// it held before.
    pub fn fetch_max_take(&self, val: Field) -> (old: Field)
        ensures
            old.capacity() == self.capacity(),
    {
        Field::from_raw_parts(
            self.index_max,
            self.take.get().fetch_max(val.get_raw_inner(), Ordering::Relaxed),
        )
    }

    /// Reads `give` with acquire ordering, so that what was written to a
    /// slot before its `give` was published is seen after this load.
    pub fn load_give(&self) -> (f: Field)
        ensures
            f.capacity() == self.capacity(),
    {
        Field::from_raw_parts(self.index_max, self.give.get().load(Ordering::Acquire))
    }

    /// Adds one to `give` with release ordering, publishing what was
    /// written to the slot before.
    pub fn incr_give(&self)
        opens_invariants none
        no_unwind
    {
        fetch_add_word(&self.give.0, 1, Ordering::Release);
    }

    /// Raises `give` to `val` if that is larger, relaxed, and returns what
    /// it held before.
    pub fn fetch_max_give(&self, val: Field) -> (old: Field)
        ensures
            old.capacity() == self.capacity(),
    {
        Field::from_raw_parts(
            self.index_max,
            self.give.get().fetch_max(val.get_raw_inner(), Ordering::Relaxed),
        )
    }

    /// Raises both cursors to `val`, each on its own, and returns the old
    /// `(give, take)`.
    pub fn fetch_max_both(&self, val: Field) -> (old: (Field, Field))
        ensures
            old.0.capacity() == self.capacity(),
            old.1.capacity() == self.capacity(),
    {
        let give = self.fetch_max_give(val);
        let take = self.fetch_max_take(val);
        (give, take)
    }
}

} // verus!

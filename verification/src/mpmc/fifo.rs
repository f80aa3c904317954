//! The two-stage queue as its users hold it.

use vstd::prelude::*;
use std::sync::Arc;
use crate::error::Error;
use crate::fifo::unwrap_last;
use crate::mpmc::entries::{ConsumingEntry, ProducingEntry};
use crate::mpmc::fifo_inner::FastFifoInner;

verus! {

/// A queue shared by reference counting among producers and consumers.
///
/// The slots keep what they hold when the last reference goes away; to
/// have the values dropped, take the queue back with `into_inner` and take
/// it down with `drop_in`.
#[verifier::reject_recursive_types(T)]
pub struct FastFifo<T>(Arc<FastFifoInner<T>>);

impl<T> Clone for FastFifo<T> {
    /// A further reference to the same queue.
    fn clone(&self) -> (copy: Self)
        ensures
            copy == *self,
    {
        Self(self.0.clone())
    }
}

impl<T> FastFifo<T> {
    /// The queue that is shared.
    pub closed spec fn shared(&self) -> FastFifoInner<T> {
        *self.0
    }

    /// A queue of `num_blocks` blocks of `block_size` slots each.
    pub fn new(num_blocks: usize, block_size: usize) -> (fifo: Self)
        requires
            FastFifoInner::<T>::valid_shape(num_blocks, block_size),
        ensures
            fifo.shared().ring() == num_blocks,
            fifo.shared().slab() == block_size,
            fifo.shared().made_fresh(),
    {
        Self(Arc::new(FastFifoInner::new(num_blocks, block_size)))
    }

    /// A queue of the given shape, or nothing where the shape is not
    /// valid.
    pub fn checked_new(num_blocks: usize, block_size: usize) -> (fifo: Option<Self>)
        ensures
            fifo.is_some() == FastFifoInner::<T>::valid_shape(num_blocks, block_size),
            fifo matches Some(f) ==> f.shared().ring() == num_blocks && f.shared().slab()
                == block_size && f.shared().made_fresh(),
    {
        match FastFifoInner::checked_new(num_blocks, block_size) {
            Some(inner) => Some(Self(Arc::new(inner))),
            None => None,
        }
    }

    /// The queue itself, where this is the last reference to it; otherwise
    /// the reference comes back.
    pub fn into_inner(self) -> (last: Result<FastFifoInner<T>, Self>)
        ensures
            match last {
                Ok(inner) => inner == self.shared(),
                Err(still) => still == self,
            },
    {
        match unwrap_last(self.0) {
            Ok(inner) => Ok(inner),
            Err(still) => Err(Self(still)),
        }
    }

    /// The number of slots in the ring.
    pub fn capacity(&self) -> (n: usize)
        ensures
            n == self.shared().ring() * self.shared().slab(),
    {
        self.0.capacity()
    }

    pub fn try_get_producer_entry(&self) -> (entry: Result<ProducingEntry<'_, T>, Error>)
        ensures
            entry matches Ok(e) ==> e.entry().place().block_idx < self.shared().ring()
                && e.entry().place().sub_block_idx < self.shared().slab() && e.entry().found() is None
                && e.entry().left() is None,
            entry matches Err(e) ==> e == Error::Full || e == Error::Busy,
    {
        self.0.get_producer_entry()
    }

    pub fn push_in_place<F: FnOnce() -> T>(&self, producer: F) -> (done: Result<(), Error>)
        requires
            call_requires(producer, ()),
        ensures
            done matches Err(e) ==> e == Error::Full || e == Error::Busy,
            done is Ok ==> exists|value: T| call_ensures(producer, (), value),
    {
        self.0.push_in_place(producer)
    }

    pub fn push(&self, val: T) -> (done: Result<(), Error>)
        ensures
            done matches Err(e) ==> e == Error::Full || e == Error::Busy,
    {
        self.0.push(val)
    }

    pub fn try_get_consumer_entry(&self) -> (entry: Result<ConsumingEntry<'_, T>, Error>)
        ensures
            entry matches Ok(e) ==> e.entry().place().block_idx < self.shared().ring()
                && e.entry().place().sub_block_idx < self.shared().slab() && e.entry().found() is None
                && e.entry().left() is None,
            entry matches Err(e) ==> e == Error::Empty || e == Error::Busy,
    {
        self.0.get_consumer_entry()
    }

    pub fn pop_in_place<F: FnOnce(T)>(&self, consumer: F) -> (done: Result<(), Error>)
        requires
            forall|v: T| call_requires(consumer, (v,)),
        ensures
            done matches Err(e) ==> e == Error::Empty || e == Error::Busy,
    {
        self.0.pop_in_place(consumer)
    }

    pub fn pop(&self) -> (value: Result<T, Error>)
        ensures
            value matches Err(e) ==> e == Error::Empty || e == Error::Busy,
    {
        self.0.pop()
    }
}

} // verus!

//! The pipeline as its users hold it: shared by reference counting, split
//! into one façade per stage.

use vstd::prelude::*;
use std::sync::Arc;
use crate::config::{FifoTag, IndexedDrop, TaggedClone};
use crate::entries::{ConsumingEntry, ProducingEntry};
use crate::entry_descriptor::EntryDescriptor;
use crate::error::Error;
use crate::fifo_inner::FastFifoInner;

verus! {

/// `Arc::try_unwrap` hands out the value where `shared` is the last
/// reference to it, and hands the reference back where it is not.
#[verifier::external_body]
pub(crate) fn unwrap_last<T>(shared: Arc<T>) -> (last: Result<T, Arc<T>>)
    ensures
        match last {
            Ok(value) => value == *shared,
            Err(still) => still == shared,
        },
{
    Arc::try_unwrap(shared)
}

/// A shared pipeline.
///
/// The slots keep what they hold when the last reference goes away; to
/// have the payloads given up, take the pipeline back with `into_inner` and
/// take it down with `drop_in`.
#[verifier::reject_recursive_types(Inner)]
pub struct FastFifo<Tag: FifoTag, Inner: IndexedDrop<Tag> + Default>(
    Arc<FastFifoInner<Tag, Inner>>,
);

impl<Tag: FifoTag, Inner: IndexedDrop<Tag> + Default> TaggedClone<Tag> for FastFifo<Tag, Inner> {
    /// A further reference to the same pipeline.
    fn unchecked_clone(&self) -> (copy: Self)
        ensures
            copy == *self,
    {
        Self(self.0.clone())
    }
}

impl<Tag: FifoTag, Inner: IndexedDrop<Tag> + Default> FastFifo<Tag, Inner> {
    /// The pipeline that is shared.
    pub closed spec fn shared(&self) -> FastFifoInner<Tag, Inner> {
        *self.0
    }

    /// A pipeline of `num_blocks` blocks of `block_size` slots each.
    pub fn new(num_blocks: usize, block_size: usize) -> (fifo: Self)
        requires
            FastFifoInner::<Tag, Inner>::valid_shape(num_blocks, block_size),
        ensures
            fifo.shared().ring() == num_blocks,
            fifo.shared().slab() == block_size,
            fifo.shared().heads_fit(),
            fifo.shared().made_fresh(),
    {
        Self(Arc::new(FastFifoInner::new_in(num_blocks, block_size)))
    }

    /// A pipeline of the given shape, or nothing where the shape is not
    /// valid: fewer than two stages or two blocks, or no slot in a block.
    pub fn checked_new(num_blocks: usize, block_size: usize) -> (fifo: Option<Self>)
        ensures
            fifo.is_some() == FastFifoInner::<Tag, Inner>::valid_shape(num_blocks, block_size),
            fifo matches Some(f) ==> f.shared().ring() == num_blocks && f.shared().slab() == block_size
                && f.shared().heads_fit() && f.shared().made_fresh(),
    {
        match FastFifoInner::checked_new(num_blocks, block_size) {
            Some(inner) => Some(Self(Arc::new(inner))),
            None => None,
        }
    }

    /// The pipeline itself, where this is the last reference to it;
    /// otherwise the reference comes back.
    pub fn into_inner(self) -> (last: Result<FastFifoInner<Tag, Inner>, Self>)
        ensures
            match last {
                Ok(inner) => inner == self.shared(),
                Err(still) => still == self,
            },
    {
        match unwrap_last(self.0) {
            Ok(inner) => Ok(inner),
            Err(still) => Err(Self(still)),
        }
    }

    /// Reserves the next slot for stage `tag`, or says why there is none.
    pub fn get_entry(&self, tag: Tag) -> (entry: Result<EntryDescriptor<'_, Tag, Inner>, Error>)
        ensures
            entry matches Ok(e) ==> {
                &&& e.holder() == tag
                &&& e.found() is None
                &&& e.left() is None
                &&& e.slot() < self.shared().slab()
                &&& exists|b: int| 0 <= b < self.shared().ring() && e.home() == self.shared().block_at(b)
            },
            entry matches Err(e) ==> e == Error::Busy || e == Error::NotAvailable,
    {
        self.0.get_entry(tag)
    }

    /// One façade for each stage, in the order of the stages.
    pub fn split(self) -> (stages: Vec<Stage<Tag, Inner>>)
        ensures
            stages.len() == Tag::stages(),
            forall|s: int|
                0 <= s < stages.len() ==> (#[trigger] stages[s]).tag().stage() == s && stages[s].fifo()
                    == self,
    {
        let count = Tag::num_transformations();
        let mut stages: Vec<Stage<Tag, Inner>> = Vec::new();
        let mut s: usize = 0;
        while s < count
            invariant
                count == Tag::stages(),
                s <= count,
                stages.len() == s,
                forall|j: int|
                    0 <= j < s ==> (#[trigger] stages[j]).tag().stage() == j && stages[j].fifo() == self,
            decreases count - s,
        {
            match Tag::from_index(s) {
                Some(tag) => {
                    stages.push(Stage { fifo: self.unchecked_clone(), tag });
                },
                None => {
                    assert(false);
                },
            }
            s = s + 1;
        }
        stages
    }
}

/// The pipeline as one stage sees it.
#[verifier::reject_recursive_types(Inner)]
pub struct Stage<Tag: FifoTag, Inner: IndexedDrop<Tag> + Default> {
    fifo: FastFifo<Tag, Inner>,
    tag: Tag,
}

impl<Tag: FifoTag, Inner: IndexedDrop<Tag> + Default> TaggedClone<Tag> for Stage<Tag, Inner> {
    fn unchecked_clone(&self) -> (copy: Self)
        ensures
            copy == *self,
    {
        Self { fifo: self.fifo.unchecked_clone(), tag: self.tag }
    }
}

impl<Tag: FifoTag, Inner: IndexedDrop<Tag> + Default> Stage<Tag, Inner> {
    /// The stage.
    pub closed spec fn tag(&self) -> Tag {
        self.tag
    }

    /// The pipeline.
    pub closed spec fn fifo(&self) -> FastFifo<Tag, Inner> {
        self.fifo
    }

    pub fn get_tag(&self) -> (tag: Tag)
        ensures
            tag == self.tag(),
    {
        self.tag
    }

    /// Gives the façade up for its reference to the pipeline.
    pub fn into_fifo(self) -> (fifo: FastFifo<Tag, Inner>)
        ensures
            fifo == self.fifo(),
    {
        self.fifo
    }

    /// A façade for a further worker of this stage. A stage that takes a
    /// single worker hands out none.
    pub fn try_clone(&self) -> (copy: Option<Self>)
        ensures
            copy.is_some() == self.tag().atomic(),
            copy matches Some(c) ==> c == *self,
    {
        if self.tag.is_atomic() {
            Some(self.unchecked_clone())
        } else {
            None
        }
    }

    /// Reserves the next slot for this stage, or says why there is none.
    pub fn get_entry(&self) -> (entry: Result<EntryDescriptor<'_, Tag, Inner>, Error>)
        ensures
            entry matches Ok(e) ==> {
                &&& e.holder() == self.tag()
                &&& e.found() is None
                &&& e.left() is None
                &&& e.slot() < self.fifo().shared().slab()
                &&& exists|b: int|
                    0 <= b < self.fifo().shared().ring() && e.home() == self.fifo().shared().block_at(b)
            },
            entry matches Err(e) ==> e == Error::Busy || e == Error::NotAvailable,
    {
        self.fifo.get_entry(self.tag)
    }

    /// Reserves the next slot, puts what `producer` returns into it, and
    /// publishes it. Where no slot is to be had `producer` is not called.
    pub fn produce<F: FnOnce() -> Inner>(&self, producer: F) -> (done: Result<(), Error>)
        requires
            call_requires(producer, ()),
        ensures
            done matches Err(e) ==> e == Error::Busy || e == Error::NotAvailable,
            done is Ok ==> exists|value: Inner| call_ensures(producer, (), value),
    {
        match self.get_entry() {
            Ok(entry) => {
                let mut entry = ProducingEntry(entry);
                entry.push_t_in_place(producer);
                Ok(())
            },
            Err(e) => Err(e),
        }
    }

    /// Reserves the next slot, takes what it holds out of it and hands it
    /// to `consumer`, and publishes the slot. Where no slot is to be had
    /// `consumer` is not called.
    pub fn consume<F: FnOnce(Inner)>(&self, consumer: F) -> (done: Result<(), Error>)
        requires
            forall|v: Inner| call_requires(consumer, (v,)),
        ensures
            done matches Err(e) ==> e == Error::Busy || e == Error::NotAvailable,
            done is Ok ==> exists|found: Inner| call_ensures(consumer, (found,), ()),
    {
        match self.get_entry() {
            Ok(entry) => {
                let mut entry = ConsumingEntry(entry);
                entry.pop_in_place(consumer);
                Ok(())
            },
            Err(e) => Err(e),
        }
    }

    /// Reserves the next slot, replaces what it holds by what `transformer`
    /// makes of it, and publishes it. Where no slot is to be had
    /// `transformer` is not called.
    pub fn transform<F: FnOnce(Inner) -> Inner>(&self, transformer: F) -> (done: Result<(), Error>)
        requires
            forall|v: Inner| call_requires(transformer, (v,)),
        ensures
            done matches Err(e) ==> e == Error::Busy || e == Error::NotAvailable,
            done is Ok ==> exists|before: Inner, after: Inner|
                call_ensures(transformer, (before,), after),
    {
        match self.get_entry() {
            Ok(mut entry) => {
                entry.modify_t_in_place(transformer);
                Ok(())
            },
            Err(e) => Err(e),
        }
    }
}

} // verus!

//! The handles over one slot of the two-stage queue.

use vstd::prelude::*;
use crate::mpmc::block::Block;

verus! {

/// Where a slot lies: in which block of the ring, and at which place in the
/// block.
#[derive(Clone, Copy, Debug, PartialEq, Eq, Structural)]
pub struct FifoIndex {
    pub block_idx: usize,
    pub sub_block_idx: usize,
}

/// One slot of one block, held by one worker. What other workers did to
/// the slot before lies outside what is proved here, so the handle keeps a
/// record of its own: what the holder found in the slot and what it left
/// there when it last worked on it.
#[verifier::reject_recursive_types(T)]
pub struct EntryDescription<'a, T> {
    pub(crate) block: &'a Block<T>,
    pub(crate) index: FifoIndex,
    pub(crate) version: usize,
    pub(crate) found: Ghost<Option<Option<T>>>,
    pub(crate) left: Ghost<Option<Option<T>>>,
}

impl<'a, T> EntryDescription<'a, T> {
    /// The slot lies within its block.
    #[verifier::type_invariant]
    pub closed spec fn wf(&self) -> bool {
        self.block.wf() && self.index.sub_block_idx < self.block.capacity()
    }

    /// Where the slot lies.
    pub closed spec fn place(&self) -> FifoIndex {
        self.index
    }

    /// The block that the slot lies in.
    pub closed spec fn home(&self) -> Block<T> {
        *self.block
    }

    /// The lap in which the slot was reserved.
    pub closed spec fn lap(&self) -> usize {
        self.version
    }

    /// What the holder found in the slot when it last worked on it;
    /// nothing as long as it has not.
    pub closed spec fn found(&self) -> Option<Option<T>> {
        self.found@
    }

    /// What the holder left in the slot when it last worked on it; nothing
    /// as long as it has not.
    pub closed spec fn left(&self) -> Option<Option<T>> {
        self.left@
    }

    pub(crate) fn new(block: &'a Block<T>, index: FifoIndex, version: usize) -> (entry: Self)
        requires
            block.wf(),
            index.sub_block_idx < block.capacity(),
        ensures
            entry.place() == index,
            entry.home() == *block,
            entry.lap() == version,
            entry.found() is None,
            entry.left() is None,
    {
        Self { block, index, version, found: Ghost(None), left: Ghost(None) }
    }

    pub fn get_index(&self) -> (index: FifoIndex)
        ensures
            index == self.place(),
            index.sub_block_idx < self.home().capacity(),
    {
        proof {
            use_type_invariant(self);
        }
        self.index
    }

    /// Replaces what the slot holds by what `modifier` makes of it.
    pub fn modify_t_in_place<F: FnOnce(Option<T>) -> Option<T>>(&mut self, modifier: F)
        requires
            forall|v: Option<T>| call_requires(modifier, (v,)),
        ensures
            final(self).place() == old(self).place(),
            final(self).home() == old(self).home(),
            final(self).lap() == old(self).lap(),
            final(self).found() matches Some(before) && final(self).left() matches Some(after)
                && call_ensures(modifier, (before,), after),
    {
        proof {
            use_type_invariant(&*self);
        }
        let before = self.block.take_slot(self.index.sub_block_idx);
        let ghost was = before;
        let after = modifier(before);
        let ghost now = after;
        self.block.put_slot(self.index.sub_block_idx, after);
        self.found = Ghost(Some(was));
        self.left = Ghost(Some(now));
    }

    /// Takes what the slot holds out of it and leaves it empty. What was
    /// found is what is returned.
    pub fn take(&mut self) -> (value: Option<T>)
        ensures
            final(self).place() == old(self).place(),
            final(self).home() == old(self).home(),
            final(self).lap() == old(self).lap(),
            final(self).found() == Some(value),
            final(self).left() == Some(None::<T>),
    {
        proof {
            use_type_invariant(&*self);
        }
        let value = self.block.swap_slot(self.index.sub_block_idx, None);
        self.found = Ghost(Some(value));
        self.left = Ghost(Some(None));
        value
    }
}

/// A slot that a producer has allocated and fills. Letting go of it
/// commits the slot to the consumers.
#[verifier::reject_recursive_types(T)]
pub struct ProducingEntry<'a, T>(pub(crate) EntryDescription<'a, T>);

impl<'a, T> ProducingEntry<'a, T> {
    /// The slot.
    pub closed spec fn entry(&self) -> EntryDescription<'a, T> {
        self.0
    }

    pub(crate) fn new(entry: EntryDescription<'a, T>) -> (producing: Self)
        ensures
            producing.entry() == entry,
    {
        Self(entry)
    }

    pub fn get_index(&self) -> (index: FifoIndex)
        ensures
            index == self.entry().place(),
    {
        self.0.get_index()
    }

    /// Puts what `producer` returns into the slot.
    pub fn produce_t_in_place<F: FnOnce() -> T>(&mut self, producer: F)
        requires
            call_requires(producer, ()),
        ensures
            final(self).entry().place() == old(self).entry().place(),
            final(self).entry().found() is Some,
            final(self).entry().left() matches Some(Some(value)) && call_ensures(
                producer,
                (),
                value,
            ),
    {
        let value = producer();
        self.produce_t(value);
    }

    /// Puts `value` into the slot.
    pub fn produce_t(&mut self, value: T)
        ensures
            final(self).entry().place() == old(self).entry().place(),
            final(self).entry().found() is Some,
            final(self).entry().left() == Some(Some(value)),
    {
        let ghost put = value;
        let putter = |_before: Option<T>| -> (after: Option<T>)
            ensures
                after == Some(put),
            { Some(value) };
        self.0.modify_t_in_place(putter);
    }
}

impl<'a, T> Drop for ProducingEntry<'a, T> {
    /// Commits the slot: the block's `committed` cursor moves on by one.
    fn drop(&mut self)
        opens_invariants none
        no_unwind
    {
        self.0.block.commit_one();
    }
}

/// A slot that a consumer has reserved and empties. Letting go of it hands
/// the slot back to the producers.
#[verifier::reject_recursive_types(T)]
pub struct ConsumingEntry<'a, T>(pub(crate) EntryDescription<'a, T>);

impl<'a, T> ConsumingEntry<'a, T> {
    /// The slot.
    pub closed spec fn entry(&self) -> EntryDescription<'a, T> {
        self.0
    }

    pub(crate) fn new(entry: EntryDescription<'a, T>) -> (consuming: Self)
        ensures
            consuming.entry() == entry,
    {
        Self(entry)
    }

    pub fn get_index(&self) -> (index: FifoIndex)
        ensures
            index == self.entry().place(),
    {
        self.0.get_index()
    }

    /// Takes the value out of the slot, which is left empty; nothing where
    /// the slot holds none.
    pub fn take(&mut self) -> (value: Option<T>)
        ensures
            final(self).entry().place() == old(self).entry().place(),
            final(self).entry().found() == Some(value),
            final(self).entry().left() == Some(None::<T>),
    {
        self.0.take()
    }

    /// Takes the value out of the slot and hands it to `consumer`. A slot
    /// that holds nothing is left alone and `consumer` is not called.
    pub fn consume_t_in_place<F: FnOnce(T)>(&mut self, consumer: F)
        requires
            forall|v: T| call_requires(consumer, (v,)),
        ensures
            final(self).entry().place() == old(self).entry().place(),
            final(self).entry().left() == Some(None::<T>),
            final(self).entry().found() matches Some(held) && (held matches Some(value)
                ==> call_ensures(consumer, (value,), ())),
    {
        match self.take() {
            Some(value) => consumer(value),
            None => {},
        }
    }
}

impl<'a, T> Drop for ConsumingEntry<'a, T> {
    /// Hands the slot back: the block's `consumed` cursor moves on by one.
    fn drop(&mut self)
        opens_invariants none
        no_unwind
    {
        self.0.block.consume_one();
    }
}

} // verus!

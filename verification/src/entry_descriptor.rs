//! The handle over one reserved slot.
//!
//! A handle is made by a successful reservation and stands for the
//! exclusive use of one slot at one stage. Letting go of it, in whatever
//! way, publishes the stage's work on the slot to the stage that follows.
//!
//! What other workers did to the slot before lies outside what is proved
//! here, so the handle keeps a record of its own: what the holder found in
//! the slot and what it left there when it last worked on it.

use vstd::prelude::*;
use crate::atom_pair::AtomicPair;
use crate::block::Block;
use crate::config::{FifoTag, IndexedDrop};

verus! {

/// Exclusive use of the slot `index` of `block` at stage `tag`.
#[verifier::reject_recursive_types(Inner)]
pub struct EntryDescriptor<'a, Tag: FifoTag, Inner: IndexedDrop<Tag> + Default> {
    pub(crate) block: &'a Block<Tag, Inner>,
    pub(crate) pair: &'a AtomicPair,
    pub(crate) index: usize,
    pub(crate) tag: Tag,
    pub(crate) found: Ghost<Option<Inner>>,
    pub(crate) left: Ghost<Option<Inner>>,
}

impl<'a, Tag: FifoTag, Inner: IndexedDrop<Tag> + Default> EntryDescriptor<'a, Tag, Inner> {
    /// The slot lies within the block, and the cursor pair is the one that
    /// the stage keeps in the block.
    #[verifier::type_invariant]
    pub closed spec fn wf(&self) -> bool {
        &&& self.block.wf()
        &&& self.index < self.block.capacity()
        &&& *self.pair == self.block.pair_of(self.tag.stage())
    }

    /// The slot's position in its block.
    pub closed spec fn slot(&self) -> usize {
        self.index
    }

    /// The stage that holds the slot.
    pub closed spec fn holder(&self) -> Tag {
        self.tag
    }

    /// The block that the slot lies in.
    pub closed spec fn home(&self) -> Block<Tag, Inner> {
        *self.block
    }

    /// What the holder found in the slot when it last worked on it;
    /// nothing as long as it has not.
    pub closed spec fn found(&self) -> Option<Inner> {
        self.found@
    }

    /// What the holder left in the slot when it last worked on it; nothing
    /// as long as it has not.
    pub closed spec fn left(&self) -> Option<Inner> {
        self.left@
    }

    /// The handle over slot `index` of `block` for stage `tag`, whose
    /// cursor pair in the block is `pair`. The holder has not worked on the
    /// slot yet.
    pub(crate) fn new(block: &'a Block<Tag, Inner>, pair: &'a AtomicPair, index: usize, tag: Tag) -> (entry:
        Self)
        requires
            block.wf(),
            index < block.capacity(),
            *pair == block.pair_of(tag.stage()),
        ensures
            entry.slot() == index,
            entry.holder() == tag,
            entry.home() == *block,
            entry.found() is None,
            entry.left() is None,
    {
        Self { block, pair, index, tag, found: Ghost(None), left: Ghost(None) }
    }

    pub fn get_index(&self) -> (i: usize)
        ensures
            i == self.slot(),
            i < self.home().capacity(),
    {
        proof {
            use_type_invariant(self);
        }
        self.index
    }

    pub fn get_tag(&self) -> (t: Tag)
        ensures
            t == self.holder(),
    {
        self.tag
    }

    /// Takes what the slot holds out of it and leaves a default value in
    /// its place. What was found is what is returned.
    pub fn take(&mut self) -> (found: Inner)
        ensures
            final(self).slot() == old(self).slot(),
            final(self).holder() == old(self).holder(),
            final(self).home() == old(self).home(),
            final(self).found() == Some(found),
            final(self).left() matches Some(d) && call_ensures(Inner::default, (), d),
    {
        proof {
            use_type_invariant(&*self);
        }
        let empty = Inner::default();
        let ghost put = empty;
        let found = self.block.swap_slot(self.index, empty);
        self.found = Ghost(Some(found));
        self.left = Ghost(Some(put));
        found
    }

    /// Replaces what the slot holds by what `modifier` makes of it.
    /// `modifier` is called once, on what the slot held, and what it
    /// returns is put into the slot. While
    /// `modifier` runs the slot holds the default value, so a `modifier`
    /// that does not return leaves a valid slot behind.
    pub fn modify_t_in_place<F: FnOnce(Inner) -> Inner>(&mut self, modifier: F)
        requires
            forall|v: Inner| call_requires(modifier, (v,)),
        ensures
            final(self).slot() == old(self).slot(),
            final(self).holder() == old(self).holder(),
            final(self).home() == old(self).home(),
            final(self).found() matches Some(before) && final(self).left() matches Some(after)
                && call_ensures(modifier, (before,), after),
    {
        proof {
            use_type_invariant(&*self);
        }
        let before = self.block.take_slot(self.index);
        let ghost was = before;
        let after = modifier(before);
        let ghost now = after;
        self.block.put_slot(self.index, after);
        self.found = Ghost(Some(was));
        self.left = Ghost(Some(now));
    }
}

impl<'a, Tag: FifoTag, Inner: IndexedDrop<Tag> + Default> Drop for EntryDescriptor<'a, Tag, Inner> {
    /// Publishes the slot: the stage's `give` cursor in the block moves on
    /// by one.
    fn drop(&mut self)
        opens_invariants none
        no_unwind
    {
        self.pair.incr_give();
    }
}

} // verus!

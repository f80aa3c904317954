//! Handles over a reserved slot by the kind of stage that holds it: the
//! producer puts a payload in, a transformer makes a payload of a payload,
//! the last stage takes the payload out.

use vstd::prelude::*;
use crate::config::{FifoTag, IndexedDrop};
use crate::entry_descriptor::EntryDescriptor;

verus! {

/// A slot that the producer fills.
#[verifier::reject_recursive_types(Inner)]
pub struct ProducingEntry<'a, Tag: FifoTag, Inner: IndexedDrop<Tag> + Default>(
    pub EntryDescriptor<'a, Tag, Inner>,
);

impl<'a, Tag: FifoTag, Inner: IndexedDrop<Tag> + Default> ProducingEntry<'a, Tag, Inner> {
    /// Puts what `producer` returns into the slot; what the slot held is
    /// let go.
    pub fn push_t_in_place<F: FnOnce() -> Inner>(&mut self, producer: F)
        requires
            call_requires(producer, ()),
        ensures
            final(self).0.slot() == old(self).0.slot(),
            final(self).0.holder() == old(self).0.holder(),
            final(self).0.home() == old(self).0.home(),
            final(self).0.found() is Some,
            final(self).0.left() matches Some(value) && call_ensures(producer, (), value),
    {
        let value = producer();
        self.push_t(value);
    }

    /// Puts `val` into the slot; what the slot held is let go.
    pub fn push_t(&mut self, val: Inner)
        ensures
            final(self).0.slot() == old(self).0.slot(),
            final(self).0.holder() == old(self).0.holder(),
            final(self).0.home() == old(self).0.home(),
            final(self).0.found() is Some,
            final(self).0.left() == Some(val),
    {
        let ghost put = val;
        let putter = |_before: Inner| -> (after: Inner)
            ensures
                after == put,
            { val };
        self.0.modify_t_in_place(putter);
    }
}

/// A slot that a transformer changes.
#[verifier::reject_recursive_types(Inner)]
pub struct TransformingEntry<'a, Tag: FifoTag, Inner: IndexedDrop<Tag> + Default>(
    pub EntryDescriptor<'a, Tag, Inner>,
);

impl<'a, Tag: FifoTag, Inner: IndexedDrop<Tag> + Default> TransformingEntry<'a, Tag, Inner> {
    /// Replaces what the slot holds by what `transformer` makes of it.
    pub fn transform<F: FnOnce(Inner) -> Inner>(&mut self, transformer: F)
        requires
            forall|v: Inner| call_requires(transformer, (v,)),
        ensures
            final(self).0.slot() == old(self).0.slot(),
            final(self).0.holder() == old(self).0.holder(),
            final(self).0.home() == old(self).0.home(),
            final(self).0.found() matches Some(before) && final(self).0.left() matches Some(after)
                && call_ensures(transformer, (before,), after),
    {
        self.0.modify_t_in_place(transformer);
    }
}

/// A slot that the last stage empties.
#[verifier::reject_recursive_types(Inner)]
pub struct ConsumingEntry<'a, Tag: FifoTag, Inner: IndexedDrop<Tag> + Default>(
    pub EntryDescriptor<'a, Tag, Inner>,
);

impl<'a, Tag: FifoTag, Inner: IndexedDrop<Tag> + Default> ConsumingEntry<'a, Tag, Inner> {
    /// Takes what the slot holds out of it and hands it to `consumer`; the
    /// slot is left with the default value.
    pub fn pop_in_place<F: FnOnce(Inner)>(&mut self, consumer: F)
        requires
            forall|v: Inner| call_requires(consumer, (v,)),
        ensures
            final(self).0.slot() == old(self).0.slot(),
            final(self).0.holder() == old(self).0.holder(),
            final(self).0.home() == old(self).0.home(),
            final(self).0.found() matches Some(found) && call_ensures(consumer, (found,), ()),
            final(self).0.left() matches Some(d) && call_ensures(Inner::default, (), d),
    {
        let found = self.pop();
        consumer(found);
    }

    /// Takes what the slot holds out of it; the slot is left with the
    /// default value.
    pub fn pop(&mut self) -> (found: Inner)
        ensures
            final(self).0.slot() == old(self).0.slot(),
            final(self).0.holder() == old(self).0.holder(),
            final(self).0.home() == old(self).0.home(),
            final(self).0.found() == Some(found),
            final(self).0.left() matches Some(d) && call_ensures(Inner::default, (), d),
    {
        self.0.take()
    }
}

} // verus!

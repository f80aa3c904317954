//! The head of a stage: the cursor over the ring of blocks that names the
//! block the stage works on and counts the stage's laps.
//!
//! A stage with several workers keeps its head in a word that is raised by
//! an atomic maximum; a stage with one worker reads the word and writes it
//! back. Both are read and raised through `Atomic`. A head records the
//! value that it was made with.

use vstd::prelude::*;
use std::sync::atomic::{AtomicUsize, Ordering};
use crate::config::FifoTag;
use crate::field::Field;
use crate::wide_field::WideField;

verus! {

/// A head cursor that can be read and raised.
pub trait Atomic<Tag: FifoTag> {
    /// The number of blocks in the ring that the head runs over.
    spec fn ring(&self) -> usize;

    /// The stage whose head this is.
    spec fn owner(&self) -> Tag;

    /// The value that the head was made with.
    spec fn started_at(&self) -> Field;

    /// The head as it stands.
    fn load(&self) -> (head: WideField<Tag>)
        ensures
            head.field().capacity() == self.ring(),
            head.stage_tag() == self.owner(),
    ;

    /// Raises the head to `rhs` if that is larger and returns the head as it
    /// stood before.
    fn max(&self, rhs: Field) -> (old: WideField<Tag>)
        ensures
            old.field().capacity() == self.ring(),
            old.stage_tag() == self.owner(),
    ;
}

/// What raising a head that reads `old` to `rhs` writes: the word of `rhs`
/// where that is the larger, and nothing where it is not.
pub fn raise_word(old: Field, rhs: Field) -> (write: Option<usize>)
    ensures
        write == if rhs.raw() > old.raw() {
            Some(rhs.raw())
        } else {
            None::<usize>
        },
{
    if rhs.get_raw_inner() > old.get_raw_inner() {
        Some(rhs.get_raw_inner())
    } else {
        None
    }
}

/// The head of a stage with a single worker.
pub struct NonAtomicHead<Tag: FifoTag> {
    index_max: usize,
    inner: AtomicUsize,
    tag: Tag,
    start: Ghost<Field>,
}

impl<Tag: FifoTag> NonAtomicHead<Tag> {
    /// The head of stage `tag` over a ring of `index_max` blocks, in lap
    /// `version` at block `index`.
    pub fn from_parts(index_max: usize, version: usize, index: usize, tag: Tag) -> (head: Self)
        ensures
            head.ring() == index_max,
            head.owner() == tag,
            head.started_at() == Field::packed(index_max, version, index),
    {
        Self::from_wide(WideField::from_parts(Field::from_parts(index_max, version, index), tag))
    }

    /// The head that starts at `value`.
    pub fn from_wide(value: WideField<Tag>) -> (head: Self)
        ensures
            head.ring() == value.field().capacity(),
            head.owner() == value.stage_tag(),
            head.started_at() == value.field(),
    {
        let field = value.get_field();
        Self {
            index_max: field.get_index_max(),
            inner: AtomicUsize::new(field.get_raw_inner()),
            tag: value.get_tag(),
            start: Ghost(field),
        }
    }
}

impl<Tag: FifoTag> Atomic<Tag> for NonAtomicHead<Tag> {
    closed spec fn ring(&self) -> usize {
        self.index_max
    }

    closed spec fn owner(&self) -> Tag {
        self.tag
    }

    closed spec fn started_at(&self) -> Field {
        self.start@
    }

    fn load(&self) -> (head: WideField<Tag>) {
        WideField::from_parts(
            Field::from_raw_parts(self.index_max, self.inner.load(Ordering::Relaxed)),
            self.tag,
        )
    }

    /// Reads the head, writes what `raise_word` makes of the head read and
    /// `rhs`, and returns the head read: two steps, which only a single
    /// worker may take.
    fn max(&self, rhs: Field) -> (old: WideField<Tag>) {
        let old = self.load();
        match raise_word(old.get_field(), rhs) {
            Some(word) => {
                self.inner.store(word, Ordering::Relaxed);
            },
            None => {},
        }
        old
    }
}

/// The head of a stage with several workers.
pub struct AtomicHead<Tag: FifoTag> {
    index_max: usize,
    inner: AtomicUsize,
    tag: Tag,
    start: Ghost<Field>,
}

impl<Tag: FifoTag> AtomicHead<Tag> {
    /// The head of stage `tag` over a ring of `index_max` blocks, in lap
    /// `version` at block `index`.
    pub fn from_parts(index_max: usize, version: usize, index: usize, tag: Tag) -> (head: Self)
        ensures
            head.ring() == index_max,
            head.owner() == tag,
            head.started_at() == Field::packed(index_max, version, index),
    {
        Self::from_wide(WideField::from_parts(Field::from_parts(index_max, version, index), tag))
    }

    /// The head that starts at `value`.
    pub fn from_wide(value: WideField<Tag>) -> (head: Self)
        ensures
            head.ring() == value.field().capacity(),
            head.owner() == value.stage_tag(),
            head.started_at() == value.field(),
    {
        let field = value.get_field();
        Self {
            index_max: field.get_index_max(),
            inner: AtomicUsize::new(field.get_raw_inner()),
            tag: value.get_tag(),
            start: Ghost(field),
        }
    }
}

impl<Tag: FifoTag> Atomic<Tag> for AtomicHead<Tag> {
    closed spec fn ring(&self) -> usize {
        self.index_max
    }

    closed spec fn owner(&self) -> Tag {
        self.tag
    }

    closed spec fn started_at(&self) -> Field {
        self.start@
    }

    fn load(&self) -> (head: WideField<Tag>) {
        WideField::from_parts(
            Field::from_raw_parts(self.index_max, self.inner.load(Ordering::Relaxed)),
            self.tag,
        )
    }

    /// Raises the head in one atomic step.
    fn max(&self, rhs: Field) -> (old: WideField<Tag>) {
        WideField::from_parts(
            Field::from_raw_parts(
                self.index_max,
                self.inner.fetch_max(rhs.get_raw_inner(), Ordering::Relaxed),
            ),
            self.tag,
        )
    }
}

/// The head of a stage, kept in the way that the stage's number of workers
/// calls for.
pub enum Head<Tag: FifoTag> {
    Shared(AtomicHead<Tag>),
    Single(NonAtomicHead<Tag>),
}

impl<Tag: FifoTag> Head<Tag> {
    /// The head of stage `tag` at the start of lap zero of a ring of
    /// `num_blocks` blocks.
    pub fn for_stage(num_blocks: usize, tag: Tag) -> (head: Self)
        ensures
            head.ring() == num_blocks,
            head.owner() == tag,
            head is Shared == tag.atomic(),
            head.started_at() == Field::packed(num_blocks, 0, 0),
    {
        if tag.is_atomic() {
            Head::Shared(AtomicHead::from_parts(num_blocks, 0, 0, tag))
        } else {
            Head::Single(NonAtomicHead::from_parts(num_blocks, 0, 0, tag))
        }
    }
}

impl<Tag: FifoTag> Atomic<Tag> for Head<Tag> {
    open spec fn ring(&self) -> usize {
        match self {
            Head::Shared(head) => head.ring(),
            Head::Single(head) => head.ring(),
        }
    }

    open spec fn owner(&self) -> Tag {
        match self {
            Head::Shared(head) => head.owner(),
            Head::Single(head) => head.owner(),
        }
    }

    open spec fn started_at(&self) -> Field {
        match self {
            Head::Shared(head) => head.started_at(),
            Head::Single(head) => head.started_at(),
        }
    }

    fn load(&self) -> (head: WideField<Tag>) {
        match self {
            Head::Shared(head) => head.load(),
            Head::Single(head) => head.load(),
        }
    }

    fn max(&self, rhs: Field) -> (old: WideField<Tag>) {
        match self {
            Head::Shared(head) => head.max(rhs),
            Head::Single(head) => head.max(rhs),
        }
    }
}

} // verus!

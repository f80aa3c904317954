//! What the pipeline asks of the type that names its stages, and of the
//! type that its slots hold.

use vstd::prelude::*;

verus! {

/// The stage that stage `index` chases in a ring of `stages` stages: the
/// one before it, and the last one for the first.
pub open spec fn ring_prev(index: nat, stages: nat) -> nat {
    ((index + stages - 1) % (stages as int)) as nat
}

/// The name of a stage. Stages are numbered from zero; stage zero is the
/// producer.
pub trait FifoTag: Copy {
    /// The stage's number. A tag says what it is; where it does not, the
    /// number is what `index` returns.
    open spec fn stage(self) -> nat {
        arbitrary()
    }

    /// How many stages there are. A tag says how many; where it does not,
    /// the number is what `num_transformations` returns.
    open spec fn stages() -> nat {
        arbitrary()
    }

    /// Whether several workers may work at the stage at once. A tag says
    /// so; where it does not, it is what `is_atomic` returns.
    open spec fn atomic(self) -> bool {
        arbitrary()
    }

    fn is_atomic(self) -> (b: bool)
        ensures
            b == self.atomic(),
    ;

    /// The stage whose results this stage takes up.
    fn chases(self) -> (c: Self)
        ensures
            c.stage() == ring_prev(self.stage(), Self::stages()),
    ;

    fn producer() -> (p: Self)
        requires
            Self::stages() >= 1,
        ensures
            p.stage() == 0,
    ;

    fn num_transformations() -> (n: usize)
        ensures
            n == Self::stages(),
    ;

    /// The stage's number; it is always below the number of stages.
    fn index(self) -> (i: usize)
        ensures
            i == self.stage(),
            i < Self::stages(),
    ;

    /// The stage with the number `index`, if there is one.
    fn from_index(index: usize) -> (tag: Option<Self>)
        ensures
            tag.is_some() == (index < Self::stages()),
            tag matches Some(t) ==> t.stage() == index,
    ;
}

/// A handle that may be copied to another worker of stage `tag` only where
/// that stage takes several workers.
pub trait TaggedClone<Tag: FifoTag>: Sized {
    /// A copy for a further worker of `tag`, refused for a stage that takes
    /// one worker only. A copy that is made is one that `unchecked_clone`
    /// makes.
    fn tagged_clone(&self, tag: Tag) -> (copy: Option<Self>)
        ensures
            copy.is_some() == tag.atomic(),
            copy matches Some(c) ==> call_ensures(Self::unchecked_clone, (self,), c),
    {
        if tag.is_atomic() {
            Some(self.unchecked_clone())
        } else {
            None
        }
    }

    /// A copy, whatever the stage.
    fn unchecked_clone(&self) -> Self;
}

/// A slot value that can give up what it holds for a given stage.
pub trait IndexedDrop<Tag: FifoTag>: Sized {
    /// What is left of the value once it has given up the payload of the
    /// stage numbered `stage`. A type says what that is; where it does not,
    /// it is what `tagged_drop` leaves.
    open spec fn dropped(self, stage: nat) -> Self {
        arbitrary()
    }

    /// Gives up the payload that stage `tag` wrote.
    fn tagged_drop(&mut self, tag: Tag)
        ensures
            *final(self) == (*old(self)).dropped(tag.stage()),
    ;

    /// Gives up the payload of the stage numbered `index`, as `tagged_drop`
    /// does for the stage's tag; a number that names no stage leaves the
    /// value as it is.
    fn indexed_drop(&mut self, index: usize)
        ensures
            index < Tag::stages() ==> *final(self) == (*old(self)).dropped(index as nat),
            index >= Tag::stages() ==> *final(self) == *old(self),
    {
        if let Some(tag) = Tag::from_index(index) {
            self.tagged_drop(tag)
        }
    }
}

/// A slot that holds a payload or nothing gives the payload up, whatever
/// stage wrote it.
impl<Tag: FifoTag, T> IndexedDrop<Tag> for Option<T> {
    open spec fn dropped(self, stage: nat) -> Self {
        None
    }

    fn tagged_drop(&mut self, tag: Tag) {
        *self = None;
    }
}

} // verus!

//! Stage names for a pipeline of any number of stages.

use vstd::prelude::*;
use crate::config::FifoTag;

verus! {

/// A stage of a pipeline of `STAGES` stages. Bit `i` of `SHARED` says
/// whether stage `i` takes several workers; stages beyond the word's bits
/// take one.
#[derive(Clone, Copy, Debug)]
pub struct RingTag<const STAGES: usize, const SHARED: usize> {
    stage: usize,
}

impl<const STAGES: usize, const SHARED: usize> RingTag<STAGES, SHARED> {
    /// The stage's number lies below the number of stages.
    #[verifier::type_invariant]
    pub closed spec fn wf(self) -> bool {
        self.stage < STAGES
    }

    /// The stage's number.
    pub closed spec fn number(self) -> usize {
        self.stage
    }

    /// Whether bit `stage` of `SHARED` is set.
    pub open spec fn shared_bit(stage: usize) -> bool {
        stage < usize::BITS && (SHARED >> stage) & 1 == 1
    }

    /// The stage numbered `stage`, if there is one.
    pub fn new(stage: usize) -> (tag: Option<Self>)
        ensures
            tag.is_some() == (stage < STAGES),
            tag matches Some(t) ==> t.number() == stage,
    {
        if stage < STAGES {
            Some(Self { stage })
        } else {
            None
        }
    }
}

impl<const STAGES: usize, const SHARED: usize> FifoTag for RingTag<STAGES, SHARED> {
    open spec fn stage(self) -> nat {
        self.number() as nat
    }

    open spec fn stages() -> nat {
        STAGES as nat
    }

    open spec fn atomic(self) -> bool {
        Self::shared_bit(self.number())
    }

    fn is_atomic(self) -> (b: bool) {
        self.stage < usize::BITS as usize && (SHARED >> self.stage) & 1 == 1
    }

    fn chases(self) -> (c: Self) {
        proof {
            use_type_invariant(self);
            if self.stage == 0 {
                vstd::arithmetic::div_mod::lemma_small_mod((STAGES - 1) as nat, STAGES as nat);
            } else {
                vstd::arithmetic::div_mod::lemma_mod_multiples_vanish(
                    1,
                    (self.stage - 1) as int,
                    STAGES as int,
                );
                vstd::arithmetic::div_mod::lemma_small_mod((self.stage - 1) as nat, STAGES as nat);
            }
        }
        if self.stage == 0 {
            Self { stage: STAGES - 1 }
        } else {
            Self { stage: self.stage - 1 }
        }
    }

    fn producer() -> (p: Self) {
        Self { stage: 0 }
    }

    fn num_transformations() -> (n: usize) {
        STAGES
    }

    fn index(self) -> (i: usize) {
        proof {
            use_type_invariant(self);
        }
        self.stage
    }

    fn from_index(index: usize) -> (tag: Option<Self>) {
        Self::new(index)
    }
}

} // verus!

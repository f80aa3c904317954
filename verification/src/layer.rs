//! The stages of a pipeline with one transformer between producer and
//! consumer.

use vstd::prelude::*;
use crate::config::{ring_prev, FifoTag};

verus! {

/// The three stages, in the order in which an entry passes through them.
#[derive(Clone, Copy, Debug, PartialEq, Eq, Structural)]
pub enum Layer {
    Producer,
    Transformer,
    Consumer,
}

impl Layer {
    /// The stage's number.
    pub open spec fn number(self) -> nat {
        match self {
            Layer::Producer => 0,
            Layer::Transformer => 1,
            Layer::Consumer => 2,
        }
    }

    /// The stage that this stage chases: the producer chases the consumer,
    /// the transformer the producer, the consumer the transformer.
    pub fn chasing(self) -> (chased: Self)
        ensures
            chased.number() == ring_prev(self.number(), 3),
    {
        match self {
            Layer::Producer => Layer::Consumer,
            Layer::Transformer => Layer::Producer,
            Layer::Consumer => Layer::Transformer,
        }
    }
}

impl FifoTag for Layer {
    open spec fn stage(self) -> nat {
        self.number()
    }

    open spec fn stages() -> nat {
        3
    }

    /// Every stage takes several workers.
    open spec fn atomic(self) -> bool {
        true
    }

    fn is_atomic(self) -> (b: bool) {
        true
    }

    fn chases(self) -> (c: Self) {
        self.chasing()
    }

    fn producer() -> (p: Self) {
        Layer::Producer
    }

    fn num_transformations() -> (n: usize) {
        3
    }

    fn index(self) -> (i: usize) {
        match self {
            Layer::Producer => 0,
            Layer::Transformer => 1,
            Layer::Consumer => 2,
        }
    }

    fn from_index(index: usize) -> (tag: Option<Self>) {
        if index == 0 {
            Some(Layer::Producer)
        } else if index == 1 {
            Some(Layer::Transformer)
        } else if index == 2 {
            Some(Layer::Consumer)
        } else {
            None
        }
    }
}

} // verus!

//! The two-stage queue: producers push, consumers pop.

pub mod block;
pub mod entries;
pub mod field;
pub mod fifo;
pub mod fifo_inner;

//! A multi-stage lock-free FIFO pipeline whose entries are transformed in
//! place as they pass from stage to stage.
//!
//! The pipeline is a ring of blocks. Every block has a slab of slots and,
//! for every stage, a pair of cursors; every stage has a head that names
//! the block it works on. A stage reserves a slot, changes what the slot
//! holds, and lets go of it, which publishes the slot to the stage that
//! follows. The producer follows the last stage around the ring.
//!
//! The engine is in `field` (the packed cursor), `atom_pair` and `head`
//! (the cursors and heads that the workers share), `block` (reserving a
//! slot in a block), `fifo_inner` (reserving through the head, and moving
//! the head), `entry_descriptor` and `entries` (the handles over a
//! reserved slot),
//! `teardown` (which slots hold what when the pipeline is taken down) and
//! `fifo` (the shared pipeline and its stage façades). `mpmc` is the queue
//! of two stages.
//!
//! What a shared cursor reads depends on what the other workers have done,
//! so the rules that read cursors are stated as functions of the values
//! read: `reserve_step`, `advance_step`, `lap_version`, `drop_plan`. What
//! follows from these rules is proved of the pipeline as a state that moves
//! by claims, releases and the steps of head moves, each of them one step
//! on one shared word: `ring` is that state, `ring_moves` shows that every
//! move keeps it sound, `looks` shows that a claim may be decided on
//! cursors read one after the other while others move, and `ring_laws`,
//! `flow`, `tally` and `order` say what holds of every state that the
//! moves lead to.

pub mod atom_pair;
pub mod atomic;
pub mod bits;
pub mod block;
pub mod config;
pub mod cursor;
pub mod entries;
pub mod entry_descriptor;
pub mod error;
pub mod field;
pub mod fifo;
pub mod fifo_inner;
pub mod flow;
pub mod head;
pub mod lap;
pub mod layer;
pub mod looks;
pub mod mpmc;
pub mod order;
pub mod perm;
pub mod ring;
pub mod ring_laws;
pub mod ring_moves;
pub mod ring_tag;
pub mod stages;
pub mod tally;
pub mod teardown;
pub mod util;
pub mod wide_field;

//! One block seen as a state that claims and releases change.
//!
//! The state holds, for every stage, its two cursors in the block and the
//! slots that its workers hold. A claim is what a successful reservation
//! does: it is open exactly where `reserve_step` says `Claim` of the
//! cursors as they stand, it hands out the slot at the stage's `take` index
//! and moves `take` on by one. A release is what letting go of a handle
//! does: it moves the stage's `give` on by one.

use vstd::prelude::*;
use crate::block::{producer_offset, reserve_step, ReserveStep};
use crate::config::ring_prev;
use crate::field::FieldView;

verus! {

/// A stage in a block: its cursors and the slots its workers hold.
pub struct StageModel {
    pub take: FieldView,
    pub give: FieldView,
    pub held: Set<nat>,
}

/// A block: its size and its stages, the producer first.
pub struct BlockModel {
    pub block_size: nat,
    pub stages: Seq<StageModel>,
}

/// What a worker does to a block.
pub enum Event {
    /// A worker of `stage` reserves the next slot.
    Claim { stage: nat },
    /// A worker of `stage` lets go of `slot`.
    Release { stage: nat, slot: nat },
}

/// The cursor one index further on.
pub open spec fn bump(f: FieldView) -> FieldView {
    FieldView { index_max: f.index_max, version: f.version, index: f.index + 1 }
}

/// A block of `block_size` slots that no stage has touched.
pub open spec fn fresh(block_size: nat, stages: nat) -> BlockModel {
    BlockModel {
        block_size,
        stages: Seq::new(
            stages,
            |s: int|
                StageModel {
                    take: FieldView { index_max: block_size, version: 0, index: 0 },
                    give: FieldView { index_max: block_size, version: 0, index: 0 },
                    held: Set::empty(),
                },
        ),
    }
}

/// What a reservation attempt by `stage` comes to in the state `m`.
pub open spec fn attempt(m: BlockModel, stage: nat) -> ReserveStep {
    let chased = ring_prev(stage, m.stages.len()) as int;
    reserve_step(
        m.stages[stage as int].take,
        m.stages[chased].give,
        m.stages[chased].take,
        producer_offset(stage),
        m.block_size,
    )
}

/// Whether `e` can happen in the state `m`.
pub open spec fn enabled(m: BlockModel, e: Event) -> bool {
    match e {
        Event::Claim { stage } => stage < m.stages.len() && attempt(m, stage) == ReserveStep::Claim,
        Event::Release { stage, slot } => stage < m.stages.len() && m.stages[stage as int].held.contains(
            slot,
        ),
    }
}

/// The state after `e` has happened in the state `m`.
pub open spec fn apply(m: BlockModel, e: Event) -> BlockModel {
    match e {
        Event::Claim { stage } => {
            let old = m.stages[stage as int];
            BlockModel {
                block_size: m.block_size,
                stages: m.stages.update(
                    stage as int,
                    StageModel {
                        take: bump(old.take),
                        give: old.give,
                        held: old.held.insert(old.take.index),
                    },
                ),
            }
        },
        Event::Release { stage, slot } => {
            let old = m.stages[stage as int];
            BlockModel {
                block_size: m.block_size,
                stages: m.stages.update(
                    stage as int,
                    StageModel { take: old.take, give: bump(old.give), held: old.held.remove(slot) },
                ),
            }
        },
    }
}

/// The stage before a stage in the ring: the last stage for the producer,
/// and the stage numbered one less for every other.
pub proof fn lemma_ring_prev(stage: nat, stages: nat)
    requires
        stage < stages,
    ensures
        stage == 0 ==> ring_prev(stage, stages) == stages - 1,
        stage > 0 ==> ring_prev(stage, stages) == stage - 1,
{
    if stage == 0 {
        vstd::arithmetic::div_mod::lemma_small_mod((stages - 1) as nat, stages);
    } else {
        vstd::arithmetic::div_mod::lemma_mod_multiples_vanish(1, (stage - 1) as int, stages as int);
        vstd::arithmetic::div_mod::lemma_small_mod((stage - 1) as nat, stages);
    }
}

} // verus!

//! The whole pipeline seen as a sequence of claims, releases and head
//! moves: every block of the ring, every stage's cursors in every block,
//! and every stage's head.
//!
//! A claim moves the stage's `take` cursor on by one and hands out the
//! slot it stood at; a release moves the stage's `give` cursor on by one.
//! A head move is what `advance_head` does once the block under the head
//! is used up, in three steps: the stage's `give` cursor in the next block
//! is raised to the start of the stage's next lap there, then its `take`
//! cursor, then the head is raised by one step. Other stages move between
//! the steps.
//!
//! The cursors of a block do not count laps in step with the heads: a
//! stage enters the first block of the ring in lap `l` under version `l`,
//! and every other block in lap zero under version zero and in a later lap
//! `l` under version `l + 1`. `lap_of` tells the lap from block and
//! version.
//!
//! Versions and laps are counted here without bound; a packed cursor
//! counts as far as its version bits reach.

use vstd::prelude::*;
use crate::block::ReserveStep;
use crate::config::ring_prev;
use crate::field::{
    lemma_index_step, lemma_order_is_lexicographic, ring_index, ring_version, Field, FieldView,
};
use crate::fifo_inner::lap_version;
use crate::lap::{apply, attempt, enabled, BlockModel, Event, StageModel};

verus! {

/// How far a head move of a stage has come.
pub enum Phase {
    /// No head move is under way.
    Rest,
    /// The `give` cursor in the next block has been raised to `start`.
    GiveUp { start: FieldView },
    /// Both cursors in the next block have been raised.
    BothUp,
}

/// The ring: its blocks, each with the cursors of every stage, the head of
/// every stage, and how far the head move of every stage has come.
pub struct RingModel {
    pub block_size: nat,
    pub blocks: Seq<BlockModel>,
    pub heads: Seq<FieldView>,
    pub moving: Seq<Phase>,
}

/// What a worker does to the ring. Every move is one step on one shared
/// word.
pub enum Move {
    /// A worker of `stage` reserves the next slot of the block under the
    /// stage's head.
    Claim { stage: nat },
    /// A worker of `stage` lets go of `slot` in `block`.
    Release { block: nat, stage: nat, slot: nat },
    /// A worker of `stage` begins to move the stage's head: it raises the
    /// stage's `give` cursor in the next block.
    RaiseGive { stage: nat },
    /// The worker goes on and raises the stage's `take` cursor in the next
    /// block.
    RaiseTake { stage: nat },
    /// The worker raises the head, which ends the head move.
    RaiseHead { stage: nat },
}

/// The cursors of `stage` in `block`.
pub open spec fn cell(m: RingModel, block: int, stage: int) -> StageModel {
    m.blocks[block].stages[stage]
}

/// The block under the head of `stage`.
pub open spec fn under(m: RingModel, stage: int) -> int {
    m.heads[stage].index as int
}

/// The block after `block` in the ring.
pub open spec fn next_block(m: RingModel, block: int) -> int {
    (block + 1) % (m.blocks.len() as int)
}

/// The larger of two cursors, by version first and index second: what an
/// atomic maximum of their packed words leaves behind.
pub open spec fn later(a: FieldView, b: FieldView) -> FieldView {
    if b.version > a.version || (b.version == a.version && b.index > a.index) {
        b
    } else {
        a
    }
}

/// The head one step further around a ring of `blocks` blocks.
pub open spec fn stepped(head: FieldView, blocks: nat) -> FieldView {
    FieldView {
        index_max: head.index_max,
        version: head.version + (head.index + 1) / blocks,
        index: (head.index + 1) % blocks,
    }
}

/// A ring of `blocks` fresh blocks of `block_size` slots for `stages`
/// stages, with every head at the first block in lap zero.
pub open spec fn fresh_ring(blocks: nat, block_size: nat, stages: nat) -> RingModel {
    RingModel {
        block_size,
        blocks: Seq::new(blocks, |b: int| crate::lap::fresh(block_size, stages)),
        heads: Seq::new(stages, |s: int| FieldView { index_max: blocks, version: 0, index: 0 }),
        moving: Seq::new(stages, |s: int| Phase::Rest),
    }
}

/// How far the producer may be ahead of the stage it chases, the last
/// one: one block's length. No other stage may be ahead of the stage it
/// chases.
pub open spec fn reach(stage: int, block_size: nat) -> nat {
    if stage == 0 {
        block_size
    } else {
        0
    }
}

/// Whether the slot at the `take` cursor of `stage`, in the block under the
/// stage's head, is there to be claimed: it lies within the block, the
/// chased stage has published it, and the chased stage holds no slot at or
/// before it.
pub open spec fn claimable(m: RingModel, stage: int) -> bool {
    let b = under(m, stage);
    let me = cell(m, b, stage);
    let c = cell(m, b, ring_prev(stage as nat, m.heads.len()) as int);
    let ahead = reach(stage, m.block_size);
    &&& me.take.index < m.block_size
    &&& pos(b, me.take, m.block_size) + 1 <= pos(b, c.give, m.block_size) + ahead
    &&& forall|k: nat|
        c.held.contains(k) ==> #[trigger] slot_pos(b, c.take.version, k, m.block_size) + ahead
            >= pos(b, me.take, m.block_size) + 1
}

/// Whether `mv` can happen in the state `m`.
///
/// A claim can happen where the slot is claimable. A claim that
/// `reserve_step` decides on the cursors as they stand is such a claim, and
/// so is one that it decides on cursors read one after the other while
/// other workers move: `ring_moves` and `looks` show that.
///
/// A head move begins where the block under the head is used up for the
/// stage, whatever `advance_step` says of the next block: a head move
/// changes no cursor's count of slots passed, so what is proved here holds
/// of the head moves that `advance_step` lets through and of those that it
/// holds back.
///
/// A head move begins only while no worker of the stage holds a slot in
/// the next block; it is made on the head as it stands; and while it is
/// under way no worker of the stage begins another. A stage with one
/// worker never does otherwise. Where a stage with several workers did,
/// the start of its new lap would be written over cursors that a late
/// release then moves, and `give` would pass `take`; what is proved of the
/// ring is proved of the moves that leave this out.
pub open spec fn can(m: RingModel, mv: Move) -> bool {
    match mv {
        Move::Claim { stage } => stage < m.heads.len() && claimable(m, stage as int),
        Move::Release { block, stage, slot } => block < m.blocks.len() && enabled(
            m.blocks[block as int],
            Event::Release { stage, slot },
        ),
        Move::RaiseGive { stage } => {
            let here = under(m, stage as int);
            let next = next_block(m, here);
            &&& stage < m.heads.len()
            &&& m.moving[stage as int] is Rest
            &&& attempt(m.blocks[here], stage) == ReserveStep::BlockDone
            &&& cell(m, next, stage as int).held =~= Set::empty()
        },
        Move::RaiseTake { stage } => stage < m.heads.len() && m.moving[stage as int] is GiveUp,
        Move::RaiseHead { stage } => stage < m.heads.len() && m.moving[stage as int] is BothUp,
    }
}

/// The state `m` with the cursors of `stage` in `block` replaced by `c`.
pub open spec fn with_cell(m: RingModel, block: int, stage: int, c: StageModel) -> Seq<BlockModel> {
    m.blocks.update(
        block,
        BlockModel {
            block_size: m.blocks[block].block_size,
            stages: m.blocks[block].stages.update(stage, c),
        },
    )
}

/// The state after `mv` has happened in the state `m`.
pub open spec fn after(m: RingModel, mv: Move) -> RingModel {
    match mv {
        Move::Claim { stage } => {
            let here = under(m, stage as int);
            RingModel {
                block_size: m.block_size,
                blocks: m.blocks.update(here, apply(m.blocks[here], Event::Claim { stage })),
                heads: m.heads,
                moving: m.moving,
            }
        },
        Move::Release { block, stage, slot } => RingModel {
            block_size: m.block_size,
            blocks: m.blocks.update(
                block as int,
                apply(m.blocks[block as int], Event::Release { stage, slot }),
            ),
            heads: m.heads,
            moving: m.moving,
        },
        Move::RaiseGive { stage } => {
            let next = next_block(m, under(m, stage as int));
            let head = m.heads[stage as int];
            let old = cell(m, next, stage as int);
            let start = FieldView {
                index_max: m.block_size,
                version: lap_version(head, old.give),
                index: 0,
            };
            RingModel {
                block_size: m.block_size,
                blocks: with_cell(
                    m,
                    next,
                    stage as int,
                    StageModel { take: old.take, give: later(old.give, start), held: old.held },
                ),
                heads: m.heads,
                moving: m.moving.update(stage as int, Phase::GiveUp { start }),
            }
        },
        Move::RaiseTake { stage } => {
            let next = next_block(m, under(m, stage as int));
            let old = cell(m, next, stage as int);
            let start = m.moving[stage as int]->start;
            RingModel {
                block_size: m.block_size,
                blocks: with_cell(
                    m,
                    next,
                    stage as int,
                    StageModel { take: later(old.take, start), give: old.give, held: old.held },
                ),
                heads: m.heads,
                moving: m.moving.update(stage as int, Phase::BothUp),
            }
        },
        Move::RaiseHead { stage } => {
            let head = m.heads[stage as int];
            RingModel {
                block_size: m.block_size,
                blocks: m.blocks,
                heads: m.heads.update(stage as int, later(head, stepped(head, m.blocks.len()))),
                moving: m.moving.update(stage as int, Phase::Rest),
            }
        },
    }
}

/// Whether the moves of `trace` can happen one after the other, starting
/// in the state `m`.
pub open spec fn can_all(m: RingModel, trace: Seq<Move>) -> bool
    decreases trace.len(),
{
    if trace.len() == 0 {
        true
    } else {
        can(m, trace[0]) && can_all(after(m, trace[0]), trace.drop_first())
    }
}

/// The state after the moves of `trace` have happened, starting in `m`.
pub open spec fn after_all(m: RingModel, trace: Seq<Move>) -> RingModel
    decreases trace.len(),
{
    if trace.len() == 0 {
        m
    } else {
        after_all(after(m, trace[0]), trace.drop_first())
    }
}

/// The lap that a cursor of version `version` is in, in the block at
/// `block`.
pub open spec fn lap_of(block: int, version: nat) -> nat {
    if block == 0 || version == 0 {
        version
    } else {
        (version - 1) as nat
    }
}

/// The version under which a stage enters the block at `block` in lap
/// `lap`.
pub open spec fn version_for(block: int, lap: nat) -> nat {
    if block == 0 || lap == 0 {
        lap
    } else {
        lap + 1
    }
}

/// The lap of a stage's cursors in a block, told from the stage's head
/// while no head move is under way: the head's lap in the blocks up to the
/// head, and the lap before in the blocks beyond.
pub open spec fn expected_lap(head: FieldView, block: int) -> nat {
    if block <= head.index {
        head.version
    } else if head.version >= 1 {
        (head.version - 1) as nat
    } else {
        0
    }
}

/// Whether a stage whose head reads `head` has been in the block at
/// `block`.
pub open spec fn entered(head: FieldView, block: int) -> bool {
    block <= head.index || head.version >= 1
}

/// Whether a head move of `stage` has raised the stage's `give` cursor in
/// `block` and not yet the head.
pub open spec fn give_up(m: RingModel, block: int, stage: int) -> bool {
    !(m.moving[stage] is Rest) && block == next_block(m, under(m, stage))
}

/// Whether a head move of `stage` has raised the stage's `take` cursor in
/// `block` and not yet the head.
pub open spec fn take_up(m: RingModel, block: int, stage: int) -> bool {
    m.moving[stage] is BothUp && block == next_block(m, under(m, stage))
}

/// The lap that the `take` cursor of `stage` is in, in `block`.
pub open spec fn take_lap(m: RingModel, block: int, stage: int) -> nat {
    expected_lap(m.heads[stage], block) + if take_up(m, block, stage) && entered(
        m.heads[stage],
        block,
    ) {
        1nat
    } else {
        0nat
    }
}

/// The lap that the `give` cursor of `stage` is in, in `block`.
pub open spec fn give_lap(m: RingModel, block: int, stage: int) -> nat {
    expected_lap(m.heads[stage], block) + if give_up(m, block, stage) && entered(
        m.heads[stage],
        block,
    ) {
        1nat
    } else {
        0nat
    }
}

/// How many slots of the block at `block` a cursor has passed since the
/// ring was made.
pub open spec fn pos(block: int, f: FieldView, block_size: nat) -> nat {
    lap_of(block, f.version) * block_size + f.index
}

/// The place of slot `slot` among all the slots that a stage whose cursors
/// read version `version` has passed in the block at `block`.
pub open spec fn slot_pos(block: int, version: nat, slot: nat, block_size: nat) -> nat {
    lap_of(block, version) * block_size + slot
}

/// The cursors of `stage` in `block` fit the stage's head and head move:
/// each carries the version of its lap there, `give` has passed no more
/// slots than `take` and `take` is within the block, the stage holds as
/// many slots as lie between them, each below `take`; a block that the
/// head has left is used up, a block that it has never reached is
/// untouched, and a cursor that a head move has raised stands at the start
/// of its lap, with no slot held.
pub open spec fn cell_sound(m: RingModel, block: int, stage: int) -> bool {
    let c = cell(m, block, stage);
    let head = m.heads[stage];
    &&& c.take.version == version_for(block, take_lap(m, block, stage))
    &&& c.give.version == version_for(block, give_lap(m, block, stage))
    &&& c.take.index <= m.block_size
    &&& c.give.index <= m.block_size
    &&& pos(block, c.give, m.block_size) <= pos(block, c.take, m.block_size)
    &&& c.held.finite()
    &&& c.held.len() == pos(block, c.take, m.block_size) - pos(block, c.give, m.block_size)
    &&& forall|k: nat| c.held.contains(k) ==> k < c.take.index
    &&& block != head.index ==> c.take.index == if entered(head, block) && !take_up(
        m,
        block,
        stage,
    ) {
        m.block_size
    } else {
        0
    }
    &&& give_up(m, block, stage) ==> c.give.index == 0 && c.held =~= Set::empty()
}

/// The head move of `stage`, where one is under way, began at a block
/// that is used up, and the cursor that it raises `take` to is the one
/// that it has raised `give` to.
pub open spec fn phase_sound(m: RingModel, stage: int) -> bool {
    let here = under(m, stage);
    let next = next_block(m, here);
    &&& !(m.moving[stage] is Rest) ==> cell(m, here, stage).take.index == m.block_size
    &&& m.moving[stage] matches Phase::GiveUp { start } ==> start.index == 0 && start.version
        == cell(m, next, stage).give.version
}

/// The stages follow one another through the block at `block`: no stage
/// has reserved beyond what an earlier stage has published, what an
/// earlier stage holds lies at or beyond what a later stage has reserved,
/// and the producer is less than one lap ahead of the last stage.
pub open spec fn order_sound(m: RingModel, block: int) -> bool {
    let last = m.heads.len() - 1;
    &&& forall|i: int, j: int|
        #![trigger cell(m, block, i), cell(m, block, j)]
        0 <= i < j < m.heads.len() ==> pos(block, cell(m, block, j).take, m.block_size) <= pos(
            block,
            cell(m, block, i).give,
            m.block_size,
        )
    &&& forall|i: int, j: int, k: nat|
        #![trigger cell(m, block, i).held.contains(k), cell(m, block, j)]
        0 <= i < j < m.heads.len() && cell(m, block, i).held.contains(k) ==> slot_pos(
            block,
            cell(m, block, i).take.version,
            k,
            m.block_size,
        ) >= pos(block, cell(m, block, j).take, m.block_size)
    &&& pos(block, cell(m, block, 0).take, m.block_size) <= pos(
        block,
        cell(m, block, last).give,
        m.block_size,
    ) + m.block_size
    &&& forall|k: nat|
        cell(m, block, last).held.contains(k) ==> #[trigger] slot_pos(
            block,
            cell(m, block, last).take.version,
            k,
            m.block_size,
        ) + m.block_size >= pos(block, cell(m, block, 0).take, m.block_size)
}

/// The states that the ring goes through.
pub open spec fn ring_sound(m: RingModel) -> bool {
    &&& m.block_size >= 1
    &&& m.blocks.len() >= 2
    &&& m.heads.len() >= 2
    &&& m.moving.len() == m.heads.len()
    &&& forall|s: int| 0 <= s < m.heads.len() ==> (#[trigger] m.heads[s]).index < m.blocks.len()
    &&& forall|s: int| 0 <= s < m.heads.len() ==> #[trigger] phase_sound(m, s)
    &&& forall|b: int|
        0 <= b < m.blocks.len() ==> (#[trigger] m.blocks[b]).stages.len() == m.heads.len()
            && m.blocks[b].block_size == m.block_size
    &&& forall|b: int, s: int|
        0 <= b < m.blocks.len() && 0 <= s < m.heads.len() ==> cell_sound(m, b, s)
    &&& forall|b: int| 0 <= b < m.blocks.len() ==> order_sound(m, b)
}

/// A fresh ring is in a sound state.
pub proof fn lemma_fresh_ring_is_sound(blocks: nat, block_size: nat, stages: nat)
    requires
        blocks >= 2,
        block_size >= 1,
        stages >= 2,
    ensures
        ring_sound(fresh_ring(blocks, block_size, stages)),
{
    let m = fresh_ring(blocks, block_size, stages);
    assert forall|b: int, s: int|
        0 <= b < m.blocks.len() && 0 <= s < m.heads.len() implies cell_sound(m, b, s) by {}
    assert forall|b: int| 0 <= b < m.blocks.len() implies order_sound(m, b) by {
        assert forall|s: int| 0 <= s < m.heads.len() implies pos(
            b,
            (#[trigger] cell(m, b, s)).take,
            m.block_size,
        ) == 0 && pos(b, cell(m, b, s).give, m.block_size) == 0 && cell(m, b, s).held
            =~= Set::empty() by {
            assert(m.blocks[b] == crate::lap::fresh(block_size, stages));
            assert(cell(m, b, s).take.version == 0);
            assert(lap_of(b, 0) == 0);
            assert(0 * block_size == 0) by (nonlinear_arith);
        }
    }
}

/// What adding one to a packed cursor does to what the cursor stands for
/// is what a claim does to `take` and a release to `give`, as long as the
/// index stays within the capacity.
pub proof fn lemma_add_one_is_bump(f: Field, g: Field)
    requires
        f@.index + 1 <= f@.index_max,
        g.capacity() == f.capacity(),
        g.raw() == f.raw().wrapping_add(1),
    ensures
        g@ == crate::lap::bump(f@),
{
    lemma_index_step(f, 1);
}

/// The larger of two packed cursors of one capacity stands for the later
/// of what the two stand for: an atomic maximum of the words is `later` of
/// the cursors.
pub proof fn lemma_max_is_later(a: Field, b: Field)
    requires
        a.capacity() == b.capacity(),
    ensures
        a.raw() >= b.raw() ==> later(a@, b@) == a@,
        a.raw() < b.raw() ==> later(a@, b@) == b@,
{
    lemma_order_is_lexicographic(a, b);
}

/// One step of a head around its ring is what `version_inc_add(1)` works
/// out.
pub proof fn lemma_ring_step_is_stepped(head: FieldView)
    requires
        head.index_max > 0,
    ensures
        stepped(head, head.index_max).index == ring_index(head, 1),
        stepped(head, head.index_max).version == ring_version(head, 1),
{
}

} // verus!

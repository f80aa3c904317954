//! What holds of the ring whatever its workers do: the cursors stay in
//! order, a stage's claims ascend and its head goes from block to block in
//! turn, no slot is held twice, and what a stage has finished is counted by
//! its `give` cursors.

use vstd::prelude::*;
use crate::ring::{
    after, after_all, can, can_all, cell, cell_sound, fresh_ring, lap_of, next_block,
    order_sound, pos, ring_sound, slot_pos, under, Move, RingModel,
};
use crate::ring_moves::{
    is_raise, lemma_cell_lap, lemma_lap_base, lemma_move_keeps_ring, lemma_raise_head_lands,
    lemma_raise_is_quiet, lemma_trace_keeps_ring, mover,
};

verus! {

/// Whatever the workers do, in every block and at every stage `give` stays
/// at or below `take` and `take` within the block, and the stage holds
/// exactly as many slots there as `take` has passed beyond `give`: as many
/// as lie between the two indices, while no head move of the stage is
/// under way.
pub proof fn lemma_cursors_stay_ordered(m: RingModel, trace: Seq<Move>, block: int, stage: int)
    requires
        ring_sound(m),
        can_all(m, trace),
        0 <= block < m.blocks.len(),
        0 <= stage < m.heads.len(),
    ensures
        0 <= cell(after_all(m, trace), block, stage).give.index <= cell(
            after_all(m, trace),
            block,
            stage,
        ).take.index <= m.block_size,
        cell(after_all(m, trace), block, stage).held.len() == pos(
            block,
            cell(after_all(m, trace), block, stage).take,
            m.block_size,
        ) - pos(block, cell(after_all(m, trace), block, stage).give, m.block_size),
        after_all(m, trace).moving[stage] is Rest ==> cell(
            after_all(m, trace),
            block,
            stage,
        ).held.len() == cell(after_all(m, trace), block, stage).take.index - cell(
            after_all(m, trace),
            block,
            stage,
        ).give.index,
{
    lemma_trace_keeps_ring(m, trace);
    assert(cell_sound(after_all(m, trace), block, stage));
    lemma_cell_lap(after_all(m, trace), block, stage);
}

/// A head move takes the head to the block that follows in the ring.
pub proof fn lemma_heads_visit_blocks_in_turn(m: RingModel, stage: nat)
    requires
        ring_sound(m),
        can(m, Move::RaiseHead { stage }),
    ensures
        under(after(m, Move::RaiseHead { stage }), stage as int) == (under(m, stage as int) + 1)
            % (m.blocks.len() as int),
{
    lemma_raise_head_lands(m, stage);
}

/// Of two claims by one stage with no head move of the stage in between,
/// the later hands out the slot with the larger index.
pub proof fn lemma_claims_ascend(m: RingModel, stage: nat, between: Seq<Move>)
    requires
        ring_sound(m),
        can(m, Move::Claim { stage }),
        can_all(after(m, Move::Claim { stage }), between),
        forall|x: int| 0 <= x < between.len() ==> between[x] != (Move::RaiseHead { stage }),
    ensures
        under(after_all(after(m, Move::Claim { stage }), between), stage as int) == under(
            m,
            stage as int,
        ),
        cell(m, under(m, stage as int), stage as int).take.index < cell(
            after_all(after(m, Move::Claim { stage }), between),
            under(m, stage as int),
            stage as int,
        ).take.index,
{
    let first = Move::Claim { stage };
    lemma_move_keeps_ring(m, first);
    assert(m.blocks[under(m, stage as int)].stages.len() == m.heads.len());
    lemma_take_moves_forward(after(m, first), between, stage);
}

/// While the head of a stage stays where it is, the stage's `take` index in
/// the block under the head does not fall.
proof fn lemma_take_moves_forward(m: RingModel, trace: Seq<Move>, stage: nat)
    requires
        ring_sound(m),
        stage < m.heads.len(),
        can_all(m, trace),
        forall|x: int| 0 <= x < trace.len() ==> trace[x] != (Move::RaiseHead { stage }),
    ensures
        under(after_all(m, trace), stage as int) == under(m, stage as int),
        cell(m, under(m, stage as int), stage as int).take.index <= cell(
            after_all(m, trace),
            under(m, stage as int),
            stage as int,
        ).take.index,
    decreases trace.len(),
{
    if trace.len() > 0 {
        let mv = trace[0];
        let rest = trace.drop_first();
        lemma_move_keeps_ring(m, mv);
        let b = under(m, stage as int);
        assert(m.blocks[b].stages.len() == m.heads.len());
        assert(m.heads[stage as int].index < m.blocks.len());
        match mv {
            Move::Claim { stage: s } => {
                assert(m.heads[s as int].index < m.blocks.len());
                assert(m.blocks[under(m, s as int)].stages.len() == m.heads.len());
            },
            Move::Release { block, stage: s, slot } => {
                assert(m.blocks[block as int].stages.len() == m.heads.len());
            },
            _ => {
                lemma_raise_is_quiet(m, mv, b, stage as int);
                crate::ring_moves::lemma_next_block(m, stage as int);
                assert(trace[0] != (Move::RaiseHead { stage }));
            },
        }
        assert forall|x: int| 0 <= x < rest.len() implies rest[x] != (Move::RaiseHead { stage }) by {
            assert(rest[x] == trace[x + 1]);
        }
        lemma_take_moves_forward(after(m, mv), rest, stage);
    }
}

/// No slot of any block is held by two stages at once.
pub proof fn lemma_one_holder(m: RingModel, block: int, i: int, j: int, slot: nat)
    requires
        ring_sound(m),
        0 <= block < m.blocks.len(),
        0 <= i < m.heads.len(),
        0 <= j < m.heads.len(),
        i != j,
        cell(m, block, i).held.contains(slot),
    ensures
        !cell(m, block, j).held.contains(slot),
{
    if cell(m, block, j).held.contains(slot) {
        if i < j {
            lemma_held_apart(m, block, i, j, slot, slot);
        } else {
            lemma_held_apart(m, block, j, i, slot, slot);
        }
    }
}

/// What an earlier stage holds in a block and what a later stage holds
/// there are different slots.
pub proof fn lemma_held_apart(m: RingModel, block: int, i: int, j: int, ki: nat, kj: nat)
    requires
        ring_sound(m),
        0 <= block < m.blocks.len(),
        0 <= i < j < m.heads.len(),
        cell(m, block, i).held.contains(ki),
        cell(m, block, j).held.contains(kj),
    ensures
        ki != kj,
{
    let bs = m.block_size;
    let last = m.heads.len() - 1;
    assert(order_sound(m, block));
    assert(cell_sound(m, block, i));
    assert(cell_sound(m, block, j));
    assert(cell_sound(m, block, 0));
    assert(cell_sound(m, block, last));
    lemma_cell_lap(m, block, i);
    lemma_cell_lap(m, block, j);
    lemma_cell_lap(m, block, 0);
    lemma_cell_lap(m, block, last);
    let ci = cell(m, block, i);
    let cj = cell(m, block, j);
    let li = lap_of(block, ci.take.version);
    let lj = lap_of(block, cj.take.version);
    // What the earlier stage holds lies at or beyond the later stage's
    // `take`, and what the later stage holds lies below it.
    assert(slot_pos(block, ci.take.version, ki, bs) >= pos(block, cj.take, bs));
    assert(slot_pos(block, cj.take.version, kj, bs) < pos(block, cj.take, bs));
    // Both lie within one block's length below the producer's `take`.
    assert(slot_pos(block, ci.take.version, ki, bs) < pos(block, ci.take, bs));
    if i > 0 {
        assert(pos(block, cell(m, block, i).take, bs) <= pos(block, cell(m, block, 0).give, bs));
    }
    assert(pos(block, cell(m, block, 0).take, bs) <= pos(block, cell(m, block, last).give, bs)
        + bs);
    if j < last {
        assert(slot_pos(block, cell(m, block, j).take.version, kj, bs) >= pos(
            block,
            cell(m, block, last).take,
            bs,
        ));
    } else {
        assert(slot_pos(block, cell(m, block, last).take.version, kj, bs) + bs >= pos(
            block,
            cell(m, block, 0).take,
            bs,
        ));
    }
    assert(li * bs + ki < lj * bs + kj + bs);
    assert(li * bs + ki > lj * bs + kj);
    lemma_lap_base(lj, li, bs);
    lemma_lap_base(li, lj, bs);
}

/// The slot that a claim hands out is held by no one: by no other worker
/// of the stage, and by no other stage.
pub proof fn lemma_claimed_slot_is_free(m: RingModel, stage: nat, other: int)
    requires
        ring_sound(m),
        can(m, Move::Claim { stage }),
        0 <= other < m.heads.len(),
    ensures
        !cell(m, under(m, stage as int), other).held.contains(
            cell(m, under(m, stage as int), stage as int).take.index,
        ),
{
    let mv = Move::Claim { stage };
    let n = after(m, mv);
    let b = under(m, stage as int);
    let slot = cell(m, b, stage as int).take.index;
    lemma_move_keeps_ring(m, mv);
    assert(m.heads[stage as int].index < m.blocks.len());
    assert(m.blocks[b].stages.len() == m.heads.len());
    assert(cell_sound(m, b, stage as int));
    if other != stage && cell(m, b, other).held.contains(slot) {
        assert(cell(n, b, other) == cell(m, b, other));
        assert(cell(n, b, stage as int).held.contains(slot));
        lemma_one_holder(n, b, stage as int, other, slot);
    }
}

/// At no point do two handles stand for the same slot of the same block.
pub proof fn lemma_never_two_holders(
    m: RingModel,
    trace: Seq<Move>,
    block: int,
    i: int,
    j: int,
    slot: nat,
)
    requires
        ring_sound(m),
        can_all(m, trace),
        0 <= block < m.blocks.len(),
        0 <= i < m.heads.len(),
        0 <= j < m.heads.len(),
        i != j,
    ensures
        !(cell(after_all(m, trace), block, i).held.contains(slot) && cell(
            after_all(m, trace),
            block,
            j,
        ).held.contains(slot)),
{
    lemma_trace_keeps_ring(m, trace);
    if cell(after_all(m, trace), block, i).held.contains(slot) {
        lemma_one_holder(after_all(m, trace), block, i, j, slot);
    }
}

/// How many releases by `stage` there are in `trace`.
pub open spec fn releases_by(trace: Seq<Move>, stage: nat) -> nat
    decreases trace.len(),
{
    if trace.len() == 0 {
        0
    } else {
        releases_by(trace.drop_first(), stage) + if is_release_by(trace[0], stage) {
            1nat
        } else {
            0nat
        }
    }
}

/// Whether `mv` is a release by `stage`.
pub open spec fn is_release_by(mv: Move, stage: nat) -> bool {
    match mv {
        Move::Release { block, stage: s, slot } => s == stage,
        _ => false,
    }
}

/// How many slots `stage` has finished in the blocks below `upto`: for each
/// block the slots that the stage's `give` cursor has passed there, laps
/// counted.
pub open spec fn given(m: RingModel, stage: int, upto: int) -> nat
    decreases upto,
{
    if upto <= 0 {
        0
    } else {
        given(m, stage, upto - 1) + pos(upto - 1, cell(m, upto - 1, stage).give, m.block_size)
    }
}

/// Two states in which the `give` cursors of a stage have passed the same
/// number of slots in every block but one, and `more` more in that one,
/// differ by `more` in what the stage has finished.
proof fn lemma_given_differs(m: RingModel, n: RingModel, stage: int, upto: int, at: int, more: nat)
    requires
        0 <= upto,
        forall|b: int|
            0 <= b < upto && b != at ==> pos(b, cell(n, b, stage).give, n.block_size) == pos(
                b,
                cell(m, b, stage).give,
                m.block_size,
            ),
        0 <= at < upto ==> pos(at, cell(n, at, stage).give, n.block_size) == pos(
            at,
            cell(m, at, stage).give,
            m.block_size,
        ) + more,
    ensures
        given(n, stage, upto) == given(m, stage, upto) + if 0 <= at < upto {
            more
        } else {
            0
        },
    decreases upto,
{
    if upto > 0 {
        lemma_given_differs(m, n, stage, upto - 1, at, more);
    }
}

/// A release by a stage adds one to what the stage has finished, and no
/// other move changes it.
pub proof fn lemma_move_gives(m: RingModel, mv: Move, stage: nat)
    requires
        ring_sound(m),
        can(m, mv),
        stage < m.heads.len(),
    ensures
        given(after(m, mv), stage as int, m.blocks.len() as int) == given(
            m,
            stage as int,
            m.blocks.len() as int,
        ) + if is_release_by(mv, stage) {
            1nat
        } else {
            0nat
        },
{
    let n = after(m, mv);
    let s = stage as int;
    let blocks = m.blocks.len() as int;
    match mv {
        Move::Claim { stage: by } => {
            let at = under(m, by as int);
            assert(m.heads[by as int].index < m.blocks.len());
            assert(m.blocks[at].stages.len() == m.heads.len());
            assert forall|b: int| 0 <= b < blocks implies pos(
                b,
                cell(n, b, s).give,
                n.block_size,
            ) == pos(b, cell(m, b, s).give, m.block_size) by {}
            lemma_given_differs(m, n, s, blocks, -1, 0);
        },
        Move::Release { block, stage: by, slot } => {
            let at = block as int;
            assert(m.blocks[at].stages.len() == m.heads.len());
            if by == stage {
                lemma_given_differs(m, n, s, blocks, at, 1);
            } else {
                lemma_given_differs(m, n, s, blocks, -1, 0);
            }
        },
        _ => {
            assert forall|b: int| 0 <= b < blocks implies pos(
                b,
                cell(n, b, s).give,
                n.block_size,
            ) == pos(b, cell(m, b, s).give, m.block_size) by {
                lemma_raise_is_quiet(m, mv, b, s);
            }
            lemma_given_differs(m, n, s, blocks, -1, 0);
        },
    }
}

/// What a stage has finished, summed over the blocks and with the laps
/// counted, is the number of its releases: nothing is finished twice and
/// nothing is lost from the count.
pub proof fn lemma_gives_count_releases(m: RingModel, trace: Seq<Move>, stage: nat)
    requires
        ring_sound(m),
        can_all(m, trace),
        stage < m.heads.len(),
    ensures
        given(after_all(m, trace), stage as int, m.blocks.len() as int) == given(
            m,
            stage as int,
            m.blocks.len() as int,
        ) + releases_by(trace, stage),
    decreases trace.len(),
{
    if trace.len() > 0 {
        lemma_move_gives(m, trace[0], stage);
        lemma_move_keeps_ring(m, trace[0]);
        lemma_gives_count_releases(after(m, trace[0]), trace.drop_first(), stage);
    }
}

/// In a fresh ring no stage has finished anything.
pub proof fn lemma_fresh_ring_has_given_nothing(
    blocks: nat,
    block_size: nat,
    stages: nat,
    stage: int,
    upto: int,
)
    requires
        0 <= stage < stages,
        0 <= upto <= blocks,
    ensures
        given(fresh_ring(blocks, block_size, stages), stage, upto) == 0,
    decreases upto,
{
    if upto > 0 {
        let m = fresh_ring(blocks, block_size, stages);
        lemma_fresh_ring_has_given_nothing(blocks, block_size, stages, stage, upto - 1);
        assert(m.blocks[upto - 1] == crate::lap::fresh(block_size, stages));
        assert(cell(m, upto - 1, stage).give.version == 0);
        assert(0 * block_size == 0) by (nonlinear_arith);
    }
}

/// How many slots `stage` has reserved in the blocks below `upto`: for
/// each block the slots that the stage's `take` cursor has passed there,
/// laps counted.
pub open spec fn taken(m: RingModel, stage: int, upto: int) -> nat
    decreases upto,
{
    if upto <= 0 {
        0
    } else {
        taken(m, stage, upto - 1) + pos(upto - 1, cell(m, upto - 1, stage).take, m.block_size)
    }
}

/// Whether `mv` is a claim by `stage`.
pub open spec fn is_claim_by(mv: Move, stage: nat) -> bool {
    match mv {
        Move::Claim { stage: s } => s == stage,
        _ => false,
    }
}

/// Two states in which the `take` cursors of a stage have passed the same
/// number of slots in every block but one, and `more` more in that one,
/// differ by `more` in what the stage has reserved.
proof fn lemma_taken_differs(m: RingModel, n: RingModel, stage: int, upto: int, at: int, more: nat)
    requires
        0 <= upto,
        forall|b: int|
            0 <= b < upto && b != at ==> pos(b, cell(n, b, stage).take, n.block_size) == pos(
                b,
                cell(m, b, stage).take,
                m.block_size,
            ),
        0 <= at < upto ==> pos(at, cell(n, at, stage).take, n.block_size) == pos(
            at,
            cell(m, at, stage).take,
            m.block_size,
        ) + more,
    ensures
        taken(n, stage, upto) == taken(m, stage, upto) + if 0 <= at < upto {
            more
        } else {
            0
        },
    decreases upto,
{
    if upto > 0 {
        lemma_taken_differs(m, n, stage, upto - 1, at, more);
    }
}

/// A claim by a stage adds one to what the stage has reserved, and no
/// other move changes it.
pub proof fn lemma_move_takes(m: RingModel, mv: Move, stage: nat)
    requires
        ring_sound(m),
        can(m, mv),
        stage < m.heads.len(),
    ensures
        taken(after(m, mv), stage as int, m.blocks.len() as int) == taken(
            m,
            stage as int,
            m.blocks.len() as int,
        ) + if is_claim_by(mv, stage) {
            1nat
        } else {
            0nat
        },
{
    let n = after(m, mv);
    let s = stage as int;
    let blocks = m.blocks.len() as int;
    match mv {
        Move::Claim { stage: by } => {
            let at = under(m, by as int);
            assert(m.heads[by as int].index < m.blocks.len());
            assert(m.blocks[at].stages.len() == m.heads.len());
            if by == stage {
                lemma_taken_differs(m, n, s, blocks, at, 1);
            } else {
                lemma_taken_differs(m, n, s, blocks, -1, 0);
            }
        },
        Move::Release { block, stage: by, slot } => {
            let at = block as int;
            assert(m.blocks[at].stages.len() == m.heads.len());
            lemma_taken_differs(m, n, s, blocks, -1, 0);
        },
        _ => {
            assert forall|b: int| 0 <= b < blocks implies pos(
                b,
                cell(n, b, s).take,
                n.block_size,
            ) == pos(b, cell(m, b, s).take, m.block_size) by {
                lemma_raise_is_quiet(m, mv, b, s);
            }
            lemma_taken_differs(m, n, s, blocks, -1, 0);
        },
    }
}

/// A later stage has reserved no more than an earlier stage has finished.
pub proof fn lemma_taken_within_given(m: RingModel, earlier: int, later_stage: int, upto: int)
    requires
        ring_sound(m),
        0 <= earlier < later_stage < m.heads.len(),
        0 <= upto <= m.blocks.len(),
    ensures
        taken(m, later_stage, upto) <= given(m, earlier, upto),
    decreases upto,
{
    if upto > 0 {
        lemma_taken_within_given(m, earlier, later_stage, upto - 1);
        assert(order_sound(m, upto - 1));
        assert(pos(upto - 1, cell(m, upto - 1, later_stage).take, m.block_size) <= pos(
            upto - 1,
            cell(m, upto - 1, earlier).give,
            m.block_size,
        ));
    }
}

/// In a fresh ring no stage has reserved anything.
pub proof fn lemma_fresh_ring_has_taken_nothing(
    blocks: nat,
    block_size: nat,
    stages: nat,
    stage: int,
    upto: int,
)
    requires
        0 <= stage < stages,
        0 <= upto <= blocks,
    ensures
        taken(fresh_ring(blocks, block_size, stages), stage, upto) == 0,
    decreases upto,
{
    if upto > 0 {
        let m = fresh_ring(blocks, block_size, stages);
        lemma_fresh_ring_has_taken_nothing(blocks, block_size, stages, stage, upto - 1);
        assert(m.blocks[upto - 1] == crate::lap::fresh(block_size, stages));
        assert(cell(m, upto - 1, stage).take.version == 0);
        assert(0 * block_size == 0) by (nonlinear_arith);
    }
}

} // verus!

//! Every move of the ring leads from a sound state to a sound state.

use vstd::prelude::*;
use crate::block::{producer_offset, reserve_step, ReserveStep};
use crate::config::ring_prev;
use crate::field::FieldView;
use crate::fifo_inner::lap_version;
use crate::lap::{attempt, lemma_ring_prev};
use crate::ring::{
    after, after_all, can, can_all, cell, cell_sound, claimable, entered, expected_lap, give_lap,
    give_up, lap_of, later, next_block, order_sound, phase_sound, pos, reach, ring_sound,
    slot_pos, stepped, take_lap, take_up, under, version_for, Move, Phase, RingModel,
};

verus! {

/// A release leads from a sound state to a sound state.
pub proof fn lemma_release_keeps_ring(m: RingModel, block: nat, stage: nat, slot: nat)
    requires
        ring_sound(m),
        can(m, Move::Release { block, stage, slot }),
    ensures
        ring_sound(after(m, Move::Release { block, stage, slot })),
{
    let mv = Move::Release { block, stage, slot };
    let n = after(m, mv);
    let bb = block as int;
    let ss = stage as int;
    assert(m.blocks[bb].stages.len() == m.heads.len());
    assert(cell_sound(m, bb, ss));
    lemma_cell_lap(m, bb, ss);
    // A stage that holds a slot in a block is not raising its cursors
    // there, so its cursors are in one lap and `give` is below `take`.
    assert(cell(m, bb, ss).held.len() >= 1);
    assert(!give_up(m, bb, ss));
    assert forall|b: int| 0 <= b < n.blocks.len() implies (#[trigger] n.blocks[b]).stages.len()
        == n.heads.len() && n.blocks[b].block_size == n.block_size by {
        assert(m.blocks[b].stages.len() == m.heads.len());
    }
    assert forall|s: int| 0 <= s < n.heads.len() implies #[trigger] phase_sound(n, s) by {
        assert(phase_sound(m, s));
        assert(m.heads[s].index < m.blocks.len());
        lemma_next_block(m, s);
        assert(m.blocks[under(m, s)].stages.len() == m.heads.len());
        assert(m.blocks[next_block(m, under(m, s))].stages.len() == m.heads.len());
    }
    assert forall|b: int, s: int|
        0 <= b < n.blocks.len() && 0 <= s < n.heads.len() implies cell_sound(n, b, s) by {
        assert(cell_sound(m, b, s));
        assert(m.blocks[b].stages.len() == m.heads.len());
    }
    assert forall|b: int| 0 <= b < n.blocks.len() implies order_sound(n, b) by {
        assert(order_sound(m, b));
        assert(m.blocks[b].stages.len() == m.heads.len());
        lemma_order_frame_release(m, block, stage, slot, b);
    }
}

/// A release keeps the stages of every block in order.
proof fn lemma_order_frame_release(m: RingModel, block: nat, stage: nat, slot: nat, b: int)
    requires
        ring_sound(m),
        can(m, Move::Release { block, stage, slot }),
        0 <= b < m.blocks.len(),
    ensures
        order_sound(after(m, Move::Release { block, stage, slot }), b),
{
    let mv = Move::Release { block, stage, slot };
    let n = after(m, mv);
    let bb = block as int;
    let ss = stage as int;
    let last = m.heads.len() - 1;
    assert(order_sound(m, b));
    assert(m.blocks[b].stages.len() == m.heads.len());
    assert(m.blocks[bb].stages.len() == m.heads.len());
    assert(cell_sound(m, bb, ss));
    assert forall|i: int, j: int|
        #![trigger cell(n, b, i), cell(n, b, j)]
        0 <= i < j < n.heads.len() implies pos(b, cell(n, b, j).take, n.block_size) <= pos(
        b,
        cell(n, b, i).give,
        n.block_size,
    ) by {
        assert(pos(b, cell(m, b, j).take, m.block_size) <= pos(b, cell(m, b, i).give, m.block_size));
    }
    assert forall|i: int, j: int, k: nat|
        #![trigger cell(n, b, i).held.contains(k), cell(n, b, j)]
        0 <= i < j < n.heads.len() && cell(n, b, i).held.contains(k) implies slot_pos(
        b,
        cell(n, b, i).take.version,
        k,
        n.block_size,
    ) >= pos(b, cell(n, b, j).take, n.block_size) by {
        assert(cell(m, b, i).held.contains(k));
        assert(slot_pos(b, cell(m, b, i).take.version, k, m.block_size) >= pos(
            b,
            cell(m, b, j).take,
            m.block_size,
        ));
    }
    assert forall|k: nat| cell(n, b, last).held.contains(k) implies #[trigger] slot_pos(
        b,
        cell(n, b, last).take.version,
        k,
        n.block_size,
    ) + n.block_size >= pos(b, cell(n, b, 0).take, n.block_size) by {
        assert(cell(m, b, last).held.contains(k));
        assert(slot_pos(b, cell(m, b, last).take.version, k, m.block_size) + m.block_size >= pos(
            b,
            cell(m, b, 0).take,
            m.block_size,
        ));
    }
}

/// A later lap starts at least one block's length beyond any place in an
/// earlier lap's block.
pub proof fn lemma_lap_base(earlier: nat, later_lap: nat, block_size: nat)
    ensures
        earlier < later_lap ==> earlier * block_size + block_size <= later_lap * block_size,
        earlier <= later_lap ==> earlier * block_size <= later_lap * block_size,
        earlier == later_lap ==> earlier * block_size == later_lap * block_size,
{
    if earlier < later_lap {
        assert(earlier * block_size + block_size <= later_lap * block_size) by (nonlinear_arith)
            requires
                earlier + 1 <= later_lap,
        ;
    }
    if earlier <= later_lap {
        assert(earlier * block_size <= later_lap * block_size) by (nonlinear_arith)
            requires
                earlier <= later_lap,
        ;
    }
}

/// Telling the lap from the version undoes choosing the version for the
/// lap, and a later lap has a larger version.
pub proof fn lemma_version_laps(block: int, lap: nat, other: nat)
    ensures
        lap_of(block, version_for(block, lap)) == lap,
        lap < other ==> version_for(block, lap) < version_for(block, other),
        version_for(block, other) == version_for(block, lap) + 1 ==> other == lap + 1,
{
}

/// The cursors of a sound cell are in the laps that the head and the head
/// move tell, and with the head at rest, or away from the block that a
/// head move raises, both are in the lap that the head tells.
pub proof fn lemma_cell_lap(m: RingModel, block: int, stage: int)
    requires
        ring_sound(m),
        0 <= block < m.blocks.len(),
        0 <= stage < m.heads.len(),
    ensures
        lap_of(block, cell(m, block, stage).take.version) == take_lap(m, block, stage),
        lap_of(block, cell(m, block, stage).give.version) == give_lap(m, block, stage),
        take_lap(m, block, stage) <= give_lap(m, block, stage) <= take_lap(m, block, stage) + 1,
        pos(block, cell(m, block, stage).give, m.block_size) <= pos(
            block,
            cell(m, block, stage).take,
            m.block_size,
        ),
        !give_up(m, block, stage) ==> cell(m, block, stage).give.version == cell(
            m,
            block,
            stage,
        ).take.version && take_lap(m, block, stage) == expected_lap(m.heads[stage], block),
        block == under(m, stage) ==> !give_up(m, block, stage),
{
    assert(cell_sound(m, block, stage));
    assert(m.heads[stage].index < m.blocks.len());
    let here = under(m, stage);
    if here + 1 < m.blocks.len() {
        vstd::arithmetic::div_mod::lemma_small_mod((here + 1) as nat, m.blocks.len());
    } else {
        vstd::arithmetic::div_mod::lemma_mod_self_0(m.blocks.len() as int);
    }
}

/// A claim that `reserve_step` decides on the cursors as they stand is a
/// claim of a claimable slot: the slot has been published by the chased
/// stage, and the chased stage either holds nothing in the block or is in
/// a later lap there.
pub proof fn lemma_decided_is_claimable(m: RingModel, stage: nat)
    requires
        ring_sound(m),
        stage < m.heads.len(),
        attempt(m.blocks[under(m, stage as int)], stage) == ReserveStep::Claim,
    ensures
        claimable(m, stage as int),
{
    let b = under(m, stage as int);
    let s = stage as int;
    let bs = m.block_size;
    let last = m.heads.len() - 1;
    let chased = ring_prev(stage, m.heads.len()) as int;
    lemma_ring_prev(stage, m.heads.len());
    assert(m.heads[s].index < m.blocks.len());
    assert(m.blocks[b].stages.len() == m.heads.len());
    let me = cell(m, b, s);
    let c = cell(m, b, chased);
    assert(cell_sound(m, b, s));
    assert(cell_sound(m, b, chased));
    assert(order_sound(m, b));
    lemma_cell_lap(m, b, s);
    lemma_cell_lap(m, b, chased);
    let t = me.take;
    let g = c.give;
    let off = producer_offset(stage);
    let lap_me = take_lap(m, b, s);
    let lap_g = give_lap(m, b, chased);
    lemma_version_laps(b, lap_me, lap_g);
    lemma_version_laps(b, lap_g, lap_me);
    lemma_lap_base(lap_me, lap_g, bs);
    lemma_lap_base(lap_g, lap_me, bs);
    assert(reserve_step(t, g, c.take, off, bs) == ReserveStep::Claim);
    assert(t.index < bs);
    if stage > 0 {
        assert(pos(b, cell(m, b, s).take, bs) <= pos(b, cell(m, b, chased).give, bs));
    } else {
        assert(chased == last);
    }
    if t.version >= g.version + off {
        // The stage follows the chased stage through its lap, and the
        // chased stage is at rest.
        assert(t.version == g.version + off);
        assert(t.index != g.index);
        assert(c.take.index <= g.index);
        if stage == 0 {
            assert(lap_me == lap_g + 1);
            assert(lap_me * bs == lap_g * bs + bs) by (nonlinear_arith)
                requires
                    lap_me == lap_g + 1,
            ;
        }
        assert(t.index < g.index);
        if !give_up(m, b, chased) {
            assert(c.take.index == c.give.index);
            assert(c.held.len() == 0);
            c.held.lemma_len0_is_empty();
        }
        assert(c.held =~= Set::empty());
    } else {
        // The chased stage has left the stage's lap behind.
        assert forall|k: nat| c.held.contains(k) implies #[trigger] slot_pos(
            b,
            c.take.version,
            k,
            bs,
        ) + reach(s, bs) >= pos(b, me.take, bs) + 1 by {
            assert(!give_up(m, b, chased));
        }
    }
}

/// While a head move of a stage is under way the block under its head is
/// used up, so no slot is claimable for the stage.
pub proof fn lemma_claimable_is_at_rest(m: RingModel, stage: int)
    requires
        ring_sound(m),
        0 <= stage < m.heads.len(),
        claimable(m, stage),
    ensures
        m.moving[stage] is Rest,
{
    assert(phase_sound(m, stage));
}

/// A claim leads from a sound state to a sound state.
pub proof fn lemma_claim_keeps_ring(m: RingModel, stage: nat)
    requires
        ring_sound(m),
        can(m, Move::Claim { stage }),
    ensures
        ring_sound(after(m, Move::Claim { stage })),
{
    let mv = Move::Claim { stage };
    let n = after(m, mv);
    let bb = under(m, stage as int);
    let ss = stage as int;
    lemma_claimable_is_at_rest(m, ss);
    assert(m.heads[ss].index < m.blocks.len());
    assert(m.blocks[bb].stages.len() == m.heads.len());
    assert(cell_sound(m, bb, ss));
    lemma_cell_lap(m, bb, ss);
    assert forall|b: int| 0 <= b < n.blocks.len() implies (#[trigger] n.blocks[b]).stages.len()
        == n.heads.len() && n.blocks[b].block_size == n.block_size by {
        assert(m.blocks[b].stages.len() == m.heads.len());
    }
    assert forall|s: int| 0 <= s < n.heads.len() implies #[trigger] phase_sound(n, s) by {
        assert(phase_sound(m, s));
        assert(m.heads[s].index < m.blocks.len());
        lemma_next_block(m, s);
        assert(m.blocks[under(m, s)].stages.len() == m.heads.len());
        assert(m.blocks[next_block(m, under(m, s))].stages.len() == m.heads.len());
    }
    assert forall|b: int, s: int|
        0 <= b < n.blocks.len() && 0 <= s < n.heads.len() implies cell_sound(n, b, s) by {
        assert(cell_sound(m, b, s));
        assert(m.blocks[b].stages.len() == m.heads.len());
    }
    assert forall|b: int| 0 <= b < n.blocks.len() implies order_sound(n, b) by {
        assert(order_sound(m, b));
        assert(m.blocks[b].stages.len() == m.heads.len());
        if b == bb {
            lemma_order_claim(m, stage);
        } else {
            assert(n.blocks[b] == m.blocks[b]);
            assert(forall|s: int| cell(n, b, s) == cell(m, b, s));
        }
    }
}

/// A claim keeps the stages of the claimed block in order.
proof fn lemma_order_claim(m: RingModel, stage: nat)
    requires
        ring_sound(m),
        can(m, Move::Claim { stage }),
    ensures
        order_sound(after(m, Move::Claim { stage }), under(m, stage as int)),
{
    let mv = Move::Claim { stage };
    let n = after(m, mv);
    let b = under(m, stage as int);
    let ss = stage as int;
    let last = m.heads.len() - 1;
    let bs = m.block_size;
    let chased = ring_prev(stage, m.heads.len()) as int;
    lemma_ring_prev(stage, m.heads.len());
    assert(order_sound(m, b));
    assert(m.blocks[b].stages.len() == m.heads.len());
    assert(cell_sound(m, b, ss));
    lemma_cell_lap(m, b, ss);
    lemma_cell_lap(m, b, chased);
    let me = cell(m, b, ss);
    let c = cell(m, b, chased);
    lemma_lap_base(lap_of(b, me.take.version), lap_of(b, c.take.version), bs);
    assert forall|x: int| 0 <= x < m.heads.len() && x != ss implies cell(n, b, x) == cell(m, b, x) by {}
    assert(cell(n, b, ss).give == me.give);
    assert(pos(b, cell(n, b, ss).take, bs) == pos(b, me.take, bs) + 1);
    assert forall|i: int, j: int|
        #![trigger cell(n, b, i), cell(n, b, j)]
        0 <= i < j < n.heads.len() implies pos(b, cell(n, b, j).take, bs) <= pos(
        b,
        cell(n, b, i).give,
        bs,
    ) by {
        assert(pos(b, cell(m, b, j).take, bs) <= pos(b, cell(m, b, i).give, bs));
        if j == ss && i < ss - 1 {
            lemma_cell_lap(m, b, ss - 1);
            assert(pos(b, cell(m, b, ss - 1).take, bs) <= pos(b, cell(m, b, i).give, bs));
        }
    }
    assert forall|i: int, j: int, k: nat|
        #![trigger cell(n, b, i).held.contains(k), cell(n, b, j)]
        0 <= i < j < n.heads.len() && cell(n, b, i).held.contains(k) implies slot_pos(
        b,
        cell(n, b, i).take.version,
        k,
        bs,
    ) >= pos(b, cell(n, b, j).take, bs) by {
        if i == ss {
            assert(pos(b, cell(m, b, j).take, bs) <= pos(b, cell(m, b, i).give, bs));
            if k != me.take.index {
                assert(cell(m, b, i).held.contains(k));
                assert(slot_pos(b, cell(m, b, i).take.version, k, bs) >= pos(
                    b,
                    cell(m, b, j).take,
                    bs,
                ));
            }
        } else {
            assert(cell(m, b, i).held.contains(k));
            assert(slot_pos(b, cell(m, b, i).take.version, k, bs) >= pos(
                b,
                cell(m, b, j).take,
                bs,
            ));
            if j == ss {
                if i < ss - 1 {
                    lemma_cell_lap(m, b, ss - 1);
                    assert(slot_pos(b, cell(m, b, i).take.version, k, bs) >= pos(
                        b,
                        cell(m, b, ss - 1).take,
                        bs,
                    ));
                } else {
                    assert(i == chased);
                    assert(c.held.contains(k));
                }
            }
        }
    }
    assert(pos(b, cell(n, b, 0).take, bs) <= pos(b, cell(n, b, last).give, bs) + bs);
    assert forall|k: nat| cell(n, b, last).held.contains(k) implies #[trigger] slot_pos(
        b,
        cell(n, b, last).take.version,
        k,
        bs,
    ) + bs >= pos(b, cell(n, b, 0).take, bs) by {
        lemma_cell_lap(m, b, last);
        if ss == last && k == me.take.index {
        } else {
            assert(cell(m, b, last).held.contains(k));
            assert(slot_pos(b, cell(m, b, last).take.version, k, bs) + bs >= pos(
                b,
                cell(m, b, 0).take,
                bs,
            ));
            if ss == 0 {
                assert(last == chased);
                assert(c.held.contains(k));
            }
        }
    }
}

/// One step takes a head to the next block of the ring, and into the next
/// lap where the ring ends; the stepped head is the larger.
pub proof fn lemma_step_head(head: FieldView, blocks: nat)
    requires
        blocks >= 2,
        head.index < blocks,
    ensures
        head.index + 1 < blocks ==> stepped(head, blocks) == (FieldView {
            index_max: head.index_max,
            version: head.version,
            index: head.index + 1,
        }),
        head.index + 1 == blocks ==> stepped(head, blocks) == (FieldView {
            index_max: head.index_max,
            version: head.version + 1,
            index: 0,
        }),
        later(head, stepped(head, blocks)) == stepped(head, blocks),
        stepped(head, blocks).index == (head.index + 1) % blocks,
{
    if head.index + 1 < blocks {
        vstd::arithmetic::div_mod::lemma_small_mod(head.index + 1, blocks);
        vstd::arithmetic::div_mod::lemma_basic_div((head.index + 1) as int, blocks as int);
    } else {
        vstd::arithmetic::div_mod::lemma_mod_self_0(blocks as int);
        vstd::arithmetic::div_mod::lemma_div_basics(blocks as int);
    }
}

/// The stages of a block are in order in a state in which every cursor of
/// the block has passed as many slots, and every stage holds the same
/// slots under the same version, as in a state in which they are in order.
pub proof fn lemma_order_carries(m: RingModel, n: RingModel, b: int)
    requires
        order_sound(m, b),
        m.heads.len() >= 1,
        n.heads.len() == m.heads.len(),
        n.block_size == m.block_size,
        forall|s: int|
            0 <= s < m.heads.len() ==> {
                &&& pos(b, cell(n, b, s).take, m.block_size) == pos(
                    b,
                    (#[trigger] cell(m, b, s)).take,
                    m.block_size,
                )
                &&& pos(b, cell(n, b, s).give, m.block_size) == pos(
                    b,
                    cell(m, b, s).give,
                    m.block_size,
                )
                &&& cell(n, b, s).held == cell(m, b, s).held
                &&& cell(m, b, s).held =~= Set::empty() || cell(n, b, s).take.version == cell(
                    m,
                    b,
                    s,
                ).take.version
            },
    ensures
        order_sound(n, b),
{
    let bs = m.block_size;
    let last = m.heads.len() - 1;
    assert forall|i: int, j: int|
        #![trigger cell(n, b, i), cell(n, b, j)]
        0 <= i < j < n.heads.len() implies pos(b, cell(n, b, j).take, bs) <= pos(
        b,
        cell(n, b, i).give,
        bs,
    ) by {
        assert(pos(b, cell(m, b, j).take, bs) <= pos(b, cell(m, b, i).give, bs));
    }
    assert forall|i: int, j: int, k: nat|
        #![trigger cell(n, b, i).held.contains(k), cell(n, b, j)]
        0 <= i < j < n.heads.len() && cell(n, b, i).held.contains(k) implies slot_pos(
        b,
        cell(n, b, i).take.version,
        k,
        bs,
    ) >= pos(b, cell(n, b, j).take, bs) by {
        assert(cell(m, b, i).held.contains(k));
        assert(slot_pos(b, cell(m, b, i).take.version, k, bs) >= pos(b, cell(m, b, j).take, bs));
    }
    assert(pos(b, cell(m, b, 0).take, bs) <= pos(b, cell(m, b, last).give, bs) + bs);
    assert(pos(b, cell(n, b, 0).take, bs) == pos(b, cell(m, b, 0).take, bs));
    assert(pos(b, cell(n, b, last).give, bs) == pos(b, cell(m, b, last).give, bs));
    assert(cell(n, b, last).held == cell(m, b, last).held);
    assert forall|k: nat| cell(n, b, last).held.contains(k) implies #[trigger] slot_pos(
        b,
        cell(n, b, last).take.version,
        k,
        bs,
    ) + bs >= pos(b, cell(n, b, 0).take, bs) by {
        assert(cell(m, b, last).held.contains(k));
        assert(slot_pos(b, cell(m, b, last).take.version, k, bs) + bs >= pos(
            b,
            cell(m, b, 0).take,
            bs,
        ));
    }
}

/// Whether `mv` is a step of a head move.
pub open spec fn is_raise(mv: Move) -> bool {
    mv is RaiseGive || mv is RaiseTake || mv is RaiseHead
}

/// The stage that makes the move `mv`.
pub open spec fn mover(mv: Move) -> nat {
    match mv {
        Move::Claim { stage } => stage,
        Move::Release { block, stage, slot } => stage,
        Move::RaiseGive { stage } => stage,
        Move::RaiseTake { stage } => stage,
        Move::RaiseHead { stage } => stage,
    }
}

/// The block after the block under a head is another block of the ring.
pub proof fn lemma_next_block(m: RingModel, stage: int)
    requires
        ring_sound(m),
        0 <= stage < m.heads.len(),
    ensures
        0 <= next_block(m, under(m, stage)) < m.blocks.len(),
        next_block(m, under(m, stage)) != under(m, stage),
        under(m, stage) + 1 < m.blocks.len() ==> next_block(m, under(m, stage)) == under(m, stage)
            + 1,
        under(m, stage) + 1 == m.blocks.len() ==> next_block(m, under(m, stage)) == 0,
{
    let here = under(m, stage);
    assert(m.heads[stage].index < m.blocks.len());
    if here + 1 < m.blocks.len() {
        vstd::arithmetic::div_mod::lemma_small_mod((here + 1) as nat, m.blocks.len());
    } else {
        vstd::arithmetic::div_mod::lemma_mod_self_0(m.blocks.len() as int);
    }
}

/// A step of a head move changes no cursor's count of slots passed and
/// nothing that is held; it changes the cursors of the block after the one
/// under the mover's head, or the mover's head, and nothing else.
pub proof fn lemma_raise_is_quiet(m: RingModel, mv: Move, block: int, stage: int)
    requires
        ring_sound(m),
        can(m, mv),
        is_raise(mv),
        0 <= block < m.blocks.len(),
        0 <= stage < m.heads.len(),
    ensures
        after(m, mv).blocks.len() == m.blocks.len(),
        after(m, mv).heads.len() == m.heads.len(),
        after(m, mv).moving.len() == m.moving.len(),
        after(m, mv).block_size == m.block_size,
        after(m, mv).blocks[block].stages.len() == m.heads.len(),
        after(m, mv).blocks[block].block_size == m.block_size,
        pos(block, cell(after(m, mv), block, stage).take, m.block_size) == pos(
            block,
            cell(m, block, stage).take,
            m.block_size,
        ),
        pos(block, cell(after(m, mv), block, stage).give, m.block_size) == pos(
            block,
            cell(m, block, stage).give,
            m.block_size,
        ),
        cell(after(m, mv), block, stage).held == cell(m, block, stage).held,
        cell(m, block, stage).held =~= Set::empty() || cell(after(m, mv), block, stage).take
            == cell(m, block, stage).take,
        stage != mover(mv) || block != next_block(m, under(m, stage)) ==> cell(
            after(m, mv),
            block,
            stage,
        ) == cell(m, block, stage),
        stage != mover(mv) ==> after(m, mv).heads[stage] == m.heads[stage] && after(
            m,
            mv,
        ).moving[stage] == m.moving[stage],
        !(mv is RaiseHead) ==> after(m, mv).heads == m.heads,
{
    let n = after(m, mv);
    let by = mover(mv) as int;
    let here = under(m, by);
    let next = next_block(m, here);
    let bs = m.block_size;
    lemma_next_block(m, by);
    assert(m.blocks[block].stages.len() == m.heads.len());
    assert(m.blocks[next].stages.len() == m.heads.len());
    assert(m.blocks[here].stages.len() == m.heads.len());
    assert(cell_sound(m, next, by));
    assert(phase_sound(m, by));
    let head = m.heads[by];
    let old = cell(m, next, by);
    let l = expected_lap(head, next);
    lemma_version_laps(next, l, l + 1);
    lemma_version_laps(next, l + 1, l);
    assert((l + 1) * bs == l * bs + bs) by (nonlinear_arith);
    match mv {
        Move::RaiseGive { stage: s } => {
            assert(old.held.len() == 0);
            if entered(head, next) {
                assert(old.take.index == bs);
                assert(old.give.index == bs);
                assert(lap_version(head, old.give) == head.version + 1);
                assert(version_for(next, l + 1) == head.version + 1);
            } else {
                assert(old.take.index == 0);
                assert(old.give.index == 0);
            }
        },
        Move::RaiseTake { stage: s } => {
            let start = m.moving[by]->start;
            if entered(head, next) {
                assert(old.take.index == bs);
                assert(old.give.index == 0);
                assert(start.version == version_for(next, l + 1));
            } else {
                assert(old.take.index == 0);
            }
        },
        Move::RaiseHead { stage: s } => {},
        _ => {},
    }
}

/// The last step of a head move takes the head to the next block of the
/// ring, where the stage's `take` cursor stands at the start of its lap
/// and the stage holds nothing; the block that the head leaves is used
/// up.
pub proof fn lemma_raise_head_lands(m: RingModel, stage: nat)
    requires
        ring_sound(m),
        can(m, Move::RaiseHead { stage }),
    ensures
        after(m, Move::RaiseHead { stage }).heads[stage as int] == stepped(
            m.heads[stage as int],
            m.blocks.len(),
        ),
        under(after(m, Move::RaiseHead { stage }), stage as int) == next_block(
            m,
            under(m, stage as int),
        ),
        after(m, Move::RaiseHead { stage }).blocks == m.blocks,
        cell(m, next_block(m, under(m, stage as int)), stage as int).take.index == 0,
        cell(m, next_block(m, under(m, stage as int)), stage as int).held =~= Set::empty(),
        cell(m, under(m, stage as int), stage as int).take.index == m.block_size,
{
    let s = stage as int;
    lemma_next_block(m, s);
    lemma_step_head(m.heads[s], m.blocks.len());
    let next = next_block(m, under(m, s));
    assert(m.blocks[next].stages.len() == m.heads.len());
    assert(cell_sound(m, next, s));
    assert(phase_sound(m, s));
}

/// A step of a head move leads from a sound state to a sound state.
pub proof fn lemma_raise_keeps_ring(m: RingModel, mv: Move)
    requires
        ring_sound(m),
        can(m, mv),
        is_raise(mv),
    ensures
        ring_sound(after(m, mv)),
{
    let n = after(m, mv);
    let by = mover(mv) as int;
    let here = under(m, by);
    let next = next_block(m, here);
    let bs = m.block_size;
    let head = m.heads[by];
    lemma_next_block(m, by);
    lemma_step_head(head, m.blocks.len());
    lemma_raise_is_quiet(m, mv, next, by);
    assert(m.blocks[next].stages.len() == m.heads.len());
    assert(m.blocks[here].stages.len() == m.heads.len());
    assert(cell_sound(m, next, by));
    assert(cell_sound(m, here, by));
    assert(phase_sound(m, by));
    assert forall|s: int| 0 <= s < n.heads.len() implies (#[trigger] n.heads[s]).index
        < n.blocks.len() by {
        assert(m.heads[s].index < m.blocks.len());
    }
    assert forall|b: int| 0 <= b < n.blocks.len() implies (#[trigger] n.blocks[b]).stages.len()
        == n.heads.len() && n.blocks[b].block_size == n.block_size by {
        lemma_raise_is_quiet(m, mv, b, by);
    }
    assert forall|s: int| 0 <= s < n.heads.len() implies #[trigger] phase_sound(n, s) by {
        assert(phase_sound(m, s));
        lemma_raise_is_quiet(m, mv, under(m, s), s);
        assert(m.heads[s].index < m.blocks.len());
        lemma_next_block(m, s);
        lemma_raise_is_quiet(m, mv, next_block(m, under(m, s)), s);
    }
    assert forall|b: int, s: int|
        0 <= b < n.blocks.len() && 0 <= s < n.heads.len() implies cell_sound(n, b, s) by {
        assert(cell_sound(m, b, s));
        lemma_raise_is_quiet(m, mv, b, s);
        if s == by {
            lemma_raise_cell(m, mv, b);
        }
    }
    assert forall|b: int| 0 <= b < n.blocks.len() implies order_sound(n, b) by {
        assert(order_sound(m, b));
        assert forall|s: int| 0 <= s < m.heads.len() implies {
            &&& pos(b, cell(n, b, s).take, bs) == pos(b, (#[trigger] cell(m, b, s)).take, bs)
            &&& pos(b, cell(n, b, s).give, bs) == pos(b, cell(m, b, s).give, bs)
            &&& cell(n, b, s).held == cell(m, b, s).held
            &&& cell(m, b, s).held =~= Set::empty() || cell(n, b, s).take.version == cell(
                m,
                b,
                s,
            ).take.version
        } by {
            lemma_raise_is_quiet(m, mv, b, s);
        }
        lemma_order_carries(m, n, b);
    }
}

/// After a step of a head move, the mover's cursors in every block fit its
/// head and head move.
proof fn lemma_raise_cell(m: RingModel, mv: Move, b: int)
    requires
        ring_sound(m),
        can(m, mv),
        is_raise(mv),
        0 <= b < m.blocks.len(),
    ensures
        cell_sound(after(m, mv), b, mover(mv) as int),
{
    let n = after(m, mv);
    let by = mover(mv) as int;
    let here = under(m, by);
    let next = next_block(m, here);
    let bs = m.block_size;
    let head = m.heads[by];
    lemma_next_block(m, by);
    lemma_step_head(head, m.blocks.len());
    lemma_raise_is_quiet(m, mv, b, by);
    lemma_raise_is_quiet(m, mv, next, by);
    assert(m.blocks[next].stages.len() == m.heads.len());
    assert(m.blocks[here].stages.len() == m.heads.len());
    assert(m.blocks[b].stages.len() == m.heads.len());
    assert(cell_sound(m, b, by));
    assert(cell_sound(m, next, by));
    assert(cell_sound(m, here, by));
    assert(phase_sound(m, by));
    let old = cell(m, next, by);
    let l = expected_lap(head, next);
    lemma_version_laps(next, l, l + 1);
    lemma_version_laps(next, l + 1, l);
    match mv {
        Move::RaiseGive { stage: s } => {
            if b == next {
                assert(old.held.len() == 0);
                if entered(head, next) {
                    assert(old.take.index == bs);
                    assert(old.give.index == bs);
                    assert(lap_version(head, old.give) == head.version + 1);
                    assert(version_for(next, l + 1) == head.version + 1);
                } else {
                    assert(old.take.index == 0);
                    assert(old.give.index == 0);
                }
            }
        },
        Move::RaiseTake { stage: s } => {
            if b == next {
                let start = m.moving[by]->start;
                if entered(head, next) {
                    assert(old.take.index == bs);
                    assert(start.version == version_for(next, l + 1));
                } else {
                    assert(old.take.index == 0);
                }
            }
        },
        Move::RaiseHead { stage: s } => {
            let nh = n.heads[by];
            assert(nh == stepped(head, m.blocks.len()));
            assert(nh.index == next);
            if next + 1 < m.blocks.len() {
                vstd::arithmetic::div_mod::lemma_small_mod((next + 1) as nat, m.blocks.len());
            } else {
                vstd::arithmetic::div_mod::lemma_mod_self_0(m.blocks.len() as int);
            }
        },
        _ => {},
    }
}

/// A move that can happen leads from a sound state to a sound state.
pub proof fn lemma_move_keeps_ring(m: RingModel, mv: Move)
    requires
        ring_sound(m),
        can(m, mv),
    ensures
        ring_sound(after(m, mv)),
        after(m, mv).blocks.len() == m.blocks.len(),
        after(m, mv).heads.len() == m.heads.len(),
        after(m, mv).block_size == m.block_size,
{
    match mv {
        Move::Claim { stage } => lemma_claim_keeps_ring(m, stage),
        Move::Release { block, stage, slot } => lemma_release_keeps_ring(m, block, stage, slot),
        _ => {
            lemma_raise_keeps_ring(m, mv);
            lemma_raise_is_quiet(m, mv, 0, 0);
        },
    }
}

/// Every state that a trace of moves reaches from a sound state is sound.
pub proof fn lemma_trace_keeps_ring(m: RingModel, trace: Seq<Move>)
    requires
        ring_sound(m),
        can_all(m, trace),
    ensures
        ring_sound(after_all(m, trace)),
        after_all(m, trace).blocks.len() == m.blocks.len(),
        after_all(m, trace).heads.len() == m.heads.len(),
        after_all(m, trace).block_size == m.block_size,
    decreases trace.len(),
{
    if trace.len() > 0 {
        lemma_move_keeps_ring(m, trace[0]);
        lemma_trace_keeps_ring(after(m, trace[0]), trace.drop_first());
    }
}

} // verus!

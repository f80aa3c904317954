//! Claims that are decided on cursors read earlier.
//!
//! A worker that reserves a slot reads its stage's head, then its stage's
//! `take` cursor in the block under that head, then the chased stage's
//! `give` cursor and, where the rule asks for it, the chased stage's `take`
//! cursor; then it raises `take` by one if `take` still reads what it read.
//! Other workers move between these steps. What the worker has read is its
//! look. A look stays good while the others move, because cursors only
//! move forward; and a claim that `reserve_step` decides on a good look is
//! a claim of a claimable slot, if the stage's `take` cursor still reads
//! what the look has for it and no head move of the stage is under way.

use vstd::prelude::*;
use crate::block::{needs_chased_take, producer_offset, reserve_step, ReserveStep};
use crate::config::ring_prev;
use crate::field::FieldView;
use crate::lap::lemma_ring_prev;
use crate::ring::{
    after, can, cell, cell_sound, claimable, lap_of, next_block, order_sound, pos, reach,
    ring_sound, slot_pos, under, Move, RingModel,
};
use crate::ring_moves::{
    is_raise, lemma_cell_lap, lemma_lap_base, lemma_move_keeps_ring, lemma_raise_is_quiet,
    lemma_step_head, mover,
};

verus! {

/// What a worker of `stage` has read on its way to a claim, in the order
/// in which it reads: the head, its own `take`, the chased `give`, the
/// chased `take`.
pub struct Look {
    pub stage: nat,
    pub head: FieldView,
    pub take: Option<FieldView>,
    pub give: Option<FieldView>,
    pub chased_take: Option<FieldView>,
}

/// Whether cursor `a` is at or before cursor `b`, by version first and
/// index second.
pub open spec fn at_or_before(a: FieldView, b: FieldView) -> bool {
    a.version < b.version || (a.version == b.version && a.index <= b.index)
}

/// Whether a stage's cursors in the block at `block` can carry the version
/// `version`.
pub open spec fn valid_version(block: int, version: nat) -> bool {
    block == 0 || version != 1
}

/// Whether `f` is a cursor that the block at `block` can have had: a
/// version that the block can carry and an index within the block.
pub open spec fn past_cursor(block: int, f: FieldView, block_size: nat) -> bool {
    valid_version(block, f.version) && f.index <= block_size
}

/// Whether the look `l` is good in the state `m`: what it has was read
/// from states that led to `m`, in the order in which a worker reads.
pub open spec fn good(m: RingModel, l: Look) -> bool {
    let b = l.head.index as int;
    let s = l.stage as int;
    let c = ring_prev(l.stage, m.heads.len()) as int;
    let bs = m.block_size;
    &&& l.stage < m.heads.len()
    &&& 0 <= b < m.blocks.len()
    &&& at_or_before(l.head, m.heads[s])
    &&& l.take matches Some(t) ==> {
        &&& past_cursor(b, t, bs)
        &&& pos(b, t, bs) <= pos(b, cell(m, b, s).take, bs)
    }
    &&& l.give matches Some(g) ==> {
        &&& l.take is Some
        &&& past_cursor(b, g, bs)
        &&& pos(b, g, bs) <= pos(b, cell(m, b, c).give, bs)
        &&& pos(b, l.take.unwrap(), bs) <= pos(b, g, bs) + reach(s, bs)
        &&& forall|k: nat|
            cell(m, b, c).held.contains(k) ==> #[trigger] slot_pos(
                b,
                cell(m, b, c).take.version,
                k,
                bs,
            ) >= lap_of(b, g.version) * bs
    }
    &&& l.chased_take matches Some(ct) ==> {
        &&& l.give is Some
        &&& ct.index <= l.give.unwrap().index ==> forall|k: nat|
            cell(m, b, c).held.contains(k) ==> #[trigger] slot_pos(
                b,
                cell(m, b, c).take.version,
                k,
                bs,
            ) >= pos(b, l.give.unwrap(), bs)
    }
}

/// The look of a worker of `stage` that has read the stage's head in the
/// state `m`.
pub open spec fn see_head(m: RingModel, stage: nat) -> Look {
    Look { stage, head: m.heads[stage as int], take: None, give: None, chased_take: None }
}

/// The look `l` after the worker has read its stage's `take` cursor in the
/// state `m`.
pub open spec fn see_take(m: RingModel, l: Look) -> Look {
    Look {
        stage: l.stage,
        head: l.head,
        take: Some(cell(m, l.head.index as int, l.stage as int).take),
        give: None,
        chased_take: None,
    }
}

/// The look `l` after the worker has read the chased stage's `give` cursor
/// in the state `m`.
pub open spec fn see_give(m: RingModel, l: Look) -> Look {
    Look {
        stage: l.stage,
        head: l.head,
        take: l.take,
        give: Some(
            cell(m, l.head.index as int, ring_prev(l.stage, m.heads.len()) as int).give,
        ),
        chased_take: None,
    }
}

/// The look `l` after the worker has read the chased stage's `take` cursor
/// in the state `m`.
pub open spec fn see_chased_take(m: RingModel, l: Look) -> Look {
    Look {
        stage: l.stage,
        head: l.head,
        take: l.take,
        give: l.give,
        chased_take: Some(
            cell(m, l.head.index as int, ring_prev(l.stage, m.heads.len()) as int).take,
        ),
    }
}

/// What `reserve_step` decides on the look `l`: the chased stage's `take`
/// cursor counts where the look has it, and is not asked for where the
/// look has none.
pub open spec fn decided(l: Look, block_size: nat) -> ReserveStep {
    reserve_step(
        l.take.unwrap(),
        l.give.unwrap(),
        match l.chased_take {
            Some(ct) => ct,
            None => l.give.unwrap(),
        },
        producer_offset(l.stage),
        block_size,
    )
}

/// Whether the look `l` has all that the rule asks for.
pub open spec fn complete(l: Look, block_size: nat) -> bool {
    &&& l.take is Some
    &&& l.give is Some
    &&& needs_chased_take(l.take.unwrap(), l.give.unwrap(), producer_offset(l.stage), block_size)
        ==> l.chased_take is Some
}

/// A later lap has the larger version, and a version one larger is the
/// next lap, among the versions that a block can carry.
proof fn lemma_valid_laps(block: int, a: nat, b: nat)
    requires
        valid_version(block, a),
        valid_version(block, b),
    ensures
        a < b ==> lap_of(block, a) < lap_of(block, b),
        a <= b ==> lap_of(block, a) <= lap_of(block, b),
        a == b + 1 ==> lap_of(block, a) == lap_of(block, b) + 1,
        lap_of(block, a) == lap_of(block, b) ==> a == b,
{
}

/// The cursors of a sound cell are cursors that the block can have.
proof fn lemma_cell_is_past(m: RingModel, block: int, stage: int)
    requires
        ring_sound(m),
        0 <= block < m.blocks.len(),
        0 <= stage < m.heads.len(),
    ensures
        past_cursor(block, cell(m, block, stage).take, m.block_size),
        past_cursor(block, cell(m, block, stage).give, m.block_size),
{
    lemma_cell_lap(m, block, stage);
    assert(cell_sound(m, block, stage));
}

/// The look of a worker that has just read its stage's head is good.
pub proof fn lemma_see_head(m: RingModel, stage: nat)
    requires
        ring_sound(m),
        stage < m.heads.len(),
    ensures
        good(m, see_head(m, stage)),
{
    assert(m.heads[stage as int].index < m.blocks.len());
}

/// A good look is still good once the worker has read its stage's `take`
/// cursor.
pub proof fn lemma_see_take(m: RingModel, l: Look)
    requires
        ring_sound(m),
        good(m, l),
    ensures
        good(m, see_take(m, l)),
{
    lemma_cell_is_past(m, l.head.index as int, l.stage as int);
}

/// A good look that has the stage's `take` cursor is still good once the
/// worker has read the chased stage's `give` cursor.
pub proof fn lemma_see_give(m: RingModel, l: Look)
    requires
        ring_sound(m),
        good(m, l),
        l.take is Some,
    ensures
        good(m, see_give(m, l)),
{
    let b = l.head.index as int;
    let s = l.stage as int;
    let c = ring_prev(l.stage, m.heads.len()) as int;
    let last = m.heads.len() - 1;
    let bs = m.block_size;
    let now = cell(m, b, c);
    lemma_ring_prev(l.stage, m.heads.len());
    lemma_cell_is_past(m, b, c);
    lemma_cell_lap(m, b, c);
    assert(cell_sound(m, b, c));
    assert(order_sound(m, b));
    if s > 0 {
        assert(pos(b, cell(m, b, s).take, bs) <= pos(b, cell(m, b, c).give, bs));
    } else {
        assert(c == last);
    }
    assert forall|k: nat| now.held.contains(k) implies #[trigger] slot_pos(
        b,
        now.take.version,
        k,
        bs,
    ) >= lap_of(b, now.give.version) * bs by {
        assert(now.give.version == now.take.version);
    }
}

/// A good look that has the chased stage's `give` cursor is still good
/// once the worker has read the chased stage's `take` cursor.
pub proof fn lemma_see_chased_take(m: RingModel, l: Look)
    requires
        ring_sound(m),
        good(m, l),
        l.give is Some,
    ensures
        good(m, see_chased_take(m, l)),
{
    let b = l.head.index as int;
    let c = ring_prev(l.stage, m.heads.len()) as int;
    let bs = m.block_size;
    let g = l.give.unwrap();
    let now = cell(m, b, c);
    lemma_ring_prev(l.stage, m.heads.len());
    lemma_cell_is_past(m, b, c);
    lemma_cell_lap(m, b, c);
    assert(cell_sound(m, b, c));
    if now.take.index <= g.index {
        let lap_g = lap_of(b, g.version);
        let lap_t = lap_of(b, now.take.version);
        lemma_lap_base(lap_g, lap_t, bs);
        lemma_lap_base(lap_t, lap_g, bs);
        assert forall|k: nat| now.held.contains(k) implies #[trigger] slot_pos(
            b,
            now.take.version,
            k,
            bs,
        ) >= pos(b, g, bs) by {
            // A stage that holds a slot is not where a head move raises
            // its cursors, so its cursors are in one lap; were that the
            // lap of `g`, the stage would have been at rest at `g`.
            assert(now.give.version == now.take.version);
            if lap_g == lap_t {
                assert(now.take.index == now.give.index);
                assert(now.held.len() == 0);
                now.held.lemma_len0_is_empty();
            }
        }
    }
}

/// No move takes a cursor back in the count of slots passed, or a head
/// back.
proof fn lemma_move_goes_forward(m: RingModel, mv: Move, block: int, stage: int)
    requires
        ring_sound(m),
        can(m, mv),
        0 <= block < m.blocks.len(),
        0 <= stage < m.heads.len(),
    ensures
        pos(block, cell(m, block, stage).take, m.block_size) <= pos(
            block,
            cell(after(m, mv), block, stage).take,
            m.block_size,
        ),
        pos(block, cell(m, block, stage).give, m.block_size) <= pos(
            block,
            cell(after(m, mv), block, stage).give,
            m.block_size,
        ),
        at_or_before(m.heads[stage], after(m, mv).heads[stage]),
{
    let n = after(m, mv);
    lemma_move_keeps_ring(m, mv);
    assert(m.blocks[block].stages.len() == m.heads.len());
    match mv {
        Move::Claim { stage: by } => {
            assert(m.heads[by as int].index < m.blocks.len());
            assert(m.blocks[under(m, by as int)].stages.len() == m.heads.len());
        },
        Move::Release { block: at, stage: by, slot } => {
            assert(m.blocks[at as int].stages.len() == m.heads.len());
        },
        _ => {
            lemma_raise_is_quiet(m, mv, block, stage);
            assert(m.heads[mover(mv) as int].index < m.blocks.len());
            lemma_step_head(m.heads[mover(mv) as int], m.blocks.len());
        },
    }
}

/// A good look stays good whatever move happens.
pub proof fn lemma_move_keeps_good(m: RingModel, mv: Move, l: Look)
    requires
        ring_sound(m),
        can(m, mv),
        good(m, l),
    ensures
        good(after(m, mv), l),
{
    let n = after(m, mv);
    let b = l.head.index as int;
    let s = l.stage as int;
    let c = ring_prev(l.stage, m.heads.len()) as int;
    let bs = m.block_size;
    lemma_ring_prev(l.stage, m.heads.len());
    lemma_move_keeps_ring(m, mv);
    lemma_move_goes_forward(m, mv, b, s);
    lemma_move_goes_forward(m, mv, b, c);
    if l.give is Some {
        let g = l.give.unwrap();
        assert forall|k: nat| cell(n, b, c).held.contains(k) implies #[trigger] slot_pos(
            b,
            cell(n, b, c).take.version,
            k,
            bs,
        ) >= lap_of(b, g.version) * bs by {
            lemma_held_stays_beyond(m, mv, l, k);
        }
    }
    if l.chased_take is Some && l.chased_take.unwrap().index <= l.give.unwrap().index {
        let g = l.give.unwrap();
        assert forall|k: nat| cell(n, b, c).held.contains(k) implies #[trigger] slot_pos(
            b,
            cell(n, b, c).take.version,
            k,
            bs,
        ) >= pos(b, g, bs) by {
            lemma_held_stays_beyond(m, mv, l, k);
        }
    }
}

/// What the chased stage holds after a move lies where what it held
/// before the move did: at or beyond the start of the lap of the chased
/// `give` that a look has, and at or beyond that `give` itself where the
/// holder of the look found the chased stage at rest.
proof fn lemma_held_stays_beyond(m: RingModel, mv: Move, l: Look, k: nat)
    requires
        ring_sound(m),
        can(m, mv),
        good(m, l),
        l.give is Some,
        cell(
            after(m, mv),
            l.head.index as int,
            ring_prev(l.stage, m.heads.len()) as int,
        ).held.contains(k),
    ensures
        slot_pos(
            l.head.index as int,
            cell(
                after(m, mv),
                l.head.index as int,
                ring_prev(l.stage, m.heads.len()) as int,
            ).take.version,
            k,
            m.block_size,
        ) >= lap_of(l.head.index as int, l.give.unwrap().version) * m.block_size,
        l.chased_take is Some && l.chased_take.unwrap().index <= l.give.unwrap().index
            ==> slot_pos(
            l.head.index as int,
            cell(
                after(m, mv),
                l.head.index as int,
                ring_prev(l.stage, m.heads.len()) as int,
            ).take.version,
            k,
            m.block_size,
        ) >= pos(l.head.index as int, l.give.unwrap(), m.block_size),
{
    let n = after(m, mv);
    let b = l.head.index as int;
    let c = ring_prev(l.stage, m.heads.len()) as int;
    let bs = m.block_size;
    let g = l.give.unwrap();
    lemma_ring_prev(l.stage, m.heads.len());
    lemma_move_keeps_ring(m, mv);
    assert(m.blocks[b].stages.len() == m.heads.len());
    assert(cell_sound(m, b, c));
    lemma_cell_lap(m, b, c);
    match mv {
        Move::Claim { stage: by } => {
            let at = under(m, by as int);
            assert(m.heads[by as int].index < m.blocks.len());
            assert(m.blocks[at].stages.len() == m.heads.len());
            if by == c && at == b && k == cell(m, b, c).take.index {
                // The slot just claimed lies at the chased stage's `take`,
                // which is not before its `give`.
            } else {
                assert(cell(m, b, c).held.contains(k));
                assert(slot_pos(b, cell(m, b, c).take.version, k, bs) >= lap_of(b, g.version)
                    * bs);
            }
        },
        Move::Release { block: at, stage: by, slot } => {
            assert(m.blocks[at as int].stages.len() == m.heads.len());
            assert(cell(m, b, c).held.contains(k));
            assert(slot_pos(b, cell(m, b, c).take.version, k, bs) >= lap_of(b, g.version) * bs);
        },
        _ => {
            lemma_raise_is_quiet(m, mv, b, c);
            assert(cell(m, b, c).held.contains(k));
            assert(slot_pos(b, cell(m, b, c).take.version, k, bs) >= lap_of(b, g.version) * bs);
        },
    }
}

/// A good look stays good whatever the other workers do.
pub proof fn lemma_trace_keeps_good(m: RingModel, trace: Seq<Move>, l: Look)
    requires
        ring_sound(m),
        crate::ring::can_all(m, trace),
        good(m, l),
    ensures
        good(crate::ring::after_all(m, trace), l),
    decreases trace.len(),
{
    if trace.len() > 0 {
        lemma_move_keeps_good(m, trace[0], l);
        lemma_move_keeps_ring(m, trace[0]);
        lemma_trace_keeps_good(after(m, trace[0]), trace.drop_first(), l);
    }
}

/// A claim that `reserve_step` decides on a good look is a claim of a
/// claimable slot in the block under the stage's head, if the stage's
/// `take` cursor still reads what the look has for it: the cursors that
/// the worker read one after the other, while others moved, serve as well
/// as cursors read at once.
pub proof fn lemma_late_claim_is_claimable(m: RingModel, l: Look)
    requires
        ring_sound(m),
        good(m, l),
        complete(l, m.block_size),
        decided(l, m.block_size) == ReserveStep::Claim,
        cell(m, l.head.index as int, l.stage as int).take.version == l.take.unwrap().version,
        cell(m, l.head.index as int, l.stage as int).take.index == l.take.unwrap().index,
        m.moving[l.stage as int] is Rest,
    ensures
        under(m, l.stage as int) == l.head.index,
        claimable(m, l.stage as int),
        can(m, Move::Claim { stage: l.stage }),
{
    let b = l.head.index as int;
    let s = l.stage as int;
    let c = ring_prev(l.stage, m.heads.len()) as int;
    let bs = m.block_size;
    let t = l.take.unwrap();
    let g = l.give.unwrap();
    let off = producer_offset(l.stage);
    let me = cell(m, b, s);
    let ch = cell(m, b, c);
    lemma_ring_prev(l.stage, m.heads.len());
    assert(m.heads[s].index < m.blocks.len());
    assert(m.blocks[b].stages.len() == m.heads.len());
    assert(cell_sound(m, b, s));
    assert(cell_sound(m, b, c));
    lemma_cell_lap(m, b, s);
    lemma_cell_lap(m, b, c);
    lemma_cell_is_past(m, b, s);
    lemma_cell_is_past(m, b, c);
    assert(t.index < bs);
    // A block with room left for the stage is the block under its head.
    assert(b == under(m, s));
    let lap_t = lap_of(b, t.version);
    let lap_g = lap_of(b, g.version);
    lemma_valid_laps(b, t.version, g.version);
    lemma_valid_laps(b, g.version, t.version);
    lemma_lap_base(lap_t, lap_g, bs);
    lemma_lap_base(lap_g, lap_t, bs);
    assert(pos(b, me.take, bs) == pos(b, t, bs));
    if t.version >= g.version + off {
        // The stage follows the chased stage through the lap of `g`.
        assert(t.version == g.version + off);
        assert(t.index != g.index);
        assert(l.chased_take is Some);
        assert(l.chased_take.unwrap().index <= g.index);
        if s == 0 {
            assert(lap_t == lap_g + 1);
            assert(lap_t * bs == lap_g * bs + bs) by (nonlinear_arith)
                requires
                    lap_t == lap_g + 1,
            ;
        }
        assert(t.index < g.index);
        assert forall|k: nat| ch.held.contains(k) implies #[trigger] slot_pos(
            b,
            ch.take.version,
            k,
            bs,
        ) + reach(s, bs) >= pos(b, me.take, bs) + 1 by {}
    } else {
        // The chased stage had left the stage's lap behind when `g` was
        // read.
        assert forall|k: nat| ch.held.contains(k) implies #[trigger] slot_pos(
            b,
            ch.take.version,
            k,
            bs,
        ) + reach(s, bs) >= pos(b, me.take, bs) + 1 by {}
    }
}

} // verus!

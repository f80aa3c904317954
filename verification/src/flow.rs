//! What the slots hold as values pass through the ring.
//!
//! On top of the cursors of `ring` the state here keeps what every slot
//! holds, what the producer has left at every visit to a slot, and what the
//! last stage has found there. A visit is one lap's use of one slot of one
//! block. The producer writes a value of its choice when it lets go of a
//! slot; every later stage leaves the slot as it finds it.

use vstd::prelude::*;
use crate::ring::{
    after, can, cell, cell_sound, lap_of, next_block, order_sound, pos, ring_sound, slot_pos,
    under, Move, RingModel,
};
use crate::ring_moves::{lemma_cell_lap, lemma_move_keeps_ring, lemma_raise_is_quiet};

verus! {

/// One visit of the stages to a slot: the block, the lap and the slot.
pub struct Key {
    pub block: int,
    pub lap: nat,
    pub slot: nat,
}

/// The ring with what its slots hold.
pub struct FlowModel {
    pub ring: RingModel,
    /// What the slot at `(block, slot)` holds.
    pub slots: Map<(int, nat), nat>,
    /// What the producer left in the slot at each visit it has finished.
    pub put: Map<Key, nat>,
    /// What the last stage found in the slot at each visit it has finished.
    pub got: Map<Key, nat>,
}

/// A move, and the value that the producer leaves in the slot where the
/// move is a release by the producer.
pub struct Deed {
    pub mv: Move,
    pub value: nat,
}

/// The visit that `stage` is on in `block` when it holds `slot` there.
pub open spec fn key_of(r: RingModel, block: int, stage: int, slot: nat) -> Key {
    Key { block, lap: lap_of(block, cell(r, block, stage).take.version), slot }
}

/// A ring in which nothing has been written or read.
pub open spec fn fresh_flow(r: RingModel) -> FlowModel {
    FlowModel { ring: r, slots: Map::empty(), put: Map::empty(), got: Map::empty() }
}

/// The state after `d` has happened in the state `f`.
pub open spec fn flow_after(f: FlowModel, d: Deed) -> FlowModel {
    let ring = after(f.ring, d.mv);
    match d.mv {
        Move::Release { block, stage, slot } => {
            let key = key_of(f.ring, block as int, stage as int, slot);
            if stage == 0 {
                FlowModel {
                    ring,
                    slots: f.slots.insert((block as int, slot), d.value),
                    put: f.put.insert(key, d.value),
                    got: f.got,
                }
            } else if stage == f.ring.heads.len() - 1 {
                FlowModel {
                    ring,
                    slots: f.slots,
                    put: f.put,
                    got: f.got.insert(key, f.slots[(block as int, slot)]),
                }
            } else {
                FlowModel { ring, slots: f.slots, put: f.put, got: f.got }
            }
        },
        _ => FlowModel { ring, slots: f.slots, put: f.put, got: f.got },
    }
}

/// Whether the deeds of `trace` can happen one after the other, starting
/// in the state `f`.
pub open spec fn flow_can_all(f: FlowModel, trace: Seq<Deed>) -> bool
    decreases trace.len(),
{
    if trace.len() == 0 {
        true
    } else {
        can(f.ring, trace[0].mv) && flow_can_all(flow_after(f, trace[0]), trace.drop_first())
    }
}

/// The state after the deeds of `trace` have happened, starting in `f`.
pub open spec fn flow_after_all(f: FlowModel, trace: Seq<Deed>) -> FlowModel
    decreases trace.len(),
{
    if trace.len() == 0 {
        f
    } else {
        flow_after_all(flow_after(f, trace[0]), trace.drop_first())
    }
}

/// Whether the producer's last visit to `slot` of `block` was in lap `lap`
/// and is finished.
pub open spec fn settled(r: RingModel, block: int, lap: nat, slot: nat) -> bool {
    let reached = pos(block, cell(r, block, 0).take, r.block_size);
    &&& lap * r.block_size + slot < reached
    &&& reached <= lap * r.block_size + slot + r.block_size
    &&& !cell(r, block, 0).held.contains(slot)
}

/// Every slot whose last visit by the producer is finished holds what the
/// producer left there.
pub open spec fn slots_sound(f: FlowModel) -> bool {
    forall|block: int, lap: nat, slot: nat|
        0 <= block < f.ring.blocks.len() && slot < f.ring.block_size && #[trigger] settled(
            f.ring,
            block,
            lap,
            slot,
        ) ==> f.put.dom().contains(Key { block, lap, slot }) && f.slots.dom().contains(
            (block, slot),
        ) && f.slots[(block, slot)] == f.put[Key { block, lap, slot }]
}

/// Every visit that the last stage has finished lies behind its `take`
/// cursor, and what it found there is what the producer left.
pub open spec fn got_sound(f: FlowModel) -> bool {
    forall|key: Key| #[trigger]
        f.got.dom().contains(key) ==> {
            &&& 0 <= key.block < f.ring.blocks.len()
            &&& key.slot < f.ring.block_size
            &&& key.lap * f.ring.block_size + key.slot < pos(
                key.block,
                cell(f.ring, key.block, f.ring.heads.len() - 1).take,
                f.ring.block_size,
            )
            &&& f.put.dom().contains(key)
            &&& f.got[key] == f.put[key]
        }
}

/// The states that the flow goes through.
pub open spec fn flow_sound(f: FlowModel) -> bool {
    &&& ring_sound(f.ring)
    &&& slots_sound(f)
    &&& got_sound(f)
}

/// Two places in a block that lie less than one block's length apart and
/// at the same slot are in the same lap.
pub proof fn lemma_same_lap(l1: nat, l2: nat, k1: nat, k2: nat, block_size: nat)
    requires
        k1 < block_size,
        k2 < block_size,
    ensures
        l1 * block_size + k1 == l2 * block_size + k2 ==> l1 == l2 && k1 == k2,
        k1 == k2 && l1 * block_size + k1 < l2 * block_size + k2 + block_size && l2 * block_size
            + k2 < l1 * block_size + k1 + block_size ==> l1 == l2,
{
    if l1 < l2 {
        assert(l1 * block_size + block_size <= l2 * block_size) by (nonlinear_arith)
            requires
                l1 + 1 <= l2,
        ;
    }
    if l2 < l1 {
        assert(l2 * block_size + block_size <= l1 * block_size) by (nonlinear_arith)
            requires
                l2 + 1 <= l1,
        ;
    }
}

/// A ring in a sound state, with nothing written or read, is a sound flow.
pub proof fn lemma_fresh_flow_is_sound(blocks: nat, block_size: nat, stages: nat)
    requires
        blocks >= 2,
        block_size >= 1,
        stages >= 2,
    ensures
        flow_sound(fresh_flow(crate::ring::fresh_ring(blocks, block_size, stages))),
{
    let r = crate::ring::fresh_ring(blocks, block_size, stages);
    let f = fresh_flow(r);
    crate::ring::lemma_fresh_ring_is_sound(blocks, block_size, stages);
    assert forall|block: int, lap: nat, slot: nat|
        0 <= block < f.ring.blocks.len() && slot < f.ring.block_size implies !#[trigger] settled(
        f.ring,
        block,
        lap,
        slot,
    ) by {
        assert(r.blocks[block] == crate::lap::fresh(block_size, stages));
        assert(cell(r, block, 0).take.version == 0);
        assert(0 * block_size == 0) by (nonlinear_arith);
        assert(pos(block, cell(r, block, 0).take, block_size) == 0);
    }
}

/// What a stage holds in a block lies behind the stage's `take` cursor,
/// at or beyond the `take` cursors of the later stages, and less than one
/// block's length behind the producer's `take` cursor.
pub proof fn lemma_held_window(r: RingModel, block: int, stage: int, slot: nat)
    requires
        ring_sound(r),
        0 <= block < r.blocks.len(),
        0 <= stage < r.heads.len(),
        cell(r, block, stage).held.contains(slot),
    ensures
        slot < r.block_size,
        slot_pos(block, cell(r, block, stage).take.version, slot, r.block_size) < pos(
            block,
            cell(r, block, stage).take,
            r.block_size,
        ),
        pos(block, cell(r, block, stage).take, r.block_size) <= pos(
            block,
            cell(r, block, 0).take,
            r.block_size,
        ),
        pos(block, cell(r, block, 0).take, r.block_size) <= slot_pos(
            block,
            cell(r, block, stage).take.version,
            slot,
            r.block_size,
        ) + r.block_size,
        stage < r.heads.len() - 1 ==> slot_pos(
            block,
            cell(r, block, stage).take.version,
            slot,
            r.block_size,
        ) >= pos(block, cell(r, block, r.heads.len() - 1).take, r.block_size),
{
    let bs = r.block_size;
    let last = r.heads.len() - 1;
    assert(order_sound(r, block));
    assert(cell_sound(r, block, stage));
    lemma_cell_lap(r, block, stage);
    lemma_cell_lap(r, block, 0);
    lemma_cell_lap(r, block, last);
    if stage > 0 {
        assert(pos(block, cell(r, block, stage).take, bs) <= pos(block, cell(r, block, 0).give, bs));
    }
    assert(pos(block, cell(r, block, 0).take, bs) <= pos(block, cell(r, block, last).give, bs)
        + bs);
    if stage < last {
        assert(slot_pos(block, cell(r, block, stage).take.version, slot, bs) >= pos(
            block,
            cell(r, block, last).take,
            bs,
        ));
    } else {
        assert(slot_pos(block, cell(r, block, last).take.version, slot, bs) + bs >= pos(
            block,
            cell(r, block, 0).take,
            bs,
        ));
    }
}

/// A claim or a head move leads from a sound flow to a sound flow.
proof fn lemma_flow_quiet_move(f: FlowModel, d: Deed)
    requires
        flow_sound(f),
        can(f.ring, d.mv),
        !(d.mv is Release),
    ensures
        flow_sound(flow_after(f, d)),
{
    let g = flow_after(f, d);
    let r = f.ring;
    let bs = r.block_size;
    let last = r.heads.len() - 1;
    lemma_move_keeps_ring(r, d.mv);
    match d.mv {
        Move::Claim { stage } => {
            let at = under(r, stage as int);
            assert(r.heads[stage as int].index < r.blocks.len());
            assert(r.blocks[at].stages.len() == r.heads.len());
            assert(cell_sound(r, at, stage as int));
            lemma_cell_lap(r, at, stage as int);
            let t = cell(r, at, stage as int).take;
            assert forall|block: int, lap: nat, slot: nat|
                0 <= block < g.ring.blocks.len() && slot < g.ring.block_size && #[trigger] settled(
                    g.ring,
                    block,
                    lap,
                    slot,
                ) implies settled(r, block, lap, slot) by {
                assert(r.blocks[block].stages.len() == r.heads.len());
                if stage == 0 && block == at {
                    assert(slot != t.index);
                    lemma_same_lap(lap, lap_of(at, t.version), slot, t.index, bs);
                }
            }
            assert forall|key: Key| #[trigger] g.got.dom().contains(key) implies key.lap * bs
                + key.slot < pos(key.block, cell(g.ring, key.block, last).take, bs) by {
                assert(r.blocks[key.block].stages.len() == r.heads.len());
            }
        },
        Move::Release { block, stage, slot } => {},
        _ => {
            assert forall|block: int, lap: nat, slot: nat|
                0 <= block < g.ring.blocks.len() && slot < g.ring.block_size && #[trigger] settled(
                    g.ring,
                    block,
                    lap,
                    slot,
                ) implies settled(r, block, lap, slot) by {
                lemma_raise_is_quiet(r, d.mv, block, 0);
            }
            assert forall|key: Key| #[trigger] g.got.dom().contains(key) implies key.lap * bs
                + key.slot < pos(key.block, cell(g.ring, key.block, last).take, bs) by {
                lemma_raise_is_quiet(r, d.mv, key.block, last);
            }
        },
    }
}

/// A release leads from a sound flow to a sound flow.
proof fn lemma_flow_release(f: FlowModel, d: Deed)
    requires
        flow_sound(f),
        can(f.ring, d.mv),
        d.mv is Release,
    ensures
        flow_sound(flow_after(f, d)),
{
    let g = flow_after(f, d);
    let r = f.ring;
    let bs = r.block_size;
    let last = r.heads.len() - 1;
    lemma_move_keeps_ring(r, d.mv);
    match d.mv {
        Move::Release { block, stage, slot } => {
            let at = block as int;
            let s = stage as int;
            assert(r.blocks[at].stages.len() == r.heads.len());
            lemma_held_window(r, at, s, slot);
            lemma_cell_lap(r, at, s);
            let mine = key_of(r, at, s, slot);
            if stage == 0 {
                assert forall|b: int, lap: nat, k: nat|
                    0 <= b < g.ring.blocks.len() && k < g.ring.block_size && #[trigger] settled(
                        g.ring,
                        b,
                        lap,
                        k,
                    ) implies g.put.dom().contains(Key { block: b, lap, slot: k })
                    && g.slots.dom().contains((b, k)) && g.slots[(b, k)] == g.put[Key {
                    block: b,
                    lap,
                    slot: k,
                }] by {
                    assert(r.blocks[b].stages.len() == r.heads.len());
                    if b == at && k == slot {
                        lemma_same_lap(lap, mine.lap, k, slot, bs);
                        assert(Key { block: b, lap, slot: k } == mine);
                    } else {
                        assert(settled(r, b, lap, k));
                    }
                }
                assert forall|key: Key| #[trigger] g.got.dom().contains(key) implies g.put.dom().contains(
                    key,
                ) && g.got[key] == g.put[key] && key.lap * bs + key.slot < pos(
                    key.block,
                    cell(g.ring, key.block, last).take,
                    bs,
                ) by {
                    assert(r.blocks[key.block].stages.len() == r.heads.len());
                    assert(key != mine);
                }
            } else if stage == last {
                assert forall|b: int, lap: nat, k: nat|
                    0 <= b < g.ring.blocks.len() && k < g.ring.block_size && #[trigger] settled(
                        g.ring,
                        b,
                        lap,
                        k,
                    ) implies settled(r, b, lap, k) by {
                    assert(r.blocks[b].stages.len() == r.heads.len());
                }
                // The producer's last visit to the slot is the visit that
                // the last stage is on, and it is finished.
                assert(settled(r, at, mine.lap, slot)) by {
                    assert(order_sound(r, at));
                    lemma_cell_lap(r, at, 0);
                    assert(pos(at, cell(r, at, last).take, bs) <= pos(at, cell(r, at, 0).give, bs));
                    if cell(r, at, 0).held.contains(slot) {
                        lemma_held_window(r, at, 0, slot);
                        lemma_same_lap(
                            lap_of(at, cell(r, at, 0).take.version),
                            mine.lap,
                            slot,
                            slot,
                            bs,
                        );
                    }
                }
                assert forall|key: Key| #[trigger] g.got.dom().contains(key) implies g.put.dom().contains(
                    key,
                ) && g.got[key] == g.put[key] && key.lap * bs + key.slot < pos(
                    key.block,
                    cell(g.ring, key.block, last).take,
                    bs,
                ) && 0 <= key.block < g.ring.blocks.len() && key.slot < bs by {
                    if key != mine {
                        assert(f.got.dom().contains(key));
                    }
                    assert(r.blocks[key.block].stages.len() == r.heads.len());
                }
            } else {
                assert forall|b: int, lap: nat, k: nat|
                    0 <= b < g.ring.blocks.len() && k < g.ring.block_size && #[trigger] settled(
                        g.ring,
                        b,
                        lap,
                        k,
                    ) implies settled(r, b, lap, k) by {
                    assert(r.blocks[b].stages.len() == r.heads.len());
                }
                assert forall|key: Key| #[trigger] g.got.dom().contains(key) implies key.lap * bs
                    + key.slot < pos(key.block, cell(g.ring, key.block, last).take, bs) by {
                    assert(r.blocks[key.block].stages.len() == r.heads.len());
                }
            }
        },
        _ => {},
    }
}

/// A deed that can happen leads from a sound flow to a sound flow.
pub proof fn lemma_flow_move(f: FlowModel, d: Deed)
    requires
        flow_sound(f),
        can(f.ring, d.mv),
    ensures
        flow_sound(flow_after(f, d)),
{
    if d.mv is Release {
        lemma_flow_release(f, d);
    } else {
        lemma_flow_quiet_move(f, d);
    }
}

/// Every state that a trace of deeds reaches from a sound flow is sound.
pub proof fn lemma_flow_trace(f: FlowModel, trace: Seq<Deed>)
    requires
        flow_sound(f),
        flow_can_all(f, trace),
    ensures
        flow_sound(flow_after_all(f, trace)),
    decreases trace.len(),
{
    if trace.len() > 0 {
        lemma_flow_move(f, trace[0]);
        lemma_flow_trace(flow_after(f, trace[0]), trace.drop_first());
    }
}

/// Where every stage after the producer leaves a slot as it finds it, what
/// the last stage finds at a visit to a slot is what the producer left
/// there at that visit: nothing is lost on the way, nothing is found that
/// was not produced, and nothing is found from another lap.
pub proof fn lemma_found_is_what_was_put(f: FlowModel, trace: Seq<Deed>, key: Key)
    requires
        flow_sound(f),
        flow_can_all(f, trace),
        flow_after_all(f, trace).got.dom().contains(key),
    ensures
        flow_after_all(f, trace).put.dom().contains(key),
        flow_after_all(f, trace).got[key] == flow_after_all(f, trace).put[key],
{
    lemma_flow_trace(f, trace);
}

} // verus!

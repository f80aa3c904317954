//! What was put into the ring and what was found at its end, with any
//! number of workers at every stage.
//!
//! On top of `flow` the state here keeps, for the producer and for the
//! last stage, the visits the stage has finished and the values it left or
//! found there, in the order of its releases.

use vstd::prelude::*;
use crate::flow::{
    flow_after, flow_sound, key_of, lemma_flow_move, lemma_same_lap, Deed, FlowModel, Key,
};
use crate::perm::{lemma_map_keeps_count, lemma_same_things};
use crate::ring::{can, cell, cell_sound, lap_of, pos, under, Move, RingModel};
use crate::ring_moves::{lemma_move_keeps_ring, lemma_raise_is_quiet};

verus! {

/// The visits that a stage has finished and the value it left or found at
/// each, in the order of its releases.
pub struct Tally {
    pub at: Seq<Key>,
    pub vals: Seq<nat>,
}

/// The flow with the tallies of the producer and of the last stage.
pub struct TallyModel {
    pub flow: FlowModel,
    pub made: Tally,
    pub seen: Tally,
}

/// The tally after a release of `key` that left or found `value`.
pub open spec fn tally_push(t: Tally, key: Key, value: nat) -> Tally {
    Tally { at: t.at.push(key), vals: t.vals.push(value) }
}

/// The state after `d` has happened in the state `t`.
pub open spec fn tally_after(t: TallyModel, d: Deed) -> TallyModel {
    let r = t.flow.ring;
    let last = r.heads.len() - 1;
    let flow = flow_after(t.flow, d);
    match d.mv {
        Move::Release { block, stage, slot } => TallyModel {
            flow,
            made: if stage == 0 {
                tally_push(t.made, key_of(r, block as int, 0, slot), d.value)
            } else {
                t.made
            },
            seen: if stage == last {
                tally_push(
                    t.seen,
                    key_of(r, block as int, last, slot),
                    t.flow.slots[(block as int, slot)],
                )
            } else {
                t.seen
            },
        },
        _ => TallyModel { flow, made: t.made, seen: t.seen },
    }
}

/// Whether the deeds of `trace` can happen one after the other, starting
/// in the state `t`.
pub open spec fn tally_can_all(t: TallyModel, trace: Seq<Deed>) -> bool
    decreases trace.len(),
{
    if trace.len() == 0 {
        true
    } else {
        can(t.flow.ring, trace[0].mv) && tally_can_all(tally_after(t, trace[0]), trace.drop_first())
    }
}

/// The state after the deeds of `trace` have happened, starting in `t`.
pub open spec fn tally_after_all(t: TallyModel, trace: Seq<Deed>) -> TallyModel
    decreases trace.len(),
{
    if trace.len() == 0 {
        t
    } else {
        tally_after_all(tally_after(t, trace[0]), trace.drop_first())
    }
}

/// Whether `stage` holds the slot of `key` on the visit `key`.
pub open spec fn holds(r: RingModel, stage: int, key: Key) -> bool {
    cell(r, key.block, stage).held.contains(key.slot) && key.lap == lap_of(
        key.block,
        cell(r, key.block, stage).take.version,
    )
}

/// Every visit that the producer has finished lies behind its `take`
/// cursor and is not one that it holds.
pub open spec fn put_clear(f: FlowModel) -> bool {
    forall|key: Key| #[trigger]
        f.put.dom().contains(key) ==> {
            &&& 0 <= key.block < f.ring.blocks.len()
            &&& key.slot < f.ring.block_size
            &&& key.lap * f.ring.block_size + key.slot < pos(
                key.block,
                cell(f.ring, key.block, 0).take,
                f.ring.block_size,
            )
            &&& !holds(f.ring, 0, key)
        }
}

/// No visit that the last stage has finished is one that it holds.
pub open spec fn got_clear(f: FlowModel) -> bool {
    forall|key: Key| #[trigger]
        f.got.dom().contains(key) ==> !holds(f.ring, f.ring.heads.len() - 1, key)
}

/// The tally lists every visit in `done` once, with the value that `done`
/// has for it.
pub open spec fn tally_fits(t: Tally, done: Map<Key, nat>) -> bool {
    &&& t.at.no_duplicates()
    &&& t.vals.len() == t.at.len()
    &&& forall|i: int|
        0 <= i < t.at.len() ==> done.dom().contains(#[trigger] t.at[i]) && t.vals[i] == done[t.at[i]]
    &&& forall|key: Key| #[trigger] done.dom().contains(key) ==> t.at.contains(key)
}

/// The states that the tallied flow goes through.
pub open spec fn tally_sound(t: TallyModel) -> bool {
    &&& flow_sound(t.flow)
    &&& put_clear(t.flow)
    &&& got_clear(t.flow)
    &&& tally_fits(t.made, t.flow.put)
    &&& tally_fits(t.seen, t.flow.got)
}

/// A flow in which nothing has been written or read, with empty tallies.
pub open spec fn fresh_tally(f: FlowModel) -> TallyModel {
    TallyModel {
        flow: f,
        made: Tally { at: Seq::empty(), vals: Seq::empty() },
        seen: Tally { at: Seq::empty(), vals: Seq::empty() },
    }
}

/// A fresh ring with empty tallies is in a sound state.
pub proof fn lemma_fresh_tally_is_sound(blocks: nat, block_size: nat, stages: nat)
    requires
        blocks >= 2,
        block_size >= 1,
        stages >= 2,
    ensures
        tally_sound(
            fresh_tally(
                crate::flow::fresh_flow(crate::ring::fresh_ring(blocks, block_size, stages)),
            ),
        ),
{
    crate::flow::lemma_fresh_flow_is_sound(blocks, block_size, stages);
}

/// Pushing a visit that a tally does not list, with its value, keeps the
/// tally fitting the finished visits with that visit added.
proof fn lemma_tally_push(t: Tally, done: Map<Key, nat>, key: Key, value: nat)
    requires
        tally_fits(t, done),
        !done.dom().contains(key),
    ensures
        tally_fits(tally_push(t, key, value), done.insert(key, value)),
{
    let n = tally_push(t, key, value);
    let m = done.insert(key, value);
    assert forall|i: int, j: int| 0 <= i < n.at.len() && 0 <= j < n.at.len() && i != j implies n.at[i]
        != n.at[j] by {
        if i < t.at.len() {
            assert(done.dom().contains(t.at[i]));
        }
        if j < t.at.len() {
            assert(done.dom().contains(t.at[j]));
        }
    }
    assert forall|i: int| 0 <= i < n.at.len() implies m.dom().contains(#[trigger] n.at[i])
        && n.vals[i] == m[n.at[i]] by {
        if i < t.at.len() {
            assert(done.dom().contains(t.at[i]));
        }
    }
    assert forall|k: Key| #[trigger] m.dom().contains(k) implies n.at.contains(k) by {
        if k == key {
            assert(n.at[t.at.len() as int] == key);
        } else {
            assert(t.at.contains(k));
            let i = choose|i: int| 0 <= i < t.at.len() && t.at[i] == k;
            assert(n.at[i] == k);
        }
    }
}

/// A deed that can happen leads from a sound state to a sound state.
pub proof fn lemma_tally_move(t: TallyModel, d: Deed)
    requires
        tally_sound(t),
        can(t.flow.ring, d.mv),
    ensures
        tally_sound(tally_after(t, d)),
{
    let f = t.flow;
    let r = f.ring;
    let bs = r.block_size;
    let last = r.heads.len() - 1;
    let n = tally_after(t, d);
    let g = n.flow;
    lemma_flow_move(f, d);
    lemma_move_keeps_ring(r, d.mv);
    match d.mv {
        Move::Claim { stage } => {
            let at = under(r, stage as int);
            assert(r.heads[stage as int].index < r.blocks.len());
            assert(r.blocks[at].stages.len() == r.heads.len());
            assert(cell_sound(r, at, stage as int));
            let c = cell(r, at, stage as int);
            assert forall|key: Key| #[trigger] g.put.dom().contains(key) implies key.lap * bs
                + key.slot < pos(key.block, cell(g.ring, key.block, 0).take, bs) && !holds(
                g.ring,
                0,
                key,
            ) by {
                assert(r.blocks[key.block].stages.len() == r.heads.len());
                assert(!holds(r, 0, key));
                if stage == 0 && key.block == at {
                    lemma_same_lap(key.lap, lap_of(at, c.take.version), key.slot, c.take.index, bs);
                }
            }
            assert forall|key: Key| #[trigger] g.got.dom().contains(key) implies !holds(
                g.ring,
                last,
                key,
            ) by {
                assert(r.blocks[key.block].stages.len() == r.heads.len());
                assert(!holds(r, last, key));
                if stage == last && key.block == at {
                    lemma_same_lap(key.lap, lap_of(at, c.take.version), key.slot, c.take.index, bs);
                }
            }
        },
        Move::Release { block, stage, slot } => {
            let at = block as int;
            let mine = key_of(r, at, stage as int, slot);
            assert(r.blocks[at].stages.len() == r.heads.len());
            assert(cell_sound(r, at, stage as int));
            assert(holds(r, stage as int, mine));
            assert forall|key: Key| #[trigger] g.put.dom().contains(key) implies 0 <= key.block
                < g.ring.blocks.len() && key.slot < bs && key.lap * bs + key.slot < pos(
                key.block,
                cell(g.ring, key.block, 0).take,
                bs,
            ) && !holds(g.ring, 0, key) by {
                assert(r.blocks[key.block].stages.len() == r.heads.len());
                if stage == 0 && key == mine {
                } else {
                    assert(f.put.dom().contains(key));
                    assert(!holds(r, 0, key));
                }
            }
            assert forall|key: Key| #[trigger] g.got.dom().contains(key) implies !holds(
                g.ring,
                last,
                key,
            ) by {
                assert(r.blocks[key.block].stages.len() == r.heads.len());
                if stage == last && key == mine {
                } else {
                    assert(f.got.dom().contains(key));
                    assert(!holds(r, last, key));
                }
            }
            if stage == 0 {
                lemma_tally_push(t.made, f.put, mine, d.value);
            } else if stage == last {
                lemma_tally_push(t.seen, f.got, mine, f.slots[(at, slot)]);
            }
        },
        _ => {
            assert forall|key: Key| #[trigger] g.put.dom().contains(key) implies key.lap * bs
                + key.slot < pos(key.block, cell(g.ring, key.block, 0).take, bs) && !holds(
                g.ring,
                0,
                key,
            ) by {
                lemma_raise_is_quiet(r, d.mv, key.block, 0);
                assert(!holds(r, 0, key));
            }
            assert forall|key: Key| #[trigger] g.got.dom().contains(key) implies !holds(
                g.ring,
                last,
                key,
            ) by {
                lemma_raise_is_quiet(r, d.mv, key.block, last);
                assert(!holds(r, last, key));
            }
        },
    }
}

/// Every state that a trace of deeds reaches from a sound state is sound.
pub proof fn lemma_tally_trace(t: TallyModel, trace: Seq<Deed>)
    requires
        tally_sound(t),
        tally_can_all(t, trace),
    ensures
        tally_sound(tally_after_all(t, trace)),
    decreases trace.len(),
{
    if trace.len() > 0 {
        lemma_tally_move(t, trace[0]);
        lemma_tally_trace(tally_after(t, trace[0]), trace.drop_first());
    }
}

/// Where every stage after the producer leaves a slot as it finds it, and
/// the last stage has finished every visit that the producer has finished,
/// the values that the last stage has found are the values that the
/// producer has left, each as often as the producer left it: none is lost
/// and none is found twice, whatever the number of workers and the order
/// of their releases.
pub proof fn lemma_all_found_is_all_put(t: TallyModel, trace: Seq<Deed>)
    requires
        tally_sound(t),
        tally_can_all(t, trace),
        forall|key: Key| #[trigger]
            tally_after_all(t, trace).flow.put.dom().contains(key) ==> tally_after_all(
                t,
                trace,
            ).flow.got.dom().contains(key),
    ensures
        tally_after_all(t, trace).seen.vals.to_multiset() =~= tally_after_all(
            t,
            trace,
        ).made.vals.to_multiset(),
{
    lemma_tally_trace(t, trace);
    let n = tally_after_all(t, trace);
    let put = n.flow.put;
    let got = n.flow.got;
    let f = |key: Key| put[key];
    assert forall|key: Key| n.seen.at.contains(key) <==> n.made.at.contains(key) by {
        if n.seen.at.contains(key) {
            let i = choose|i: int| 0 <= i < n.seen.at.len() && n.seen.at[i] == key;
            assert(got.dom().contains(n.seen.at[i]));
            assert(put.dom().contains(key));
        }
        if n.made.at.contains(key) {
            let i = choose|i: int| 0 <= i < n.made.at.len() && n.made.at[i] == key;
            assert(put.dom().contains(n.made.at[i]));
            assert(got.dom().contains(key));
        }
    }
    lemma_same_things(n.seen.at, n.made.at);
    lemma_map_keeps_count(n.seen.at, n.made.at, f);
    assert(n.seen.vals =~= n.seen.at.map_values(f)) by {
        assert forall|i: int| 0 <= i < n.seen.vals.len() implies n.seen.vals[i]
            == n.seen.at.map_values(f)[i] by {
            assert(got.dom().contains(n.seen.at[i]));
        }
    }
    assert(n.made.vals =~= n.made.at.map_values(f)) by {
        assert forall|i: int| 0 <= i < n.made.vals.len() implies n.made.vals[i]
            == n.made.at.map_values(f)[i] by {
            assert(put.dom().contains(n.made.at[i]));
        }
    }
}

} // verus!

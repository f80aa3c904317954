//! The order in which values pass through the ring where the producer and
//! the last stage have one worker each.
//!
//! On top of `flow` the state here keeps, for the producer and for the
//! last stage, the visits the stage has reserved, in the order of its
//! claims, the visits it has finished, in the order of its releases, and
//! the values it left or found there. A stage with one worker claims only
//! while it holds no slot.

use vstd::prelude::*;
use crate::flow::{
    flow_after, flow_sound, key_of, lemma_flow_move, FlowModel, Deed, Key,
};
use crate::ring::{
    after, can, cell, cell_sound, lap_of, next_block, ring_sound, under, Move, RingModel,
};
use crate::ring_laws::{
    given, lemma_move_gives, lemma_move_takes, lemma_taken_within_given, taken,
};
use crate::ring_moves::{
    is_raise, lemma_cell_lap, lemma_move_keeps_ring, lemma_next_block, lemma_raise_head_lands,
    lemma_raise_is_quiet, mover,
};

verus! {

/// What one stage has done: the visits it has reserved, the visits it has
/// finished, and the value it left or found at each finished visit.
pub struct Log {
    pub asked: Seq<Key>,
    pub done: Seq<Key>,
    pub vals: Seq<nat>,
}

/// The flow with the logs of the producer and of the last stage.
pub struct OrderModel {
    pub flow: FlowModel,
    pub made: Log,
    pub seen: Log,
}

/// The visit that a claim by `stage` takes up in the state `r`.
pub open spec fn next_key(r: RingModel, stage: int) -> Key {
    let block = under(r, stage);
    Key {
        block,
        lap: lap_of(block, cell(r, block, stage).take.version),
        slot: cell(r, block, stage).take.index,
    }
}

/// Whether `stage` holds no slot in any block.
pub open spec fn idle(r: RingModel, stage: int) -> bool {
    forall|b: int| 0 <= b < r.blocks.len() ==> (#[trigger] cell(r, b, stage)).held =~= Set::empty()
}

/// Whether `mv` is a move that a stage with one worker makes: the producer
/// and the last stage claim only while they hold no slot.
pub open spec fn single_file(r: RingModel, mv: Move) -> bool {
    match mv {
        Move::Claim { stage } => (stage == 0 || stage == r.heads.len() - 1) ==> idle(
            r,
            stage as int,
        ),
        _ => true,
    }
}

/// The log after a claim of `key`.
pub open spec fn log_claim(log: Log, key: Key) -> Log {
    Log { asked: log.asked.push(key), done: log.done, vals: log.vals }
}

/// The log after a release of `key` that left or found `value`.
pub open spec fn log_release(log: Log, key: Key, value: nat) -> Log {
    Log { asked: log.asked, done: log.done.push(key), vals: log.vals.push(value) }
}

/// The state after `d` has happened in the state `o`.
pub open spec fn order_after(o: OrderModel, d: Deed) -> OrderModel {
    let r = o.flow.ring;
    let last = r.heads.len() - 1;
    let flow = flow_after(o.flow, d);
    match d.mv {
        Move::Claim { stage } => OrderModel {
            flow,
            made: if stage == 0 {
                log_claim(o.made, next_key(r, 0))
            } else {
                o.made
            },
            seen: if stage == last {
                log_claim(o.seen, next_key(r, last))
            } else {
                o.seen
            },
        },
        Move::Release { block, stage, slot } => OrderModel {
            flow,
            made: if stage == 0 {
                log_release(o.made, key_of(r, block as int, 0, slot), d.value)
            } else {
                o.made
            },
            seen: if stage == last {
                log_release(
                    o.seen,
                    key_of(r, block as int, last, slot),
                    o.flow.slots[(block as int, slot)],
                )
            } else {
                o.seen
            },
        },
        _ => OrderModel { flow, made: o.made, seen: o.seen },
    }
}

/// Whether the deeds of `trace` can happen one after the other, starting
/// in the state `o`, with the producer and the last stage in single file.
pub open spec fn order_can_all(o: OrderModel, trace: Seq<Deed>) -> bool
    decreases trace.len(),
{
    if trace.len() == 0 {
        true
    } else {
        can(o.flow.ring, trace[0].mv) && single_file(o.flow.ring, trace[0].mv) && order_can_all(
            order_after(o, trace[0]),
            trace.drop_first(),
        )
    }
}

/// The state after the deeds of `trace` have happened, starting in `o`.
pub open spec fn order_after_all(o: OrderModel, trace: Seq<Deed>) -> OrderModel
    decreases trace.len(),
{
    if trace.len() == 0 {
        o
    } else {
        order_after_all(order_after(o, trace[0]), trace.drop_first())
    }
}

/// The visit after `key` on the way around a ring of `blocks` blocks of
/// `block_size` slots: the next slot of the block, then the first slot of
/// the next block, then the first slot of the first block in the next lap.
pub open spec fn succ(key: Key, blocks: nat, block_size: nat) -> Key {
    if key.slot + 1 < block_size {
        Key { block: key.block, lap: key.lap, slot: key.slot + 1 }
    } else if key.block + 1 < blocks {
        Key { block: key.block + 1, lap: key.lap, slot: 0 }
    } else {
        Key { block: 0, lap: key.lap + 1, slot: 0 }
    }
}

/// Whether `a` comes before `b` on the way around the ring.
pub open spec fn before(a: Key, b: Key) -> bool {
    a.lap < b.lap || (a.lap == b.lap && (a.block < b.block || (a.block == b.block && a.slot
        < b.slot)))
}

/// Whether `asked` goes around the ring from its first visit on, visit by
/// visit.
pub open spec fn is_run(asked: Seq<Key>, blocks: nat, block_size: nat) -> bool {
    &&& asked.len() > 0 ==> asked[0] == Key { block: 0, lap: 0, slot: 0 }
    &&& forall|i: int|
        0 <= i < asked.len() - 1 ==> #[trigger] asked[i + 1] == succ(asked[i], blocks, block_size)
    &&& forall|i: int, j: int|
        #![trigger asked[i], asked[j]]
        0 <= i < j < asked.len() ==> before(asked[i], asked[j])
}

/// The last visit that `stage` has reserved is the one just behind its
/// `take` cursor in the block under its head: the slot before the cursor,
/// or the last slot of the block before where the cursor stands at the
/// start; and the stage has reserved nothing where head and cursor stand
/// where they started.
pub open spec fn at_head(r: RingModel, stage: int, asked: Seq<Key>) -> bool {
    let head = r.heads[stage];
    let b = head.index as int;
    let t = cell(r, b, stage).take.index;
    &&& t >= 1 ==> asked.len() >= 1 && asked.last() == Key {
        block: b,
        lap: head.version,
        slot: (t - 1) as nat,
    }
    &&& t == 0 && b >= 1 ==> asked.len() >= 1 && asked.last() == Key {
        block: b - 1,
        lap: head.version,
        slot: (r.block_size - 1) as nat,
    }
    &&& t == 0 && b == 0 && head.version >= 1 ==> asked.len() >= 1 && asked.last() == Key {
        block: r.blocks.len() - 1,
        lap: (head.version - 1) as nat,
        slot: (r.block_size - 1) as nat,
    }
    &&& t == 0 && b == 0 && head.version == 0 ==> asked.len() == 0
}

/// The stage has finished its visits in the order in which it reserved
/// them, all of them or all but the last, and the last is then the one slot
/// that it holds.
pub open spec fn in_hand(r: RingModel, stage: int, log: Log) -> bool {
    &&& log.vals.len() == log.done.len()
    &&& log.done.len() <= log.asked.len() <= log.done.len() + 1
    &&& log.done =~= log.asked.take(log.done.len() as int)
    &&& log.asked.len() == log.done.len() ==> idle(r, stage)
    &&& log.asked.len() == log.done.len() + 1 ==> {
        let k = log.asked.last();
        &&& 0 <= k.block < r.blocks.len()
        &&& k.lap == lap_of(k.block, cell(r, k.block, stage).take.version)
        &&& cell(r, k.block, stage).held.contains(k.slot)
        &&& forall|b: int, s: nat|
            0 <= b < r.blocks.len() && (#[trigger] cell(r, b, stage).held.contains(s)) ==> b
                == k.block && s == k.slot
    }
}

/// The log of `stage` fits the state `r`.
pub open spec fn log_sound(r: RingModel, stage: int, log: Log) -> bool {
    &&& is_run(log.asked, r.blocks.len(), r.block_size)
    &&& at_head(r, stage, log.asked)
    &&& in_hand(r, stage, log)
}

/// The states that the ordered flow goes through.
pub open spec fn order_sound(o: OrderModel) -> bool {
    let r = o.flow.ring;
    let last = r.heads.len() - 1;
    &&& flow_sound(o.flow)
    &&& log_sound(r, 0, o.made)
    &&& log_sound(r, last, o.seen)
    &&& forall|i: int|
        0 <= i < o.made.done.len() ==> o.flow.put.dom().contains(#[trigger] o.made.done[i])
            && o.made.vals[i] == o.flow.put[o.made.done[i]]
    &&& forall|i: int|
        0 <= i < o.seen.done.len() ==> o.flow.got.dom().contains(#[trigger] o.seen.done[i])
            && o.seen.vals[i] == o.flow.got[o.seen.done[i]]
    &&& o.made.done.len() == given(r, 0, r.blocks.len() as int)
    &&& o.seen.asked.len() == taken(r, last, r.blocks.len() as int)
}

/// A sound flow in which nothing has been reserved, with empty logs.
pub open spec fn fresh_order(f: FlowModel) -> OrderModel {
    OrderModel {
        flow: f,
        made: Log { asked: Seq::empty(), done: Seq::empty(), vals: Seq::empty() },
        seen: Log { asked: Seq::empty(), done: Seq::empty(), vals: Seq::empty() },
    }
}

/// A move leaves the log of every other stage fitting.
proof fn lemma_log_frame(r: RingModel, mv: Move, stage: int, log: Log)
    requires
        ring_sound(r),
        can(r, mv),
        0 <= stage < r.heads.len(),
        mover(mv) != stage,
        log_sound(r, stage, log),
    ensures
        log_sound(after(r, mv), stage, log),
{
    let n = after(r, mv);
    lemma_move_keeps_ring(r, mv);
    assert(r.heads[stage].index < r.blocks.len());
    match mv {
        Move::Claim { stage: by } => {
            assert(r.heads[by as int].index < r.blocks.len());
            assert(r.blocks[under(r, by as int)].stages.len() == r.heads.len());
        },
        Move::Release { block, stage: by, slot } => {
            assert(r.blocks[block as int].stages.len() == r.heads.len());
        },
        _ => {
            lemma_raise_is_quiet(r, mv, 0, stage);
        },
    }
    assert forall|b: int| 0 <= b < r.blocks.len() implies cell(n, b, stage) == cell(r, b, stage) by {
        assert(r.blocks[b].stages.len() == r.heads.len());
        if is_raise(mv) {
            lemma_raise_is_quiet(r, mv, b, stage);
        }
    }
    assert(n.heads[stage] == r.heads[stage]);
    if log.asked.len() == log.done.len() {
        assert forall|b: int| 0 <= b < n.blocks.len() implies (#[trigger] cell(n, b, stage)).held
            =~= Set::empty() by {
            assert(cell(r, b, stage).held =~= Set::empty());
        }
    } else {
        let k = log.asked.last();
        assert forall|b: int, s: nat|
            0 <= b < n.blocks.len() && (#[trigger] cell(n, b, stage).held.contains(s)) implies b
            == k.block && s == k.slot by {
            assert(cell(r, b, stage).held.contains(s));
        }
    }
}

/// A claim by a stage that holds nothing adds the visit it takes up to the
/// stage's log, and the log fits again.
proof fn lemma_log_claim(r: RingModel, stage: nat, log: Log)
    requires
        ring_sound(r),
        can(r, Move::Claim { stage }),
        idle(r, stage as int),
        log_sound(r, stage as int, log),
    ensures
        log_sound(
            after(r, Move::Claim { stage }),
            stage as int,
            log_claim(log, next_key(r, stage as int)),
        ),
        log.asked.len() == log.done.len(),
{
    let mv = Move::Claim { stage };
    let n = after(r, mv);
    let s = stage as int;
    let b = under(r, s);
    let key = next_key(r, s);
    let new = log_claim(log, key);
    lemma_move_keeps_ring(r, mv);
    assert(r.heads[s].index < r.blocks.len());
    assert(r.blocks[b].stages.len() == r.heads.len());
    assert(cell_sound(r, b, s));
    lemma_cell_lap(r, b, s);
    assert(key.lap == r.heads[s].version);
    // The stage holds nothing, so it has finished all it reserved.
    if log.asked.len() == log.done.len() + 1 {
        let k = log.asked.last();
        assert(cell(r, k.block, s).held.contains(k.slot));
        assert(cell(r, k.block, s).held =~= Set::empty());
    }
    assert(log.asked.len() == log.done.len());
    // The new visit follows the last one.
    if log.asked.len() > 0 {
        assert(key == succ(log.asked.last(), r.blocks.len(), r.block_size));
    }
    assert forall|i: int| 0 <= i < new.asked.len() - 1 implies #[trigger] new.asked[i + 1] == succ(
        new.asked[i],
        r.blocks.len(),
        r.block_size,
    ) by {
        if i + 1 < log.asked.len() {
            assert(log.asked[i + 1] == succ(log.asked[i], r.blocks.len(), r.block_size));
        }
    }
    assert forall|i: int, j: int|
        #![trigger new.asked[i], new.asked[j]]
        0 <= i < j < new.asked.len() implies before(new.asked[i], new.asked[j]) by {
        if j < log.asked.len() {
            assert(before(log.asked[i], log.asked[j]));
        } else {
            let end = log.asked.len() - 1;
            assert(before(log.asked[end], key));
            if i < end {
                assert(before(log.asked[i], log.asked[end]));
            }
        }
    }
    assert(cell(n, b, s).take.index == cell(r, b, s).take.index + 1);
    assert(n.heads[s] == r.heads[s]);
    assert(new.asked.last() == key);
    assert(new.done =~= new.asked.take(new.done.len() as int)) by {
        assert(log.done =~= log.asked.take(log.done.len() as int));
    }
    assert forall|bb: int, ss: nat|
        0 <= bb < n.blocks.len() && (#[trigger] cell(n, bb, s).held.contains(ss)) implies bb
        == key.block && ss == key.slot by {
        assert(r.blocks[bb].stages.len() == r.heads.len());
        assert(cell(r, bb, s).held =~= Set::empty());
    }
}

/// A release by a stage with one worker finishes the last visit that the
/// stage reserved, and the log fits again.
proof fn lemma_log_release(r: RingModel, block: nat, stage: nat, slot: nat, log: Log, value: nat)
    requires
        ring_sound(r),
        can(r, Move::Release { block, stage, slot }),
        log_sound(r, stage as int, log),
    ensures
        log_sound(
            after(r, Move::Release { block, stage, slot }),
            stage as int,
            log_release(log, key_of(r, block as int, stage as int, slot), value),
        ),
        log.asked.len() == log.done.len() + 1,
        key_of(r, block as int, stage as int, slot) == log.asked.last(),
{
    let mv = Move::Release { block, stage, slot };
    let n = after(r, mv);
    let s = stage as int;
    let b = block as int;
    let key = key_of(r, b, s, slot);
    let new = log_release(log, key, value);
    lemma_move_keeps_ring(r, mv);
    assert(r.blocks[b].stages.len() == r.heads.len());
    assert(r.heads[s].index < r.blocks.len());
    assert(cell(r, b, s).held.contains(slot));
    if log.asked.len() == log.done.len() {
        assert(cell(r, b, s).held =~= Set::empty());
    }
    let k = log.asked.last();
    assert(k == key);
    assert(new.done =~= new.asked.take(new.done.len() as int)) by {
        assert(log.done =~= log.asked.take(log.done.len() as int));
        assert(new.asked.take(new.done.len() as int) =~= new.asked);
    }
    assert forall|bb: int| 0 <= bb < n.blocks.len() implies (#[trigger] cell(n, bb, s)).held
        =~= Set::empty() by {
        assert(r.blocks[bb].stages.len() == r.heads.len());
        assert forall|ss: nat| !cell(n, bb, s).held.contains(ss) by {
            if cell(n, bb, s).held.contains(ss) {
                assert(cell(r, bb, s).held.contains(ss));
            }
        }
    }
    assert(cell(n, under(r, s), s).take == cell(r, under(r, s), s).take) by {
        assert(r.blocks[under(r, s)].stages.len() == r.heads.len());
    }
}

/// A step of a head move leaves the mover's log fitting.
proof fn lemma_log_raise(r: RingModel, mv: Move, log: Log)
    requires
        ring_sound(r),
        can(r, mv),
        is_raise(mv),
        log_sound(r, mover(mv) as int, log),
    ensures
        log_sound(after(r, mv), mover(mv) as int, log),
{
    let n = after(r, mv);
    let s = mover(mv) as int;
    let here = under(r, s);
    let next = next_block(r, here);
    lemma_move_keeps_ring(r, mv);
    lemma_next_block(r, s);
    lemma_raise_is_quiet(r, mv, here, s);
    lemma_raise_is_quiet(r, mv, next, s);
    assert(r.blocks[here].stages.len() == r.heads.len());
    assert(r.blocks[next].stages.len() == r.heads.len());
    assert(crate::ring::cell_sound(r, next, s));
    assert(crate::ring::phase_sound(r, s));
    match mv {
        Move::RaiseHead { stage } => {
            lemma_raise_head_lands(r, stage);
            crate::ring_moves::lemma_step_head(r.heads[s], r.blocks.len());
        },
        _ => {},
    }
    if log.asked.len() == log.done.len() {
        assert forall|b: int| 0 <= b < n.blocks.len() implies (#[trigger] cell(n, b, s)).held
            =~= Set::empty() by {
            lemma_raise_is_quiet(r, mv, b, s);
            assert(cell(r, b, s).held =~= Set::empty());
        }
    } else {
        let k = log.asked.last();
        lemma_raise_is_quiet(r, mv, k.block, s);
        assert(cell(r, k.block, s).held.contains(k.slot));
        assert forall|b: int, slot: nat|
            0 <= b < n.blocks.len() && (#[trigger] cell(n, b, s).held.contains(slot)) implies b
            == k.block && slot == k.slot by {
            lemma_raise_is_quiet(r, mv, b, s);
            assert(cell(r, b, s).held.contains(slot));
        }
    }
}

/// A deed in single file leads from a sound state to a sound state.
pub proof fn lemma_order_move(o: OrderModel, d: Deed)
    requires
        order_sound(o),
        can(o.flow.ring, d.mv),
        single_file(o.flow.ring, d.mv),
    ensures
        order_sound(order_after(o, d)),
{
    let r = o.flow.ring;
    let last = r.heads.len() - 1;
    let blocks = r.blocks.len() as int;
    let p = order_after(o, d);
    lemma_flow_move(o.flow, d);
    lemma_move_keeps_ring(r, d.mv);
    lemma_move_gives(r, d.mv, 0);
    lemma_move_takes(r, d.mv, last as nat);
    let by = mover(d.mv);
    if by != 0 {
        lemma_log_frame(r, d.mv, 0, o.made);
    }
    if by != last {
        lemma_log_frame(r, d.mv, last, o.seen);
    }
    match d.mv {
        Move::Claim { stage } => {
            if stage == 0 {
                lemma_log_claim(r, stage, o.made);
            } else if stage == last {
                lemma_log_claim(r, stage, o.seen);
            }
        },
        Move::Release { block, stage, slot } => {
            if stage == 0 {
                let key = key_of(r, block as int, 0, slot);
                lemma_log_release(r, block, stage, slot, o.made, d.value);
                let len = o.made.done.len() as int;
                assert forall|i: int| 0 <= i < p.made.done.len() implies p.flow.put.dom().contains(
                    #[trigger] p.made.done[i],
                ) && p.made.vals[i] == p.flow.put[p.made.done[i]] by {
                    if i < len {
                        assert(o.made.done[i] == o.made.asked[i]);
                        assert(before(o.made.asked[i], o.made.asked[len]));
                        assert(o.flow.put.dom().contains(o.made.done[i]));
                    }
                }
                assert forall|i: int| 0 <= i < p.seen.done.len() implies p.flow.got.dom().contains(
                    #[trigger] p.seen.done[i],
                ) && p.seen.vals[i] == p.flow.got[p.seen.done[i]] by {
                    assert(o.flow.got.dom().contains(o.seen.done[i]));
                }
            } else if stage == last {
                let key = key_of(r, block as int, last, slot);
                lemma_log_release(r, block, stage, slot, o.seen, o.flow.slots[(block as int, slot)]);
                let len = o.seen.done.len() as int;
                assert forall|i: int| 0 <= i < p.seen.done.len() implies p.flow.got.dom().contains(
                    #[trigger] p.seen.done[i],
                ) && p.seen.vals[i] == p.flow.got[p.seen.done[i]] by {
                    if i < len {
                        assert(o.seen.done[i] == o.seen.asked[i]);
                        assert(before(o.seen.asked[i], o.seen.asked[len]));
                        assert(o.flow.got.dom().contains(o.seen.done[i]));
                    }
                }
                assert forall|i: int| 0 <= i < p.made.done.len() implies p.flow.put.dom().contains(
                    #[trigger] p.made.done[i],
                ) && p.made.vals[i] == p.flow.put[p.made.done[i]] by {
                    assert(o.flow.put.dom().contains(o.made.done[i]));
                }
            }
        },
        _ => {
            if by == 0 {
                lemma_log_raise(r, d.mv, o.made);
            } else if by == last {
                lemma_log_raise(r, d.mv, o.seen);
            }
        },
    }
}

/// Every state that a trace of deeds in single file reaches from a sound
/// state is sound.
pub proof fn lemma_order_trace(o: OrderModel, trace: Seq<Deed>)
    requires
        order_sound(o),
        order_can_all(o, trace),
    ensures
        order_sound(order_after_all(o, trace)),
    decreases trace.len(),
{
    if trace.len() > 0 {
        lemma_order_move(o, trace[0]);
        lemma_order_trace(order_after(o, trace[0]), trace.drop_first());
    }
}

/// Two runs around the same ring agree as far as both go.
pub proof fn lemma_runs_agree(a: Seq<Key>, b: Seq<Key>, blocks: nat, block_size: nat, i: int)
    requires
        is_run(a, blocks, block_size),
        is_run(b, blocks, block_size),
        0 <= i < a.len(),
        i < b.len(),
    ensures
        a[i] == b[i],
    decreases i,
{
    if i > 0 {
        lemma_runs_agree(a, b, blocks, block_size, i - 1);
        assert(a[i - 1 + 1] == succ(a[i - 1], blocks, block_size));
        assert(b[i - 1 + 1] == succ(b[i - 1], blocks, block_size));
    }
}

/// A fresh ring with empty logs is in a sound state.
pub proof fn lemma_fresh_order_is_sound(blocks: nat, block_size: nat, stages: nat)
    requires
        blocks >= 2,
        block_size >= 1,
        stages >= 2,
    ensures
        order_sound(
            fresh_order(
                crate::flow::fresh_flow(crate::ring::fresh_ring(blocks, block_size, stages)),
            ),
        ),
{
    let r = crate::ring::fresh_ring(blocks, block_size, stages);
    let o = fresh_order(crate::flow::fresh_flow(r));
    let last = stages - 1;
    crate::flow::lemma_fresh_flow_is_sound(blocks, block_size, stages);
    crate::ring_laws::lemma_fresh_ring_has_given_nothing(blocks, block_size, stages, 0, blocks as int);
    crate::ring_laws::lemma_fresh_ring_has_taken_nothing(blocks, block_size, stages, last, blocks as int);
    assert forall|b: int| 0 <= b < r.blocks.len() implies (#[trigger] cell(r, b, 0)).held
        =~= Set::empty() && cell(r, b, last).held =~= Set::empty() && cell(r, b, 0).take.index
        == 0 && cell(r, b, last).take.index == 0 by {
        assert(r.blocks[b] == crate::lap::fresh(block_size, stages));
    }
    assert(cell(r, 0, 0).take.index == 0);
    assert(cell(r, 0, last).take.index == 0);
    assert(o.made.done =~= o.made.asked.take(0));
    assert(o.seen.done =~= o.seen.asked.take(0));
}

/// With one worker at the producer and one at the last stage, and every
/// stage after the producer leaving the slots as it finds them, the last
/// stage finds the values in the order in which the producer left them:
/// what it has found so far is the beginning of what the producer has
/// left, value for value.
pub proof fn lemma_order_is_kept(o: OrderModel, trace: Seq<Deed>, i: int)
    requires
        order_sound(o),
        order_can_all(o, trace),
        0 <= i < order_after_all(o, trace).seen.vals.len(),
    ensures
        i < order_after_all(o, trace).made.vals.len(),
        order_after_all(o, trace).seen.vals[i] == order_after_all(o, trace).made.vals[i],
{
    lemma_order_trace(o, trace);
    let p = order_after_all(o, trace);
    let r = p.flow.ring;
    let last = r.heads.len() - 1;
    lemma_taken_within_given(r, 0, last, r.blocks.len() as int);
    assert(p.seen.done[i] == p.seen.asked[i]);
    assert(p.made.done[i] == p.made.asked[i]);
    lemma_runs_agree(p.seen.asked, p.made.asked, r.blocks.len(), r.block_size, i);
    assert(p.flow.got.dom().contains(p.seen.done[i]));
}

/// Once the last stage has found as many values as the producer has left,
/// it has found the very same values, none twice and none missing.
pub proof fn lemma_drained_is_same(o: OrderModel, trace: Seq<Deed>)
    requires
        order_sound(o),
        order_can_all(o, trace),
        order_after_all(o, trace).seen.vals.len() == order_after_all(o, trace).made.vals.len(),
    ensures
        order_after_all(o, trace).seen.vals == order_after_all(o, trace).made.vals,
        order_after_all(o, trace).seen.vals.to_multiset() == order_after_all(
            o,
            trace,
        ).made.vals.to_multiset(),
{
    let p = order_after_all(o, trace);
    assert forall|i: int| 0 <= i < p.seen.vals.len() implies p.seen.vals[i] == p.made.vals[i] by {
        lemma_order_is_kept(o, trace, i);
    }
    assert(p.seen.vals =~= p.made.vals);
}

} // verus!

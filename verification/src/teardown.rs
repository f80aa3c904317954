//! Which slots of a block hold a payload when the pipeline is taken down,
//! and of which stage.
//!
//! A slot carries no mark of what it holds. It is told from the `give`
//! indices of the stages: the slots from the `give` index of a stage up to
//! the `give` index of the stage it chases have been published by the
//! chased stage and not yet finished by the stage itself, so they hold the
//! chased stage's payload.

use vstd::prelude::*;
use crate::config::ring_prev;
use crate::field::{Field, FieldView};

verus! {

/// One slot to give up, and the number of the stage whose payload it holds.
/// A number that names no stage marks a slot that holds nothing.
#[derive(Clone, Copy, Debug, PartialEq, Eq, Structural)]
pub struct SlotDrop {
    pub slot: usize,
    pub tag: usize,
}

/// The slots from `from` up to `to`, each marked with `tag`; nothing where
/// `from` is not below `to`.
pub open spec fn span(from: int, to: int, tag: usize) -> Seq<SlotDrop> {
    Seq::new(
        if from < to {
            (to - from) as nat
        } else {
            0
        },
        |k: int| SlotDrop { slot: (from + k) as usize, tag },
    )
}

/// The slots that wait for stage `stage`: published by the stage it chases,
/// and marked with that stage's number.
pub open spec fn waiting(gives: Seq<usize>, stage: int) -> Seq<SlotDrop> {
    let chased = ring_prev(stage as nat, gives.len()) as int;
    span(gives[stage] as int, gives[chased] as int, chased as usize)
}

/// The waiting slots of the stages below `upto`, stage by stage.
pub open spec fn waiting_upto(gives: Seq<usize>, upto: int) -> Seq<SlotDrop>
    decreases upto,
{
    if upto <= 0 {
        Seq::empty()
    } else {
        waiting_upto(gives, upto - 1) + waiting(gives, upto - 1)
    }
}

/// The slots below the first stage's `give` index and from the last
/// stage's `give` index on: finished by the last stage or never used. They
/// are marked with the number of stages, which names no stage.
pub open spec fn idle(gives: Seq<usize>, block_size: usize) -> Seq<SlotDrop> {
    span(0, gives[0] as int, gives.len() as usize) + span(
        gives[gives.len() - 1] as int,
        block_size as int,
        gives.len() as usize,
    )
}

/// Every slot to give up in a block of `block_size` slots whose stages have
/// the `give` indices `gives`: first the waiting slots of every stage, then
/// the idle ones.
pub open spec fn drop_plan(gives: Seq<usize>, block_size: usize) -> Seq<SlotDrop> {
    waiting_upto(gives, gives.len() as int) + idle(gives, block_size)
}

/// Whether `plan` is the drop plan of a block of `block_size` slots with
/// `stages` stages, for some `give` indices within the block.
pub open spec fn is_drop_plan(plan: Seq<SlotDrop>, stages: nat, block_size: usize) -> bool {
    exists|gives: Seq<usize>|
        {
            &&& gives.len() == stages
            &&& forall|i: int| 0 <= i < gives.len() ==> gives[i] <= block_size
            &&& plan == #[trigger] drop_plan(gives, block_size)
        }
}

/// How far the chased stage is ahead of stage `stage`, and zero where it
/// is not ahead.
pub open spec fn gap(gives: Seq<usize>, stage: int) -> nat {
    let chased = ring_prev(stage as nat, gives.len()) as int;
    if gives[stage] < gives[chased] {
        (gives[chased] - gives[stage]) as nat
    } else {
        0
    }
}

/// The sum of the gaps of the stages below `upto`.
pub open spec fn gaps_upto(gives: Seq<usize>, upto: int) -> nat
    decreases upto,
{
    if upto <= 0 {
        0
    } else {
        gaps_upto(gives, upto - 1) + gap(gives, upto - 1)
    }
}

/// As many slots wait as the gaps between each stage and the stage it
/// chases add up to, every one of them is marked with a stage and lies
/// below the largest `give` index.
pub proof fn lemma_waiting_count(gives: Seq<usize>, upto: int, block_size: usize)
    requires
        0 <= upto <= gives.len() <= usize::MAX,
        forall|i: int| 0 <= i < gives.len() ==> gives[i] <= block_size,
    ensures
        waiting_upto(gives, upto).len() == gaps_upto(gives, upto),
        forall|k: int|
            0 <= k < waiting_upto(gives, upto).len() ==> (#[trigger] waiting_upto(gives, upto)[k]).tag
                < gives.len() && waiting_upto(gives, upto)[k].slot < block_size,
    decreases upto,
{
    if upto > 0 {
        lemma_waiting_count(gives, upto - 1, block_size);
        let stage = upto - 1;
        let chased = ring_prev(stage as nat, gives.len()) as int;
        assert(0 <= chased < gives.len());
        let before = waiting_upto(gives, upto - 1);
        let here = waiting(gives, stage);
        assert forall|k: int| 0 <= k < waiting_upto(gives, upto).len() implies (
        #[trigger] waiting_upto(gives, upto)[k]).tag < gives.len() && waiting_upto(gives, upto)[k].slot
            < block_size by {
            if k < before.len() {
                assert(waiting_upto(gives, upto)[k] == before[k]);
            } else {
                assert(waiting_upto(gives, upto)[k] == here[k - before.len()]);
            }
        }
    }
}

/// The idle slots are marked with no stage and lie within the block.
pub proof fn lemma_idle_marks(gives: Seq<usize>, block_size: usize)
    requires
        1 <= gives.len() <= usize::MAX,
        forall|i: int| 0 <= i < gives.len() ==> gives[i] <= block_size,
    ensures
        forall|k: int|
            0 <= k < idle(gives, block_size).len() ==> (#[trigger] idle(gives, block_size)[k]).tag
                == gives.len() && idle(gives, block_size)[k].slot < block_size,
{
    let below = span(0, gives[0] as int, gives.len() as usize);
    let above = span(gives[gives.len() - 1] as int, block_size as int, gives.len() as usize);
    assert forall|k: int| 0 <= k < idle(gives, block_size).len() implies (#[trigger] idle(
        gives,
        block_size,
    )[k]).tag == gives.len() && idle(gives, block_size)[k].slot < block_size by {
        if k < below.len() {
            assert(idle(gives, block_size)[k] == below[k]);
        } else {
            assert(idle(gives, block_size)[k] == above[k - below.len()]);
        }
    }
}

/// The `give` index that counts for a stage whose cursors in a block read
/// `give` and `take` when the block is taken down: none while the stage
/// has work under way, which shows in a `give` index below the `take`
/// index; otherwise the `give` index, and the block's size for an index
/// beyond the block.
pub open spec fn give_at_rest(give: FieldView, take: FieldView, block_size: nat) -> Option<nat> {
    if give.index < take.index {
        None
    } else if give.index <= block_size {
        Some(give.index)
    } else {
        Some(block_size)
    }
}

/// Tells the `give` index that counts for a stage at teardown, from the
/// stage's cursors.
pub fn settled_give(give: Field, take: Field, block_size: usize) -> (at: Option<usize>)
    ensures
        at matches Some(g) ==> give_at_rest(give@, take@, block_size as nat) == Some(g as nat),
        at is None ==> give_at_rest(give@, take@, block_size as nat) is None,
{
    if give.get_index() < take.get_index() {
        None
    } else if give.get_index() <= block_size {
        Some(give.get_index())
    } else {
        Some(block_size)
    }
}

/// Whether some stage still has work under way in a block whose stages'
/// cursors read `cursors`, each pair a `give` and a `take`: the stage's
/// `give` index lies below its `take` index.
pub open spec fn unsettled(cursors: Seq<(Field, Field)>) -> bool {
    exists|s: int| 0 <= s < cursors.len() && (#[trigger] cursors[s]).0@.index < cursors[s].1@.index
}

/// The `give` indices that count at teardown for stages whose `give`
/// cursors are the first of each pair: an index beyond the block counts as
/// the block's size.
pub open spec fn gives_at_rest(cursors: Seq<(Field, Field)>, block_size: usize) -> Seq<usize> {
    Seq::new(
        cursors.len(),
        |s: int|
            if cursors[s].0@.index <= block_size {
                cursors[s].0@.index as usize
            } else {
                block_size
            },
    )
}

/// What taking down a block comes to whose stages' cursors read `cursors`:
/// nothing while a stage has work under way, and otherwise the drop plan
/// of the `give` indices.
pub open spec fn teardown_plan(cursors: Seq<(Field, Field)>, block_size: usize) -> Option<
    Seq<SlotDrop>,
> {
    if unsettled(cursors) {
        None
    } else {
        Some(drop_plan(gives_at_rest(cursors, block_size), block_size))
    }
}

/// Appends the slots from `from` up to `to`, marked with `tag`, to `plan`.
fn push_span(plan: &mut Vec<SlotDrop>, from: usize, to: usize, tag: usize)
    ensures
        final(plan)@ == old(plan)@ + span(from as int, to as int, tag),
{
    let mut slot = from;
    while slot < to
        invariant
            from <= slot,
            from < to ==> slot <= to,
            from >= to ==> slot == from,
            plan@ == old(plan)@ + span(from as int, slot as int, tag),
        decreases to - slot,
    {
        plan.push(SlotDrop { slot, tag });
        slot = slot + 1;
        assert(plan@ =~= old(plan)@ + span(from as int, slot as int, tag));
    }
    assert(span(from as int, slot as int, tag) =~= span(from as int, to as int, tag));
}

/// Lists the slots to give up in a block of `block_size` slots, from the
/// `give` indices of its stages.
pub fn plan_drops(gives: &Vec<usize>, block_size: usize) -> (plan: Vec<SlotDrop>)
    requires
        gives.len() >= 1,
    ensures
        plan@ == drop_plan(gives@, block_size),
{
    let stages = gives.len();
    let mut plan: Vec<SlotDrop> = Vec::new();
    let mut stage: usize = 0;
    while stage < stages
        invariant
            stages == gives.len(),
            stages >= 1,
            stage <= stages,
            plan@ == waiting_upto(gives@, stage as int),
        decreases stages - stage,
    {
        let chased = if stage == 0 {
            stages - 1
        } else {
            stage - 1
        };
        assert(chased == ring_prev(stage as nat, stages as nat)) by {
            if stage == 0 {
                vstd::arithmetic::div_mod::lemma_small_mod((stages - 1) as nat, stages as nat);
            } else {
                vstd::arithmetic::div_mod::lemma_mod_multiples_vanish(
                    1,
                    (stage - 1) as int,
                    stages as int,
                );
                vstd::arithmetic::div_mod::lemma_small_mod((stage - 1) as nat, stages as nat);
            }
        }
        push_span(&mut plan, gives[stage], gives[chased], chased);
        stage = stage + 1;
    }
    push_span(&mut plan, 0, gives[0], stages);
    push_span(&mut plan, gives[stages - 1], block_size, stages);
    assert(plan@ =~= drop_plan(gives@, block_size));
    plan
}

/// Lists the slots to give up in a block of `block_size` slots, from the
/// `give` and `take` cursors of its stages as they were read; nothing where
/// a stage still has work under way.
pub fn plan_teardown(cursors: &Vec<(Field, Field)>, block_size: usize) -> (plan: Option<
    Vec<SlotDrop>,
>)
    requires
        cursors.len() >= 1,
    ensures
        plan is None <==> unsettled(cursors@),
        plan matches Some(p) ==> p@ == drop_plan(gives_at_rest(cursors@, block_size), block_size),
        plan matches Some(p) ==> teardown_plan(cursors@, block_size) == Some(p@),
        plan is None ==> teardown_plan(cursors@, block_size) is None,
{
    let mut gives: Vec<usize> = Vec::new();
    let mut stage: usize = 0;
    while stage < cursors.len()
        invariant
            stage <= cursors.len(),
            gives.len() == stage,
            forall|s: int| 0 <= s < stage ==> !((#[trigger] cursors[s]).0@.index < cursors[s].1@.index),
            forall|s: int|
                0 <= s < stage ==> #[trigger] gives[s] == gives_at_rest(cursors@, block_size)[s],
        decreases cursors.len() - stage,
    {
        let (give, take) = cursors[stage];
        match settled_give(give, take, block_size) {
            None => {
                assert(cursors@[stage as int].0@.index < cursors@[stage as int].1@.index);
                return None;
            },
            Some(at) => {
                gives.push(at);
            },
        }
        stage = stage + 1;
    }
    assert(gives@ =~= gives_at_rest(cursors@, block_size));
    Some(plan_drops(&gives, block_size))
}

} // verus!
